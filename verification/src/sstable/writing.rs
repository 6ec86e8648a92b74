//! A writer and a reader, call by call: whatever is written comes back, however it was
//! cut into blocks.

use crate::common::error::ErrorView;
use crate::common::le::le_bytes;
use crate::sstable::block_reader::Blocks;
use crate::sstable::delta::{
    advanced, block_content, block_flushed, key_bytes, Cursor, PendingBlock,
};
use crate::sstable::roundtrip::{
    all_written, entries, keys_bytes, last_key_len, law_flushed_block_is_written, law_keys_append,
    law_stream_append, law_stream_roundtrip, lemma_keys_bytes_nonempty, stands_on, stored_len,
    stream_bytes, stream_entries, stream_frames, stream_last_key_len, writable_keys, WrittenBlock,
};
use crate::sstable::value::u64_monotonic::law_u64_monotonic_roundtrip;
use crate::sstable::value::vec_u32::law_vec_u32_roundtrip;
use crate::sstable::value::void::all_voids;
use crate::sstable::value::{
    U64MonotonicValueReader, U64MonotonicValueWriter, ValueReader, ValueWriter,
    VecU32ValueReader, VecU32ValueWriter, VoidValueReader, VoidValueWriter,
};
use std::ops::Range;
use vstd::prelude::*;

verus! {

/// What is asked of a writer.
pub enum WriterCall<M> {
    /// `write_suffix` with a prefix length and a suffix, then `write_value`.
    Entry(usize, Seq<u8>, M),
    /// `flush_block`, or `flush_block_if_required` where it flushes.
    Flush,
}

/// Whether `call` may lead a writer from `pre` to `post`, where a flush succeeds.
pub open spec fn called<TValueWriter: ValueWriter>(
    pre: PendingBlock<TValueWriter::Model>,
    call: WriterCall<TValueWriter::Model>,
    post: PendingBlock<TValueWriter::Model>,
) -> bool {
    match call {
        WriterCall::Entry(keep, suffix, value) => post == (PendingBlock {
            block: pre.block + key_bytes(keep as nat, suffix),
            values: pre.values.push(value),
            ..pre
        }),
        WriterCall::Flush => exists|range: Option<Range<usize>>| #[trigger]
            block_flushed::<TValueWriter>(pre, post, Ok(range)),
    }
}

/// The entries that `calls` write, in order.
pub open spec fn entries_of<M>(calls: Seq<WriterCall<M>>) -> Seq<(usize, Seq<u8>, M)>
    decreases calls.len(),
{
    if calls.len() == 0 {
        Seq::empty()
    } else {
        match calls.last() {
            WriterCall::Entry(keep, suffix, value) => entries_of(calls.drop_last()).push(
                (keep, suffix, value),
            ),
            WriterCall::Flush => entries_of(calls.drop_last()),
        }
    }
}

/// The keys of entries.
pub open spec fn keys_of<M>(all: Seq<(usize, Seq<u8>, M)>) -> Seq<(usize, Seq<u8>)> {
    all.map_values(|entry: (usize, Seq<u8>, M)| (entry.0, entry.1))
}

/// Whether `TValueReader` finds `values` in the section that holds them, whatever
/// follows it. A reader that does not count the values may find more behind them.
pub open spec fn values_come_back<TValueWriter: ValueWriter, TValueReader: ValueReader<
    Model = TValueWriter::Model,
>>(values: Seq<TValueWriter::Model>) -> bool {
    forall|rest: Seq<u8>|
        {
            let (found, consumed) = #[trigger] TValueReader::decode(
                TValueWriter::encode(values) + rest,
            );
            &&& values.is_prefix_of(found)
            &&& consumed == Ok::<nat, ErrorView>(TValueWriter::encode(values).len())
        }
}

/// Values that never decrease come back.
pub proof fn law_u64_monotonic_values_come_back(values: Seq<u64>)
    requires
        values.len() <= u64::MAX,
        U64MonotonicValueWriter::encodable(values),
    ensures
        values_come_back::<U64MonotonicValueWriter, U64MonotonicValueReader>(values),
{
    assert forall|rest: Seq<u8>|
        {
            let (found, consumed) = #[trigger] U64MonotonicValueReader::decode(
                U64MonotonicValueWriter::encode(values) + rest,
            );
            &&& values.is_prefix_of(found)
            &&& consumed == Ok::<nat, ErrorView>(U64MonotonicValueWriter::encode(values).len())
        } by {
        law_u64_monotonic_roundtrip(values, rest);
        assert(values =~= values.subrange(0, values.len() as int));
    }
}

/// Lists of ids come back, if their number and their lengths fit in 32 bits.
pub proof fn law_vec_u32_values_come_back(values: Seq<Seq<u32>>)
    requires
        values.len() <= u32::MAX,
        forall|i: int| 0 <= i < values.len() ==> (#[trigger] values[i]).len() <= u32::MAX,
    ensures
        values_come_back::<VecU32ValueWriter, VecU32ValueReader>(values),
{
    assert forall|rest: Seq<u8>|
        {
            let (found, consumed) = #[trigger] VecU32ValueReader::decode(
                VecU32ValueWriter::encode(values) + rest,
            );
            &&& values.is_prefix_of(found)
            &&& consumed == Ok::<nat, ErrorView>(VecU32ValueWriter::encode(values).len())
        } by {
        law_vec_u32_roundtrip(values, rest);
        assert(values =~= values.subrange(0, values.len() as int));
    }
}

/// Values that hold nothing come back, as far as an index can tell them apart.
pub proof fn law_void_values_come_back(values: Seq<()>)
    requires
        values.len() <= usize::MAX,
    ensures
        values_come_back::<VoidValueWriter, VoidValueReader>(values),
{
    assert(values =~= all_voids().subrange(0, values.len() as int));
}

/// Whether `calls` may lead a new writer through `states`, and whenever it flushes a key,
/// the values come back from their section and the length of what is stored fits in 32 bits.
pub open spec fn is_writing<TValueWriter: ValueWriter, TValueReader: ValueReader<
    Model = TValueWriter::Model,
>>(
    states: Seq<PendingBlock<TValueWriter::Model>>,
    calls: Seq<WriterCall<TValueWriter::Model>>,
) -> bool {
    &&& states.len() == calls.len() + 1
    &&& states[0].block.len() == 0
    &&& states[0].values.len() == 0
    &&& states[0].leftover.len() == 0
    &&& states[0].written.len() == 0
    &&& forall|i: int|
        0 <= i < calls.len() ==> {
            &&& called::<TValueWriter>(#[trigger] states[i], calls[i], states[i + 1])
            &&& calls[i] is Flush && states[i].block.len() > 0 ==> {
                &&& values_come_back::<TValueWriter, TValueReader>(states[i].values)
                &&& states[i].values.len() <= usize::MAX
                &&& stored_len::<TValueWriter>(states[i]) < u32::MAX
                &&& block_content::<TValueWriter>(states[i]).len() <= isize::MAX
            }
        }
}

/// Keys behind keys can be written if both can, one behind the other.
proof fn lemma_writable_split(
    a: Seq<(usize, Seq<u8>)>,
    b: Seq<(usize, Seq<u8>)>,
    prev_len: nat,
)
    ensures
        writable_keys(a + b, prev_len) <==> (writable_keys(a, prev_len) && writable_keys(
            b,
            last_key_len(a, prev_len),
        )),
    decreases a.len(),
{
    if a.len() == 0 {
        assert(a + b =~= b);
    } else {
        assert((a + b).skip(1) =~= a.skip(1) + b);
        let len = (a[0].0 + a[0].1.len()) as nat;
        lemma_writable_split(a.skip(1), b, len);
        if a.len() > 1 {
            assert(a.skip(1).last() == a.last());
        }
    }
}

/// The length of the last key of written blocks is that of their last entry.
proof fn lemma_stream_last_key_len<TValueReader: ValueReader>(
    blocks: Seq<WrittenBlock<TValueReader::Model>>,
    prev_len: nat,
)
    requires
        all_written::<TValueReader>(blocks, prev_len),
    ensures
        stream_last_key_len(blocks, prev_len) == last_key_len(
            keys_of(stream_entries(blocks)),
            prev_len,
        ),
    decreases blocks.len(),
{
    if blocks.len() > 0 {
        let len = last_key_len(blocks[0].keys, prev_len);
        lemma_stream_last_key_len::<TValueReader>(blocks.skip(1), len);
        let first = keys_of(blocks[0].entries());
        let rest = keys_of(stream_entries(blocks.skip(1)));
        assert(first =~= blocks[0].keys);
        assert(keys_of(stream_entries(blocks)) =~= first + rest);
        if rest.len() > 0 {
            assert((first + rest).last() == rest.last());
        } else {
            assert(first + rest =~= first);
        }
    }
}

/// What a writer has made of the calls so far: written blocks, and the block that is
/// not flushed yet.
proof fn lemma_writing<TValueWriter: ValueWriter, TValueReader: ValueReader<
    Model = TValueWriter::Model,
>>(
    states: Seq<PendingBlock<TValueWriter::Model>>,
    calls: Seq<WriterCall<TValueWriter::Model>>,
) -> (made: (Seq<WrittenBlock<TValueWriter::Model>>, Seq<(usize, Seq<u8>)>))
    requires
        is_writing::<TValueWriter, TValueReader>(states, calls),
        writable_keys(keys_of(entries_of(calls)), 0),
    ensures
        all_written::<TValueReader>(made.0, 0),
        states.last().written == stream_frames(made.0),
        states.last().leftover.len() == 0,
        states.last().block == keys_bytes(made.1),
        made.1.len() == states.last().values.len(),
        entries_of(calls) == stream_entries(made.0) + entries(made.1, states.last().values),
    decreases calls.len(),
{
    if calls.len() == 0 {
        let blocks = Seq::<WrittenBlock<TValueWriter::Model>>::empty();
        let keys = Seq::<(usize, Seq<u8>)>::empty();
        assert(states.last() == states[0]);
        assert(states[0].written =~= stream_frames(blocks));
        assert(states[0].block =~= keys_bytes(keys));
        assert(entries_of(calls) =~= stream_entries(blocks) + entries(keys, states[0].values));
        (blocks, keys)
    } else {
        let last = calls.len() - 1;
        let pre = states[last];
        let post = states[last + 1];
        let states0 = states.drop_last();
        let calls0 = calls.drop_last();
        assert(is_writing::<TValueWriter, TValueReader>(states0, calls0)) by {
            assert forall|i: int| 0 <= i < calls0.len() implies {
                &&& called::<TValueWriter>(#[trigger] states0[i], calls0[i], states0[i + 1])
                &&& calls0[i] is Flush && states0[i].block.len() > 0 ==> {
                    &&& values_come_back::<TValueWriter, TValueReader>(states0[i].values)
                    &&& states0[i].values.len() <= usize::MAX
                    &&& stored_len::<TValueWriter>(states0[i]) < u32::MAX
                    &&& block_content::<TValueWriter>(states0[i]).len() <= isize::MAX
                }
            } by {
                assert(states0[i] == states[i]);
            }
        }
        assert(called::<TValueWriter>(states[last], calls[last], states[last + 1]));
        let all0 = entries_of(calls0);
        match calls.last() {
            WriterCall::Entry(keep, suffix, value) => {
                assert(keys_of(entries_of(calls)) =~= keys_of(all0) + seq![(keep, suffix)]);
                lemma_writable_split(keys_of(all0), seq![(keep, suffix)], 0);
                let (blocks, keys) = lemma_writing::<TValueWriter, TValueReader>(states0, calls0);
                law_keys_append(keys, keep, suffix);
                let keys1 = keys.push((keep, suffix));
                assert(entries(keys1, post.values) =~= entries(keys, pre.values).push(
                    (keep, suffix, value),
                ));
                assert(entries_of(calls) =~= stream_entries(blocks) + entries(keys1, post.values));
                (blocks, keys1)
            },
            WriterCall::Flush => {
                let (blocks, keys) = lemma_writing::<TValueWriter, TValueReader>(states0, calls0);
                let range = choose|range: Option<Range<usize>>| #[trigger]
                    block_flushed::<TValueWriter>(pre, post, Ok(range));
                lemma_keys_bytes_nonempty(keys);
                if keys.len() == 0 {
                    (blocks, keys)
                } else {
                    let len = stream_last_key_len(blocks, 0);
                    lemma_stream_last_key_len::<TValueReader>(blocks, 0);
                    assert(keys_of(all0) =~= keys_of(stream_entries(blocks)) + keys);
                    lemma_writable_split(keys_of(stream_entries(blocks)), keys, 0);
                    assert(block_content::<TValueWriter>(pre) =~= TValueWriter::encode(pre.values)
                        + keys_bytes(keys));
                    let block = law_flushed_block_is_written::<TValueWriter, TValueReader>(
                        pre,
                        post,
                        range->0,
                        keys,
                        len,
                    );
                    law_stream_append::<TValueReader>(blocks, block, 0);
                    let none = Seq::<(usize, Seq<u8>)>::empty();
                    assert(post.block =~= keys_bytes(none));
                    assert(entries_of(calls) =~= stream_entries(blocks.push(block)) + entries(
                        none,
                        post.values,
                    ));
                    (blocks.push(block), none)
                }
            },
        }
    }
}

/// What was written comes back, and how it was cut into blocks does not show. A new
/// writer is given entries, each with no more of a prefix than the key before it has, is
/// flushed between them at will and after the last. A new reader of what was written,
/// with the end marker behind it, then finds each entry in order, with its prefix
/// length, its suffix and its value, and after the last of them the end.
///
/// `states` are what the writer goes through, `trace` what the reader goes through in
/// successive calls of `advance`, and `results` what these return. A key that keeps one
/// byte and adds none cannot be told from the mark of the long form, and is left out.
pub proof fn law_what_is_written_comes_back<TValueWriter: ValueWriter, TValueReader: ValueReader<
    Model = TValueWriter::Model,
>>(
    states: Seq<PendingBlock<TValueWriter::Model>>,
    calls: Seq<WriterCall<TValueWriter::Model>>,
    trace: Seq<Cursor<TValueReader::Model>>,
    results: Seq<Result<bool, ErrorView>>,
)
    requires
        is_writing::<TValueWriter, TValueReader>(states, calls),
        states.last().block.len() == 0,
        writable_keys(keys_of(entries_of(calls)), 0),
        trace.len() == results.len() + 1,
        forall|i: int|
            0 <= i < results.len() ==> advanced::<TValueReader>(
                #[trigger] trace[i],
                trace[i + 1],
                results[i],
            ),
        trace[0].key_len() == 0,
        trace[0].blocks == (Blocks {
            block: Seq::empty(),
            offset: 0,
            slice: states.last().written + le_bytes(0, 4),
            later: Seq::empty(),
            first_ordinal: None,
        }),
        results.len() <= entries_of(calls).len() + 1,
    ensures
        forall|i: int|
            0 <= i < results.len() ==> if i < entries_of(calls).len() {
                &&& #[trigger] results[i] == Ok::<bool, ErrorView>(true)
                &&& stands_on(trace[i + 1], entries_of(calls)[i])
            } else {
                results[i] == Ok::<bool, ErrorView>(false)
            },
{
    let (blocks, keys) = lemma_writing::<TValueWriter, TValueReader>(states, calls);
    lemma_keys_bytes_nonempty(keys);
    assert(entries(keys, states.last().values) =~= Seq::empty());
    assert(entries_of(calls) =~= stream_entries(blocks));
    assert(trace[0].blocks.slice == stream_bytes(blocks));
    law_stream_roundtrip::<TValueReader>(trace, results, blocks);
}

} // verus!

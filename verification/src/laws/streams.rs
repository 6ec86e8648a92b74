//! Laws of writing and reading: what is written comes back, block by block and as a
//! whole.

use crate::common::counting_writer::CountingWriter;
use crate::common::error::{result_view, Error};
use crate::common::le::{le_bytes, lemma_le_bytes_len};
use crate::common::owned_bytes::OwnedBytes;
use crate::sstable::delta::{
    advanced, block_compressed, block_content, block_flushed, block_frame, block_stored,
    key_bytes, DeltaReader, DeltaWriter, PendingBlock,
};
use crate::sstable::roundtrip::{
    all_written, entries, keys_bytes, law_flushed_block_is_written, law_frames_roundtrip,
    law_keys_append, lemma_one_block, stands_on, stored_len, stream_entries, stream_frames,
    writable_keys, written, WrittenBlock,
};
use crate::sstable::value::{ValueReader, ValueWriter};
use crate::sstable::writing::{
    called, entries_of, is_writing, keys_of, law_what_is_written_comes_back, values_come_back,
    WriterCall,
};
use std::ops::Range;
use vstd::prelude::*;

verus! {

/// Whether `reader` answers that it is on the key with the given prefix length and suffix,
/// and on the given value.
pub open spec fn shows<TValueReader: ValueReader>(
    reader: DeltaReader<TValueReader>,
    keep: usize,
    suffix: Seq<u8>,
    value: TValueReader::Model,
) -> bool {
    &&& forall|answer: usize| #[trigger]
        call_ensures(DeltaReader::<TValueReader>::common_prefix_len, (&reader,), answer)
            ==> answer == keep
    &&& forall|answer: &[u8]| #[trigger]
        call_ensures(DeltaReader::<TValueReader>::suffix, (&reader,), answer) ==> answer@
            == suffix
    &&& forall|answer: &TValueReader::Value| #[trigger]
        call_ensures(DeltaReader::<TValueReader>::value, (&reader,), answer)
            ==> TValueReader::model(*answer) == value
}

/// The keys with the given prefix lengths and suffixes.
spec fn paired(keeps: Seq<usize>, suffixes: Seq<&[u8]>) -> Seq<(usize, Seq<u8>)> {
    Seq::new(keeps.len(), |i: int| (keeps[i], suffixes[i]@))
}

/// The models of `values`.
spec fn modelled<TValueWriter: ValueWriter>(values: Seq<TValueWriter::Value>) -> Seq<
    TValueWriter::Model,
> {
    values.map_values(|value: TValueWriter::Value| TValueWriter::model(value))
}

/// Keys none of which keeps more than the key before it has can be written.
proof fn lemma_writable(keeps: Seq<usize>, suffixes: Seq<&[u8]>, lens: Seq<nat>, from: int)
    requires
        suffixes.len() == keeps.len(),
        lens.len() == keeps.len() + 1,
        forall|i: int|
            0 <= i < keeps.len() ==> {
                &&& #[trigger] keeps[i] <= lens[i]
                &&& lens[i + 1] == keeps[i] + suffixes[i]@.len()
                &&& suffixes[i]@.len() <= usize::MAX
                &&& !(keeps[i] == 1 && suffixes[i]@.len() == 0)
            },
        0 <= from <= keeps.len(),
    ensures
        writable_keys(paired(keeps, suffixes).skip(from), lens[from]),
    decreases keeps.len() - from,
{
    let keys = paired(keeps, suffixes).skip(from);
    if from < keeps.len() {
        lemma_writable(keeps, suffixes, lens, from + 1);
        assert(keys[0] == (keeps[from], suffixes[from]@));
        assert(keys.skip(1) =~= paired(keeps, suffixes).skip(from + 1));
    }
}

/// What is pending after `count` keys and their values.
proof fn lemma_pending<TValueWriter: ValueWriter>(
    states: Seq<DeltaWriter<TValueWriter>>,
    keeps: Seq<usize>,
    suffixes: Seq<&[u8]>,
    values: Seq<TValueWriter::Value>,
    count: nat,
)
    requires
        count <= keeps.len(),
        suffixes.len() == keeps.len(),
        values.len() == keeps.len(),
        states.len() == keeps.len() + 1,
        states[0]@.block.len() == 0,
        states[0]@.values.len() == 0,
        forall|i: int|
            0 <= i < keeps.len() ==> states[i + 1]@ == (PendingBlock {
                block: (#[trigger] states[i])@.block + key_bytes(keeps[i] as nat, suffixes[i]@),
                values: states[i]@.values.push(TValueWriter::model(values[i])),
                ..states[i]@
            }),
    ensures
        states[count as int]@ == (PendingBlock {
            block: keys_bytes(paired(keeps, suffixes).take(count as int)),
            values: modelled::<TValueWriter>(values).take(count as int),
            ..states[0]@
        }),
    decreases count,
{
    let keys = paired(keeps, suffixes);
    let models = modelled::<TValueWriter>(values);
    if count == 0 {
        assert(keys.take(0) =~= Seq::empty());
        assert(models.take(0) =~= states[0]@.values);
        assert(states[0]@.block =~= keys_bytes(keys.take(0)));
    } else {
        let before = (count - 1) as nat;
        lemma_pending(states, keeps, suffixes, values, before);
        assert(states[before as int]@.values == models.take(before as int));
        assert(keys.take(count as int) =~= keys.take(before as int).push(
            (keeps[before as int], suffixes[before as int]@),
        ));
        assert(models.take(count as int) =~= models.take(before as int).push(
            TValueWriter::model(values[before as int]),
        ));
        law_keys_append(keys.take(before as int), keeps[before as int], suffixes[before as int]@);
    }
}

/// The range that a flush returns is where its block is. Keys and values are handed to a
/// writer that has flushed all it was given before, and are flushed. A new reader of the
/// bytes that lie in the returned range, in all that was written since the writer was
/// made, finds exactly these keys with their values, in order, and then the end.
///
/// `states` and `keyed` are what the writer goes through before a key and between a key
/// and its value, `cursors` what the reader goes through, and `lens` are the lengths of the
/// keys, with that of no key in front. A key that keeps one byte and adds none cannot be
/// told from the mark of the long form, and is left out.
pub proof fn law_flushed_range_reads_back<TValueWriter: ValueWriter, TValueReader: ValueReader<
    Model = TValueWriter::Model,
>>(
    states: Seq<DeltaWriter<TValueWriter>>,
    keyed: Seq<DeltaWriter<TValueWriter>>,
    key_calls: Seq<&mut DeltaWriter<TValueWriter>>,
    value_calls: Seq<&mut DeltaWriter<TValueWriter>>,
    keeps: Seq<usize>,
    suffixes: Seq<&[u8]>,
    values: Seq<TValueWriter::Value>,
    lens: Seq<nat>,
    flush: &mut DeltaWriter<TValueWriter>,
    range: Range<usize>,
    sink: CountingWriter,
    output: Vec<u8>,
    bytes: Vec<u8>,
    window: OwnedBytes,
    cursors: Seq<DeltaReader<TValueReader>>,
    advances: Seq<&mut DeltaReader<TValueReader>>,
    results: Seq<Result<bool, Error>>,
)
    requires
        // the keys
        suffixes.len() == keeps.len(),
        values.len() == keeps.len() <= usize::MAX,
        lens.len() == keeps.len() + 1,
        lens[0] == 0,
        forall|i: int|
            0 <= i < keeps.len() ==> {
                &&& #[trigger] keeps[i] <= lens[i]
                &&& lens[i + 1] == keeps[i] + suffixes[i]@.len()
                &&& suffixes[i]@.len() <= usize::MAX
                &&& !(keeps[i] == 1 && suffixes[i]@.len() == 0)
            },
        // writing them
        states.len() == keeps.len() + 1,
        states[0]@.block.len() == 0,
        states[0]@.values.len() == 0,
        states[0]@.leftover.len() == 0,
        keyed.len() == keeps.len(),
        key_calls.len() == keeps.len(),
        value_calls.len() == keeps.len(),
        forall|i: int|
            0 <= i < keeps.len() ==> {
                &&& *(#[trigger] key_calls[i]) == states[i]
                &&& *final(key_calls[i]) == keyed[i]
                &&& call_ensures(
                    DeltaWriter::<TValueWriter>::write_suffix,
                    (key_calls[i], keeps[i], suffixes[i]),
                    (),
                )
            },
        forall|i: int|
            0 <= i < keeps.len() ==> {
                &&& *(#[trigger] value_calls[i]) == keyed[i]
                &&& *final(value_calls[i]) == states[i + 1]
                &&& call_ensures(
                    DeltaWriter::<TValueWriter>::write_value,
                    (value_calls[i], &values[i]),
                    (),
                )
            },
        // the flush
        *flush == states.last(),
        call_ensures(
            DeltaWriter::<TValueWriter>::flush_block,
            (flush,),
            Ok::<Option<Range<usize>>, Error>(Some(range)),
        ),
        values_come_back::<TValueWriter, TValueReader>(states.last()@.values),
        TValueWriter::encode(states.last()@.values).len() + states.last()@.block.len()
            <= isize::MAX,
        call_ensures(DeltaWriter::<TValueWriter>::finish, (*final(flush),), sink),
        call_ensures(CountingWriter::finish, (sink,), output),
        output@.len() <= u32::MAX,
        // reading
        bytes@ == output@.skip(states[0]@.before.len() as int).subrange(
            range.start as int,
            range.end as int,
        ),
        call_ensures(OwnedBytes::new, (bytes,), window),
        cursors.len() == results.len() + 1,
        call_ensures(DeltaReader::<TValueReader>::new, (window,), cursors[0]),
        advances.len() == results.len() <= keeps.len() + 1,
        forall|i: int|
            0 <= i < results.len() ==> {
                &&& *(#[trigger] advances[i]) == cursors[i]
                &&& *final(advances[i]) == cursors[i + 1]
                &&& call_ensures(
                    DeltaReader::<TValueReader>::advance,
                    (advances[i],),
                    results[i],
                )
            },
    ensures
        forall|i: int|
            0 <= i < results.len() ==> if i < keeps.len() {
                &&& #[trigger] results[i] matches Ok(true)
                &&& shows(
                    cursors[i + 1],
                    keeps[i],
                    suffixes[i]@,
                    TValueWriter::model(values[i]),
                )
            } else {
                results[i] matches Ok(false)
            },
{
    let pre = states.last()@;
    let post = (*final(flush))@;
    assert forall|i: int| 0 <= i < keeps.len() implies states[i + 1]@ == (PendingBlock {
        block: (#[trigger] states[i])@.block + key_bytes(keeps[i] as nat, suffixes[i]@),
        values: states[i]@.values.push(TValueWriter::model(values[i])),
        ..states[i]@
    }) by {
        assert(*key_calls[i] == states[i]);
        assert(*value_calls[i] == keyed[i]);
    }
    let block = lemma_block_is_written::<TValueWriter, TValueReader>(
        states,
        keeps,
        suffixes,
        values,
        lens,
        post,
        range,
    );
    lemma_one_block::<TValueReader>(block, 0);
    assert(output@.skip(states[0]@.before.len() as int) =~= post.written);
    assert(window@ =~= block.frame());
    lemma_reads_back::<TValueReader>(cursors, advances, results, seq![block]);
}

/// The block that a flush makes of keys and values.
proof fn lemma_block_is_written<TValueWriter: ValueWriter, TValueReader: ValueReader<
    Model = TValueWriter::Model,
>>(
    states: Seq<DeltaWriter<TValueWriter>>,
    keeps: Seq<usize>,
    suffixes: Seq<&[u8]>,
    values: Seq<TValueWriter::Value>,
    lens: Seq<nat>,
    post: PendingBlock<TValueWriter::Model>,
    range: Range<usize>,
) -> (block: WrittenBlock<TValueWriter::Model>)
    requires
        suffixes.len() == keeps.len(),
        values.len() == keeps.len() <= usize::MAX,
        lens.len() == keeps.len() + 1,
        lens[0] == 0,
        forall|i: int|
            0 <= i < keeps.len() ==> {
                &&& #[trigger] keeps[i] <= lens[i]
                &&& lens[i + 1] == keeps[i] + suffixes[i]@.len()
                &&& suffixes[i]@.len() <= usize::MAX
                &&& !(keeps[i] == 1 && suffixes[i]@.len() == 0)
            },
        states.len() == keeps.len() + 1,
        states[0]@.block.len() == 0,
        states[0]@.values.len() == 0,
        states[0]@.leftover.len() == 0,
        forall|i: int|
            0 <= i < keeps.len() ==> states[i + 1]@ == (PendingBlock {
                block: (#[trigger] states[i])@.block + key_bytes(keeps[i] as nat, suffixes[i]@),
                values: states[i]@.values.push(TValueWriter::model(values[i])),
                ..states[i]@
            }),
        block_flushed::<TValueWriter>(states.last()@, post, Ok(Some(range))),
        values_come_back::<TValueWriter, TValueReader>(states.last()@.values),
        TValueWriter::encode(states.last()@.values).len() + states.last()@.block.len()
            <= isize::MAX,
        post.written.len() <= u32::MAX,
    ensures
        written::<TValueReader>(block, 0),
        block.entries() == Seq::new(
            keeps.len(),
            |i: int| (keeps[i], suffixes[i]@, TValueWriter::model(values[i])),
        ),
        post.written == states[0]@.written + block.frame(),
        post.before == states[0]@.before,
        range.start == states[0]@.written.len(),
        range.end == post.written.len(),
{
    let keys = paired(keeps, suffixes);
    let models = modelled::<TValueWriter>(values);
    let count = keeps.len();
    let pre = states.last()@;
    lemma_pending(states, keeps, suffixes, values, count);
    assert(keys.take(count as int) =~= keys);
    assert(models.take(count as int) =~= models);
    lemma_writable(keeps, suffixes, lens, 0);
    assert(keys.skip(0) =~= keys);
    assert(block_content::<TValueWriter>(pre) =~= TValueWriter::encode(models) + pre.block);
    lemma_stored_len::<TValueWriter>(pre, post, range);
    let block = law_flushed_block_is_written::<TValueWriter, TValueReader>(
        pre,
        post,
        range,
        keys,
        0,
    );
    assert(block.entries() =~= Seq::new(
        keeps.len(),
        |i: int| (keeps[i], suffixes[i]@, TValueWriter::model(values[i])),
    ));
    block
}

/// A reader of written blocks shows their entries.
proof fn lemma_reads_back<TValueReader: ValueReader>(
    cursors: Seq<DeltaReader<TValueReader>>,
    advances: Seq<&mut DeltaReader<TValueReader>>,
    results: Seq<Result<bool, Error>>,
    blocks: Seq<WrittenBlock<TValueReader::Model>>,
)
    requires
        cursors.len() == results.len() + 1,
        cursors[0]@.blocks.block.len() == 0,
        cursors[0]@.blocks.offset == 0,
        cursors[0]@.blocks.slice == stream_frames(blocks),
        cursors[0]@.blocks.later.len() == 0,
        all_written::<TValueReader>(blocks, cursors[0]@.key_len()),
        advances.len() == results.len() <= stream_entries(blocks).len() + 1,
        forall|i: int|
            0 <= i < results.len() ==> {
                &&& *(#[trigger] advances[i]) == cursors[i]
                &&& *final(advances[i]) == cursors[i + 1]
                &&& call_ensures(
                    DeltaReader::<TValueReader>::advance,
                    (advances[i],),
                    results[i],
                )
            },
    ensures
        forall|i: int|
            0 <= i < results.len() ==> if i < stream_entries(blocks).len() {
                &&& #[trigger] results[i] matches Ok(true)
                &&& shows(
                    cursors[i + 1],
                    stream_entries(blocks)[i].0,
                    stream_entries(blocks)[i].1,
                    stream_entries(blocks)[i].2,
                )
            } else {
                results[i] matches Ok(false)
            },
{
    let trace = cursors.map_values(|cursor: DeltaReader<TValueReader>| cursor@);
    let views = results.map_values(|result: Result<bool, Error>| result_view(result));
    assert forall|i: int| 0 <= i < views.len() implies advanced::<TValueReader>(
        #[trigger] trace[i],
        trace[i + 1],
        views[i],
    ) by {
        assert(*advances[i] == cursors[i]);
    }
    law_frames_roundtrip::<TValueReader>(trace, views, blocks);
    assert forall|i: int| 0 <= i < results.len() implies if i < stream_entries(blocks).len() {
        &&& #[trigger] results[i] matches Ok(true)
        &&& shows(
            cursors[i + 1],
            stream_entries(blocks)[i].0,
            stream_entries(blocks)[i].1,
            stream_entries(blocks)[i].2,
        )
    } else {
        results[i] matches Ok(false)
    } by {
        assert(views[i] == result_view(results[i]));
        if i < stream_entries(blocks).len() {
            assert(stands_on(trace[i + 1], stream_entries(blocks)[i]));
        }
    }
}

/// The ranges of successive flushes are adjacent. A new writer is given keys and values,
/// and is flushed behind some of them. The range of the first flush starts at zero, that
/// of each other one where the range before it ended, and the last ends where the output
/// does.
///
/// `flushes` holds the range that was returned, behind each value, or none where there was
/// no flush, and `ends` where the range before each key ended, or zero.
pub proof fn law_ranges_are_adjacent<TValueWriter: ValueWriter>(
    wrt: Vec<u8>,
    states: Seq<DeltaWriter<TValueWriter>>,
    keyed: Seq<DeltaWriter<TValueWriter>>,
    filled: Seq<DeltaWriter<TValueWriter>>,
    key_calls: Seq<&mut DeltaWriter<TValueWriter>>,
    value_calls: Seq<&mut DeltaWriter<TValueWriter>>,
    flush_calls: Seq<&mut DeltaWriter<TValueWriter>>,
    keeps: Seq<usize>,
    suffixes: Seq<&[u8]>,
    values: Seq<TValueWriter::Value>,
    flushes: Seq<Option<Range<usize>>>,
    ends: Seq<usize>,
    sink: CountingWriter,
    output: Vec<u8>,
)
    requires
        suffixes.len() == keeps.len(),
        values.len() == keeps.len(),
        states.len() == keeps.len() + 1,
        call_ensures(DeltaWriter::<TValueWriter>::new, (wrt,), states[0]),
        keyed.len() == keeps.len(),
        filled.len() == keeps.len(),
        key_calls.len() == keeps.len(),
        value_calls.len() == keeps.len(),
        flush_calls.len() == keeps.len(),
        flushes.len() == keeps.len(),
        forall|i: int|
            0 <= i < keeps.len() ==> {
                &&& *(#[trigger] key_calls[i]) == states[i]
                &&& *final(key_calls[i]) == keyed[i]
                &&& call_ensures(
                    DeltaWriter::<TValueWriter>::write_suffix,
                    (key_calls[i], keeps[i], suffixes[i]),
                    (),
                )
            },
        forall|i: int|
            0 <= i < keeps.len() ==> {
                &&& *(#[trigger] value_calls[i]) == keyed[i]
                &&& *final(value_calls[i]) == filled[i]
                &&& call_ensures(
                    DeltaWriter::<TValueWriter>::write_value,
                    (value_calls[i], &values[i]),
                    (),
                )
            },
        forall|i: int|
            0 <= i < keeps.len() ==> match #[trigger] flushes[i] {
                Some(range) => {
                    &&& *flush_calls[i] == filled[i]
                    &&& *final(flush_calls[i]) == states[i + 1]
                    &&& call_ensures(
                        DeltaWriter::<TValueWriter>::flush_block,
                        (flush_calls[i],),
                        Ok::<Option<Range<usize>>, Error>(Some(range)),
                    )
                },
                None => states[i + 1] == filled[i],
            },
        ends.len() == keeps.len() + 1,
        ends[0] == 0,
        forall|i: int|
            0 <= i < keeps.len() ==> ends[i + 1] == match #[trigger] flushes[i] {
                Some(range) => range.end,
                None => ends[i],
            },
        call_ensures(DeltaWriter::<TValueWriter>::finish, (states.last(),), sink),
        call_ensures(CountingWriter::finish, (sink,), output),
    ensures
        forall|i: int|
            0 <= i < keeps.len() ==> (#[trigger] flushes[i] matches Some(range) ==> {
                &&& range.start == ends[i]
                &&& range.start < range.end
            }),
        output@.len() == wrt@.len() + ends.last(),
        output@.take(wrt@.len() as int) == wrt@,
{
    assert forall|i: int| 0 <= i < keeps.len() implies {
        &&& (#[trigger] states[i])@.before == states[i + 1]@.before
        &&& match flushes[i] {
            Some(range) => {
                &&& range.start == states[i]@.written.len()
                &&& range.end == states[i + 1]@.written.len()
                &&& range.start < range.end
            },
            None => states[i + 1]@.written == states[i]@.written,
        }
    } by {
        assert(*key_calls[i] == states[i]);
        assert(*value_calls[i] == keyed[i]);
        let flushed = flushes[i];
        if flushed is Some {
            let content = block_content::<TValueWriter>(filled[i]@);
            let (flag, stored) = block_stored(content, block_compressed(content));
            assert(block_frame(content, block_compressed(content)).len() > 0);
            assert(block_flushed::<TValueWriter>(filled[i]@, states[i + 1]@, Ok(flushed)));
        }
    }
    lemma_ends(states, flushes, ends, keeps.len());
    assert forall|i: int| 0 <= i < keeps.len() implies (
    #[trigger] flushes[i] matches Some(range) ==> {
        &&& range.start == ends[i]
        &&& range.start < range.end
    }) by {
        lemma_ends(states, flushes, ends, i as nat);
        assert(states[i]@.before == states[i + 1]@.before);
    }
    assert(output@.take(wrt@.len() as int) =~= wrt@);
}

/// What was written ends where the last range does.
proof fn lemma_ends<TValueWriter: ValueWriter>(
    states: Seq<DeltaWriter<TValueWriter>>,
    flushes: Seq<Option<Range<usize>>>,
    ends: Seq<usize>,
    count: nat,
)
    requires
        count <= flushes.len(),
        states.len() == flushes.len() + 1,
        ends.len() == flushes.len() + 1,
        ends[0] == 0,
        states[0]@.written.len() == 0,
        forall|i: int|
            0 <= i < flushes.len() ==> ends[i + 1] == match #[trigger] flushes[i] {
                Some(range) => range.end,
                None => ends[i],
            },
        forall|i: int|
            0 <= i < flushes.len() ==> {
                &&& (#[trigger] states[i])@.before == states[i + 1]@.before
                &&& match flushes[i] {
                    Some(range) => range.end == states[i + 1]@.written.len(),
                    None => states[i + 1]@.written == states[i]@.written,
                }
            },
    ensures
        ends[count as int] == states[count as int]@.written.len(),
        states[count as int]@.before == states[0]@.before,
    decreases count,
{
    if count > 0 {
        let before = count - 1;
        lemma_ends(states, flushes, ends, before as nat);
        assert(states[before]@.before == states[before + 1]@.before);
        assert(ends[before + 1] == match flushes[before] {
            Some(range) => range.end,
            None => ends[before],
        });
    }
}

/// What was written comes back, and how it was cut into blocks does not show. A new
/// writer is given keys and values, and is flushed behind some of them, the last one
/// included. A new reader of the output, with four bytes of zero behind it, finds each key
/// with its value, in order, and then the end.
///
/// `flushes` holds the range that was returned, behind each value, or none where there was
/// no flush, and `lens` the lengths of the keys, with that of no key in front. A key that
/// keeps one byte and adds none cannot be told from the mark of the long form, and is left
/// out.
pub proof fn law_entries_come_back<TValueWriter: ValueWriter, TValueReader: ValueReader<
    Model = TValueWriter::Model,
>>(
    wrt: Vec<u8>,
    states: Seq<DeltaWriter<TValueWriter>>,
    keyed: Seq<DeltaWriter<TValueWriter>>,
    filled: Seq<DeltaWriter<TValueWriter>>,
    key_calls: Seq<&mut DeltaWriter<TValueWriter>>,
    value_calls: Seq<&mut DeltaWriter<TValueWriter>>,
    flush_calls: Seq<&mut DeltaWriter<TValueWriter>>,
    keeps: Seq<usize>,
    suffixes: Seq<&[u8]>,
    values: Seq<TValueWriter::Value>,
    flushes: Seq<Option<Range<usize>>>,
    lens: Seq<nat>,
    sink: CountingWriter,
    output: Vec<u8>,
    bytes: Vec<u8>,
    window: OwnedBytes,
    cursors: Seq<DeltaReader<TValueReader>>,
    advances: Seq<&mut DeltaReader<TValueReader>>,
    results: Seq<Result<bool, Error>>,
)
    requires
        // the keys
        suffixes.len() == keeps.len(),
        values.len() == keeps.len() <= usize::MAX,
        lens.len() == keeps.len() + 1,
        lens[0] == 0,
        forall|i: int|
            0 <= i < keeps.len() ==> {
                &&& #[trigger] keeps[i] <= lens[i]
                &&& lens[i + 1] == keeps[i] + suffixes[i]@.len()
                &&& suffixes[i]@.len() <= usize::MAX
                &&& !(keeps[i] == 1 && suffixes[i]@.len() == 0)
            },
        // writing them
        states.len() == keeps.len() + 1,
        call_ensures(DeltaWriter::<TValueWriter>::new, (wrt,), states[0]),
        keyed.len() == keeps.len(),
        filled.len() == keeps.len(),
        key_calls.len() == keeps.len(),
        value_calls.len() == keeps.len(),
        flush_calls.len() == keeps.len(),
        flushes.len() == keeps.len(),
        forall|i: int|
            0 <= i < keeps.len() ==> {
                &&& *(#[trigger] key_calls[i]) == states[i]
                &&& *final(key_calls[i]) == keyed[i]
                &&& call_ensures(
                    DeltaWriter::<TValueWriter>::write_suffix,
                    (key_calls[i], keeps[i], suffixes[i]),
                    (),
                )
            },
        forall|i: int|
            0 <= i < keeps.len() ==> {
                &&& *(#[trigger] value_calls[i]) == keyed[i]
                &&& *final(value_calls[i]) == filled[i]
                &&& call_ensures(
                    DeltaWriter::<TValueWriter>::write_value,
                    (value_calls[i], &values[i]),
                    (),
                )
            },
        forall|i: int|
            0 <= i < keeps.len() ==> match #[trigger] flushes[i] {
                Some(range) => {
                    &&& *flush_calls[i] == filled[i]
                    &&& *final(flush_calls[i]) == states[i + 1]
                    &&& call_ensures(
                        DeltaWriter::<TValueWriter>::flush_block,
                        (flush_calls[i],),
                        Ok::<Option<Range<usize>>, Error>(Some(range)),
                    )
                },
                None => states[i + 1] == filled[i],
            },
        keeps.len() > 0 ==> flushes.last() is Some,
        forall|i: int|
            0 <= i < keeps.len() && flushes[i] is Some ==> {
                &&& values_come_back::<TValueWriter, TValueReader>((#[trigger] filled[i])@.values)
                &&& filled[i]@.values.len() <= usize::MAX
                &&& TValueWriter::encode(filled[i]@.values).len() + filled[i]@.block.len()
                    <= isize::MAX
            },
        call_ensures(DeltaWriter::<TValueWriter>::finish, (states.last(),), sink),
        call_ensures(CountingWriter::finish, (sink,), output),
        output@.len() <= u32::MAX,
        // reading
        bytes@ == output@.skip(wrt@.len() as int) + seq![0u8, 0u8, 0u8, 0u8],
        call_ensures(OwnedBytes::new, (bytes,), window),
        cursors.len() == results.len() + 1,
        call_ensures(DeltaReader::<TValueReader>::new, (window,), cursors[0]),
        advances.len() == results.len() <= keeps.len() + 1,
        forall|i: int|
            0 <= i < results.len() ==> {
                &&& *(#[trigger] advances[i]) == cursors[i]
                &&& *final(advances[i]) == cursors[i + 1]
                &&& call_ensures(
                    DeltaReader::<TValueReader>::advance,
                    (advances[i],),
                    results[i],
                )
            },
    ensures
        forall|i: int|
            0 <= i < results.len() ==> if i < keeps.len() {
                &&& #[trigger] results[i] matches Ok(true)
                &&& shows(
                    cursors[i + 1],
                    keeps[i],
                    suffixes[i]@,
                    TValueWriter::model(values[i]),
                )
            } else {
                results[i] matches Ok(false)
            },
{
    assert forall|i: int| 0 <= i < keeps.len() implies moved::<TValueWriter>(
        #[trigger] states[i],
        keeps[i],
        suffixes[i]@,
        values[i],
        filled[i],
        flushes[i],
        states[i + 1],
    ) by {
        assert(*key_calls[i] == states[i]);
        assert(*value_calls[i] == keyed[i]);
        let flushed = flushes[i];
        if flushed is Some {
            assert(block_flushed::<TValueWriter>(filled[i]@, states[i + 1]@, Ok(flushed)));
        }
    }
    assert(output@.skip(wrt@.len() as int) =~= states.last()@.written) by {
        lemma_grows(states, keeps, suffixes, values, filled, flushes, 0, keeps.len() as int);
    }
    let (views, calls) = lemma_calls::<TValueWriter, TValueReader>(
        states,
        keeps,
        suffixes,
        values,
        filled,
        flushes,
        keeps.len(),
    );
    let keys = paired(keeps, suffixes);
    lemma_writable(keeps, suffixes, lens, 0);
    assert(keys.skip(0) =~= keys);
    assert(keys_of(entries_of(calls)) =~= keys);
    assert(states.last()@.block.len() == 0) by {
        let last = keeps.len() - 1;
        if keeps.len() > 0 {
            let range = flushes[last]->0;
            assert(moved::<TValueWriter>(
                states[last],
                keeps[last],
                suffixes[last]@,
                values[last],
                filled[last],
                flushes[last],
                states[last + 1],
            ));
            assert(block_flushed::<TValueWriter>(
                filled[last]@,
                states[last + 1]@,
                Ok(Some(range)),
            ));
        }
    }
    let trace = cursors.map_values(|cursor: DeltaReader<TValueReader>| cursor@);
    let answers = results.map_values(|result: Result<bool, Error>| result_view(result));
    assert forall|i: int| 0 <= i < answers.len() implies advanced::<TValueReader>(
        #[trigger] trace[i],
        trace[i + 1],
        answers[i],
    ) by {
        assert(*advances[i] == cursors[i]);
    }
    lemma_end_marker();
    assert(bytes@ =~= views.last().written + le_bytes(0, 4));
    law_what_is_written_comes_back::<TValueWriter, TValueReader>(views, calls, trace, answers);
    assert forall|i: int| 0 <= i < results.len() implies if i < keeps.len() {
        &&& #[trigger] results[i] matches Ok(true)
        &&& shows(cursors[i + 1], keeps[i], suffixes[i]@, TValueWriter::model(values[i]))
    } else {
        results[i] matches Ok(false)
    } by {
        assert(answers[i] == result_view(results[i]));
        if i < keeps.len() {
            assert(stands_on(trace[i + 1], entries_of(calls)[i]));
        }
    }
}

/// The end marker is four bytes of zero.
proof fn lemma_end_marker()
    ensures
        le_bytes(0, 4) == seq![0u8, 0u8, 0u8, 0u8],
{
    reveal_with_fuel(le_bytes, 5);
    assert(le_bytes(0, 4) =~= seq![0u8, 0u8, 0u8, 0u8]);
}

/// Whether a writer is led from `start` to `filled` by a key and a value, and on to `next`
/// by a flush that returns `range`, if there is one.
spec fn moved<TValueWriter: ValueWriter>(
    start: DeltaWriter<TValueWriter>,
    keep: usize,
    suffix: Seq<u8>,
    value: TValueWriter::Value,
    filled: DeltaWriter<TValueWriter>,
    range: Option<Range<usize>>,
    next: DeltaWriter<TValueWriter>,
) -> bool {
    &&& filled@ == (PendingBlock {
        block: start@.block + key_bytes(keep as nat, suffix),
        values: start@.values.push(TValueWriter::model(value)),
        ..start@
    })
    &&& match range {
        Some(range) => block_flushed::<TValueWriter>(filled@, next@, Ok(Some(range))),
        None => next == filled,
    }
}

/// What was written stays, and what was there before it.
proof fn lemma_grows<TValueWriter: ValueWriter>(
    states: Seq<DeltaWriter<TValueWriter>>,
    keeps: Seq<usize>,
    suffixes: Seq<&[u8]>,
    values: Seq<TValueWriter::Value>,
    filled: Seq<DeltaWriter<TValueWriter>>,
    flushes: Seq<Option<Range<usize>>>,
    from: int,
    to: int,
)
    requires
        0 <= from <= to <= keeps.len(),
        states.len() == keeps.len() + 1,
        forall|i: int|
            0 <= i < keeps.len() ==> moved::<TValueWriter>(
                #[trigger] states[i],
                keeps[i],
                suffixes[i]@,
                values[i],
                filled[i],
                flushes[i],
                states[i + 1],
            ),
    ensures
        states[from]@.written.len() <= states[to]@.written.len(),
        states[from]@.before == states[to]@.before,
    decreases to - from,
{
    if from < to {
        lemma_grows(states, keeps, suffixes, values, filled, flushes, from, to - 1);
        assert(moved::<TValueWriter>(
            states[to - 1],
            keeps[to - 1],
            suffixes[to - 1]@,
            values[to - 1],
            filled[to - 1],
            flushes[to - 1],
            states[to],
        ));
    }
}

/// The calls that lead a writer through the first `count` keys, with their values and the
/// flushes behind them.
#[verifier::spinoff_prover]
proof fn lemma_calls<TValueWriter: ValueWriter, TValueReader: ValueReader<
    Model = TValueWriter::Model,
>>(
    states: Seq<DeltaWriter<TValueWriter>>,
    keeps: Seq<usize>,
    suffixes: Seq<&[u8]>,
    values: Seq<TValueWriter::Value>,
    filled: Seq<DeltaWriter<TValueWriter>>,
    flushes: Seq<Option<Range<usize>>>,
    count: nat,
) -> (made: (Seq<PendingBlock<TValueWriter::Model>>, Seq<WriterCall<TValueWriter::Model>>))
    requires
        count <= keeps.len(),
        states.len() == keeps.len() + 1,
        states[0]@.block.len() == 0,
        states[0]@.values.len() == 0,
        states[0]@.leftover.len() == 0,
        states[0]@.written.len() == 0,
        forall|i: int|
            0 <= i < keeps.len() ==> moved::<TValueWriter>(
                #[trigger] states[i],
                keeps[i],
                suffixes[i]@,
                values[i],
                filled[i],
                flushes[i],
                states[i + 1],
            ),
        forall|i: int|
            0 <= i < keeps.len() && flushes[i] is Some ==> {
                &&& values_come_back::<TValueWriter, TValueReader>((#[trigger] filled[i])@.values)
                &&& filled[i]@.values.len() <= usize::MAX
                &&& TValueWriter::encode(filled[i]@.values).len() + filled[i]@.block.len()
                    <= isize::MAX
            },
        states.last()@.written.len() <= u32::MAX,
    ensures
        is_writing::<TValueWriter, TValueReader>(made.0, made.1),
        made.0.last() == states[count as int]@,
        made.0.last().leftover.len() == 0,
        entries_of(made.1) == Seq::new(
            count,
            |i: int| (keeps[i], suffixes[i]@, TValueWriter::model(values[i])),
        ),
    decreases count,
{
    if count == 0 {
        let calls = Seq::<WriterCall<TValueWriter::Model>>::empty();
        assert(entries_of(calls) =~= Seq::new(
            0,
            |i: int| (keeps[i], suffixes[i]@, TValueWriter::model(values[i])),
        ));
        (seq![states[0]@], calls)
    } else {
        let last = count - 1;
        let (views, calls) = lemma_calls::<TValueWriter, TValueReader>(
            states,
            keeps,
            suffixes,
            values,
            filled,
            flushes,
            last as nat,
        );
        let model = TValueWriter::model(values[last]);
        let entry = WriterCall::Entry(keeps[last], suffixes[last]@, model);
        assert(moved::<TValueWriter>(
            states[last],
            keeps[last],
            suffixes[last]@,
            values[last],
            filled[last],
            flushes[last],
            states[last + 1],
        ));
        lemma_entry_call::<TValueWriter, TValueReader>(views, calls, entry, filled[last]@);
        let views1 = views.push(filled[last]@);
        let calls1 = calls.push(entry);
        assert(entries_of(calls1) =~= Seq::new(
            count,
            |i: int| (keeps[i], suffixes[i]@, TValueWriter::model(values[i])),
        ));
        match flushes[last] {
            Some(range) => {
                let post = states[last + 1]@;
                let flush = WriterCall::<TValueWriter::Model>::Flush;
                lemma_grows(
                    states,
                    keeps,
                    suffixes,
                    values,
                    filled,
                    flushes,
                    last + 1,
                    keeps.len() as int,
                );
                lemma_flush_call::<TValueWriter, TValueReader>(views1, calls1, post, range);
                (views1.push(post), calls1.push(flush))
            },
            None => (views1, calls1),
        }
    }
}

/// The entries of one more call.
proof fn lemma_entries_push<M>(calls: Seq<WriterCall<M>>, call: WriterCall<M>)
    ensures
        entries_of(calls.push(call)) == match call {
            WriterCall::Entry(keep, suffix, value) => entries_of(calls).push(
                (keep, suffix, value),
            ),
            WriterCall::Flush => entries_of(calls),
        },
{
    assert(calls.push(call).drop_last() =~= calls);
}

/// The length of what a flush stores fits in 32 bits if that of all that was written does.
proof fn lemma_stored_len<TValueWriter: ValueWriter>(
    pre: PendingBlock<TValueWriter::Model>,
    post: PendingBlock<TValueWriter::Model>,
    range: Range<usize>,
)
    requires
        block_flushed::<TValueWriter>(pre, post, Ok(Some(range))),
        post.written.len() <= u32::MAX,
    ensures
        pre.block.len() > 0,
        stored_len::<TValueWriter>(pre) < u32::MAX,
        block_content::<TValueWriter>(pre).len() == pre.leftover.len() + TValueWriter::encode(
            pre.values,
        ).len() + pre.block.len(),
{
    let content = block_content::<TValueWriter>(pre);
    let (flag, stored) = block_stored(content, block_compressed(content));
    let frame = block_frame(content, block_compressed(content));
    lemma_le_bytes_len(stored.len() % 0x1_0000_0000 + 1, 4);
    assert(frame.len() == 5 + stored.len());
    assert(post.written.len() == pre.written.len() + frame.len());
}

/// One more entry.
proof fn lemma_entry_call<TValueWriter: ValueWriter, TValueReader: ValueReader<
    Model = TValueWriter::Model,
>>(
    states: Seq<PendingBlock<TValueWriter::Model>>,
    calls: Seq<WriterCall<TValueWriter::Model>>,
    entry: WriterCall<TValueWriter::Model>,
    next: PendingBlock<TValueWriter::Model>,
)
    requires
        is_writing::<TValueWriter, TValueReader>(states, calls),
        entry is Entry,
        called::<TValueWriter>(states.last(), entry, next),
    ensures
        is_writing::<TValueWriter, TValueReader>(states.push(next), calls.push(entry)),
        entries_of(calls.push(entry)) == match entry {
            WriterCall::Entry(keep, suffix, value) => entries_of(calls).push(
                (keep, suffix, value),
            ),
            WriterCall::Flush => entries_of(calls),
        },
        next.leftover == states.last().leftover,
{
    lemma_one_more::<TValueWriter, TValueReader>(states, calls, entry, next);
    lemma_entries_push(calls, entry);
}

/// One more flush.
proof fn lemma_flush_call<TValueWriter: ValueWriter, TValueReader: ValueReader<
    Model = TValueWriter::Model,
>>(
    states: Seq<PendingBlock<TValueWriter::Model>>,
    calls: Seq<WriterCall<TValueWriter::Model>>,
    next: PendingBlock<TValueWriter::Model>,
    range: Range<usize>,
)
    requires
        is_writing::<TValueWriter, TValueReader>(states, calls),
        states.last().leftover.len() == 0,
        block_flushed::<TValueWriter>(states.last(), next, Ok(Some(range))),
        next.written.len() <= u32::MAX,
        values_come_back::<TValueWriter, TValueReader>(states.last().values),
        states.last().values.len() <= usize::MAX,
        TValueWriter::encode(states.last().values).len() + states.last().block.len()
            <= isize::MAX,
    ensures
        is_writing::<TValueWriter, TValueReader>(states.push(next), calls.push(WriterCall::Flush)),
        entries_of(calls.push(WriterCall::Flush)) == entries_of(calls),
        next.leftover.len() == 0,
{
    let flush = WriterCall::<TValueWriter::Model>::Flush;
    lemma_stored_len::<TValueWriter>(states.last(), next, range);
    assert(called::<TValueWriter>(states.last(), flush, next));
    lemma_one_more::<TValueWriter, TValueReader>(states, calls, flush, next);
    lemma_entries_push(calls, flush);
}

/// One more call.
proof fn lemma_one_more<TValueWriter: ValueWriter, TValueReader: ValueReader<
    Model = TValueWriter::Model,
>>(
    states: Seq<PendingBlock<TValueWriter::Model>>,
    calls: Seq<WriterCall<TValueWriter::Model>>,
    call: WriterCall<TValueWriter::Model>,
    next: PendingBlock<TValueWriter::Model>,
)
    requires
        is_writing::<TValueWriter, TValueReader>(states, calls),
        called::<TValueWriter>(states.last(), call, next),
        call is Flush && states.last().block.len() > 0 ==> {
            &&& values_come_back::<TValueWriter, TValueReader>(states.last().values)
            &&& states.last().values.len() <= usize::MAX
            &&& stored_len::<TValueWriter>(states.last()) < u32::MAX
            &&& block_content::<TValueWriter>(states.last()).len() <= isize::MAX
        },
    ensures
        is_writing::<TValueWriter, TValueReader>(states.push(next), calls.push(call)),
{
    let states1 = states.push(next);
    let calls1 = calls.push(call);
    assert forall|i: int| 0 <= i < calls1.len() implies {
        &&& called::<TValueWriter>(#[trigger] states1[i], calls1[i], states1[i + 1])
        &&& calls1[i] is Flush && states1[i].block.len() > 0 ==> {
            &&& values_come_back::<TValueWriter, TValueReader>(states1[i].values)
            &&& states1[i].values.len() <= usize::MAX
            &&& stored_len::<TValueWriter>(states1[i]) < u32::MAX
            &&& block_content::<TValueWriter>(states1[i]).len() <= isize::MAX
        }
    } by {
        assert(states1[i] == states[i]);
        if i < calls.len() {
            assert(called::<TValueWriter>(states[i], calls[i], states[i + 1]));
        }
    }
}

} // verus!

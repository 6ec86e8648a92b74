//! Laws of writing blocks: what a flush puts out, and where.

use crate::common::counting_writer::CountingWriter;
use crate::common::error::{Error, ErrorKind};
use crate::common::le::le_bytes;
use crate::laws::values::{le4, lemma_le4_of_bytes};
use crate::sstable::compression::zstd_frame;
use crate::sstable::delta::{block_content, compressible, write_frame, DeltaWriter};
use crate::sstable::value::ValueWriter;
use crate::sstable::vint::{serialize_into_vec, vint_bytes};
use std::ops::Range;
use vstd::prelude::*;

verus! {

/// A frame goes behind the output and is laid out as follows: the length of all that
/// comes behind it, in four bytes with the least significant one first, a flag, and what
/// is stored. That is the compressed content, with the flag 1, where it was compressed and
/// became shorter, and the content, with the flag 0, where not.
pub proof fn law_frame_layout(
    content: &[u8],
    compressed: Option<&[u8]>,
    output: &mut CountingWriter,
    before: Vec<u8>,
    after: Vec<u8>,
)
    requires
        call_ensures(CountingWriter::finish, (*output,), before),
        call_ensures(write_frame, (content, compressed, output), ()),
        call_ensures(CountingWriter::finish, (*final(output),), after),
    ensures
        ({
            let frame = after@.skip(before@.len() as int);
            let shrunk = compressed matches Some(compressed) && compressed@.len() < content@.len();
            let stored = if shrunk {
                compressed->0@
            } else {
                content@
            };
            &&& after@.len() >= before@.len()
            &&& after@.take(before@.len() as int) == before@
            &&& frame.len() == 5 + stored.len()
            &&& le4(frame, 0) == (stored.len() % 0x1_0000_0000 + 1) % 0x1_0000_0000
            &&& frame[4] == if shrunk {
                1u8
            } else {
                0u8
            }
            &&& frame.skip(5) == stored
        }),
{
    let frame = after@.skip(before@.len() as int);
    let shrunk = compressed matches Some(compressed) && compressed@.len() < content@.len();
    let (flag, stored) = if shrunk {
        (1u8, compressed->0@)
    } else {
        (0u8, content@)
    };
    let header = le_bytes(stored.len() % 0x1_0000_0000 + 1, 4);
    lemma_le4_of_bytes(stored.len() % 0x1_0000_0000 + 1);
    assert(frame =~= header + seq![flag] + stored);
    assert(after@.take(before@.len() as int) =~= before@);
    assert(frame.skip(5) =~= stored);
}

/// The output of a new writer is what it was given, nothing of it is counted, and there
/// is nothing to flush.
pub proof fn law_new_writer<TValueWriter: ValueWriter>(
    wrt: Vec<u8>,
    writer: DeltaWriter<TValueWriter>,
    sink: CountingWriter,
    count: u64,
    output: Vec<u8>,
)
    requires
        call_ensures(DeltaWriter::<TValueWriter>::new, (wrt,), writer),
        call_ensures(DeltaWriter::<TValueWriter>::finish, (writer,), sink),
        call_ensures(CountingWriter::written_bytes, (&sink,), count),
        call_ensures(CountingWriter::finish, (sink,), output),
    ensures
        output@ == wrt@,
        count == 0,
        writer@.block.len() == 0,
        writer@.values.len() == 0,
        writer@.leftover.len() == 0,
        writer@.block_len == 4_000,
{
    assert(output@ =~= wrt@);
}

/// A key goes behind the keys of the pending block: first its two lengths, in one byte if
/// both are below 16 and else as a mark and two vints, then its suffix. Nothing else
/// changes.
///
/// `keep_bytes` and `add_bytes` are the vints of the two lengths.
pub proof fn law_key_is_appended<TValueWriter: ValueWriter>(
    writer: &mut DeltaWriter<TValueWriter>,
    keep: usize,
    suffix: &[u8],
    keep_bytes: &mut Vec<u8>,
    add_bytes: &mut Vec<u8>,
)
    requires
        call_ensures(DeltaWriter::<TValueWriter>::write_suffix, (writer, keep, suffix), ()),
        call_ensures(serialize_into_vec, (keep as u64, keep_bytes), ()),
        (*old(keep_bytes))@.len() == 0,
        call_ensures(serialize_into_vec, (suffix@.len() as u64, add_bytes), ()),
        (*old(add_bytes))@.len() == 0,
        suffix@.len() <= usize::MAX,
    ensures
        (*final(writer))@.block == (*old(writer))@.block + (if keep < 16 && suffix@.len() < 16 {
            seq![(keep + 16 * suffix@.len()) as u8]
        } else {
            seq![1u8] + (*final(keep_bytes))@ + (*final(add_bytes))@
        }) + suffix@,
        (*final(writer))@.values == (*old(writer))@.values,
        (*final(writer))@.leftover == (*old(writer))@.leftover,
        (*final(writer))@.written == (*old(writer))@.written,
        (*final(writer))@.before == (*old(writer))@.before,
        (*final(writer))@.block_len == (*old(writer))@.block_len,
{
    assert((*final(keep_bytes))@ =~= vint_bytes(keep as nat));
    assert((*final(add_bytes))@ =~= vint_bytes(suffix@.len()));
    assert((*final(writer))@.block =~= (*old(writer))@.block + (if keep < 16 && suffix@.len()
        < 16 {
        seq![(keep + 16 * suffix@.len()) as u8]
    } else {
        seq![1u8] + (*final(keep_bytes))@ + (*final(add_bytes))@
    }) + suffix@);
}

/// The lengths of a key are written as they are in front of its suffix.
pub proof fn law_lengths_are_appended<TValueWriter: ValueWriter>(
    writer: &mut DeltaWriter<TValueWriter>,
    keep: usize,
    add: usize,
    suffix: &[u8],
    key_writer: &mut DeltaWriter<TValueWriter>,
)
    requires
        call_ensures(DeltaWriter::<TValueWriter>::encode_keep_add, (writer, keep, add), ()),
        suffix@.len() == add,
        (*old(key_writer))@ == (*old(writer))@,
        call_ensures(DeltaWriter::<TValueWriter>::write_suffix, (key_writer, keep, suffix), ()),
    ensures
        (*final(writer))@.block + suffix@ == (*final(key_writer))@.block,
{
    assert((*final(writer))@.block + suffix@ =~= (*final(key_writer))@.block);
}

/// A value goes behind the pending values; a change of the block length shows in the block
/// length. Nothing else changes.
pub proof fn law_value_is_appended<TValueWriter: ValueWriter>(
    writer: &mut DeltaWriter<TValueWriter>,
    value: TValueWriter::Value,
    resized: &mut DeltaWriter<TValueWriter>,
    block_len: usize,
)
    requires
        call_ensures(DeltaWriter::<TValueWriter>::write_value, (writer, &value), ()),
        call_ensures(DeltaWriter::<TValueWriter>::set_block_len, (resized, block_len), ()),
    ensures
        (*final(writer))@.values == (*old(writer))@.values.push(TValueWriter::model(value)),
        (*final(writer))@.block == (*old(writer))@.block,
        (*final(writer))@.leftover == (*old(writer))@.leftover,
        (*final(writer))@.written == (*old(writer))@.written,
        (*final(writer))@.before == (*old(writer))@.before,
        (*final(writer))@.block_len == (*old(writer))@.block_len,
        (*final(resized))@.block_len == block_len,
        (*final(resized))@.values == (*old(resized))@.values,
        (*final(resized))@.block == (*old(resized))@.block,
        (*final(resized))@.leftover == (*old(resized))@.leftover,
        (*final(resized))@.written == (*old(resized))@.written,
        (*final(resized))@.before == (*old(resized))@.before,
{
}

/// The output of a writer is what it was given and the blocks that were flushed, and the
/// latter are counted.
pub proof fn law_output_of_writer<TValueWriter: ValueWriter>(
    writer: DeltaWriter<TValueWriter>,
    sink: CountingWriter,
    count: u64,
    output: Vec<u8>,
)
    requires
        call_ensures(DeltaWriter::<TValueWriter>::finish, (writer,), sink),
        call_ensures(CountingWriter::written_bytes, (&sink,), count),
        call_ensures(CountingWriter::finish, (sink,), output),
    ensures
        count == writer@.written.len(),
        output@ == writer@.before + writer@.written,
{
}

/// What a flush puts out, and where. With no key pending nothing changes and there is no
/// range. Otherwise, if it succeeds, one frame goes behind the output and nothing is
/// pending any more, and the range that is returned is that of the frame, counted from
/// where the output of this writer starts: what was counted before, up to what is counted
/// after. Ranges of successive flushes are therefore adjacent, and that of the first starts
/// at zero.
///
/// The frame holds the values and then the keys. It is stored as it is where it has no
/// more than 2048 bytes, where compressing it might take more room than there can be, or
/// where compression at level 3 does not make it shorter, and compressed otherwise. A flush
/// fails only where compression was tried; it then puts out nothing, and what the frame
/// would have held stays in front of the next block.
///
/// `before` and `after`, with their counts, are what the writer would have given back
/// before and after the flush.
pub proof fn law_flush<TValueWriter: ValueWriter>(
    writer: &mut DeltaWriter<TValueWriter>,
    range: Result<Option<Range<usize>>, Error>,
    sink_before: CountingWriter,
    count_before: u64,
    before: Vec<u8>,
    sink_after: CountingWriter,
    count_after: u64,
    after: Vec<u8>,
)
    requires
        call_ensures(DeltaWriter::<TValueWriter>::finish, (*writer,), sink_before),
        call_ensures(CountingWriter::written_bytes, (&sink_before,), count_before),
        call_ensures(CountingWriter::finish, (sink_before,), before),
        call_ensures(DeltaWriter::<TValueWriter>::flush_block, (writer,), range),
        call_ensures(DeltaWriter::<TValueWriter>::finish, (*final(writer),), sink_after),
        call_ensures(CountingWriter::written_bytes, (&sink_after,), count_after),
        call_ensures(CountingWriter::finish, (sink_after,), after),
    ensures
        (*old(writer))@.block.len() == 0 ==> {
            &&& range matches Ok(None)
            &&& after@ == before@
            &&& count_after == count_before
            &&& (*final(writer))@ == (*old(writer))@
        },
        (*old(writer))@.block.len() > 0 && range is Ok ==> {
            let content = (*old(writer))@.leftover + TValueWriter::encode((*old(writer))@.values)
                + (*old(writer))@.block;
            let compressed = zstd_frame(content, 3);
            let frame = after@.skip(before@.len() as int);
            let margin = if content.len() < 0x2_0000 {
                (0x2_0000 - content.len()) / 2_048
            } else {
                0
            };
            let tried = content.len() > 2_048 && content.len() + content.len() / 256 + margin
                <= isize::MAX;
            let stored = if tried && compressed.len() < content.len() {
                compressed
            } else {
                content
            };
            &&& range->Ok_0 matches Some(place)
            &&& place.start == count_before
            &&& place.end == count_after
            &&& after@.skip((*old(writer))@.before.len() as int).subrange(
                place.start as int,
                place.end as int,
            ) == frame
            &&& count_after == count_before + frame.len()
            &&& after@ == before@ + frame
            &&& frame.len() == 5 + stored.len()
            &&& le4(frame, 0) == (stored.len() % 0x1_0000_0000 + 1) % 0x1_0000_0000
            &&& frame[4] == if tried && compressed.len() < content.len() {
                1u8
            } else {
                0u8
            }
            &&& frame.skip(5) == stored
            &&& (*final(writer))@.block.len() == 0
            &&& (*final(writer))@.values.len() == 0
            &&& (*final(writer))@.leftover.len() == 0
            &&& (*final(writer))@.block_len == (*old(writer))@.block_len
        },
        range matches Err(error) ==> {
            let content = (*old(writer))@.leftover + TValueWriter::encode((*old(writer))@.values)
                + (*old(writer))@.block;
            &&& (*old(writer))@.block.len() > 0
            &&& content.len() > 2_048
            &&& content.len() + content.len() / 256 <= isize::MAX
            &&& error.kind == ErrorKind::Other
            &&& after@ == before@
            &&& count_after == count_before
            &&& (*final(writer))@.leftover == content
            &&& (*final(writer))@.block.len() == 0
            &&& (*final(writer))@.values.len() == 0
            &&& (*final(writer))@.block_len == (*old(writer))@.block_len
        },
{
    let pre = (*old(writer))@;
    let content = pre.leftover + TValueWriter::encode(pre.values) + pre.block;
    assert(content == block_content::<TValueWriter>(pre));
    if pre.block.len() > 0 && range is Ok {
        let compressed = zstd_frame(content, 3);
        let frame = after@.skip(before@.len() as int);
        let tried = compressible(content.len());
        let (flag, stored) = if tried && compressed.len() < content.len() {
            (1u8, compressed)
        } else {
            (0u8, content)
        };
        lemma_le4_of_bytes(stored.len() % 0x1_0000_0000 + 1);
        let written = (*final(writer))@.written;
        assert(frame =~= written.skip(pre.written.len() as int));
        assert(frame =~= le_bytes(stored.len() % 0x1_0000_0000 + 1, 4) + seq![flag] + stored);
        assert(frame.skip(5) =~= stored);
        assert(after@ =~= before@ + frame);
        let whole = after@.skip(pre.before.len() as int);
        let place = range->Ok_0->0;
        assert(whole =~= written);
        assert(whole.subrange(place.start as int, place.end as int) =~= frame);
    }
}

/// A flush that is asked for only where it is required does what a flush does where the
/// keys of the block take more than its length, and otherwise nothing.
///
/// `always` is a writer in the same state that is flushed.
pub proof fn law_flush_if_required<TValueWriter: ValueWriter>(
    writer: &mut DeltaWriter<TValueWriter>,
    required: bool,
    range: Result<Option<Range<usize>>, Error>,
    always: &mut DeltaWriter<TValueWriter>,
    always_range: Result<Option<Range<usize>>, Error>,
)
    requires
        call_ensures(DeltaWriter::<TValueWriter>::is_flush_required, (&*writer,), required),
        call_ensures(DeltaWriter::<TValueWriter>::flush_block_if_required, (writer,), range),
        (*old(always))@ == (*old(writer))@,
        call_ensures(DeltaWriter::<TValueWriter>::flush_block, (always,), always_range),
    ensures
        required == ((*old(writer))@.block.len() > (*old(writer))@.block_len),
        !required ==> {
            &&& range matches Ok(None)
            &&& (*final(writer))@ == (*old(writer))@
        },
        required && range is Ok && always_range is Ok ==> {
            &&& range->Ok_0 matches Some(place)
            &&& always_range->Ok_0 matches Some(always_place)
            &&& place.start == always_place.start
            &&& place.end == always_place.end
            &&& (*final(writer))@ == (*final(always))@
        },
        required && range is Err ==> range->Err_0.kind == ErrorKind::Other,
        required && range is Err && always_range is Err ==> {
            (*final(writer))@ == (*final(always))@
        },
{
}

} // verus!

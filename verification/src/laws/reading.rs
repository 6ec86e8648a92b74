//! Laws of reading blocks: what is found in the bytes of a stream, whoever wrote them.

use crate::common::error::{result_view, Error, ErrorKind};
use crate::common::le::le_value;
use crate::common::owned_bytes::OwnedBytes;
use crate::laws::values::le4;
use crate::sstable::block_reader::{BlockReader, Blocks};
use crate::sstable::compression::{zstd_bound, zstd_content, zstd_frame};
use crate::sstable::delta::{advanced, read_lengths, DeltaReader};
use crate::sstable::roundtrip::law_next_slice_gives_its_ordinal;
use crate::sstable::value::ValueReader;
use crate::sstable::vint::{deserialize_read, lemma_vint_len, vint_len};
use std::ops::Range;
use vstd::prelude::*;

verus! {

/// A new reader of blocks has nothing loaded, and all that it was given to read.
pub proof fn law_new_block_reader(reader: OwnedBytes, blocks: BlockReader)
    requires
        call_ensures(BlockReader::new, (reader,), blocks),
    ensures
        blocks@.block.len() == 0,
        blocks@.offset == 0,
        blocks@.slice == reader@,
        blocks@.later.len() == 0,
        blocks@.first_ordinal is None,
{
}

/// A new reader of slices stands at the start of the first one, whose ordinal is there to
/// be taken, and has the others to come, in order.
pub proof fn law_new_block_reader_of_slices(
    readers: Vec<(OwnedBytes, u64)>,
    blocks: BlockReader,
)
    requires
        call_ensures(BlockReader::from_multiple_blocks, (readers,), blocks),
    ensures
        blocks@.block.len() == 0,
        blocks@.offset == 0,
        readers@.len() == 0 ==> {
            &&& blocks@.slice.len() == 0
            &&& blocks@.later.len() == 0
            &&& blocks@.first_ordinal is None
        },
        readers@.len() > 0 ==> {
            &&& blocks@.slice == readers@[0].0@
            &&& blocks@.first_ordinal == Some(readers@[0].1)
            &&& blocks@.later.len() == readers@.len() - 1
            &&& forall|i: int|
                0 <= i < blocks@.later.len() ==> {
                    &&& (#[trigger] blocks@.later[i]).0 == readers@[i + 1].0@
                    &&& blocks@.later[i].1 == readers@[i + 1].1
                }
        },
{
}

/// A new reader of keys stands before the first key of what it was given, as a reader of
/// blocks over the same bytes does.
pub proof fn law_new_reader<TValueReader: ValueReader>(
    reader: OwnedBytes,
    blocks: BlockReader,
    keys: DeltaReader<TValueReader>,
    readers: Vec<(OwnedBytes, u64)>,
    blocks_of_slices: BlockReader,
    keys_of_slices: DeltaReader<TValueReader>,
    empty: DeltaReader<TValueReader>,
)
    requires
        call_ensures(BlockReader::new, (reader,), blocks),
        call_ensures(DeltaReader::<TValueReader>::new, (reader,), keys),
        call_ensures(BlockReader::from_multiple_blocks, (readers,), blocks_of_slices),
        call_ensures(
            DeltaReader::<TValueReader>::from_multiple_blocks,
            (readers,),
            keys_of_slices,
        ),
        call_ensures(DeltaReader::<TValueReader>::empty, (), empty),
    ensures
        keys@.blocks == blocks@,
        keys@.common_prefix_len == 0,
        keys@.suffix_start == 0,
        keys@.suffix_end == 0,
        keys@.idx == 0,
        keys_of_slices@.blocks == blocks_of_slices@,
        keys_of_slices@.common_prefix_len == 0,
        keys_of_slices@.suffix_start == 0,
        keys_of_slices@.suffix_end == 0,
        keys_of_slices@.idx == 0,
        empty@.blocks.slice.len() == 0,
        empty@.blocks.later.len() == 0,
        empty@.blocks.block.len() == 0,
        empty@.blocks.first_ordinal is None,
        empty@.common_prefix_len == 0,
        empty@.suffix_start == 0,
        empty@.suffix_end == 0,
{
}

/// The ordinal of a slice is given once, and nothing else changes by taking it.
pub proof fn law_ordinal_is_taken_once<TValueReader: ValueReader>(
    blocks: &mut BlockReader,
    first: Option<u64>,
    again: &mut BlockReader,
    second: Option<u64>,
    keys: &mut DeltaReader<TValueReader>,
    of_keys: Option<u64>,
)
    requires
        call_ensures(BlockReader::take_first_ordinal, (blocks,), first),
        *again == *final(blocks),
        call_ensures(BlockReader::take_first_ordinal, (again,), second),
        call_ensures(DeltaReader::<TValueReader>::take_first_ordinal, (keys,), of_keys),
    ensures
        first == (*old(blocks))@.first_ordinal,
        second is None,
        (*final(blocks))@.block == (*old(blocks))@.block,
        (*final(blocks))@.offset == (*old(blocks))@.offset,
        (*final(blocks))@.slice == (*old(blocks))@.slice,
        (*final(blocks))@.later == (*old(blocks))@.later,
        of_keys == (*old(keys))@.blocks.first_ordinal,
        (*final(keys))@.blocks.first_ordinal is None,
        (*final(keys))@.blocks.block == (*old(keys))@.blocks.block,
        (*final(keys))@.blocks.offset == (*old(keys))@.blocks.offset,
        (*final(keys))@.blocks.slice == (*old(keys))@.blocks.slice,
        (*final(keys))@.blocks.later == (*old(keys))@.blocks.later,
        (*final(keys))@.common_prefix_len == (*old(keys))@.common_prefix_len,
        (*final(keys))@.suffix_start == (*old(keys))@.suffix_start,
        (*final(keys))@.suffix_end == (*old(keys))@.suffix_end,
        (*final(keys))@.idx == (*old(keys))@.idx,
        (*final(keys))@.values == (*old(keys))@.values,
        (*final(keys))@.counted == (*old(keys))@.counted,
{
}

/// What is left of a block is what was not consumed of it. A vint is consumed with the
/// bytes it takes, and any part of the block can be looked at.
pub proof fn law_block_is_consumed(
    blocks: &mut BlockReader,
    before: &[u8],
    offset: usize,
    num_bytes: usize,
    after: &[u8],
    new_offset: usize,
    numbers: &mut BlockReader,
    number: u64,
    read: (usize, u64),
    rest: &[u8],
    range: Range<usize>,
    part: &[u8],
)
    requires
        call_ensures(BlockReader::buffer, (&*blocks,), before),
        call_ensures(BlockReader::offset, (&*blocks,), offset),
        num_bytes <= before@.len(),
        call_ensures(BlockReader::advance, (blocks, num_bytes), ()),
        call_ensures(BlockReader::buffer, (&*final(blocks),), after),
        call_ensures(BlockReader::offset, (&*final(blocks),), new_offset),
        *numbers == *blocks,
        call_ensures(BlockReader::deserialize_u64, (numbers,), number),
        call_ensures(deserialize_read, (before,), read),
        call_ensures(BlockReader::buffer, (&*final(numbers),), rest),
        call_ensures(BlockReader::buffer_from_to, (&*blocks, range), part),
    ensures
        before@ == (*old(blocks))@.block.skip(offset as int),
        after@ == before@.skip(num_bytes as int),
        new_offset == offset + num_bytes,
        number == read.1,
        rest@ == before@.skip(read.0 as int),
        part@ == (*old(blocks))@.block.subrange(range.start as int, range.end as int),
        (*final(blocks))@.block == (*old(blocks))@.block,
        (*final(blocks))@.slice == (*old(blocks))@.slice,
        (*final(blocks))@.later == (*old(blocks))@.later,
        (*final(blocks))@.first_ordinal == (*old(blocks))@.first_ordinal,
        (*final(numbers))@.block == (*old(blocks))@.block,
        (*final(numbers))@.slice == (*old(blocks))@.slice,
        (*final(numbers))@.later == (*old(blocks))@.later,
        (*final(numbers))@.first_ordinal == (*old(blocks))@.first_ordinal,
{
    lemma_vint_len(before@);
    assert(after@ =~= before@.skip(num_bytes as int));
    assert(rest@ =~= before@.skip(read.0 as int));
}

/// Whether `slice` is what `blocks` reads from next, with `ordinal` to be taken and `later`
/// behind it: what is left of its slice if that is not used up, or else slice `next` of
/// those that follow, all before it holding nothing.
pub open spec fn reads_next(
    blocks: Blocks,
    next: int,
    slice: Seq<u8>,
    ordinal: Option<u64>,
    later: Seq<(Seq<u8>, u64)>,
) -> bool {
    if blocks.slice.len() > 0 || blocks.later.len() == 0 {
        &&& slice == blocks.slice
        &&& ordinal == blocks.first_ordinal
        &&& later == blocks.later
    } else {
        &&& 0 <= next < blocks.later.len()
        &&& forall|i: int| 0 <= i < next ==> (#[trigger] blocks.later[i]).0.len() == 0
        &&& blocks.later[next].0.len() > 0
        &&& slice == blocks.later[next].0
        &&& ordinal == Some(blocks.later[next].1)
        &&& later == blocks.later.skip(next + 1)
    }
}

/// The state that a reader of blocks settles in before it reads.
proof fn lemma_reads_next(
    blocks: Blocks,
    next: int,
    slice: Seq<u8>,
    ordinal: Option<u64>,
    later: Seq<(Seq<u8>, u64)>,
)
    requires
        reads_next(blocks, next, slice, ordinal, later),
    ensures
        blocks.settled() == (Blocks { slice, first_ordinal: ordinal, later, ..blocks }),
        slice.len() >= 4 ==> le_value(slice.take(4)) == le4(slice, 0),
{
    if blocks.slice.len() == 0 && blocks.later.len() > 0 {
        law_next_slice_gives_its_ordinal(blocks, next);
    }
    if slice.len() >= 4 {
        let four = slice.take(4);
        reveal_with_fuel(le_value, 5);
        assert(four.skip(1)[0] == slice[1]);
    }
}

/// What reading a block finds. A block starts with the length of what follows, in four
/// bytes with the least significant one first, and a flag. With the flag 1 what follows is
/// the block in compressed form, and with any other one the block itself. A length of at
/// most 1, and the end of the last slice, end the stream. Bytes that end before the
/// length or the block does are refused, and so is what cannot be decompressed; what a
/// compressor made of data can be, if the data are no longer than the compressed form
/// declares, or than a mebibyte if it declares no length that could be had.
pub proof fn law_read_block(
    blocks: &mut BlockReader,
    more: Result<bool, Error>,
    next: int,
    slice: Seq<u8>,
    ordinal: Option<u64>,
    later: Seq<(Seq<u8>, u64)>,
    block: &[u8],
    offset: usize,
)
    requires
        call_ensures(BlockReader::read_block, (blocks,), more),
        reads_next((*blocks)@, next, slice, ordinal, later),
        call_ensures(BlockReader::buffer, (&*final(blocks),), block),
        call_ensures(BlockReader::offset, (&*final(blocks),), offset),
    ensures
        offset == 0,
        block@ == (*final(blocks))@.block,
        (*final(blocks))@.first_ordinal == ordinal,
        (*final(blocks))@.later == later,
        ({
            let len = le4(slice, 0);
            let left = (*final(blocks))@.slice;
            if slice.len() == 0 {
                &&& more matches Ok(false)
                &&& block@.len() == 0
                &&& left.len() == 0
            } else if slice.len() < 4 {
                &&& more matches Err(error)
                &&& error.kind == ErrorKind::UnexpectedEof
                &&& error.message@ == "failed to read block_len"@
                &&& block@.len() == 0
            } else if len <= 1 {
                &&& more matches Ok(false)
                &&& block@.len() == 0
                &&& left == slice.skip(4)
            } else if slice.len() < 4 + len {
                &&& more matches Err(error)
                &&& error.kind == ErrorKind::UnexpectedEof
                &&& error.message@ == "failed to read block content"@
                &&& block@.len() == 0
            } else {
                let stored = slice.subrange(5, 4 + len);
                if slice[4] != 1 {
                    &&& more matches Ok(true)
                    &&& block@ == stored
                    &&& left == slice.skip(4 + len)
                } else {
                    &&& more matches Ok(more) ==> {
                        &&& more
                        &&& zstd_content(stored) == Some(block@)
                        &&& left == slice.skip(4 + len)
                    }
                    &&& more matches Err(error) ==> {
                        &&& error.kind == ErrorKind::Other
                        &&& block@.len() == 0
                        &&& forall|data: Seq<u8>, level: i32|
                            stored == #[trigger] zstd_frame(data, level) ==> data.len()
                                > match zstd_bound(stored) {
                                Some(bound) if bound <= usize::MAX / 2 => bound,
                                _ => 0x10_0000usize,
                            }
                    }
                }
            }
        }),
{
    lemma_reads_next((*old(blocks))@, next, slice, ordinal, later);
    assert(block@ =~= (*final(blocks))@.block);
    if slice.len() >= 4 {
        let len = le4(slice, 0);
        if len > 1 && slice.len() >= 4 + len {
            assert(slice.skip(5).take(len - 1) =~= slice.subrange(5, 4 + len));
            assert(slice.skip(5).skip(len - 1) =~= slice.skip(4 + len));
        }
    }
}

/// How the lengths of a key are read: from the two halves of a byte, or behind a byte of 1
/// as two vints.
///
/// `keep` and `add` are what is read as vints.
pub proof fn law_read_lengths<TValueReader: ValueReader>(
    reader: &mut DeltaReader<TValueReader>,
    lengths: Option<(usize, usize)>,
    behind_mark: &[u8],
    keep: (usize, u64),
    behind_keep: &[u8],
    add: (usize, u64),
)
    requires
        call_ensures(DeltaReader::<TValueReader>::read_keep_add, (reader,), lengths),
        (*reader)@.blocks.offset < (*reader)@.blocks.block.len() ==> {
            let data = (*reader)@.blocks.block.skip((*reader)@.blocks.offset as int);
            &&& behind_mark@ == data.skip(1)
            &&& call_ensures(deserialize_read, (behind_mark,), keep)
            &&& behind_keep@ == data.skip(1 + keep.0)
            &&& call_ensures(deserialize_read, (behind_keep,), add)
        },
        (*reader)@.blocks.offset <= (*reader)@.blocks.block.len(),
    ensures
        ({
            let pre = (*old(reader))@;
            let post = (*final(reader))@;
            let at = pre.blocks.offset as int;
            &&& if at >= pre.blocks.block.len() {
                lengths is None && post.blocks.offset == at
            } else if pre.blocks.block[at] == 1 {
                &&& lengths == Some((keep.1 as usize, add.1 as usize))
                &&& post.blocks.offset == at + 1 + keep.0 + add.0
            } else {
                &&& lengths == Some(
                    (
                        (pre.blocks.block[at] % 16) as usize,
                        (pre.blocks.block[at] / 16) as usize,
                    ),
                )
                &&& post.blocks.offset == at + 1
            }
            &&& post.blocks.block == pre.blocks.block
            &&& post.blocks.slice == pre.blocks.slice
            &&& post.blocks.later == pre.blocks.later
            &&& post.blocks.first_ordinal == pre.blocks.first_ordinal
            &&& post.common_prefix_len == pre.common_prefix_len
            &&& post.suffix_start == pre.suffix_start
            &&& post.suffix_end == pre.suffix_end
            &&& post.idx == pre.idx
            &&& post.values == pre.values
            &&& post.counted == pre.counted
        }),
{
    let pre = (*old(reader))@;
    assert(pre.blocks.remaining() == pre.blocks.block.skip(pre.blocks.offset as int));
}

/// The lengths of a key are within the block.
proof fn lemma_lengths_within(data: Seq<u8>)
    ensures
        read_lengths(data) matches Some((_, _, num_bytes)) ==> num_bytes <= data.len(),
{
    if data.len() > 0 {
        let keep_len = vint_len(data.skip(1));
        lemma_vint_len(data.skip(1));
        lemma_vint_len(data.skip((1 + keep_len) as int));
    }
}

/// What is next in a block. A key whose suffix is longer than what is left of the block, a
/// key that keeps more than the key before it has, and a key without a value are
/// refused, in this order. Any other key is moved to: the reader then answers with its
/// prefix length, its suffix and its value.
///
/// `peek` is a reader in the same state, from which the lengths of the key are read.
pub proof fn law_advance_in_block<TValueReader: ValueReader>(
    reader: &mut DeltaReader<TValueReader>,
    found: Result<bool, Error>,
    peek: &mut DeltaReader<TValueReader>,
    keep: usize,
    add: usize,
    prefix_len: usize,
    suffix: &[u8],
    value: &TValueReader::Value,
)
    requires
        (*reader)@.blocks.offset < (*reader)@.blocks.block.len(),
        call_ensures(DeltaReader::<TValueReader>::advance, (reader,), found),
        *peek == *reader,
        call_ensures(
            DeltaReader::<TValueReader>::read_keep_add,
            (peek,),
            Some((keep, add)),
        ),
        call_ensures(
            DeltaReader::<TValueReader>::common_prefix_len,
            (&*final(reader),),
            prefix_len,
        ),
        call_ensures(DeltaReader::<TValueReader>::suffix, (&*final(reader),), suffix),
        call_ensures(DeltaReader::<TValueReader>::value, (&*final(reader),), value),
    ensures
        ({
            let pre = (*old(reader))@;
            let post = (*final(reader))@;
            let at = (*final(peek))@.blocks.offset as int;
            let left = pre.blocks.block.len() - at;
            let known = pre.common_prefix_len + if pre.suffix_start < pre.suffix_end {
                pre.suffix_end - pre.suffix_start
            } else {
                0
            };
            let idx = if pre.idx == usize::MAX {
                0
            } else {
                pre.idx + 1
            };
            if left < add {
                &&& found matches Err(error)
                &&& error.kind == ErrorKind::InvalidData
                &&& error.message@ == "sstable block claims a key suffix longer than the block"@
            } else if keep > known {
                &&& found matches Err(error)
                &&& error.kind == ErrorKind::InvalidData
                &&& error.message@
                    == "sstable block claims a key prefix longer than the previous key"@
            } else if pre.counted && idx >= pre.values.len() {
                &&& found matches Err(error)
                &&& error.kind == ErrorKind::InvalidData
                &&& error.message@ == "sstable block holds more keys than values"@
            } else {
                &&& found matches Ok(true)
                &&& prefix_len == keep
                &&& suffix@ == pre.blocks.block.subrange(at, at + add)
                &&& TValueReader::model(*value) == pre.values[idx]
                &&& post.blocks.offset == at + add
                &&& post.blocks.block == pre.blocks.block
                &&& post.blocks.slice == pre.blocks.slice
                &&& post.blocks.later == pre.blocks.later
                &&& post.blocks.first_ordinal == pre.blocks.first_ordinal
                &&& post.values == pre.values
                &&& post.counted == pre.counted
            }
        }),
{
    let pre = (*old(reader))@;
    assert(pre.blocks.remaining().len() > 0);
    assert(advanced::<TValueReader>(
        pre,
        (*final(reader))@,
        result_view(found),
    ));
    lemma_lengths_within(pre.blocks.remaining());
}

/// What comes behind the end of a block. If there is no other block the end is reported,
/// and if there is one its values are loaded, and its first key is read behind them as any
/// other key is, with the first value. An error of the values is returned as it is.
/// What is compressed may fail to be decompressed.
///
/// `loader` is a reader of values that loads the content of that block, and `peek` a reader
/// of keys in the state that this leads to, from which the lengths of the key are
/// read.
pub proof fn law_advance_to_next_block<TValueReader: ValueReader>(
    reader: &mut DeltaReader<TValueReader>,
    found: Result<bool, Error>,
    next: int,
    slice: Seq<u8>,
    ordinal: Option<u64>,
    later: Seq<(Seq<u8>, u64)>,
    content: &[u8],
    loader: &mut TValueReader,
    consumed: Result<usize, Error>,
    count: Option<usize>,
    peek: &mut DeltaReader<TValueReader>,
    lengths: Option<(usize, usize)>,
    prefix_len: usize,
    suffix: &[u8],
    value: &TValueReader::Value,
)
    requires
        (*reader)@.blocks.offset == (*reader)@.blocks.block.len(),
        reads_next((*reader)@.blocks, next, slice, ordinal, later),
        call_ensures(DeltaReader::<TValueReader>::advance, (reader,), found),
        // the block
        slice.len() >= 4 && le4(slice, 0) > 1 && slice.len() >= 4 + le4(slice, 0) ==> {
            let stored = slice.subrange(5, 4 + le4(slice, 0));
            if slice[4] == 1 {
                zstd_content(stored) == Some(content@)
            } else {
                content@ == stored
            }
        },
        // its values
        call_ensures(TValueReader::load, (loader, content), consumed),
        call_ensures(TValueReader::num_values, (&*final(loader),), count),
        // its first key
        consumed matches Ok(num_bytes) ==> {
            &&& (*peek)@.blocks.block == content@
            &&& (*peek)@.blocks.offset == num_bytes
            &&& call_ensures(DeltaReader::<TValueReader>::read_keep_add, (peek,), lengths)
        },
        call_ensures(
            DeltaReader::<TValueReader>::common_prefix_len,
            (&*final(reader),),
            prefix_len,
        ),
        call_ensures(DeltaReader::<TValueReader>::suffix, (&*final(reader),), suffix),
        call_ensures(DeltaReader::<TValueReader>::value, (&*final(reader),), value),
    ensures
        ({
            let pre = (*old(reader))@;
            let post = (*final(reader))@;
            let len = le4(slice, 0);
            let at = (*final(peek))@.blocks.offset as int;
            let left = content@.len() - at;
            let known = pre.common_prefix_len + if pre.suffix_start < pre.suffix_end {
                pre.suffix_end - pre.suffix_start
            } else {
                0
            };
            if slice.len() == 0 || slice.len() >= 4 && len <= 1 {
                found matches Ok(false)
            } else if slice.len() < 4 {
                &&& found matches Err(error)
                &&& error.kind == ErrorKind::UnexpectedEof
                &&& error.message@ == "failed to read block_len"@
            } else if slice.len() < 4 + len {
                &&& found matches Err(error)
                &&& error.kind == ErrorKind::UnexpectedEof
                &&& error.message@ == "failed to read block content"@
            } else if slice[4] == 1 && post.blocks.block != content@ {
                &&& found matches Err(error)
                &&& error.kind == ErrorKind::Other
            } else if slice[4] == 1 && (found matches Err(error) && error.kind
                == ErrorKind::Other) {
                true
            } else {
                &&& post.blocks.block == content@
                &&& post.blocks.slice == slice.skip(4 + len)
                &&& post.blocks.later == later
                &&& post.blocks.first_ordinal == ordinal
                &&& match (consumed, lengths) {
                    (Err(error), _) => {
                        &&& found matches Err(reported)
                        &&& reported.kind == error.kind
                        &&& reported.message@ == error.message@
                    },
                    (Ok(_), None) => found matches Ok(false),
                    (Ok(_), Some((keep, add))) => {
                        if left < add {
                            &&& found matches Err(error)
                            &&& error.kind == ErrorKind::InvalidData
                            &&& error.message@
                                == "sstable block claims a key suffix longer than the block"@
                        } else if keep > known {
                            &&& found matches Err(error)
                            &&& error.kind == ErrorKind::InvalidData
                            &&& error.message@
                                == "sstable block claims a key prefix longer than the previous key"@
                        } else if count == Some(0usize) {
                            &&& found matches Err(error)
                            &&& error.kind == ErrorKind::InvalidData
                            &&& error.message@ == "sstable block holds more keys than values"@
                        } else {
                            &&& found matches Ok(true)
                            &&& prefix_len == keep
                            &&& suffix@ == content@.subrange(at, at + add)
                            &&& TValueReader::model(*value) == (*final(loader)).loaded()[0]
                            &&& post.values == (*final(loader)).loaded()
                            &&& post.idx == 0
                            &&& post.blocks.offset == at + add
                        }
                    },
                }
            }
        }),
{
    let pre = (*old(reader))@;
    let post = (*final(reader))@;
    (*final(loader)).lemma_num_values(count);
    lemma_reads_next(pre.blocks, next, slice, ordinal, later);
    assert(pre.blocks.remaining().len() == 0);
    assert(advanced::<TValueReader>(pre, post, result_view(found)));
    if slice.len() >= 4 {
        let len = le4(slice, 0);
        if len > 1 && slice.len() >= 4 + len {
            assert(slice.skip(5).take(len - 1) =~= slice.subrange(5, 4 + len));
            assert(slice.skip(5).skip(len - 1) =~= slice.skip(4 + len));
        }
    }
    if consumed is Ok {
        assert((*old(peek))@.blocks.remaining() =~= content@.skip(consumed->Ok_0 as int));
        lemma_lengths_within((*old(peek))@.blocks.remaining());
    }
}

} // verus!

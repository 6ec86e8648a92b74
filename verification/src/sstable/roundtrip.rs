//! What a reader gets back of what a writer wrote, and what it makes of bytes
//! that no writer produced.

use crate::common::error::ErrorView;
use crate::common::le::{law_le_u32_roundtrip, le_bytes};
use crate::sstable::block_reader::{block_read, decompresses, Blocks, COMPRESSED};
use crate::sstable::compression::{zstd_bound, zstd_content, zstd_frame};
use crate::sstable::delta::{
    advanced, block_compressed, block_content, block_flushed, block_frame, block_stored,
    key_bytes, lengths_bytes, read_lengths, Cursor, PendingBlock, COMPRESSION_LEVEL,
};
use crate::sstable::value::{ValueReader, ValueWriter};
use crate::sstable::vint;
use std::ops::Range;
use vstd::prelude::*;

verus! {

/// Whether the lengths of a key can be told apart from the mark of the long form:
/// a key of one shared byte and nothing else has the mark for its lengths. No
/// sorted succession of distinct keys holds such a key.
pub open spec fn unambiguous(keep: nat, add: nat) -> bool {
    !(keep == 1 && add == 0)
}

/// The lengths of a key are read back as they were written, whatever follows, and what
/// follows is left to read.
pub proof fn law_lengths_roundtrip(keep: usize, add: usize, rest: Seq<u8>)
    requires
        unambiguous(keep as nat, add as nat),
    ensures
        read_lengths(lengths_bytes(keep as nat, add as nat) + rest) == Some(
            (keep, add, lengths_bytes(keep as nat, add as nat).len()),
        ),
        (lengths_bytes(keep as nat, add as nat) + rest).skip(
            lengths_bytes(keep as nat, add as nat).len() as int,
        ) == rest,
{
    let lengths = lengths_bytes(keep as nat, add as nat);
    let data = lengths + rest;
    if keep < 16 && add < 16 {
        assert(data[0] == keep + 16 * add);
    } else {
        let keep_bytes = vint::vint_bytes(keep as nat);
        let add_bytes = vint::vint_bytes(add as nat);
        vint::law_vint_roundtrip(keep as u64, add_bytes + rest);
        vint::law_vint_roundtrip(add as u64, rest);
        assert(data.skip(1) =~= keep_bytes + (add_bytes + rest));
        assert(data.skip((1 + keep_bytes.len()) as int) =~= add_bytes + rest);
    }
}

/// A reader that stands before the lengths of a key consumes them and nothing else; one
/// at the end of its block finds none.
pub proof fn law_lengths_are_consumed(blocks: Blocks, keep: usize, add: usize, rest: Seq<u8>)
    requires
        blocks.offset <= blocks.block.len(),
        unambiguous(keep as nat, add as nat),
    ensures
        blocks.remaining() == lengths_bytes(keep as nat, add as nat) + rest ==> {
            &&& read_lengths(blocks.remaining()) matches Some((read_keep, read_add, num_bytes))
            &&& read_keep == keep
            &&& read_add == add
            &&& blocks.consume(num_bytes).remaining() == rest
        },
        blocks.remaining().len() == 0 ==> read_lengths(blocks.remaining()) is None,
{
    let lengths = lengths_bytes(keep as nat, add as nat);
    if blocks.remaining() == lengths + rest {
        law_lengths_roundtrip(keep, add, rest);
        assert(blocks.consume(lengths.len()).remaining() =~= blocks.remaining().skip(
            lengths.len() as int,
        ));
    }
}

/// A key that was written is read back: the reader then holds its prefix length
/// and its suffix, and what followed the key is left to read.
pub proof fn law_key_roundtrip<M>(cursor: Cursor<M>, keep: usize, suffix: Seq<u8>, rest: Seq<u8>)
    requires
        cursor.blocks.offset <= cursor.blocks.block.len(),
        cursor.blocks.remaining() == key_bytes(keep as nat, suffix) + rest,
        suffix.len() <= usize::MAX,
        unambiguous(keep as nat, suffix.len()),
        keep <= cursor.key_len(),
    ensures
        cursor.read_key().1 == Ok::<bool, ErrorView>(true),
        cursor.read_key().0.common_prefix_len == keep,
        cursor.read_key().0.suffix() == suffix,
        cursor.read_key().0.key_len() == keep + suffix.len(),
        cursor.read_key().0.blocks.remaining() == rest,
        cursor.read_key().0.blocks.offset <= cursor.read_key().0.blocks.block.len(),
        cursor.read_key().0.blocks.block == cursor.blocks.block,
        cursor.read_key().0.values == cursor.values,
        cursor.read_key().0.idx == cursor.idx,
{
    let lengths = lengths_bytes(keep as nat, suffix.len());
    law_lengths_roundtrip(keep, suffix.len() as usize, suffix + rest);
    assert(key_bytes(keep as nat, suffix) + rest =~= lengths + (suffix + rest));
    let blocks = cursor.blocks.consume(lengths.len());
    let remaining = cursor.blocks.remaining();
    assert(blocks.remaining() =~= remaining.skip(lengths.len() as int));
    assert(blocks.remaining() =~= suffix + rest);
    let next = cursor.read_key().0;
    assert(next.suffix() =~= blocks.remaining().take(suffix.len() as int));
    assert(next.suffix() =~= suffix);
    assert(next.blocks.remaining() =~= blocks.remaining().skip(suffix.len() as int));
    assert(next.blocks.remaining() =~= rest);
}

/// The bytes of `keys`, each a prefix length and a suffix, one after the other.
pub open spec fn keys_bytes(keys: Seq<(usize, Seq<u8>)>) -> Seq<u8>
    decreases keys.len(),
{
    if keys.len() == 0 {
        Seq::empty()
    } else {
        key_bytes(keys[0].0 as nat, keys[0].1) + keys_bytes(keys.skip(1))
    }
}

/// Whether `keys` are such as a writer is given: no key shares more with the key
/// before it than that key holds, `prev_len` bytes before the first.
pub open spec fn writable_keys(keys: Seq<(usize, Seq<u8>)>, prev_len: nat) -> bool
    decreases keys.len(),
{
    keys.len() > 0 ==> {
        &&& keys[0].0 <= prev_len
        &&& keys[0].1.len() <= usize::MAX
        &&& unambiguous(keys[0].0 as nat, keys[0].1.len())
        &&& writable_keys(keys.skip(1), (keys[0].0 + keys[0].1.len()) as nat)
    }
}

/// Whether reading key after key from `cursor` gives exactly `keys`, and then
/// leaves `rest`.
pub open spec fn reads_keys<M>(
    cursor: Cursor<M>,
    keys: Seq<(usize, Seq<u8>)>,
    rest: Seq<u8>,
) -> bool
    decreases keys.len(),
{
    if keys.len() == 0 {
        cursor.blocks.remaining() == rest
    } else {
        let (next, found) = cursor.read_key();
        &&& found == Ok::<bool, ErrorView>(true)
        &&& next.common_prefix_len == keys[0].0
        &&& next.suffix() == keys[0].1
        &&& reads_keys(next, keys.skip(1), rest)
    }
}

/// The keys of a block are read back in the order in which they were written.
pub proof fn law_keys_roundtrip<M>(cursor: Cursor<M>, keys: Seq<(usize, Seq<u8>)>, rest: Seq<u8>)
    requires
        cursor.blocks.offset <= cursor.blocks.block.len(),
        cursor.blocks.remaining() == keys_bytes(keys) + rest,
        writable_keys(keys, cursor.key_len()),
    ensures
        reads_keys(cursor, keys, rest),
    decreases keys.len(),
{
    if keys.len() == 0 {
        assert(keys_bytes(keys) + rest =~= rest);
    } else {
        let tail = keys_bytes(keys.skip(1)) + rest;
        assert(keys_bytes(keys) + rest =~= key_bytes(keys[0].0 as nat, keys[0].1) + tail);
        law_key_roundtrip(cursor, keys[0].0, keys[0].1, tail);
        law_keys_roundtrip(cursor.read_key().0, keys.skip(1), rest);
    }
}

/// A frame that a writer put around some content is read back as that content,
/// compressed or not, and what follows the frame is left to read.
///
/// The length of what is stored keeps 32 bits, and a frame around nothing ends the
/// stream.
pub proof fn law_frame_roundtrip(
    content: Seq<u8>,
    compressed: Option<Seq<u8>>,
    rest: Seq<u8>,
    pre: Blocks,
    post: Blocks,
    result: Result<bool, ErrorView>,
)
    requires
        0 < content.len() <= isize::MAX,
        block_stored(content, compressed).1.len() < u32::MAX,
        compressed matches Some(compressed) ==> {
            &&& compressed == zstd_frame(content, COMPRESSION_LEVEL)
            &&& compressed.len() > 0
            &&& zstd_content(compressed) == Some(content)
            &&& zstd_bound(compressed) == Some(content.len() as usize)
        },
        pre.slice == block_frame(content, compressed) + rest,
        block_read(pre, post, result),
    ensures
        result == Ok::<bool, ErrorView>(true),
        post == (Blocks { block: content, offset: 0, slice: rest, ..pre }),
{
    let (flag, stored) = block_stored(content, compressed);
    let len = (stored.len() + 1) as u32;
    let slice = pre.slice;
    law_le_u32_roundtrip(len);
    assert(slice =~= le_bytes(len as nat, 4) + seq![flag] + stored + rest);
    assert(slice.take(4) =~= le_bytes(len as nat, 4));
    let body = slice.skip(5);
    assert(body =~= stored + rest);
    assert(body.take(len - 1) =~= stored);
    assert(body.skip(len - 1) =~= rest);
    assert(pre.settled() == pre);
    if flag == COMPRESSED {
        assert(decompresses(stored));
    }
}

/// A block as it was handed to a writer, and what the writer made of it.
pub struct WrittenBlock<M> {
    /// The keys: prefix length and suffix of each.
    pub keys: Seq<(usize, Seq<u8>)>,
    /// The value of each key.
    pub values: Seq<M>,
    /// The value section.
    pub section: Seq<u8>,
    /// The compressed content, if compression was tried.
    pub compressed: Option<Seq<u8>>,
}

impl<M> WrittenBlock<M> {
    /// The content of the block.
    pub open spec fn content(self) -> Seq<u8> {
        self.section + keys_bytes(self.keys)
    }

    /// The frame of the block.
    pub open spec fn frame(self) -> Seq<u8> {
        block_frame(self.content(), self.compressed)
    }

    /// The entries of the block: prefix length, suffix and value of each.
    pub open spec fn entries(self) -> Seq<(usize, Seq<u8>, M)> {
        entries(self.keys, self.values)
    }
}

/// Keys with their values.
pub open spec fn entries<M>(keys: Seq<(usize, Seq<u8>)>, values: Seq<M>) -> Seq<
    (usize, Seq<u8>, M),
> {
    Seq::new(keys.len(), |i: int| (keys[i].0, keys[i].1, values[i]))
}

/// The length of the last of `keys`, or `prev_len` if there is none.
pub open spec fn last_key_len(keys: Seq<(usize, Seq<u8>)>, prev_len: nat) -> nat {
    if keys.len() == 0 {
        prev_len
    } else {
        (keys.last().0 + keys.last().1.len()) as nat
    }
}

/// Whether `block` is such as a writer makes: it holds keys, as many values as
/// keys, a value section in which `TValueReader` finds those values, and the length of
/// what is stored of it fits in 32 bits.
pub open spec fn written<TValueReader: ValueReader>(
    block: WrittenBlock<TValueReader::Model>,
    prev_len: nat,
) -> bool {
    let content = block.content();
    &&& block.keys.len() > 0
    &&& block.keys.len() == block.values.len()
    &&& block.values.len() <= usize::MAX
    &&& writable_keys(block.keys, prev_len)
    &&& block.values.is_prefix_of(TValueReader::decode(content).0)
    &&& TValueReader::decode(content).1 == Ok::<nat, ErrorView>(block.section.len())
    &&& content.len() <= isize::MAX
    &&& block_stored(content, block.compressed).1.len() < u32::MAX
    &&& block.compressed matches Some(compressed) ==> {
        &&& compressed == zstd_frame(content, COMPRESSION_LEVEL)
        &&& compressed.len() > 0
        &&& zstd_content(compressed) == Some(content)
        &&& zstd_bound(compressed) == Some(content.len() as usize)
    }
}

/// Whether `blocks` are such as a writer makes one after the other, when the key
/// before the first of them has `prev_len` bytes.
pub open spec fn all_written<TValueReader: ValueReader>(
    blocks: Seq<WrittenBlock<TValueReader::Model>>,
    prev_len: nat,
) -> bool
    decreases blocks.len(),
{
    blocks.len() > 0 ==> {
        &&& written::<TValueReader>(blocks[0], prev_len)
        &&& all_written::<TValueReader>(blocks.skip(1), last_key_len(blocks[0].keys, prev_len))
    }
}

/// The frames of `blocks`, one after the other.
pub open spec fn stream_frames<M>(blocks: Seq<WrittenBlock<M>>) -> Seq<u8>
    decreases blocks.len(),
{
    if blocks.len() == 0 {
        Seq::empty()
    } else {
        blocks[0].frame() + stream_frames(blocks.skip(1))
    }
}

/// The stream of `blocks`: their frames, then the end marker.
pub open spec fn stream_bytes<M>(blocks: Seq<WrittenBlock<M>>) -> Seq<u8> {
    stream_frames(blocks) + le_bytes(0, 4)
}

/// The entries of `blocks`, in order.
pub open spec fn stream_entries<M>(blocks: Seq<WrittenBlock<M>>) -> Seq<(usize, Seq<u8>, M)>
    decreases blocks.len(),
{
    if blocks.len() == 0 {
        Seq::empty()
    } else {
        blocks[0].entries() + stream_entries(blocks.skip(1))
    }
}

/// Whether `cursor` stands on `entry`.
pub open spec fn stands_on<M>(cursor: Cursor<M>, entry: (usize, Seq<u8>, M)) -> bool {
    &&& cursor.common_prefix_len == entry.0
    &&& cursor.suffix() == entry.1
    &&& cursor.idx < cursor.values.len()
    &&& cursor.values[cursor.idx as int] == entry.2
}

/// A slice of written blocks, with the ordinal of its first term.
pub struct WrittenSlice<M> {
    /// The blocks.
    pub blocks: Seq<WrittenBlock<M>>,
    /// The ordinal.
    pub ordinal: u64,
}

/// The bytes of `slices`, each with its ordinal.
pub open spec fn slices_bytes<M>(slices: Seq<WrittenSlice<M>>) -> Seq<(Seq<u8>, u64)> {
    slices.map_values(|slice: WrittenSlice<M>| (stream_frames(slice.blocks), slice.ordinal))
}

/// The blocks of `slices`, in order.
pub open spec fn slices_blocks<M>(slices: Seq<WrittenSlice<M>>) -> Seq<WrittenBlock<M>>
    decreases slices.len(),
{
    if slices.len() == 0 {
        Seq::empty()
    } else {
        slices[0].blocks + slices_blocks(slices.skip(1))
    }
}

/// Whether each of `slices` holds a block, and with it a term.
pub open spec fn slices_hold_terms<M>(slices: Seq<WrittenSlice<M>>) -> bool {
    forall|i: int| 0 <= i < slices.len() ==> (#[trigger] slices[i]).blocks.len() > 0
}

/// Whether `cursor` has `keys` left to read in its block, whose values are `values`,
/// `blocks` after it in its slice, and then the end marker if the slice is `marked`, or
/// else the slices `later`.
#[verifier::opaque]
spec fn faces<TValueReader: ValueReader>(
    cursor: Cursor<TValueReader::Model>,
    keys: Seq<(usize, Seq<u8>)>,
    values: Seq<TValueReader::Model>,
    blocks: Seq<WrittenBlock<TValueReader::Model>>,
    marked: bool,
    later: Seq<WrittenSlice<TValueReader::Model>>,
) -> bool {
    &&& cursor.blocks.offset <= cursor.blocks.block.len()
    &&& cursor.blocks.remaining() == keys_bytes(keys)
    &&& if marked {
        cursor.blocks.slice == stream_bytes(blocks) && later.len() == 0
    } else {
        cursor.blocks.slice == stream_frames(blocks) && cursor.blocks.later == slices_bytes(later)
    }
    &&& slices_hold_terms(later)
    &&& keys.len() == values.len()
    &&& keys.len() > 0 ==> {
        &&& cursor.idx + 1 + keys.len() <= cursor.values.len()
        &&& cursor.idx + keys.len() <= usize::MAX
        &&& values == cursor.values.subrange(cursor.idx + 1, cursor.idx + 1 + keys.len())
    }
    &&& writable_keys(keys, cursor.key_len())
    &&& all_written::<TValueReader>(
        blocks + slices_blocks(later),
        last_key_len(keys, cursor.key_len()),
    )
}

/// The entries that such a cursor has left to read.
spec fn entries_ahead<M>(
    keys: Seq<(usize, Seq<u8>)>,
    values: Seq<M>,
    blocks: Seq<WrittenBlock<M>>,
    later: Seq<WrittenSlice<M>>,
) -> Seq<(usize, Seq<u8>, M)> {
    entries(keys, values) + stream_entries(blocks + slices_blocks(later))
}

proof fn lemma_last_key_len(keys: Seq<(usize, Seq<u8>)>, prev_len: nat)
    requires
        keys.len() > 0,
    ensures
        last_key_len(keys, prev_len) == last_key_len(
            keys.skip(1),
            (keys[0].0 + keys[0].1.len()) as nat,
        ),
{
    if keys.len() > 1 {
        assert(keys.skip(1).last() == keys.last());
    }
}

/// No key takes no bytes.
pub proof fn lemma_keys_bytes_nonempty(keys: Seq<(usize, Seq<u8>)>)
    ensures
        keys.len() > 0 <==> keys_bytes(keys).len() > 0,
{
    if keys.len() > 0 {
        assert(lengths_bytes(keys[0].0 as nat, keys[0].1.len()).len() > 0);
    }
}

/// Reading a key within a block leads to the next entry.
proof fn lemma_next_in_block<TValueReader: ValueReader>(
    cursor: Cursor<TValueReader::Model>,
    next: Cursor<TValueReader::Model>,
    keys: Seq<(usize, Seq<u8>)>,
    values: Seq<TValueReader::Model>,
    blocks: Seq<WrittenBlock<TValueReader::Model>>,
    marked: bool,
    later: Seq<WrittenSlice<TValueReader::Model>>,
)
    requires
        keys.len() > 0,
        keys.len() == values.len(),
        cursor.blocks.offset <= cursor.blocks.block.len(),
        cursor.blocks.remaining() == keys_bytes(keys),
        if marked {
            cursor.blocks.slice == stream_bytes(blocks) && later.len() == 0
        } else {
            cursor.blocks.slice == stream_frames(blocks) && cursor.blocks.later == slices_bytes(
                later,
            )
        },
        slices_hold_terms(later),
        cursor.idx + keys.len() <= cursor.values.len(),
        cursor.idx + keys.len() <= usize::MAX + 1,
        values == cursor.values.subrange(cursor.idx as int, cursor.idx + keys.len()),
        writable_keys(keys, cursor.key_len()),
        all_written::<TValueReader>(
            blocks + slices_blocks(later),
            last_key_len(keys, cursor.key_len()),
        ),
        next == cursor.read_key().0,
    ensures
        cursor.read_key().1 == Ok::<bool, ErrorView>(true),
        stands_on(next, (keys[0].0, keys[0].1, values[0])),
        next.blocks.first_ordinal == cursor.blocks.first_ordinal,
        faces::<TValueReader>(next, keys.skip(1), values.skip(1), blocks, marked, later),
{
    reveal(faces);
    let tail = keys_bytes(keys.skip(1));
    law_key_roundtrip(cursor, keys[0].0, keys[0].1, tail);
    lemma_last_key_len(keys, cursor.key_len());
    assert(values.skip(1) =~= next.values.subrange(next.idx + 1, next.idx + keys.len()));
}

/// The step of a reader to the first key of the block whose frame its slice begins
/// with, from a state `from` whose slice is not used up.
proof fn lemma_next_block<TValueReader: ValueReader>(
    cursor: Cursor<TValueReader::Model>,
    from: Blocks,
    next: Cursor<TValueReader::Model>,
    result: Result<bool, ErrorView>,
    blocks: Seq<WrittenBlock<TValueReader::Model>>,
    marked: bool,
    later: Seq<WrittenSlice<TValueReader::Model>>,
)
    requires
        cursor.blocks.remaining().len() == 0,
        cursor.blocks.settled() == from,
        from.settled() == from,
        blocks.len() > 0,
        if marked {
            from.slice == stream_bytes(blocks) && later.len() == 0
        } else {
            from.slice == stream_frames(blocks) && from.later == slices_bytes(later)
        },
        slices_hold_terms(later),
        all_written::<TValueReader>(blocks + slices_blocks(later), cursor.key_len()),
        advanced::<TValueReader>(cursor, next, result),
    ensures
        result == Ok::<bool, ErrorView>(true),
        stands_on(next, blocks[0].entries()[0]),
        next.blocks.first_ordinal == from.first_ordinal,
        faces::<TValueReader>(
            next,
            blocks[0].keys.skip(1),
            blocks[0].values.skip(1),
            blocks.skip(1),
            marked,
            later,
        ),
{
    reveal(faces);
    let block = blocks[0];
    let all = blocks + slices_blocks(later);
    assert(all[0] == block);
    assert(all.skip(1) =~= blocks.skip(1) + slices_blocks(later));
    let loaded = Blocks { offset: 0, ..next.blocks };
    let rest = if marked {
        stream_bytes(blocks.skip(1))
    } else {
        stream_frames(blocks.skip(1))
    };
    assert(from.slice =~= block.frame() + rest);
    let expected = Blocks { block: block.content(), offset: 0, slice: rest, ..from };
    let read: Result<bool, ErrorView> = if block_read(cursor.blocks, loaded, Ok(true)) {
        Ok(true)
    } else {
        result
    };
    assert(block_read(from, loaded, read));
    law_frame_roundtrip(block.content(), block.compressed, rest, from, loaded, read);
    assert(loaded == expected);
    let found = TValueReader::decode(block.content()).0;
    let start = Cursor {
        idx: 0,
        values: found,
        counted: TValueReader::decode_counts(block.content()),
        blocks: loaded.consume(block.section.len()),
        ..cursor
    };
    assert(start.blocks.remaining() =~= keys_bytes(block.keys));
    assert(block.values =~= found.subrange(0, block.keys.len() as int));
    lemma_next_in_block::<TValueReader>(
        start,
        start.read_key().0,
        block.keys,
        block.values,
        blocks.skip(1),
        marked,
        later,
    );
}

/// What one step of a reader through written blocks leads to.
spec fn stepped<TValueReader: ValueReader>(
    cursor: Cursor<TValueReader::Model>,
    next: Cursor<TValueReader::Model>,
    result: Result<bool, ErrorView>,
    keys: Seq<(usize, Seq<u8>)>,
    values: Seq<TValueReader::Model>,
    blocks: Seq<WrittenBlock<TValueReader::Model>>,
    marked: bool,
    later: Seq<WrittenSlice<TValueReader::Model>>,
) -> bool {
    if keys.len() > 0 {
        &&& result == Ok::<bool, ErrorView>(true)
        &&& stands_on(next, (keys[0].0, keys[0].1, values[0]))
        &&& next.blocks.first_ordinal == cursor.blocks.first_ordinal
        &&& faces::<TValueReader>(next, keys.skip(1), values.skip(1), blocks, marked, later)
    } else if blocks.len() > 0 {
        &&& result == Ok::<bool, ErrorView>(true)
        &&& stands_on(next, blocks[0].entries()[0])
        &&& next.blocks.first_ordinal == cursor.blocks.first_ordinal
        &&& faces::<TValueReader>(
            next,
            blocks[0].keys.skip(1),
            blocks[0].values.skip(1),
            blocks.skip(1),
            marked,
            later,
        )
    } else if later.len() > 0 {
        let moved = later[0].blocks;
        &&& result == Ok::<bool, ErrorView>(true)
        &&& stands_on(next, moved[0].entries()[0])
        &&& next.blocks.first_ordinal == Some(later[0].ordinal)
        &&& faces::<TValueReader>(
            next,
            moved[0].keys.skip(1),
            moved[0].values.skip(1),
            moved.skip(1),
            marked,
            later.skip(1),
        )
    } else {
        result == Ok::<bool, ErrorView>(false)
    }
}

/// Frames are not empty.
proof fn lemma_frames_nonempty<M>(blocks: Seq<WrittenBlock<M>>)
    requires
        blocks.len() > 0,
    ensures
        stream_frames(blocks).len() > 0,
{
    assert(blocks[0].frame().len() > 0);
}

/// One step of a reader through written blocks.
proof fn lemma_advance<TValueReader: ValueReader>(
    cursor: Cursor<TValueReader::Model>,
    next: Cursor<TValueReader::Model>,
    result: Result<bool, ErrorView>,
    keys: Seq<(usize, Seq<u8>)>,
    values: Seq<TValueReader::Model>,
    blocks: Seq<WrittenBlock<TValueReader::Model>>,
    marked: bool,
    later: Seq<WrittenSlice<TValueReader::Model>>,
)
    requires
        faces::<TValueReader>(cursor, keys, values, blocks, marked, later),
        advanced::<TValueReader>(cursor, next, result),
    ensures
        stepped::<TValueReader>(cursor, next, result, keys, values, blocks, marked, later),
{
    reveal(faces);
    lemma_keys_bytes_nonempty(keys);
    if keys.len() > 0 {
        let moved = Cursor { idx: (cursor.idx + 1) as usize, ..cursor };
        assert(cursor.idx.wrapping_add(1) == cursor.idx + 1);
        lemma_next_in_block::<TValueReader>(
            moved,
            moved.read_key().0,
            keys,
            values,
            blocks,
            marked,
            later,
        );
    } else if blocks.len() > 0 {
        lemma_frames_nonempty(blocks);
        lemma_next_block::<TValueReader>(
            cursor,
            cursor.blocks,
            next,
            result,
            blocks,
            marked,
            later,
        );
    } else if later.len() > 0 {
        let slice = later[0];
        lemma_frames_nonempty(slice.blocks);
        law_next_slice_gives_its_ordinal(cursor.blocks, 0);
        assert(slices_bytes(later).skip(1) =~= slices_bytes(later.skip(1)));
        assert(blocks + slices_blocks(later) =~= slice.blocks + slices_blocks(later.skip(1)));
        lemma_next_block::<TValueReader>(
            cursor,
            cursor.blocks.settled(),
            next,
            result,
            slice.blocks,
            marked,
            later.skip(1),
        );
    } else {
        let loaded = Blocks { offset: 0, ..next.blocks };
        let empty = Seq::<u8>::empty();
        let read: Result<bool, ErrorView> = if block_read(cursor.blocks, loaded, Ok(true)) {
            Ok(true)
        } else {
            result
        };
        if marked {
            assert(cursor.blocks.slice =~= le_bytes(0, 4) + empty);
            law_end_marker(empty, cursor.blocks, loaded, read);
        } else {
            assert(cursor.blocks.settled() == cursor.blocks);
        }
    }
}

/// The ordinals that are there to be taken, one look for each term: that of a slice at
/// its first term, and none at the others.
pub open spec fn slices_ordinals<M>(slices: Seq<WrittenSlice<M>>) -> Seq<Option<u64>>
    decreases slices.len(),
{
    if slices.len() == 0 {
        Seq::empty()
    } else {
        once(Some(slices[0].ordinal), stream_entries(slices[0].blocks).len()) + slices_ordinals(
            slices.skip(1),
        )
    }
}

/// `ordinal` at the first of `count` looks, and none at the others.
pub open spec fn once(ordinal: Option<u64>, count: nat) -> Seq<Option<u64>> {
    Seq::new(
        count,
        |i: int|
            if i == 0 {
                ordinal
            } else {
                None
            },
    )
}

/// The state after the ordinal was taken.
pub open spec fn taken<M>(cursor: Cursor<M>) -> Cursor<M> {
    Cursor { blocks: Blocks { first_ordinal: None, ..cursor.blocks }, ..cursor }
}

/// Whether successive calls of `advance` lead from each of `before` to that of `after`
/// and give `results`, where the ordinal may be taken between two of the calls, and is
/// if `taking`.
#[verifier::opaque]
spec fn is_run<TValueReader: ValueReader>(
    before: Seq<Cursor<TValueReader::Model>>,
    after: Seq<Cursor<TValueReader::Model>>,
    results: Seq<Result<bool, ErrorView>>,
    taking: bool,
) -> bool {
    &&& before.len() == results.len() + 1
    &&& after.len() == results.len()
    &&& forall|i: int|
        0 <= i < results.len() ==> linked::<TValueReader>(
            #[trigger] before[i],
            after[i],
            results[i],
            before[i + 1],
            taking,
        )
}

/// Whether a call of `advance` leads from `before` to `after` and gives `result`, and
/// the next one starts from `next`.
#[verifier::opaque]
spec fn linked<TValueReader: ValueReader>(
    before: Cursor<TValueReader::Model>,
    after: Cursor<TValueReader::Model>,
    result: Result<bool, ErrorView>,
    next: Cursor<TValueReader::Model>,
    taking: bool,
) -> bool {
    &&& advanced::<TValueReader>(before, after, result)
    &&& next == taken(after) || (!taking && next == after)
}

/// What a run through what `before[0]` faces gives.
#[verifier::opaque]
spec fn run_gives<M>(
    after: Seq<Cursor<M>>,
    results: Seq<Result<bool, ErrorView>>,
    all: Seq<(usize, Seq<u8>, M)>,
    ordinals: Seq<Option<u64>>,
    taking: bool,
) -> bool {
    forall|i: int|
        0 <= i < results.len() ==> if i < all.len() {
            &&& #[trigger] results[i] == Ok::<bool, ErrorView>(true)
            &&& stands_on(after[i], all[i])
            &&& taking ==> after[i].blocks.first_ordinal == ordinals[i]
        } else {
            results[i] == Ok::<bool, ErrorView>(false)
        }
}

/// The run behind a first step gives what the run gives, but for that step.
proof fn lemma_run_step<M>(
    after: Seq<Cursor<M>>,
    results: Seq<Result<bool, ErrorView>>,
    all: Seq<(usize, Seq<u8>, M)>,
    ordinals: Seq<Option<u64>>,
    taking: bool,
)
    requires
        results.len() > 0,
        after.len() == results.len(),
        all.len() > 0,
        all.len() == ordinals.len(),
        results[0] == Ok::<bool, ErrorView>(true),
        stands_on(after[0], all[0]),
        taking ==> after[0].blocks.first_ordinal == ordinals[0],
        run_gives(after.skip(1), results.skip(1), all.skip(1), ordinals.skip(1), taking),
    ensures
        run_gives(after, results, all, ordinals, taking),
{
    reveal(run_gives);
    assert forall|i: int| 0 <= i < results.len() implies if i < all.len() {
        &&& #[trigger] results[i] == Ok::<bool, ErrorView>(true)
        &&& stands_on(after[i], all[i])
        &&& taking ==> after[i].blocks.first_ordinal == ordinals[i]
    } else {
        results[i] == Ok::<bool, ErrorView>(false)
    } by {
        if i > 0 {
            assert(results.skip(1)[i - 1] == results[i]);
            assert(after.skip(1)[i - 1] == after[i]);
            if i < all.len() {
                assert(all.skip(1)[i - 1] == all[i]);
                assert(ordinals.skip(1)[i - 1] == ordinals[i]);
            }
        }
    }
}

/// The ordinals that a run looks at: `ordinal` at the first term that is left in the
/// current slice, then those of the later slices.
spec fn ordinals_ahead<M>(
    ordinal: Option<u64>,
    keys: Seq<(usize, Seq<u8>)>,
    blocks: Seq<WrittenBlock<M>>,
    later: Seq<WrittenSlice<M>>,
) -> Seq<Option<u64>> {
    once(ordinal, keys.len() + stream_entries(blocks).len()) + slices_ordinals(later)
}

proof fn lemma_ahead_len<TValueReader: ValueReader>(
    blocks: Seq<WrittenBlock<TValueReader::Model>>,
    later: Seq<WrittenSlice<TValueReader::Model>>,
)
    ensures
        stream_entries(blocks + slices_blocks(later)).len() == stream_entries(blocks).len()
            + slices_ordinals(later).len(),
    decreases later.len(),
{
    law_streams_join::<TValueReader>(blocks, slices_blocks(later), 0);
    if later.len() > 0 {
        lemma_ahead_len::<TValueReader>(later[0].blocks, later.skip(1));
    }
}

/// What is left ahead behind the first entry: keys, their values, blocks and slices.
spec fn ahead_of_first<M>(
    keys: Seq<(usize, Seq<u8>)>,
    values: Seq<M>,
    blocks: Seq<WrittenBlock<M>>,
    later: Seq<WrittenSlice<M>>,
) -> (Seq<(usize, Seq<u8>)>, Seq<M>, Seq<WrittenBlock<M>>, Seq<WrittenSlice<M>>) {
    if keys.len() > 0 {
        (keys.skip(1), values.skip(1), blocks, later)
    } else if blocks.len() > 0 {
        (blocks[0].keys.skip(1), blocks[0].values.skip(1), blocks.skip(1), later)
    } else {
        let moved = later[0].blocks;
        (moved[0].keys.skip(1), moved[0].values.skip(1), moved.skip(1), later.skip(1))
    }
}

/// The entries and the ordinals ahead fall into the first and the others.
proof fn lemma_ahead_of_first<TValueReader: ValueReader>(
    ordinal: Option<u64>,
    keys: Seq<(usize, Seq<u8>)>,
    values: Seq<TValueReader::Model>,
    blocks: Seq<WrittenBlock<TValueReader::Model>>,
    later: Seq<WrittenSlice<TValueReader::Model>>,
    prev_len: nat,
)
    requires
        keys.len() > 0 || blocks.len() > 0 || later.len() > 0,
        keys.len() == values.len(),
        slices_hold_terms(later),
        all_written::<TValueReader>(blocks + slices_blocks(later), prev_len),
    ensures
        ({
            let (keys1, values1, blocks1, later1) = ahead_of_first(keys, values, blocks, later);
            let all = entries_ahead(keys, values, blocks, later);
            let ordinals = ordinals_ahead(ordinal, keys, blocks, later);
            &&& all.len() > 0
            &&& all.len() == ordinals.len()
            &&& all.skip(1) == entries_ahead(keys1, values1, blocks1, later1)
            &&& ordinals.skip(1) == ordinals_ahead(None, keys1, blocks1, later1)
            &&& all[0] == if keys.len() > 0 {
                (keys[0].0, keys[0].1, values[0])
            } else if blocks.len() > 0 {
                blocks[0].entries()[0]
            } else {
                later[0].blocks[0].entries()[0]
            }
            &&& ordinals[0] == if keys.len() > 0 || blocks.len() > 0 {
                ordinal
            } else {
                Some(later[0].ordinal)
            }
        }),
{
    let (keys1, values1, blocks1, later1) = ahead_of_first(keys, values, blocks, later);
    let all = entries_ahead(keys, values, blocks, later);
    let ordinals = ordinals_ahead(ordinal, keys, blocks, later);
    let whole = blocks + slices_blocks(later);
    lemma_ahead_len::<TValueReader>(blocks, later);
    if keys.len() == 0 && blocks.len() > 0 {
        assert(whole[0] == blocks[0]);
        assert(whole.skip(1) =~= blocks1 + slices_blocks(later));
        assert(written::<TValueReader>(blocks[0], prev_len));
    } else if keys.len() == 0 {
        let moved = later[0].blocks;
        assert(moved.len() > 0);
        assert(whole =~= moved + slices_blocks(later1));
        assert(whole[0] == moved[0]);
        assert(whole.skip(1) =~= blocks1 + slices_blocks(later1));
        assert(written::<TValueReader>(moved[0], prev_len));
    }
    assert(all.skip(1) =~= entries_ahead(keys1, values1, blocks1, later1));
    assert(ordinals.skip(1) =~= ordinals_ahead(None, keys1, blocks1, later1));
}

/// What is left of a run behind its first call.
proof fn lemma_run_skip<TValueReader: ValueReader>(
    before: Seq<Cursor<TValueReader::Model>>,
    after: Seq<Cursor<TValueReader::Model>>,
    results: Seq<Result<bool, ErrorView>>,
    taking: bool,
)
    requires
        is_run::<TValueReader>(before, after, results, taking),
        results.len() > 0,
    ensures
        before.len() == results.len() + 1,
        after.len() == results.len(),
        advanced::<TValueReader>(before[0], after[0], results[0]),
        before[1] == taken(after[0]) || (!taking && before[1] == after[0]),
        is_run::<TValueReader>(before.skip(1), after.skip(1), results.skip(1), taking),
{
    reveal(is_run);
    let before1 = before.skip(1);
    let after1 = after.skip(1);
    let results1 = results.skip(1);
    assert(linked::<TValueReader>(before[0], after[0], results[0], before[1], taking));
    assert(advanced::<TValueReader>(before[0], after[0], results[0]) && (before[1] == taken(
        after[0],
    ) || (!taking && before[1] == after[0]))) by {
        reveal(linked);
    }
    assert forall|i: int| 0 <= i < results1.len() implies linked::<TValueReader>(
        #[trigger] before1[i],
        after1[i],
        results1[i],
        before1[i + 1],
        taking,
    ) by {
        assert(before1[i] == before[i + 1]);
    }
}

/// One step of a reader, over what it has ahead.
proof fn lemma_step<TValueReader: ValueReader>(
    cursor: Cursor<TValueReader::Model>,
    next: Cursor<TValueReader::Model>,
    result: Result<bool, ErrorView>,
    keys: Seq<(usize, Seq<u8>)>,
    values: Seq<TValueReader::Model>,
    blocks: Seq<WrittenBlock<TValueReader::Model>>,
    marked: bool,
    later: Seq<WrittenSlice<TValueReader::Model>>,
)
    requires
        faces::<TValueReader>(cursor, keys, values, blocks, marked, later),
        advanced::<TValueReader>(cursor, next, result),
    ensures
        ({
            let all = entries_ahead(keys, values, blocks, later);
            let ordinals = ordinals_ahead(cursor.blocks.first_ordinal, keys, blocks, later);
            let (keys1, values1, blocks1, later1) = ahead_of_first(keys, values, blocks, later);
            &&& all.len() == ordinals.len()
            &&& if all.len() > 0 {
                &&& result == Ok::<bool, ErrorView>(true)
                &&& stands_on(next, all[0])
                &&& next.blocks.first_ordinal == ordinals[0]
                &&& faces::<TValueReader>(next, keys1, values1, blocks1, marked, later1)
                &&& all.skip(1) == entries_ahead(keys1, values1, blocks1, later1)
                &&& ordinals.skip(1) == ordinals_ahead(None, keys1, blocks1, later1)
            } else {
                result == Ok::<bool, ErrorView>(false)
            }
        }),
{
    lemma_advance::<TValueReader>(cursor, next, result, keys, values, blocks, marked, later);
    if keys.len() > 0 || blocks.len() > 0 || later.len() > 0 {
        assert(keys.len() == values.len() && slices_hold_terms(later) && all_written::<
            TValueReader,
        >(blocks + slices_blocks(later), last_key_len(keys, cursor.key_len()))) by {
            reveal(faces);
        }
        lemma_ahead_of_first::<TValueReader>(
            cursor.blocks.first_ordinal,
            keys,
            values,
            blocks,
            later,
            last_key_len(keys, cursor.key_len()),
        );
    } else {
        assert(blocks + slices_blocks(later) =~= Seq::empty());
        assert(entries_ahead(keys, values, blocks, later) =~= Seq::empty());
    }
}

/// A run through what a reader faces gives the entries and the ordinals ahead of it.
proof fn lemma_run<TValueReader: ValueReader>(
    before: Seq<Cursor<TValueReader::Model>>,
    after: Seq<Cursor<TValueReader::Model>>,
    results: Seq<Result<bool, ErrorView>>,
    taking: bool,
    keys: Seq<(usize, Seq<u8>)>,
    values: Seq<TValueReader::Model>,
    blocks: Seq<WrittenBlock<TValueReader::Model>>,
    marked: bool,
    later: Seq<WrittenSlice<TValueReader::Model>>,
)
    requires
        is_run::<TValueReader>(before, after, results, taking),
        faces::<TValueReader>(before[0], keys, values, blocks, marked, later),
        results.len() <= entries_ahead(keys, values, blocks, later).len() + 1,
    ensures
        run_gives(
            after,
            results,
            entries_ahead(keys, values, blocks, later),
            ordinals_ahead(before[0].blocks.first_ordinal, keys, blocks, later),
            taking,
        ),
    decreases results.len(),
{
    let all = entries_ahead(keys, values, blocks, later);
    let ordinals = ordinals_ahead(before[0].blocks.first_ordinal, keys, blocks, later);
    if results.len() == 0 {
        reveal(run_gives);
    } else {
        lemma_run_skip::<TValueReader>(before, after, results, taking);
        lemma_step::<TValueReader>(
            before[0],
            after[0],
            results[0],
            keys,
            values,
            blocks,
            marked,
            later,
        );
        if all.len() > 0 {
            let (keys1, values1, blocks1, later1) = ahead_of_first(keys, values, blocks, later);
            lemma_faces_taken::<TValueReader>(
                after[0],
                before[1],
                keys1,
                values1,
                blocks1,
                marked,
                later1,
            );
            lemma_run::<TValueReader>(
                before.skip(1),
                after.skip(1),
                results.skip(1),
                taking,
                keys1,
                values1,
                blocks1,
                marked,
                later1,
            );
            if !taking {
                lemma_untaken(
                    after.skip(1),
                    results.skip(1),
                    all.skip(1),
                    ordinals_ahead(before[1].blocks.first_ordinal, keys1, blocks1, later1),
                    ordinals.skip(1),
                );
            }
            lemma_run_step(after, results, all, ordinals, taking);
        } else {
            reveal(run_gives);
        }
    }
}

/// Where the ordinals are not taken, nothing is said of them.
proof fn lemma_untaken<M>(
    after: Seq<Cursor<M>>,
    results: Seq<Result<bool, ErrorView>>,
    all: Seq<(usize, Seq<u8>, M)>,
    ordinals: Seq<Option<u64>>,
    others: Seq<Option<u64>>,
)
    requires
        run_gives(after, results, all, ordinals, false),
    ensures
        run_gives(after, results, all, others, false),
{
    reveal(run_gives);
}

/// Taking the ordinal leaves what a reader faces.
proof fn lemma_faces_taken<TValueReader: ValueReader>(
    after: Cursor<TValueReader::Model>,
    before: Cursor<TValueReader::Model>,
    keys: Seq<(usize, Seq<u8>)>,
    values: Seq<TValueReader::Model>,
    blocks: Seq<WrittenBlock<TValueReader::Model>>,
    marked: bool,
    later: Seq<WrittenSlice<TValueReader::Model>>,
)
    requires
        faces::<TValueReader>(after, keys, values, blocks, marked, later),
        before == after || before == taken(after),
    ensures
        faces::<TValueReader>(before, keys, values, blocks, marked, later),
{
    reveal(faces);
    assert(before.blocks.remaining() == after.blocks.remaining());
    assert(before.key_len() == after.key_len());
}

/// What was written is read back. A reader that starts at the beginning of a
/// stream finds, call after call, the entries of its blocks in the order in which
/// they were written, each with the prefix length, the suffix and the value it was
/// written with, and then the end of the stream.
///
/// `trace` are the states that successive calls of `advance` go through, and
/// `results` what the calls return.
pub proof fn law_stream_roundtrip<TValueReader: ValueReader>(
    trace: Seq<Cursor<TValueReader::Model>>,
    results: Seq<Result<bool, ErrorView>>,
    blocks: Seq<WrittenBlock<TValueReader::Model>>,
)
    requires
        trace.len() == results.len() + 1,
        forall|i: int|
            0 <= i < results.len() ==> advanced::<TValueReader>(
                #[trigger] trace[i],
                trace[i + 1],
                results[i],
            ),
        trace[0].blocks.block.len() == 0,
        trace[0].blocks.offset == 0,
        trace[0].blocks.slice == stream_bytes(blocks),
        all_written::<TValueReader>(blocks, trace[0].key_len()),
        results.len() <= stream_entries(blocks).len() + 1,
    ensures
        forall|i: int|
            0 <= i < results.len() ==> if i < stream_entries(blocks).len() {
                &&& #[trigger] results[i] == Ok::<bool, ErrorView>(true)
                &&& stands_on(trace[i + 1], stream_entries(blocks)[i])
            } else {
                results[i] == Ok::<bool, ErrorView>(false)
            },
{
    reveal(run_gives);
    reveal(is_run);
    reveal(faces);
    let keys = Seq::<(usize, Seq<u8>)>::empty();
    let values = Seq::<TValueReader::Model>::empty();
    let later = Seq::<WrittenSlice<TValueReader::Model>>::empty();
    let after = trace.skip(1);
    assert(trace[0].blocks.remaining() =~= keys_bytes(keys));
    assert(slices_blocks(later) =~= Seq::empty());
    assert(blocks + slices_blocks(later) =~= blocks);
    let all = entries_ahead(keys, values, blocks, later);
    assert(all =~= stream_entries(blocks));
    assert forall|i: int| 0 <= i < results.len() implies linked::<TValueReader>(
        #[trigger] trace[i],
        after[i],
        results[i],
        trace[i + 1],
        false,
    ) by {
        reveal(linked);
        assert(after[i] == trace[i + 1]);
    }
    lemma_run::<TValueReader>(trace, after, results, false, keys, values, blocks, true, later);
    assert forall|i: int| 0 <= i < results.len() implies if i < stream_entries(blocks).len() {
        &&& #[trigger] results[i] == Ok::<bool, ErrorView>(true)
        &&& stands_on(trace[i + 1], stream_entries(blocks)[i])
    } else {
        results[i] == Ok::<bool, ErrorView>(false)
    } by {
        assert(after[i] == trace[i + 1]);
    }
}

/// A reader of written blocks without the end marker, such as those of a range that a
/// flush returned, finds their entries too, and then the end.
///
/// `trace` and `results` are as in [`law_stream_roundtrip`].
pub proof fn law_frames_roundtrip<TValueReader: ValueReader>(
    trace: Seq<Cursor<TValueReader::Model>>,
    results: Seq<Result<bool, ErrorView>>,
    blocks: Seq<WrittenBlock<TValueReader::Model>>,
)
    requires
        trace.len() == results.len() + 1,
        forall|i: int|
            0 <= i < results.len() ==> advanced::<TValueReader>(
                #[trigger] trace[i],
                trace[i + 1],
                results[i],
            ),
        trace[0].blocks.block.len() == 0,
        trace[0].blocks.offset == 0,
        trace[0].blocks.slice == stream_frames(blocks),
        trace[0].blocks.later.len() == 0,
        all_written::<TValueReader>(blocks, trace[0].key_len()),
        results.len() <= stream_entries(blocks).len() + 1,
    ensures
        forall|i: int|
            0 <= i < results.len() ==> if i < stream_entries(blocks).len() {
                &&& #[trigger] results[i] == Ok::<bool, ErrorView>(true)
                &&& stands_on(trace[i + 1], stream_entries(blocks)[i])
            } else {
                results[i] == Ok::<bool, ErrorView>(false)
            },
{
    reveal(run_gives);
    reveal(is_run);
    reveal(faces);
    let keys = Seq::<(usize, Seq<u8>)>::empty();
    let values = Seq::<TValueReader::Model>::empty();
    let later = Seq::<WrittenSlice<TValueReader::Model>>::empty();
    let after = trace.skip(1);
    assert(trace[0].blocks.remaining() =~= keys_bytes(keys));
    assert(trace[0].blocks.later =~= slices_bytes(later));
    assert(slices_blocks(later) =~= Seq::empty());
    assert(blocks + slices_blocks(later) =~= blocks);
    let all = entries_ahead(keys, values, blocks, later);
    assert(all =~= stream_entries(blocks));
    assert forall|i: int| 0 <= i < results.len() implies linked::<TValueReader>(
        #[trigger] trace[i],
        after[i],
        results[i],
        trace[i + 1],
        false,
    ) by {
        reveal(linked);
        assert(after[i] == trace[i + 1]);
    }
    lemma_run::<TValueReader>(trace, after, results, false, keys, values, blocks, false, later);
    assert forall|i: int| 0 <= i < results.len() implies if i < stream_entries(blocks).len() {
        &&& #[trigger] results[i] == Ok::<bool, ErrorView>(true)
        &&& stands_on(trace[i + 1], stream_entries(blocks)[i])
    } else {
        results[i] == Ok::<bool, ErrorView>(false)
    } by {
        assert(after[i] == trace[i + 1]);
    }
}

/// A reader over slices of written blocks finds the entries of all of them, one slice
/// after the other, and then the end. Where the ordinal is taken after each call of
/// `advance`, that of a slice is given once, at its first term, and a look at any other
/// term, or a second one at the same, gives none.
///
/// The calls of `advance` lead from each of `before` to that of `after` and return
/// `results`; what is taken is the ordinal of that of `after`.
pub proof fn law_slices_roundtrip<TValueReader: ValueReader>(
    before: Seq<Cursor<TValueReader::Model>>,
    after: Seq<Cursor<TValueReader::Model>>,
    results: Seq<Result<bool, ErrorView>>,
    slices: Seq<WrittenSlice<TValueReader::Model>>,
)
    requires
        before.len() == results.len() + 1,
        after.len() == results.len(),
        forall|i: int|
            0 <= i < results.len() ==> {
                &&& advanced::<TValueReader>(#[trigger] before[i], after[i], results[i])
                &&& before[i + 1] == taken(after[i])
            },
        slices.len() > 0,
        before[0].blocks == (Blocks {
            block: Seq::empty(),
            offset: 0,
            slice: slices_bytes(slices)[0].0,
            later: slices_bytes(slices).skip(1),
            first_ordinal: Some(slices_bytes(slices)[0].1),
        }),
        slices_hold_terms(slices),
        all_written::<TValueReader>(slices_blocks(slices), before[0].key_len()),
        results.len() <= stream_entries(slices_blocks(slices)).len() + 1,
    ensures
        forall|i: int|
            0 <= i < results.len() ==> if i < stream_entries(slices_blocks(slices)).len() {
                &&& #[trigger] results[i] == Ok::<bool, ErrorView>(true)
                &&& stands_on(after[i], stream_entries(slices_blocks(slices))[i])
                &&& after[i].blocks.first_ordinal == slices_ordinals(slices)[i]
                &&& before[i + 1].blocks.first_ordinal is None
            } else {
                results[i] == Ok::<bool, ErrorView>(false)
            },
{
    reveal(run_gives);
    reveal(is_run);
    reveal(faces);
    let keys = Seq::<(usize, Seq<u8>)>::empty();
    let values = Seq::<TValueReader::Model>::empty();
    let blocks = slices[0].blocks;
    let later = slices.skip(1);
    assert(before[0].blocks.remaining() =~= keys_bytes(keys));
    assert(slices_bytes(slices).skip(1) =~= slices_bytes(later));
    assert(slices_hold_terms(later));
    assert(entries_ahead(keys, values, blocks, later) =~= stream_entries(slices_blocks(slices)));
    assert(ordinals_ahead(Some(slices[0].ordinal), keys, blocks, later) =~= slices_ordinals(
        slices,
    ));
    assert forall|i: int| 0 <= i < results.len() implies linked::<TValueReader>(
        #[trigger] before[i],
        after[i],
        results[i],
        before[i + 1],
        true,
    ) by {
        reveal(linked);
    }
    lemma_run::<TValueReader>(before, after, results, true, keys, values, blocks, false, later);
    assert forall|i: int| 0 <= i < results.len() implies if i < stream_entries(
        slices_blocks(slices),
    ).len() {
        &&& #[trigger] results[i] == Ok::<bool, ErrorView>(true)
        &&& stands_on(after[i], stream_entries(slices_blocks(slices))[i])
        &&& after[i].blocks.first_ordinal == slices_ordinals(slices)[i]
        &&& before[i + 1].blocks.first_ordinal is None
    } else {
        results[i] == Ok::<bool, ErrorView>(false)
    } by {
        assert(advanced::<TValueReader>(before[i], after[i], results[i]));
    }
}

/// The number of terms in front of slice `k`.
pub open spec fn first_term<M>(slices: Seq<WrittenSlice<M>>, k: int) -> nat {
    stream_entries(slices_blocks(slices.take(k))).len()
}

/// Among the ordinals of [`slices_ordinals`] that of slice `k` stands at the first term
/// of slice `k`, and there is none at a term that is the first of no slice.
pub proof fn law_ordinals_stand_at_first_terms<TValueReader: ValueReader>(
    slices: Seq<WrittenSlice<TValueReader::Model>>,
    prev_len: nat,
)
    requires
        slices_hold_terms(slices),
        all_written::<TValueReader>(slices_blocks(slices), prev_len),
    ensures
        slices_ordinals(slices).len() == stream_entries(slices_blocks(slices)).len(),
        forall|k: int|
            0 <= k < slices.len() ==> {
                &&& #[trigger] first_term(slices, k) < slices_ordinals(slices).len()
                &&& slices_ordinals(slices)[first_term(slices, k) as int] == Some(
                    slices[k].ordinal,
                )
            },
        forall|i: int|
            0 <= i < slices_ordinals(slices).len() && (forall|k: int|
                0 <= k < slices.len() ==> #[trigger] first_term(slices, k) != i)
                ==> (#[trigger] slices_ordinals(slices)[i]) is None,
    decreases slices.len(),
{
    let ordinals = slices_ordinals(slices);
    if slices.len() > 0 {
        let head = slices[0];
        let tail = slices.skip(1);
        let count = stream_entries(head.blocks).len();
        law_streams_join::<TValueReader>(head.blocks, slices_blocks(tail), prev_len);
        assert(slices_hold_terms(tail));
        law_ordinals_stand_at_first_terms::<TValueReader>(
            tail,
            stream_last_key_len(head.blocks, prev_len),
        );
        assert(count > 0) by {
            assert(head.blocks.len() > 0);
            assert(written::<TValueReader>(head.blocks[0], prev_len));
        }
        assert(slices.take(0) =~= Seq::empty());
        assert(first_term(slices, 0) == 0);
        assert forall|k: int| 1 <= k <= slices.len() implies #[trigger] first_term(slices, k)
            == count + first_term(tail, k - 1) by {
            assert(slices.take(k)[0] == head);
            assert(slices.take(k).skip(1) =~= tail.take(k - 1));
            law_streams_join::<TValueReader>(
                head.blocks,
                slices_blocks(tail.take(k - 1)),
                prev_len,
            );
        }
        assert forall|k: int| 0 <= k < slices.len() implies {
            &&& #[trigger] first_term(slices, k) < ordinals.len()
            &&& ordinals[first_term(slices, k) as int] == Some(slices[k].ordinal)
        } by {
            if k > 0 {
                assert(first_term(tail, k - 1) < slices_ordinals(tail).len());
                assert(tail[k - 1] == slices[k]);
            }
        }
        assert forall|i: int|
            0 <= i < ordinals.len() && (forall|k: int|
                0 <= k < slices.len() ==> #[trigger] first_term(slices, k) != i) implies (
        #[trigger] ordinals[i]) is None by {
            if i == 0 {
                assert(first_term(slices, 0) != i);
            } else if i >= count {
                let j = i - count;
                assert forall|k: int| 0 <= k < tail.len() implies #[trigger] first_term(tail, k)
                    != j by {
                    assert(first_term(slices, k + 1) != i);
                }
                assert(ordinals[i] == slices_ordinals(tail)[j]);
            }
        }
    }
}

/// Writing a key appends its bytes to those of the keys before it.
pub proof fn law_keys_append(keys: Seq<(usize, Seq<u8>)>, keep: usize, suffix: Seq<u8>)
    ensures
        keys_bytes(keys.push((keep, suffix))) == keys_bytes(keys) + key_bytes(keep as nat, suffix),
    decreases keys.len(),
{
    let all = keys.push((keep, suffix));
    if keys.len() == 0 {
        assert(all.skip(1) =~= Seq::empty());
        assert(keys_bytes(all.skip(1)) =~= Seq::empty());
        assert(keys_bytes(all) =~= keys_bytes(keys) + key_bytes(keep as nat, suffix));
    } else {
        law_keys_append(keys.skip(1), keep, suffix);
        assert(all.skip(1) =~= keys.skip(1).push((keep, suffix)));
        assert(keys_bytes(all) =~= keys_bytes(keys) + key_bytes(keep as nat, suffix));
    }
}

/// The length of the last key of `blocks`, or `prev_len` if there is none.
pub open spec fn stream_last_key_len<M>(blocks: Seq<WrittenBlock<M>>, prev_len: nat) -> nat
    decreases blocks.len(),
{
    if blocks.len() == 0 {
        prev_len
    } else {
        stream_last_key_len(blocks.skip(1), last_key_len(blocks[0].keys, prev_len))
    }
}

/// Blocks behind blocks are a stream of the entries of both.
pub proof fn law_streams_join<TValueReader: ValueReader>(
    blocks: Seq<WrittenBlock<TValueReader::Model>>,
    more: Seq<WrittenBlock<TValueReader::Model>>,
    prev_len: nat,
)
    ensures
        stream_frames(blocks + more) == stream_frames(blocks) + stream_frames(more),
        stream_entries(blocks + more) == stream_entries(blocks) + stream_entries(more),
        all_written::<TValueReader>(blocks + more, prev_len) <==> (all_written::<TValueReader>(
            blocks,
            prev_len,
        ) && all_written::<TValueReader>(more, stream_last_key_len(blocks, prev_len))),
        stream_last_key_len(blocks + more, prev_len) == stream_last_key_len(
            more,
            stream_last_key_len(blocks, prev_len),
        ),
    decreases blocks.len(),
{
    let all = blocks + more;
    if blocks.len() == 0 {
        assert(all =~= more);
        assert(stream_frames(all) =~= stream_frames(blocks) + stream_frames(more));
        assert(stream_entries(all) =~= stream_entries(blocks) + stream_entries(more));
    } else {
        law_streams_join::<TValueReader>(
            blocks.skip(1),
            more,
            last_key_len(blocks[0].keys, prev_len),
        );
        assert(all.skip(1) =~= blocks.skip(1) + more);
        assert(stream_frames(all) =~= stream_frames(blocks) + stream_frames(more));
        assert(stream_entries(all) =~= stream_entries(blocks) + stream_entries(more));
    }
}

/// A written block behind written blocks makes written blocks, with its frame behind
/// their frames and its entries behind their entries.
pub proof fn law_stream_append<TValueReader: ValueReader>(
    blocks: Seq<WrittenBlock<TValueReader::Model>>,
    block: WrittenBlock<TValueReader::Model>,
    prev_len: nat,
)
    requires
        all_written::<TValueReader>(blocks, prev_len),
        written::<TValueReader>(block, stream_last_key_len(blocks, prev_len)),
    ensures
        all_written::<TValueReader>(blocks.push(block), prev_len),
        stream_frames(blocks.push(block)) == stream_frames(blocks) + block.frame(),
        stream_entries(blocks.push(block)) == stream_entries(blocks) + block.entries(),
        stream_last_key_len(blocks.push(block), prev_len) == last_key_len(
            block.keys,
            stream_last_key_len(blocks, prev_len),
        ),
{
    let one = seq![block];
    law_streams_join::<TValueReader>(blocks, one, prev_len);
    lemma_one_block::<TValueReader>(block, stream_last_key_len(blocks, prev_len));
    assert(blocks.push(block) =~= blocks + one);
}

/// A stream of one block.
pub proof fn lemma_one_block<TValueReader: ValueReader>(
    block: WrittenBlock<TValueReader::Model>,
    prev_len: nat,
)
    ensures
        stream_frames(seq![block]) == block.frame(),
        stream_entries(seq![block]) == block.entries(),
        all_written::<TValueReader>(seq![block], prev_len) <==> written::<TValueReader>(
            block,
            prev_len,
        ),
        stream_last_key_len(seq![block], prev_len) == last_key_len(block.keys, prev_len),
{
    let none = Seq::<WrittenBlock<TValueReader::Model>>::empty();
    let one = seq![block];
    assert(one.skip(1) =~= none);
    assert(stream_frames(none) =~= Seq::<u8>::empty());
    assert(stream_entries(none) =~= Seq::<(usize, Seq<u8>, TValueReader::Model)>::empty());
    let len = last_key_len(block.keys, prev_len);
    assert(all_written::<TValueReader>(none, len));
    assert(stream_last_key_len(none, len) == len);
    assert(stream_frames(one) =~= block.frame());
    assert(stream_entries(one) =~= block.entries());
}

/// The length of what a flush of `pending` stores.
pub open spec fn stored_len<TValueWriter: ValueWriter>(
    pending: PendingBlock<TValueWriter::Model>,
) -> nat {
    let content = block_content::<TValueWriter>(pending);
    block_stored(content, block_compressed(content)).1.len()
}

/// A flush that succeeds appends the frame of a block that
/// [`law_stream_roundtrip`] speaks of: the block of the keys and the values that
/// were written since the flush before it.
///
/// `TValueReader` must find the values in their section, which is the law of the
/// reader and the writer of those values.
pub proof fn law_flushed_block_is_written<TValueWriter: ValueWriter, TValueReader: ValueReader<
    Model = TValueWriter::Model,
>>(
    pre: PendingBlock<TValueWriter::Model>,
    post: PendingBlock<TValueWriter::Model>,
    range: Range<usize>,
    keys: Seq<(usize, Seq<u8>)>,
    prev_len: nat,
) -> (block: WrittenBlock<TValueWriter::Model>)
    requires
        block_flushed::<TValueWriter>(pre, post, Ok(Some(range))),
        pre.leftover.len() == 0,
        pre.block == keys_bytes(keys),
        keys.len() == pre.values.len() <= usize::MAX,
        writable_keys(keys, prev_len),
        pre.values.is_prefix_of(
            TValueReader::decode(TValueWriter::encode(pre.values) + keys_bytes(keys)).0,
        ),
        TValueReader::decode(TValueWriter::encode(pre.values) + keys_bytes(keys)).1 == Ok::<
            nat,
            ErrorView,
        >(TValueWriter::encode(pre.values).len()),
        stored_len::<TValueWriter>(pre) < u32::MAX,
        block_content::<TValueWriter>(pre).len() <= isize::MAX,
    ensures
        block.keys == keys,
        block.values == pre.values,
        post.written == pre.written + block.frame(),
        written::<TValueReader>(block, prev_len),
{
    let section = TValueWriter::encode(pre.values);
    let content = section + keys_bytes(keys);
    assert(block_content::<TValueWriter>(pre) =~= content);
    lemma_keys_bytes_nonempty(keys);
    WrittenBlock { keys, values: pre.values, section, compressed: block_compressed(content) }
}

/// A reader of nothing finds nothing.
pub proof fn law_empty_stream<TValueReader: ValueReader>(
    pre: Cursor<TValueReader::Model>,
    post: Cursor<TValueReader::Model>,
    result: Result<bool, ErrorView>,
)
    requires
        pre.blocks.block.len() == 0,
        pre.blocks.offset == 0,
        pre.blocks.slice.len() == 0,
        pre.blocks.later.len() == 0,
        advanced::<TValueReader>(pre, post, result),
    ensures
        result == Ok::<bool, ErrorView>(false),
{
}

/// The frame with length zero that ends a stream is read as its end, whatever
/// follows it.
pub proof fn law_end_marker(
    rest: Seq<u8>,
    pre: Blocks,
    post: Blocks,
    result: Result<bool, ErrorView>,
)
    requires
        pre.slice == le_bytes(0, 4) + rest,
        block_read(pre, post, result),
    ensures
        result == Ok::<bool, ErrorView>(false),
        post.slice == rest,
{
    law_le_u32_roundtrip(0);
    assert(pre.slice.take(4) =~= le_bytes(0, 4));
    assert(pre.slice.skip(4) =~= rest);
    assert(pre.settled() == pre);
}

/// When a slice is used up the reader moves to the next slice that holds any data,
/// past those that hold none, and the ordinal of that slice is there to be taken.
pub proof fn law_next_slice_gives_its_ordinal(pre: Blocks, next: int)
    requires
        pre.slice.len() == 0,
        0 <= next < pre.later.len(),
        forall|i: int| 0 <= i < next ==> (#[trigger] pre.later[i]).0.len() == 0,
        pre.later[next].0.len() > 0,
    ensures
        pre.settled() == (Blocks {
            slice: pre.later[next].0,
            first_ordinal: Some(pre.later[next].1),
            later: pre.later.skip(next + 1),
            ..pre
        }),
    decreases next,
{
    let moved = Blocks {
        slice: pre.later[0].0,
        first_ordinal: Some(pre.later[0].1),
        later: pre.later.skip(1),
        ..pre
    };
    assert(pre.settled() == moved.settled());
    if next > 0 {
        assert(moved.later.skip(next) =~= pre.later.skip(next + 1));
        law_next_slice_gives_its_ordinal(moved, next - 1);
    }
}

} // verus!

//! Reads a stream of blocks, one at a time.
//!
//! A block is framed as a 4-byte little-endian length, which counts all the
//! bytes that follow it in the frame, a byte that tells whether the content is
//! compressed, and the content. A length of zero ends the stream.

use crate::common::error::{result_view, unexpected_eof, Error, ErrorKind, ErrorView};
use crate::common::le::{le_value, u32_from_le};
use crate::common::owned_bytes::OwnedBytes;
use crate::sstable::compression::{
    zstd_bound, zstd_content, zstd_decompress, zstd_error, zstd_frame, zstd_upper_bound,
};
use crate::sstable::vint;
use std::ops::Range;
use vstd::prelude::*;
use vstd::slice::{slice_subrange, slice_to_vec};

verus! {

/// The flag of a block whose content is compressed.
pub const COMPRESSED: u8 = 1;

/// Room made for a compressed block that does not tell how long its content is.
pub const DEFAULT_CAPACITY: usize = 0x10_0000;

/// What the contracts say of a [`BlockReader`].
pub struct Blocks {
    /// The content of the block that was read last.
    pub block: Seq<u8>,
    /// How much of that block was consumed.
    pub offset: nat,
    /// What is left of the slice that blocks are read from.
    pub slice: Seq<u8>,
    /// The slices after that one, each with the ordinal of its first term.
    pub later: Seq<(Seq<u8>, u64)>,
    /// The ordinal of the current slice, until it is taken.
    pub first_ordinal: Option<u64>,
}

impl Blocks {
    /// What is left of the current block.
    pub open spec fn remaining(self) -> Seq<u8> {
        self.block.skip(self.offset as int)
    }

    /// The same state, `num_bytes` further in the current block.
    pub open spec fn consume(self, num_bytes: nat) -> Blocks {
        Blocks { offset: self.offset + num_bytes, ..self }
    }

    /// The state in which the slices that hold nothing more have been left behind.
    pub open spec fn settled(self) -> Blocks
        decreases self.later.len(),
    {
        if self.slice.len() == 0 && self.later.len() > 0 {
            Blocks {
                slice: self.later[0].0,
                first_ordinal: Some(self.later[0].1),
                later: self.later.skip(1),
                ..self
            }.settled()
        } else {
            self
        }
    }

    /// The state with nothing loaded, in which `slice` is left to read.
    pub open spec fn unloaded(self, slice: Seq<u8>) -> Blocks {
        Blocks { block: Seq::empty(), offset: 0, slice, ..self }
    }
}

/// The room that is made for the content of the zstd frame `frame`: what the frame
/// declares, if that can be had.
pub open spec fn room_for(frame: Seq<u8>) -> usize {
    match zstd_bound(frame) {
        Some(bound) if bound <= usize::MAX / 2 => bound,
        _ => DEFAULT_CAPACITY,
    }
}

/// Whether the content of the zstd frame `frame` is sure to be recovered: a compressor
/// made it of data that the room made for it can hold.
pub open spec fn decompresses(frame: Seq<u8>) -> bool {
    exists|data: Seq<u8>, level: i32|
        frame == #[trigger] zstd_frame(data, level) && data.len() <= room_for(frame)
}

/// Whether reading a block may lead from `pre` to `post` and give `result`.
pub open spec fn block_read(pre: Blocks, post: Blocks, result: Result<bool, ErrorView>) -> bool {
    let start = pre.settled();
    let slice = start.slice;
    let len = le_value(slice.take(4));
    let body = slice.skip(5);
    if slice.len() == 0 {
        result == Ok::<bool, ErrorView>(false) && post == start.unloaded(slice)
    } else if slice.len() < 4 {
        &&& result == Err::<bool, ErrorView>(
            (ErrorKind::UnexpectedEof, "failed to read block_len"@),
        )
        &&& post == start.unloaded(slice)
    } else if len <= 1 {
        result == Ok::<bool, ErrorView>(false) && post == start.unloaded(slice.skip(4))
    } else if slice.len() < 5 {
        &&& result == Err::<bool, ErrorView>(
            (ErrorKind::UnexpectedEof, "failed to read block content"@),
        )
        &&& post == start.unloaded(slice.skip(4))
    } else if body.len() < len - 1 {
        &&& result == Err::<bool, ErrorView>(
            (ErrorKind::UnexpectedEof, "failed to read block content"@),
        )
        &&& post == start.unloaded(body)
    } else {
        let stored = body.take(len - 1);
        let after = start.unloaded(body.skip(len - 1));
        if slice[4] != COMPRESSED {
            result == Ok::<bool, ErrorView>(true) && post == (Blocks { block: stored, ..after })
        } else {
            match result {
                Ok(more) => {
                    &&& more
                    &&& zstd_content(stored) == Some(post.block)
                    &&& post == (Blocks { block: post.block, ..after })
                },
                Err(error) => {
                    &&& error.0 == ErrorKind::Other
                    &&& !decompresses(stored)
                    &&& post == start.unloaded(body)
                },
            }
        }
    }
}

/// Reads blocks from a succession of slices.
pub struct BlockReader {
    buffer: Vec<u8>,
    offset: usize,
    reader: OwnedBytes,
    next_readers: Vec<(OwnedBytes, u64)>,
    next: usize,
    first_ordinal: Option<u64>,
}

/// The slices in `readers`, each with the ordinal of its first term.
pub open spec fn slices(readers: Seq<(OwnedBytes, u64)>) -> Seq<(Seq<u8>, u64)> {
    readers.map_values(|reader: (OwnedBytes, u64)| (reader.0@, reader.1))
}

impl View for BlockReader {
    type V = Blocks;

    closed spec fn view(&self) -> Blocks {
        Blocks {
            block: self.buffer@,
            offset: self.offset as nat,
            slice: self.reader@,
            later: slices(self.next_readers@).skip(self.next as int),
            first_ordinal: self.first_ordinal,
        }
    }
}

impl BlockReader {
    #[verifier::type_invariant]
    spec fn in_bounds(self) -> bool {
        self.offset <= self.buffer@.len() && self.next <= self.next_readers@.len()
    }

    /// A reader of the blocks in `reader`.
    pub fn new(reader: OwnedBytes) -> (blocks: BlockReader)
        ensures
            blocks@ == (Blocks {
                block: Seq::empty(),
                offset: 0,
                slice: reader@,
                later: Seq::empty(),
                first_ordinal: None,
            }),
    {
        let blocks = BlockReader {
            buffer: Vec::new(),
            offset: 0,
            reader,
            next_readers: Vec::new(),
            next: 0,
            first_ordinal: None,
        };
        assert(blocks@.later =~= Seq::empty());
        blocks
    }

    /// A reader of the blocks in `readers`, one slice after the other, each
    /// labelled with the ordinal of its first term.
    pub fn from_multiple_blocks(readers: Vec<(OwnedBytes, u64)>) -> (blocks: BlockReader)
        ensures
            blocks@ == (if readers@.len() == 0 {
                Blocks {
                    block: Seq::empty(),
                    offset: 0,
                    slice: Seq::empty(),
                    later: Seq::empty(),
                    first_ordinal: None,
                }
            } else {
                Blocks {
                    block: Seq::empty(),
                    offset: 0,
                    slice: readers@[0].0@,
                    later: slices(readers@).skip(1),
                    first_ordinal: Some(readers@[0].1),
                }
            }),
    {
        if readers.len() == 0 {
            return BlockReader::new(OwnedBytes::empty());
        }
        let reader = readers[0].0.share();
        let first_ordinal: Option<u64> = Some(readers[0].1);
        BlockReader {
            buffer: Vec::new(),
            offset: 0,
            reader,
            next_readers: readers,
            next: 1,
            first_ordinal,
        }
    }

    /// The ordinal of the first term of the current slice, once per slice.
    pub fn take_first_ordinal(&mut self) -> (first_ordinal: Option<u64>)
        ensures
            first_ordinal == old(self)@.first_ordinal,
            final(self)@ == (Blocks { first_ordinal: None, ..old(self)@ }),
    {
        proof {
            use_type_invariant(&*self);
        }
        let first_ordinal: Option<u64> = self.first_ordinal;
        self.first_ordinal = None;
        first_ordinal
    }

    /// Leaves behind the slices that hold nothing more.
    fn settle(&mut self)
        ensures
            final(self)@ == old(self)@.settled(),
    {
        proof {
            use_type_invariant(&*self);
        }
        while self.reader.len() == 0 && self.next < self.next_readers.len()
            invariant
                self.in_bounds(),
                self@.settled() == old(self)@.settled(),
            decreases self.next_readers@.len() - self.next,
        {
            let ghost before = self@;
            let reader = self.next_readers[self.next].0.share();
            let ordinal: u64 = self.next_readers[self.next].1;
            self.reader = reader;
            self.first_ordinal = Some(ordinal);
            self.next = self.next + 1;
            assert(self@.later =~= before.later.skip(1));
        }
    }

    /// Drops `num_bytes` bytes of the current slice.
    fn skip_in_slice(&mut self, num_bytes: usize)
        requires
            num_bytes <= old(self)@.slice.len(),
        ensures
            final(self)@ == (Blocks {
                slice: old(self)@.slice.skip(num_bytes as int),
                ..old(self)@
            }),
    {
        proof {
            use_type_invariant(&*self);
        }
        let mut reader = self.reader.share();
        reader.advance(num_bytes);
        self.reader = reader;
    }

    /// Loads the next block. Returns `false` at the end of the stream.
    pub fn read_block(&mut self) -> (more: Result<bool, Error>)
        ensures
            block_read(old(self)@, final(self)@, result_view(more)),
    {
        proof {
            use_type_invariant(&*self);
        }
        self.settle();
        proof {
            use_type_invariant(&*self);
        }
        let ghost start = self@;
        self.offset = 0;
        self.buffer = Vec::new();
        assert(self@ == start.unloaded(start.slice));
        let available: usize = self.reader.len();
        if available == 0 {
            return Ok(false);
        }
        if available < 4 {
            return Err(unexpected_eof("failed to read block_len"));
        }
        let block_len: u32 = u32_from_le(slice_subrange(self.reader.as_slice(), 0, 4));
        assert(start.slice.take(4) =~= start.slice.subrange(0, 4));
        self.skip_in_slice(4);
        if block_len <= 1 {
            return Ok(false);
        }
        if self.reader.len() == 0 {
            return Err(unexpected_eof("failed to read block content"));
        }
        let flag: u8 = self.reader.as_slice()[0];
        self.skip_in_slice(1);
        assert(self@.slice =~= start.slice.skip(5));
        let content_len: usize = block_len as usize - 1;
        if self.reader.len() < content_len {
            return Err(unexpected_eof("failed to read block content"));
        }
        let content: Vec<u8>;
        if flag == COMPRESSED {
            let stored = slice_subrange(self.reader.as_slice(), 0, content_len);
            let capacity: usize = match zstd_upper_bound(stored) {
                Some(bound) => if bound <= usize::MAX / 2 {
                    bound
                } else {
                    DEFAULT_CAPACITY
                },
                None => DEFAULT_CAPACITY,
            };
            assert(stored@ =~= start.slice.skip(5).take(content_len as int));
            match zstd_decompress(stored, capacity) {
                Ok(decompressed) => {
                    content = decompressed;
                },
                Err(error) => {
                    return Err(zstd_error(error));
                },
            }
        } else {
            content = slice_to_vec(slice_subrange(self.reader.as_slice(), 0, content_len));
            assert(content@ =~= start.slice.skip(5).take(content_len as int));
        }
        proof {
            use_type_invariant(&*self);
        }
        self.buffer = content;
        self.skip_in_slice(content_len);
        Ok(true)
    }

    /// Where in the block the next byte to read is.
    pub fn offset(&self) -> (offset: usize)
        ensures
            offset == self@.offset,
            offset <= self@.block.len() <= usize::MAX,
    {
        proof {
            use_type_invariant(self);
        }
        assert(self.buffer.len() == self.buffer@.len());
        self.offset
    }

    /// Consumes `num_bytes` bytes of the block.
    pub fn advance(&mut self, num_bytes: usize)
        requires
            num_bytes <= old(self)@.remaining().len(),
        ensures
            final(self)@ == old(self)@.consume(num_bytes as nat),
    {
        proof {
            use_type_invariant(&*self);
        }
        assert(num_bytes <= self.buffer.len() - self.offset);
        self.offset = self.offset + num_bytes;
    }

    /// What is left of the block.
    pub fn buffer(&self) -> (buffer: &[u8])
        ensures
            buffer@ == self@.remaining(),
            buffer@.len() == self@.block.len() - self@.offset,
    {
        proof {
            use_type_invariant(self);
        }
        slice_subrange(self.buffer.as_slice(), self.offset, self.buffer.len())
    }

    /// The bytes of the block in `range`, whether consumed or not.
    pub fn buffer_from_to(&self, range: Range<usize>) -> (buffer: &[u8])
        requires
            range.start <= range.end <= self@.block.len(),
        ensures
            buffer@ == self@.block.subrange(range.start as int, range.end as int),
    {
        slice_subrange(self.buffer.as_slice(), range.start, range.end)
    }

    /// Reads a vint, without a check that it is complete.
    pub fn deserialize_u64(&mut self) -> (val: u64)
        ensures
            val == vint::vint_value(old(self)@.remaining()),
            final(self)@ == old(self)@.consume(vint::vint_len(old(self)@.remaining())),
    {
        proof {
            vint::lemma_vint_len(self@.remaining());
        }
        let (num_bytes, val) = vint::deserialize_read(self.buffer());
        self.advance(num_bytes);
        val
    }
}

} // verus!

//! Blocks of delta-encoded keys: each key is stored as the length of the prefix
//! that it shares with the key before it, and the suffix that follows.

use crate::common::counting_writer::{append_bytes, CountingWriter};
use crate::common::error::{invalid_data, result_view, Error, ErrorKind, ErrorView};
use crate::common::le::{le_bytes, push_u32_le};
use crate::common::owned_bytes::OwnedBytes;
use crate::sstable::block_reader::{block_read, slices, BlockReader, Blocks, COMPRESSED};
use crate::sstable::compression::{
    worst_case_len, zstd_bound, zstd_compress, zstd_content, zstd_error, zstd_frame,
};
use crate::sstable::value::{ValueReader, ValueWriter};
use crate::sstable::vint;
use std::ops::Range;
use vstd::prelude::*;

verus! {

/// Lengths below this one fit in four bits.
pub const FOUR_BIT_LIMITS: usize = 16;

/// The byte that announces that the two lengths of a key are stored as vints.
pub const VINT_MODE: u8 = 1;

/// The length from which a block is flushed, unless told otherwise.
pub const BLOCK_LEN: usize = 4_000;

/// Blocks that are not longer than this are not compressed.
pub const COMPRESSION_THRESHOLD: usize = 2_048;

/// The level at which blocks are compressed.
pub const COMPRESSION_LEVEL: i32 = 3;

/// The two lengths of a key, in one byte if both fit in four bits.
pub open spec fn lengths_bytes(keep: nat, add: nat) -> Seq<u8> {
    if keep < FOUR_BIT_LIMITS && add < FOUR_BIT_LIMITS {
        seq![(keep + 16 * add) as u8]
    } else {
        seq![VINT_MODE] + vint::vint_bytes(keep) + vint::vint_bytes(add)
    }
}

/// A key that shares `keep` bytes with the key before it and ends in `suffix`.
pub open spec fn key_bytes(keep: nat, suffix: Seq<u8>) -> Seq<u8> {
    lengths_bytes(keep, suffix.len()) + suffix
}

/// A frame around `stored`: its length, a flag, and itself. The length counts the
/// flag, and keeps 32 bits.
pub open spec fn frame_bytes(flag: u8, stored: Seq<u8>) -> Seq<u8> {
    le_bytes(stored.len() % 0x1_0000_0000 + 1, 4) + seq![flag] + stored
}

/// What is stored of a block, with the flag that tells which it is: the compressed
/// content if there is one and it is shorter than the content, the content otherwise.
pub open spec fn block_stored(content: Seq<u8>, compressed: Option<Seq<u8>>) -> (u8, Seq<u8>) {
    match compressed {
        Some(compressed) if compressed.len() < content.len() => (COMPRESSED, compressed),
        _ => (0, content),
    }
}

/// The frame of a block.
pub open spec fn block_frame(content: Seq<u8>, compressed: Option<Seq<u8>>) -> Seq<u8> {
    let (flag, stored) = block_stored(content, compressed);
    frame_bytes(flag, stored)
}

/// The compressed content of a block, if it is compressed at all.
pub open spec fn block_compressed(content: Seq<u8>) -> Option<Seq<u8>> {
    if compressible(content.len()) {
        Some(zstd_frame(content, COMPRESSION_LEVEL))
    } else {
        None
    }
}

/// Whether a block of this length is compressed: it is long enough, and the buffer
/// that compressing it takes in the worst case can be allocated.
pub open spec fn compressible(len: nat) -> bool {
    COMPRESSION_THRESHOLD < len && worst_case_len(len) <= isize::MAX
}

/// Whether a block of this length is compressed.
fn is_compressible(len: usize) -> (compress: bool)
    ensures
        compress == compressible(len as nat),
{
    if len <= COMPRESSION_THRESHOLD {
        return false;
    }
    let most: usize = isize::MAX as usize;
    let margin: usize = if len < 0x2_0000 {
        (0x2_0000 - len) / 2_048
    } else {
        0
    };
    len <= most && len / 256 <= most - len && margin <= most - len - len / 256
}

/// Appends the frame of a block with the given content to `output`, given what
/// the compression of that content gave, if it was compressed.
pub fn write_frame(content: &[u8], compressed: Option<&[u8]>, output: &mut CountingWriter)
    ensures
        final(output)@ == old(output)@ + block_frame(content@, (match compressed {
            Some(compressed) => Some(compressed@),
            None => None,
        })),
        final(output).before() == old(output).before(),
{
    // verify compression had a positive impact
    let (flag, stored): (u8, &[u8]) = match compressed {
        Some(compressed) => if compressed.len() < content.len() {
            (COMPRESSED, compressed)
        } else {
            (0, content)
        },
        None => (0, content),
    };
    let mut header: Vec<u8> = Vec::new();
    push_u32_le(stored.len() as u64 % 0x1_0000_0000 + 1, &mut header);
    header.push(flag);
    output.write_all(header.as_slice());
    output.write_all(stored);
    assert(output@ =~= old(output)@ + frame_bytes(flag, stored@));
}

/// What the contracts say of a [`DeltaWriter`].
#[verifier::ext_equal]
pub struct PendingBlock<M> {
    /// The keys written since the last flush.
    pub block: Seq<u8>,
    /// The values written since the last flush.
    pub values: Seq<M>,
    /// What a flush that failed left to be put in front of the next block.
    pub leftover: Seq<u8>,
    /// The frames flushed so far.
    pub written: Seq<u8>,
    /// What the sink held before the first frame.
    pub before: Seq<u8>,
    /// The length from which a block is flushed.
    pub block_len: usize,
}

/// Writes keys and values into blocks.
pub struct DeltaWriter<TValueWriter> {
    block: Vec<u8>,
    write: CountingWriter,
    value_writer: TValueWriter,
    // Empty between two calls, unless compression failed.
    stateless_buffer: Vec<u8>,
    block_len: usize,
}

impl<TValueWriter: ValueWriter> View for DeltaWriter<TValueWriter> {
    type V = PendingBlock<TValueWriter::Model>;

    closed spec fn view(&self) -> PendingBlock<TValueWriter::Model> {
        PendingBlock {
            block: self.block@,
            values: self.value_writer.recorded(),
            leftover: self.stateless_buffer@,
            written: self.write@,
            before: self.write.before(),
            block_len: self.block_len,
        }
    }
}

/// The content of the block that a flush makes of `pending`: the values, then the
/// keys.
pub open spec fn block_content<TValueWriter: ValueWriter>(
    pending: PendingBlock<TValueWriter::Model>,
) -> Seq<u8> {
    pending.leftover + TValueWriter::encode(pending.values) + pending.block
}

/// Whether flushing `pre` may lead to `post` and give `result`.
pub open spec fn block_flushed<TValueWriter: ValueWriter>(
    pre: PendingBlock<TValueWriter::Model>,
    post: PendingBlock<TValueWriter::Model>,
    result: Result<Option<Range<usize>>, ErrorView>,
) -> bool {
    let content = block_content::<TValueWriter>(pre);
    if pre.block.len() == 0 {
        result == Ok::<Option<Range<usize>>, ErrorView>(None) && post == pre
    } else {
        match result {
            Ok(range) => {
                let frame = block_frame(content, block_compressed(content));
                &&& range matches Some(range) && range.start == pre.written.len() && range.end
                    == post.written.len()
                &&& post == (PendingBlock {
                    block: Seq::empty(),
                    values: Seq::empty(),
                    leftover: Seq::empty(),
                    written: pre.written + frame,
                    ..pre
                })
                &&& block_compressed(content) matches Some(compressed) ==> {
                    &&& compressed.len() > 0
                    &&& zstd_content(compressed) == Some(content)
                    &&& zstd_bound(compressed) == Some(content.len() as usize)
                }
            },
            Err(error) => {
                &&& compressible(content.len())
                &&& error.0 == ErrorKind::Other
                &&& post == (PendingBlock {
                    block: Seq::empty(),
                    values: Seq::empty(),
                    leftover: content,
                    ..pre
                })
            },
        }
    }
}

impl<TValueWriter: ValueWriter> DeltaWriter<TValueWriter> {
    /// A writer that appends its blocks to `wrt`.
    pub fn new(wrt: Vec<u8>) -> (writer: Self)
        ensures
            writer@ == (PendingBlock {
                block: Seq::empty(),
                values: Seq::<TValueWriter::Model>::empty(),
                leftover: Seq::empty(),
                written: Seq::empty(),
                before: wrt@,
                block_len: BLOCK_LEN,
            }),
    {
        let value_writer = TValueWriter::default();
        proof {
            TValueWriter::lemma_default_is_empty(value_writer);
        }
        DeltaWriter {
            block: Vec::with_capacity(BLOCK_LEN * 2),
            write: CountingWriter::wrap(wrt),
            value_writer,
            stateless_buffer: Vec::new(),
            block_len: BLOCK_LEN,
        }
    }

    /// Sets the length from which a block is flushed.
    pub fn set_block_len(&mut self, block_len: usize)
        ensures
            final(self)@ == (PendingBlock { block_len, ..old(self)@ }),
    {
        self.block_len = block_len;
    }

    /// Writes the block out, if it holds any key, and returns where it went.
    pub fn flush_block(&mut self) -> (range: Result<Option<Range<usize>>, Error>)
        requires
            old(self)@.block.len() > 0 ==> TValueWriter::encodable(old(self)@.values),
        ensures
            block_flushed::<TValueWriter>(old(self)@, final(self)@, result_view(range)),
    {
        if self.block.is_empty() {
            return Ok(None);
        }
        let start_offset: usize = self.write.written_bytes() as usize;

        self.value_writer.serialize_block(&mut self.stateless_buffer);
        self.value_writer.clear();
        append_bytes(self.block.as_slice(), &mut self.stateless_buffer);
        self.block.clear();
        let ghost content = self.stateless_buffer@;
        assert(content == block_content::<TValueWriter>(old(self)@));

        let block_len: usize = self.stateless_buffer.len();
        if is_compressible(block_len) {
            match zstd_compress(self.stateless_buffer.as_slice(), COMPRESSION_LEVEL) {
                Ok(compressed) => {
                    write_frame(
                        self.stateless_buffer.as_slice(),
                        Some(compressed.as_slice()),
                        &mut self.write,
                    );
                },
                Err(error) => {
                    return Err(zstd_error(error));
                },
            }
        } else {
            write_frame(self.stateless_buffer.as_slice(), None, &mut self.write);
        }

        let end_offset: usize = self.write.written_bytes() as usize;
        self.stateless_buffer.clear();
        Ok(Some(start_offset..end_offset))
    }

    /// Writes the two lengths of a key.
    pub fn encode_keep_add(&mut self, keep_len: usize, add_len: usize)
        ensures
            final(self)@ == (PendingBlock {
                block: old(self)@.block + lengths_bytes(keep_len as nat, add_len as nat),
                ..old(self)@
            }),
    {
        if keep_len < FOUR_BIT_LIMITS && add_len < FOUR_BIT_LIMITS {
            let b: u8 = (keep_len + 16 * add_len) as u8;
            self.block.push(b);
        } else {
            self.block.push(VINT_MODE);
            vint::serialize_into_vec(keep_len as u64, &mut self.block);
            vint::serialize_into_vec(add_len as u64, &mut self.block);
        }
        assert(self@.block =~= old(self)@.block + lengths_bytes(keep_len as nat, add_len as nat));
    }

    /// Writes a key, given the length of the prefix that it shares with the key
    /// before it and what follows that prefix.
    pub fn write_suffix(&mut self, common_prefix_len: usize, suffix: &[u8])
        ensures
            final(self)@ == (PendingBlock {
                block: old(self)@.block + key_bytes(common_prefix_len as nat, suffix@),
                ..old(self)@
            }),
    {
        let keep_len: usize = common_prefix_len;
        let add_len: usize = suffix.len();
        self.encode_keep_add(keep_len, add_len);
        append_bytes(suffix, &mut self.block);
        assert(self@.block =~= old(self)@.block + key_bytes(common_prefix_len as nat, suffix@));
    }

    /// Writes the value of the key written last.
    pub fn write_value(&mut self, value: &TValueWriter::Value)
        ensures
            final(self)@ == (PendingBlock {
                values: old(self)@.values.push(TValueWriter::model(*value)),
                ..old(self)@
            }),
    {
        self.value_writer.write(value);
    }

    /// Whether the block is longer than the block length.
    pub fn is_flush_required(&self) -> (required: bool)
        ensures
            required == (self@.block.len() > self@.block_len),
    {
        self.block.len() > self.block_len
    }

    /// Writes the block out if it is longer than the block length, and returns
    /// where it went.
    pub fn flush_block_if_required(&mut self) -> (range: Result<Option<Range<usize>>, Error>)
        requires
            old(self)@.block.len() > old(self)@.block_len ==> TValueWriter::encodable(
                old(self)@.values,
            ),
        ensures
            if old(self)@.block.len() > old(self)@.block_len {
                block_flushed::<TValueWriter>(old(self)@, final(self)@, result_view(range))
            } else {
                range matches Ok(None) && final(self)@ == old(self)@
            },
    {
        if self.is_flush_required() {
            return self.flush_block();
        }
        Ok(None)
    }

    /// Gives the sink back. What was not flushed is lost.
    pub fn finish(self) -> (write: CountingWriter)
        ensures
            write@ == self@.written,
            write.before() == self@.before,
    {
        self.write
    }
}

/// The two lengths of the key that `data` starts with, and the number of bytes
/// they take, or `None` if there is no key.
pub open spec fn read_lengths(data: Seq<u8>) -> Option<(usize, usize, nat)> {
    if data.len() == 0 {
        None
    } else if data[0] == VINT_MODE {
        let keep_len = vint::vint_len(data.skip(1));
        let rest = data.skip((1 + keep_len) as int);
        Some(
            (
                vint::vint_value(data.skip(1)) as usize,
                vint::vint_value(rest) as usize,
                1 + keep_len + vint::vint_len(rest),
            ),
        )
    } else {
        Some(((data[0] % 16) as usize, (data[0] / 16) as usize, 1))
    }
}

/// What the contracts say of a [`DeltaReader`].
#[verifier::ext_equal]
pub struct Cursor<M> {
    /// The length of the prefix that the current key shares with the key before it.
    pub common_prefix_len: nat,
    /// Where in the block the suffix of the current key starts.
    pub suffix_start: nat,
    /// Where in the block the suffix of the current key ends.
    pub suffix_end: nat,
    /// The index of the current key, and of its value, in the block.
    pub idx: usize,
    /// The values of the block.
    pub values: Seq<M>,
    /// Whether their number is known.
    pub counted: bool,
    /// The block, and what follows it.
    pub blocks: Blocks,
}

impl<M> Cursor<M> {
    /// The suffix of the current key.
    pub open spec fn suffix(self) -> Seq<u8> {
        self.blocks.block.subrange(self.suffix_start as int, self.suffix_end as int)
    }

    /// The length of the suffix of the current key.
    pub open spec fn suffix_len(self) -> nat {
        if self.suffix_start < self.suffix_end {
            (self.suffix_end - self.suffix_start) as nat
        } else {
            0
        }
    }

    /// The length of the current key.
    pub open spec fn key_len(self) -> nat {
        self.common_prefix_len + self.suffix_len()
    }

    /// Reads the next key of the block: the state this leads to, and whether
    /// there was a key.
    pub open spec fn read_key(self) -> (Cursor<M>, Result<bool, ErrorView>) {
        match read_lengths(self.blocks.remaining()) {
            None => (self, Ok(false)),
            Some((keep, add, num_bytes)) => {
                let blocks = self.blocks.consume(num_bytes);
                if add > blocks.remaining().len() {
                    (
                        Cursor { blocks, ..self },
                        Err(
                            (
                                ErrorKind::InvalidData,
                                "sstable block claims a key suffix longer than the block"@,
                            ),
                        ),
                    )
                } else if keep > self.key_len() {
                    (
                        Cursor { blocks, ..self },
                        Err(
                            (
                                ErrorKind::InvalidData,
                                "sstable block claims a key prefix longer than the previous key"@,
                            ),
                        ),
                    )
                } else {
                    (
                        Cursor {
                            common_prefix_len: keep as nat,
                            suffix_start: blocks.offset,
                            suffix_end: blocks.offset + add as nat,
                            blocks: blocks.consume(add as nat),
                            ..self
                        },
                        Ok(true),
                    )
                }
            },
        }
    }

    /// Same as [`Cursor::read_key`], but a key without a value is an error if the
    /// number of values is known.
    pub open spec fn read_entry(self) -> (Cursor<M>, Result<bool, ErrorView>) {
        let (next, found) = self.read_key();
        if found == Ok::<bool, ErrorView>(true) && self.counted && self.idx >= self.values.len() {
            (
                next,
                Err((ErrorKind::InvalidData, "sstable block holds more keys than values"@)),
            )
        } else {
            (next, found)
        }
    }
}

/// Whether advancing may lead from `pre` to `post` and give `result`.
pub open spec fn advanced<TValueReader: ValueReader>(
    pre: Cursor<TValueReader::Model>,
    post: Cursor<TValueReader::Model>,
    result: Result<bool, ErrorView>,
) -> bool {
    if pre.blocks.remaining().len() > 0 {
        // Still in the same block.
        (post, result) == (Cursor { idx: pre.idx.wrapping_add(1), ..pre }).read_entry()
    } else {
        // Everything but the offset of the block just loaded is as it was then.
        let loaded = Blocks { offset: 0, ..post.blocks };
        let (values, consumed) = TValueReader::decode(loaded.block);
        let counted = TValueReader::decode_counts(loaded.block);
        if block_read(pre.blocks, loaded, Ok(true)) {
            match consumed {
                Ok(num_bytes) => (post, result) == (Cursor {
                    idx: 0,
                    values,
                    counted,
                    blocks: loaded.consume(num_bytes),
                    ..pre
                }).read_entry(),
                Err(error) => {
                    &&& result == Err::<bool, ErrorView>(error)
                    &&& post == (Cursor { values, counted, blocks: loaded, ..pre })
                },
            }
        } else {
            &&& result != Ok::<bool, ErrorView>(true)
            &&& block_read(pre.blocks, loaded, result)
            &&& post == (Cursor { blocks: loaded, ..pre })
        }
    }
}

/// Reads keys and values from blocks.
pub struct DeltaReader<TValueReader> {
    common_prefix_len: usize,
    suffix_range: Range<usize>,
    value_reader: TValueReader,
    block_reader: BlockReader,
    idx: usize,
}

impl<TValueReader: ValueReader> View for DeltaReader<TValueReader> {
    type V = Cursor<TValueReader::Model>;

    closed spec fn view(&self) -> Cursor<TValueReader::Model> {
        Cursor {
            common_prefix_len: self.common_prefix_len as nat,
            suffix_start: self.suffix_range.start as nat,
            suffix_end: self.suffix_range.end as nat,
            idx: self.idx,
            values: self.value_reader.loaded(),
            counted: self.value_reader.counts_values(),
            blocks: self.block_reader@,
        }
    }
}

impl<TValueReader: ValueReader> DeltaReader<TValueReader> {
    /// Whether this reader stands before the first key of `blocks`.
    pub open spec fn at_start(self, blocks: Blocks) -> bool {
        &&& self@.common_prefix_len == 0
        &&& self@.suffix_start == 0
        &&& self@.suffix_end == 0
        &&& self@.idx == 0
        &&& self@.blocks == blocks
    }

    /// A reader of the blocks in `reader`.
    pub fn new(reader: OwnedBytes) -> (delta_reader: Self)
        ensures
            delta_reader.at_start(
                (Blocks {
                    block: Seq::empty(),
                    offset: 0,
                    slice: reader@,
                    later: Seq::empty(),
                    first_ordinal: None,
                }),
            ),
    {
        DeltaReader {
            idx: 0,
            common_prefix_len: 0,
            suffix_range: 0..0,
            value_reader: TValueReader::default(),
            block_reader: BlockReader::new(reader),
        }
    }

    /// Build a reader over slices that may not be contiguous, each labelled with the term
    /// ordinal of its first term. See [`DeltaReader::take_first_ordinal`].
    pub fn from_multiple_blocks(reader: Vec<(OwnedBytes, u64)>) -> (delta_reader: Self)
        ensures
            reader@.len() == 0 ==> delta_reader.at_start(
                (Blocks {
                    block: Seq::empty(),
                    offset: 0,
                    slice: Seq::empty(),
                    later: Seq::empty(),
                    first_ordinal: None,
                }),
            ),
            reader@.len() > 0 ==> delta_reader.at_start(
                (Blocks {
                    block: Seq::empty(),
                    offset: 0,
                    slice: reader@[0].0@,
                    later: slices(reader@).skip(1),
                    first_ordinal: Some(reader@[0].1),
                }),
            ),
    {
        DeltaReader {
            idx: 0,
            common_prefix_len: 0,
            suffix_range: 0..0,
            value_reader: TValueReader::default(),
            block_reader: BlockReader::from_multiple_blocks(reader),
        }
    }

    /// The first term ordinal of the slice just moved to, returned once per slice.
    ///
    /// A caller tracking term ordinals must consult this after every [`DeltaReader::advance`]:
    /// when an automaton has pruned blocks the ordinal jumps, and only the slice knows where to.
    pub fn take_first_ordinal(&mut self) -> (first_ordinal: Option<u64>)
        ensures
            first_ordinal == old(self)@.blocks.first_ordinal,
            final(self)@ == (Cursor {
                blocks: (Blocks { first_ordinal: None, ..old(self)@.blocks }),
                ..old(self)@
            }),
    {
        self.block_reader.take_first_ordinal()
    }

    /// A reader of no blocks.
    pub fn empty() -> (delta_reader: Self)
        ensures
            delta_reader.at_start(
                (Blocks {
                    block: Seq::empty(),
                    offset: 0,
                    slice: Seq::empty(),
                    later: Seq::empty(),
                    first_ordinal: None,
                }),
            ),
    {
        DeltaReader::new(OwnedBytes::empty())
    }

    fn deserialize_vint(&mut self) -> (val: u64)
        ensures
            val == vint::vint_value(old(self)@.blocks.remaining()),
            final(self)@ == (Cursor {
                blocks: old(self)@.blocks.consume(
                    vint::vint_len(old(self)@.blocks.remaining()),
                ),
                ..old(self)@
            }),
    {
        self.block_reader.deserialize_u64()
    }

    /// Reads the two lengths of the next key of the block, if there is one.
    pub fn read_keep_add(&mut self) -> (lengths: Option<(usize, usize)>)
        ensures
            match read_lengths(old(self)@.blocks.remaining()) {
                Some((keep, add, num_bytes)) => {
                    &&& lengths == Some((keep, add))
                    &&& final(self)@ == (Cursor {
                        blocks: old(self)@.blocks.consume(num_bytes),
                        ..old(self)@
                    })
                },
                None => lengths is None && final(self)@ == old(self)@,
            },
    {
        let ghost start = self@.blocks;
        let b: u8 = {
            let buf = self.block_reader.buffer();
            if buf.is_empty() {
                return None;
            }
            buf[0]
        };
        self.block_reader.advance(1);
        assert(self@.blocks.remaining() =~= start.remaining().skip(1));
        if b == VINT_MODE {
            let keep: usize = self.deserialize_vint() as usize;
            proof {
                let keep_len = vint::vint_len(start.remaining().skip(1));
                vint::lemma_vint_len(start.remaining().skip(1));
                assert(self@.blocks.remaining() =~= start.remaining().skip(
                    (1 + keep_len) as int,
                ));
            }
            let add: usize = self.deserialize_vint() as usize;
            Some((keep, add))
        } else {
            let keep: usize = (b % 16) as usize;
            let add: usize = (b / 16) as usize;
            Some((keep, add))
        }
    }

    fn read_delta_key(&mut self) -> (found: Result<bool, Error>)
        ensures
            (final(self)@, result_view(found)) == old(self)@.read_key(),
            found matches Ok(true) ==> final(self)@.suffix_end <= final(self)@.blocks.block.len(),
    {
        let (keep, add): (usize, usize) = match self.read_keep_add() {
            Some(lengths) => lengths,
            None => return Ok(false),
        };
        // `add` is read from the block. A corrupt block can claim a suffix
        // longer than what is left, and advancing past the end would make the
        // next `buffer()` slice out of bounds.
        if add > self.block_reader.buffer().len() {
            return Err(invalid_data("sstable block claims a key suffix longer than the block"));
        }
        // `keep` is the length of the prefix shared with the previous key, so
        // it can never exceed that key's length. A corrupt value here would make
        // the caller resize its key buffer to `keep + add` bytes -- an allocation
        // of up to 2^64 bytes.
        let suffix_len: usize = if self.suffix_range.start < self.suffix_range.end {
            self.suffix_range.end - self.suffix_range.start
        } else {
            0
        };
        let prefix_too_long: bool = match self.common_prefix_len.checked_add(suffix_len) {
            Some(prev_key_len) => keep > prev_key_len,
            None => false,
        };
        if prefix_too_long {
            return Err(
                invalid_data("sstable block claims a key prefix longer than the previous key"),
            );
        }
        self.common_prefix_len = keep;
        let suffix_start: usize = self.block_reader.offset();
        self.suffix_range = suffix_start..(suffix_start + add);
        self.block_reader.advance(add);
        Ok(true)
    }

    /// Moves to the next key. Returns `false` at the end of the stream.
    pub fn advance(&mut self) -> (found: Result<bool, Error>)
        ensures
            advanced::<TValueReader>(old(self)@, final(self)@, result_view(found)),
            // The key just found lies in its block, starts with no more of the
            // key before it than there was, and has a value.
            found matches Ok(true) ==> {
                &&& final(self)@.suffix_start <= final(self)@.suffix_end
                &&& final(self)@.suffix_end <= final(self)@.blocks.block.len()
                &&& final(self)@.common_prefix_len <= old(self)@.key_len()
                &&& final(self)@.counted ==> final(self)@.idx < final(self)@.values.len()
            },
    {
        if self.block_reader.buffer().is_empty() {
            match self.block_reader.read_block() {
                Ok(more) => {
                    if !more {
                        return Ok(false);
                    }
                },
                Err(error) => return Err(error),
            }
            let ghost loaded = self.block_reader@;
            assert(loaded.remaining() =~= loaded.block);
            let consumed_len: usize = match self.value_reader.load(self.block_reader.buffer()) {
                Ok(consumed_len) => consumed_len,
                Err(error) => return Err(error),
            };
            self.block_reader.advance(consumed_len);
            self.idx = 0;
        } else {
            self.idx = self.idx.wrapping_add(1);
        }
        match self.read_delta_key() {
            Ok(found) => {
                if !found {
                    return Ok(false);
                }
            },
            Err(error) => return Err(error),
        }
        // Every key in a block has a value in the same block. A corrupt block
        // whose key section outruns its value section would make `value()`
        // index past the end.
        let num_values: Option<usize> = self.value_reader.num_values();
        proof {
            self.value_reader.lemma_num_values(num_values);
        }
        match num_values {
            Some(num_values) => {
                if self.idx >= num_values {
                    return Err(invalid_data("sstable block holds more keys than values"));
                }
            },
            None => {},
        }
        Ok(true)
    }

    /// The length of the prefix that the current key shares with the key before it.
    pub fn common_prefix_len(&self) -> (common_prefix_len: usize)
        ensures
            common_prefix_len == self@.common_prefix_len,
    {
        self.common_prefix_len
    }

    /// What follows the shared prefix in the current key.
    pub fn suffix(&self) -> (suffix: &[u8])
        requires
            self@.suffix_start <= self@.suffix_end <= self@.blocks.block.len(),
        ensures
            suffix@ == self@.suffix(),
    {
        self.block_reader.buffer_from_to(self.suffix_range.start..self.suffix_range.end)
    }

    /// The value of the current key.
    pub fn value(&self) -> (value: &TValueReader::Value)
        requires
            self@.idx < self@.values.len(),
        ensures
            TValueReader::model(*value) == self@.values[self@.idx as int],
    {
        self.value_reader.value(self.idx)
    }
}

} // verus!

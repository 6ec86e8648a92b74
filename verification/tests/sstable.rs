//! Writing and reading blocks of keys and values.

use columnar_sstable::common::error::ErrorKind;
use columnar_sstable::common::owned_bytes::OwnedBytes;
use columnar_sstable::sstable::block_reader::BlockReader;
use columnar_sstable::sstable::delta::{write_frame, DeltaReader, DeltaWriter};
use columnar_sstable::sstable::value::{
    deserialize_vint_u64, read_u32, U64MonotonicValueReader, U64MonotonicValueWriter, ValueReader,
    ValueWriter, VecU32ValueReader, VecU32ValueWriter, VoidValueReader, VoidValueWriter,
};
use columnar_sstable::sstable::vint;

// A single uncompressed block. The layout is `[len: u32 LE][compressed: u8]`
// followed by the value section, then the key section, then the 4-byte zero
// length that ends the stream.
fn block(content: &[u8]) -> OwnedBytes {
    let mut bytes = Vec::new();
    bytes.extend_from_slice(&(content.len() as u32 + 1).to_le_bytes());
    bytes.push(0);
    bytes.extend_from_slice(content);
    bytes.extend_from_slice(&0u32.to_le_bytes());
    OwnedBytes::new(bytes)
}

// Reads one entry: its key, put together from the key before it, and its value.
fn next_entry(
    reader: &mut DeltaReader<U64MonotonicValueReader>,
    key: &mut Vec<u8>,
) -> Option<(Vec<u8>, u64)> {
    if !reader.advance().unwrap() {
        return None;
    }
    key.truncate(reader.common_prefix_len());
    key.extend_from_slice(reader.suffix());
    Some((key.clone(), *reader.value()))
}

#[test]
fn test_empty() {
    let mut delta_reader: DeltaReader<U64MonotonicValueReader> = DeltaReader::empty();
    assert!(!delta_reader.advance().unwrap());
}

#[test]
fn more_keys_than_values_is_an_error() {
    // values: count=1, delta=5   keys: (keep=0, add=1) "a", (keep=0, add=1) "b"
    let mut reader = DeltaReader::<U64MonotonicValueReader>::new(block(&[
        0x01, 0x05, 0x10, b'a', 0x10, b'b',
    ]));
    assert!(reader.advance().unwrap());
    assert_eq!(*reader.value(), 5);
    assert!(reader.advance().is_err());
}

#[test]
fn suffix_longer_than_block_is_an_error() {
    // values: count=1, delta=5   key: (keep=0, add=15) but only one byte follows
    let mut reader =
        DeltaReader::<U64MonotonicValueReader>::new(block(&[0x01, 0x05, 0xf0, b'a']));
    assert!(reader.advance().is_err());
}

#[test]
fn truncated_value_section_is_an_error() {
    // values: count=3, but a single (continued) byte and then nothing
    let mut reader = DeltaReader::<U64MonotonicValueReader>::new(block(&[0x03, 0x85]));
    assert!(reader.advance().is_err());
}

#[test]
fn prefix_longer_than_previous_key_is_an_error() {
    // values: count=1, delta=5   first key: (keep=5, add=1) "a" -- but there
    // is no previous key to share five bytes with.
    let mut reader =
        DeltaReader::<U64MonotonicValueReader>::new(block(&[0x01, 0x05, 0x15, b'a']));
    assert!(reader.advance().is_err());
}

#[test]
fn each_corruption_is_named() {
    let corrupted: [(&[u8], ErrorKind, &str); 6] = [
        (
            &[0x00, 0x10, b'a'],
            ErrorKind::InvalidData,
            "sstable block holds more keys than values",
        ),
        (
            &[0x01, 0x05, 0xf0, b'a'],
            ErrorKind::InvalidData,
            "sstable block claims a key suffix longer than the block",
        ),
        (
            &[0x01, 0x05, 0x15, b'a'],
            ErrorKind::InvalidData,
            "sstable block claims a key prefix longer than the previous key",
        ),
        (
            &[0x03, 0x85],
            ErrorKind::UnexpectedEof,
            "sstable value block ends in the middle of a value",
        ),
        (
            &[
                0x01, 0x80, 0x80, 0x80, 0x80, 0x80, 0x80, 0x80, 0x80, 0x80, 0x80, 0x00,
            ],
            ErrorKind::InvalidData,
            "sstable value block holds a vint longer than a u64",
        ),
        (
            &[
                0x02, 0xff, 0xff, 0xff, 0xff, 0xff, 0xff, 0xff, 0xff, 0xff, 0x01, 0x01,
            ],
            ErrorKind::InvalidData,
            "sstable value block overflows a u64",
        ),
    ];
    for (content, kind, message) in corrupted {
        let mut reader = DeltaReader::<U64MonotonicValueReader>::new(block(content));
        let error = reader.advance().unwrap_err();
        assert_eq!(error.kind, kind);
        assert_eq!(error.message, message);
    }
}

#[test]
fn truncated_frames_are_errors() {
    let frames: [(&[u8], &str); 3] = [
        (&[2, 0, 0], "failed to read block_len"),
        (&[2, 0, 0, 0], "failed to read block content"),
        (&[9, 0, 0, 0, 0, 1, 2], "failed to read block content"),
    ];
    for (frame, message) in frames {
        let mut blocks = BlockReader::new(OwnedBytes::new(frame.to_vec()));
        let error = blocks.read_block().unwrap_err();
        assert_eq!(error.kind, ErrorKind::UnexpectedEof);
        assert_eq!(error.message, message);
    }
}

// Frames with a window of 1024 bytes and no content size, whose first block is longer
// than that: a run of 1025 bytes, and a compressed block of 1060 bytes with one more byte
// behind it. The content is recovered or refused.
#[test]
fn a_frame_longer_than_it_declares_is_no_panic() {
    let run: &[u8] = &[0x28, 0xb5, 0x2f, 0xfd, 0, 0, 0x0b, 0x20, 0, 0x41];
    let compressed: &[u8] = &[
        0x28, 0xb5, 0x2f, 0xfd, 0, 0, 0x4c, 0, 0, 0x29, 0x41, 0x01, 0x54, 0x05, 0, 0x2e, 0x1c,
        0x04, 0x09, 0, 0, 0x42,
    ];
    for (frame, content_len) in [(run, 1025), (compressed, 1061)] {
        let mut bytes = vec![frame.len() as u8 + 1, 0, 0, 0, 1];
        bytes.extend_from_slice(frame);
        let mut blocks = BlockReader::new(OwnedBytes::new(bytes));
        match blocks.read_block() {
            Ok(more) => {
                assert!(more);
                assert_eq!(blocks.buffer().len(), content_len);
            }
            Err(error) => assert_eq!(error.kind, ErrorKind::Other),
        }
    }
}

#[test]
fn a_block_that_is_not_a_zstd_frame_is_an_error() {
    let mut blocks = BlockReader::new(OwnedBytes::new(vec![4, 0, 0, 0, 1, 7, 7, 7]));
    assert_eq!(blocks.read_block().unwrap_err().kind, ErrorKind::Other);
}

#[test]
fn keys_and_values_come_back() {
    let mut writer = DeltaWriter::<U64MonotonicValueWriter>::new(Vec::new());
    writer.write_suffix(0, b"abc");
    writer.write_value(&3);
    writer.write_suffix(2, b"de");
    writer.write_value(&3);
    writer.write_suffix(4, b"a suffix of more than fifteen bytes");
    writer.write_value(&70_000);
    assert_eq!(writer.flush_block().unwrap(), Some(0..56));
    assert_eq!(writer.flush_block().unwrap(), None);
    writer.write_suffix(0, b"x");
    writer.write_value(&9);
    assert_eq!(writer.flush_block().unwrap(), Some(56..65));
    let mut bytes = writer.finish().finish();
    assert_eq!(bytes.len(), 65);
    assert_eq!(bytes[..5], [52, 0, 0, 0, 0]);
    bytes.extend_from_slice(&0u32.to_le_bytes());

    let mut reader = DeltaReader::<U64MonotonicValueReader>::new(OwnedBytes::new(bytes));
    let mut key = Vec::new();
    assert_eq!(next_entry(&mut reader, &mut key), Some((b"abc".to_vec(), 3)));
    assert_eq!(next_entry(&mut reader, &mut key), Some((b"abde".to_vec(), 3)));
    assert_eq!(
        next_entry(&mut reader, &mut key),
        Some((b"abdea suffix of more than fifteen bytes".to_vec(), 70_000))
    );
    assert_eq!(next_entry(&mut reader, &mut key), Some((b"x".to_vec(), 9)));
    assert_eq!(next_entry(&mut reader, &mut key), None);
    assert_eq!(next_entry(&mut reader, &mut key), None);
}

// A key that keeps one byte of the key before it and adds none takes the byte
// that announces vints, and is read as such.
#[test]
fn keeping_one_byte_and_adding_none_is_read_as_vints() {
    let mut writer = DeltaWriter::<U64MonotonicValueWriter>::new(Vec::new());
    writer.write_suffix(0, b"ab");
    writer.write_value(&1);
    writer.write_suffix(1, b"");
    writer.write_value(&2);
    writer.write_suffix(0, b"c");
    writer.write_value(&3);
    writer.flush_block().unwrap();
    let bytes = writer.finish().finish();
    assert_eq!(bytes[9..], [0x20, b'a', b'b', 0x01, 0x10, b'c']);
    let mut reader = DeltaReader::<U64MonotonicValueReader>::new(OwnedBytes::new(bytes));
    assert!(reader.advance().unwrap());
    assert!(reader.advance().is_err());
}

#[test]
fn a_long_block_is_compressed_and_comes_back() {
    let mut writer = DeltaWriter::<U64MonotonicValueWriter>::new(Vec::new());
    let suffix = [b'z'; 100];
    for value in 0..30u64 {
        writer.write_suffix(0, &suffix);
        writer.write_value(&value);
    }
    let range = writer.flush_block().unwrap().unwrap();
    let bytes = writer.finish().finish();
    assert_eq!(range, 0..bytes.len());
    assert!(bytes.len() < 500);
    assert_eq!(bytes[4], 1);
    let mut reader = DeltaReader::<U64MonotonicValueReader>::new(OwnedBytes::new(bytes));
    let mut key = Vec::new();
    for value in 0..30u64 {
        assert_eq!(next_entry(&mut reader, &mut key), Some((suffix.to_vec(), value)));
    }
    assert_eq!(next_entry(&mut reader, &mut key), None);
}

#[test]
fn a_long_block_that_does_not_shrink_is_stored() {
    let mut writer = DeltaWriter::<U64MonotonicValueWriter>::new(Vec::new());
    let mut state = 0x2545_f491_4f6c_dd1du64;
    let mut suffix = Vec::new();
    for _ in 0..4_000 {
        state ^= state << 13;
        state ^= state >> 7;
        state ^= state << 17;
        suffix.push(state as u8);
    }
    writer.write_suffix(0, &suffix);
    writer.write_value(&1);
    writer.flush_block().unwrap();
    let bytes = writer.finish().finish();
    assert_eq!(bytes[4], 0);
    // values: count, delta   key: vint mode, keep, add in two bytes, suffix
    assert_eq!(bytes.len(), 5 + 2 + 4 + 4_000);
}

#[test]
fn compression_is_kept_only_where_it_helps() {
    let wrap = columnar_sstable::common::counting_writer::CountingWriter::wrap;
    let mut output = wrap(vec![9]);
    write_frame(b"abcd", Some(b"xyz"), &mut output);
    assert_eq!(output.written_bytes(), 8);
    write_frame(b"abc", Some(b"xyz"), &mut output);
    write_frame(b"", None, &mut output);
    assert_eq!(
        output.finish(),
        [9, 4, 0, 0, 0, 1, b'x', b'y', b'z', 4, 0, 0, 0, 0, b'a', b'b', b'c', 1, 0, 0, 0, 0]
    );
}

#[test]
fn blocks_are_flushed_when_they_are_long_enough() {
    let mut writer = DeltaWriter::<U64MonotonicValueWriter>::new(Vec::new());
    writer.write_suffix(0, b"abc");
    writer.write_value(&1);
    assert_eq!(writer.flush_block_if_required().unwrap(), None);
    writer.set_block_len(4);
    assert_eq!(writer.flush_block_if_required().unwrap(), None);
    writer.set_block_len(3);
    assert_eq!(writer.flush_block_if_required().unwrap(), Some(0..11));
}

#[test]
fn slices_give_their_ordinals_once() {
    let mut reader = DeltaReader::<U64MonotonicValueReader>::from_multiple_blocks(vec![
        (OwnedBytes::new(vec![6, 0, 0, 0, 0, 1, 5, 0x10, b'a', b'?'][..9].to_vec()), 10),
        (OwnedBytes::empty(), 20),
        (OwnedBytes::new(vec![5, 0, 0, 0, 0, 1, 7, 0x10, b'b']), 30),
    ]);
    assert_eq!(reader.take_first_ordinal(), Some(10));
    assert_eq!(reader.take_first_ordinal(), None);
    assert!(reader.advance().is_err());

    let mut reader = DeltaReader::<U64MonotonicValueReader>::from_multiple_blocks(vec![
        (OwnedBytes::new(vec![5, 0, 0, 0, 0, 1, 5, 0x10, b'a']), 10),
        (OwnedBytes::empty(), 20),
        (OwnedBytes::new(vec![5, 0, 0, 0, 0, 1, 7, 0x10, b'b']), 30),
    ]);
    let mut key = Vec::new();
    assert_eq!(next_entry(&mut reader, &mut key), Some((b"a".to_vec(), 5)));
    assert_eq!(reader.take_first_ordinal(), Some(10));
    assert_eq!(next_entry(&mut reader, &mut key), Some((b"b".to_vec(), 7)));
    assert_eq!(reader.take_first_ordinal(), Some(30));
    assert_eq!(reader.take_first_ordinal(), None);
    assert_eq!(next_entry(&mut reader, &mut key), None);

    let mut reader = DeltaReader::<U64MonotonicValueReader>::from_multiple_blocks(Vec::new());
    assert_eq!(reader.take_first_ordinal(), None);
    assert!(!reader.advance().unwrap());
}

fn value_reader_writer<V: Eq + std::fmt::Debug, TReader, TWriter>(value_block: &[V])
where
    TReader: ValueReader<Value = V>,
    TWriter: ValueWriter<Value = V>,
{
    let mut buffer = Vec::new();
    {
        let mut writer = TWriter::default();
        for value in value_block {
            writer.write(value);
        }
        writer.serialize_block(&mut buffer);
        writer.clear();
    }
    let data_len = buffer.len();
    buffer.extend_from_slice(&b"extradata"[..]);
    let mut reader = TReader::default();
    assert_eq!(reader.load(&buffer[..]).unwrap(), data_len);
    assert_eq!(reader.num_values(), Some(value_block.len()));
    for (i, val) in value_block.iter().enumerate() {
        assert_eq!(reader.value(i), val);
    }
}

#[test]
fn how_entries_are_cut_into_blocks_does_not_show() {
    let entries: [(usize, &[u8], u64); 5] =
        [(0, b"ab", 4), (2, b"c", 4), (1, b"x", 9), (0, b"y", 10), (1, b"z", 300)];
    // Bit `i` tells whether the block is flushed behind entry `i`.
    for cuts in 0..16u32 {
        let mut writer = DeltaWriter::<U64MonotonicValueWriter>::new(Vec::new());
        for (i, (keep, suffix, value)) in entries.iter().enumerate() {
            writer.write_suffix(*keep, suffix);
            writer.write_value(value);
            if cuts & (1 << i) != 0 {
                assert!(writer.flush_block().unwrap().is_some());
            }
        }
        writer.flush_block().unwrap();
        let mut bytes = writer.finish().finish();
        bytes.extend_from_slice(&[0; 4]);
        let mut reader = DeltaReader::<U64MonotonicValueReader>::new(OwnedBytes::new(bytes));
        for (keep, suffix, value) in entries {
            assert!(reader.advance().unwrap());
            assert_eq!(reader.common_prefix_len(), keep);
            assert_eq!(reader.suffix(), suffix);
            assert_eq!(*reader.value(), value);
        }
        assert!(!reader.advance().unwrap());
    }
}

#[test]
fn values_without_a_key_stay_pending() {
    let mut writer = DeltaWriter::<U64MonotonicValueWriter>::new(Vec::new());
    // A flush without a key does not look at the values, though they decrease.
    writer.write_value(&9);
    writer.write_value(&3);
    assert_eq!(writer.flush_block().unwrap(), None);
    assert_eq!(writer.flush_block_if_required().unwrap(), None);

    let mut writer = DeltaWriter::<U64MonotonicValueWriter>::new(Vec::new());
    writer.write_value(&5);
    assert_eq!(writer.flush_block().unwrap(), None);
    writer.write_suffix(0, b"a");
    assert!(!writer.is_flush_required());
    assert_eq!(writer.flush_block().unwrap(), Some(0..9));
    assert_eq!(writer.flush_block().unwrap(), None);
    assert_eq!(writer.finish().finish(), [5, 0, 0, 0, 0, 1, 5, 0x10, b'a']);
}

#[test]
fn values_that_hold_nothing_take_no_bytes() {
    let mut writer = DeltaWriter::<VoidValueWriter>::new(Vec::new());
    for suffix in [b"a", b"b", b"c"] {
        writer.write_suffix(0, suffix);
        writer.write_value(&());
    }
    writer.flush_block().unwrap();
    let mut bytes = writer.finish().finish();
    assert_eq!(bytes, [7, 0, 0, 0, 0, 0x10, b'a', 0x10, b'b', 0x10, b'c']);
    bytes.extend_from_slice(&[0; 4]);
    let mut reader = DeltaReader::<VoidValueReader>::new(OwnedBytes::new(bytes));
    for suffix in [b"a", b"b", b"c"] {
        assert!(reader.advance().unwrap());
        assert_eq!(reader.suffix(), suffix);
        assert_eq!(reader.value(), &());
    }
    assert!(!reader.advance().unwrap());
}

#[test]
fn values_are_uncounted_by_default() {
    let mut reader = VoidValueReader::default();
    assert_eq!(reader.num_values(), None);
    assert_eq!(reader.load(b"keys").unwrap(), 0);
    assert_eq!(reader.num_values(), None);
}

#[test]
fn lengths_are_read_back() {
    for (keep, add) in [(0, 0), (2, 0), (0, 1), (15, 15), (15, 16), (16, 15), (16, 16), (300, 1)] {
        let mut writer = DeltaWriter::<U64MonotonicValueWriter>::new(Vec::new());
        writer.encode_keep_add(keep, add);
        writer.flush_block().unwrap();
        let bytes = writer.finish().finish();
        // An empty value section takes one byte.
        assert_eq!(bytes[..6], [bytes.len() as u8 - 4, 0, 0, 0, 0, 0]);
        let lengths = &bytes[6..];
        if keep < 16 && add < 16 {
            assert_eq!(lengths, [(keep + 16 * add) as u8]);
        } else {
            assert_eq!(lengths[0], 1);
            let (len, read_keep) = vint::deserialize_read(&lengths[1..]);
            assert_eq!(read_keep, keep as u64);
            assert_eq!(vint::deserialize_read(&lengths[1 + len..]).1, add as u64);
        }
    }
    let mut reader = DeltaReader::<U64MonotonicValueReader>::empty();
    assert_eq!(reader.read_keep_add(), None);
}

#[test]
fn values_come_back() {
    value_reader_writer::<_, U64MonotonicValueReader, U64MonotonicValueWriter>(&[]);
    value_reader_writer::<_, U64MonotonicValueReader, U64MonotonicValueWriter>(&[5]);
    value_reader_writer::<_, U64MonotonicValueReader, U64MonotonicValueWriter>(&[
        1, 4, 4, 300, u64::MAX,
    ]);
    value_reader_writer::<_, VecU32ValueReader, VecU32ValueWriter>(&[]);
    value_reader_writer::<_, VecU32ValueReader, VecU32ValueWriter>(&[vec![]]);
    value_reader_writer::<_, VecU32ValueReader, VecU32ValueWriter>(&[
        vec![1, 2, u32::MAX],
        vec![],
        vec![7],
    ]);
}

#[test]
fn value_sections_are_laid_out_as_stated() {
    let mut buffer = vec![0xaa];
    let mut writer = VecU32ValueWriter::default();
    writer.write(&vec![258]);
    writer.write(&vec![]);
    writer.serialize_block(&mut buffer);
    assert_eq!(buffer, [0xaa, 2, 0, 0, 0, 1, 0, 0, 0, 2, 1, 0, 0, 0, 0, 0, 0]);

    let mut buffer = Vec::new();
    let mut writer = U64MonotonicValueWriter::default();
    writer.write(&200);
    writer.write(&203);
    writer.serialize_block(&mut buffer);
    assert_eq!(buffer, [2, 0xc8, 0x01, 3]);
}

#[test]
fn corrupt_id_lists_are_errors() {
    let mut reader = VecU32ValueReader::default();
    let error = reader.load(&[1, 0, 0]).unwrap_err();
    assert_eq!(error.kind, ErrorKind::UnexpectedEof);
    assert_eq!(error.message, "sstable value block ends in the middle of a u32");
    let error = reader.load(&[1, 0, 0, 0, 2, 0, 0, 0, 5, 0, 0, 0, 6, 0, 0]).unwrap_err();
    assert_eq!(error.kind, ErrorKind::InvalidData);
    assert_eq!(error.message, "sstable value block announces more segment ids than it holds");
    // The list before a corrupt one stays in reach.
    let data = [2, 0, 0, 0, 1, 0, 0, 0, 5, 0, 0, 0, 1, 0, 0, 0];
    assert!(reader.load(&data).is_err());
    assert_eq!(reader.num_values(), Some(1));
    assert_eq!(reader.value(0), &vec![5]);
}

#[test]
fn integers_are_read_off_the_front() {
    let mut data: &[u8] = &[0xac, 0x02, 9];
    assert_eq!(deserialize_vint_u64(&mut data).unwrap(), 300);
    assert_eq!(data, [9]);
    let mut data: &[u8] = &[1, 2, 0, 1, 77];
    assert_eq!(read_u32(&mut data).unwrap(), 0x0100_0201);
    assert_eq!(data, [77]);
    assert!(read_u32(&mut data).is_err());
    assert_eq!(data, [77]);
}

#[test]
fn vints_come_back() {
    for number in [0, 1, 127, 128, 300, 1 << 32, u64::MAX - 1, u64::MAX] {
        let mut buffer = Vec::new();
        vint::serialize_into_vec(number, &mut buffer);
        let len = buffer.len();
        buffer.push(0x55);
        assert_eq!(vint::deserialize_read(&buffer), (len, number));
    }
    assert_eq!(vint::deserialize_read(&[]), (0, 0));
    assert_eq!(vint::deserialize_read(&[0x81, 0x82]), (2, 257));
}

//! Reading columnar files and column statistics.

use std::ops::Range;

use columnar_sstable::columnar::column_type::{ColumnType, InvalidData};
use columnar_sstable::columnar::dictionary::{ColumnDictionary, ColumnEntry};
use columnar_sstable::columnar::format_version::{
    footer, parse_footer, Version, VERSION_FOOTER_NUM_BYTES,
};
use columnar_sstable::columnar::layout::{split_columnar, FOOTER_NUM_BYTES};
use columnar_sstable::columnar::reader::{
    column_dictionary_prefix_for_column_name, column_dictionary_prefix_for_subpath,
    elides_values, ColumnarReader, JSON_PATH_SEGMENT_SEP,
};
use columnar_sstable::columnar::stats::{ColumnStats, StatsReading, StatsStep};
use columnar_sstable::columnar::text::read_text;
use columnar_sstable::columnar::utils::{
    compute_mask, place_bits, pop_first_byte, rsplit_checked, select_bits, split_checked,
};
use columnar_sstable::common::error::{Error, ErrorKind};
use columnar_sstable::common::file_slice::FileSlice;
use columnar_sstable::common::non_zero::NonZeroU64;
use columnar_sstable::common::owned_bytes::OwnedBytes;
use columnar_sstable::common::vint::VInt;
use columnar_sstable::sstable::delta::{DeltaReader, DeltaWriter};
use columnar_sstable::sstable::value::{VecU32ValueReader, VecU32ValueWriter};

/// The byte that ends a column name in a column dictionary key, before the
/// one-byte column type code.
const JSON_END_OF_PATH: u8 = 0u8;

/// What stands for the bytes of the dictionary in the files below.
const SSTABLE: &[u8] = b"the dictionary";

/// A columnar file: the column data, then the dictionary, then its length, the
/// row count and the version footer.
fn columnar_file(column_data: &[u8], num_rows: u32) -> Vec<u8> {
    let mut buffer = column_data.to_vec();
    buffer.extend_from_slice(SSTABLE);
    buffer.extend_from_slice(&(SSTABLE.len() as u64).to_le_bytes());
    buffer.extend_from_slice(&num_rows.to_le_bytes());
    buffer.extend_from_slice(&footer());
    buffer
}

fn dictionary(entries: &[(&[u8], Range<u64>)], error: Option<Error>) -> ColumnDictionary {
    let entries: Vec<ColumnEntry> = entries
        .iter()
        .map(|(key, range)| ColumnEntry { key: key.to_vec(), range: range.clone() })
        .collect();
    let num_terms = entries.len();
    ColumnDictionary::new(entries, error, num_terms)
}

/// Assembles a columnar around a column dictionary written by hand, so a
/// test can state exactly which entry is corrupt.
fn columnar_with_entries(entries: &[(&[u8], Range<u64>)], column_data: &[u8]) -> ColumnarReader {
    ColumnarReader::open(columnar_file(column_data, 0), |sstable: FileSlice| {
        assert_eq!(sstable.read_bytes().as_slice(), SSTABLE);
        Ok(dictionary(entries, None))
    })
    .unwrap()
}

/// A column dictionary key: the column name, the end-of-path byte, then the
/// column type code.
fn column_key(name: &str, column_type: ColumnType) -> Vec<u8> {
    let mut key = name.as_bytes().to_vec();
    key.push(JSON_END_OF_PATH);
    key.push(column_type.to_code());
    key
}

/// A columnar with empty columns of the given names and types.
fn columnar_with_columns(columns: &[(&str, ColumnType)]) -> ColumnarReader {
    let keys: Vec<Vec<u8>> =
        columns.iter().map(|(name, column_type)| column_key(name, *column_type)).collect();
    let entries: Vec<(&[u8], Range<u64>)> = keys.iter().map(|key| (&key[..], 0..0)).collect();
    columnar_with_entries(&entries, b"")
}

fn corrupt() -> Error {
    Error::new(ErrorKind::InvalidData, "corrupt block".to_string())
}

fn error_of<T>(result: Result<T, Error>) -> Error {
    match result {
        Ok(_) => panic!("an error was expected"),
        Err(error) => error,
    }
}

#[test]
fn test_column_entry_with_short_key_is_error() {
    for key in [b"".as_slice(), b"x".as_slice()] {
        let reader = columnar_with_entries(&[(key, 0..0)], b"");
        assert!(reader.list_columns().is_err());
    }
}

#[test]
fn test_column_entry_with_unknown_column_code_is_error() {
    let key = [b'c', JSON_END_OF_PATH, 0xffu8];
    let reader = columnar_with_entries(&[(&key, 0..0)], b"");
    assert!(reader.list_columns().is_err());
}

#[test]
fn test_column_entry_range_past_the_column_data_is_error() {
    let key = column_key("count", ColumnType::U64);
    // Eight bytes of column data, an entry claiming a kilobyte of it.
    let reader = columnar_with_entries(&[(&key, 0..1024)], &[0u8; 8]);
    assert!(reader.list_columns().is_err());
}

/// Writes a column dictionary as blocks of keys, each with the two ends of its range.
fn write_dictionary(entries: &[(Vec<u8>, Range<u32>)]) -> Vec<u8> {
    let mut writer = DeltaWriter::<VecU32ValueWriter>::new(Vec::new());
    for (key, range) in entries {
        writer.write_suffix(0, key);
        writer.write_value(&vec![range.start, range.end]);
    }
    writer.flush_block().unwrap();
    let mut bytes = writer.finish().finish();
    bytes.extend_from_slice(&0u32.to_le_bytes());
    bytes
}

/// Reads back what `write_dictionary` wrote, up to the first corrupt block.
fn read_dictionary(sstable: FileSlice) -> Result<ColumnDictionary, Error> {
    let mut reader = DeltaReader::<VecU32ValueReader>::new(sstable.read_bytes());
    let mut entries = Vec::new();
    let mut key = Vec::new();
    let error = loop {
        match reader.advance() {
            Ok(true) => {
                key.truncate(reader.common_prefix_len());
                key.extend_from_slice(reader.suffix());
                let [start, end] = reader.value()[..] else {
                    break Some(corrupt());
                };
                let range = Range { start: u64::from(start), end: u64::from(end) };
                entries.push(ColumnEntry { key: key.clone(), range });
            }
            Ok(false) => break None,
            Err(error) => break Some(error),
        }
    };
    let num_terms = entries.len();
    Ok(ColumnDictionary::new(entries, error, num_terms))
}

/// A small columnar covering the column shapes the reader dispatches on. Column `i`
/// takes the bytes `3 * i..3 * i + 3` of the column data.
fn valid_columnar() -> Vec<u8> {
    let columns = [
        ("blob", ColumnType::Bytes),
        ("count", ColumnType::I64),
        ("flag", ColumnType::Bool),
        ("ip", ColumnType::IpAddr),
        ("multi", ColumnType::I64),
        ("name", ColumnType::Str),
        ("sparse", ColumnType::F64),
        ("when", ColumnType::DateTime),
    ];
    let entries: Vec<(Vec<u8>, Range<u32>)> = columns
        .iter()
        .enumerate()
        .map(|(i, (name, column_type))| {
            (column_key(name, *column_type), 3 * i as u32..3 * i as u32 + 3)
        })
        .collect();
    let sstable = write_dictionary(&entries);
    let mut buffer: Vec<u8> = (0..24).collect();
    buffer.extend_from_slice(&sstable);
    buffer.extend_from_slice(&(sstable.len() as u64).to_le_bytes());
    buffer.extend_from_slice(&4u32.to_le_bytes());
    buffer.extend_from_slice(&footer());
    buffer
}

#[test]
fn test_valid_columnar_still_reads_its_columns() {
    let reader = ColumnarReader::open(valid_columnar(), read_dictionary).unwrap();
    let columns = reader.list_columns().unwrap();
    let names: Vec<&str> = columns.iter().map(|(name, _)| name.as_str()).collect();
    assert_eq!(
        names,
        ["blob", "count", "flag", "ip", "multi", "name", "sparse", "when"]
    );
    for (i, (name, handle)) in columns.iter().enumerate() {
        let first = 3 * i as u8;
        assert_eq!(
            handle.file_slice().read_bytes().as_slice(),
            [first, first + 1, first + 2],
            "{name} should open"
        );
    }
}

// The property the targeted tests above are instances of: whatever a single
// flipped bit does to a columnar, reading it reports the corruption rather
// than panicking.
//
// Listing covers the column dictionary, including the corrupt sstable blocks
// underneath it. Opening each handle covers the column payloads.
#[test]
fn test_no_single_bit_flip_panics_while_reading_columns() {
    let valid = valid_columnar();
    for byte_index in 0..valid.len() {
        for bit in 0..8u32 {
            let mut corrupted = valid.clone();
            corrupted[byte_index] ^= 1u8 << bit;
            let Ok(reader) = ColumnarReader::open(corrupted, read_dictionary) else {
                continue;
            };
            // Err is the expected outcome throughout; the point is that
            // every one of these returns.
            let Ok(columns) = reader.list_columns() else {
                continue;
            };
            for (_name, handle) in columns {
                let _ = handle.file_slice().read_bytes();
            }
        }
    }
}

#[test]
fn test_open_truncated_columnar_is_error() {
    let footer_num_bytes =
        std::mem::size_of::<u64>() + std::mem::size_of::<u32>() + VERSION_FOOTER_NUM_BYTES;
    for len in 0..footer_num_bytes {
        assert!(
            ColumnarReader::open(vec![0u8; len], |_| Ok(dictionary(&[], None))).is_err(),
            "a {len}-byte buffer cannot hold the {footer_num_bytes}-byte footer and must be \
             rejected"
        );
    }
}

#[test]
fn test_open_columnar_with_oversized_sstable_len_is_error() {
    let key = column_key("col", ColumnType::U64);
    let mut buffer = columnar_file(b"", 1);
    let open = |file: Vec<u8>| ColumnarReader::open(file, |_| Ok(dictionary(&[(&key, 0..0)], None)));
    assert!(open(buffer.clone()).is_ok());

    // The sstable length is the first field of the footer, and it is read
    // straight out of the file. Claim it is u64::MAX (all 0xff, so this does
    // not depend on the field's endianness).
    let footer_start = buffer.len()
        - (std::mem::size_of::<u64>() + std::mem::size_of::<u32>() + VERSION_FOOTER_NUM_BYTES);
    buffer[footer_start..footer_start + std::mem::size_of::<u64>()].fill(0xff);
    assert!(open(buffer).is_err());
}

#[test]
fn test_list_columns() {
    let columnar = columnar_with_columns(&[("col1", ColumnType::Str), ("col2", ColumnType::U64)]);
    let columns = columnar.list_columns().unwrap();
    assert_eq!(columns.len(), 2);
    assert_eq!(&columns[0].0, "col1");
    assert_eq!(columns[0].1.column_type(), ColumnType::Str);
    assert_eq!(&columns[1].0, "col2");
    assert_eq!(columns[1].1.column_type(), ColumnType::U64);
}

#[test]
fn test_list_columns_strict_typing_prevents_coercion() {
    let columnar = columnar_with_columns(&[("count", ColumnType::U64)]);
    let columns = columnar.list_columns().unwrap();
    assert_eq!(columns.len(), 1);
    assert_eq!(&columns[0].0, "count");
    assert_eq!(columns[0].1.column_type(), ColumnType::U64);
}

#[test]
fn test_read_columns() {
    let columnar = columnar_with_columns(&[("col", ColumnType::U64)]);
    {
        let columns = columnar.read_columns("col").unwrap();
        assert_eq!(columns.len(), 1);
        assert_eq!(columns[0].column_type(), ColumnType::U64);
    }
    {
        let columns = columnar.read_columns("other").unwrap();
        assert_eq!(columns.len(), 0);
    }
}

#[test]
fn test_read_subpath_columns() {
    let subcol1 = format!("col1{}subcol1", JSON_PATH_SEGMENT_SEP as char);
    let subcol2 = format!("col1{}subcol2", JSON_PATH_SEGMENT_SEP as char);
    let columnar = columnar_with_columns(&[
        ("col1", ColumnType::Str),
        (&subcol1, ColumnType::Str),
        (&subcol2, ColumnType::I64),
        ("col2", ColumnType::Str),
    ]);
    {
        let columns = columnar.read_subpath_columns("col1").unwrap();
        assert_eq!(columns.len(), 2);
        assert_eq!(columns[0].column_type(), ColumnType::Str);
        assert_eq!(columns[1].column_type(), ColumnType::I64);
    }
    {
        let columns = columnar.read_subpath_columns("col1.subcol1").unwrap();
        assert_eq!(columns.len(), 0);
    }
    {
        let columns = columnar.read_subpath_columns("col2").unwrap();
        assert_eq!(columns.len(), 0);
    }
    {
        let columns = columnar.read_subpath_columns("other").unwrap();
        assert_eq!(columns.len(), 0);
    }
}

#[test]
fn test_select_bits() {
    assert_eq!(255u8, select_bits::<0, 8>(255u8));
    assert_eq!(0u8, select_bits::<0, 0>(255u8));
    assert_eq!(8u8, select_bits::<0, 4>(8u8));
    assert_eq!(4u8, select_bits::<1, 4>(8u8));
    assert_eq!(0u8, select_bits::<1, 3>(8u8));
}

#[test]
fn test_place_bits() {
    assert_eq!(255u8, place_bits::<0, 8>(255u8));
    assert_eq!(4u8, place_bits::<2, 3>(1u8));
    assert_eq!(0u8, place_bits::<2, 2>(0u8));
}

#[test]
fn test_pop_first_byte() {
    let mut cursor: &[u8] = &b"abcd"[..];
    assert_eq!(pop_first_byte(&mut cursor), Some(b'a'));
    assert_eq!(pop_first_byte(&mut cursor), Some(b'b'));
    assert_eq!(pop_first_byte(&mut cursor), Some(b'c'));
    assert_eq!(pop_first_byte(&mut cursor), Some(b'd'));
    assert_eq!(pop_first_byte(&mut cursor), None);
}

#[test]
fn test_deserialize_overflowing_stats_is_error() {
    fn stats_bytes(min_value: u64, gcd: u64, amplitude_over_gcd: u64) -> Vec<u8> {
        let mut buffer = Vec::new();
        VInt(min_value).serialize(&mut buffer).unwrap();
        VInt(gcd).serialize(&mut buffer).unwrap();
        VInt(amplitude_over_gcd).serialize(&mut buffer).unwrap();
        VInt(1u64).serialize(&mut buffer).unwrap();
        buffer
    }

    // The amplitude alone overflows when scaled back up by the gcd.
    let bytes = stats_bytes(0, 1 << 32, 1 << 32);
    assert!(ColumnStats::deserialize(&mut &bytes[..]).is_err());

    // The amplitude fits, but adding the minimum to it does not.
    let bytes = stats_bytes(u64::MAX, 1, 1);
    assert!(ColumnStats::deserialize(&mut &bytes[..]).is_err());

    // A column that does add up still deserializes.
    let bytes = stats_bytes(10, 2, 3);
    let stats = ColumnStats::deserialize(&mut &bytes[..]).unwrap();
    assert_eq!(stats.min_value, 10);
    assert_eq!(stats.max_value, 16);
}

fn test_stats_ser_deser_aux(stats: &ColumnStats, num_bytes: usize) {
    let mut buffer: Vec<u8> = Vec::new();
    stats.serialize(&mut buffer).unwrap();
    assert_eq!(buffer.len(), num_bytes);
    let deser_stats = ColumnStats::deserialize(&mut &buffer[..]).unwrap();
    assert_eq!(stats, &deser_stats);
}

#[test]
fn test_stats_serialization() {
    test_stats_ser_deser_aux(
        &(ColumnStats {
            gcd: NonZeroU64::new(3).unwrap(),
            min_value: 1,
            max_value: 3001,
            num_rows: 10,
        }),
        5,
    );
    test_stats_ser_deser_aux(
        &(ColumnStats {
            gcd: NonZeroU64::new(1_000).unwrap(),
            min_value: 1,
            max_value: 3001,
            num_rows: 10,
        }),
        5,
    );
    test_stats_ser_deser_aux(
        &(ColumnStats {
            gcd: NonZeroU64::new(1).unwrap(),
            min_value: 0,
            max_value: 0,
            num_rows: 0,
        }),
        4,
    );
}

// An amplitude that the gcd does not divide is rounded down to a multiple of it.
#[test]
fn inconsistent_stats_are_rounded_down() {
    let stats = ColumnStats {
        gcd: NonZeroU64::new(4).unwrap(),
        min_value: 3,
        max_value: 14,
        num_rows: 7,
    };
    assert_eq!(stats.amplitude(), 11);
    let mut buffer = Vec::new();
    stats.serialize(&mut buffer).unwrap();
    assert_eq!(buffer, [0x83, 0x84, 0x82, 0x87]);
    buffer.push(0x55);
    let mut data = &buffer[..];
    let read = ColumnStats::deserialize(&mut data).unwrap();
    assert_eq!(data, [0x55]);
    assert_eq!(read, ColumnStats { max_value: 11, ..stats });
}

#[test]
fn corrupt_stats_are_named() {
    let mut data: &[u8] = &[0x81, 0x80, 0x81, 0x81];
    let error = ColumnStats::deserialize(&mut data).unwrap_err();
    assert_eq!(error.kind, ErrorKind::InvalidData);
    assert_eq!(error.message, "GCD of 0 is forbidden");
    assert_eq!(data, [0x81, 0x81]);

    let mut buffer = Vec::new();
    VInt(u64::MAX).serialize(&mut buffer).unwrap();
    VInt(5).serialize(&mut buffer).unwrap();
    VInt(2).serialize(&mut buffer).unwrap();
    let error = ColumnStats::deserialize(&mut &buffer[..]).unwrap_err();
    assert_eq!(
        error.message,
        "column stats overflow: a minimum of 18446744073709551615 plus 2 times a gcd of 5 does \
         not fit in a u64"
    );

    let error = ColumnStats::deserialize(&mut &[0x81u8, 0x82][..]).unwrap_err();
    assert_eq!(error.message, "Reach end of buffer while reading VInt");

    // The number of rows keeps 32 bits.
    let mut buffer = vec![0x80, 0x81, 0x80];
    VInt((1 << 32) + 5).serialize(&mut buffer).unwrap();
    assert_eq!(ColumnStats::deserialize(&mut &buffer[..]).unwrap().num_rows, 5);
}

#[test]
fn stats_are_read_number_by_number() {
    let mut reading = StatsReading::Start;
    for number in [10, 2, 3] {
        reading = match reading.next(VInt(number)).unwrap() {
            StatsStep::More(next) => next,
            StatsStep::Done(_) => panic!("a number is missing"),
        };
    }
    let gcd = NonZeroU64::new(2).unwrap();
    let expected = ColumnStats { gcd, min_value: 10, max_value: 16, num_rows: 4 };
    match reading.next(VInt(4)).unwrap() {
        StatsStep::More(_) => panic!("all numbers were read"),
        StatsStep::Done(stats) => assert_eq!(stats, expected),
    }
    let error = StatsReading::Min { min_value: 1 }.next(VInt(0)).unwrap_err();
    assert_eq!(error.message, "GCD of 0 is forbidden");
    assert!(StatsReading::Gcd { min_value: u64::MAX, gcd }.next(VInt(1)).is_err());
}

#[test]
fn stop_bit_vints_come_back() {
    for number in [0, 1, 127, 128, 300, 1 << 32, u64::MAX - 1, u64::MAX] {
        let mut buffer = Vec::new();
        VInt(number).serialize(&mut buffer).unwrap();
        buffer.push(7);
        let mut data = &buffer[..];
        assert_eq!(VInt::deserialize(&mut data).unwrap(), VInt(number));
        assert_eq!(data, [7]);
    }
    let mut data: &[u8] = &[0; 12];
    let error = VInt::deserialize(&mut data).unwrap_err();
    assert_eq!(error.message, "VInt is longer than a u64");
    assert_eq!(data, [0, 0]);
    let mut buffer = Vec::new();
    VInt(300).serialize(&mut buffer).unwrap();
    assert_eq!(buffer, [0x2c, 0x82]);
}

#[test]
fn zero_is_no_non_zero_number() {
    assert!(NonZeroU64::new(0).is_none());
    assert_eq!(NonZeroU64::new(7).unwrap().get(), 7);
}

#[test]
fn placed_bits_are_selected_again() {
    assert_eq!(select_bits::<2, 5>(place_bits::<2, 5>(0b101)), 0b101);
    assert_eq!(select_bits::<0, 2>(place_bits::<2, 5>(0b101)), 0);
    assert_eq!(select_bits::<5, 8>(place_bits::<2, 5>(0b101)), 0);
    assert_eq!(compute_mask(0), 0);
    assert_eq!(compute_mask(3), 7);
    assert_eq!(compute_mask(8), 255);
}

#[test]
fn bytes_are_split_only_where_they_are() {
    let bytes = || OwnedBytes::new(b"abcde".to_vec());
    let (left, right) = split_checked(bytes(), 2, "index").unwrap();
    assert_eq!((left.as_slice(), right.as_slice()), (&b"ab"[..], &b"cde"[..]));
    let (left, right) = rsplit_checked(bytes(), 2, "index").unwrap();
    assert_eq!((left.as_slice(), right.as_slice()), (&b"abc"[..], &b"de"[..]));
    assert!(split_checked(bytes(), 5, "index").is_ok());
    for error in [
        error_of(split_checked(bytes(), 16, "index")),
        error_of(rsplit_checked(bytes(), 16, "index")),
    ] {
        assert_eq!(error.kind, ErrorKind::InvalidData);
        assert_eq!(error.message, "index declares 16 bytes, but only 5 remain");
    }
}

#[test]
fn every_column_type_has_its_code() {
    let types = [
        ColumnType::I64,
        ColumnType::U64,
        ColumnType::F64,
        ColumnType::Bytes,
        ColumnType::Str,
        ColumnType::Bool,
        ColumnType::IpAddr,
        ColumnType::DateTime,
    ];
    for (code, column_type) in types.into_iter().enumerate() {
        assert_eq!(column_type.to_code() as usize, code);
        assert_eq!(ColumnType::try_from_code(code as u8), Ok(column_type));
    }
    for code in 8..=255u8 {
        assert_eq!(ColumnType::try_from_code(code), Err(InvalidData));
    }
}

#[test]
fn the_footer_states_the_version() {
    let bytes: [u8; VERSION_FOOTER_NUM_BYTES] = footer().try_into().unwrap();
    assert_eq!(bytes, [2, 0, 0, 0, 2, 113, 119, 66]);
    assert_eq!(parse_footer(bytes), Ok(Version::V2));
    assert_eq!(parse_footer([1, 0, 0, 0, 2, 113, 119, 66]), Ok(Version::V1));
    assert_eq!(parse_footer([3, 0, 0, 0, 2, 113, 119, 66]), Err(InvalidData));
    assert_eq!(parse_footer([2, 0, 0, 0, 2, 113, 119, 67]), Err(InvalidData));
}

#[test]
fn a_file_falls_into_its_parts() {
    let file = columnar_file(b"column data", 17);
    let parts = split_columnar(FileSlice::new(file.clone())).ok().unwrap();
    assert_eq!(parts.column_data.read_bytes().as_slice(), b"column data");
    assert_eq!(parts.sstable.read_bytes().as_slice(), SSTABLE);
    assert_eq!(parts.num_rows, 17);
    assert_eq!(parts.format_version, Version::V2);

    let reader = ColumnarReader::from_parts(parts, dictionary(&[], None));
    assert_eq!(reader.num_docs(), 17);
    assert_eq!(reader.num_columns(), 0);
    assert_eq!(reader.clone().num_docs(), 17);
}

#[test]
fn corrupt_files_are_named() {
    let error = error_of(split_columnar(FileSlice::new(vec![0; 19])));
    assert_eq!(error.kind, ErrorKind::InvalidData);
    assert_eq!(
        error.message,
        "columnar is too short: 19 bytes, need at least 20 for the footer"
    );
    let error = error_of(split_columnar(FileSlice::new(vec![0; FOOTER_NUM_BYTES])));
    assert_eq!(error.message, "Invalid data");
    let mut file = columnar_file(b"", 0);
    let footer_start = file.len() - FOOTER_NUM_BYTES;
    file[footer_start] = 15;
    let error = error_of(split_columnar(FileSlice::new(file.clone())));
    assert_eq!(
        error.message,
        "columnar footer declares a 15-byte sstable but only 14 bytes remain"
    );
    // The version is looked at first.
    let len = file.len();
    file[len - 1] = 0;
    assert_eq!(error_of(split_columnar(FileSlice::new(file))).message, "Invalid data");
}

#[test]
fn the_error_of_the_dictionary_is_reported() {
    let error = error_of(ColumnarReader::open(columnar_file(b"", 0), |_| Err(corrupt())));
    assert_eq!(error.message, "corrupt block");
}

#[test]
fn corrupt_entries_are_named() {
    let reader = columnar_with_entries(&[(b"x", 0..0)], b"");
    assert_eq!(
        error_of(reader.list_columns()).message,
        "column dictionary key is 1 byte(s), too short for the separator and column code"
    );
    let reader = columnar_with_entries(&[(b"c\x00\xff", 0..0)], b"");
    assert_eq!(error_of(reader.list_columns()).message, "Unknown column code `255`");
    let reader = columnar_with_entries(&[(b"a\"b\x00\x01", 2..9)], &[0; 8]);
    assert_eq!(
        error_of(reader.list_columns()).message,
        "column \"a\\\"b\" declares bytes 2..9, outside the 8 bytes of column data"
    );
    let inverted = Range { start: 3, end: 2 };
    let reader = columnar_with_entries(&[(b"c\x00\x01", inverted)], &[0; 8]);
    assert_eq!(
        error_of(reader.list_columns()).message,
        "column \"c\" declares bytes 3..2, outside the 8 bytes of column data"
    );
}

#[test]
fn columns_lie_where_their_entries_say() {
    let count = column_key("count", ColumnType::U64);
    let name = column_key("n\u{e4}me", ColumnType::Str);
    let reader = columnar_with_entries(&[(&count, 0..3), (&name, 3..7)], b"abcdefg");
    let columns = reader.list_columns().unwrap();
    assert_eq!(columns[0].1.file_slice().read_bytes().as_slice(), b"abc");
    assert_eq!(columns[1].0, "n\u{e4}me");
    let handle = columns[1].1.clone();
    assert_eq!(handle.file_slice().read_bytes().as_slice(), b"defg");
    assert_eq!(handle.format_version(), Version::V2);
}

#[test]
fn names_that_are_not_utf8_are_read_lossily() {
    assert_eq!(read_text(b"a\xffb"), "a\u{fffd}b");
    assert_eq!(read_text("\u{20ac}".as_bytes()), "\u{20ac}");
}

#[test]
fn iteration_stops_at_the_first_corrupt_entry() {
    let good = column_key("a", ColumnType::U64);
    let entries: [(&[u8], Range<u64>); 3] = [(&good, 0..0), (b"b", 0..0), (&good, 0..0)];
    let reader = columnar_with_entries(&entries, b"");
    let mut columns = reader.iter_columns().ok().unwrap();
    assert_eq!(columns.next().unwrap().ok().unwrap().0, "a");
    assert!(columns.next().unwrap().is_err());
    assert!(columns.next().is_none());
    assert!(columns.next().is_none());
}

#[test]
fn an_error_behind_the_entries_is_reported() {
    let a = column_key("a", ColumnType::U64);
    let b = column_key("b", ColumnType::U64);
    let entries: [(&[u8], Range<u64>); 2] = [(&a, 0..0), (&b, 0..0)];
    let reader = ColumnarReader::open(columnar_file(b"", 0), |_| {
        Ok(dictionary(&entries, Some(corrupt())))
    })
    .unwrap();
    assert_eq!(error_of(reader.list_columns()).message, "corrupt block");
    let mut columns = reader.iter_columns().ok().unwrap();
    assert!(columns.next().unwrap().is_ok());
    assert!(columns.next().unwrap().is_ok());
    assert_eq!(error_of(columns.next().unwrap()).message, "corrupt block");
    assert!(columns.next().is_none());
    // A scan that ends before the corrupt block does not meet it.
    assert_eq!(reader.read_columns("a").ok().unwrap().len(), 1);
    assert!(reader.read_columns("b").is_err());
    assert!(reader.read_columns("c").is_err());
}

#[test]
fn columns_of_one_name_are_read_together() {
    let columnar = columnar_with_columns(&[
        ("a", ColumnType::I64),
        ("a", ColumnType::Str),
        ("ab", ColumnType::U64),
        ("b", ColumnType::Bool),
    ]);
    assert_eq!(columnar.num_columns(), 4);
    let types = |name: &str| -> Vec<ColumnType> {
        columnar.read_columns(name).unwrap().iter().map(|column| column.column_type()).collect()
    };
    assert_eq!(types("a"), [ColumnType::I64, ColumnType::Str]);
    assert_eq!(types("ab"), [ColumnType::U64]);
    assert_eq!(types("b"), [ColumnType::Bool]);
    assert_eq!(types(""), []);
}

#[test]
fn prefixes_end_in_their_separator() {
    assert_eq!(column_dictionary_prefix_for_column_name("col"), "col\0");
    assert_eq!(column_dictionary_prefix_for_subpath("col"), "col\u{1}");
}

#[test]
fn a_summary_shows_five_columns() {
    let names = ["a", "b", "c", "d", "e", "f"];
    let columns: Vec<(&str, ColumnType)> =
        names.iter().map(|name| (*name, ColumnType::U64)).collect();
    let summary = columnar_with_columns(&columns).summary().ok().unwrap();
    assert_eq!((summary.num_rows, summary.num_cols), (0, 6));
    assert_eq!(summary.columns.len(), 5);
    assert_eq!(summary.columns[4].0, "e");
    assert!(!summary.exhaustive);
    let summary = columnar_with_columns(&columns[..5]).summary().ok().unwrap();
    assert_eq!(summary.columns.len(), 5);
    assert!(summary.exhaustive);
    assert!(columnar_with_entries(&[(b"", 0..0)], b"").summary().is_err());
    assert!(!elides_values(10));
    assert!(elides_values(11));
}

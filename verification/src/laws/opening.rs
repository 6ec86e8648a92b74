//! Laws of opening a columnar file: what lies where in it, and what the reader of it knows.

use crate::columnar::column_type::{ColumnType, InvalidData};
use crate::columnar::dictionary::{ColumnDictionary, ColumnEntry};
use crate::columnar::format_version::{
    footer, footer_bytes, parse_footer, Version,
};
use crate::columnar::layout::{columnar_read, split_columnar, ColumnarParts};
use crate::columnar::reader::{opened, reader_of, ColumnarReader};
use crate::columnar::utils::{rsplit_checked, split_checked};
use crate::common::decimal::{decimal, to_decimal};
use crate::common::error::{Error, ErrorKind};
use crate::common::file_slice::FileSlice;
use crate::common::le::{le_bytes, le_value};
use crate::common::owned_bytes::OwnedBytes;
use crate::laws::values::le4;
use vstd::prelude::*;

verus! {

/// The number that the eight bytes of `bytes` at `at` hold, the least significant first.
pub open spec fn le8(bytes: Seq<u8>, at: int) -> int {
    le4(bytes, at) + 0x1_0000_0000 * le4(bytes, at + 4)
}

/// The bytes of the two version footers.
proof fn lemma_footer_bytes()
    ensures
        footer_bytes(Version::V1) == seq![1u8, 0, 0, 0, 2, 113, 119, 66],
        footer_bytes(Version::V2) == seq![2u8, 0, 0, 0, 2, 113, 119, 66],
{
    reveal_with_fuel(le_bytes, 5);
    assert(footer_bytes(Version::V1) =~= seq![1u8, 0, 0, 0, 2, 113, 119, 66]);
    assert(footer_bytes(Version::V2) =~= seq![2u8, 0, 0, 0, 2, 113, 119, 66]);
}

/// The version footer is the number of the version, in four bytes with the least
/// significant one first, and four bytes that never change. Versions 1 and 2 are known,
/// and 2 is written.
pub proof fn law_version_footer(
    written: Vec<u8>,
    bytes: [u8; 8],
    version: Result<Version, InvalidData>,
)
    requires
        call_ensures(footer, (), written),
        call_ensures(parse_footer, (bytes,), version),
    ensures
        written@ == seq![2u8, 0, 0, 0, 2, 113, 119, 66],
        version matches Ok(Version::V1) <==> bytes@ == seq![1u8, 0, 0, 0, 2, 113, 119, 66],
        version matches Ok(Version::V2) <==> bytes@ == seq![2u8, 0, 0, 0, 2, 113, 119, 66],
{
    lemma_footer_bytes();
    assert(seq![1u8, 0, 0, 0, 2, 113, 119, 66][0] != seq![2u8, 0, 0, 0, 2, 113, 119, 66][0]);
}

/// The code of each column type, and the type of each code.
pub proof fn law_column_type_codes(
    column_type: ColumnType,
    code: u8,
    number: u8,
    found: Result<ColumnType, InvalidData>,
)
    requires
        call_ensures(ColumnType::to_code, (column_type,), code),
        call_ensures(ColumnType::try_from_code, (number,), found),
    ensures
        code == match column_type {
            ColumnType::I64 => 0u8,
            ColumnType::U64 => 1,
            ColumnType::F64 => 2,
            ColumnType::Bytes => 3,
            ColumnType::Str => 4,
            ColumnType::Bool => 5,
            ColumnType::IpAddr => 6,
            ColumnType::DateTime => 7,
        },
        number == 0 <==> found matches Ok(ColumnType::I64),
        number == 1 <==> found matches Ok(ColumnType::U64),
        number == 2 <==> found matches Ok(ColumnType::F64),
        number == 3 <==> found matches Ok(ColumnType::Bytes),
        number == 4 <==> found matches Ok(ColumnType::Str),
        number == 5 <==> found matches Ok(ColumnType::Bool),
        number == 6 <==> found matches Ok(ColumnType::IpAddr),
        number == 7 <==> found matches Ok(ColumnType::DateTime),
        number > 7 <==> found is Err,
{
    assert(ColumnType::I64.code() == 0);
    assert(ColumnType::U64.code() == 1);
    assert(ColumnType::F64.code() == 2);
    assert(ColumnType::Bytes.code() == 3);
    assert(ColumnType::Str.code() == 4);
    assert(ColumnType::Bool.code() == 5);
    assert(ColumnType::IpAddr.code() == 6);
    assert(ColumnType::DateTime.code() == 7);
}

/// Bytes are split where they are to be split, if there are enough of them, and what was
/// asked for is named if not.
pub proof fn law_checked_splits(
    bytes: OwnedBytes,
    len: usize,
    what: &str,
    halves: Result<(OwnedBytes, OwnedBytes), Error>,
    from_end: Result<(OwnedBytes, OwnedBytes), Error>,
    declared: String,
    remaining: String,
)
    requires
        call_ensures(split_checked, (bytes, len, what), halves),
        call_ensures(rsplit_checked, (bytes, len, what), from_end),
        call_ensures(to_decimal, (len as u64,), declared),
        bytes@.len() <= u64::MAX,
        call_ensures(to_decimal, (bytes@.len() as u64,), remaining),
    ensures
        if len <= bytes@.len() {
            &&& halves matches Ok((left, right))
            &&& left@ == bytes@.take(len as int)
            &&& right@ == bytes@.skip(len as int)
            &&& from_end matches Ok((first, last))
            &&& first@ == bytes@.take(bytes@.len() - len)
            &&& last@ == bytes@.skip(bytes@.len() - len)
        } else {
            let message = what@ + " declares "@ + declared@ + " bytes, but only "@ + remaining@
                + " remain"@;
            &&& halves matches Err(error)
            &&& error.kind == ErrorKind::InvalidData
            &&& error.message@ == message
            &&& from_end matches Err(other)
            &&& other.kind == ErrorKind::InvalidData
            &&& other.message@ == message
        },
{
}

/// What lies where in a columnar file. Its last eight bytes are the version footer, the
/// four before them the number of rows and the eight before these the length of the
/// dictionary, which ends there; what is in front of the dictionary is column data. A file
/// that is too short for this, states no known version or declares too long a
/// dictionary is refused, in this order.
pub proof fn law_layout(
    file: FileSlice,
    parts: Result<ColumnarParts, Error>,
    total: String,
    declared: String,
    remaining: String,
)
    requires
        call_ensures(split_columnar, (file,), parts),
        file@.len() <= u64::MAX,
        call_ensures(to_decimal, (file@.len() as u64,), total),
        file@.len() >= 20 ==> {
            &&& call_ensures(to_decimal, (le8(file@, file@.len() - 20) as u64,), declared)
            &&& call_ensures(to_decimal, ((file@.len() - 20) as u64,), remaining)
        },
    ensures
        ({
            let bytes = file@;
            let end = bytes.len() - 20;
            let len = le8(bytes, end);
            let stated = bytes.skip(end + 12);
            if end < 0 {
                &&& parts matches Err(error)
                &&& error.kind == ErrorKind::InvalidData
                &&& error.message@ == "columnar is too short: "@ + total@
                    + " bytes, need at least "@ + "20"@ + " for the footer"@
            } else if stated != seq![1u8, 0, 0, 0, 2, 113, 119, 66] && stated != seq![
                2u8,
                0,
                0,
                0,
                2,
                113,
                119,
                66,
            ] {
                &&& parts matches Err(error)
                &&& error.kind == ErrorKind::InvalidData
                &&& error.message@ == "Invalid data"@
            } else if len > end {
                &&& parts matches Err(error)
                &&& error.kind == ErrorKind::InvalidData
                &&& error.message@ == "columnar footer declares a "@ + declared@
                    + "-byte sstable but only "@ + remaining@ + " bytes remain"@
            } else {
                &&& parts matches Ok(parts)
                &&& parts.column_data@ == bytes.subrange(0, end - len)
                &&& parts.sstable@ == bytes.subrange(end - len, end)
                &&& parts.num_rows == le4(bytes, end + 8)
                &&& parts.format_version == if bytes[end + 12] == 1 {
                    Version::V1
                } else {
                    Version::V2
                }
            }
        }),
{
    lemma_layout(file@);
}

/// What the footer makes of a file, byte by byte.
proof fn lemma_layout(bytes: Seq<u8>)
    ensures
        bytes.len() >= 20 ==> {
            let end = bytes.len() - 20;
            let body = bytes.take(end);
            let tail = bytes.skip(end);
            let len = le8(bytes, end);
            &&& 0 <= len <= u64::MAX
            &&& le_value(tail.subrange(0, 8)) == len
            &&& le_value(tail.subrange(8, 12)) == le4(bytes, end + 8)
            &&& 0 <= le4(bytes, end + 8) <= u32::MAX
            &&& tail.subrange(12, 20) == bytes.skip(end + 12)
            &&& len <= end ==> {
                &&& body.take(body.len() - len) == bytes.subrange(0, end - len)
                &&& body.skip(body.len() - len) == bytes.subrange(end - len, end)
            }
        },
        footer_bytes(Version::V1) == seq![1u8, 0, 0, 0, 2, 113, 119, 66],
        footer_bytes(Version::V2) == seq![2u8, 0, 0, 0, 2, 113, 119, 66],
        decimal(20) == "20"@,
{
    lemma_footer_bytes();
    reveal_strlit("20");
    assert(decimal(2) =~= seq!['2']);
    assert(decimal(20) =~= "20"@);
    if bytes.len() >= 20 {
        let end = bytes.len() - 20;
        let body = bytes.take(end);
        let tail = bytes.skip(end);
        let len = le8(bytes, end);
        assert(tail.subrange(12, 20) =~= bytes.skip(end + 12));
        let eight = tail.subrange(0, 8);
        let four = tail.subrange(8, 12);
        assert(le_value(eight) == le8(bytes, end) && le_value(four) == le4(bytes, end + 8)) by {
            reveal_with_fuel(le_value, 9);
        }
        if len <= end {
            assert(body.take(body.len() - len) =~= bytes.subrange(0, end - len));
            assert(body.skip(body.len() - len) =~= bytes.subrange(end - len, end));
        }
    }
}

/// The parts of a file, and what opening it returns.
proof fn lemma_opened<D>(
    column_data: Seq<u8>,
    sstable: Seq<u8>,
    len: Seq<u8>,
    rows: Seq<u8>,
    version: u8,
    bytes: Seq<u8>,
    open_dictionary: D,
    reader: Result<ColumnarReader, Error>,
) -> (found: (FileSlice, Result<ColumnDictionary, Error>)) where
    D: FnOnce(FileSlice) -> Result<ColumnDictionary, Error>,

    requires
        len.len() == 8,
        le8(len, 0) == sstable.len(),
        rows.len() == 4,
        version == 1 || version == 2,
        bytes == column_data + sstable + len + rows + seq![version, 0, 0, 0, 2, 113, 119, 66],
        opened(columnar_read(bytes), open_dictionary, reader),
    ensures
        found.0@ == sstable,
        call_ensures(open_dictionary, (found.0,), found.1),
        match found.1 {
            Ok(dictionary) => {
                &&& reader matches Ok(reader)
                &&& reader@.num_docs == le4(rows, 0)
                &&& reader@.column_data == column_data
                &&& reader@.format_version == if version == 1 {
                    Version::V1
                } else {
                    Version::V2
                }
                &&& reader@.listing == dictionary@
                &&& reader@.num_terms == dictionary.terms()
            },
            Err(error) => reader == Err::<ColumnarReader, Error>(error),
        },
{
    let end = bytes.len() - 20;
    lemma_layout(bytes);
    assert(bytes.skip(end + 12) =~= seq![version, 0, 0, 0, 2, 113, 119, 66]);
    assert(seq![1u8, 0, 0, 0, 2, 113, 119, 66][0] != seq![2u8, 0, 0, 0, 2, 113, 119, 66][0]);
    assert(le4(bytes, end) == le4(len, 0));
    assert(le4(bytes, end + 4) == le4(len, 4));
    assert(le8(bytes, end) == sstable.len());
    assert(le4(bytes, end + 8) == le4(rows, 0));
    assert(bytes.subrange(0, end - sstable.len()) =~= column_data);
    assert(bytes.subrange(end - sstable.len(), end) =~= sstable);
    let parts = columnar_read(bytes)->Ok_0;
    choose|slice: FileSlice, dictionary: Result<ColumnDictionary, Error>|
        {
            &&& slice@ == parts.sstable
            &&& #[trigger] call_ensures(open_dictionary, (slice,), dictionary)
            &&& match dictionary {
                Err(error) => reader == Err::<ColumnarReader, Error>(error),
                Ok(dictionary) => {
                    &&& reader matches Ok(reader)
                    &&& reader@ == reader_of(
                        parts,
                        dictionary@,
                        dictionary.terms(),
                    )
                },
            }
        }
}

/// What the reader of a file knows. A file is made up of column data, a dictionary, its
/// length in eight bytes, the number of rows in four and a version footer, and is opened.
/// If the dictionary in it is opened too, the reader answers with the number of rows of
/// the file and the number of terms of the dictionary, and holds the listing of the
/// dictionary, the column data of the file and the version of the footer. If not, the
/// error that opening the dictionary gave is returned.
///
/// The dictionary is opened on the bytes that are returned first, and what came of it is
/// returned second.
pub proof fn law_open<D>(
    column_data: Seq<u8>,
    sstable: Seq<u8>,
    len: Seq<u8>,
    rows: Seq<u8>,
    version: u8,
    file: Vec<u8>,
    open_dictionary: D,
    reader: Result<ColumnarReader, Error>,
) -> (found: (FileSlice, Result<ColumnDictionary, Error>)) where
    D: FnOnce(FileSlice) -> Result<ColumnDictionary, Error>,

    requires
        len.len() == 8,
        le8(len, 0) == sstable.len(),
        rows.len() == 4,
        version == 1 || version == 2,
        file@ == column_data + sstable + len + rows + seq![version, 0, 0, 0, 2, 113, 119, 66],
        call_ensures(ColumnarReader::open::<D>, (file, open_dictionary), reader),
    ensures
        found.0@ == sstable,
        call_ensures(open_dictionary, (found.0,), found.1),
        match found.1 {
            Ok(dictionary) => {
                &&& reader matches Ok(reader)
                &&& reader@.num_docs == le4(rows, 0)
                &&& reader@.column_data == column_data
                &&& reader@.format_version == if version == 1 {
                    Version::V1
                } else {
                    Version::V2
                }
                &&& reader@.listing == dictionary@
                &&& forall|num_docs: u32| #[trigger]
                    call_ensures(ColumnarReader::num_docs, (&reader,), num_docs) ==> num_docs
                        == le4(rows, 0)
                &&& forall|num_columns: usize, num_terms: usize|
                    (#[trigger] call_ensures(
                        ColumnarReader::num_columns,
                        (&reader,),
                        num_columns,
                    ) && #[trigger] call_ensures(
                        ColumnDictionary::num_terms,
                        (&dictionary,),
                        num_terms,
                    )) ==> num_columns == num_terms
            },
            Err(error) => reader == Err::<ColumnarReader, Error>(error),
        },
{
    lemma_opened(column_data, sstable, len, rows, version, file@, open_dictionary, reader)
}

/// The same holds of a file that is a slice of another one.
pub proof fn law_open_inner<D>(
    column_data: Seq<u8>,
    sstable: Seq<u8>,
    len: Seq<u8>,
    rows: Seq<u8>,
    version: u8,
    file: FileSlice,
    open_dictionary: D,
    reader: Result<ColumnarReader, Error>,
) -> (found: (FileSlice, Result<ColumnDictionary, Error>)) where
    D: FnOnce(FileSlice) -> Result<ColumnDictionary, Error>,

    requires
        len.len() == 8,
        le8(len, 0) == sstable.len(),
        rows.len() == 4,
        version == 1 || version == 2,
        file@ == column_data + sstable + len + rows + seq![version, 0, 0, 0, 2, 113, 119, 66],
        call_ensures(ColumnarReader::open_inner::<D>, (file, open_dictionary), reader),
    ensures
        found.0@ == sstable,
        call_ensures(open_dictionary, (found.0,), found.1),
        match found.1 {
            Ok(dictionary) => {
                &&& reader matches Ok(reader)
                &&& reader@.num_docs == le4(rows, 0)
                &&& reader@.column_data == column_data
                &&& reader@.format_version == if version == 1 {
                    Version::V1
                } else {
                    Version::V2
                }
                &&& reader@.listing == dictionary@
                &&& forall|num_docs: u32| #[trigger]
                    call_ensures(ColumnarReader::num_docs, (&reader,), num_docs) ==> num_docs
                        == le4(rows, 0)
                &&& forall|num_columns: usize, num_terms: usize|
                    (#[trigger] call_ensures(
                        ColumnarReader::num_columns,
                        (&reader,),
                        num_columns,
                    ) && #[trigger] call_ensures(
                        ColumnDictionary::num_terms,
                        (&dictionary,),
                        num_terms,
                    )) ==> num_columns == num_terms
            },
            Err(error) => reader == Err::<ColumnarReader, Error>(error),
        },
{
    lemma_opened(column_data, sstable, len, rows, version, file@, open_dictionary, reader)
}

/// A file that does not fall into parts is not opened, and the reason is reported.
pub proof fn law_open_refuses<D>(
    slice: FileSlice,
    parts: Result<ColumnarParts, Error>,
    file: Vec<u8>,
    open_dictionary: D,
    reader: Result<ColumnarReader, Error>,
    of_slice: Result<ColumnarReader, Error>,
) where D: FnOnce(FileSlice) -> Result<ColumnDictionary, Error>
    requires
        call_ensures(split_columnar, (slice,), parts),
        parts is Err,
        file@ == slice@,
        call_ensures(ColumnarReader::open::<D>, (file, open_dictionary), reader),
        call_ensures(ColumnarReader::open_inner::<D>, (slice, open_dictionary), of_slice),
    ensures
        reader matches Err(error) && error.kind == parts->Err_0.kind && error.message@
            == parts->Err_0.message@,
        of_slice matches Err(error) && error.kind == parts->Err_0.kind && error.message@
            == parts->Err_0.message@,
{
}

/// A reader of parts, and a copy of it, answer with the number of rows and the number of
/// terms, and hold the column data, the version and the listing of the dictionary.
pub proof fn law_reader_of_parts(
    parts: ColumnarParts,
    dictionary: ColumnDictionary,
    num_terms: usize,
    reader: ColumnarReader,
    copy: ColumnarReader,
    num_docs: u32,
    num_columns: usize,
    copied_docs: u32,
    copied_columns: usize,
)
    requires
        call_ensures(ColumnDictionary::num_terms, (&dictionary,), num_terms),
        call_ensures(ColumnarReader::from_parts, (parts, dictionary), reader),
        call_ensures(<ColumnarReader as Clone>::clone, (&reader,), copy),
        call_ensures(ColumnarReader::num_docs, (&reader,), num_docs),
        call_ensures(ColumnarReader::num_columns, (&reader,), num_columns),
        call_ensures(ColumnarReader::num_docs, (&copy,), copied_docs),
        call_ensures(ColumnarReader::num_columns, (&copy,), copied_columns),
    ensures
        num_docs == parts.num_rows,
        copied_docs == parts.num_rows,
        num_columns == num_terms,
        copied_columns == num_terms,
        reader@.column_data == parts.column_data@,
        reader@.format_version == parts.format_version,
        reader@.listing == dictionary@,
        copy@.column_data == parts.column_data@,
        copy@.format_version == parts.format_version,
        copy@.listing == dictionary@,
{
}

/// A dictionary lists the entries that it was made with, each with its key and its range,
/// and then the error, and knows the number of terms that it was told.
pub proof fn law_dictionary_lists_its_entries(
    entries: Vec<ColumnEntry>,
    error: Option<Error>,
    num_terms: usize,
    dictionary: ColumnDictionary,
    answer: usize,
)
    requires
        call_ensures(ColumnDictionary::new, (entries, error, num_terms), dictionary),
        call_ensures(ColumnDictionary::num_terms, (&dictionary,), answer),
    ensures
        answer == num_terms,
        dictionary@.entries.len() == entries@.len(),
        forall|i: int|
            0 <= i < entries@.len() ==> {
                &&& (#[trigger] dictionary@.entries[i]).key == entries@[i].key@
                &&& dictionary@.entries[i].start == entries@[i].range.start
                &&& dictionary@.entries[i].end == entries@[i].range.end
            },
        match error {
            Some(error) => {
                &&& dictionary@.error matches Some(listed)
                &&& listed.0 == error.kind
                &&& listed.1 == error.message@
            },
            None => dictionary@.error is None,
        },
{
}

} // verus!

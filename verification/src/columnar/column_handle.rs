//! Handles on the columns of a columnar file.

use crate::columnar::column_type::{law_code_roundtrip, type_of_code, ColumnType};
use crate::columnar::dictionary::Entry;
use crate::columnar::format_version::Version;
use crate::columnar::text::{debug_quote, debug_quoted, law_text_roundtrip, read_text, text_of};
use crate::common::decimal::{decimal, to_decimal};
use crate::common::error::{io_invalid_data, Error, ErrorKind, ErrorView};
use crate::common::file_slice::FileSlice;
use std::ops::Range;
use vstd::prelude::*;
use vstd::slice::slice_subrange;
use vstd::string::StringExecFns;
use vstd::utf8::encode_utf8;

verus! {

/// A column that can be opened: where its bytes are, and what they hold.
pub struct DynamicColumnHandle {
    pub(crate) file_slice: FileSlice,
    pub(crate) column_type: ColumnType,
    pub(crate) format_version: Version,
}

/// What the contracts say of a column handle.
pub struct Handle {
    pub bytes: Seq<u8>,
    pub column_type: ColumnType,
    pub format_version: Version,
}

/// A column handle with the name of the column.
pub struct Column {
    pub name: Seq<char>,
    pub handle: Handle,
}

impl View for DynamicColumnHandle {
    type V = Handle;

    closed spec fn view(&self) -> Handle {
        Handle {
            bytes: self.file_slice@,
            column_type: self.column_type,
            format_version: self.format_version,
        }
    }
}

impl DynamicColumnHandle {
    /// The type of the column.
    pub fn column_type(&self) -> (column_type: ColumnType)
        ensures
            column_type == self@.column_type,
    {
        self.column_type
    }

    /// The version of the format that the column is written in.
    pub fn format_version(&self) -> (format_version: Version)
        ensures
            format_version == self@.format_version,
    {
        self.format_version
    }

    /// The bytes of the column.
    pub fn file_slice(&self) -> (file_slice: FileSlice)
        ensures
            file_slice@ == self@.bytes,
    {
        self.file_slice.share()
    }
}

impl Clone for DynamicColumnHandle {
    fn clone(&self) -> (copy: Self)
        ensures
            copy@ == self@,
    {
        DynamicColumnHandle {
            file_slice: self.file_slice.share(),
            column_type: self.column_type,
            format_version: self.format_version,
        }
    }
}

/// What is reported of a key that cannot hold the separator and the column code.
pub open spec fn short_key_error(key_len: nat) -> ErrorView {
    (
        ErrorKind::InvalidData,
        "column dictionary key is "@ + decimal(key_len)
            + " byte(s), too short for the separator and column code"@,
    )
}

/// What is reported of a code that stands for no column type.
pub open spec fn unknown_code_error(code: u8) -> ErrorView {
    (ErrorKind::InvalidData, "Unknown column code `"@ + decimal(code as nat) + "`"@)
}

/// What is reported of a column that is not within the column data.
pub open spec fn range_error(name: Seq<char>, start: u64, end: u64, data_len: nat) -> ErrorView {
    (
        ErrorKind::InvalidData,
        "column "@ + debug_quoted(name) + " declares bytes "@ + decimal(start as nat) + ".."@
            + decimal(end as nat) + ", outside the "@ + decimal(data_len)
            + " bytes of column data"@,
    )
}

/// What a dictionary entry stands for.
pub open spec fn entry_read(entry: Entry, column_data: Seq<u8>, format_version: Version) -> Result<
    Column,
    ErrorView,
> {
    let key = entry.key;
    if key.len() < 2 {
        Err(short_key_error(key.len()))
    } else {
        match type_of_code(key.last()) {
            None => Err(unknown_code_error(key.last())),
            Some(column_type) => {
                let name = text_of(key.take(key.len() - 2));
                if entry.start > entry.end || entry.end > column_data.len() {
                    Err(range_error(name, entry.start, entry.end, column_data.len()))
                } else {
                    let bytes = column_data.subrange(entry.start as int, entry.end as int);
                    Ok(Column { name, handle: Handle { bytes, column_type, format_version } })
                }
            },
        }
    }
}

/// The dictionary key of a column: the name, a zero byte and the code of the type.
pub open spec fn column_key(name: Seq<char>, column_type: ColumnType) -> Seq<u8> {
    encode_utf8(name) + seq![0u8, column_type.code()]
}

/// An entry under the key of a column, with a range within the column data, stands
/// for the column of that name and type at that range.
pub proof fn law_entry_of_column(
    name: Seq<char>,
    column_type: ColumnType,
    start: u64,
    end: u64,
    column_data: Seq<u8>,
    format_version: Version,
)
    requires
        start <= end <= column_data.len(),
    ensures
        entry_read(
            Entry { key: column_key(name, column_type), start, end },
            column_data,
            format_version,
        ) == Ok::<Column, ErrorView>(
            Column {
                name,
                handle: Handle {
                    bytes: column_data.subrange(start as int, end as int),
                    column_type,
                    format_version,
                },
            },
        ),
{
    let key = column_key(name, column_type);
    law_code_roundtrip(column_type);
    law_text_roundtrip(name);
    assert(key.take(key.len() - 2) =~= encode_utf8(name));
}

/// Turns one column dictionary entry into a handle, checking everything the
/// entry claims.
///
/// The key, the column code and the byte range all come out of the file, so
/// each is as untrusted as the rest of it: a key too short to hold the
/// separator and the code, a code naming no column type, or a range reaching
/// past the column data are all corruption, not something to index with.
pub fn column_handle_from_entry(
    key_bytes: &[u8],
    range: &Range<u64>,
    column_data: &FileSlice,
    format_version: Version,
) -> (column: Result<(String, DynamicColumnHandle), Error>)
    ensures
        match column {
            Ok((name, handle)) => entry_read(
                Entry { key: key_bytes@, start: range.start, end: range.end },
                column_data@,
                format_version,
            ) == Ok::<Column, ErrorView>(Column { name: name@, handle: handle@ }),
            Err(error) => entry_read(
                Entry { key: key_bytes@, start: range.start, end: range.end },
                column_data@,
                format_version,
            ) == Err::<Column, ErrorView>(error@),
        },
{
    // The last two bytes are respectively the 0u8 separator and the column_type.
    if key_bytes.len() < 2 {
        return Err(short_key(key_bytes.len()));
    }
    let column_code: u8 = key_bytes[key_bytes.len() - 1];
    let column_type: ColumnType = match ColumnType::try_from_code(column_code) {
        Ok(column_type) => column_type,
        Err(_) => {
            return Err(unknown_code(column_code));
        },
    };
    proof {
        law_code_roundtrip(column_type);
    }
    let column_name: String = read_text(slice_subrange(key_bytes, 0, key_bytes.len() - 2));
    assert(key_bytes@.subrange(0, key_bytes@.len() - 2) =~= key_bytes@.take(key_bytes@.len() - 2));
    // An inverted range cannot be written by the serializer, but nothing stops a
    // corrupt file from carrying one.
    let start: u64 = range.start;
    let end: u64 = range.end;
    if start > end || end > column_data.len() as u64 {
        return Err(range_outside(column_name.as_str(), start, end, column_data.len()));
    }
    let column_handle = DynamicColumnHandle {
        file_slice: column_data.slice(start as usize, end as usize),
        column_type,
        format_version,
    };
    Ok((column_name, column_handle))
}

fn short_key(key_len: usize) -> (error: Error)
    ensures
        error@ == short_key_error(key_len as nat),
{
    let mut message: String = "column dictionary key is ".to_owned();
    message.append(to_decimal(key_len as u64).as_str());
    message.append(" byte(s), too short for the separator and column code");
    io_invalid_data(message)
}

fn unknown_code(code: u8) -> (error: Error)
    ensures
        error@ == unknown_code_error(code),
{
    let mut message: String = "Unknown column code `".to_owned();
    message.append(to_decimal(code as u64).as_str());
    message.append("`");
    io_invalid_data(message)
}

fn range_outside(name: &str, start: u64, end: u64, data_len: usize) -> (error: Error)
    ensures
        error@ == range_error(name@, start, end, data_len as nat),
{
    let mut message: String = "column ".to_owned();
    message.append(debug_quote(name).as_str());
    message.append(" declares bytes ");
    message.append(to_decimal(start).as_str());
    message.append("..");
    message.append(to_decimal(end).as_str());
    message.append(", outside the ");
    message.append(to_decimal(data_len as u64).as_str());
    message.append(" bytes of column data");
    io_invalid_data(message)
}

} // verus!

//! The layout of a columnar file: the column data, the column dictionary, the
//! length of the dictionary, the number of rows and the version footer.

use crate::columnar::format_version::{
    footer_bytes, law_footer_roundtrip, parse_footer, stated_version, Version,
    VERSION_FOOTER_NUM_BYTES,
};
use crate::columnar::stats::RowId;
use crate::common::decimal::{decimal, to_decimal};
use crate::common::error::{invalid_data, io_invalid_data, Error, ErrorKind, ErrorView};
use crate::common::file_slice::FileSlice;
use crate::common::le::{
    law_le_bytes_of_value, law_le_u32_roundtrip, law_le_u64_roundtrip, le_bytes, le_value,
    lemma_le_value_u32, u32_from_le, u64_from_le,
};
use crate::common::owned_bytes::OwnedBytes;
use vstd::prelude::*;
use vstd::slice::slice_subrange;
use vstd::string::StringExecFns;

verus! {

/// The number of bytes behind the dictionary: its length (u64), the number of rows
/// (u32) and the version footer.
pub const FOOTER_NUM_BYTES: usize = 20;

/// The parts of a columnar file.
pub struct ColumnarParts {
    /// The bytes of the columns.
    pub column_data: FileSlice,
    /// The column dictionary.
    pub sstable: FileSlice,
    /// The number of rows.
    pub num_rows: RowId,
    /// The version of the format.
    pub format_version: Version,
}

/// What the contracts say of the parts of a columnar file.
pub struct Parts {
    pub column_data: Seq<u8>,
    pub sstable: Seq<u8>,
    pub num_rows: RowId,
    pub format_version: Version,
}

impl View for ColumnarParts {
    type V = Parts;

    open spec fn view(&self) -> Parts {
        Parts {
            column_data: self.column_data@,
            sstable: self.sstable@,
            num_rows: self.num_rows,
            format_version: self.format_version,
        }
    }
}

/// What is reported of a file that cannot hold the footer.
pub open spec fn too_short_error(len: nat) -> ErrorView {
    (
        ErrorKind::InvalidData,
        "columnar is too short: "@ + decimal(len) + " bytes, need at least "@ + decimal(
            FOOTER_NUM_BYTES as nat,
        ) + " for the footer"@,
    )
}

/// What is reported of a dictionary that is longer than what is left of the file.
pub open spec fn oversized_error(sstable_len: nat, remaining: nat) -> ErrorView {
    (
        ErrorKind::InvalidData,
        "columnar footer declares a "@ + decimal(sstable_len) + "-byte sstable but only "@
            + decimal(remaining) + " bytes remain"@,
    )
}

/// What the footer of a columnar file makes of it.
pub open spec fn columnar_read(file: Seq<u8>) -> Result<Parts, ErrorView> {
    if file.len() < FOOTER_NUM_BYTES {
        Err(too_short_error(file.len()))
    } else {
        let body = file.take(file.len() - FOOTER_NUM_BYTES);
        let footer = file.skip(file.len() - FOOTER_NUM_BYTES);
        let sstable_len = le_value(footer.subrange(0, 8));
        match stated_version(footer.subrange(12, 20)) {
            None => Err((ErrorKind::InvalidData, "Invalid data"@)),
            Some(format_version) => if sstable_len > body.len() {
                Err(oversized_error(sstable_len, body.len()))
            } else {
                Ok(
                    Parts {
                        column_data: body.take(body.len() - sstable_len),
                        sstable: body.skip(body.len() - sstable_len),
                        num_rows: le_value(footer.subrange(8, 12)) as u32,
                        format_version,
                    },
                )
            },
        }
    }
}

impl Parts {
    /// The file that is made up of these parts.
    pub open spec fn bytes(self) -> Seq<u8> {
        self.column_data + self.sstable + le_bytes(self.sstable.len(), 8) + le_bytes(
            self.num_rows as nat,
            4,
        ) + footer_bytes(self.format_version)
    }
}

/// A file that was made up of parts falls into these parts again.
pub proof fn law_parts_roundtrip(parts: Parts)
    requires
        parts.sstable.len() <= u64::MAX,
    ensures
        columnar_read(parts.bytes()) == Ok::<Parts, ErrorView>(parts),
{
    let file = parts.bytes();
    let body = parts.column_data + parts.sstable;
    law_le_u64_roundtrip(parts.sstable.len() as u64);
    law_le_u32_roundtrip(parts.num_rows);
    law_footer_roundtrip(parts.format_version);
    let footer = file.skip(file.len() - FOOTER_NUM_BYTES);
    assert(file.take(file.len() - FOOTER_NUM_BYTES) =~= body);
    assert(footer.subrange(0, 8) =~= le_bytes(parts.sstable.len(), 8));
    assert(footer.subrange(8, 12) =~= le_bytes(parts.num_rows as nat, 4));
    assert(footer.subrange(12, 20) =~= footer_bytes(parts.format_version));
    assert(body.take(body.len() - parts.sstable.len()) =~= parts.column_data);
    assert(body.skip(body.len() - parts.sstable.len()) =~= parts.sstable);
}

/// The parts that a file falls into make it up: no byte is left out or read twice.
pub proof fn law_parts_make_up_the_file(file: Seq<u8>)
    ensures
        columnar_read(file) matches Ok(parts) ==> parts.bytes() == file,
{
    if let Ok(parts) = columnar_read(file) {
        let body = file.take(file.len() - FOOTER_NUM_BYTES);
        let footer = file.skip(file.len() - FOOTER_NUM_BYTES);
        law_le_bytes_of_value(footer.subrange(0, 8));
        law_le_bytes_of_value(footer.subrange(8, 12));
        lemma_le_value_u32(footer.subrange(8, 12));
        assert(parts.column_data + parts.sstable =~= body);
        assert(footer =~= footer.subrange(0, 8) + footer.subrange(8, 12) + footer.subrange(12, 20));
        assert(file =~= body + footer);
        assert(parts.bytes() =~= file);
    }
}

/// Splits a columnar file at the lengths that its footer states.
pub fn split_columnar(file_slice: FileSlice) -> (parts: Result<ColumnarParts, Error>)
    ensures
        match parts {
            Ok(parts) => columnar_read(file_slice@) == Ok::<Parts, ErrorView>(parts@),
            Err(error) => columnar_read(file_slice@) == Err::<Parts, ErrorView>(error@),
        },
{
    // The footer is taken off the end, so a file shorter than the footer has
    // to be rejected here: the input is untrusted and the split would
    // otherwise underflow.
    if file_slice.len() < FOOTER_NUM_BYTES {
        return Err(too_short(file_slice.len()));
    }
    let (body, footer_slice) = file_slice.split_from_end(FOOTER_NUM_BYTES);
    let footer_owned: OwnedBytes = footer_slice.read_bytes();
    let footer: &[u8] = footer_owned.as_slice();
    let sstable_len: u64 = u64_from_le(slice_subrange(footer, 0, 8));
    let num_rows: u32 = u32_from_le(slice_subrange(footer, 8, 12));
    let version_footer: [u8; VERSION_FOOTER_NUM_BYTES] = [
        footer[12],
        footer[13],
        footer[14],
        footer[15],
        footer[16],
        footer[17],
        footer[18],
        footer[19],
    ];
    assert(version_footer@ =~= footer@.subrange(12, 20));
    let format_version: Version = match parse_footer(version_footer) {
        Ok(format_version) => format_version,
        Err(_) => {
            return Err(invalid_data("Invalid data"));
        },
    };
    // `sstable_len` comes out of the footer we just parsed, so it is itself
    // untrusted and may be larger than what is actually present.
    if sstable_len > body.len() as u64 {
        return Err(oversized(sstable_len, body.len()));
    }
    let (column_data, sstable) = body.split_from_end(sstable_len as usize);
    Ok(ColumnarParts { column_data, sstable, num_rows, format_version })
}

fn too_short(len: usize) -> (error: Error)
    ensures
        error@ == too_short_error(len as nat),
{
    let mut message: String = "columnar is too short: ".to_owned();
    message.append(to_decimal(len as u64).as_str());
    message.append(" bytes, need at least ");
    message.append(to_decimal(FOOTER_NUM_BYTES as u64).as_str());
    message.append(" for the footer");
    io_invalid_data(message)
}

fn oversized(sstable_len: u64, remaining: usize) -> (error: Error)
    ensures
        error@ == oversized_error(sstable_len as nat, remaining as nat),
{
    let mut message: String = "columnar footer declares a ".to_owned();
    message.append(to_decimal(sstable_len).as_str());
    message.append("-byte sstable but only ");
    message.append(to_decimal(remaining as u64).as_str());
    message.append(" bytes remain");
    io_invalid_data(message)
}

} // verus!

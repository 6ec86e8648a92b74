//! The version footer, the last bytes of a columnar file.

use crate::columnar::column_type::InvalidData;
use crate::common::le::{
    law_le_u32_roundtrip, le_bytes, le_value, lemma_le_value_u32, push_u32_le, u32_from_le,
};
use vstd::prelude::*;
use vstd::slice::slice_subrange;

verus! {

/// The number of bytes in the version footer: the version, then the magic bytes.
pub const VERSION_FOOTER_NUM_BYTES: usize = 8;

/// A version of the columnar format.
#[derive(Debug, Clone, Copy, PartialEq, Eq, Structural)]
pub enum Version {
    V1,
    V2,
}

/// The version that is written.
pub const CURRENT_VERSION: Version = Version::V2;

/// The bytes that end a columnar file, to somewhat identify it as one.
pub open spec fn magic_bytes() -> Seq<u8> {
    seq![2u8, 113, 119, 66]
}

impl Version {
    /// The number of this version.
    pub open spec fn number(self) -> u32 {
        match self {
            Version::V1 => 1,
            Version::V2 => 2,
        }
    }
}

/// The footer of a file in the given version.
pub open spec fn footer_bytes(version: Version) -> Seq<u8> {
    le_bytes(version.number() as nat, 4) + magic_bytes()
}

/// The version that a footer states, if it is one.
pub open spec fn stated_version(footer: Seq<u8>) -> Option<Version> {
    if footer == footer_bytes(Version::V1) {
        Some(Version::V1)
    } else if footer == footer_bytes(Version::V2) {
        Some(Version::V2)
    } else {
        None
    }
}

/// The footer that is written.
pub fn footer() -> (bytes: Vec<u8>)
    ensures
        bytes@ == footer_bytes(CURRENT_VERSION),
{
    let mut bytes: Vec<u8> = Vec::new();
    push_u32_le(2, &mut bytes);
    bytes.push(2);
    bytes.push(113);
    bytes.push(119);
    bytes.push(66);
    assert(bytes@ =~= footer_bytes(CURRENT_VERSION));
    bytes
}

/// When `bytes` are the footer of the given version.
proof fn lemma_footer(bytes: Seq<u8>, version: Version)
    requires
        bytes.len() == VERSION_FOOTER_NUM_BYTES,
    ensures
        bytes == footer_bytes(version) <==> (le_value(bytes.subrange(0, 4)) == version.number()
            && bytes.subrange(4, 8) == magic_bytes()),
{
    let number = version.number();
    lemma_le_value_u32(bytes.subrange(0, 4));
    law_le_u32_roundtrip(number);
    reveal_with_fuel(le_bytes, 5);
    if le_value(bytes.subrange(0, 4)) == number && bytes.subrange(4, 8) == magic_bytes() {
        assert(bytes =~= bytes.subrange(0, 4) + bytes.subrange(4, 8));
        assert(bytes.subrange(0, 4) =~= le_bytes(number as nat, 4));
    }
    if bytes == footer_bytes(version) {
        assert(bytes.subrange(0, 4) =~= le_bytes(number as nat, 4));
        assert(bytes.subrange(4, 8) =~= magic_bytes());
    }
}

/// The footer of a version states that version.
pub proof fn law_footer_roundtrip(version: Version)
    ensures
        footer_bytes(version).len() == VERSION_FOOTER_NUM_BYTES,
        stated_version(footer_bytes(version)) == Some(version),
{
    law_le_u32_roundtrip(version.number());
    lemma_footer(footer_bytes(version), version);
    lemma_footer(footer_bytes(version), Version::V1);
}

/// The version that a footer states.
pub fn parse_footer(bytes: [u8; VERSION_FOOTER_NUM_BYTES]) -> (version: Result<
    Version,
    InvalidData,
>)
    ensures
        match version {
            Ok(version) => stated_version(bytes@) == Some(version),
            Err(_) => stated_version(bytes@) is None,
        },
{
    let number: u32 = u32_from_le(slice_subrange(&bytes, 0, 4));
    let magic: bool = bytes[4] == 2 && bytes[5] == 113 && bytes[6] == 119 && bytes[7] == 66;
    proof {
        lemma_footer(bytes@, Version::V1);
        lemma_footer(bytes@, Version::V2);
        let tail = bytes@.subrange(4, 8);
        assert(tail[0] == bytes@[4] && tail[1] == bytes@[5] && tail[2] == bytes@[6] && tail[3]
            == bytes@[7]);
        assert(magic <==> tail =~= magic_bytes());
    }
    if !magic {
        return Err(InvalidData);
    }
    match number {
        1 => Ok(Version::V1),
        2 => Ok(Version::V2),
        _ => Err(InvalidData),
    }
}

} // verus!

//! Text that comes out of a file.

use vstd::prelude::*;
use vstd::utf8::{
    decode_utf8, encode_utf8, encode_utf8_decode_utf8, encode_utf8_valid_utf8, valid_utf8,
};

verus! {

/// What [`String::from_utf8_lossy`] makes of bytes.
pub uninterp spec fn utf8_lossy(bytes: Seq<u8>) -> Seq<char>;

/// How the `Debug` implementation of `str` renders a string.
pub uninterp spec fn debug_quoted(text: Seq<char>) -> Seq<char>;

/// Calls [`String::from_utf8_lossy`]. Bytes that are UTF-8 are taken to come back
/// as the string that they encode. Of other bytes nothing is said but that the
/// result depends on them alone: which of them make up one replacement character
/// is left unsaid.
#[verifier::external_body]
fn from_utf8_lossy(bytes: &[u8]) -> (text: String)
    ensures
        text@ == utf8_lossy(bytes@),
        valid_utf8(bytes@) ==> text@ == decode_utf8(bytes@),
{
    String::from_utf8_lossy(bytes).into_owned()
}

/// Renders `text` with the `Debug` implementation of `str`, by `format!`. Nothing
/// is said of the rendering but that it depends on the text alone: which
/// characters are escaped, and how, is left unsaid.
#[verifier::external_body]
pub(crate) fn debug_quote(text: &str) -> (quoted: String)
    ensures
        quoted@ == debug_quoted(text@),
{
    format!("{:?}", text)
}

/// The text that `bytes` are read as: what they encode, if they are UTF-8.
pub open spec fn text_of(bytes: Seq<u8>) -> Seq<char> {
    if valid_utf8(bytes) {
        decode_utf8(bytes)
    } else {
        utf8_lossy(bytes)
    }
}

/// Reads `bytes` as text, with something in place of what is not UTF-8.
pub fn read_text(bytes: &[u8]) -> (text: String)
    ensures
        text@ == text_of(bytes@),
{
    from_utf8_lossy(bytes)
}

/// Encoded text is read back.
pub proof fn law_text_roundtrip(text: Seq<char>)
    ensures
        text_of(encode_utf8(text)) == text,
{
    encode_utf8_valid_utf8(text);
    encode_utf8_decode_utf8(text);
}

} // verus!

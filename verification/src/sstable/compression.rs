//! Compression of whole blocks by the zstd library.

use crate::common::error::{Error, ErrorKind};
use vstd::prelude::*;

verus! {

/// `std::io::Error`, by which the zstd crate reports a failure.
#[verifier::external_type_specification]
#[verifier::external_body]
pub struct ExIoError(std::io::Error);

/// The zstd frame that `zstd::bulk::Compressor::compress` makes of `data` at
/// compression level `level`.
pub uninterp spec fn zstd_frame(data: Seq<u8>, level: i32) -> Seq<u8>;

/// What `zstd::bulk::Decompressor::decompress` recovers from `frame` when it recovers
/// anything, or `None` if it never does.
pub uninterp spec fn zstd_content(frame: Seq<u8>) -> Option<Seq<u8>>;

/// What `zstd::bulk::Decompressor::upper_bound` returns for `frame`.
pub uninterp spec fn zstd_bound(frame: Seq<u8>) -> Option<usize>;

/// The length of the buffer that the zstd library asks for to compress `len` bytes.
pub open spec fn worst_case_len(len: nat) -> nat {
    len + len / 256 + if len < 0x2_0000 {
        ((0x2_0000 - len) / 2_048) as nat
    } else {
        0
    }
}

/// Calls `zstd::bulk::Compressor::new` and `Compressor::compress`.
///
/// Claimed of a success: the frame is a function of the data and the level, it is
/// not empty, it decompresses to the data, and it records the length of the data,
/// so that the bound read back from it is exact. When compression fails is not claimed: that
/// rests on the memory at hand. The bound on the length keeps the buffer that the
/// crate allocates for the worst case, `ZSTD_compressBound` bytes, within what can
/// be allocated.
#[verifier::external_body]
pub(crate) fn zstd_compress(data: &[u8], level: i32) -> (frame: Result<Vec<u8>, std::io::Error>)
    requires
        worst_case_len(data@.len()) <= isize::MAX,
    ensures
        frame matches Ok(frame) ==> {
            &&& frame@ == zstd_frame(data@, level)
            &&& frame@.len() > 0
            &&& zstd_content(frame@) == Some(data@)
            &&& zstd_bound(frame@) == Some(data@.len() as usize)
        },
{
    zstd::bulk::Compressor::new(level)?.compress(data)
}

/// Calls `zstd::bulk::Decompressor::upper_bound`.
///
/// Claimed: the result is a function of the frame. How it relates to the content is left
/// unsaid here: of a frame that a compressor made `zstd_compress` says it, and the blocks
/// of a malformed frame may be longer than the frame declares.
#[verifier::external_body]
pub(crate) fn zstd_upper_bound(frame: &[u8]) -> (bound: Option<usize>)
    requires
        frame@.len() <= u32::MAX,
    ensures
        bound == zstd_bound(frame@),
{
    zstd::bulk::Decompressor::upper_bound(frame)
}

/// Calls `zstd::bulk::Decompressor::new` and `Decompressor::decompress`.
///
/// Claimed: what is returned is the content of the frame, and a frame that a compressor
/// made of no more than `capacity` bytes is decompressed. Of other frames nothing is said
/// of when they are: whether a malformed frame is decompressed depends on the room at
/// hand, and more of it may make it fail. The bound on `capacity` is the longest buffer
/// that can be allocated.
#[verifier::external_body]
pub(crate) fn zstd_decompress(frame: &[u8], capacity: usize) -> (content: Result<
    Vec<u8>,
    std::io::Error,
>)
    requires
        frame@.len() <= u32::MAX,
        capacity <= usize::MAX / 2,
    ensures
        match content {
            Ok(content) => zstd_content(frame@) == Some(content@),
            Err(_) => forall|data: Seq<u8>, level: i32|
                frame@ == #[trigger] zstd_frame(data, level) ==> data.len() > capacity,
        },
{
    zstd::bulk::Decompressor::new()?.decompress(frame, capacity)
}

/// The error that stands for a failure of the zstd library.
pub(crate) fn zstd_error(error: std::io::Error) -> (converted: Error)
    ensures
        converted.kind == ErrorKind::Other,
{
    Error { kind: ErrorKind::Other, message: error.to_string() }
}

} // verus!

//! A slice of a file.

use crate::common::owned_bytes::OwnedBytes;
use vstd::prelude::*;

verus! {

/// A slice of a file. Slicing it again shares the bytes.
pub struct FileSlice {
    bytes: OwnedBytes,
}

impl View for FileSlice {
    type V = Seq<u8>;

    closed spec fn view(&self) -> Seq<u8> {
        self.bytes@
    }
}

impl FileSlice {
    /// The whole of a file that holds `data`.
    pub fn new(data: Vec<u8>) -> (slice: FileSlice)
        ensures
            slice@ == data@,
    {
        FileSlice { bytes: OwnedBytes::new(data) }
    }

    /// The number of bytes in the slice.
    pub fn len(&self) -> (len: usize)
        ensures
            len == self@.len(),
    {
        self.bytes.len()
    }

    /// The bytes in the slice.
    pub fn read_bytes(&self) -> (bytes: OwnedBytes)
        ensures
            bytes@ == self@,
    {
        self.bytes.share()
    }

    /// Another handle on the same slice.
    pub fn share(&self) -> (slice: FileSlice)
        ensures
            slice@ == self@,
    {
        FileSlice { bytes: self.bytes.share() }
    }

    /// The bytes `start..end` of the slice.
    pub fn slice(&self, start: usize, end: usize) -> (slice: FileSlice)
        requires
            start <= end <= self@.len(),
        ensures
            slice@ == self@.subrange(start as int, end as int),
    {
        let (head, _) = self.bytes.share().split(end);
        let (_, bytes) = head.split(start);
        assert(bytes@ =~= self@.subrange(start as int, end as int));
        FileSlice { bytes }
    }

    /// Splits the slice, keeping `right_len` bytes on the right.
    pub fn split_from_end(self, right_len: usize) -> (halves: (FileSlice, FileSlice))
        requires
            right_len <= self@.len(),
        ensures
            halves.0@ == self@.take(self@.len() - right_len),
            halves.1@ == self@.skip(self@.len() - right_len),
    {
        let (left, right) = self.bytes.rsplit(right_len);
        (FileSlice { bytes: left }, FileSlice { bytes: right })
    }
}

} // verus!

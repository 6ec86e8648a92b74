//! A cheaply splittable window on shared, immutable bytes.

use std::sync::Arc;
use vstd::prelude::*;
use vstd::slice::slice_subrange;

verus! {

/// A window on bytes that it keeps alive. Splitting one shares the bytes.
pub struct OwnedBytes {
    data: Arc<Vec<u8>>,
    start: usize,
    end: usize,
}

impl View for OwnedBytes {
    type V = Seq<u8>;

    closed spec fn view(&self) -> Seq<u8> {
        self.data@.subrange(self.start as int, self.end as int)
    }
}

impl OwnedBytes {
    #[verifier::type_invariant]
    spec fn in_bounds(self) -> bool {
        self.start <= self.end <= self.data@.len()
    }

    /// A window on all of `data`.
    pub fn new(data: Vec<u8>) -> (bytes: OwnedBytes)
        ensures
            bytes@ == data@,
    {
        let end: usize = data.len();
        assert(data@.subrange(0, end as int) =~= data@);
        OwnedBytes { data: Arc::new(data), start: 0, end }
    }

    /// A window on no bytes.
    pub fn empty() -> (bytes: OwnedBytes)
        ensures
            bytes@ == Seq::<u8>::empty(),
    {
        OwnedBytes::new(Vec::new())
    }

    /// The number of bytes in the window.
    pub fn len(&self) -> (len: usize)
        ensures
            len == self@.len(),
    {
        proof {
            use_type_invariant(self);
        }
        self.end - self.start
    }

    /// The bytes in the window.
    pub fn as_slice(&self) -> (bytes: &[u8])
        ensures
            bytes@ == self@,
    {
        proof {
            use_type_invariant(self);
        }
        slice_subrange(self.data.as_slice(), self.start, self.end)
    }

    /// Another window on the same bytes.
    pub fn share(&self) -> (bytes: OwnedBytes)
        ensures
            bytes@ == self@,
    {
        proof {
            use_type_invariant(self);
        }
        OwnedBytes { data: self.data.clone(), start: self.start, end: self.end }
    }

    /// Splits the window, keeping `left_len` bytes on the left.
    pub fn split(self, left_len: usize) -> (halves: (OwnedBytes, OwnedBytes))
        requires
            left_len <= self@.len(),
        ensures
            halves.0@ == self@.take(left_len as int),
            halves.1@ == self@.skip(left_len as int),
    {
        proof {
            use_type_invariant(&self);
        }
        let middle: usize = self.start + left_len;
        let left = OwnedBytes { data: self.data.clone(), start: self.start, end: middle };
        let right = OwnedBytes { data: self.data.clone(), start: middle, end: self.end };
        assert(left@ =~= self@.take(left_len as int));
        assert(right@ =~= self@.skip(left_len as int));
        (left, right)
    }

    /// Splits the window, keeping `right_len` bytes on the right.
    pub fn rsplit(self, right_len: usize) -> (halves: (OwnedBytes, OwnedBytes))
        requires
            right_len <= self@.len(),
        ensures
            halves.0@ == self@.take(self@.len() - right_len),
            halves.1@ == self@.skip(self@.len() - right_len),
    {
        let left_len: usize = self.len() - right_len;
        self.split(left_len)
    }

    /// Drops the first `num_bytes` bytes of the window.
    pub fn advance(&mut self, num_bytes: usize)
        requires
            num_bytes <= old(self)@.len(),
        ensures
            final(self)@ == old(self)@.skip(num_bytes as int),
    {
        proof {
            use_type_invariant(&*self);
        }
        self.start = self.start + num_bytes;
        assert(self@ =~= old(self)@.skip(num_bytes as int));
    }
}

} // verus!

//! A sink that counts the bytes written to it.

use vstd::prelude::*;

verus! {

/// Appends `bytes` to `output`.
pub fn append_bytes(bytes: &[u8], output: &mut Vec<u8>)
    ensures
        final(output)@ == old(output)@ + bytes@,
{
    output.extend_from_slice(bytes);
    assert(output@ =~= old(output)@ + bytes@);
}

/// Wraps a buffer and counts the bytes that are appended to it.
pub struct CountingWriter {
    before: Vec<u8>,
    written: Vec<u8>,
}

impl View for CountingWriter {
    type V = Seq<u8>;

    /// The bytes written since the buffer was wrapped.
    closed spec fn view(&self) -> Seq<u8> {
        self.written@
    }
}

impl CountingWriter {
    /// What the buffer held when it was wrapped.
    pub closed spec fn before(self) -> Seq<u8> {
        self.before@
    }

    /// Wraps `underlying`.
    pub fn wrap(underlying: Vec<u8>) -> (writer: CountingWriter)
        ensures
            writer.before() == underlying@,
            writer@ == Seq::<u8>::empty(),
    {
        CountingWriter { before: underlying, written: Vec::new() }
    }

    /// The number of bytes written since the buffer was wrapped.
    pub fn written_bytes(&self) -> (count: u64)
        ensures
            count == self@.len(),
            count <= usize::MAX,
    {
        self.written.len() as u64
    }

    /// Appends `bytes`.
    pub fn write_all(&mut self, bytes: &[u8])
        ensures
            final(self)@ == old(self)@ + bytes@,
            final(self).before() == old(self).before(),
    {
        append_bytes(bytes, &mut self.written);
    }

    /// Gives the buffer back, with all that was written to it.
    pub fn finish(self) -> (underlying: Vec<u8>)
        ensures
            underlying@ == self.before() + self@,
    {
        let mut underlying = self.before;
        append_bytes(self.written.as_slice(), &mut underlying);
        underlying
    }
}

} // verus!

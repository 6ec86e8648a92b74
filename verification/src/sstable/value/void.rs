//! Values that hold nothing, and take no bytes.

use crate::common::error::{Error, ErrorView};
use crate::sstable::value::{ValueReader, ValueWriter};
use vstd::prelude::*;

verus! {

/// As many values that hold nothing as an index can tell apart.
pub open spec fn all_voids() -> Seq<()> {
    Seq::new((usize::MAX + 1) as nat, |i: int| ())
}

/// Reads values that hold nothing: there is one at every index. How many were written
/// is not stored, so the reader does not know it.
pub struct VoidValueReader;

impl Default for VoidValueReader {
    fn default() -> (reader: Self) {
        VoidValueReader
    }
}

impl ValueReader for VoidValueReader {
    type Value = ();

    type Model = ();

    open spec fn model(value: ()) -> () {
        value
    }

    open spec fn loaded(&self) -> Seq<()> {
        all_voids()
    }

    open spec fn decode(data: Seq<u8>) -> (Seq<()>, Result<nat, ErrorView>) {
        (all_voids(), Ok(0))
    }

    open spec fn counts_values(&self) -> bool {
        false
    }

    open spec fn decode_counts(data: Seq<u8>) -> bool {
        false
    }

    fn value(&self, _idx: usize) -> (value: &()) {
        &()
    }

    fn load(&mut self, _data: &[u8]) -> (consumed: Result<usize, Error>) {
        Ok(0)
    }

    proof fn lemma_num_values(&self, num_values: Option<usize>) {
    }
}

/// Writes values that hold nothing.
pub struct VoidValueWriter {
    recorded: Ghost<Seq<()>>,
}

impl Default for VoidValueWriter {
    fn default() -> (writer: Self)
        ensures
            writer.recorded() == Seq::<()>::empty(),
    {
        VoidValueWriter { recorded: Ghost(Seq::empty()) }
    }
}

impl ValueWriter for VoidValueWriter {
    type Value = ();

    type Model = ();

    open spec fn model(value: ()) -> () {
        value
    }

    closed spec fn recorded(&self) -> Seq<()> {
        self.recorded@
    }

    open spec fn encodable(values: Seq<()>) -> bool {
        true
    }

    open spec fn encode(values: Seq<()>) -> Seq<u8> {
        Seq::empty()
    }

    proof fn lemma_default_is_empty(writer: Self) {
    }

    fn write(&mut self, _val: &()) {
        self.recorded = Ghost(self.recorded@.push(()));
    }

    fn serialize_block(&self, output: &mut Vec<u8>) {
        assert(output@ =~= old(output)@ + Self::encode(self.recorded()));
    }

    fn clear(&mut self) {
        self.recorded = Ghost(Seq::empty());
    }
}

} // verus!

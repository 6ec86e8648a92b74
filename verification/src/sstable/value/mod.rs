//! The value section of a block, and the traits that read and write it.

pub mod u64_monotonic;
pub mod vec_u32;
pub mod void;

use crate::common::error::{invalid_data, unexpected_eof, Error, ErrorKind, ErrorView};
use crate::common::le::{le_value, u32_from_le};
use crate::sstable::vint;
use vstd::prelude::*;
use vstd::slice::slice_subrange;

pub use crate::sstable::value::u64_monotonic::{
    U64MonotonicValueReader, U64MonotonicValueWriter,
};
pub use crate::sstable::value::vec_u32::{VecU32ValueReader, VecU32ValueWriter};
pub use crate::sstable::value::void::{VoidValueReader, VoidValueWriter};

verus! {

/// `ValueReader` is a trait describing the contract of something
/// reading blocks of value, and offering random access within this values.
pub trait ValueReader: Default {
    /// Type of the value being read.
    type Value;

    /// What the contracts say of a value.
    type Model;

    /// The model of `value`.
    spec fn model(value: Self::Value) -> Self::Model;

    /// The values of the block that was loaded last.
    spec fn loaded(&self) -> Seq<Self::Model>;

    /// What loading `data` gives: the values that are then in reach, and the
    /// number of bytes that were read or the error that put an end to it.
    spec fn decode(data: Seq<u8>) -> (Seq<Self::Model>, Result<nat, ErrorView>);

    /// Whether this reader knows how many values it has loaded.
    spec fn counts_values(&self) -> bool;

    /// Whether a reader that has loaded `data` knows how many values it holds.
    spec fn decode_counts(data: Seq<u8>) -> bool;

    /// Access the value at index `idx`, in the last block that was read
    /// via a call to `ValueReader::load`.
    fn value(&self, idx: usize) -> (value: &Self::Value)
        requires
            idx < self.loaded().len(),
        ensures
            Self::model(*value) == self.loaded()[idx as int],
    ;

    /// Loads a block.
    ///
    /// Returns the number of bytes that were read.
    fn load(&mut self, data: &[u8]) -> (consumed: Result<usize, Error>)
        ensures
            final(self).loaded() == Self::decode(data@).0,
            final(self).counts_values() == Self::decode_counts(data@),
            match consumed {
                Ok(num_bytes) => num_bytes <= data@.len() && Self::decode(data@).1 == Ok::<
                    nat,
                    ErrorView,
                >(num_bytes as nat),
                Err(error) => Self::decode(data@).1 == Err::<nat, ErrorView>(error@),
            },
    ;

    /// Number of values in the block loaded by the last call to `load`, when
    /// the reader knows it.
    ///
    /// The block readers use it to reject a corrupt block whose key section
    /// holds more entries than its value section declared; without it, `value`
    /// would be asked for an index that does not exist. Returns `None` by
    /// default.
    fn num_values(&self) -> (num_values: Option<usize>)
        ensures
            num_values matches Some(count) ==> count == self.loaded().len(),
        default_ensures
            num_values is None,
    {
        None
    }

    /// `num_values` gives a number exactly where `counts_values` says so.
    proof fn lemma_num_values(&self, num_values: Option<usize>)
        requires
            call_ensures(Self::num_values, (self,), num_values),
        ensures
            num_values is Some <==> self.counts_values(),
    ;
}

/// `ValueWriter` is a trait to make it possible to write blocks
/// of value.
pub trait ValueWriter: Default {
    /// Type of the value being written.
    type Value;

    /// What the contracts say of a value.
    type Model;

    /// The model of `value`.
    spec fn model(value: Self::Value) -> Self::Model;

    /// The values recorded since this writer was created or cleared.
    spec fn recorded(&self) -> Seq<Self::Model>;

    /// Whether `values` can be serialized.
    spec fn encodable(values: Seq<Self::Model>) -> bool;

    /// The value section that holds `values`.
    spec fn encode(values: Seq<Self::Model>) -> Seq<u8>;

    /// A writer that was just created has recorded nothing.
    proof fn lemma_default_is_empty(writer: Self)
        requires
            call_ensures(Self::default, (), writer),
        ensures
            writer.recorded() == Seq::<Self::Model>::empty(),
    ;

    /// Records a new value.
    /// This method usually just accumulates data in a `Vec`,
    /// only to be serialized on the call to `ValueWriter::serialize_block`.
    fn write(&mut self, val: &Self::Value)
        ensures
            final(self).recorded() == old(self).recorded().push(Self::model(*val)),
    ;

    /// Serializes the accumulated values into the output buffer.
    fn serialize_block(&self, output: &mut Vec<u8>)
        requires
            Self::encodable(self.recorded()),
        ensures
            final(output)@ == old(output)@ + Self::encode(self.recorded()),
    ;

    /// Clears the `ValueWriter`. After a call to clear, the `ValueWriter`
    /// should behave like a fresh `ValueWriter::default()`.
    fn clear(&mut self)
        ensures
            final(self).recorded() == Seq::<Self::Model>::empty(),
    ;
}

/// What [`deserialize_vint_u64`] reads from the start of `data`.
pub open spec fn read_vint_spec(data: Seq<u8>) -> Result<u64, ErrorView> {
    if !vint::vint_complete(data) {
        Err(
            (
                ErrorKind::UnexpectedEof,
                "sstable value block ends in the middle of a value"@,
            ),
        )
    } else if vint::vint_len(data) > vint::MAX_U64_VINT_LEN {
        Err((ErrorKind::InvalidData, "sstable value block holds a vint longer than a u64"@))
    } else {
        Ok(vint::vint_value(data))
    }
}

/// Reads one vint, rejecting input that ends before the value does and
/// encodings longer than a `u64` can need.
pub fn deserialize_vint_u64(data: &mut &[u8]) -> (val: Result<u64, Error>)
    ensures
        match val {
            Ok(val) => {
                &&& read_vint_spec(old(data)@) == Ok::<u64, ErrorView>(val)
                &&& vint::vint_len(old(data)@) <= old(data)@.len()
                &&& final(data)@ == old(data)@.skip(vint::vint_len(old(data)@) as int)
            },
            Err(error) => {
                &&& read_vint_spec(old(data)@) == Err::<u64, ErrorView>(error@)
                &&& final(data)@ == old(data)@
            },
        },
{
    let (num_bytes, val) = vint::deserialize_read(*data);
    proof {
        vint::lemma_vint_len(data@);
    }
    if num_bytes == 0 || data[num_bytes - 1] >= vint::CONTINUE_BIT {
        return Err(unexpected_eof("sstable value block ends in the middle of a value"));
    }
    if num_bytes > vint::MAX_U64_VINT_LEN {
        return Err(invalid_data("sstable value block holds a vint longer than a u64"));
    }
    *data = slice_subrange(*data, num_bytes, data.len());
    Ok(val)
}

/// What [`read_u32`] reads from the start of `data`.
pub open spec fn read_u32_spec(data: Seq<u8>) -> Result<u32, ErrorView> {
    if data.len() < 4 {
        Err((ErrorKind::UnexpectedEof, "sstable value block ends in the middle of a u32"@))
    } else {
        Ok(le_value(data.take(4)) as u32)
    }
}

/// Reads one little-endian `u32`, or fails if fewer than 4 bytes remain.
pub fn read_u32(data: &mut &[u8]) -> (val: Result<u32, Error>)
    ensures
        match val {
            Ok(val) => {
                &&& read_u32_spec(old(data)@) == Ok::<u32, ErrorView>(val)
                &&& old(data)@.len() >= 4
                &&& final(data)@ == old(data)@.skip(4)
            },
            Err(error) => {
                &&& read_u32_spec(old(data)@) == Err::<u32, ErrorView>(error@)
                &&& final(data)@ == old(data)@
            },
        },
{
    if data.len() < 4 {
        return Err(unexpected_eof("sstable value block ends in the middle of a u32"));
    }
    let val: u32 = u32_from_le(slice_subrange(*data, 0, 4));
    *data = slice_subrange(*data, 4, data.len());
    Ok(val)
}

} // verus!

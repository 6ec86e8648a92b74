//! Values that are `u64` and never decrease, stored as successive differences.

use crate::common::error::{invalid_data, Error, ErrorKind, ErrorView};
use crate::sstable::value::{deserialize_vint_u64, read_vint_spec, ValueReader, ValueWriter};
use crate::sstable::vint;
use vstd::prelude::*;

verus! {

/// Reads `count` differences from the start of `data` and adds each to the value
/// before it, `prev` to begin with: the values up to the first failure, and the
/// bytes that follow them or that failure.
pub open spec fn read_deltas(data: Seq<u8>, count: nat, prev: u64) -> (
    Seq<u64>,
    Result<Seq<u8>, ErrorView>,
)
    decreases count,
{
    if count == 0 {
        (Seq::empty(), Ok(data))
    } else {
        match read_vint_spec(data) {
            Err(error) => (Seq::empty(), Err(error)),
            Ok(delta) => if prev + delta > u64::MAX {
                (
                    Seq::empty(),
                    Err((ErrorKind::InvalidData, "sstable value block overflows a u64"@)),
                )
            } else {
                let val = (prev + delta) as u64;
                let (others, end) = read_deltas(
                    data.skip(vint::vint_len(data) as int),
                    (count - 1) as nat,
                    val,
                );
                (seq![val] + others, end)
            },
        }
    }
}

/// What loading `data` gives: a count, then that many differences.
pub open spec fn decode_deltas(data: Seq<u8>) -> (Seq<u64>, Result<nat, ErrorView>) {
    match read_vint_spec(data) {
        Err(error) => (Seq::empty(), Err(error)),
        Ok(count) => {
            let (vals, end) = read_deltas(
                data.skip(vint::vint_len(data) as int),
                count as nat,
                0,
            );
            match end {
                Err(error) => (vals, Err(error)),
                Ok(rest) => (vals, Ok((data.len() - rest.len()) as nat)),
            }
        },
    }
}

/// Whether `vals` never decrease, from `prev` on.
pub open spec fn ascending(vals: Seq<u64>, prev: u64) -> bool
    decreases vals.len(),
{
    vals.len() > 0 ==> prev <= vals[0] && ascending(vals.skip(1), vals[0])
}

/// The differences between successive values, `prev` standing before the first.
pub open spec fn deltas_bytes(vals: Seq<u64>, prev: u64) -> Seq<u8>
    decreases vals.len(),
{
    if vals.len() == 0 {
        Seq::empty()
    } else {
        vint::vint_bytes((vals[0] - prev) as nat) + deltas_bytes(vals.skip(1), vals[0])
    }
}

/// The value section that holds `vals`: their number, then the differences.
pub open spec fn encode_deltas(vals: Seq<u64>) -> Seq<u8> {
    vint::vint_bytes(vals.len()) + deltas_bytes(vals, 0)
}

/// Reads blocks of `u64` values that never decrease.
pub struct U64MonotonicValueReader {
    vals: Vec<u64>,
}

impl Default for U64MonotonicValueReader {
    fn default() -> (reader: Self)
        ensures
            reader.loaded() == Seq::<u64>::empty(),
    {
        U64MonotonicValueReader { vals: Vec::new() }
    }
}

impl ValueReader for U64MonotonicValueReader {
    type Value = u64;

    type Model = u64;

    open spec fn model(value: u64) -> u64 {
        value
    }

    closed spec fn loaded(&self) -> Seq<u64> {
        self.vals@
    }

    open spec fn decode(data: Seq<u8>) -> (Seq<u64>, Result<nat, ErrorView>) {
        decode_deltas(data)
    }

    open spec fn counts_values(&self) -> bool {
        true
    }

    open spec fn decode_counts(data: Seq<u8>) -> bool {
        true
    }

    fn value(&self, idx: usize) -> (value: &u64) {
        &self.vals[idx]
    }

    fn num_values(&self) -> (num_values: Option<usize>)
        ensures
            num_values is Some,
    {
        Some(self.vals.len())
    }

    proof fn lemma_num_values(&self, num_values: Option<usize>) {
    }

    fn load(&mut self, data: &[u8]) -> (consumed: Result<usize, Error>) {
        let mut rest: &[u8] = data;
        self.vals.clear();
        let num_vals: u64 = match deserialize_vint_u64(&mut rest) {
            Ok(num_vals) => num_vals,
            Err(error) => return Err(error),
        };
        let ghost whole = read_deltas(rest@, num_vals as nat, 0);
        assert(self.vals@ + whole.0 =~= whole.0);
        let mut prev_val: u64 = 0;
        let mut num_read: u64 = 0;
        while num_read < num_vals
            invariant
                num_read <= num_vals,
                read_vint_spec(data@) == Ok::<u64, ErrorView>(num_vals),
                whole == read_deltas(
                    data@.skip(vint::vint_len(data@) as int),
                    num_vals as nat,
                    0,
                ),
                rest@.len() <= data@.len(),
                self.vals@ + read_deltas(rest@, (num_vals - num_read) as nat, prev_val).0
                    == whole.0,
                read_deltas(rest@, (num_vals - num_read) as nat, prev_val).1 == whole.1,
            decreases num_vals - num_read,
        {
            let ghost done = self.vals@;
            let delta: u64 = match deserialize_vint_u64(&mut rest) {
                Ok(delta) => delta,
                Err(error) => {
                    assert(done + Seq::<u64>::empty() =~= done);
                    return Err(error);
                },
            };
            let val: u64 = match prev_val.checked_add(delta) {
                Some(val) => val,
                None => {
                    assert(done + Seq::<u64>::empty() =~= done);
                    return Err(invalid_data("sstable value block overflows a u64"));
                },
            };
            self.vals.push(val);
            proof {
                let others = read_deltas(rest@, (num_vals - num_read - 1) as nat, val).0;
                assert(done.push(val) + others =~= done + (seq![val] + others));
            }
            prev_val = val;
            num_read += 1;
        }
        assert(self.vals@ + Seq::<u64>::empty() =~= self.vals@);
        Ok(data.len() - rest.len())
    }
}

/// Writes blocks of `u64` values that never decrease.
pub struct U64MonotonicValueWriter {
    vals: Vec<u64>,
}

impl Default for U64MonotonicValueWriter {
    fn default() -> (writer: Self)
        ensures
            writer.recorded() == Seq::<u64>::empty(),
    {
        U64MonotonicValueWriter { vals: Vec::new() }
    }
}

impl ValueWriter for U64MonotonicValueWriter {
    type Value = u64;

    type Model = u64;

    open spec fn model(value: u64) -> u64 {
        value
    }

    closed spec fn recorded(&self) -> Seq<u64> {
        self.vals@
    }

    open spec fn encodable(values: Seq<u64>) -> bool {
        ascending(values, 0)
    }

    open spec fn encode(values: Seq<u64>) -> Seq<u8> {
        encode_deltas(values)
    }

    proof fn lemma_default_is_empty(writer: Self) {
    }

    fn write(&mut self, val: &u64) {
        self.vals.push(*val);
    }

    fn serialize_block(&self, output: &mut Vec<u8>) {
        let ghost start = output@;
        let ghost all = self.vals@;
        vint::serialize_into_vec(self.vals.len() as u64, output);
        assert(all.skip(0) =~= all);
        assert(output@ + deltas_bytes(all, 0) =~= start + encode_deltas(all));
        let mut prev_val: u64 = 0;
        let mut i: usize = 0;
        while i < self.vals.len()
            invariant
                i <= self.vals@.len(),
                all == self.vals@,
                ascending(all.skip(i as int), prev_val),
                output@ + deltas_bytes(all.skip(i as int), prev_val) == start + encode_deltas(all),
            decreases self.vals@.len() - i,
        {
            let val: u64 = self.vals[i];
            let ghost before = output@;
            vint::serialize_into_vec(val - prev_val, output);
            assert(all.skip(i as int).skip(1) =~= all.skip(i + 1));
            assert(output@ + deltas_bytes(all.skip(i + 1), val) =~= before + deltas_bytes(
                all.skip(i as int),
                prev_val,
            ));
            prev_val = val;
            i += 1;
        }
        assert(output@ =~= start + encode_deltas(all));
    }

    fn clear(&mut self) {
        self.vals.clear();
    }
}

/// Reading undoes what [`deltas_bytes`] did, whatever follows.
proof fn lemma_deltas_roundtrip(vals: Seq<u64>, prev: u64, rest: Seq<u8>)
    requires
        ascending(vals, prev),
    ensures
        read_deltas(deltas_bytes(vals, prev) + rest, vals.len(), prev) == (
            vals,
            Ok::<Seq<u8>, ErrorView>(rest),
        ),
    decreases vals.len(),
{
    let data = deltas_bytes(vals, prev) + rest;
    if vals.len() == 0 {
        assert(vals =~= Seq::empty());
        assert(data =~= rest);
    } else {
        let delta = (vals[0] - prev) as u64;
        let others = vals.skip(1);
        let tail = deltas_bytes(others, vals[0]) + rest;
        lemma_deltas_roundtrip(others, vals[0], rest);
        vint::law_vint_roundtrip(delta, tail);
        vint::law_vint_bytes_len(delta);
        assert(data =~= vint::vint_bytes(delta as nat) + tail);
        assert(data.skip(vint::vint_len(data) as int) =~= tail);
        assert(seq![vals[0]] + others =~= vals);
    }
}

/// A value section gives back the values that were written, and nothing but the
/// section is consumed, whatever follows it.
pub proof fn law_u64_monotonic_roundtrip(values: Seq<u64>, rest: Seq<u8>)
    requires
        values.len() <= u64::MAX,
        U64MonotonicValueWriter::encodable(values),
    ensures
        U64MonotonicValueReader::decode(U64MonotonicValueWriter::encode(values) + rest) == (
            values,
            Ok::<nat, ErrorView>(U64MonotonicValueWriter::encode(values).len()),
        ),
{
    let data = encode_deltas(values) + rest;
    let tail = deltas_bytes(values, 0) + rest;
    vint::law_vint_roundtrip(values.len() as u64, tail);
    vint::law_vint_bytes_len(values.len() as u64);
    lemma_deltas_roundtrip(values, 0, rest);
    assert(data =~= vint::vint_bytes(values.len()) + tail);
    assert(data.skip(vint::vint_len(data) as int) =~= tail);
}

} // verus!

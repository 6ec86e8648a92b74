//! Variable-length integers: seven bits per byte, least significant group
//! first, with the high bit set on the last byte alone.

use crate::common::error::{invalid_data, Error, ErrorKind, ErrorView};
use vstd::prelude::*;
use vstd::slice::slice_subrange;

verus! {

/// The bit that marks the last byte.
pub const STOP_BIT: u8 = 128;

/// The number of bytes that the longest encoding of a `u64` takes.
pub const MAX_VINT_LEN: usize = 10;

/// A `u64` that is encoded with a variable length.
#[derive(Debug, Clone, Copy, PartialEq, Eq, Structural)]
pub struct VInt(pub u64);

/// The encoding of `number`.
pub open spec fn vint_encoding(number: nat) -> Seq<u8>
    decreases number,
{
    if number < 128 {
        seq![(number + 128) as u8]
    } else {
        seq![(number % 128) as u8] + vint_encoding(number / 128)
    }
}

/// The number of bytes up to and with the first stop bit, or of all of `data` if
/// there is none.
pub open spec fn stop_len(data: Seq<u8>) -> nat
    decreases data.len(),
{
    if data.len() == 0 {
        0
    } else if data[0] >= STOP_BIT {
        1
    } else {
        1 + stop_len(data.skip(1))
    }
}

/// The number that the groups up to and with the first stop bit make up.
pub open spec fn stop_number(data: Seq<u8>) -> nat
    decreases data.len(),
{
    if data.len() == 0 {
        0
    } else if data[0] >= STOP_BIT {
        (data[0] - STOP_BIT) as nat
    } else {
        data[0] as nat + 128 * stop_number(data.skip(1))
    }
}

/// Whether a stop bit comes within the bytes that a `u64` may take.
pub open spec fn vint_stops(data: Seq<u8>) -> bool {
    0 < stop_len(data) <= MAX_VINT_LEN && data[stop_len(data) - 1] >= STOP_BIT
}

/// What reading a vint from the start of `data` returns.
pub open spec fn vint_read(data: Seq<u8>) -> Result<VInt, ErrorView> {
    if vint_stops(data) {
        Ok(VInt((stop_number(data) % 0x1_0000_0000_0000_0000) as u64))
    } else if data.len() < MAX_VINT_LEN {
        Err((ErrorKind::InvalidData, "Reach end of buffer while reading VInt"@))
    } else {
        Err((ErrorKind::InvalidData, "VInt is longer than a u64"@))
    }
}

/// What is left of `data` after reading a vint from its start. A read that fails
/// has consumed the bytes it looked at.
pub open spec fn vint_rest(data: Seq<u8>) -> Seq<u8> {
    if vint_stops(data) {
        data.skip(stop_len(data) as int)
    } else if data.len() < MAX_VINT_LEN {
        Seq::empty()
    } else {
        data.skip(MAX_VINT_LEN as int)
    }
}

proof fn lemma_encoding_stops(number: nat, rest: Seq<u8>)
    ensures
        stop_number(vint_encoding(number) + rest) == number,
        stop_len(vint_encoding(number) + rest) == vint_encoding(number).len(),
        vint_encoding(number).len() > 0,
        vint_encoding(number).last() >= STOP_BIT,
    decreases number,
{
    let data = vint_encoding(number) + rest;
    if number >= 128 {
        lemma_encoding_stops(number / 128, rest);
        assert(data.skip(1) =~= vint_encoding(number / 128) + rest);
    }
}

/// What is read from the start of an encoding is the encoded number, and nothing
/// but the encoding is consumed, whatever follows it.
pub proof fn law_stop_vint_roundtrip(number: u64, rest: Seq<u8>)
    ensures
        vint_read(vint_encoding(number as nat) + rest) == Ok::<VInt, ErrorView>(VInt(number)),
        vint_rest(vint_encoding(number as nat) + rest) == rest,
{
    let data = vint_encoding(number as nat) + rest;
    lemma_encoding_stops(number as nat, rest);
    reveal_with_fuel(vint_encoding, 11);
    assert(vint_encoding(number as nat).len() <= MAX_VINT_LEN);
    assert(data.skip(vint_encoding(number as nat).len() as int) =~= rest);
}

/// No encoding is the beginning of another one: two streams that begin with an
/// encoding each and are equal begin with the same number.
pub proof fn law_stop_vint_is_unambiguous(a: u64, rest_a: Seq<u8>, b: u64, rest_b: Seq<u8>)
    requires
        vint_encoding(a as nat) + rest_a == vint_encoding(b as nat) + rest_b,
    ensures
        a == b,
        rest_a == rest_b,
{
    law_stop_vint_roundtrip(a, rest_a);
    law_stop_vint_roundtrip(b, rest_b);
}

impl VInt {
    /// Appends the encoding of this number to `writer`.
    pub fn serialize(&self, writer: &mut Vec<u8>) -> (result: Result<(), Error>)
        ensures
            result is Ok,
            final(writer)@ == old(writer)@ + vint_encoding(self.0 as nat),
    {
        let mut remaining: u64 = self.0;
        while remaining >= 128
            invariant
                writer@ + vint_encoding(remaining as nat) == old(writer)@ + vint_encoding(
                    self.0 as nat,
                ),
            decreases remaining,
        {
            let ghost before = writer@;
            writer.push((remaining % 128) as u8);
            assert(before + vint_encoding(remaining as nat) =~= writer@ + vint_encoding(
                (remaining / 128) as nat,
            ));
            remaining = remaining / 128;
        }
        writer.push(remaining as u8 + STOP_BIT);
        assert(writer@ =~= old(writer)@ + vint_encoding(self.0 as nat));
        Ok(())
    }

    /// Reads the number at the start of `reader` and moves `reader` past it.
    ///
    /// Bits that a ten-byte encoding has beyond the 64th are dropped.
    pub fn deserialize(reader: &mut &[u8]) -> (number: Result<VInt, Error>)
        ensures
            match number {
                Ok(number) => vint_read(old(reader)@) == Ok::<VInt, ErrorView>(number),
                Err(error) => vint_read(old(reader)@) == Err::<VInt, ErrorView>(error@),
            },
            final(reader)@ == vint_rest(old(reader)@),
    {
        let data: &[u8] = *reader;
        let mut stop: usize = 0;
        assert(data@.skip(0) =~= data@);
        while stop < data.len() && stop < MAX_VINT_LEN && data[stop] < STOP_BIT
            invariant
                stop <= data@.len(),
                stop <= MAX_VINT_LEN,
                forall|i: int| 0 <= i < stop ==> data@[i] < STOP_BIT,
                stop_len(data@) == stop + stop_len(data@.skip(stop as int)),
            decreases data@.len() - stop,
        {
            assert(data@.skip(stop as int).skip(1) =~= data@.skip(stop + 1));
            stop += 1;
        }
        if stop == MAX_VINT_LEN {
            *reader = slice_subrange(data, stop, data.len());
            return Err(invalid_data("VInt is longer than a u64"));
        }
        if stop == data.len() {
            *reader = slice_subrange(data, stop, data.len());
            return Err(invalid_data("Reach end of buffer while reading VInt"));
        }
        let mut value: u64 = (data[stop] - STOP_BIT) as u64;
        let mut i: usize = stop;
        while i > 0
            invariant
                i <= stop < data@.len(),
                forall|k: int| 0 <= k < stop ==> data@[k] < STOP_BIT,
                value == stop_number(data@.skip(i as int)) % 0x1_0000_0000_0000_0000,
            decreases i,
        {
            i -= 1;
            value = value.wrapping_mul(128).wrapping_add(data[i] as u64);
            assert(data@.skip(i as int).skip(1) =~= data@.skip(i + 1));
        }
        assert(data@.skip(0) =~= data@);
        *reader = slice_subrange(data, stop + 1, data.len());
        Ok(VInt(value))
    }
}

} // verus!

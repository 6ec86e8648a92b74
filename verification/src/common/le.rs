//! Fixed-width little-endian integers.

use vstd::prelude::*;
use vstd::slice::slice_subrange;

verus! {

/// The number that `bytes` encode, least significant byte first.
pub open spec fn le_value(bytes: Seq<u8>) -> nat
    decreases bytes.len(),
{
    if bytes.len() == 0 {
        0
    } else {
        bytes[0] as nat + 256 * le_value(bytes.skip(1))
    }
}

/// The `width` low bytes of `number`, least significant byte first.
pub open spec fn le_bytes(number: nat, width: nat) -> Seq<u8>
    decreases width,
{
    if width == 0 {
        Seq::empty()
    } else {
        seq![(number % 256) as u8] + le_bytes(number / 256, (width - 1) as nat)
    }
}

/// `le_bytes` has the width that was asked for.
pub proof fn lemma_le_bytes_len(number: nat, width: nat)
    ensures
        le_bytes(number, width).len() == width,
    decreases width,
{
    if width > 0 {
        lemma_le_bytes_len(number / 256, (width - 1) as nat);
    }
}

/// The bytes of a 32-bit number give the number back.
pub proof fn law_le_u32_roundtrip(number: u32)
    ensures
        le_bytes(number as nat, 4).len() == 4,
        le_value(le_bytes(number as nat, 4)) == number,
{
    reveal_with_fuel(byte_limit, 5);
    lemma_le_roundtrip(number as nat, 4);
}

/// The bytes of a 64-bit number give the number back.
pub proof fn law_le_u64_roundtrip(number: u64)
    ensures
        le_bytes(number as nat, 8).len() == 8,
        le_value(le_bytes(number as nat, 8)) == number,
{
    reveal_with_fuel(byte_limit, 9);
    lemma_le_roundtrip(number as nat, 8);
}

/// A number below `256^width` survives the trip through `width` bytes.
proof fn lemma_le_roundtrip(number: nat, width: nat)
    requires
        number < byte_limit(width),
    ensures
        le_bytes(number, width).len() == width,
        le_value(le_bytes(number, width)) == number,
    decreases width,
{
    lemma_le_bytes_len(number, width);
    if width > 0 {
        let low: nat = (width - 1) as nat;
        lemma_le_roundtrip(number / 256, low);
        let bytes = le_bytes(number, width);
        assert(bytes.skip(1) =~= le_bytes(number / 256, low));
    }
}

/// The number that bytes encode has those bytes.
pub proof fn law_le_bytes_of_value(bytes: Seq<u8>)
    ensures
        le_bytes(le_value(bytes), bytes.len()) == bytes,
    decreases bytes.len(),
{
    if bytes.len() > 0 {
        law_le_bytes_of_value(bytes.skip(1));
        assert(seq![bytes[0]] + bytes.skip(1) =~= bytes);
    } else {
        assert(bytes =~= Seq::<u8>::empty());
    }
}

/// `256^width`.
spec fn byte_limit(width: nat) -> nat
    decreases width,
{
    if width == 0 {
        1
    } else {
        256 * byte_limit((width - 1) as nat)
    }
}

/// Four bytes hold at most a 32-bit number.
pub proof fn lemma_le_value_u32(bytes: Seq<u8>)
    requires
        bytes.len() == 4,
    ensures
        le_value(bytes) == bytes[0] + 0x100 * bytes[1] + 0x1_0000 * bytes[2] + 0x100_0000
            * bytes[3],
        le_value(bytes) <= u32::MAX,
{
    reveal_with_fuel(le_value, 5);
}

/// Reads the little-endian `u32` that the four bytes of `bytes` hold.
pub fn u32_from_le(bytes: &[u8]) -> (number: u32)
    requires
        bytes@.len() == 4,
    ensures
        number == le_value(bytes@),
{
    proof {
        lemma_le_value_u32(bytes@);
    }
    bytes[0] as u32 + 0x100 * bytes[1] as u32 + 0x1_0000 * bytes[2] as u32 + 0x100_0000
        * bytes[3] as u32
}

/// Reads the little-endian `u64` that the eight bytes of `bytes` hold.
pub fn u64_from_le(bytes: &[u8]) -> (number: u64)
    requires
        bytes@.len() == 8,
    ensures
        number == le_value(bytes@),
{
    let low: u32 = u32_from_le(slice_subrange(bytes, 0, 4));
    let high: u32 = u32_from_le(slice_subrange(bytes, 4, 8));
    proof {
        lemma_le_value_u32(bytes@.subrange(0, 4));
        lemma_le_value_u32(bytes@.subrange(4, 8));
        reveal_with_fuel(le_value, 9);
    }
    low as u64 + 0x1_0000_0000 * high as u64
}

/// Appends the four low bytes of `number` to `output`, in little-endian order.
pub fn push_u32_le(number: u64, output: &mut Vec<u8>)
    ensures
        final(output)@ == old(output)@ + le_bytes(number as nat, 4),
{
    output.push((number % 256) as u8);
    output.push((number / 256 % 256) as u8);
    output.push((number / 256 / 256 % 256) as u8);
    output.push((number / 256 / 256 / 256 % 256) as u8);
    proof {
        reveal_with_fuel(le_bytes, 5);
        assert(output@ =~= old(output)@ + le_bytes(number as nat, 4));
    }
}

} // verus!

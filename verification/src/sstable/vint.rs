//! Variable-length integers: seven bits per byte, least significant group
//! first, with the high bit set on every byte but the last.

use vstd::prelude::*;

verus! {

/// The bit that announces that another byte follows.
pub const CONTINUE_BIT: u8 = 128;

/// The number of bytes that the longest encoding of a `u64` takes.
pub const MAX_U64_VINT_LEN: usize = 10;

/// The encoding of `number`.
pub open spec fn vint_bytes(number: nat) -> Seq<u8>
    decreases number,
{
    if number < 128 {
        seq![number as u8]
    } else {
        seq![(number % 128 + 128) as u8] + vint_bytes(number / 128)
    }
}

/// The number of bytes that the vint at the start of `data` takes: up to and
/// with the first byte without a continue bit, or all of `data` if there is none.
pub open spec fn vint_len(data: Seq<u8>) -> nat
    decreases data.len(),
{
    if data.len() == 0 {
        0
    } else if data[0] < CONTINUE_BIT {
        1
    } else {
        1 + vint_len(data.skip(1))
    }
}

/// The number that the vint at the start of `data` encodes.
pub open spec fn vint_number(data: Seq<u8>) -> nat
    decreases data.len(),
{
    if data.len() == 0 {
        0
    } else if data[0] < CONTINUE_BIT {
        data[0] as nat
    } else {
        (data[0] - CONTINUE_BIT) as nat + 128 * vint_number(data.skip(1))
    }
}

/// The 64 low bits of [`vint_number`].
pub open spec fn vint_value(data: Seq<u8>) -> u64 {
    (vint_number(data) % 0x1_0000_0000_0000_0000) as u64
}

/// Whether the vint at the start of `data` is complete.
pub open spec fn vint_complete(data: Seq<u8>) -> bool {
    vint_len(data) > 0 && data[vint_len(data) - 1] < CONTINUE_BIT
}

/// A vint lies within the bytes it is read from.
pub proof fn lemma_vint_len(data: Seq<u8>)
    ensures
        vint_len(data) <= data.len(),
        data.len() > 0 ==> vint_len(data) > 0,
    decreases data.len(),
{
    if data.len() > 0 && data[0] >= CONTINUE_BIT {
        lemma_vint_len(data.skip(1));
    }
}

/// The encoding of a `u64` takes between one and ten bytes.
pub proof fn law_vint_bytes_len(number: u64)
    ensures
        1 <= vint_bytes(number as nat).len() <= MAX_U64_VINT_LEN,
{
    reveal_with_fuel(vint_bytes, 11);
}

/// What is read from the start of an encoding is the encoded number, and
/// nothing but the encoding is consumed, whatever follows it.
pub proof fn law_vint_roundtrip(number: u64, rest: Seq<u8>)
    ensures
        vint_value(vint_bytes(number as nat) + rest) == number,
        vint_len(vint_bytes(number as nat) + rest) == vint_bytes(number as nat).len(),
        vint_complete(vint_bytes(number as nat) + rest),
{
    lemma_vint_roundtrip(number as nat, rest);
}

proof fn lemma_vint_roundtrip(number: nat, rest: Seq<u8>)
    ensures
        vint_number(vint_bytes(number) + rest) == number,
        vint_len(vint_bytes(number) + rest) == vint_bytes(number).len(),
        vint_bytes(number).len() > 0,
        vint_bytes(number).last() < CONTINUE_BIT,
    decreases number,
{
    let data = vint_bytes(number) + rest;
    if number >= 128 {
        lemma_vint_roundtrip(number / 128, rest);
        assert(data.skip(1) =~= vint_bytes(number / 128) + rest);
    }
}

/// Appends the encoding of `val` to `output`.
pub fn serialize_into_vec(val: u64, output: &mut Vec<u8>)
    ensures
        final(output)@ == old(output)@ + vint_bytes(val as nat),
{
    let mut remaining: u64 = val;
    while remaining >= 128
        invariant
            output@ + vint_bytes(remaining as nat) == old(output)@ + vint_bytes(val as nat),
        decreases remaining,
    {
        let ghost before = output@;
        output.push((remaining % 128) as u8 + CONTINUE_BIT);
        assert(before + vint_bytes(remaining as nat) =~= output@ + vint_bytes(
            (remaining / 128) as nat,
        ));
        remaining = remaining / 128;
    }
    output.push(remaining as u8);
    assert(output@ =~= old(output)@ + vint_bytes(val as nat));
}

/// Reads the vint at the start of `data`: the number of bytes it takes and the
/// 64 low bits of its value. On empty input that is `(0, 0)`.
pub fn deserialize_read(data: &[u8]) -> (read: (usize, u64))
    ensures
        read.0 == vint_len(data@),
        read.1 == vint_value(data@),
{
    let mut len: usize = 0;
    assert(data@.skip(0) =~= data@);
    while len < data.len() && data[len] >= CONTINUE_BIT
        invariant
            len <= data@.len(),
            forall|i: int| 0 <= i < len ==> data@[i] >= CONTINUE_BIT,
            vint_len(data@) == len + vint_len(data@.skip(len as int)),
        decreases data@.len() - len,
    {
        assert(data@.skip(len as int).skip(1) =~= data@.skip(len + 1));
        len += 1;
    }
    let stop: usize = len;
    let mut value: u64 = if stop < data.len() {
        data[stop] as u64
    } else {
        0
    };
    let num_bytes: usize = if stop < data.len() {
        stop + 1
    } else {
        stop
    };
    let mut i: usize = stop;
    while i > 0
        invariant
            i <= stop <= data@.len(),
            forall|k: int| 0 <= k < stop ==> data@[k] >= CONTINUE_BIT,
            value == vint_value(data@.skip(i as int)),
        decreases i,
    {
        let ghost high = vint_number(data@.skip(i as int));
        i -= 1;
        let group: u64 = (data[i] - CONTINUE_BIT) as u64;
        let ghost old_value = value;
        value = value.wrapping_mul(128).wrapping_add(group);
        proof {
            assert(data@.skip(i as int).skip(1) =~= data@.skip(i + 1));
            lemma_horner(high, group as nat, old_value);
        }
    }
    assert(data@.skip(0) =~= data@);
    (num_bytes, value)
}

/// One step of putting seven more bits below a number that is kept modulo 2^64.
proof fn lemma_horner(high: nat, group: nat, value: u64)
    requires
        value == high % 0x1_0000_0000_0000_0000,
        group < 128,
    ensures
        (group + 128 * high) % 0x1_0000_0000_0000_0000 == ((128 * value) % 0x1_0000_0000_0000_0000
            + group) % 0x1_0000_0000_0000_0000,
{
}

} // verus!

//! Laws of numerals, integers of fixed and of variable length, and bits.

use crate::columnar::utils::{
    compute_mask, law_select_undoes_place, place_bits, pop_first_byte, select_bits,
};
use crate::common::decimal::to_decimal;
use crate::common::error::{Error, ErrorKind};
use crate::common::le::{
    le_bytes, le_value, lemma_le_value_u32, push_u32_le, u32_from_le, u64_from_le,
};
use crate::common::non_zero::NonZeroU64;
use crate::common::vint::{stop_len, vint_encoding, VInt};
use crate::sstable::value::{deserialize_vint_u64, read_u32};
use crate::sstable::vint::{deserialize_read, serialize_into_vec, vint_bytes};
use vstd::arithmetic::div_mod::lemma_fundamental_div_mod_converse;
use vstd::arithmetic::power2::{lemma2_to64, pow2};
use vstd::prelude::*;

verus! {

/// The numeral of a number below ten is its digit; that of another one is the numeral of
/// its tens, with the digit of what is left behind it.
pub proof fn law_decimal_numeral(number: u64, numeral: String, tens: String)
    requires
        call_ensures(to_decimal, (number,), numeral),
        call_ensures(to_decimal, (number / 10,), tens),
    ensures
        number < 10 ==> numeral@ == seq![(48 + number) as char],
        number >= 10 ==> numeral@ == tens@.push((48 + number % 10) as char),
{
}

/// Little-endian integers are read byte by byte, the least significant one first.
pub proof fn law_little_endian_reads(four: &[u8], number: u32, eight: &[u8], long: u64)
    requires
        four@.len() == 4,
        call_ensures(u32_from_le, (four,), number),
        eight@.len() == 8,
        call_ensures(u64_from_le, (eight,), long),
    ensures
        number == four@[0] + 0x100 * four@[1] + 0x1_0000 * four@[2] + 0x100_0000 * four@[3],
        long == eight@[0] + 0x100 * eight@[1] + 0x1_0000 * eight@[2] + 0x100_0000 * eight@[3]
            + 0x1_0000_0000 * (eight@[4] + 0x100 * eight@[5] + 0x1_0000 * eight@[6] + 0x100_0000
            * eight@[7]),
{
    reveal_with_fuel(le_value, 9);
}

/// Four bytes are written, the least significant one first.
pub proof fn law_little_endian_writes(number: u64, output: &mut Vec<u8>)
    requires
        call_ensures(push_u32_le, (number, output), ()),
    ensures
        (*final(output))@ == (*old(output))@ + seq![
            (number % 0x100) as u8,
            (number / 0x100 % 0x100) as u8,
            (number / 0x1_0000 % 0x100) as u8,
            (number / 0x100_0000 % 0x100) as u8,
        ],
{
    reveal_with_fuel(le_bytes, 5);
    assert((*final(output))@ =~= (*old(output))@ + seq![
        (number % 0x100) as u8,
        (number / 0x100 % 0x100) as u8,
        (number / 0x1_0000 % 0x100) as u8,
        (number / 0x100_0000 % 0x100) as u8,
    ]);
}

/// A number is wrapped exactly if it is not zero, and comes out as it went in.
pub proof fn law_non_zero(number: u64, wrapped: Option<NonZeroU64>, inside: NonZeroU64, got: u64)
    requires
        call_ensures(NonZeroU64::new, (number,), wrapped),
        call_ensures(NonZeroU64::get, (&inside,), got),
    ensures
        wrapped is None <==> number == 0,
        wrapped == Some(inside) ==> got == number,
{
}

/// A stop-bit vint below 128 is one byte with the stop bit; another one is its seven low
/// bits, and then the vint of the others.
pub proof fn law_stop_vint_bytes(
    number: u64,
    writer: &mut Vec<u8>,
    result: Result<(), Error>,
    others: &mut Vec<u8>,
    others_result: Result<(), Error>,
)
    requires
        call_ensures(VInt::serialize, (&VInt(number), writer), result),
        call_ensures(VInt::serialize, (&VInt(number / 128), others), others_result),
        (*old(others))@.len() == 0,
    ensures
        result is Ok,
        number < 128 ==> (*final(writer))@ == (*old(writer))@ + seq![(number + 128) as u8],
        number >= 128 ==> (*final(writer))@ == (*old(writer))@ + seq![(number % 128) as u8]
            + (*final(others))@,
{
    assert((*final(others))@ =~= vint_encoding((number / 128) as nat));
    if number >= 128 {
        assert((*final(writer))@ =~= (*old(writer))@ + seq![(number % 128) as u8]
            + (*final(others))@);
    }
}

/// A stop-bit vint can be read exactly if one of the first ten bytes has the stop bit.
/// Otherwise the error tells whether the bytes end too early or go on for too long.
pub proof fn law_stop_vint_is_read_or_refused(reader: &mut &[u8], number: Result<VInt, Error>)
    requires
        call_ensures(VInt::deserialize, (reader,), number),
    ensures
        number is Ok <==> exists|i: int| 0 <= i < 10 && i < (*old(reader))@.len() && #[trigger] (
        *old(reader))@[i] >= 128,
        number matches Err(error) ==> error.kind == ErrorKind::InvalidData && error.message@ == if (
        *old(reader))@.len() < 10 {
            "Reach end of buffer while reading VInt"@
        } else {
            "VInt is longer than a u64"@
        },
        number matches Err(error) ==> (*final(reader))@ == if (*old(reader))@.len() < 10 {
            Seq::<u8>::empty()
        } else {
            (*old(reader))@.skip(10)
        },
{
    let data = (*old(reader))@;
    lemma_first_stop(data);
    assert forall|i: int| 0 <= i < 10 && i < data.len() && #[trigger] data[i] >= 128 implies
        number is Ok by {
        assert(stop_len(data) <= i + 1);
    }
    if number is Ok {
        assert(data[stop_len(data) - 1] >= 128);
    }
}

/// Where the first stop bit is.
proof fn lemma_first_stop(data: Seq<u8>)
    ensures
        stop_len(data) <= data.len(),
        forall|i: int| 0 <= i < stop_len(data) - 1 ==> #[trigger] data[i] < 128,
        forall|i: int| 0 <= i < data.len() && #[trigger] data[i] >= 128 ==> stop_len(data) <= i + 1
            && data[stop_len(data) - 1] >= 128,
        data.len() > 0 ==> stop_len(data) > 0,
    decreases data.len(),
{
    if data.len() > 0 && data[0] < 128 {
        let tail = data.skip(1);
        lemma_first_stop(tail);
        assert forall|i: int| 0 <= i < stop_len(data) - 1 implies #[trigger] data[i] < 128 by {
            if i > 0 {
                assert(tail[i - 1] == data[i]);
            }
        }
        assert forall|i: int| 0 <= i < data.len() && #[trigger] data[i] >= 128 implies stop_len(
            data,
        ) <= i + 1 && data[stop_len(data) - 1] >= 128 by {
            assert(tail[i - 1] == data[i]);
        }
    }
}

/// What a stop-bit vint is read as: its first byte less the stop bit, or its first byte
/// and 128 times what is read behind it, of which 64 bits are kept. What is behind it is
/// left to read.
pub proof fn law_stop_vint_value(
    reader: &mut &[u8],
    number: VInt,
    behind: &mut &[u8],
    others: Result<VInt, Error>,
)
    requires
        call_ensures(VInt::deserialize, (reader,), Ok::<VInt, Error>(number)),
        (*old(behind))@ == (*old(reader))@.skip(1),
        call_ensures(VInt::deserialize, (behind,), others),
    ensures
        (*old(reader))@.len() > 0,
        (*old(reader))@[0] >= 128 ==> number.0 == (*old(reader))@[0] - 128 && (*final(reader))@ == (
        *old(reader))@.skip(1),
        (*old(reader))@[0] < 128 ==> {
            &&& others matches Ok(others)
            &&& number.0 == ((*old(reader))@[0] + 128 * others.0) % 0x1_0000_0000_0000_0000
            &&& (*final(reader))@ == (*final(behind))@
        },
{
    let data = (*old(reader))@;
    if data[0] < 128 {
        let tail = data.skip(1);
        lemma_first_stop(data);
        lemma_first_stop(tail);
        assert(tail[stop_len(tail) - 1] == data[stop_len(data) - 1]);
        assert(data.skip(stop_len(data) as int) =~= tail.skip(stop_len(tail) as int));
    }
}

/// A continue-bit vint below 128 is one byte; another one is its seven low bits with the
/// continue bit, and then the vint of the others.
pub proof fn law_continue_vint_bytes(number: u64, output: &mut Vec<u8>, others: &mut Vec<u8>)
    requires
        call_ensures(serialize_into_vec, (number, output), ()),
        call_ensures(serialize_into_vec, (number / 128, others), ()),
        (*old(others))@.len() == 0,
    ensures
        number < 128 ==> (*final(output))@ == (*old(output))@ + seq![number as u8],
        number >= 128 ==> (*final(output))@ == (*old(output))@ + seq![
            (number % 128 + 128) as u8,
        ] + (*final(others))@,
{
    assert((*final(others))@ =~= vint_bytes((number / 128) as nat));
    if number >= 128 {
        let first = seq![(number % 128 + 128) as u8];
        assert((*final(output))@ =~= (*old(output))@ + first + (*final(others))@);
    }
}

/// What a continue-bit vint is read as: nothing of no bytes, a byte without the continue
/// bit as itself, and another one less that bit with 128 times what is read behind it, of
/// which 64 bits are kept.
pub proof fn law_continue_vint_value(
    data: &[u8],
    read: (usize, u64),
    behind: &[u8],
    others: (usize, u64),
)
    requires
        call_ensures(deserialize_read, (data,), read),
        data@.len() > 0 ==> behind@ == data@.skip(1),
        call_ensures(deserialize_read, (behind,), others),
    ensures
        data@.len() == 0 ==> read == (0usize, 0u64),
        data@.len() > 0 && data@[0] < 128 ==> read == (1usize, data@[0] as u64),
        data@.len() > 0 && data@[0] >= 128 ==> {
            &&& read.0 == 1 + others.0
            &&& read.1 == (data@[0] - 128 + 128 * others.1) % 0x1_0000_0000_0000_0000
        },
{
}

/// A checked vint is what is read without checks, unless the bytes end before it does or
/// it takes more than ten bytes; a refusal consumes nothing.
pub proof fn law_checked_vint(
    data: &mut &[u8],
    number: Result<u64, Error>,
    whole: &[u8],
    read: (usize, u64),
)
    requires
        call_ensures(deserialize_vint_u64, (data,), number),
        whole@ == (*old(data))@,
        call_ensures(deserialize_read, (whole,), read),
    ensures
        if read.0 == 0 || whole@[read.0 - 1] >= 128 {
            &&& number matches Err(error)
            &&& error.kind == ErrorKind::UnexpectedEof
            &&& error.message@ == "sstable value block ends in the middle of a value"@
            &&& (*final(data))@ == whole@
        } else if read.0 > 10 {
            &&& number matches Err(error)
            &&& error.kind == ErrorKind::InvalidData
            &&& error.message@ == "sstable value block holds a vint longer than a u64"@
            &&& (*final(data))@ == whole@
        } else {
            &&& number matches Ok(number)
            &&& number == read.1
            &&& (*final(data))@ == whole@.skip(read.0 as int)
        },
{
}

/// A checked `u32` is four bytes, the least significant one first; fewer are refused and
/// not consumed.
pub proof fn law_checked_u32(data: &mut &[u8], number: Result<u32, Error>)
    requires
        call_ensures(read_u32, (data,), number),
    ensures
        ({
            let before = (*old(data))@;
            if before.len() < 4 {
                &&& number matches Err(error)
                &&& error.kind == ErrorKind::UnexpectedEof
                &&& error.message@ == "sstable value block ends in the middle of a u32"@
                &&& (*final(data))@ == before
            } else {
                &&& number matches Ok(number)
                &&& number == before[0] + 0x100 * before[1] + 0x1_0000 * before[2] + 0x100_0000
                    * before[3]
                &&& (*final(data))@ == before.skip(4)
            }
        }),
{
    let before = (*old(data))@;
    if before.len() >= 4 {
        lemma_le_value_u32(before.take(4));
    }
}

/// A mask of some bits, for each number of bits there is.
pub proof fn law_masks(num_bits: u8, mask: u8)
    requires
        num_bits <= 8,
        call_ensures(compute_mask, (num_bits,), mask),
    ensures
        num_bits == 0 ==> mask == 0,
        num_bits == 1 ==> mask == 1,
        num_bits == 2 ==> mask == 3,
        num_bits == 3 ==> mask == 7,
        num_bits == 4 ==> mask == 15,
        num_bits == 5 ==> mask == 31,
        num_bits == 6 ==> mask == 63,
        num_bits == 7 ==> mask == 127,
        num_bits == 8 ==> mask == 255,
{
    lemma2_to64();
}

/// Selected bits are those of a byte that has them, above lower bits and below higher
/// ones.
pub proof fn law_selected_bits<const START: u8, const END: u8>(
    code: u8,
    bits: u8,
    high: nat,
    inner: nat,
    low: nat,
)
    requires
        START <= END <= 8,
        START < 8,
        call_ensures(select_bits::<START, END>, (code,), bits),
        low < pow2(START as nat),
        inner < pow2((END - START) as nat),
        code == (high * pow2((END - START) as nat) + inner) * pow2(START as nat) + low,
    ensures
        bits == inner,
{
    let above = high * pow2((END - START) as nat) + inner;
    lemma_fundamental_div_mod_converse(
        code as int,
        pow2(START as nat) as int,
        above as int,
        low as int,
    );
    lemma_fundamental_div_mod_converse(
        above as int,
        pow2((END - START) as nat) as int,
        high as int,
        inner as int,
    );
}

/// Placed bits are selected again from where they were placed; nothing else is set.
pub proof fn law_placed_bits<const START: u8, const END: u8>(code: u8, placed: u8, bits: u8)
    requires
        START <= END <= 8,
        START < 8,
        code < pow2((END - START) as nat),
        call_ensures(place_bits::<START, END>, (code,), placed),
        call_ensures(select_bits::<START, END>, (placed,), bits),
    ensures
        bits == code,
        placed == code * pow2(START as nat),
{
    law_select_undoes_place(code as nat, START as nat, END as nat);
}

/// Popping takes the first byte off, if there is one, and leaves the others.
pub proof fn law_pop_first_byte(bytes: &mut &[u8], popped: Option<u8>)
    requires
        call_ensures(pop_first_byte, (bytes,), popped),
    ensures
        popped matches Some(first) ==> (*old(bytes))@ == seq![first] + (*final(bytes))@,
        popped is None ==> (*old(bytes))@.len() == 0 && (*final(bytes))@.len() == 0,
{
    if popped is Some {
        assert((*old(bytes))@ =~= seq![popped->0] + (*final(bytes))@);
    }
}

} // verus!

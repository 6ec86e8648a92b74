//! Splitting bytes and bits.

use crate::common::decimal::{decimal, to_decimal};
use crate::common::error::{io_invalid_data, Error, ErrorKind, ErrorView};
use crate::common::owned_bytes::OwnedBytes;
use vstd::arithmetic::div_mod::{
    lemma_basic_div, lemma_div_by_multiple, lemma_mod_multiples_basic, lemma_small_mod,
};
use vstd::arithmetic::mul::lemma_mul_strict_inequality;
use vstd::arithmetic::power2::{
    lemma2_to64, lemma_pow2_adds, lemma_pow2_pos, lemma_pow2_strictly_increases, pow2,
};
use vstd::bits::{
    lemma_low_bits_mask_values, lemma_u8_low_bits_mask_is_mod, lemma_u8_shl_is_mul,
    lemma_u8_shr_is_div, low_bits_mask,
};
use vstd::prelude::*;
use vstd::slice::slice_subrange;
use vstd::string::StringExecFns;

verus! {

/// What is reported of a field `what` that declares more bytes than remain.
pub open spec fn length_error(what: Seq<char>, declared: nat, remaining: nat) -> ErrorView {
    (
        ErrorKind::InvalidData,
        what + " declares "@ + decimal(declared) + " bytes, but only "@ + decimal(remaining)
            + " remain"@,
    )
}

fn length_mismatch(what: &str, declared: usize, remaining: usize) -> (error: Error)
    ensures
        error@ == length_error(what@, declared as nat, remaining as nat),
{
    let mut message: String = what.to_owned();
    message.append(" declares ");
    message.append(to_decimal(declared as u64).as_str());
    message.append(" bytes, but only ");
    message.append(to_decimal(remaining as u64).as_str());
    message.append(" remain");
    io_invalid_data(message)
}

/// Splits `bytes`, keeping `left_len` bytes on the left.
///
/// `OwnedBytes::split` must not be asked for more bytes than it has, which is
/// the right contract for a length the writer produced. These lengths are read
/// back out of the file, so they are as untrusted as the rest of it: `what`
/// names the field so a corrupt column says which one disagreed.
pub fn split_checked(bytes: OwnedBytes, left_len: usize, what: &str) -> (halves: Result<
    (OwnedBytes, OwnedBytes),
    Error,
>)
    ensures
        match halves {
            Ok((left, right)) => {
                &&& left_len <= bytes@.len()
                &&& left@ == bytes@.take(left_len as int)
                &&& right@ == bytes@.skip(left_len as int)
            },
            Err(error) => {
                &&& left_len > bytes@.len()
                &&& error@ == length_error(what@, left_len as nat, bytes@.len())
            },
        },
{
    if left_len > bytes.len() {
        return Err(length_mismatch(what, left_len, bytes.len()));
    }
    Ok(bytes.split(left_len))
}

/// Splits `bytes`, keeping `right_len` bytes on the right.
///
/// See [`split_checked`].
pub fn rsplit_checked(bytes: OwnedBytes, right_len: usize, what: &str) -> (halves: Result<
    (OwnedBytes, OwnedBytes),
    Error,
>)
    ensures
        match halves {
            Ok((left, right)) => {
                &&& right_len <= bytes@.len()
                &&& left@ == bytes@.take(bytes@.len() - right_len)
                &&& right@ == bytes@.skip(bytes@.len() - right_len)
            },
            Err(error) => {
                &&& right_len > bytes@.len()
                &&& error@ == length_error(what@, right_len as nat, bytes@.len())
            },
        },
{
    if right_len > bytes.len() {
        return Err(length_mismatch(what, right_len, bytes.len()));
    }
    Ok(bytes.rsplit(right_len))
}

/// The bits `start..end` of `code`, moved down to bit 0.
pub open spec fn bits_at(code: nat, start: nat, end: nat) -> nat {
    (code / pow2(start)) % pow2((end - start) as nat)
}

/// A byte whose `num_bits` low bits are set.
pub fn compute_mask(num_bits: u8) -> (mask: u8)
    requires
        num_bits <= 8,
    ensures
        mask == low_bits_mask(num_bits as nat),
{
    proof {
        lemma_low_bits_mask_values();
        lemma_pow2_pos(num_bits as nat);
    }
    if num_bits == 8 {
        u8::MAX
    } else {
        proof {
            lemma_pow2_strictly_increases(num_bits as nat, 8);
            lemma_u8_shl_is_mul(1, num_bits);
            assert((1u8 << num_bits) == 1 * pow2(num_bits as nat));
        }
        (1u8 << num_bits) - 1
    }
}

/// Reads the bits `START..END` of `code`.
#[must_use]
pub fn select_bits<const START: u8, const END: u8>(code: u8) -> (bits: u8)
    requires
        START <= END,
        END <= 8,
        START < 8,
    ensures
        bits == bits_at(code as nat, START as nat, END as nat),
{
    let num_bits: u8 = END - START;
    let mask: u8 = compute_mask(num_bits);
    proof {
        lemma_u8_shr_is_div(code, START);
        let shifted: u8 = code >> START;
        lemma_low_bits_mask_values();
        if num_bits < 8 {
            lemma_u8_low_bits_mask_is_mod(shifted, num_bits as nat);
        } else {
            assert(shifted & 0xffu8 == shifted) by (bit_vector);
            lemma_pow2_pos(8);
            lemma_small_mod(shifted as nat, pow2(8));
        }
    }
    (code >> START) & mask
}

/// Puts `code` in the bits `START..END`.
#[must_use]
pub fn place_bits<const START: u8, const END: u8>(code: u8) -> (bits: u8)
    requires
        START <= END,
        END <= 8,
        START < 8,
        code < pow2((END - START) as nat),
    ensures
        bits == code * pow2(START as nat),
{
    proof {
        lemma_place_bits(code as nat, START as nat, END as nat);
        lemma_u8_shl_is_mul(code, START);
    }
    code << START
}

/// What is placed below bit `end` stays below `2^end`.
proof fn lemma_place_bits(code: nat, start: nat, end: nat)
    requires
        start <= end <= 8,
        code < pow2((end - start) as nat),
    ensures
        code * pow2(start) < pow2(end) <= 256,
{
    lemma_pow2_pos(start);
    lemma_pow2_adds((end - start) as nat, start);
    lemma_mul_strict_inequality(code as int, pow2((end - start) as nat) as int, pow2(start) as int);
    lemma_low_bits_mask_values();
    lemma_pow2_pos(8);
    lemma_pow2_pos(end);
    if end < 8 {
        lemma_pow2_strictly_increases(end, 8);
    }
}

/// Bits that were placed are read back from where they were placed, and from
/// nowhere else: the bits below and above are clear.
pub proof fn law_select_undoes_place(code: nat, start: nat, end: nat)
    requires
        start <= end <= 8,
        code < pow2((end - start) as nat),
    ensures
        bits_at(code * pow2(start), start, end) == code,
        bits_at(code * pow2(start), 0, start) == 0,
        bits_at(code * pow2(start), end, 8) == 0,
{
    lemma_place_bits(code, start, end);
    lemma_pow2_pos(start);
    lemma_pow2_pos(end);
    lemma_pow2_pos((8 - end) as nat);
    lemma_div_by_multiple(code as int, pow2(start) as int);
    lemma_small_mod(code, pow2((end - start) as nat));
    lemma2_to64();
    lemma_mod_multiples_basic(code as int, pow2(start) as int);
    lemma_basic_div((code * pow2(start)) as int, pow2(end) as int);
    lemma_small_mod(0, pow2((8 - end) as nat));
}

/// Pop-front one bytes from a slice of bytes.
pub fn pop_first_byte(bytes: &mut &[u8]) -> (first_byte: Option<u8>)
    ensures
        match first_byte {
            Some(first_byte) => {
                &&& old(bytes)@.len() > 0
                &&& first_byte == old(bytes)@[0]
                &&& final(bytes)@ == old(bytes)@.skip(1)
            },
            None => old(bytes)@.len() == 0 && final(bytes)@ == old(bytes)@,
        },
{
    if bytes.is_empty() {
        return None;
    }
    let first_byte: u8 = bytes[0];
    *bytes = slice_subrange(*bytes, 1, bytes.len());
    Some(first_byte)
}

} // verus!

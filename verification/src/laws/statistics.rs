//! Laws of column statistics: how they are written, and what is read.

use crate::columnar::stats::{law_stats_roundtrip, ColumnStats, StatsReading, StatsStep};
use crate::common::decimal::to_decimal;
use crate::common::error::{Error, ErrorKind};
use crate::common::non_zero::NonZeroU64;
use crate::common::vint::{vint_encoding, VInt};
use vstd::prelude::*;

verus! {

/// The amplitude is the difference between the maximum and the minimum.
pub proof fn law_amplitude(stats: ColumnStats, amplitude: u64)
    requires
        stats.min_value <= stats.max_value,
        call_ensures(ColumnStats::amplitude, (&stats,), amplitude),
    ensures
        amplitude == stats.max_value - stats.min_value,
{
}

/// Statistics are written as four vints: the minimum, the gcd, the amplitude divided by
/// the gcd, and the number of rows.
///
/// The other outputs are those of these four numbers.
pub proof fn law_stats_bytes(
    stats: ColumnStats,
    gcd: u64,
    writer: &mut Vec<u8>,
    result: Result<(), Error>,
    min_output: &mut Vec<u8>,
    gcd_output: &mut Vec<u8>,
    quotient_output: &mut Vec<u8>,
    rows_output: &mut Vec<u8>,
)
    requires
        stats.min_value <= stats.max_value,
        call_ensures(NonZeroU64::get, (&stats.gcd,), gcd),
        call_ensures(ColumnStats::serialize, (&stats, writer), result),
        call_ensures(VInt::serialize, (&VInt(stats.min_value), min_output), Ok(())),
        (*min_output)@.len() == 0,
        call_ensures(VInt::serialize, (&VInt(gcd), gcd_output), Ok(())),
        (*gcd_output)@.len() == 0,
        call_ensures(
            VInt::serialize,
            (
                &VInt(((stats.max_value - stats.min_value) / (gcd as int)) as u64),
                quotient_output,
            ),
            Ok(()),
        ),
        (*quotient_output)@.len() == 0,
        call_ensures(VInt::serialize, (&VInt(stats.num_rows as u64), rows_output), Ok(())),
        (*rows_output)@.len() == 0,
    ensures
        result is Ok,
        (*final(writer))@ == (*old(writer))@ + (*final(min_output))@ + (*final(gcd_output))@ + (
        *final(quotient_output))@ + (*final(rows_output))@,
{
    let quotient = (stats.max_value - stats.min_value) / (gcd as int);
    assert(0 <= quotient <= u64::MAX) by (nonlinear_arith)
        requires
            gcd > 0,
            quotient == (stats.max_value - stats.min_value) / (gcd as int),
            stats.min_value <= stats.max_value,
    ;
    assert((*final(min_output))@ =~= vint_encoding(stats.min_value as nat));
    assert((*final(gcd_output))@ =~= vint_encoding(gcd as nat));
    assert((*final(quotient_output))@ =~= vint_encoding(quotient as nat));
    assert((*final(rows_output))@ =~= vint_encoding(stats.num_rows as nat));
    assert((*final(writer))@ =~= (*old(writer))@ + (*final(min_output))@ + (*final(gcd_output))@
        + (*final(quotient_output))@ + (*final(rows_output))@);
}

/// What one more number makes of a reading: it is the minimum, then the gcd, then the
/// amplitude divided by the gcd, and last the number of rows, of which 32 bits are kept. A
/// gcd of zero is refused, and so is a maximum that is not a `u64`.
///
/// The numerals are those of the minimum, the number and the gcd.
pub proof fn law_stats_step(
    reading: StatsReading,
    number: u64,
    step: Result<StatsStep, Error>,
    gcd: u64,
    next_gcd: u64,
    min_text: String,
    number_text: String,
    gcd_text: String,
)
    requires
        call_ensures(StatsReading::next, (reading, VInt(number)), step),
        reading matches StatsReading::Gcd { gcd: wrapped, .. } ==> call_ensures(
            NonZeroU64::get,
            (&wrapped,),
            gcd,
        ),
        reading matches StatsReading::Gcd { min_value, .. } ==> call_ensures(
            to_decimal,
            (min_value,),
            min_text,
        ),
        call_ensures(to_decimal, (number,), number_text),
        call_ensures(to_decimal, (gcd,), gcd_text),
        step matches Ok(StatsStep::More(StatsReading::Gcd { gcd: wrapped, .. })) ==> call_ensures(
            NonZeroU64::get,
            (&wrapped,),
            next_gcd,
        ),
    ensures
        match reading {
            StatsReading::Start => {
                &&& step matches Ok(StatsStep::More(StatsReading::Min { min_value }))
                &&& min_value == number
            },
            StatsReading::Min { min_value } => if number == 0 {
                &&& step matches Err(error)
                &&& error.kind == ErrorKind::InvalidData
                &&& error.message@ == "GCD of 0 is forbidden"@
            } else {
                &&& step matches Ok(StatsStep::More(StatsReading::Gcd { min_value: kept, .. }))
                &&& kept == min_value
                &&& next_gcd == number
            },
            StatsReading::Gcd { min_value, gcd: wrapped } => if min_value + number * gcd
                > u64::MAX {
                &&& step matches Err(error)
                &&& error.kind == ErrorKind::InvalidData
                &&& error.message@ == "column stats overflow: a minimum of "@ + min_text@
                    + " plus "@ + number_text@ + " times a gcd of "@ + gcd_text@
                    + " does not fit in a u64"@
            } else {
                &&& step matches Ok(
                    StatsStep::More(
                        StatsReading::Max { min_value: kept, gcd: kept_gcd, max_value },
                    ),
                )
                &&& kept == min_value
                &&& kept_gcd@ == wrapped@
                &&& max_value == min_value + number * gcd
            },
            StatsReading::Max { min_value, gcd: wrapped, max_value } => {
                &&& step matches Ok(StatsStep::Done(stats))
                &&& stats.min_value == min_value
                &&& stats.gcd@ == wrapped@
                &&& stats.max_value == max_value
                &&& stats.num_rows == number % 0x1_0000_0000
            },
        },
{
}

/// What is read of statistics: four vints one after the other, where each can be read.
/// These are the minimum, the gcd, the amplitude divided by the gcd, and the number of
/// rows, of which 32 bits are kept. The first of these that cannot be read puts an end to
/// it with its error, and so do a gcd of zero and a maximum that is not a `u64`.
///
/// The four other readers read these vints, each where the one before it stopped.
pub proof fn law_stats_are_read(
    reader: &mut &[u8],
    stats: Result<ColumnStats, Error>,
    first: &mut &[u8],
    second: &mut &[u8],
    third: &mut &[u8],
    fourth: &mut &[u8],
    min: Result<VInt, Error>,
    gcd: Result<VInt, Error>,
    quotient: Result<VInt, Error>,
    rows: Result<VInt, Error>,
    min_text: String,
    quotient_text: String,
    gcd_text: String,
)
    requires
        call_ensures(ColumnStats::deserialize, (reader,), stats),
        (*first)@ == (*reader)@,
        call_ensures(VInt::deserialize, (first,), min),
        (*second)@ == (*final(first))@,
        call_ensures(VInt::deserialize, (second,), gcd),
        (*third)@ == (*final(second))@,
        call_ensures(VInt::deserialize, (third,), quotient),
        (*fourth)@ == (*final(third))@,
        call_ensures(VInt::deserialize, (fourth,), rows),
        min is Ok ==> call_ensures(to_decimal, (min->Ok_0.0,), min_text),
        quotient is Ok ==> call_ensures(to_decimal, (quotient->Ok_0.0,), quotient_text),
        gcd is Ok ==> call_ensures(to_decimal, (gcd->Ok_0.0,), gcd_text),
    ensures
        match (min, gcd, quotient, rows) {
            (Err(error), _, _, _) => {
                &&& stats matches Err(reported)
                &&& reported.kind == error.kind
                &&& reported.message@ == error.message@
                &&& (*final(reader))@ == (*final(first))@
            },
            (_, Err(error), _, _) => {
                &&& stats matches Err(reported)
                &&& reported.kind == error.kind
                &&& reported.message@ == error.message@
                &&& (*final(reader))@ == (*final(second))@
            },
            (Ok(min), Ok(gcd), quotient, rows) => if gcd.0 == 0 {
                &&& stats matches Err(reported)
                &&& reported.kind == ErrorKind::InvalidData
                &&& reported.message@ == "GCD of 0 is forbidden"@
                &&& (*final(reader))@ == (*final(second))@
            } else {
                match (quotient, rows) {
                    (Err(error), _) => {
                        &&& stats matches Err(reported)
                        &&& reported.kind == error.kind
                        &&& reported.message@ == error.message@
                        &&& (*final(reader))@ == (*final(third))@
                    },
                    (Ok(quotient), rows) => if min.0 + quotient.0 * gcd.0 > u64::MAX {
                        &&& stats matches Err(reported)
                        &&& reported.kind == ErrorKind::InvalidData
                        &&& reported.message@ == "column stats overflow: a minimum of "@
                            + min_text@ + " plus "@ + quotient_text@ + " times a gcd of "@
                            + gcd_text@ + " does not fit in a u64"@
                        &&& (*final(reader))@ == (*final(third))@
                    } else {
                        match rows {
                            Err(error) => {
                                &&& stats matches Err(reported)
                                &&& reported.kind == error.kind
                                &&& reported.message@ == error.message@
                                &&& (*final(reader))@ == (*final(fourth))@
                            },
                            Ok(rows) => {
                                &&& stats matches Ok(stats)
                                &&& stats.min_value == min.0
                                &&& stats.gcd@ == gcd.0
                                &&& stats.max_value == min.0 + quotient.0 * gcd.0
                                &&& stats.num_rows == rows.0 % 0x1_0000_0000
                                &&& (*final(reader))@ == (*final(fourth))@
                            },
                        }
                    },
                }
            },
        },
{
}

/// Statistics that were written are read back, whatever follows them: the minimum, the gcd
/// and the number of rows are the same, and so is the maximum if the gcd divides the
/// amplitude; if not, it is the largest one below it of which this is true. What follows is
/// left to read.
pub proof fn law_stats_come_back(
    stats: ColumnStats,
    gcd: u64,
    writer: &mut Vec<u8>,
    result: Result<(), Error>,
    rest: Seq<u8>,
    reader: &mut &[u8],
    read: Result<ColumnStats, Error>,
    read_gcd: u64,
)
    requires
        stats.min_value <= stats.max_value,
        call_ensures(NonZeroU64::get, (&stats.gcd,), gcd),
        call_ensures(ColumnStats::serialize, (&stats, writer), result),
        (*reader)@ == (*final(writer))@.skip((*writer)@.len() as int) + rest,
        call_ensures(ColumnStats::deserialize, (reader,), read),
        read matches Ok(read) ==> call_ensures(NonZeroU64::get, (&read.gcd,), read_gcd),
    ensures
        read matches Ok(read) && {
            &&& read.min_value == stats.min_value
            &&& read_gcd == gcd
            &&& read.num_rows == stats.num_rows
            &&& read.max_value == stats.max_value - (stats.max_value - stats.min_value) % (
            gcd as int)
        },
        (*final(reader))@ == rest,
{
    assert((*final(writer))@.skip((*old(writer))@.len() as int) =~= stats@.bytes());
    law_stats_roundtrip(stats@, rest);
    let amplitude = stats.max_value - stats.min_value;
    assert(0 <= amplitude % (gcd as int) <= amplitude) by (nonlinear_arith)
        requires
            gcd > 0,
            amplitude >= 0,
    ;
}

} // verus!

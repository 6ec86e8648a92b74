//! Statistics of a column of integers.

use crate::common::decimal::{decimal, to_decimal};
use crate::common::error::{invalid_data, io_invalid_data, Error, ErrorKind, ErrorView};
use crate::common::non_zero::NonZeroU64;
use crate::common::vint::{
    law_stop_vint_roundtrip, vint_encoding, vint_read, vint_rest, VInt,
};
use vstd::arithmetic::div_mod::{
    lemma_div_nonincreasing, lemma_div_pos_is_pos, lemma_fundamental_div_mod,
    lemma_mod_decreases, lemma_mod_multiples_basic,
};
use vstd::arithmetic::mul::lemma_mul_is_commutative;
use vstd::prelude::*;
use vstd::string::StringExecFns;

verus! {

/// The number of a row.
pub type RowId = u32;

/// Column statistics.
#[derive(Debug, Clone, Copy, PartialEq, Eq)]
pub struct ColumnStats {
    /// GCD of the elements `el - min(column)`.
    pub gcd: NonZeroU64,
    /// Minimum value of the column.
    pub min_value: u64,
    /// Maximum value of the column.
    pub max_value: u64,
    /// Number of rows in the column.
    pub num_rows: RowId,
}

/// What the contracts say of column statistics.
pub struct Stats {
    pub gcd: u64,
    pub min_value: u64,
    pub max_value: u64,
    pub num_rows: RowId,
}

impl Stats {
    /// The difference between the maximum and the minimum value.
    pub open spec fn amplitude(self) -> int {
        self.max_value - self.min_value
    }

    /// Whether these can be the statistics of a column.
    pub open spec fn well_formed(self) -> bool {
        &&& self.gcd != 0
        &&& self.min_value <= self.max_value
    }

    /// Whether the gcd divides the amplitude, as the gcd of the elements does.
    pub open spec fn consistent(self) -> bool {
        &&& self.well_formed()
        &&& self.amplitude() % (self.gcd as int) == 0
    }

    /// The serialized form: the minimum, the gcd, the amplitude as a multiple of
    /// the gcd, and the number of rows.
    pub open spec fn bytes(self) -> Seq<u8> {
        vint_encoding(self.min_value as nat) + vint_encoding(self.gcd as nat) + vint_encoding(
            (self.amplitude() / (self.gcd as int)) as nat,
        ) + vint_encoding(self.num_rows as nat)
    }
}

impl View for ColumnStats {
    type V = Stats;

    open spec fn view(&self) -> Stats {
        Stats {
            gcd: self.gcd@,
            min_value: self.min_value,
            max_value: self.max_value,
            num_rows: self.num_rows,
        }
    }
}

/// What is reported of statistics whose maximum is not a `u64`.
pub open spec fn overflow_error(min_value: u64, amplitude_over_gcd: u64, gcd: u64) -> ErrorView {
    (
        ErrorKind::InvalidData,
        "column stats overflow: a minimum of "@ + decimal(min_value as nat) + " plus "@ + decimal(
            amplitude_over_gcd as nat,
        ) + " times a gcd of "@ + decimal(gcd as nat) + " does not fit in a u64"@,
    )
}

/// What reading statistics from the start of `data` returns.
pub open spec fn stats_read(data: Seq<u8>) -> Result<Stats, ErrorView> {
    let after_min = vint_rest(data);
    let after_gcd = vint_rest(after_min);
    let after_amplitude = vint_rest(after_gcd);
    match vint_read(data) {
        Err(error) => Err(error),
        Ok(min_value) => match vint_read(after_min) {
            Err(error) => Err(error),
            Ok(gcd) => if gcd.0 == 0 {
                Err((ErrorKind::InvalidData, "GCD of 0 is forbidden"@))
            } else {
                match vint_read(after_gcd) {
                    Err(error) => Err(error),
                    Ok(amplitude_over_gcd) => if min_value.0 + amplitude_over_gcd.0 * gcd.0
                        > u64::MAX {
                        Err(overflow_error(min_value.0, amplitude_over_gcd.0, gcd.0))
                    } else {
                        match vint_read(after_amplitude) {
                            Err(error) => Err(error),
                            Ok(num_rows) => Ok(
                                Stats {
                                    gcd: gcd.0,
                                    min_value: min_value.0,
                                    max_value: (min_value.0 + amplitude_over_gcd.0
                                        * gcd.0) as u64,
                                    num_rows: (num_rows.0 % 0x1_0000_0000) as u32,
                                },
                            ),
                        }
                    },
                }
            },
        },
    }
}

/// What is left of `data` after reading statistics from its start: a read that
/// fails stops behind the number at which it fails.
pub open spec fn stats_rest(data: Seq<u8>) -> Seq<u8> {
    let after_min = vint_rest(data);
    let after_gcd = vint_rest(after_min);
    let after_amplitude = vint_rest(after_gcd);
    match (vint_read(data), vint_read(after_min), vint_read(after_gcd)) {
        (Err(_), _, _) => after_min,
        (_, Err(_), _) => after_gcd,
        (Ok(min_value), Ok(gcd), amplitude_over_gcd) => if gcd.0 == 0 {
            after_gcd
        } else {
            match amplitude_over_gcd {
                Err(_) => after_amplitude,
                Ok(amplitude_over_gcd) => if min_value.0 + amplitude_over_gcd.0 * gcd.0
                    > u64::MAX {
                    after_amplitude
                } else {
                    vint_rest(after_amplitude)
                },
            }
        },
    }
}

/// What serialized statistics read back as: the same minimum, gcd and number of
/// rows, and the largest maximum at a multiple of the gcd from the minimum.
/// Nothing but the serialized form is consumed.
pub proof fn law_stats_roundtrip(stats: Stats, rest: Seq<u8>)
    requires
        stats.well_formed(),
    ensures
        stats_read(stats.bytes() + rest) == Ok::<Stats, ErrorView>(
            Stats {
                max_value: (stats.max_value - stats.amplitude() % (stats.gcd as int)) as u64,
                ..stats
            },
        ),
        stats_rest(stats.bytes() + rest) == rest,
{
    let quotient = (stats.amplitude() / (stats.gcd as int)) as u64;
    lemma_quotient(stats.amplitude(), stats.gcd as int);
    lemma_numbers_read(stats.min_value, stats.gcd, quotient, stats.num_rows, rest);
    assert(stats.bytes() == numbers_bytes(stats.min_value, stats.gcd, quotient, stats.num_rows));
}

/// The four numbers of serialized statistics.
spec fn numbers_bytes(min_value: u64, gcd: u64, quotient: u64, num_rows: u32) -> Seq<u8> {
    vint_encoding(min_value as nat) + vint_encoding(gcd as nat) + vint_encoding(quotient as nat)
        + vint_encoding(num_rows as nat)
}

/// What the four numbers are read as.
proof fn lemma_numbers_read(
    min_value: u64,
    gcd: u64,
    quotient: u64,
    num_rows: u32,
    rest: Seq<u8>,
)
    requires
        gcd != 0,
        min_value + quotient * gcd <= u64::MAX,
    ensures
        ({
            let data = numbers_bytes(min_value, gcd, quotient, num_rows) + rest;
            let max_value = (min_value + quotient * gcd) as u64;
            &&& stats_read(data) == Ok::<Stats, ErrorView>(
                Stats { gcd, min_value, max_value, num_rows },
            )
            &&& stats_rest(data) == rest
        }),
{
    let data = numbers_bytes(min_value, gcd, quotient, num_rows) + rest;
    let after_amplitude = vint_encoding(num_rows as nat) + rest;
    let after_gcd = vint_encoding(quotient as nat) + after_amplitude;
    let after_min = vint_encoding(gcd as nat) + after_gcd;
    assert(data =~= vint_encoding(min_value as nat) + after_min);
    law_stop_vint_roundtrip(min_value, after_min);
    law_stop_vint_roundtrip(gcd, after_gcd);
    law_stop_vint_roundtrip(quotient, after_amplitude);
    law_stop_vint_roundtrip(num_rows as u64, rest);
}

/// A quotient, scaled back up.
proof fn lemma_quotient(amplitude: int, gcd: int)
    requires
        0 <= amplitude,
        0 < gcd,
    ensures
        0 <= amplitude / gcd <= amplitude,
        amplitude / gcd * gcd == amplitude - amplitude % gcd,
        0 <= amplitude % gcd <= amplitude,
{
    lemma_fundamental_div_mod(amplitude, gcd);
    lemma_div_pos_is_pos(amplitude, gcd);
    lemma_div_nonincreasing(amplitude, gcd);
    lemma_mul_is_commutative(gcd, amplitude / gcd);
    lemma_mod_decreases(amplitude as nat, gcd as nat);
}

/// Statistics whose gcd divides the amplitude come back as they were.
pub proof fn law_consistent_stats_roundtrip(stats: Stats, rest: Seq<u8>)
    requires
        stats.consistent(),
    ensures
        stats_read(stats.bytes() + rest) == Ok::<Stats, ErrorView>(stats),
        stats_rest(stats.bytes() + rest) == rest,
{
    law_stats_roundtrip(stats, rest);
}

/// Whatever bytes they are read from, statistics that were read are consistent:
/// the gcd is not zero, the maximum is not below the minimum, and the gcd divides
/// the amplitude.
pub proof fn law_read_stats_are_consistent(data: Seq<u8>)
    ensures
        stats_read(data) matches Ok(stats) ==> stats.consistent(),
{
    if let Ok(stats) = stats_read(data) {
        let gcd = stats.gcd as int;
        let amplitude_over_gcd = vint_read(vint_rest(vint_rest(data)))->Ok_0.0 as int;
        assert(amplitude_over_gcd * gcd >= 0) by (nonlinear_arith)
            requires
                amplitude_over_gcd >= 0,
                gcd >= 0,
        ;
        lemma_mod_multiples_basic(amplitude_over_gcd, gcd);
    }
}

impl ColumnStats {
    /// Amplitude of value.
    /// Difference between the maximum and the minimum value.
    pub fn amplitude(&self) -> (amplitude: u64)
        requires
            self@.min_value <= self@.max_value,
        ensures
            amplitude == self@.amplitude(),
    {
        self.max_value - self.min_value
    }

    /// Appends the serialized form to `writer`.
    pub fn serialize(&self, writer: &mut Vec<u8>) -> (result: Result<(), Error>)
        requires
            self@.min_value <= self@.max_value,
        ensures
            result is Ok,
            final(writer)@ == old(writer)@ + self@.bytes(),
    {
        let gcd: u64 = self.gcd.get();
        VInt(self.min_value).serialize(writer)?;
        VInt(gcd).serialize(writer)?;
        VInt(self.amplitude() / gcd).serialize(writer)?;
        VInt(self.num_rows as u64).serialize(writer)?;
        assert(writer@ =~= old(writer)@ + self@.bytes());
        Ok(())
    }

    /// Reads the statistics at the start of `reader` and moves `reader` past them.
    pub fn deserialize(reader: &mut &[u8]) -> (stats: Result<ColumnStats, Error>)
        ensures
            match stats {
                Ok(stats) => stats_read(old(reader)@) == Ok::<Stats, ErrorView>(stats@),
                Err(error) => stats_read(old(reader)@) == Err::<Stats, ErrorView>(error@),
            },
            final(reader)@ == stats_rest(old(reader)@),
    {
        let ghost data = reader@;
        let mut reading: StatsReading = StatsReading::Start;
        loop
            invariant
                data == old(reader)@,
                reading_reached(reading@, data, reader@),
            decreases reading@.numbers_left(),
        {
            let number: VInt = VInt::deserialize(reader)?;
            match reading.next(number)? {
                StatsStep::More(next) => {
                    reading = next;
                },
                StatsStep::Done(stats) => {
                    return Ok(stats);
                },
            }
        }
    }
}

/// How far the reading of statistics, number by number, has come.
#[derive(Debug, Clone, Copy)]
pub enum StatsReading {
    /// Nothing was read.
    Start,
    /// The minimum was read.
    Min { min_value: u64 },
    /// The minimum and the gcd were read.
    Gcd { min_value: u64, gcd: NonZeroU64 },
    /// All but the number of rows was read.
    Max { min_value: u64, gcd: NonZeroU64, max_value: u64 },
}

/// What one more number gives: statistics, or a reading that is to go on.
#[derive(Debug, Clone, Copy)]
pub enum StatsStep {
    /// More numbers are to be read.
    More(StatsReading),
    /// The statistics are complete.
    Done(ColumnStats),
}

/// What the contracts say of a [`StatsReading`].
pub enum Reading {
    Start,
    Min { min_value: u64 },
    Gcd { min_value: u64, gcd: u64 },
    Max { min_value: u64, gcd: u64, max_value: u64 },
}

/// What the contracts say of a [`StatsStep`].
pub enum Step {
    More(Reading),
    Done(Stats),
}

impl View for StatsReading {
    type V = Reading;

    open spec fn view(&self) -> Reading {
        match self {
            StatsReading::Start => Reading::Start,
            StatsReading::Min { min_value } => Reading::Min { min_value: *min_value },
            StatsReading::Gcd { min_value, gcd } => Reading::Gcd {
                min_value: *min_value,
                gcd: gcd@,
            },
            StatsReading::Max { min_value, gcd, max_value } => Reading::Max {
                min_value: *min_value,
                gcd: gcd@,
                max_value: *max_value,
            },
        }
    }
}

impl View for StatsStep {
    type V = Step;

    open spec fn view(&self) -> Step {
        match self {
            StatsStep::More(reading) => Step::More(reading@),
            StatsStep::Done(stats) => Step::Done(stats@),
        }
    }
}

impl Reading {
    /// The number of numbers that are yet to be read.
    pub open spec fn numbers_left(self) -> nat {
        match self {
            Reading::Start => 4,
            Reading::Min { .. } => 3,
            Reading::Gcd { .. } => 2,
            Reading::Max { .. } => 1,
        }
    }

    /// What `number` makes of this reading.
    pub open spec fn next(self, number: u64) -> Result<Step, ErrorView> {
        match self {
            Reading::Start => Ok(Step::More(Reading::Min { min_value: number })),
            Reading::Min { min_value } => if number == 0 {
                Err((ErrorKind::InvalidData, "GCD of 0 is forbidden"@))
            } else {
                Ok(Step::More(Reading::Gcd { min_value, gcd: number }))
            },
            Reading::Gcd { min_value, gcd } => if min_value + number * gcd > u64::MAX {
                Err(overflow_error(min_value, number, gcd))
            } else {
                let max_value = (min_value + number * gcd) as u64;
                Ok(Step::More(Reading::Max { min_value, gcd, max_value }))
            },
            Reading::Max { min_value, gcd, max_value } => Ok(
                Step::Done(
                    Stats { gcd, min_value, max_value, num_rows: (number % 0x1_0000_0000) as u32 },
                ),
            ),
        }
    }
}

/// Whether reading numbers from the start of `data` has come to `reading` and left
/// `rest`.
spec fn reading_reached(reading: Reading, data: Seq<u8>, rest: Seq<u8>) -> bool {
    let after_min = vint_rest(data);
    let after_gcd = vint_rest(after_min);
    match reading {
        Reading::Start => rest == data,
        Reading::Min { min_value } => {
            &&& rest == after_min
            &&& vint_read(data) == Ok::<VInt, ErrorView>(VInt(min_value))
        },
        Reading::Gcd { min_value, gcd } => {
            &&& rest == after_gcd
            &&& gcd != 0
            &&& vint_read(data) == Ok::<VInt, ErrorView>(VInt(min_value))
            &&& vint_read(after_min) == Ok::<VInt, ErrorView>(VInt(gcd))
        },
        Reading::Max { min_value, gcd, max_value } => {
            &&& rest == vint_rest(after_gcd)
            &&& gcd != 0
            &&& vint_read(data) == Ok::<VInt, ErrorView>(VInt(min_value))
            &&& vint_read(after_min) == Ok::<VInt, ErrorView>(VInt(gcd))
            &&& vint_read(after_gcd) matches Ok(amplitude_over_gcd)
            &&& max_value == min_value + amplitude_over_gcd.0 * gcd
        },
    }
}

impl StatsReading {
    /// Takes one more number of serialized statistics.
    pub fn next(self, number: VInt) -> (step: Result<StatsStep, Error>)
        ensures
            match step {
                Ok(step) => self@.next(number.0) == Ok::<Step, ErrorView>(step@),
                Err(error) => self@.next(number.0) == Err::<Step, ErrorView>(error@),
            },
    {
        match self {
            StatsReading::Start => Ok(StatsStep::More(StatsReading::Min { min_value: number.0 })),
            StatsReading::Min { min_value } => match NonZeroU64::new(number.0) {
                Some(gcd) => Ok(StatsStep::More(StatsReading::Gcd { min_value, gcd })),
                None => Err(invalid_data("GCD of 0 is forbidden")),
            },
            // The amplitude and the minimum are both read from the file, so their
            // product and sum are not bounded by anything the writer did: a column
            // claiming an amplitude that overflows a u64 is corrupt.
            StatsReading::Gcd { min_value, gcd } => match checked_max(
                min_value,
                number.0,
                gcd.get(),
            ) {
                Some(max_value) => Ok(
                    StatsStep::More(StatsReading::Max { min_value, gcd, max_value }),
                ),
                None => Err(stats_overflow(min_value, number.0, gcd.get())),
            },
            StatsReading::Max { min_value, gcd, max_value } => Ok(
                StatsStep::Done(
                    ColumnStats {
                        min_value,
                        max_value,
                        num_rows: (number.0 % 0x1_0000_0000) as RowId,
                        gcd,
                    },
                ),
            ),
        }
    }
}

/// `min_value + amplitude_over_gcd * gcd`, if that is a `u64`.
fn checked_max(min_value: u64, amplitude_over_gcd: u64, gcd: u64) -> (max_value: Option<u64>)
    ensures
        match max_value {
            Some(max_value) => max_value == min_value + amplitude_over_gcd * gcd,
            None => min_value + amplitude_over_gcd * gcd > u64::MAX,
        },
{
    match amplitude_over_gcd.checked_mul(gcd) {
        Some(amplitude) => min_value.checked_add(amplitude),
        None => None,
    }
}

fn stats_overflow(min_value: u64, amplitude_over_gcd: u64, gcd: u64) -> (error: Error)
    ensures
        error@ == overflow_error(min_value, amplitude_over_gcd, gcd),
{
    let mut message: String = "column stats overflow: a minimum of ".to_owned();
    message.append(to_decimal(min_value).as_str());
    message.append(" plus ");
    message.append(to_decimal(amplitude_over_gcd).as_str());
    message.append(" times a gcd of ");
    message.append(to_decimal(gcd).as_str());
    message.append(" does not fit in a u64");
    io_invalid_data(message)
}

} // verus!

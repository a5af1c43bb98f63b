//! How fast a machine reads weights: exact figures of any size, and the speeds
//! that follow from them.
use vstd::arithmetic::div_mod::{lemma_fundamental_div_mod, lemma_hoist_over_denominator};
use vstd::prelude::*;

use crate::catalog::Gigabytes;

verus! {

/// One byte per second, in the unit of a [`Throughput`].
pub const BYTE_PER_SEC: u128 = 72_057_594_037_927_936;

/// One gigabyte per second, in the unit of a [`Throughput`].
pub const GB_PER_SEC: u128 = 77_371_252_455_336_267_181_195_264;

/// Weights read per second, as a fixed-point number of two words: whole
/// gigabytes per second, and what is over.
#[derive(Debug, Clone, Copy, PartialEq, Eq)]
pub struct Throughput {
    whole: u128,
    part: u128,
}

impl View for Throughput {
    type V = int;

    closed spec fn view(&self) -> int {
        self.whole * GB_PER_SEC + self.part
    }
}

impl DeepView for Throughput {
    type V = int;

    open spec fn deep_view(&self) -> int {
        self@
    }
}

/// The units that were read per second when `count` tokens of a model of
/// `size_bytes` took `duration_ns` nanoseconds, rounded down.
pub open spec fn sample(size_bytes: u64, count: u64, duration_ns: u64) -> int {
    (size_bytes * count * 1_000_000_000 * BYTE_PER_SEC) / duration_ns as int
}

/// A figure into which a sample is folded with a weight of three tenths, rounded
/// down.
pub open spec fn smoothed(figure: int, sample: int) -> int {
    (figure * 7 + sample * 3) / 10
}

/// Long division: a multiple of a dividend whose quotient and remainder are
/// known.
proof fn lemma_scaled_quotient(d: int, quotient: int, rest: int, scale: int)
    requires
        0 <= rest < d,
        scale > 0,
    ensures
        ((d * quotient + rest) * scale) / d == quotient * scale + (rest * scale) / d,
        0 <= (rest * scale) / d < scale,
{
    lemma_hoist_over_denominator(rest * scale, quotient * scale, d as nat);
    assert((d * quotient + rest) * scale == rest * scale + (quotient * scale) * d)
        by (nonlinear_arith);
    assert(0 <= (rest * scale) / d < scale) by (nonlinear_arith)
        requires
            0 <= rest < d,
            scale > 0,
    ;
}

impl Throughput {
    #[verifier::type_invariant]
    spec fn well_formed(self) -> bool {
        self.part < GB_PER_SEC
    }

    /// The figure of a number of units.
    pub fn from_units(units: u128) -> (r: Throughput)
        ensures
            r@ == units,
    {
        Throughput { whole: units / GB_PER_SEC, part: units % GB_PER_SEC }
    }

    /// The whole gigabytes per second, and the units that are over.
    pub fn words(&self) -> (r: (u128, u128))
        ensures
            r.0 * GB_PER_SEC + r.1 == self@,
            r.1 < GB_PER_SEC,
    {
        proof {
            use_type_invariant(self);
        }
        (self.whole, self.part)
    }

    /// What a generation measures.
    pub fn measure(size_bytes: u64, count: u64, duration_ns: u64) -> (r: Throughput)
        requires
            duration_ns > 0,
        ensures
            r@ == sample(size_bytes, count, duration_ns),
    {
        assert(size_bytes * count <= u64::MAX * u64::MAX) by (nonlinear_arith)
            requires
                size_bytes <= u64::MAX,
                count <= u64::MAX,
        ;
        let product: u128 = size_bytes as u128 * count as u128;
        let duration: u128 = duration_ns as u128;
        let per_ns: u128 = product / duration;
        let over: u128 = product % duration * 1_000_000_000;
        let bytes: u128 = per_ns % 1_073_741_824 * 1_000_000_000 + over / duration;
        let rest: u128 = over % duration;
        let units: u128 = rest * BYTE_PER_SEC / duration;
        proof {
            let d = duration as int;
            lemma_fundamental_div_mod(product as int, d);
            lemma_fundamental_div_mod(over as int, d);
            assert(0 <= over as int / d < 1_000_000_000) by (nonlinear_arith)
                requires
                    0 <= over < d * 1_000_000_000,
                    d > 0,
            ;
            let all = per_ns * 1_000_000_000 + over as int / d;
            assert(product * 1_000_000_000 == d * all + rest) by (nonlinear_arith)
                requires
                    product == d * per_ns + product as int % d,
                    over == product as int % d * 1_000_000_000,
                    over == d * (over as int / d) + rest,
                    all == per_ns * 1_000_000_000 + over as int / d,
            ;
            lemma_scaled_quotient(d, all, rest as int, BYTE_PER_SEC as int);
            assert(sample(size_bytes, count, duration_ns) == all * BYTE_PER_SEC + units);
        }
        Throughput {
            whole: per_ns / 1_073_741_824 * 1_000_000_000 + bytes / 1_073_741_824,
            part: bytes % 1_073_741_824 * BYTE_PER_SEC + units,
        }
    }

    /// Folds a sample into the figure, with a weight of three tenths.
    pub fn smooth(&self, sample: &Throughput) -> (r: Throughput)
        ensures
            r@ == smoothed(self@, sample@),
    {
        proof {
            use_type_invariant(self);
            use_type_invariant(sample);
        }
        let over: u128 = self.whole % 10 * 7 + sample.whole % 10 * 3;
        let whole: u128 = self.whole / 10 * 7 + sample.whole / 10 * 3 + over / 10;
        let units: u128 = (over % 10 * GB_PER_SEC + self.part * 7 + sample.part * 3) / 10;
        proof {
            let most = if self.whole < sample.whole {
                sample.whole
            } else {
                self.whole
            };
            assert(smoothed(self@, sample@) == whole * GB_PER_SEC + units);
            assert(smoothed(self@, sample@) < (most + 1) * GB_PER_SEC);
        }
        Throughput { whole: whole + units / GB_PER_SEC, part: units % GB_PER_SEC }
    }
}

/// The speed of a model, as the quotient of what the machine reads per second
/// and what the model reads per token.
#[derive(Debug, Clone, Copy, PartialEq, Eq)]
pub struct Speed {
    pub throughput: Throughput,
    pub active_size_gb: Gigabytes,
}

/// What a [`Speed`] says.
pub struct SpeedView {
    pub throughput: int,
    pub active_size_gb: u128,
}

impl View for Speed {
    type V = SpeedView;

    open spec fn view(&self) -> SpeedView {
        SpeedView { throughput: self.throughput@, active_size_gb: self.active_size_gb }
    }
}

impl DeepView for Speed {
    type V = SpeedView;

    open spec fn deep_view(&self) -> SpeedView {
        self@
    }
}

/// The least speed, in tokens per second, at which a model is worth offering.
pub const MIN_USABLE_TOKENS_PER_SEC: u128 = 5;

impl SpeedView {
    /// Whether the speed is at least `tokens` per second. A hundredth of a byte
    /// is the unit of a size.
    pub open spec fn reaches(self, tokens: int) -> bool {
        self.throughput * 100 >= tokens * self.active_size_gb * BYTE_PER_SEC
    }
}

/// Whether a speed is enough for a model to be worth offering.
pub fn is_usable(speed: &Speed) -> (r: bool)
    ensures
        r == speed@.reaches(MIN_USABLE_TOKENS_PER_SEC as int),
{
    let (whole, part) = speed.throughput.words();
    // Five tokens a second need no more than this many gigabytes a second, and
    // this many units of a size over.
    let size_per_gb: u128 = 21_474_836_480;
    let enough: u128 = speed.active_size_gb / size_per_gb;
    let over: u128 = speed.active_size_gb % size_per_gb;
    whole > enough || (whole == enough && part * 20 / BYTE_PER_SEC >= over)
}

/// Folding a sample in leaves the figure between where it was and the sample,
/// and nearer to where it was, up to the rounding.
pub proof fn law_smoothing_stays_between(figure: int, sample: int)
    ensures
        figure <= sample ==> figure <= smoothed(figure, sample) <= sample,
        sample <= figure ==> sample <= smoothed(figure, sample) <= figure,
        figure <= sample ==> smoothed(figure, sample) - figure <= sample - smoothed(figure, sample),
        sample <= figure ==> figure - smoothed(figure, sample) <= smoothed(figure, sample) - sample
            + 2,
{
}

/// A measurement is the bytes read over the seconds that it took, rounded down to
/// a unit, of which a byte per second has 2^56 and a gigabyte per second 2^86.
pub proof fn law_measurements_are_bytes_over_seconds(
    size_bytes: u64,
    count: u64,
    duration_ns: u64,
)
    requires
        duration_ns > 0,
    ensures
        ({
            let units = size_bytes * count * 1_000_000_000 * 72_057_594_037_927_936;
            let measured = sample(size_bytes, count, duration_ns);
            measured * duration_ns <= units < measured * duration_ns + duration_ns
        }),
        BYTE_PER_SEC == 72_057_594_037_927_936,
        GB_PER_SEC == 1_073_741_824 * BYTE_PER_SEC,
{
    let units = size_bytes * count * 1_000_000_000 * BYTE_PER_SEC;
    let d = duration_ns as int;
    lemma_fundamental_div_mod(units, d);
    assert(d * (units / d) == (units / d) * d) by (nonlinear_arith);
}

/// A sample counts three tenths, and the figure that was there seven.
pub proof fn law_samples_count_three_tenths(figure: int, sample: int)
    ensures
        10 * smoothed(figure, sample) <= 7 * figure + 3 * sample < 10 * smoothed(figure, sample)
            + 10,
{
}

/// A speed is at least so many tokens per second exactly where so many times what
/// is read per token, in hundredths of a byte, is no more than what is read per
/// second.
pub proof fn law_speeds_are_what_is_read_over_what_a_token_reads(speed: SpeedView, tokens: int)
    ensures
        speed.reaches(tokens) <==> tokens * speed.active_size_gb * 72_057_594_037_927_936
            <= speed.throughput * 100,
        MIN_USABLE_TOKENS_PER_SEC == 5,
{
}

} // verus!

//! Hash-rate monitor: a bounded window of samples with rolling statistics,
//! extremes and drop alerts. Rates are whole hashes per second.

use crate::arith::{
    is_floor_sqrt,
    isqrt,
    lemma_quotient_at_most,
    mul_div_saturating,
    saturating_quotient,
};
use crate::ratio::Ratio;
use crate::text::{decimal, fixed2, join, render_decimal, render_fixed2};
use crate::types::{elapsed, elapsed_between, Nanos, Timestamp, NANOS_PER_SEC};
use std::collections::VecDeque;
use vstd::prelude::*;
use vstd::string::*;

verus! {

/// Hashes that one accepted share of difficulty one stands for: 2^32.
pub const HASHES_PER_DIFFICULTY: u64 = 4_294_967_296;

/// The rate of `hashes` hashes in `duration`: hashes per second, rounded down
/// and capped at `u64::MAX`; zero for a zero duration.
pub open spec fn rate_of(hashes: u64, duration: Nanos) -> u64 {
    saturating_quotient((hashes * NANOS_PER_SEC) as nat, duration as nat)
}

/// Hash rate sample.
#[derive(Debug, Clone, Copy)]
pub struct HashRateSample {
    /// When the sample was taken.
    pub timestamp: Timestamp,
    /// Hashes since the last sample.
    pub hashes: u64,
    /// Time since the last sample.
    pub duration: Nanos,
}

impl HashRateSample {
    /// The rate of the sample in hashes per second.
    pub open spec fn rate(&self) -> u64 {
        rate_of(self.hashes, self.duration)
    }

    /// Whether the rate of the sample is above zero: hashes were counted over
    /// some time. The whole hashes per second may still be zero.
    pub open spec fn positive(&self) -> bool {
        self.hashes > 0 && self.duration > 0
    }

    /// Whether the rate of the sample is above zero.
    pub fn is_positive(&self) -> (r: bool)
        ensures
            r == self.positive(),
    {
        self.hashes > 0 && self.duration > 0
    }

    /// The rate of the sample in hashes per second; zero for a zero duration.
    pub fn hash_rate(&self) -> (r: u64)
        ensures
            r == self.rate(),
    {
        mul_div_saturating(self.hashes as u128, NANOS_PER_SEC, self.duration)
    }
}

/// Hash rate statistics, rates in hashes per second.
#[derive(Debug, Clone, Copy)]
pub struct HashRateStats {
    /// Rate of the newest sample.
    pub current: u64,
    /// Mean of the sample rates.
    pub average: u64,
    /// Highest rate seen.
    pub peak: u64,
    /// Lowest rate seen of a sample with a rate above zero.
    pub minimum: u64,
    /// Standard deviation of the sample rates.
    pub std_dev: u64,
    /// Hashes of the retained samples.
    pub total_hashes: u128,
    /// Time from the oldest to the newest retained sample.
    pub monitoring_duration: Nanos,
    /// Number of retained samples.
    pub sample_count: usize,
}

impl Default for HashRateStats {
    fn default() -> (r: Self)
        ensures
            r == (HashRateStats {
                current: 0,
                average: 0,
                peak: 0,
                minimum: 0,
                std_dev: 0,
                total_hashes: 0,
                monitoring_duration: 0,
                sample_count: 0,
            }),
    {
        HashRateStats {
            current: 0,
            average: 0,
            peak: 0,
            minimum: 0,
            std_dev: 0,
            total_hashes: 0,
            monitoring_duration: 0,
            sample_count: 0,
        }
    }
}

/// Hash rate display units.
#[derive(Debug, Clone, Copy, PartialEq, Eq, Structural)]
pub enum HashRateUnit {
    /// Hashes per second.
    HashPerSec,
    /// Kilohashes per second.
    KiloHashPerSec,
    /// Megahashes per second.
    MegaHashPerSec,
    /// Gigahashes per second.
    GigaHashPerSec,
    /// Terahashes per second.
    TeraHashPerSec,
}

/// The unit that displays a rate best: the largest whose size the rate reaches.
pub open spec fn unit_for(hash_rate: u64) -> HashRateUnit {
    if hash_rate >= 1_000_000_000_000 {
        HashRateUnit::TeraHashPerSec
    } else if hash_rate >= 1_000_000_000 {
        HashRateUnit::GigaHashPerSec
    } else if hash_rate >= 1_000_000 {
        HashRateUnit::MegaHashPerSec
    } else if hash_rate >= 1_000 {
        HashRateUnit::KiloHashPerSec
    } else {
        HashRateUnit::HashPerSec
    }
}

impl HashRateUnit {
    /// Hashes per second in one of this unit.
    pub open spec fn size(self) -> u64 {
        match self {
            HashRateUnit::HashPerSec => 1,
            HashRateUnit::KiloHashPerSec => 1_000,
            HashRateUnit::MegaHashPerSec => 1_000_000,
            HashRateUnit::GigaHashPerSec => 1_000_000_000,
            HashRateUnit::TeraHashPerSec => 1_000_000_000_000,
        }
    }

    /// The suffix of this unit.
    pub open spec fn spec_suffix(self) -> Seq<char> {
        match self {
            HashRateUnit::HashPerSec => "H/s"@,
            HashRateUnit::KiloHashPerSec => "KH/s"@,
            HashRateUnit::MegaHashPerSec => "MH/s"@,
            HashRateUnit::GigaHashPerSec => "GH/s"@,
            HashRateUnit::TeraHashPerSec => "TH/s"@,
        }
    }

    /// Hashes per second in one of this unit.
    pub fn divisor(&self) -> (r: u64)
        ensures
            r == self.size(),
    {
        match self {
            HashRateUnit::HashPerSec => 1,
            HashRateUnit::KiloHashPerSec => 1_000,
            HashRateUnit::MegaHashPerSec => 1_000_000,
            HashRateUnit::GigaHashPerSec => 1_000_000_000,
            HashRateUnit::TeraHashPerSec => 1_000_000_000_000,
        }
    }

    /// A rate in hashes per second as a fraction of this unit.
    pub fn convert(&self, hash_rate: u64) -> (r: Ratio)
        ensures
            r == (Ratio { numerator: hash_rate as u128, denominator: self.size() as u128 }),
    {
        Ratio { numerator: hash_rate as u128, denominator: self.divisor() as u128 }
    }

    /// The suffix of this unit.
    pub fn suffix(&self) -> (r: &'static str)
        ensures
            r@ == self.spec_suffix(),
    {
        match self {
            HashRateUnit::HashPerSec => "H/s",
            HashRateUnit::KiloHashPerSec => "KH/s",
            HashRateUnit::MegaHashPerSec => "MH/s",
            HashRateUnit::GigaHashPerSec => "GH/s",
            HashRateUnit::TeraHashPerSec => "TH/s",
        }
    }

    /// The unit that displays a rate best.
    pub fn auto_select(hash_rate: u64) -> (r: Self)
        ensures
            r == unit_for(hash_rate),
    {
        if hash_rate >= 1_000_000_000_000 {
            HashRateUnit::TeraHashPerSec
        } else if hash_rate >= 1_000_000_000 {
            HashRateUnit::GigaHashPerSec
        } else if hash_rate >= 1_000_000 {
            HashRateUnit::MegaHashPerSec
        } else if hash_rate >= 1_000 {
            HashRateUnit::KiloHashPerSec
        } else {
            HashRateUnit::HashPerSec
        }
    }
}

/// A rate in hundredths of a unit, rounded to the nearest, halves up.
pub open spec fn hundredths_of(hash_rate: u64, unit: HashRateUnit) -> nat {
    ((hash_rate * 100 + unit.size() / 2) / (unit.size() as int)) as nat
}

/// The display text of a rate: its value in the best unit with two decimal
/// places, a space, and the unit's suffix.
pub open spec fn formatted_rate(hash_rate: u64) -> Seq<char> {
    fixed2(hundredths_of(hash_rate, unit_for(hash_rate))) + seq![' '] + unit_for(
        hash_rate,
    ).spec_suffix()
}

/// Monitor configuration.
#[derive(Debug, Clone, Copy)]
pub struct HashRateMonitorConfig {
    /// Least time between two samples.
    pub sample_interval: Nanos,
    /// Maximum number of samples to keep.
    pub max_samples: usize,
    /// Number of samples in the moving average.
    pub moving_average_window: usize,
    /// Drop below the average that raises an alert, in basis points of the average.
    pub alert_threshold_basis_points: u32,
    /// Least number of samples for alerts.
    pub min_samples_for_stats: usize,
}

impl Default for HashRateMonitorConfig {
    fn default() -> (r: Self)
        ensures
            r == (HashRateMonitorConfig {
                sample_interval: NANOS_PER_SEC,
                max_samples: 3600,
                moving_average_window: 60,
                alert_threshold_basis_points: 2000,
                min_samples_for_stats: 10,
            }),
    {
        HashRateMonitorConfig {
            sample_interval: NANOS_PER_SEC,
            max_samples: 3600,
            moving_average_window: 60,
            alert_threshold_basis_points: 2000,
            min_samples_for_stats: 10,
        }
    }
}

/// Alert types.
#[derive(Debug, Clone, Copy, PartialEq, Eq, Structural)]
pub enum AlertType {
    /// Hash rate dropped significantly.
    HashRateDrop,
    /// Hash rate spike.
    HashRateSpike,
    /// Hardware temperature warning.
    TemperatureWarning,
    /// Hardware error.
    HardwareError,
}

/// Alert information.
#[derive(Debug)]
pub struct Alert {
    /// When the alert occurred.
    pub timestamp: Timestamp,
    /// Alert type.
    pub alert_type: AlertType,
    /// Alert message.
    pub message: String,
    /// Value that triggered the alert.
    pub value: u64,
    /// Threshold that the value fell below.
    pub threshold: u64,
}

impl Clone for Alert {
    fn clone(&self) -> (r: Self)
        ensures
            r == *self,
    {
        Alert {
            timestamp: self.timestamp,
            alert_type: self.alert_type,
            message: self.message.clone(),
            value: self.value,
            threshold: self.threshold,
        }
    }
}

// ---------------------------------------------------------------------------
// Statistics of a sequence of samples
// ---------------------------------------------------------------------------

/// The sum of the sample rates.
pub open spec fn rate_sum(samples: Seq<HashRateSample>) -> nat
    decreases samples.len(),
{
    if samples.len() == 0 {
        0
    } else {
        rate_sum(samples.drop_last()) + samples.last().rate() as nat
    }
}

/// The sum of the sample hash counts.
pub open spec fn hashes_sum(samples: Seq<HashRateSample>) -> nat
    decreases samples.len(),
{
    if samples.len() == 0 {
        0
    } else {
        hashes_sum(samples.drop_last()) + samples.last().hashes as nat
    }
}

/// The mean of the sample rates, rounded down; zero without samples.
pub open spec fn mean_rate(samples: Seq<HashRateSample>) -> nat {
    if samples.len() == 0 {
        0
    } else {
        rate_sum(samples) / samples.len()
    }
}

/// The sum of the squared distances of the sample rates from `center`.
pub open spec fn deviation_sum(samples: Seq<HashRateSample>, center: int) -> nat
    decreases samples.len(),
{
    if samples.len() == 0 {
        0
    } else {
        (deviation_sum(samples.drop_last(), center) + (samples.last().rate() - center) * (
        samples.last().rate() - center)) as nat
    }
}

/// The population variance of the sample rates about their mean, rounded down.
pub open spec fn variance(samples: Seq<HashRateSample>) -> nat {
    if samples.len() == 0 {
        0
    } else {
        deviation_sum(samples, mean_rate(samples) as int) / samples.len()
    }
}

/// The newest `count` samples, or all of them if there are fewer.
pub open spec fn newest(samples: Seq<HashRateSample>, count: nat) -> Seq<HashRateSample> {
    if count >= samples.len() {
        samples
    } else {
        samples.subrange(samples.len() - count, samples.len() as int)
    }
}

/// The time from the oldest to the newest sample.
pub open spec fn span(samples: Seq<HashRateSample>) -> Nanos {
    if samples.len() == 0 {
        0
    } else {
        elapsed_between(samples.first().timestamp, samples.last().timestamp)
    }
}

/// The effective rate that accepted shares stand for over a time span:
/// `accepted * difficulty * 2^32` hashes per `duration`, in hashes per second.
pub open spec fn effective_rate(accepted_shares: u64, share_difficulty: u64, duration: Nanos) -> u64 {
    saturating_quotient(
        (accepted_shares * share_difficulty * (HASHES_PER_DIFFICULTY * NANOS_PER_SEC)) as nat,
        duration as nat,
    )
}

proof fn lemma_rate_sum_bound(samples: Seq<HashRateSample>)
    ensures
        rate_sum(samples) <= samples.len() * u64::MAX,
    decreases samples.len(),
{
    if samples.len() > 0 {
        lemma_rate_sum_bound(samples.drop_last());
        assert((samples.len() - 1) * u64::MAX + u64::MAX == samples.len() * u64::MAX)
            by (nonlinear_arith);
    }
}

proof fn lemma_hashes_sum_bound(samples: Seq<HashRateSample>)
    ensures
        hashes_sum(samples) <= samples.len() * u64::MAX,
    decreases samples.len(),
{
    if samples.len() > 0 {
        lemma_hashes_sum_bound(samples.drop_last());
        assert((samples.len() - 1) * u64::MAX + u64::MAX == samples.len() * u64::MAX)
            by (nonlinear_arith);
    }
}

proof fn lemma_deviation_sum_bound(samples: Seq<HashRateSample>, center: int)
    requires
        0 <= center <= u64::MAX,
    ensures
        deviation_sum(samples, center) <= samples.len() * (u64::MAX * u64::MAX),
    decreases samples.len(),
{
    if samples.len() > 0 {
        lemma_deviation_sum_bound(samples.drop_last(), center);
        let d = samples.last().rate() - center;
        let m = u64::MAX as int;
        assert(0 <= d * d <= m * m) by (nonlinear_arith)
            requires
                -m <= d <= m,
        ;
        assert((samples.len() - 1) * (m * m) + m * m == samples.len() * (m * m))
            by (nonlinear_arith);
        assert(deviation_sum(samples, center) == deviation_sum(samples.drop_last(), center) + d * d);
    }
}

/// The mean of the rates of the newest `count` samples.
fn mean_of_newest(samples: &VecDeque<HashRateSample>, count: usize) -> (r: u64)
    requires
        1 <= count <= samples@.len(),
    ensures
        r == mean_rate(newest(samples@, count as nat)),
{
    let n = samples.len();
    let start: usize = n - count;
    let ghost window = samples@.subrange(start as int, n as int);
    let mut sum: u128 = 0;
    let mut i: usize = start;
    assert(window.subrange(0, 0) =~= Seq::<HashRateSample>::empty());
    while i < n
        invariant
            start <= i <= n,
            n == samples@.len(),
            window == samples@.subrange(start as int, n as int),
            sum == rate_sum(window.subrange(0, i - start)),
        decreases n - i,
    {
        let ghost prefix = window.subrange(0, i - start);
        let ghost longer = window.subrange(0, i - start + 1);
        assert(longer.drop_last() =~= prefix);
        assert(longer.last() == samples@[i as int]);
        proof {
            lemma_rate_sum_bound(longer);
            assert(longer.len() * u64::MAX <= usize::MAX * u64::MAX) by (nonlinear_arith)
                requires
                    longer.len() <= usize::MAX,
            ;
        }
        sum += samples[i].hash_rate() as u128;
        i += 1;
    }
    assert(window.subrange(0, n - start) =~= window);
    proof {
        lemma_rate_sum_bound(window);
        assert(window.len() * u64::MAX == u64::MAX * window.len()) by (nonlinear_arith);
        lemma_quotient_at_most(sum as int, count as int, u64::MAX as int);
        if count as nat >= samples@.len() {
            assert(window =~= samples@);
        }
    }
    (sum / (count as u128)) as u64
}

/// The mean squared distance of the sample rates from `center`, rounded down.
fn mean_square_deviation(samples: &VecDeque<HashRateSample>, center: u64) -> (r: u128)
    requires
        samples@.len() >= 1,
    ensures
        r == deviation_sum(samples@, center as int) / samples@.len(),
{
    let n = samples.len();
    let divisor: u128 = n as u128;
    let mut quotient: u128 = 0;
    let mut remainder: u128 = 0;
    let mut i: usize = 0;
    let ghost m = u64::MAX as int;
    assert(samples@.subrange(0, 0) =~= Seq::<HashRateSample>::empty());
    while i < n
        invariant
            i <= n,
            n == samples@.len(),
            n >= 1,
            divisor == n,
            m == u64::MAX,
            remainder < divisor,
            quotient * divisor + remainder == deviation_sum(
                samples@.subrange(0, i as int),
                center as int,
            ),
        decreases n - i,
    {
        let ghost prefix = samples@.subrange(0, i as int);
        let ghost longer = samples@.subrange(0, i + 1);
        assert(longer.drop_last() =~= prefix);
        assert(longer.last() == samples@[i as int]);
        let rate = samples[i].hash_rate();
        let distance: u128 = if rate >= center {
            (rate - center) as u128
        } else {
            (center - rate) as u128
        };
        proof {
            vstd::arithmetic::mul::lemma_mul_upper_bound(distance as int, m, distance as int, m);
            assert(distance * distance == (rate - center) * (rate - center)) by (nonlinear_arith)
                requires
                    distance == rate - center || distance == center - rate,
            ;
        }
        let square: u128 = distance * distance;
        let whole: u128 = square / divisor;
        let part: u128 = square % divisor;
        proof {
            lemma_deviation_sum_bound(longer, center as int);
            let total = deviation_sum(longer, center as int) as int;
            assert(total == quotient * divisor + remainder + square);
            assert(square == whole * divisor + part) by {
                vstd::arithmetic::div_mod::lemma_fundamental_div_mod(square as int, divisor as int);
                assert(divisor * whole == whole * divisor) by (nonlinear_arith);
            }
            assert((quotient + whole + 1) * divisor <= total + divisor && total <= divisor * (m
                * m)) by (nonlinear_arith)
                requires
                    total == quotient * divisor + remainder + whole * divisor + part,
                    remainder >= 0,
                    part >= 0,
                    total <= longer.len() * (m * m),
                    longer.len() <= divisor,
                    m * m >= 0,
            ;
            assert(quotient + whole + 1 <= m * m + 1) by (nonlinear_arith)
                requires
                    (quotient + whole + 1) * divisor <= divisor * (m * m) + divisor,
                    divisor >= 1,
            ;
        }
        let ghost q0 = quotient as int;
        let ghost r0 = remainder as int;
        quotient = quotient + whole;
        remainder = remainder + part;
        if remainder >= divisor {
            remainder = remainder - divisor;
            quotient = quotient + 1;
        }
        assert(quotient * divisor + remainder == deviation_sum(longer, center as int))
            by (nonlinear_arith)
            requires
                deviation_sum(longer, center as int) == q0 * divisor + r0 + whole * divisor + part,
                (quotient == q0 + whole && remainder == r0 + part) || (quotient == q0 + whole + 1
                    && remainder == r0 + part - divisor),
        ;
        i += 1;
    }
    assert(samples@.subrange(0, n as int) =~= samples@);
    proof {
        let total = deviation_sum(samples@, center as int) as int;
        vstd::arithmetic::div_mod::lemma_fundamental_div_mod_converse_div(
            total,
            divisor as int,
            quotient as int,
            remainder as int,
        );
    }
    quotient
}


/// The sum of the hash counts of the samples.
fn sum_hashes(samples: &VecDeque<HashRateSample>) -> (r: u128)
    ensures
        r == hashes_sum(samples@),
{
    let n = samples.len();
    let mut sum: u128 = 0;
    let mut i: usize = 0;
    assert(samples@.subrange(0, 0) =~= Seq::<HashRateSample>::empty());
    while i < n
        invariant
            i <= n,
            n == samples@.len(),
            sum == hashes_sum(samples@.subrange(0, i as int)),
        decreases n - i,
    {
        let ghost prefix = samples@.subrange(0, i as int);
        let ghost longer = samples@.subrange(0, i + 1);
        assert(longer.drop_last() =~= prefix);
        assert(longer.last() == samples@[i as int]);
        proof {
            lemma_hashes_sum_bound(longer);
            assert(longer.len() * u64::MAX <= usize::MAX * u64::MAX) by (nonlinear_arith)
                requires
                    longer.len() <= usize::MAX,
            ;
        }
        sum += samples[i].hashes as u128;
        i += 1;
    }
    assert(samples@.subrange(0, n as int) =~= samples@);
    sum
}

/// Whether a sample is due: none was taken yet, or the last one lies at
/// least the sample interval back.
pub open spec fn sample_due(last: Option<Timestamp>, now: Timestamp, interval: Nanos) -> bool {
    match last {
        Some(t) => elapsed_between(t, now) >= interval,
        None => true,
    }
}

/// The sample taken at `now` for the hash count `count`: the hashes since the
/// last count, none if the count fell, over the time since the last sample,
/// one second if there was none.
pub open spec fn sample_at(
    last: Option<Timestamp>,
    last_count: u64,
    now: Timestamp,
    count: u64,
) -> HashRateSample {
    HashRateSample {
        timestamp: now,
        hashes: if count >= last_count {
            (count - last_count) as u64
        } else {
            0
        },
        duration: match last {
            Some(t) => elapsed_between(t, now),
            None => NANOS_PER_SEC,
        },
    }
}

/// The peak after a sample with the given rate.
pub open spec fn raised_peak(peak: u64, rate: u64) -> u64 {
    if rate > peak {
        rate
    } else {
        peak
    }
}

/// The lowest rate of a sample with a rate above zero, after one more sample.
pub open spec fn lowered_minimum(minimum: Option<u64>, sample: HashRateSample) -> Option<u64> {
    if sample.positive() && (minimum is None || sample.rate() < minimum->0) {
        Some(sample.rate())
    } else {
        minimum
    }
}

/// The rate below which a sample raises a drop alert: the average less the
/// configured share of it, rounded down.
pub open spec fn drop_threshold(average: u64, basis_points: u32) -> u64 {
    if basis_points >= 10000 {
        0
    } else {
        (average * (10000 - basis_points) / 10000) as u64
    }
}

/// Whether a sample raises a drop alert, given the samples retained after
/// it was added: there are enough samples, and the sample's rate is above
/// zero and lies below the average by more than the configured share.
pub open spec fn drop_alert_due(
    samples: Seq<HashRateSample>,
    config: HashRateMonitorConfig,
    sample: HashRateSample,
) -> bool {
    &&& samples.len() >= config.min_samples_for_stats
    &&& sample.positive()
    &&& config.alert_threshold_basis_points < 10000
    &&& sample.rate() * 10000 < mean_rate(samples) * (10000
        - config.alert_threshold_basis_points)
}

/// The message of a drop alert.
pub open spec fn drop_message(rate: u64, average: u64) -> Seq<char> {
    "Hash rate dropped to "@ + decimal(rate as nat) + ".00 H/s (average: "@ + decimal(
        average as nat,
    ) + ".00 H/s)"@
}

/// Whether `alert` is the drop alert for a sample at `now` with the given
/// rate, against the given average.
pub open spec fn is_drop_alert(
    alert: Alert,
    now: Timestamp,
    rate: u64,
    average: u64,
    basis_points: u32,
) -> bool {
    &&& alert.timestamp == now
    &&& alert.alert_type == AlertType::HashRateDrop
    &&& alert.message@ == drop_message(rate, average)
    &&& alert.value == rate
    &&& alert.threshold == drop_threshold(average, basis_points)
}

/// Hash rate monitor.
#[derive(Debug)]
pub struct HashRateMonitor {
    config: HashRateMonitorConfig,
    samples: VecDeque<HashRateSample>,
    last_sample_time: Option<Timestamp>,
    last_hash_count: u64,
    total_hashes: u64,
    start_time: Option<Timestamp>,
    peak_hash_rate: u64,
    min_hash_rate: Option<u64>,
    alerts: Vec<Alert>,
}

impl HashRateMonitor {
    /// The settings of the monitor.
    pub closed spec fn settings(&self) -> HashRateMonitorConfig {
        self.config
    }

    /// The retained samples, oldest first.
    pub closed spec fn samples(&self) -> Seq<HashRateSample> {
        self.samples@
    }

    /// When the last sample was taken, or monitoring started.
    pub closed spec fn last_sample_time(&self) -> Option<Timestamp> {
        self.last_sample_time
    }

    /// The hash count at the last sample.
    pub closed spec fn last_hash_count(&self) -> u64 {
        self.last_hash_count
    }

    /// The hash count last reported.
    pub closed spec fn total_hashes(&self) -> u64 {
        self.total_hashes
    }

    /// When monitoring started.
    pub closed spec fn start_time(&self) -> Option<Timestamp> {
        self.start_time
    }

    /// The highest rate seen.
    pub closed spec fn peak(&self) -> u64 {
        self.peak_hash_rate
    }

    /// The lowest rate seen of a sample with a rate above zero, if any.
    pub closed spec fn minimum(&self) -> Option<u64> {
        self.min_hash_rate
    }

    /// The stored alerts, oldest first.
    pub closed spec fn alert_log(&self) -> Seq<Alert> {
        self.alerts@
    }

    /// No more samples are retained than the configured maximum.
    pub open spec fn wf(&self) -> bool {
        self.samples().len() <= self.settings().max_samples
    }

    /// A monitor without samples.
    pub fn new(config: HashRateMonitorConfig) -> (r: Self)
        ensures
            r.wf(),
            r.settings() == config,
            r.samples() == Seq::<HashRateSample>::empty(),
            r.last_sample_time() is None,
            r.last_hash_count() == 0,
            r.total_hashes() == 0,
            r.start_time() is None,
            r.peak() == 0,
            r.minimum() is None,
            r.alert_log() == Seq::<Alert>::empty(),
    {
        HashRateMonitor {
            config,
            samples: VecDeque::new(),
            last_sample_time: None,
            last_hash_count: 0,
            total_hashes: 0,
            start_time: None,
            peak_hash_rate: 0,
            min_hash_rate: None,
            alerts: Vec::new(),
        }
    }

    /// Starts monitoring at `now`: the first sample will span the time from `now`.
    pub fn start(&mut self, now: Timestamp)
        ensures
            final(self).start_time() == Some(now),
            final(self).last_sample_time() == Some(now),
            final(self).settings() == old(self).settings(),
            final(self).samples() == old(self).samples(),
            final(self).last_hash_count() == old(self).last_hash_count(),
            final(self).total_hashes() == old(self).total_hashes(),
            final(self).peak() == old(self).peak(),
            final(self).minimum() == old(self).minimum(),
            final(self).alert_log() == old(self).alert_log(),
    {
        self.start_time = Some(now);
        self.last_sample_time = Some(now);
    }

    /// Reports the hash count at `now`. The count is kept in any case. When a
    /// sample is due, the sample is taken, appended, and returned; the oldest
    /// samples beyond the configured maximum are dropped, the extremes follow
    /// the sample's rate, and a drop alert is stored if the rate calls for
    /// one. When no sample is due, nothing else changes.
    pub fn record(&mut self, now: Timestamp, current_hash_count: u64) -> (r: Option<HashRateSample>)
        ensures
            final(self).settings() == old(self).settings(),
            final(self).start_time() == old(self).start_time(),
            final(self).total_hashes() == current_hash_count,
            old(self).wf() ==> final(self).wf(),
            !sample_due(old(self).last_sample_time(), now, old(self).settings().sample_interval) ==> {
                &&& r is None
                &&& final(self).samples() == old(self).samples()
                &&& final(self).last_sample_time() == old(self).last_sample_time()
                &&& final(self).last_hash_count() == old(self).last_hash_count()
                &&& final(self).peak() == old(self).peak()
                &&& final(self).minimum() == old(self).minimum()
                &&& final(self).alert_log() == old(self).alert_log()
            },
            sample_due(old(self).last_sample_time(), now, old(self).settings().sample_interval) ==> {
                let sample = sample_at(
                    old(self).last_sample_time(),
                    old(self).last_hash_count(),
                    now,
                    current_hash_count,
                );
                &&& r == Some(sample)
                &&& final(self).samples() == newest(
                    old(self).samples().push(sample),
                    old(self).settings().max_samples as nat,
                )
                &&& final(self).last_sample_time() == Some(now)
                &&& final(self).last_hash_count() == current_hash_count
                &&& final(self).peak() == raised_peak(old(self).peak(), sample.rate())
                &&& final(self).minimum() == lowered_minimum(old(self).minimum(), sample)
                &&& if drop_alert_due(final(self).samples(), old(self).settings(), sample) {
                    &&& final(self).alert_log().len() == old(self).alert_log().len() + 1
                    &&& final(self).alert_log().drop_last() == old(self).alert_log()
                    &&& is_drop_alert(
                        final(self).alert_log().last(),
                        now,
                        sample.rate(),
                        mean_rate(final(self).samples()) as u64,
                        old(self).settings().alert_threshold_basis_points,
                    )
                } else {
                    final(self).alert_log() == old(self).alert_log()
                }
            },
    {
        self.total_hashes = current_hash_count;
        let due = match self.last_sample_time {
            Some(t) => elapsed(t, now) >= self.config.sample_interval,
            None => true,
        };
        if !due {
            return None;
        }
        let hashes_delta: u64 = if current_hash_count >= self.last_hash_count {
            current_hash_count - self.last_hash_count
        } else {
            0
        };
        let time_delta: Nanos = match self.last_sample_time {
            Some(t) => elapsed(t, now),
            None => NANOS_PER_SEC,
        };
        let sample = HashRateSample { timestamp: now, hashes: hashes_delta, duration: time_delta };
        self.last_sample_time = Some(now);
        self.last_hash_count = current_hash_count;
        self.add_sample(sample);
        self.update_extremes(&sample);
        self.check_alerts(&sample, now);
        Some(sample)
    }

    /// Appends a sample and drops the oldest samples beyond the configured maximum.
    fn add_sample(&mut self, sample: HashRateSample)
        ensures
            final(self).samples@ == newest(
                old(self).samples@.push(sample),
                old(self).config.max_samples as nat,
            ),
            final(self).samples@.len() <= old(self).config.max_samples,
            final(self).config == old(self).config,
            final(self).last_sample_time == old(self).last_sample_time,
            final(self).last_hash_count == old(self).last_hash_count,
            final(self).total_hashes == old(self).total_hashes,
            final(self).start_time == old(self).start_time,
            final(self).peak_hash_rate == old(self).peak_hash_rate,
            final(self).min_hash_rate == old(self).min_hash_rate,
            final(self).alerts == old(self).alerts,
    {
        self.samples.push_back(sample);
        let ghost pushed = self.samples@;
        let max = self.config.max_samples;
        while self.samples.len() > max
            invariant
                max == self.config.max_samples,
                self.samples@.len() <= pushed.len(),
                self.samples@.len() >= max || self.samples@.len() == pushed.len(),
                self.samples@ == pushed.subrange(
                    pushed.len() - self.samples@.len(),
                    pushed.len() as int,
                ),
                self.config == old(self).config,
                self.last_sample_time == old(self).last_sample_time,
                self.last_hash_count == old(self).last_hash_count,
                self.total_hashes == old(self).total_hashes,
                self.start_time == old(self).start_time,
                self.peak_hash_rate == old(self).peak_hash_rate,
                self.min_hash_rate == old(self).min_hash_rate,
                self.alerts == old(self).alerts,
            decreases self.samples@.len(),
        {
            self.samples.pop_front();
            assert(self.samples@ =~= pushed.subrange(
                pushed.len() - self.samples@.len(),
                pushed.len() as int,
            ));
        }
        assert(self.samples@ =~= newest(pushed, max as nat));
    }

    /// Raises the peak to the rate of the sample, and lowers the minimum to
    /// it if the rate is above zero.
    fn update_extremes(&mut self, sample: &HashRateSample)
        ensures
            final(self).peak_hash_rate == raised_peak(old(self).peak_hash_rate, sample.rate()),
            final(self).min_hash_rate == lowered_minimum(old(self).min_hash_rate, *sample),
            final(self).config == old(self).config,
            final(self).samples == old(self).samples,
            final(self).last_sample_time == old(self).last_sample_time,
            final(self).last_hash_count == old(self).last_hash_count,
            final(self).total_hashes == old(self).total_hashes,
            final(self).start_time == old(self).start_time,
            final(self).alerts == old(self).alerts,
    {
        let hash_rate = sample.hash_rate();
        if hash_rate > self.peak_hash_rate {
            self.peak_hash_rate = hash_rate;
        }
        if sample.is_positive() {
            let lower = match self.min_hash_rate {
                Some(m) => hash_rate < m,
                None => true,
            };
            if lower {
                self.min_hash_rate = Some(hash_rate);
            }
        }
    }

    /// Stores a drop alert if the sample's rate calls for one.
    fn check_alerts(&mut self, sample: &HashRateSample, now: Timestamp)
        ensures
            if drop_alert_due(old(self).samples@, old(self).config, *sample) {
                &&& final(self).alerts@.len() == old(self).alerts@.len() + 1
                &&& final(self).alerts@.drop_last() == old(self).alerts@
                &&& is_drop_alert(
                    final(self).alerts@.last(),
                    now,
                    sample.rate(),
                    mean_rate(old(self).samples@) as u64,
                    old(self).config.alert_threshold_basis_points,
                )
            } else {
                final(self).alerts@ == old(self).alerts@
            },
            final(self).config == old(self).config,
            final(self).samples == old(self).samples,
            final(self).last_sample_time == old(self).last_sample_time,
            final(self).last_hash_count == old(self).last_hash_count,
            final(self).total_hashes == old(self).total_hashes,
            final(self).start_time == old(self).start_time,
            final(self).peak_hash_rate == old(self).peak_hash_rate,
            final(self).min_hash_rate == old(self).min_hash_rate,
    {
        let stats = self.statistics();
        if stats.sample_count >= self.config.min_samples_for_stats {
            let current = sample.hash_rate();
            let points = self.config.alert_threshold_basis_points;
            if sample.is_positive() && points < 10000 {
                let keep: u128 = (10000 - points) as u128;
                proof {
                    vstd::arithmetic::mul::lemma_mul_upper_bound(
                        stats.average as int,
                        u64::MAX as int,
                        keep as int,
                        10000,
                    );
                    lemma_quotient_at_most(
                        stats.average as int * keep as int,
                        10000,
                        u64::MAX as int,
                    );
                }
                let scaled: u128 = (stats.average as u128) * keep;
                if (current as u128) * 10000 < scaled {
                    let threshold: u64 = (scaled / 10000) as u64;
                    let mut message = join(
                        "Hash rate dropped to ",
                        render_decimal(current as u128).as_str(),
                    );
                    message.append(".00 H/s (average: ");
                    message.append(render_decimal(stats.average as u128).as_str());
                    message.append(".00 H/s)");
                    self.alerts.push(
                        Alert {
                            timestamp: now,
                            alert_type: AlertType::HashRateDrop,
                            message,
                            value: current,
                            threshold,
                        },
                    );
                    assert(self.alerts@.drop_last() =~= old(self).alerts@);
                }
            }
        }
    }

    /// The statistics of the retained samples: all zero without samples.
    pub fn statistics(&self) -> (r: HashRateStats)
        ensures
            r.sample_count == self.samples().len(),
            r.average == mean_rate(self.samples()),
            r.total_hashes == hashes_sum(self.samples()),
            r.monitoring_duration == span(self.samples()),
            is_floor_sqrt(variance(self.samples()), r.std_dev as nat),
            self.samples().len() == 0 ==> r.current == 0 && r.peak == 0 && r.minimum == 0 && r.std_dev
                == 0,
            self.samples().len() > 0 ==> r.current == self.samples().last().rate() && r.peak
                == self.peak() && r.minimum == match self.minimum() {
                Some(m) => m,
                None => 0,
            },
    {
        let n = self.samples.len();
        if n == 0 {
            assert(0nat * 0nat == 0 && (0nat + 1) * (0nat + 1) == 1) by (nonlinear_arith);
            assert(variance(self.samples@) == 0);
            return HashRateStats::default();
        }
        let current = self.samples[n - 1].hash_rate();
        let average = mean_of_newest(&self.samples, n);
        let total_hashes = sum_hashes(&self.samples);
        let variance = mean_square_deviation(&self.samples, average);
        let std_dev = isqrt(variance);
        let monitoring_duration = elapsed(self.samples[0].timestamp, self.samples[n - 1].timestamp);
        HashRateStats {
            current,
            average,
            peak: self.peak_hash_rate,
            minimum: match self.min_hash_rate {
                Some(m) => m,
                None => 0,
            },
            std_dev,
            total_hashes,
            monitoring_duration,
            sample_count: n,
        }
    }

    /// The mean rate of the newest samples, as many as the configured window
    /// holds; zero without samples or with an empty window.
    pub fn moving_average(&self) -> (r: u64)
        ensures
            r == mean_rate(newest(self.samples(), self.settings().moving_average_window as nat)),
    {
        let n = self.samples.len();
        let window: usize = if self.config.moving_average_window < n {
            self.config.moving_average_window
        } else {
            n
        };
        if window == 0 {
            if n > 0 {
                assert(newest(self.samples@, 0).len() == 0);
            }
            return 0;
        }
        let r = mean_of_newest(&self.samples, window);
        assert(newest(self.samples@, window as nat) =~= newest(
            self.samples@,
            self.config.moving_average_window as nat,
        ));
        r
    }

    /// The hash rate that the accepted shares stand for over the monitored
    /// time: `accepted_shares * share_difficulty * 2^32` hashes over the span
    /// of the retained samples, capped at `u64::MAX`; zero for an empty span.
    /// With the difficulty in a fraction of one, the rate is in that
    /// fraction of a hash per second.
    pub fn effective_hash_rate(&self, accepted_shares: u64, share_difficulty: u64) -> (r: u64)
        ensures
            r == effective_rate(accepted_shares, share_difficulty, span(self.samples())),
    {
        let n = self.samples.len();
        if n == 0 {
            return 0;
        }
        let duration = elapsed(self.samples[0].timestamp, self.samples[n - 1].timestamp);
        proof {
            vstd::arithmetic::mul::lemma_mul_upper_bound(
                accepted_shares as int,
                u64::MAX as int,
                share_difficulty as int,
                u64::MAX as int,
            );
            assert(accepted_shares * share_difficulty * (HASHES_PER_DIFFICULTY * NANOS_PER_SEC)
                == (accepted_shares * share_difficulty) * (HASHES_PER_DIFFICULTY * NANOS_PER_SEC));
        }
        let work: u128 = (accepted_shares as u128) * (share_difficulty as u128);
        mul_div_saturating(work, HASHES_PER_DIFFICULTY * NANOS_PER_SEC, duration)
    }

    /// The newest `count` samples, newest first.
    pub fn recent_samples(&self, count: usize) -> (r: Vec<HashRateSample>)
        ensures
            r@.len() == newest(self.samples(), count as nat).len(),
            forall|j: int|
                0 <= j < r@.len() ==> (#[trigger] r@[j]) == self.samples()[self.samples().len() - 1
                    - j],
    {
        let n = self.samples.len();
        let take: usize = if count < n {
            count
        } else {
            n
        };
        let mut out: Vec<HashRateSample> = Vec::new();
        let mut j: usize = 0;
        while j < take
            invariant
                j <= take <= n,
                n == self.samples@.len(),
                out@.len() == j,
                forall|k: int| 0 <= k < j ==> (#[trigger] out@[k]) == self.samples@[n - 1 - k],
            decreases take - j,
        {
            out.push(self.samples[n - 1 - j]);
            j += 1;
        }
        out
    }

    /// The stored alerts, oldest first.
    pub fn alerts(&self) -> (r: Vec<Alert>)
        ensures
            r@ == self.alert_log(),
    {
        let mut out: Vec<Alert> = Vec::new();
        let mut i: usize = 0;
        while i < self.alerts.len()
            invariant
                i <= self.alerts@.len(),
                out@ == self.alerts@.subrange(0, i as int),
            decreases self.alerts@.len() - i,
        {
            out.push(self.alerts[i].clone());
            assert(self.alerts@.subrange(0, i + 1) =~= self.alerts@.subrange(0, i as int).push(
                self.alerts@[i as int],
            ));
            i += 1;
        }
        assert(self.alerts@.subrange(0, self.alerts@.len() as int) =~= self.alerts@);
        out
    }

    /// Drops the stored alerts.
    pub fn clear_alerts(&mut self)
        ensures
            final(self).alert_log() == Seq::<Alert>::empty(),
            final(self).settings() == old(self).settings(),
            final(self).samples() == old(self).samples(),
            final(self).last_sample_time() == old(self).last_sample_time(),
            final(self).last_hash_count() == old(self).last_hash_count(),
            final(self).total_hashes() == old(self).total_hashes(),
            final(self).start_time() == old(self).start_time(),
            final(self).peak() == old(self).peak(),
            final(self).minimum() == old(self).minimum(),
    {
        self.alerts.clear();
    }

    /// The display text of a rate, such as `1.50 MH/s`.
    pub fn format_hash_rate(hash_rate: u64) -> (r: String)
        ensures
            r@ == formatted_rate(hash_rate),
    {
        let unit = HashRateUnit::auto_select(hash_rate);
        let size = unit.divisor();
        let hundredths: u128 = ((hash_rate as u128) * 100 + (size as u128) / 2) / (size as u128);
        let mut out = render_fixed2(hundredths);
        proof {
            reveal_strlit(" ");
        }
        out.append(" ");
        out.append(unit.suffix());
        assert(out@ =~= formatted_rate(hash_rate));
        out
    }

    /// Forgets the samples, the reported hash count, the extremes and the
    /// alerts. The time and count of the last sample stay.
    pub fn reset(&mut self)
        ensures
            final(self).wf(),
            final(self).samples() == Seq::<HashRateSample>::empty(),
            final(self).total_hashes() == 0,
            final(self).peak() == 0,
            final(self).minimum() is None,
            final(self).alert_log() == Seq::<Alert>::empty(),
            final(self).settings() == old(self).settings(),
            final(self).last_sample_time() == old(self).last_sample_time(),
            final(self).last_hash_count() == old(self).last_hash_count(),
            final(self).start_time() == old(self).start_time(),
    {
        self.samples.clear();
        self.total_hashes = 0;
        self.peak_hash_rate = 0;
        self.min_hash_rate = None;
        self.clear_alerts();
    }
}

} // verus!

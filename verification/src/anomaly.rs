//! Anomalies of a flight: where a signal jumps, stands still, oscillates or is
//! noisy, and what that says of the flight.

use crate::double;
use crate::double::Double;
use crate::lists;
use vstd::prelude::*;

verus! {

/// What can be wrong with a signal.
#[derive(Debug, PartialEq, Eq, Clone, Copy)]
pub enum AnomalyType {
    /// An isolated peak.
    Spike,
    /// Too much noise in a window.
    ExcessiveNoise,
    /// Values that do not change.
    SignalLoss,
    /// An abnormal drift.
    AbnormalDrift,
    /// An oscillation that is not wanted.
    Oscillation,
}

/// Something that is wrong with a signal, at a time in seconds since the start
/// of the flight.
#[derive(Debug, PartialEq)]
pub struct Anomaly {
    pub timestamp: Double,
    pub anomaly_type: AnomalyType,
    pub severity: Double,
    pub description: String,
    pub affected_axis: String,
    pub value: Option<Double>,
}

#[verifier::ext_equal]
pub struct AnomalyView {
    pub timestamp: Double,
    pub anomaly_type: AnomalyType,
    pub severity: Double,
    pub description: Seq<char>,
    pub affected_axis: Seq<char>,
    pub value: Option<Double>,
}

impl View for Anomaly {
    type V = AnomalyView;

    open spec fn view(&self) -> AnomalyView {
        AnomalyView {
            timestamp: self.timestamp,
            anomaly_type: self.anomaly_type,
            severity: self.severity,
            description: self.description@,
            affected_axis: self.affected_axis@,
            value: self.value,
        }
    }
}

impl Clone for Anomaly {
    fn clone(&self) -> (r: Anomaly)
        ensures
            r@ == self@,
    {
        Anomaly {
            timestamp: self.timestamp,
            anomaly_type: self.anomaly_type,
            severity: self.severity,
            description: self.description.clone(),
            affected_axis: self.affected_axis.clone(),
            value: self.value,
        }
    }
}

/// How many anomalies of each kind there are, the worst severity, and how good
/// the flight was, from 0 to 100.
#[derive(Debug, PartialEq, Eq, Clone, Copy)]
pub struct AnomalySummary {
    pub spikes_count: usize,
    pub noise_count: usize,
    pub signal_loss_count: usize,
    pub drift_count: usize,
    pub oscillation_count: usize,
    pub max_severity: Double,
    pub overall_quality_score: u8,
}

/// The anomalies of a flight in the order of time.
#[derive(Debug, PartialEq)]
pub struct AnomalyReport {
    pub flight_id: String,
    pub total_anomalies: usize,
    pub anomalies: Vec<Anomaly>,
    pub summary: AnomalySummary,
}

/// The signals of a flight that are searched: how far its angles are from those
/// that were desired, and the angles that were measured.
#[derive(Debug, PartialEq, Eq, Clone, Copy)]
pub enum Signal {
    RollError,
    PitchError,
    RawRoll,
    RawPitch,
}

impl Signal {
    /// The name of the axis that the signal belongs to.
    pub open spec fn name(self) -> Seq<char> {
        match self {
            Signal::RollError => "roll_error"@,
            Signal::PitchError => "pitch_error"@,
            Signal::RawRoll => "raw_roll"@,
            Signal::RawPitch => "raw_pitch"@,
        }
    }

    /// The name of the axis that the signal belongs to.
    pub fn axis(self) -> (r: &'static str)
        ensures
            r@ == self.name(),
    {
        match self {
            Signal::RollError => "roll_error",
            Signal::PitchError => "pitch_error",
            Signal::RawRoll => "raw_roll",
            Signal::RawPitch => "raw_pitch",
        }
    }
}

/// What a signal is searched for: spikes, losses and oscillation, where a spike
/// is so many times as large as the signal deviates; or noise, in windows of so
/// many samples that deviate by more than a threshold.
#[derive(Debug, PartialEq, Eq, Clone, Copy)]
pub enum Search {
    Shape { multiplier: Double },
    Noise { window: usize, threshold: Double },
}

/// The bits of 3: how many times as large as the deviation a spike is.
pub const SPIKE_BITS: u64 = 0x4008_0000_0000_0000;

/// The samples of a window that is searched for noise.
pub const NOISE_WINDOW: usize = 10;

/// The bits of three tenths: an error that deviates more is noisy.
pub const ERROR_NOISE_BITS: u64 = 0x3fd3_3333_3333_3333;

/// The bits of a half: a measured angle that deviates more is noisy.
pub const RAW_NOISE_BITS: u64 = 0x3fe0_0000_0000_0000;

/// What is searched for in a flight, in that order: the errors for all, the
/// measured angles for noise alone.
pub open spec fn searches() -> Seq<(Signal, Search)> {
    let shape = Search::Shape { multiplier: Double { bits: SPIKE_BITS } };
    let error = Search::Noise {
        window: NOISE_WINDOW,
        threshold: Double { bits: ERROR_NOISE_BITS },
    };
    let raw = Search::Noise { window: NOISE_WINDOW, threshold: Double { bits: RAW_NOISE_BITS } };
    seq![
        (Signal::RollError, shape),
        (Signal::PitchError, shape),
        (Signal::RollError, error),
        (Signal::PitchError, error),
        (Signal::RawRoll, raw),
        (Signal::RawPitch, raw),
    ]
}

/// What is searched for in a flight.
pub fn flight_searches() -> (r: Vec<(Signal, Search)>)
    ensures
        r@ == searches(),
{
    let shape = Search::Shape { multiplier: Double { bits: SPIKE_BITS } };
    let error = Search::Noise {
        window: NOISE_WINDOW,
        threshold: Double { bits: ERROR_NOISE_BITS },
    };
    let raw = Search::Noise { window: NOISE_WINDOW, threshold: Double { bits: RAW_NOISE_BITS } };
    vec![
        (Signal::RollError, shape),
        (Signal::PitchError, shape),
        (Signal::RollError, error),
        (Signal::PitchError, error),
        (Signal::RawRoll, raw),
        (Signal::RawPitch, raw),
    ]
}

/// A signal of fewer samples is not searched for its shape.
pub const SHORTEST_SIGNAL: usize = 5;

/// The bits of a tenth: a signal is taken to deviate by no less.
pub const LEAST_DEVIATION_BITS: u64 = 0x3fb9_9999_9999_999a;

/// How much a signal is taken to deviate where spikes are looked for: a tenth,
/// or what it does deviate where that is more.
pub fn spike_deviation(deviation: Double) -> (r: Double)
    ensures
        r == double::larger(deviation, Double { bits: LEAST_DEVIATION_BITS }),
{
    double::max_double(deviation, Double { bits: LEAST_DEVIATION_BITS })
}

/// The bits of 100: nothing is more severe.
pub const WORST_BITS: u64 = 0x4059_0000_0000_0000;

/// The bits of 50: a loss of so many steps is as severe as can be.
pub const LOSS_STEPS_BITS: u64 = 0x4049_0000_0000_0000;

/// The bits of 10: an oscillation that turns so often in a second is as severe
/// as can be.
pub const OSCILLATION_WORST_BITS: u64 = 0x4024_0000_0000_0000;

/// `severity`, or 100 where it is more or no number.
pub open spec fn capped(severity: Double) -> Double {
    if severity.nan() || (Double { bits: WORST_BITS }).lt(severity) {
        Double { bits: WORST_BITS }
    } else {
        severity
    }
}

/// `severity`, or 100 where it is more or no number.
pub fn cap_severity(severity: Double) -> (r: Double)
    ensures
        r == capped(severity),
{
    let worst = Double { bits: WORST_BITS };
    if severity.is_nan() || worst.less(severity) {
        worst
    } else {
        severity
    }
}

/// The bits of a hundredth: a smaller step counts as none.
pub const STILL_BITS: u64 = 0x3f84_7ae1_47ae_147b;

/// More than so many steps without change are a loss of the signal.
pub const STILL_STEPS: usize = 10;

/// The size of a step without its direction.
pub open spec fn jump(step: Double) -> Double {
    Double { bits: step.size() as u64 }
}

/// The signal moves by less than a hundredth.
pub open spec fn is_still(step: Double) -> bool {
    jump(step).lt(Double { bits: STILL_BITS })
}

/// How many of the steps directly before step `n` are still.
pub open spec fn still_before(steps: Seq<Double>, n: nat) -> nat
    decreases n,
{
    if n == 0 || !is_still(steps[n - 1]) {
        0
    } else {
        still_before(steps, (n - 1) as nat) + 1
    }
}

/// A stretch without change: the number of the sample that its first step leads
/// to, that of its last sample, and how many steps it has.
#[derive(Debug, PartialEq, Eq, Clone, Copy)]
pub struct Loss {
    pub start: usize,
    pub last: usize,
    pub steps: usize,
}

/// The stretches of more than ten still steps that end with one of the first
/// `n` steps. A stretch that lasts to the end has no such step and is none.
pub open spec fn losses(steps: Seq<Double>, n: nat) -> Seq<Loss>
    decreases n,
{
    if n == 0 {
        seq![]
    } else {
        let rest = losses(steps, (n - 1) as nat);
        let count = still_before(steps, (n - 1) as nat);
        if !is_still(steps[n - 1]) && count > STILL_STEPS {
            rest.push(
                Loss { start: (n - count) as usize, last: (n - 1) as usize, steps: count as usize },
            )
        } else {
            rest
        }
    }
}

/// The samples, of those before step `n`, that are far from both their
/// neighbours.
pub open spec fn spikes(steps: Seq<Double>, threshold: Double, n: nat) -> Seq<usize>
    decreases n,
{
    if n <= 1 {
        seq![]
    } else {
        let rest = spikes(steps, threshold, (n - 1) as nat);
        if threshold.lt(jump(steps[n - 2])) && threshold.lt(jump(steps[n - 1])) {
            rest.push((n - 1) as usize)
        } else {
            rest
        }
    }
}

/// Two steps go in different directions. One that is no number goes with none.
pub open spec fn turns(a: Double, b: Double) -> bool {
    a.nan() || b.nan() || (a.bits >= double::SIGN) != (b.bits >= double::SIGN)
}

/// How often the first `n` steps turn.
pub open spec fn crossings(steps: Seq<Double>, n: nat) -> nat
    decreases n,
{
    if n <= 1 {
        0
    } else {
        let rest = crossings(steps, (n - 1) as nat);
        if turns(steps[n - 2], steps[n - 1]) {
            rest + 1
        } else {
            rest
        }
    }
}

/// What was found in a signal: the numbers of the samples that are spikes, the
/// stretches without change, and how often it turned.
#[derive(Debug, PartialEq)]
pub struct Findings {
    pub spikes: Vec<usize>,
    pub losses: Vec<Loss>,
    pub crossings: usize,
}

/// The size of a step without its direction.
fn jump_of(step: Double) -> (r: Double)
    ensures
        r == jump(step),
{
    if step.bits >= double::SIGN {
        Double { bits: step.bits - double::SIGN }
    } else {
        step
    }
}

/// The number of turns is at most the number of steps.
proof fn lemma_crossings_bound(steps: Seq<Double>, n: nat)
    ensures
        crossings(steps, n) <= n,
    decreases n,
{
    if n > 1 {
        lemma_crossings_bound(steps, (n - 1) as nat);
    }
}

/// A stretch does not begin before the signal.
proof fn lemma_still_bound(steps: Seq<Double>, n: nat)
    ensures
        still_before(steps, n) <= n,
    decreases n,
{
    if n > 0 {
        lemma_still_bound(steps, (n - 1) as nat);
    }
}

/// What is found in a signal, given the steps from each sample to the next: a
/// signal of fewer than five samples is not searched.
#[verifier::loop_isolation(false)]
pub fn detect_anomalies_in_signal(steps: &Vec<Double>, spike_threshold: Double) -> (r: Findings)
    ensures
        steps@.len() < SHORTEST_SIGNAL - 1 ==> r.spikes@.len() == 0 && r.losses@.len() == 0 && r.crossings == 0,
        steps@.len() >= SHORTEST_SIGNAL - 1 ==> r.spikes@ == spikes(steps@, spike_threshold, steps@.len())
            && r.losses@ == losses(steps@, steps@.len()) && r.crossings == crossings(
            steps@,
            steps@.len(),
        ),
{
    let mut found_spikes: Vec<usize> = Vec::new();
    let mut found_losses: Vec<Loss> = Vec::new();
    let mut turned: usize = 0;
    if steps.len() < SHORTEST_SIGNAL - 1 {
        return Findings { spikes: found_spikes, losses: found_losses, crossings: 0 };
    }
    let still = Double { bits: STILL_BITS };
    let mut count: usize = 0;
    for i in 0..steps.len()
        invariant
            found_spikes@ == spikes(steps@, spike_threshold, i as nat),
            found_losses@ == losses(steps@, i as nat),
            count == still_before(steps@, i as nat),
            count <= i,
            turned == crossings(steps@, i as nat),
            turned <= i,
    {
        proof {
            lemma_still_bound(steps@, (i + 1) as nat);
            lemma_crossings_bound(steps@, (i + 1) as nat);
        }
        let size = jump_of(steps[i]);
        if i > 0 {
            let before = steps[i - 1];
            if spike_threshold.less(jump_of(before)) && spike_threshold.less(size) {
                found_spikes.push(i);
            }
            if before.is_nan() || steps[i].is_nan() || (before.bits >= double::SIGN) != (
            steps[i].bits >= double::SIGN) {
                turned += 1;
            }
        }
        if size.less(still) {
            count += 1;
        } else {
            if count > STILL_STEPS {
                found_losses.push(Loss { start: i - count + 1, last: i, steps: count });
            }
            count = 0;
        }
    }
    Findings { spikes: found_spikes, losses: found_losses, crossings: turned }
}

/// The bits of 2: an oscillation turns more often in a second.
pub const OSCILLATION_ABOVE_BITS: u64 = 0x4000_0000_0000_0000;

/// The bits of 15: an oscillation turns less often in a second.
pub const OSCILLATION_BELOW_BITS: u64 = 0x402e_0000_0000_0000;

/// A signal that turns `frequency` times in a second oscillates.
pub open spec fn oscillates(frequency: Double) -> bool {
    &&& Double { bits: OSCILLATION_ABOVE_BITS }.lt(frequency)
    &&& frequency.lt(Double { bits: OSCILLATION_BELOW_BITS })
}

/// Whether a signal that turns `frequency` times in a second oscillates.
pub fn is_oscillation(frequency: Double) -> (r: bool)
    ensures
        r == oscillates(frequency),
{
    let above = Double { bits: OSCILLATION_ABOVE_BITS };
    let below = Double { bits: OSCILLATION_BELOW_BITS };
    above.less(frequency) && frequency.less(below)
}

/// How many windows of `window` samples are searched for noise: the one that
/// ends with the last sample is not.
pub fn noise_windows(samples: usize, window: usize) -> (r: usize)
    ensures
        r == (if samples < window {
            0
        } else {
            samples - window
        }),
{
    if samples < window {
        0
    } else {
        samples - window
    }
}

/// The windows, of the first `n`, that deviate by more than `threshold`.
pub open spec fn noisy(deviations: Seq<Double>, threshold: Double, n: nat) -> Seq<usize>
    decreases n,
{
    if n == 0 {
        seq![]
    } else {
        let rest = noisy(deviations, threshold, (n - 1) as nat);
        if threshold.lt(deviations[n - 1]) {
            rest.push((n - 1) as usize)
        } else {
            rest
        }
    }
}

/// The windows that are noisy, given how much each deviates.
#[verifier::loop_isolation(false)]
pub fn detect_noise_regions(deviations: &Vec<Double>, threshold: Double) -> (r: Vec<usize>)
    ensures
        r@ == noisy(deviations@, threshold, deviations@.len()),
{
    let mut r: Vec<usize> = Vec::new();
    for i in 0..deviations.len()
        invariant
            r@ == noisy(deviations@, threshold, i as nat),
    {
        if threshold.less(deviations[i]) {
            r.push(i);
        }
    }
    r
}

/// The anomalies that a list holds.
pub open spec fn shown(list: Seq<Anomaly>) -> Seq<AnomalyView> {
    list.map_values(|a: Anomaly| a@)
}

/// The times by which anomalies are ordered.
pub open spec fn times(list: Seq<AnomalyView>) -> Seq<i64> {
    list.map_values(|a: AnomalyView| a.timestamp.rank() as i64)
}

/// `list` is `found` in the order of time; those of one time keep their order.
pub open spec fn is_timeline(found: Seq<AnomalyView>, list: Seq<AnomalyView>) -> bool {
    exists|order: Seq<usize>| #[trigger] follows(found, list, order)
}

/// `list` is `found` in the order `order`, which sorts it by time.
pub open spec fn follows(
    found: Seq<AnomalyView>,
    list: Seq<AnomalyView>,
    order: Seq<usize>,
) -> bool {
    &&& double::is_stable_order(times(found), order)
    &&& list.len() == order.len()
    &&& forall|k: int| 0 <= k < list.len() ==> #[trigger] list[k] == found[order[k] as int]
}

/// How many of the first `n` anomalies are of a kind.
pub open spec fn kind_count(list: Seq<AnomalyView>, kind: AnomalyType, n: nat) -> nat
    decreases n,
{
    if n == 0 {
        0
    } else {
        let rest = kind_count(list, kind, (n - 1) as nat);
        if list[n - 1].anomaly_type == kind {
            rest + 1
        } else {
            rest
        }
    }
}

/// The worst severity of the first `n` anomalies, at least zero.
pub open spec fn worst(list: Seq<AnomalyView>, n: nat) -> Double
    decreases n,
{
    if n == 0 {
        Double { bits: 0 }
    } else {
        double::larger(worst(list, (n - 1) as nat), list[n - 1].severity)
    }
}

/// How good a flight is: 100, less what its anomalies cost, but not below 0.
pub open spec fn quality(spikes: nat, noise: nat, loss: nat, oscillation: nat) -> nat {
    let cost = 5 * spikes + 10 * noise + 20 * loss + 15 * oscillation;
    if cost >= 100 {
        0
    } else {
        (100 - cost) as nat
    }
}

/// `s` sums up `list`.
pub open spec fn sums_up(list: Seq<AnomalyView>, s: AnomalySummary) -> bool {
    let n = list.len();
    &&& s.spikes_count == kind_count(list, AnomalyType::Spike, n)
    &&& s.noise_count == kind_count(list, AnomalyType::ExcessiveNoise, n)
    &&& s.signal_loss_count == kind_count(list, AnomalyType::SignalLoss, n)
    &&& s.drift_count == kind_count(list, AnomalyType::AbnormalDrift, n)
    &&& s.oscillation_count == kind_count(list, AnomalyType::Oscillation, n)
    &&& s.max_severity == worst(list, n)
    &&& s.overall_quality_score == quality(
        s.spikes_count as nat,
        s.noise_count as nat,
        s.signal_loss_count as nat,
        s.oscillation_count as nat,
    )
}

/// A kind counts at most as often as there are anomalies, and all kinds
/// together exactly as often.
pub proof fn law_kinds_add_up(list: Seq<AnomalyView>, n: nat)
    ensures
        kind_count(list, AnomalyType::Spike, n) + kind_count(list, AnomalyType::ExcessiveNoise, n)
            + kind_count(list, AnomalyType::SignalLoss, n) + kind_count(
            list,
            AnomalyType::AbnormalDrift,
            n,
        ) + kind_count(list, AnomalyType::Oscillation, n) == n,
    decreases n,
{
    if n > 0 {
        law_kinds_add_up(list, (n - 1) as nat);
    }
}

/// Sums up a list of anomalies.
#[verifier::loop_isolation(false)]
fn summarize(list: &Vec<Anomaly>) -> (r: AnomalySummary)
    ensures
        sums_up(shown(list@), r),
{
    let ghost all = shown(list@);
    let mut s = AnomalySummary {
        spikes_count: 0,
        noise_count: 0,
        signal_loss_count: 0,
        drift_count: 0,
        oscillation_count: 0,
        max_severity: Double { bits: 0 },
        overall_quality_score: 100,
    };
    for i in 0..list.len()
        invariant
            s.spikes_count == kind_count(all, AnomalyType::Spike, i as nat),
            s.noise_count == kind_count(all, AnomalyType::ExcessiveNoise, i as nat),
            s.signal_loss_count == kind_count(all, AnomalyType::SignalLoss, i as nat),
            s.drift_count == kind_count(all, AnomalyType::AbnormalDrift, i as nat),
            s.oscillation_count == kind_count(all, AnomalyType::Oscillation, i as nat),
            s.max_severity == worst(all, i as nat),
    {
        proof {
            law_kinds_add_up(all, i as nat);
        }
        assert(all[i as int] == list@[i as int]@);
        match list[i].anomaly_type {
            AnomalyType::Spike => {
                s.spikes_count += 1;
            },
            AnomalyType::ExcessiveNoise => {
                s.noise_count += 1;
            },
            AnomalyType::SignalLoss => {
                s.signal_loss_count += 1;
            },
            AnomalyType::AbnormalDrift => {
                s.drift_count += 1;
            },
            AnomalyType::Oscillation => {
                s.oscillation_count += 1;
            },
        }
        s.max_severity = double::max_double(s.max_severity, list[i].severity);
    }
    let cost: u128 = 5 * s.spikes_count as u128 + 10 * s.noise_count as u128 + 20
        * s.signal_loss_count as u128 + 15 * s.oscillation_count as u128;
    s.overall_quality_score = if cost >= 100 { 0 } else { (100 - cost) as u8 };
    s
}

/// The report of a flight, given what was found in its signals. Of several
/// anomalies, every one has a time.
#[verifier::loop_isolation(false)]
pub fn analyze_flight_anomalies(flight_id: &str, found: &Vec<Anomaly>) -> (r: AnomalyReport)
    requires
        found@.len() >= 2 ==> forall|i: int|
            0 <= i < found@.len() ==> !(#[trigger] found@[i]).timestamp.nan(),
    ensures
        r.flight_id@ == flight_id@,
        r.total_anomalies == found@.len(),
        is_timeline(shown(found@), shown(r.anomalies@)),
        sums_up(shown(r.anomalies@), r.summary),
{
    let ghost all = shown(found@);
    let mut keys: Vec<i64> = Vec::new();
    for i in 0..found.len()
        invariant
            keys@ == times(all).take(i as int),
    {
        assert(all[i as int] == found@[i as int]@);
        keys.push(found[i].timestamp.place());
        assert(keys@ == times(all).take(i + 1));
    }
    assert(keys@ == times(all));
    let order = double::stable_order(&keys);
    let mut anomalies: Vec<Anomaly> = Vec::new();
    for k in 0..order.len()
        invariant
            anomalies@.len() == k,
            forall|m: int| 0 <= m < k ==> #[trigger] shown(anomalies@)[m] == all[order@[m] as int],
    {
        let ghost before = shown(anomalies@);
        let next = found[order[k]].clone();
        assert(all[order@[k as int] as int] == next@);
        anomalies.push(next);
        assert(shown(anomalies@) == before.push(next@));
    }
    assert(follows(all, shown(anomalies@), order@));
    let summary = summarize(&anomalies);
    AnomalyReport {
        flight_id: String::from_str(flight_id),
        total_anomalies: anomalies.len(),
        anomalies,
        summary,
    }
}

/// A flight without anomalies is as good as can be, and more anomalies make
/// none better.
pub proof fn law_quality(
    spikes: nat,
    noise: nat,
    loss: nat,
    oscillation: nat,
    more: (nat, nat, nat, nat),
)
    ensures
        quality(0, 0, 0, 0) == 100,
        quality(spikes, noise, loss, oscillation) <= 100,
        quality(spikes + more.0, noise + more.1, loss + more.2, oscillation + more.3) <= quality(
            spikes,
            noise,
            loss,
            oscillation,
        ),
{
}

/// In a report, no anomaly comes before an earlier one.
pub proof fn law_timeline(found: Seq<AnomalyView>, list: Seq<AnomalyView>, i: int, j: int)
    requires
        is_timeline(found, list),
        0 <= i < j < list.len(),
    ensures
        !list[j].timestamp.lt(list[i].timestamp),
{
    let order = choose|order: Seq<usize>| #[trigger] follows(found, list, order);
    assert(double::goes_before(times(found), order[i] as int, order[j] as int));
    assert(times(found)[order[i] as int] == list[i].timestamp.rank() as i64);
    assert(times(found)[order[j] as int] == list[j].timestamp.rank() as i64);
}

/// A stretch without change that is reported is longer than ten steps, every
/// one of them is still, and the step after it is not.
pub proof fn law_losses(steps: Seq<Double>, n: nat, k: int)
    requires
        n <= steps.len(),
        n <= usize::MAX,
        0 <= k < losses(steps, n).len(),
    ensures
        ({
            let l = losses(steps, n)[k];
            &&& l.steps > STILL_STEPS
            &&& l.last + 1 == l.start + l.steps
            &&& l.last < n
            &&& !is_still(steps[l.last as int])
            &&& forall|i: int| l.start - 1 <= i < l.last ==> is_still(#[trigger] steps[i])
        }),
    decreases n,
{
    let rest = losses(steps, (n - 1) as nat);
    if k < rest.len() {
        law_losses(steps, (n - 1) as nat, k);
        assert(losses(steps, n)[k] == rest[k]);
    } else {
        lemma_still_run(steps, (n - 1) as nat);
    }
}

proof fn lemma_still_run(steps: Seq<Double>, n: nat)
    ensures
        still_before(steps, n) <= n,
        forall|i: int| n - still_before(steps, n) <= i < n ==> is_still(#[trigger] steps[i]),
    decreases n,
{
    if n > 0 && is_still(steps[n - 1]) {
        lemma_still_run(steps, (n - 1) as nat);
    }
}


/// The spikes are exactly the samples with both neighbours further away than
/// the threshold.
pub proof fn law_spikes(steps: Seq<Double>, threshold: Double, n: nat, i: usize)
    requires
        n <= usize::MAX,
    ensures
        spikes(steps, threshold, n).contains(i) <==> 1 <= i < n && threshold.lt(
            jump(steps[i - 1]),
        ) && threshold.lt(jump(steps[i as int])),
    decreases n,
{
    if n > 1 {
        law_spikes(steps, threshold, (n - 1) as nat, i);
        lemma_contains_pushed(spikes(steps, threshold, (n - 1) as nat), (n - 1) as usize, i);
    }
}

/// The noisy windows are exactly those that deviate by more than the threshold.
pub proof fn law_noisy(deviations: Seq<Double>, threshold: Double, n: nat, i: usize)
    requires
        n <= usize::MAX,
    ensures
        noisy(deviations, threshold, n).contains(i) <==> i < n && threshold.lt(
            deviations[i as int],
        ),
    decreases n,
{
    if n > 0 {
        law_noisy(deviations, threshold, (n - 1) as nat, i);
        lemma_contains_pushed(noisy(deviations, threshold, (n - 1) as nat), (n - 1) as usize, i);
    }
}

/// A longer list holds what the shorter one held, and the item at its end.
proof fn lemma_contains_pushed(list: Seq<usize>, last: usize, i: usize)
    ensures
        list.push(last).contains(i) <==> list.contains(i) || i == last,
{
    let longer = list.push(last);
    assert(longer[list.len() as int] == last);
    if list.contains(i) {
        let k = choose|k: int| 0 <= k < list.len() && list[k] == i;
        assert(longer[k] == i);
    }
}

/// Steps `i - 1` and `i` go in different directions: one has the bit of the sign
/// and the other has not, or one is no number.
pub open spec fn turn_at(steps: Seq<Double>) -> spec_fn(int) -> bool {
    |i: int|
        steps[i - 1].nan() || steps[i].nan() || (steps[i - 1].bits >= 0x8000_0000_0000_0000) != (
        steps[i].bits >= 0x8000_0000_0000_0000)
}

/// A signal turns as often as there are steps that go in another direction than
/// the step before: every one of them counts, however many came before.
pub proof fn law_crossings(steps: Seq<Double>, n: nat)
    ensures
        crossings(steps, n) == lists::count_of(turn_at(steps), 1, n as int),
    decreases n,
{
    if n <= 1 {
        lists::lemma_count_of_none(turn_at(steps), 1, n as int);
    } else {
        law_crossings(steps, (n - 1) as nat);
        lists::lemma_count_of_next(turn_at(steps), 1, n - 1);
    }
}

/// Anomaly `i` is of the kind.
pub open spec fn kind_at(list: Seq<AnomalyView>, kind: AnomalyType) -> spec_fn(int) -> bool {
    |i: int| list[i].anomaly_type == kind
}

/// A kind counts as often as there are anomalies of it.
pub proof fn law_kind_count(list: Seq<AnomalyView>, kind: AnomalyType, n: nat)
    ensures
        kind_count(list, kind, n) == lists::count_of(kind_at(list, kind), 0, n as int),
    decreases n,
{
    if n == 0 {
        lists::lemma_count_of_none(kind_at(list, kind), 0, 0);
    } else {
        law_kind_count(list, kind, (n - 1) as nat);
        lists::lemma_count_of_next(kind_at(list, kind), 0, n - 1);
    }
}

/// What a report sums up: how often each kind occurs among its anomalies, a
/// severity that none of them exceeds and that one of them has or is zero, and
/// what is left of a hundred when each spike costs 5, each noisy window 10, each
/// loss 20 and each oscillation 15.
pub proof fn law_summary(list: Seq<AnomalyView>, s: AnomalySummary)
    requires
        sums_up(list, s),
    ensures
        ({
            let n = list.len() as int;
            let cost = 5 * s.spikes_count + 10 * s.noise_count + 20 * s.signal_loss_count + 15
                * s.oscillation_count;
            &&& s.spikes_count == lists::count_of(kind_at(list, AnomalyType::Spike), 0, n)
            &&& s.noise_count == lists::count_of(kind_at(list, AnomalyType::ExcessiveNoise), 0, n)
            &&& s.signal_loss_count == lists::count_of(kind_at(list, AnomalyType::SignalLoss), 0, n)
            &&& s.drift_count == lists::count_of(kind_at(list, AnomalyType::AbnormalDrift), 0, n)
            &&& s.oscillation_count == lists::count_of(
                kind_at(list, AnomalyType::Oscillation),
                0,
                n,
            )
            &&& forall|i: int| 0 <= i < n ==> !s.max_severity.lt((#[trigger] list[i]).severity)
            &&& !s.max_severity.lt(Double { bits: 0 })
            &&& s.max_severity.bits == 0 || exists|i: int|
                0 <= i < n && (#[trigger] list[i]).severity == s.max_severity
            &&& cost < 100 ==> s.overall_quality_score == 100 - cost
            &&& cost >= 100 ==> s.overall_quality_score == 0
        }),
{
    law_kind_count(list, AnomalyType::Spike, list.len());
    law_kind_count(list, AnomalyType::ExcessiveNoise, list.len());
    law_kind_count(list, AnomalyType::SignalLoss, list.len());
    law_kind_count(list, AnomalyType::AbnormalDrift, list.len());
    law_kind_count(list, AnomalyType::Oscillation, list.len());
    lemma_worst(list, list.len());
}

proof fn lemma_worst(list: Seq<AnomalyView>, n: nat)
    ensures
        !worst(list, n).nan(),
        !worst(list, n).lt(Double { bits: 0 }),
        forall|i: int| 0 <= i < n ==> !worst(list, n).lt((#[trigger] list[i]).severity),
        worst(list, n).bits == 0 || exists|i: int|
            0 <= i < n && (#[trigger] list[i]).severity == worst(list, n),
    decreases n,
{
    if n > 0 {
        lemma_worst(list, (n - 1) as nat);
        assert(list[n - 1].severity == list[n - 1].severity);
    }
}

/// A step that moves the signal by less than a hundredth, whatever its
/// direction.
pub open spec fn hardly_moves(step: Double) -> bool {
    (Double {
        bits: if step.bits >= 0x8000_0000_0000_0000 {
            (step.bits - 0x8000_0000_0000_0000) as u64
        } else {
            step.bits
        },
    }).lt(Double { bits: 0x3f84_7ae1_47ae_147b })
}

/// The steps from `from` up to `to` hardly move the signal, and those right
/// before and right after do, or there is none before.
pub open spec fn is_standstill(steps: Seq<Double>, from: int, to: int) -> bool {
    &&& 0 <= from < to < steps.len()
    &&& forall|i: int| from <= i < to ==> hardly_moves(#[trigger] steps[i])
    &&& !hardly_moves(steps[to])
    &&& from > 0 ==> !hardly_moves(steps[from - 1])
}

/// The stretches without change that are reported are exactly those of more than
/// ten steps that come to an end.
pub proof fn law_losses_exact(steps: Seq<Double>, l: Loss)
    requires
        steps.len() <= usize::MAX,
    ensures
        losses(steps, steps.len()).contains(l) <==> l.steps > 10 && is_standstill(
            steps,
            l.start - 1,
            l.last as int,
        ) && l.last - (l.start - 1) == l.steps,
{
    lemma_losses_exact(steps, steps.len(), l);
}

proof fn lemma_losses_exact(steps: Seq<Double>, n: nat, l: Loss)
    requires
        n <= steps.len(),
        steps.len() <= usize::MAX,
    ensures
        losses(steps, n).contains(l) <==> l.last < n && l.steps > 10 && is_standstill(
            steps,
            l.start - 1,
            l.last as int,
        ) && l.last - (l.start - 1) == l.steps,
    decreases n,
{
    assert(forall|d: Double| #[trigger] is_still(d) == hardly_moves(d));
    if n > 0 {
        lemma_losses_exact(steps, (n - 1) as nat, l);
        let rest = losses(steps, (n - 1) as nat);
        let count = still_before(steps, (n - 1) as nat);
        lemma_still_exact(steps, (n - 1) as nat);
        let own = Loss { start: (n - count) as usize, last: (n - 1) as usize, steps: count as usize };
        if !is_still(steps[n - 1]) && count > 10 {
            let all = rest.push(own);
            assert(losses(steps, n) == all);
            assert(all[rest.len() as int] == own);
            assert(all.contains(l) <==> rest.contains(l) || l == own) by {
                if rest.contains(l) {
                    let k = choose|k: int| 0 <= k < rest.len() && rest[k] == l;
                    assert(all[k] == l);
                }
            }
            assert(is_standstill(steps, own.start - 1, own.last as int));
        }
        if l.last == n - 1 && l.steps > 10 && is_standstill(steps, l.start - 1, l.last as int)
            && l.last - (l.start - 1) == l.steps {
            let from = l.start - 1;
            assert(!is_still(steps[n - 1]));
            if n - 1 - count > from {
                assert(hardly_moves(steps[n - 1 - count - 1]));
            }
            if n - 1 - count < from {
                assert(is_still(steps[from - 1]));
            }
            assert(l == own);
        }
    }
}

/// The still steps right before `n`, and that the one before them is not still.
proof fn lemma_still_exact(steps: Seq<Double>, n: nat)
    ensures
        still_before(steps, n) <= n,
        forall|i: int| n - still_before(steps, n) <= i < n ==> is_still(#[trigger] steps[i]),
        still_before(steps, n) < n ==> !is_still(steps[n - still_before(steps, n) - 1]),
    decreases n,
{
    if n > 0 && is_still(steps[n - 1]) {
        lemma_still_exact(steps, (n - 1) as nat);
    }
}

/// Sample `i`, where both its neighbours are further away than the threshold.
pub open spec fn spike_at(steps: Seq<Double>, threshold: Double) -> spec_fn(int) -> Option<usize> {
    |i: int|
        if threshold.lt(Double { bits: steps[i - 1].size() as u64 }) && threshold.lt(
            Double { bits: steps[i].size() as u64 },
        ) {
            Some(i as usize)
        } else {
            None
        }
}

/// The spikes are reported in their order, each once, and all of them.
pub proof fn law_spikes_in_order(steps: Seq<Double>, threshold: Double, n: nat)
    ensures
        lists::gathers(spike_at(steps, threshold), 1, n as int, spikes(steps, threshold, n)),
    decreases n,
{
    if n <= 1 {
        lists::lemma_gathers_nothing(spike_at(steps, threshold), 1, n as int);
    } else {
        law_spikes_in_order(steps, threshold, (n - 1) as nat);
        lists::lemma_gathers_next(
            spike_at(steps, threshold),
            1,
            n - 1,
            spikes(steps, threshold, (n - 1) as nat),
        );
    }
}

/// The sign of a step is not part of its size.
pub proof fn law_step_size(d: Double)
    ensures
        d.bits < 0x8000_0000_0000_0000 ==> d.size() == d.bits,
        d.bits >= 0x8000_0000_0000_0000 ==> d.size() == d.bits - 0x8000_0000_0000_0000,
{
}

/// Window `i`, where it deviates by more than the threshold.
pub open spec fn noise_at(deviations: Seq<Double>, threshold: Double) -> spec_fn(int) -> Option<
    usize,
> {
    |i: int|
        if threshold.lt(deviations[i]) {
            Some(i as usize)
        } else {
            None
        }
}

/// The noisy windows are reported in their order, each once, and all of them.
pub proof fn law_noise_in_order(deviations: Seq<Double>, threshold: Double, n: nat)
    ensures
        lists::gathers(noise_at(deviations, threshold), 0, n as int, noisy(deviations, threshold, n)),
    decreases n,
{
    if n == 0 {
        lists::lemma_gathers_nothing(noise_at(deviations, threshold), 0, 0);
    } else {
        law_noise_in_order(deviations, threshold, (n - 1) as nat);
        lists::lemma_gathers_next(
            noise_at(deviations, threshold),
            0,
            n - 1,
            noisy(deviations, threshold, (n - 1) as nat),
        );
    }
}

/// A report holds every anomaly that was found, each as often as it was found,
/// and those of one time in the order in which they were found.
pub proof fn law_timeline_complete(found: Seq<AnomalyView>, list: Seq<AnomalyView>)
    requires
        is_timeline(found, list),
        found.len() <= usize::MAX,
    ensures
        list.len() == found.len(),
        exists|order: Seq<usize>|
            #![trigger order.no_duplicates()]
            order.no_duplicates() && order.len() == found.len() && (forall|i: usize|
                i < found.len() ==> #[trigger] order.contains(i)) && (forall|k: int|
                0 <= k < list.len() ==> 0 <= #[trigger] order[k] < found.len() && list[k]
                    == found[order[k] as int]) && (forall|k: int, m: int|
                0 <= k < m < list.len() && list[k].timestamp == list[m].timestamp
                    ==> #[trigger] order[k] < #[trigger] order[m]),
{
    let order = choose|order: Seq<usize>| #[trigger] follows(found, list, order);
    assert forall|i: usize| i < found.len() implies #[trigger] order.contains(i) by {
        double::law_stable_order(times(found), order, i);
    }
    double::law_stable_order(times(found), order, 0);
    assert forall|k: int, m: int| 0 <= k < m < list.len() && list[k].timestamp == list[m].timestamp implies #[trigger] order[k]
        < #[trigger] order[m] by {
        assert(double::goes_before(times(found), order[k] as int, order[m] as int));
        assert(times(found)[order[k] as int] == times(found)[order[m] as int]);
    }
    assert(order.no_duplicates());
}

/// A signal oscillates exactly where it turns more than twice and less than
/// fifteen times in a second.
pub proof fn law_oscillates(frequency: Double)
    ensures
        oscillates(frequency) <==> (Double { bits: 0x4000_0000_0000_0000 }).lt(frequency)
            && frequency.lt(Double { bits: 0x402e_0000_0000_0000 }),
{
}

/// A severity that is capped is at most a hundred, and one that is no more stays
/// as it is.
pub proof fn law_capped(severity: Double)
    ensures
        !(Double { bits: 0x4059_0000_0000_0000 }).lt(capped(severity)),
        !capped(severity).nan(),
        !severity.nan() && !(Double { bits: 0x4059_0000_0000_0000 }).lt(severity) ==> capped(severity)
            == severity,
        severity.nan() || (Double { bits: 0x4059_0000_0000_0000 }).lt(severity) ==> capped(
            severity,
        ).bits == 0x4059_0000_0000_0000,
{
}

/// An anomaly is shown as what it is.
pub proof fn law_anomaly_view(a: Anomaly)
    ensures
        a@.timestamp == a.timestamp,
        a@.anomaly_type == a.anomaly_type,
        a@.severity == a.severity,
        a@.description == a.description@,
        a@.affected_axis == a.affected_axis@,
        a@.value == a.value,
{
}

}

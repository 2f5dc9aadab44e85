//! Counters of what comes in and what is written.

use vstd::prelude::*;

verus! {

/// Counters of the ingestion, and the reading of the clock at the last flush.
#[derive(Debug, PartialEq, Eq, Clone, Copy)]
pub struct IngestStats {
    pub udp_received: u64,
    pub selected_kept: u64,
    pub ilp_enqueued: u64,
    pub ilp_flushed: u64,
    pub ilp_failed: u64,
    pub last_flush_instant_ns: u64,
    pub channel_depth: u64,
}

impl Default for IngestStats {
    fn default() -> (r: IngestStats)
        ensures
            r == (IngestStats {
                udp_received: 0,
                selected_kept: 0,
                ilp_enqueued: 0,
                ilp_flushed: 0,
                ilp_failed: 0,
                last_flush_instant_ns: 0,
                channel_depth: 0,
            }),
    {
        IngestStats {
            udp_received: 0,
            selected_kept: 0,
            ilp_enqueued: 0,
            ilp_flushed: 0,
            ilp_failed: 0,
            last_flush_instant_ns: 0,
            channel_depth: 0,
        }
    }
}

#[verifier::external_type_specification]
#[verifier::external_body]
pub struct ExInstant(std::time::Instant);

/// The present on the monotonic clock, by `std::time::Instant::now`. Nothing is
/// said of which instant that is.
#[verifier::external_body]
fn instant() -> (r: std::time::Instant) {
    std::time::Instant::now()
}

/// The nanoseconds from `from` to `to`, zero where `from` is the later, by
/// `std::time::Instant::duration_since`. An `Instant` shows nothing of itself,
/// so nothing is said of them.
#[verifier::external_body]
fn nanos_since(to: std::time::Instant, from: std::time::Instant) -> (r: u128) {
    to.duration_since(from).as_nanos()
}

/// What the clock reads at an instant that the next one follows `gap`
/// nanoseconds later: the nanoseconds that have passed at it since one
/// nanosecond before the next; none where that is later.
pub open spec fn reading(gap: u128) -> u64 {
    if gap >= 1 {
        0
    } else {
        (1 - gap) as u64
    }
}

/// What the clock reads at an instant that the next one follows `gap`
/// nanoseconds later.
pub fn reading_before(gap: u128) -> (r: u64)
    ensures
        r == reading(gap),
{
    if gap >= 1 {
        0
    } else {
        (1 - gap) as u64
    }
}

/// A reading of the monotonic clock. How soon the next instant follows is left
/// to the machine.
fn clock_reading() -> (r: u64)
    ensures
        exists|gap: u128| r == #[trigger] reading(gap),
{
    let this = instant();
    let next = instant();
    reading_before(nanos_since(next, this))
}

/// What the counters show at one moment.
#[derive(Debug, PartialEq, Eq, Clone, Copy)]
pub struct StatsSnapshot {
    pub udp_received: u64,
    pub selected_kept: u64,
    pub ilp_enqueued: u64,
    pub ilp_flushed: u64,
    pub ilp_failed: u64,
    pub channel_depth: u64,
    pub flush_lag_ms: u64,
}

/// The whole milliseconds from `last` to `now`; none where there was no flush,
/// or where the clock reads less than then.
pub open spec fn flush_lag(last: u64, now: u64) -> u64 {
    if last == 0 || now <= last {
        0
    } else {
        ((now - last) / 1_000_000) as u64
    }
}

/// What the counters show when the clock reads `now`.
pub open spec fn snapshot(s: IngestStats, now: u64) -> StatsSnapshot {
    StatsSnapshot {
        udp_received: s.udp_received,
        selected_kept: s.selected_kept,
        ilp_enqueued: s.ilp_enqueued,
        ilp_flushed: s.ilp_flushed,
        ilp_failed: s.ilp_failed,
        channel_depth: s.channel_depth,
        flush_lag_ms: flush_lag(s.last_flush_instant_ns, now),
    }
}

impl IngestStats {
    /// Notes that lines were flushed when the clock read `now`.
    pub fn mark_flush_at(&mut self, now: u64)
        ensures
            *final(self) == (IngestStats { last_flush_instant_ns: now, ..*old(self) }),
    {
        self.last_flush_instant_ns = now;
    }

    /// Notes that lines were flushed now.
    pub fn mark_flush_now(&mut self)
        ensures
            exists|gap: u128|
                *final(self) == (IngestStats {
                    last_flush_instant_ns: #[trigger] reading(gap),
                    ..*old(self)
                }),
    {
        let now: u64 = clock_reading();
        self.mark_flush_at(now);
    }

    /// What the counters show when the clock reads `now`.
    pub fn snapshot_at(&self, now: u64) -> (r: StatsSnapshot)
        ensures
            r == snapshot(*self, now),
    {
        let last: u64 = self.last_flush_instant_ns;
        let flush_lag_ms: u64 = if last == 0 || now <= last { 0 } else { (now - last) / 1_000_000 };
        StatsSnapshot {
            udp_received: self.udp_received,
            selected_kept: self.selected_kept,
            ilp_enqueued: self.ilp_enqueued,
            ilp_flushed: self.ilp_flushed,
            ilp_failed: self.ilp_failed,
            channel_depth: self.channel_depth,
            flush_lag_ms,
        }
    }
}

/// What the counters show now.
pub fn get_stats(stats: &IngestStats) -> (r: StatsSnapshot)
    ensures
        exists|gap: u128| r == snapshot(*stats, #[trigger] reading(gap)),
{
    stats.snapshot_at(clock_reading())
}

/// A flush that was just noted lags by nothing, and noting it changes no
/// counter.
pub proof fn law_flush_resets_lag(s: IngestStats, now: u64)
    ensures
        snapshot(IngestStats { last_flush_instant_ns: now, ..s }, now) == (StatsSnapshot {
            flush_lag_ms: 0,
            ..snapshot(s, now)
        }),
{
}

/// As time goes on without a flush, the lag does not shrink.
pub proof fn law_lag_grows(last: u64, now: u64, later: u64)
    requires
        now <= later,
    ensures
        flush_lag(last, now) <= flush_lag(last, later),
{
}

/// The lag of a flush is in whole milliseconds, and nothing before the first
/// flush or where the clock has not gone on.
pub proof fn law_flush_lag(last: u64, now: u64)
    ensures
        last > 0 && now > last ==> 1_000_000 * flush_lag(last, now) <= now - last < 1_000_000 * (
        flush_lag(last, now) + 1),
        last == 0 || now <= last ==> flush_lag(last, now) == 0,
{
}

/// A snapshot shows every counter as it is.
pub proof fn law_snapshot(s: IngestStats, now: u64)
    ensures
        ({
            let shown = snapshot(s, now);
            &&& shown.udp_received == s.udp_received
            &&& shown.selected_kept == s.selected_kept
            &&& shown.ilp_enqueued == s.ilp_enqueued
            &&& shown.ilp_flushed == s.ilp_flushed
            &&& shown.ilp_failed == s.ilp_failed
            &&& shown.channel_depth == s.channel_depth
            &&& shown.flush_lag_ms == flush_lag(s.last_flush_instant_ns, now)
        }),
{
}

/// The clock reads one where the next instant is the same, and nothing where it
/// comes later.
pub proof fn law_clock_reading(gap: u128)
    ensures
        gap == 0 ==> reading(gap) == 1,
        gap > 0 ==> reading(gap) == 0,
{
}

}

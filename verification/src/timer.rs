//! Frame timing on the monotonic clock.

use std::time::{Duration, Instant};
use vstd::prelude::*;

verus! {

/// A reading of the monotonic clock, taken as it is.
#[verifier::external_type_specification]
#[verifier::external_body]
pub struct ExInstant(std::time::Instant);

/// The length of a duration in nanoseconds: what `Duration::as_nanos` returns.
pub uninterp spec fn duration_nanos(d: Duration) -> nat;

/// Calls `Instant::now`. Nothing is said of the instant that comes back.
#[verifier::external_body]
fn now() -> Instant {
    Instant::now()
}

/// Calls `Instant::elapsed`. The result depends on the clock, so nothing is
/// said of it.
#[verifier::external_body]
fn elapsed_since(start: &Instant) -> Duration {
    start.elapsed()
}

/// Calls `Duration::as_nanos`: the whole length of `d`, in nanoseconds.
#[verifier::external_body]
fn as_nanos(d: &Duration) -> (nanos: u128)
    ensures
        nanos == duration_nanos(*d),
{
    d.as_nanos()
}

/// Calls `Duration::from_nanos`: the duration of that many nanoseconds.
#[verifier::external_body]
fn from_nanos(nanos: u64) -> (d: Duration)
    ensures
        duration_nanos(d) == nanos,
{
    Duration::from_nanos(nanos)
}

/// The delta that a tick reports when the clock reads `now` and the last
/// tick was at `last`, both in nanoseconds: the time in between, and nothing
/// where the clock has not advanced.
pub open spec fn tick_delta(last: nat, now: nat) -> nat {
    if now >= last {
        (now - last) as nat
    } else {
        0
    }
}

/// The time of the last tick after one at `now`: the later of the two.
pub open spec fn tick_mark(last: nat, now: nat) -> nat {
    if now >= last {
        now
    } else {
        last
    }
}

/// A number of nanoseconds as the timer holds it: the number itself up to
/// `u64::MAX`, and `u64::MAX` for any larger one.
pub open spec fn capped_nanos(nanos: nat) -> nat {
    if nanos > u64::MAX {
        u64::MAX as nat
    } else {
        nanos
    }
}

/// A timer that reports the time since it was started and the time between
/// successive ticks.
///
/// The last tick is held as a number of nanoseconds after the start, so it
/// never lies before the start. The number goes up to `u64::MAX` (somewhat
/// over 584 years); a later reading counts as that.
#[derive(Debug)]
pub struct AnimationTimer {
    start_time: Instant,
    last_update: u64,
}

impl AnimationTimer {
    /// The instant at which the timer was started.
    pub closed spec fn start(&self) -> Instant {
        self.start_time
    }

    /// The time of the last tick, in nanoseconds after the start.
    pub closed spec fn last_update(&self) -> nat {
        self.last_update as nat
    }

    /// A timer started now. Its last tick is the start.
    pub fn new() -> (timer: Self)
        ensures
            timer.last_update() == 0,
    {
        AnimationTimer::started_at(now())
    }

    /// A timer started at the instant `at`. Its last tick is the start.
    pub fn started_at(at: Instant) -> (timer: Self)
        ensures
            timer.start() == at,
            timer.last_update() == 0,
    {
        AnimationTimer { start_time: at, last_update: 0 }
    }

    /// The time since the timer was started, as the clock gives it.
    pub fn elapsed(&self) -> Duration {
        elapsed_since(&self.start_time)
    }

    /// The reading that the timer takes from what the clock gave as the time
    /// since the start: its length in nanoseconds, capped at `u64::MAX`.
    fn reading(since_start: &Duration) -> (nanos: u64)
        ensures
            nanos == capped_nanos(duration_nanos(*since_start)),
    {
        let nanos: u128 = as_nanos(since_start);
        if nanos > u64::MAX as u128 {
            u64::MAX
        } else {
            nanos as u64
        }
    }

    /// Records a tick at `now` nanoseconds after the start and returns the
    /// time since the last tick. A reading that lies before the last tick
    /// counts as no time passed and leaves the last tick where it is. The
    /// start stays where it is.
    pub fn advance(&mut self, now: u64) -> (delta: u64)
        ensures
            delta == tick_delta(old(self).last_update(), now as nat),
            final(self).last_update() == tick_mark(old(self).last_update(), now as nat),
            final(self).start() == old(self).start(),
    {
        if now >= self.last_update {
            let delta: u64 = now - self.last_update;
            self.last_update = now;
            delta
        } else {
            0
        }
    }

    /// The time since the last tick (or since the start, before the first),
    /// which becomes the time of the last tick.
    pub fn tick(&mut self) -> (delta: Duration)
        ensures
            final(self).last_update() >= old(self).last_update(),
            duration_nanos(delta) == final(self).last_update() - old(self).last_update(),
            final(self).start() == old(self).start(),
    {
        let since_start = elapsed_since(&self.start_time);
        let now: u64 = Self::reading(&since_start);
        let delta: u64 = self.advance(now);
        from_nanos(delta)
    }

    /// Starts the timer anew: the start and the last tick are now.
    pub fn reset(&mut self)
        ensures
            final(self).last_update() == 0,
    {
        self.restart_at(now());
    }

    /// Starts the timer anew at the instant `at`: the start and the last tick
    /// are both that instant.
    pub fn restart_at(&mut self, at: Instant)
        ensures
            final(self).start() == at,
            final(self).last_update() == 0,
    {
        self.start_time = at;
        self.last_update = 0;
    }
}

impl Default for AnimationTimer {
    fn default() -> (timer: Self)
        ensures
            timer.last_update() == 0,
    {
        AnimationTimer::new()
    }
}

/// Successive ticks cut time into deltas that follow one another without gap
/// or overlap: with readings that do not go back, the deltas of two ticks add
/// up to the time from the tick before them to the second.
pub proof fn lemma_ticks_partition_time(last: nat, first: nat, second: nat)
    requires
        last <= first <= second,
    ensures
        tick_delta(last, first) + tick_delta(tick_mark(last, first), second) == second - last,
        tick_mark(tick_mark(last, first), second) == second,
{
}

/// A tick never reports negative time and never moves the last tick back.
pub proof fn lemma_tick_monotone(last: nat, now: nat)
    ensures
        tick_mark(last, now) >= last,
        tick_mark(last, now) >= now,
        tick_mark(last, now) == last + tick_delta(last, now),
{
}

} // verus!

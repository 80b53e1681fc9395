//! Timing of repeated work: how long the last run took, and the runs on average.

use vstd::prelude::*;
use std::time::{Duration, Instant};

verus! {

/// A length of time in nanoseconds.
pub type Nanos = u128;

/// Declares `std::time::Instant`, a reading of the monotonic clock, as a type whose
/// inside is not looked at.
#[verifier::external_type_specification]
#[verifier::external_body]
pub struct ExInstant(std::time::Instant);

/// Calls `Instant::now`: the reading of the monotonic clock at the time of the call.
/// Nothing is claimed of it.
#[verifier::external_body]
fn now() -> Instant {
    Instant::now()
}

/// Calls `Instant::duration_since` on `later`: the time from `earlier` to `later`, and
/// no time where `earlier` is the later of the two. Nothing is claimed of it.
#[verifier::external_body]
fn time_between(earlier: &Instant, later: &Instant) -> Duration {
    later.duration_since(*earlier)
}

/// Calls `Duration::as_nanos`: the length of `time` in whole nanoseconds. Nothing is
/// claimed of the number.
#[verifier::external_body]
fn in_nanos(time: &Duration) -> Nanos {
    time.as_nanos()
}

/// Runs `f` and hands back how long it took, with what it gave.
pub fn measure<F, T>(f: F) -> (timed: (Nanos, T)) where F: FnOnce() -> T
    requires
        f.requires(()),
    ensures
        f.ensures((), timed.1),
{
    let t1 = now();
    let value = f();
    let t2 = now();
    (in_nanos(&time_between(&t1, &t2)), value)
}

/// The count of timed runs, their total time and the time of the last one.
pub struct Timings {
    pub count: nat,
    pub total: nat,
    pub last: nat,
}

impl Timings {
    /// No run yet.
    pub open spec fn none() -> Timings {
        Timings { count: 0, total: 0, last: 0 }
    }

    /// The timings with one more run of `nanos` nanoseconds. The total stops at the
    /// largest number that the machine holds.
    pub open spec fn recorded(self, nanos: Nanos) -> Timings {
        Timings {
            count: self.count + 1,
            total: if self.total + nanos > u128::MAX {
                u128::MAX as nat
            } else {
                self.total + nanos as nat
            },
            last: nanos as nat,
        }
    }
}

/// Timings of work that is done again and again.
pub struct Repeated {
    num_samples: u32,
    total_time: Nanos,
    prev_time: Nanos,
}

impl View for Repeated {
    type V = Timings;

    closed spec fn view(&self) -> Timings {
        Timings {
            count: self.num_samples as nat,
            total: self.total_time as nat,
            last: self.prev_time as nat,
        }
    }
}

impl Repeated {
    /// The numbers of a `Repeated` fit the machine.
    pub proof fn lemma_bounds(&self)
        ensures
            self@.count <= u32::MAX,
            self@.total <= u128::MAX,
            self@.last <= u128::MAX,
    {
    }

    /// Timings with no run yet.
    pub fn new() -> (timings: Self)
        ensures
            timings@ == Timings::none(),
    {
        Repeated { num_samples: 0, total_time: 0, prev_time: 0 }
    }

    /// Takes in one run of `nanos` nanoseconds.
    pub fn record(&mut self, nanos: Nanos)
        requires
            old(self)@.count < u32::MAX,
        ensures
            final(self)@ == old(self)@.recorded(nanos),
    {
        self.num_samples += 1;
        self.total_time = self.total_time.saturating_add(nanos);
        self.prev_time = nanos;
    }

    /// Runs `f`, takes its time in and hands back what it gave.
    pub fn measure<F, T>(&mut self, f: F) -> (value: T) where F: FnOnce() -> T
        requires
            f.requires(()),
            old(self)@.count < u32::MAX,
        ensures
            f.ensures((), value),
            final(self)@ == old(self)@.recorded(final(self)@.last as Nanos),
    {
        let (time, value) = measure(f);
        self.record(time);
        value
    }

    /// Takes in the time that has passed since `mark` was made.
    pub fn sample(&mut self, mark: &Mark)
        requires
            old(self)@.count < u32::MAX,
        ensures
            final(self)@ == old(self)@.recorded(final(self)@.last as Nanos),
    {
        let t2 = now();
        let time = in_nanos(&time_between(&mark.time, &t2));
        self.record(time);
    }

    /// How many runs were timed.
    pub fn num_samples(&self) -> (count: u32)
        ensures
            count == self@.count,
    {
        self.num_samples
    }

    /// The mean time of a run, rounded down.
    pub fn average(&self) -> (mean: Nanos)
        requires
            self@.count > 0,
        ensures
            mean == self@.total / self@.count,
    {
        self.total_time / (self.num_samples as u128)
    }

    /// The time of the last run.
    pub fn prev_time(&self) -> (last: Nanos)
        ensures
            last == self@.last,
    {
        self.prev_time
    }
}

/// A point in time from which a run is timed.
pub struct Mark {
    time: Instant,
}

impl Mark {
    /// The present moment.
    pub fn new() -> Self {
        Mark { time: now() }
    }
}

} // verus!

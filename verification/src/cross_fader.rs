//! A cross-fader: a gain ramp that blends two signals.

use vstd::prelude::*;
use crate::delay::Sample;
use crate::envelope::{Envelope, UNITY, mix, mix_samples, ramp_step_of};

verus! {

/// Blends two signals, moving from one to the other without clicks.
pub struct CrossFader {
    value: i64,
    step_per_sample: i64,
}

impl View for CrossFader {
    type V = Envelope;

    closed spec fn view(&self) -> Envelope {
        Envelope { value: self.value as int, step: self.step_per_sample as int }
    }
}

impl CrossFader {
    /// The share of the first signal lies between zero and unity.
    pub open spec fn wf(&self) -> bool {
        self@.wf()
    }

    /// A cross-fader at rest with the first signal at gain `value`; a gain above unity
    /// counts as unity.
    pub fn new(value: u32) -> (fader: CrossFader)
        ensures
            fader.wf(),
            fader@ == Envelope::resting(value as int),
    {
        let start: i64 = if value as i64 > UNITY {
            UNITY
        } else {
            value as i64
        };
        CrossFader { value: start, step_per_sample: 0 }
    }

    /// Sets the blend to move to the first signal over `samples` samples.
    pub fn fade_in(&mut self, samples: usize)
        requires
            old(self).wf(),
            samples > 0,
        ensures
            final(self).wf(),
            final(self)@ == old(self)@.rising(samples as nat),
    {
        self.step_per_sample = ramp_step_of(samples);
    }

    /// Sets the blend to move to the second signal over `samples` samples.
    pub fn fade_out(&mut self, samples: usize)
        requires
            old(self).wf(),
            samples > 0,
        ensures
            final(self).wf(),
            final(self)@ == old(self)@.falling(samples as nat),
    {
        self.step_per_sample = -ramp_step_of(samples);
    }

    /// The gain as it stands, between zero and unity.
    pub fn value(&self) -> (gain: i64)
        ensures
            gain == self@.value,
    {
        self.value
    }

    /// Moves the blend one step on and hands back the two samples blended at the new gain.
    pub fn process(&mut self, sample_a: Sample, sample_b: Sample) -> (out: Sample)
        requires
            old(self).wf(),
        ensures
            final(self).wf(),
            final(self)@ == old(self)@.advanced(),
            out == mix(sample_a as int, sample_b as int, final(self)@.value),
            final(self)@.value == 0 ==> out == sample_b,
            final(self)@.value == UNITY ==> out == sample_a,
            sample_a <= sample_b ==> sample_a <= out <= sample_b,
            sample_b <= sample_a ==> sample_b <= out <= sample_a,
    {
        let moved: i64 = self.value + self.step_per_sample;
        self.value = if moved < 0 {
            0
        } else if moved > UNITY {
            UNITY
        } else {
            moved
        };
        proof {
            crate::envelope::lemma_mix_is_convex(
                sample_a as int,
                sample_b as int,
                self.value as int,
            );
        }
        mix_samples(sample_a, sample_b, self.value)
    }
}

} // verus!

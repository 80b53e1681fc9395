//! A fader: a gain ramp applied to one signal.

use vstd::prelude::*;
use crate::delay::Sample;
use crate::envelope::{Envelope, UNITY, ramp_step_of, scale, scale_sample};

verus! {

/// Fades one signal in and out without clicks.
pub struct Fader {
    value: i64,
    step_per_sample: i64,
}

impl View for Fader {
    type V = Envelope;

    closed spec fn view(&self) -> Envelope {
        Envelope { value: self.value as int, step: self.step_per_sample as int }
    }
}

impl Fader {
    /// The gain lies between zero and unity.
    pub open spec fn wf(&self) -> bool {
        self@.wf()
    }

    /// A fader at rest at gain `value`; a gain above unity counts as unity.
    pub fn new(value: u32) -> (fader: Fader)
        ensures
            fader.wf(),
            fader@ == Envelope::resting(value as int),
    {
        let start: i64 = if value as i64 > UNITY {
            UNITY
        } else {
            value as i64
        };
        Fader { value: start, step_per_sample: 0 }
    }

    /// Sets the gain to rise to unity over `samples` samples, from where it is now.
    pub fn fade_in(&mut self, samples: usize)
        requires
            old(self).wf(),
            samples > 0,
        ensures
            final(self).wf(),
            final(self)@ == old(self)@.rising(samples as nat),
    {
        self.step_per_sample = ramp_step_of(samples);
    }

    /// Sets the gain to fall to zero over `samples` samples, from where it is now.
    pub fn fade_out(&mut self, samples: usize)
        requires
            old(self).wf(),
            samples > 0,
        ensures
            final(self).wf(),
            final(self)@ == old(self)@.falling(samples as nat),
    {
        self.step_per_sample = -ramp_step_of(samples);
    }

    /// The gain as it stands, between zero and unity.
    pub fn value(&self) -> (gain: i64)
        ensures
            gain == self@.value,
    {
        self.value
    }

    /// Moves the gain one step on and hands back `sample` at the new gain.
    pub fn process(&mut self, sample: Sample) -> (out: Sample)
        requires
            old(self).wf(),
        ensures
            final(self).wf(),
            final(self)@ == old(self)@.advanced(),
            out == scale(sample as int, final(self)@.value),
    {
        let moved: i64 = self.value + self.step_per_sample;
        self.value = if moved < 0 {
            0
        } else if moved > UNITY {
            UNITY
        } else {
            moved
        };
        scale_sample(sample, self.value)
    }
}

} // verus!

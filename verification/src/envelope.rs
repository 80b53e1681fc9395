//! Linear gain envelopes in fixed point, shared by the fader and the cross-fader.

use vstd::prelude::*;
use crate::delay::Sample;

verus! {

/// The gain that leaves a signal unchanged. Gains run from 0 to `UNITY`.
pub const UNITY: i64 = 1_073_741_824;

/// The state of a gain ramp: the gain now and what each sample adds to it.
pub struct Envelope {
    pub value: int,
    pub step: int,
}

/// `value` held inside the range of gains.
pub open spec fn clamp_unit(value: int) -> int {
    if value < 0 {
        0
    } else if value > UNITY {
        UNITY as int
    } else {
        value
    }
}

/// The gain added per sample by a ramp that crosses the whole range in `samples` steps:
/// the range divided by `samples`, rounded up, so that the last step lands on the end.
pub open spec fn ramp_step(samples: nat) -> int {
    (UNITY + samples - 1) / (samples as int)
}

/// `sample` at gain `gain`, rounded towards zero.
pub open spec fn scale(sample: int, gain: int) -> int {
    if sample >= 0 {
        sample * gain / (UNITY as int)
    } else {
        -((-sample) * gain / (UNITY as int))
    }
}

/// The blend of `sample_a` at gain `gain` with `sample_b` at the rest of the range,
/// rounded towards zero.
pub open spec fn mix(sample_a: int, sample_b: int, gain: int) -> int {
    let sum = sample_a * gain + sample_b * (UNITY - gain);
    if sum >= 0 {
        sum / (UNITY as int)
    } else {
        -((-sum) / (UNITY as int))
    }
}

impl Envelope {
    /// The gain is inside its range and no step is longer than the range.
    pub open spec fn wf(self) -> bool {
        &&& 0 <= self.value <= UNITY
        &&& -UNITY <= self.step <= UNITY
    }

    /// An envelope at rest at `value`, held inside the range.
    pub open spec fn resting(value: int) -> Envelope {
        Envelope { value: clamp_unit(value), step: 0 }
    }

    /// The envelope set to rise over `samples` steps, from where it is now.
    pub open spec fn rising(self, samples: nat) -> Envelope {
        Envelope { value: self.value, step: ramp_step(samples) }
    }

    /// The envelope set to fall over `samples` steps, from where it is now.
    pub open spec fn falling(self, samples: nat) -> Envelope {
        Envelope { value: self.value, step: -ramp_step(samples) }
    }

    /// The envelope one sample later.
    pub open spec fn advanced(self) -> Envelope {
        Envelope { value: clamp_unit(self.value + self.step), step: self.step }
    }

    /// The envelope `count` samples later.
    pub open spec fn advanced_by(self, count: nat) -> Envelope
        decreases count,
    {
        if count == 0 {
            self
        } else {
            self.advanced().advanced_by((count - 1) as nat)
        }
    }
}

/// The step of a ramp over `samples` steps, as a machine integer.
pub fn ramp_step_of(samples: usize) -> (step: i64)
    requires
        samples > 0,
    ensures
        step == ramp_step(samples as nat),
        1 <= step <= UNITY,
        step * samples >= UNITY,
{
    let count: u64 = samples as u64;
    proof {
        lemma_ramp_step_bounds(samples as nat);
    }
    if count >= UNITY as u64 {
        1
    } else {
        ((UNITY as u64 + count - 1) / count) as i64
    }
}

/// `sample` at gain `gain`, as a machine integer.
pub fn scale_sample(sample: Sample, gain: i64) -> (out: Sample)
    requires
        0 <= gain <= UNITY,
    ensures
        out == scale(sample as int, gain as int),
{
    proof {
        lemma_scale_bounds(sample as int, gain as int);
    }
    if sample >= 0 {
        let product: u64 = (sample as u64) * (gain as u64);
        (product / (UNITY as u64)) as Sample
    } else {
        let size: u64 = (-(sample as i64)) as u64;
        let product: u64 = size * (gain as u64);
        (-((product / (UNITY as u64)) as i64)) as Sample
    }
}

/// The blend of two samples at gain `gain`, as a machine integer.
pub fn mix_samples(sample_a: Sample, sample_b: Sample, gain: i64) -> (out: Sample)
    requires
        0 <= gain <= UNITY,
    ensures
        out == mix(sample_a as int, sample_b as int, gain as int),
{
    proof {
        lemma_mix_is_convex(sample_a as int, sample_b as int, gain as int);
        lemma_product_bounds(sample_a as int, gain as int);
        lemma_product_bounds(sample_b as int, UNITY - gain);
    }
    let sum: i64 = (sample_a as i64) * gain + (sample_b as i64) * (UNITY - gain);
    if sum >= 0 {
        ((sum as u64) / (UNITY as u64)) as Sample
    } else {
        (-((((-sum) as u64) / (UNITY as u64)) as i64)) as Sample
    }
}

/// The product of a sample and a gain stays within 61 bits.
proof fn lemma_product_bounds(sample: int, gain: int)
    requires
        -0x8000_0000 <= sample <= 0x7fff_ffff,
        0 <= gain <= UNITY,
    ensures
        -0x8000_0000 * UNITY <= sample * gain <= 0x8000_0000 * UNITY,
{
    assert(-0x8000_0000 * UNITY <= sample * gain <= 0x8000_0000 * UNITY) by (nonlinear_arith)
        requires
            -0x8000_0000 <= sample <= 0x7fff_ffff,
            0 <= gain <= UNITY,
    ;
}

/// The step of a ramp is at least one, at most the whole range, and `samples` of them
/// cover the range.
pub proof fn lemma_ramp_step_bounds(samples: nat)
    requires
        samples > 0,
    ensures
        1 <= ramp_step(samples) <= UNITY,
        ramp_step(samples) * samples >= UNITY,
        samples >= UNITY ==> ramp_step(samples) == 1,
{
    let total = UNITY + samples - 1;
    let count = samples as int;
    assert(total == count * (total / count) + total % count && 0 <= total % count < count) by {
        vstd::arithmetic::div_mod::lemma_fundamental_div_mod(total, count);
        vstd::arithmetic::div_mod::lemma_mod_bound(total, count);
    }
    let step = total / count;
    assert(step >= 1 && step <= UNITY && step * count >= UNITY && (count >= UNITY ==> step == 1))
        by (nonlinear_arith)
        requires
            total == count * step + total % count,
            0 <= total % count < count,
            total == UNITY + count - 1,
            count >= 1,
            UNITY == 1_073_741_824,
    ;
}

/// A sample at any gain is no larger than the sample itself and keeps its sign; at gain
/// zero it is silence, and at unity it is the sample.
pub proof fn lemma_scale_bounds(sample: int, gain: int)
    requires
        0 <= gain <= UNITY,
    ensures
        scale(sample, 0) == 0,
        scale(sample, UNITY as int) == sample,
        sample >= 0 ==> 0 <= scale(sample, gain) <= sample,
        sample <= 0 ==> sample <= scale(sample, gain) <= 0,
{
    let size = if sample >= 0 { sample } else { -sample };
    let unity = UNITY as int;
    assert(size * 0 == 0);
    assert(size * unity / unity == size) by (nonlinear_arith)
        requires
            unity > 0,
    ;
    assert(0 <= size * gain / unity <= size) by (nonlinear_arith)
        requires
            0 <= gain <= unity,
            unity > 0,
            size >= 0,
    ;
}

/// A blend of two samples lies between them: it is the second at gain zero, the first
/// at unity, and a convex combination of the two at every gain in between.
pub proof fn lemma_mix_is_convex(sample_a: int, sample_b: int, gain: int)
    requires
        0 <= gain <= UNITY,
    ensures
        mix(sample_a, sample_b, 0) == sample_b,
        mix(sample_a, sample_b, UNITY as int) == sample_a,
        sample_a <= sample_b ==> sample_a <= mix(sample_a, sample_b, gain) <= sample_b,
        sample_b <= sample_a ==> sample_b <= mix(sample_a, sample_b, gain) <= sample_a,
{
    let unity = UNITY as int;
    lemma_whole_quotient(sample_a);
    lemma_whole_quotient(sample_b);
    assert(sample_a * 0 + sample_b * (unity - 0) == sample_b * unity) by (nonlinear_arith);
    assert(sample_a * unity + sample_b * (unity - unity) == sample_a * unity) by (nonlinear_arith);
    let low = if sample_a <= sample_b { sample_a } else { sample_b };
    let high = if sample_a <= sample_b { sample_b } else { sample_a };
    let sum = sample_a * gain + sample_b * (unity - gain);
    assert(low * unity <= sum <= high * unity) by (nonlinear_arith)
        requires
            sum == sample_a * gain + sample_b * (unity - gain),
            0 <= gain <= unity,
            low <= sample_a <= high,
            low <= sample_b <= high,
    ;
    lemma_rounded_quotient_between(sum, low, high);
}

/// The sum, rounded towards zero after division by unity, of a whole multiple of unity.
proof fn lemma_whole_quotient(sample: int)
    ensures
        sample >= 0 ==> (sample * UNITY) / (UNITY as int) == sample,
        sample < 0 ==> -((-(sample * UNITY)) / (UNITY as int)) == sample,
{
    let unity = UNITY as int;
    if sample >= 0 {
        assert((sample * unity) / unity == sample) by (nonlinear_arith)
            requires
                unity > 0,
        ;
    } else {
        assert((-(sample * unity)) / unity == -sample) by (nonlinear_arith)
            requires
                unity > 0,
        ;
    }
}

/// A quotient rounded towards zero stays between two whole bounds of the exact quotient.
proof fn lemma_rounded_quotient_between(sum: int, low: int, high: int)
    requires
        low * UNITY <= sum <= high * UNITY,
    ensures
        sum >= 0 ==> low <= sum / (UNITY as int) <= high,
        sum < 0 ==> low <= -((-sum) / (UNITY as int)) <= high,
{
    let unity = UNITY as int;
    if sum >= 0 {
        assert(low <= sum / unity <= high) by (nonlinear_arith)
            requires
                low * unity <= sum <= high * unity,
                sum >= 0,
                unity > 0,
        ;
    } else {
        assert(low <= -((-sum) / unity) <= high) by (nonlinear_arith)
            requires
                low * unity <= sum <= high * unity,
                sum < 0,
                unity > 0,
        ;
    }
}

/// A rising envelope has, after `count` samples, climbed `count` steps or reached unity.
proof fn lemma_rise(envelope: Envelope, count: nat)
    requires
        envelope.wf(),
        envelope.step >= 0,
    ensures
        envelope.advanced_by(count).wf(),
        envelope.advanced_by(count).step == envelope.step,
        envelope.advanced_by(count).value == clamp_unit(envelope.value + count * envelope.step),
    decreases count,
{
    if count > 0 {
        lemma_rise(envelope.advanced(), (count - 1) as nat);
        assert(envelope.value + envelope.step + (count - 1) * envelope.step == envelope.value
            + count * envelope.step) by (nonlinear_arith);
        assert((count - 1) * envelope.step >= 0) by (nonlinear_arith)
            requires
                count >= 1,
                envelope.step >= 0,
        ;
    }
}

/// A falling envelope has, after `count` samples, dropped `count` steps or reached zero.
proof fn lemma_fall(envelope: Envelope, count: nat)
    requires
        envelope.wf(),
        envelope.step <= 0,
    ensures
        envelope.advanced_by(count).wf(),
        envelope.advanced_by(count).step == envelope.step,
        envelope.advanced_by(count).value == clamp_unit(envelope.value + count * envelope.step),
    decreases count,
{
    if count > 0 {
        lemma_fall(envelope.advanced(), (count - 1) as nat);
        assert(envelope.value + envelope.step + (count - 1) * envelope.step == envelope.value
            + count * envelope.step) by (nonlinear_arith);
        assert((count - 1) * envelope.step <= 0) by (nonlinear_arith)
            requires
                count >= 1,
                envelope.step <= 0,
        ;
    }
}

/// A ramp is linear until it reaches the end of the range: after `count` samples the gain
/// has moved `count` steps, and is held at zero or at unity where that would take it
/// out of the range.
pub proof fn lemma_ramp_is_linear(envelope: Envelope, count: nat)
    requires
        envelope.wf(),
    ensures
        envelope.advanced_by(count).wf(),
        envelope.advanced_by(count).step == envelope.step,
        envelope.advanced_by(count).value == clamp_unit(envelope.value + count * envelope.step),
{
    if envelope.step >= 0 {
        lemma_rise(envelope, count);
    } else {
        lemma_fall(envelope, count);
    }
}

/// A ramp over `samples` steps that has run for at least `samples` samples has covered
/// the whole range.
pub proof fn lemma_ramp_covers_range(samples: nat, count: nat)
    requires
        samples > 0,
        count >= samples,
    ensures
        count * ramp_step(samples) >= UNITY,
{
    lemma_ramp_step_bounds(samples);
    let step = ramp_step(samples);
    assert(count * step >= UNITY) by (nonlinear_arith)
        requires
            step * samples >= UNITY,
            count >= samples,
            step >= 1,
            samples > 0,
    ;
}

/// An envelope `count` samples later and then one more is the envelope `count + 1`
/// samples later.
pub proof fn lemma_advanced_by_extends(envelope: Envelope, count: nat)
    ensures
        envelope.advanced_by(count + 1) == envelope.advanced_by(count).advanced(),
    decreases count,
{
    if count > 0 {
        lemma_advanced_by_extends(envelope.advanced(), (count - 1) as nat);
    } else {
        assert(envelope.advanced_by(1) == envelope.advanced().advanced_by(0));
    }
}

/// The gain never leaves its range: whatever the envelope is set to do and however long
/// it runs, it stays well formed.
pub proof fn lemma_envelope_stays_in_range(envelope: Envelope, samples: nat, count: nat)
    requires
        envelope.wf(),
        samples > 0,
    ensures
        envelope.rising(samples).wf(),
        envelope.falling(samples).wf(),
        envelope.advanced().wf(),
        envelope.advanced_by(count).wf(),
    decreases count,
{
    lemma_ramp_step_bounds(samples);
    if count > 0 {
        lemma_envelope_stays_in_range(envelope.advanced(), samples, (count - 1) as nat);
    }
}

/// A fade over `samples` steps is complete after `samples` samples, wherever it started:
/// a fade in ends at unity, where a signal passes unchanged, and a fade out ends at zero,
/// where it is silenced.
pub proof fn lemma_fade_completes(envelope: Envelope, samples: nat, sample: int)
    requires
        envelope.wf(),
        samples > 0,
    ensures
        envelope.rising(samples).advanced_by(samples).value == UNITY,
        envelope.falling(samples).advanced_by(samples).value == 0,
        scale(sample, envelope.rising(samples).advanced_by(samples).value) == sample,
        scale(sample, envelope.falling(samples).advanced_by(samples).value) == 0,
{
    lemma_ramp_step_bounds(samples);
    lemma_rise(envelope.rising(samples), samples);
    lemma_fall(envelope.falling(samples), samples);
    let step = ramp_step(samples);
    assert(samples * (-step) == -(samples * step)) by (nonlinear_arith);
    assert(samples * step == step * samples) by (nonlinear_arith);
    lemma_scale_bounds(sample, 0);
}

/// Setting a fade off in the middle of another leaves the gain where it is, and no
/// sample moves the gain by more than one step: the envelope has no jumps.
pub proof fn lemma_retrigger_is_continuous(envelope: Envelope, samples: nat)
    requires
        envelope.wf(),
        samples > 0,
    ensures
        envelope.rising(samples).value == envelope.value,
        envelope.falling(samples).value == envelope.value,
        envelope.value <= envelope.rising(samples).advanced().value <= envelope.value
            + ramp_step(samples),
        envelope.value - ramp_step(samples) <= envelope.falling(samples).advanced().value
            <= envelope.value,
{
    lemma_ramp_step_bounds(samples);
}

} // verus!

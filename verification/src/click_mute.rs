//! The mute-window scheduler and signal router: it owns the sample clock, turns click
//! times into sample indices, and drives delay, faders, samplers and looper frame by frame.

use vstd::prelude::*;
use crate::background_sampler::{
    BackgroundSampler, BackgroundState, ClipState, Seed, StereoSample,
};
use crate::click_info::{ClickInfo, InfoState};
use crate::click_mute_control::Message;
use crate::config::Config;
use crate::cross_fader::CrossFader;
use crate::delay::{Delay, Sample, remaining, silent};
use crate::envelope::{
    Envelope, UNITY, clamp_unit, lemma_advanced_by_extends, mix, ramp_step, scale,
};
use crate::fader::Fader;
use crate::looper::{Looper, LooperState, QUIETEST};
use crate::sampler::Micros;

verus! {

/// How many background clips are kept.
pub const BACKGROUND_CLIPS: usize = 20;

/// How many samples a background clip holds.
pub const CLIP_LENGTH: usize = 1024;

/// Why a configuration cannot be applied.
#[derive(Clone, Copy, Debug, PartialEq, Eq, Structural)]
pub enum ConfigError {
    /// At this sample rate the fade would last no sample at all.
    EmptyFade,
}

/// The number of whole samples in `micros` microseconds at `rate` samples per second: none
/// in a time that is zero or less, and no more than the machine can count.
pub open spec fn samples_in(micros: int, rate: nat) -> nat {
    if micros <= 0 {
        0
    } else if micros * rate / 1_000_000 > usize::MAX {
        usize::MAX as nat
    } else {
        (micros * rate / 1_000_000) as nat
    }
}

/// The sample index `samples` after `clock`, held at the last index that the machine can
/// count, which the clock never reaches.
pub open spec fn index_after(clock: nat, samples: nat) -> nat {
    if clock + samples > usize::MAX {
        usize::MAX as nat
    } else {
        clock + samples
    }
}

/// The length of the delay line in microseconds for a given mute offset: as long as the
/// mute has to reach back.
pub open spec fn delay_for(mute_offset: int) -> int {
    if mute_offset < 0 {
        -mute_offset
    } else {
        0
    }
}

/// The length of the delay line in samples: at least one.
pub open spec fn delay_samples(config: Config, rate: nat) -> nat {
    let samples = samples_in(delay_for(config.delays.mute_offset as int), rate);
    if samples < 1 {
        1
    } else {
        samples
    }
}

/// The length of a fade in samples.
pub open spec fn fade_samples(config: Config, rate: nat) -> nat {
    samples_in(config.delays.fade as int, rate)
}

/// What the scheduler holds.
pub struct MuteState {
    pub sample_rate: nat,
    pub delay: int,
    pub mute_offset: int,
    pub mute_duration: int,
    pub fade_samples: nat,
    pub delay_a: Seq<Sample>,
    pub delay_b: Seq<Sample>,
    pub fader_a: Envelope,
    pub fader_b: Envelope,
    pub cross_fader_a: Envelope,
    pub cross_fader_b: Envelope,
    /// The sample clock: the index of the next frame.
    pub clock: nat,
    /// The index at which the next mute begins, where one is scheduled.
    pub start: Option<nat>,
    /// The index at which the mute ends.
    pub end: nat,
    /// Flips at every start of a mute, for a debug recording.
    pub marker: bool,
    pub background: BackgroundState,
    pub looper: LooperState,
}

impl MuteState {
    /// The scheduler at start: the clock at zero, nothing scheduled, silent delay lines,
    /// all gains at zero and fading in, an empty background.
    pub open spec fn initial(rate: nat, config: Config) -> MuteState {
        let rising = Envelope::resting(0).rising(fade_samples(config, rate));
        MuteState {
            sample_rate: rate,
            delay: delay_for(config.delays.mute_offset as int),
            mute_offset: config.delays.mute_offset as int,
            mute_duration: config.delays.mute_duration as int,
            fade_samples: fade_samples(config, rate),
            delay_a: silent(delay_samples(config, rate)),
            delay_b: silent(delay_samples(config, rate)),
            fader_a: rising,
            fader_b: rising,
            cross_fader_a: rising,
            cross_fader_b: rising,
            clock: 0,
            start: None,
            end: 0,
            marker: false,
            background: BackgroundState::started(BACKGROUND_CLIPS as nat, CLIP_LENGTH as nat),
            looper: LooperState::idle(),
        }
    }

    /// The scheduler under a new configuration: the lengths follow it and the delay lines
    /// start again silent; clock, window, gains and background stay as they are.
    pub open spec fn configured(self, config: Config) -> MuteState {
        MuteState {
            delay: delay_for(config.delays.mute_offset as int),
            mute_offset: config.delays.mute_offset as int,
            mute_duration: config.delays.mute_duration as int,
            fade_samples: fade_samples(config, self.sample_rate),
            delay_a: silent(delay_samples(config, self.sample_rate)),
            delay_b: silent(delay_samples(config, self.sample_rate)),
            ..self
        }
    }

    /// Where a mute begins for a click whose earliest event lies `earliest` microseconds
    /// from now: the click reaches the output after the delay, the mute offset shifts the
    /// start, and a start that has already passed counts as now.
    pub open spec fn start_for(self, earliest: int) -> nat {
        index_after(self.clock, samples_in(self.delay + earliest + self.mute_offset, self.sample_rate))
    }

    /// Where the mute ends for a click whose latest event lies `latest` microseconds from
    /// now.
    pub open spec fn end_for(self, latest: int) -> nat {
        index_after(self.clock, samples_in(self.delay + self.mute_duration + latest, self.sample_rate))
    }

    /// The scheduler after a click with events from `earliest` to `latest`. A start that
    /// is scheduled stays; else one is scheduled. The end always moves with the latest
    /// event, and never before the start.
    pub open spec fn clicked(self, earliest: int, latest: int) -> MuteState {
        let start = match self.start {
            Some(start) => start,
            None => self.start_for(earliest),
        };
        let end = self.end_for(latest);
        MuteState {
            start: Some(start),
            end: if end < start {
                start
            } else {
                end
            },
            ..self
        }
    }

    /// How many more frames the counters have room for: the sample clock and the clip
    /// numbers both count up to the largest number of the machine.
    pub open spec fn frames_left(self) -> nat {
        let counted = if self.clock >= self.background.next_id {
            self.clock
        } else {
            self.background.next_id
        };
        if counted >= usize::MAX {
            0
        } else {
            (usize::MAX - counted) as nat
        }
    }

    /// The scheduler after the poll for clicks gave `clicked`.
    pub open spec fn polled(self, clicked: Option<(i64, i64)>) -> MuteState {
        match clicked {
            Some((earliest, latest)) => self.clicked(earliest as int, latest as int),
            None => self,
        }
    }

    /// Whether a run over `inputs` with `picks` is admitted, ends in `after` and
    /// `after_info`, and has written its outputs to the front of the two output channels.
    pub open spec fn runs_to(
        self,
        info: InfoState,
        now: Micros,
        inputs: Seq<StereoSample>,
        picks: Seq<Option<ClipState>>,
        after: MuteState,
        after_info: InfoState,
        channels_before: (Seq<Sample>, Seq<Sample>),
        channels_after: (Seq<Sample>, Seq<Sample>),
    ) -> bool {
        let (ran, ran_info, outputs) = self.ran(info, now, inputs, picks);
        &&& picks.len() == inputs.len()
        &&& outputs.len() == inputs.len()
        &&& self.admits_all(info, now, inputs, picks)
        &&& after == ran
        &&& after_info == ran_info
        &&& written(channels_before.0, channels_after.0, outputs, true)
        &&& written(channels_before.1, channels_after.1, outputs, false)
    }

    /// The two gains that shape the output under the toggles of `info`: those of the
    /// faders with inverted muting or without background noise, else those of the
    /// cross-faders.
    pub open spec fn gains(self, info: InfoState) -> (Envelope, Envelope) {
        if info.invert_mute || !info.background_noise {
            (self.fader_a, self.fader_b)
        } else {
            (self.cross_fader_a, self.cross_fader_b)
        }
    }

    /// Whether neither the start nor the end of a mute falls into the next `frames`
    /// frames.
    pub open spec fn quiet_for(self, frames: nat) -> bool {
        &&& match self.start {
            Some(start) => start < self.clock || start >= self.clock + frames,
            None => true,
        }
        &&& (self.end < self.clock || self.end >= self.clock + frames)
    }

    /// What holds of a scheduler at every moment: the mute window is in order, a fade
    /// lasts at least one sample, the delay is the one for the mute offset, the gains lie
    /// in their range, the delay lines hold at least one sample, and the counts fit the
    /// machine.
    pub open spec fn wf(self) -> bool {
        &&& self.window_in_order()
        &&& self.fade_samples > 0
        &&& self.delay == delay_for(self.mute_offset)
        &&& self.clock <= usize::MAX
        &&& self.end <= usize::MAX
        &&& self.background.next_id <= usize::MAX
        &&& self.fader_a.wf()
        &&& self.fader_b.wf()
        &&& self.cross_fader_a.wf()
        &&& self.cross_fader_b.wf()
        &&& self.delay_a.len() > 0
        &&& self.delay_b.len() > 0
    }

    /// Whether the mute window is in order: a scheduled start lies ahead of the clock or
    /// at it, and the end is not before the start.
    pub open spec fn window_in_order(self) -> bool {
        match self.start {
            Some(start) => self.clock <= start <= self.end,
            None => true,
        }
    }

    /// The gains set for the start of a mute: with inverted muting the faders open, with
    /// background noise the cross-faders move to the noise, and else the faders close.
    pub open spec fn muting(self, info: InfoState) -> MuteState {
        if info.invert_mute {
            MuteState {
                fader_a: self.fader_a.rising(self.fade_samples),
                fader_b: self.fader_b.rising(self.fade_samples),
                ..self
            }
        } else if info.background_noise {
            MuteState {
                cross_fader_a: self.cross_fader_a.falling(self.fade_samples),
                cross_fader_b: self.cross_fader_b.falling(self.fade_samples),
                ..self
            }
        } else {
            MuteState {
                fader_a: self.fader_a.falling(self.fade_samples),
                fader_b: self.fader_b.falling(self.fade_samples),
                ..self
            }
        }
    }

    /// The gains set for the end of a mute: the reverse of `muting`.
    pub open spec fn unmuting(self, info: InfoState) -> MuteState {
        if info.invert_mute {
            MuteState {
                fader_a: self.fader_a.falling(self.fade_samples),
                fader_b: self.fader_b.falling(self.fade_samples),
                ..self
            }
        } else if info.background_noise {
            MuteState {
                cross_fader_a: self.cross_fader_a.rising(self.fade_samples),
                cross_fader_b: self.cross_fader_b.rising(self.fade_samples),
                ..self
            }
        } else {
            MuteState {
                fader_a: self.fader_a.rising(self.fade_samples),
                fader_b: self.fader_b.rising(self.fade_samples),
                ..self
            }
        }
    }

    /// The first part of a frame. Where the clock has reached the scheduled start, the
    /// mute begins: the gains are set, the start is used up, the click view is triggered,
    /// the marker flips, and the background sampler drops the clip it was taking.
    pub open spec fn begun(self, info: InfoState, now: Micros) -> (MuteState, InfoState) {
        if self.start == Some(self.clock) {
            (
                MuteState {
                    start: None,
                    marker: !self.marker,
                    background: self.background.paused(),
                    ..self.muting(info)
                },
                InfoState { click_sampler: info.click_sampler.triggered(now), ..info },
            )
        } else {
            (self, info)
        }
    }

    /// The second part of a frame: the input enters the delay lines, what leaves them goes
    /// to the background sampler and to the click view, and the input itself to the live
    /// view. The third component is what left the delay lines.
    pub open spec fn fed(self, info: InfoState, input: StereoSample) -> (
        MuteState,
        InfoState,
        StereoSample,
    ) {
        let delayed = (self.delay_a[0], self.delay_b[0]);
        (
            MuteState {
                delay_a: remaining(self.delay_a, seq![input.0]),
                delay_b: remaining(self.delay_b, seq![input.1]),
                background: self.background.sampled(delayed),
                ..self
            },
            InfoState {
                live_sampler: info.live_sampler.sampled(input.0),
                click_sampler: info.click_sampler.sampled(delayed.0),
                ..info
            },
            delayed,
        )
    }

    /// The third part of a frame: the delayed signal goes through the gains. With muting
    /// off it passes as it is. With inverted muting, or without background noise, the
    /// faders move a step and scale it. Else the cross-faders move a step and blend it
    /// with `noise`.
    pub open spec fn routed(self, info: InfoState, delayed: StereoSample, noise: StereoSample) -> (
        MuteState,
        StereoSample,
    ) {
        if !info.mute_enabled {
            (self, delayed)
        } else if info.invert_mute || !info.background_noise {
            let fader_a = self.fader_a.advanced();
            let fader_b = self.fader_b.advanced();
            (
                MuteState { fader_a, fader_b, ..self },
                (
                    scale(delayed.0 as int, fader_a.value) as Sample,
                    scale(delayed.1 as int, fader_b.value) as Sample,
                ),
            )
        } else {
            let cross_fader_a = self.cross_fader_a.advanced();
            let cross_fader_b = self.cross_fader_b.advanced();
            (
                MuteState { cross_fader_a, cross_fader_b, ..self },
                (
                    mix(delayed.0 as int, noise.0 as int, cross_fader_a.value) as Sample,
                    mix(delayed.1 as int, noise.1 as int, cross_fader_b.value) as Sample,
                ),
            )
        }
    }

    /// The last part of a frame. Where the clock has reached the end of the mute, the
    /// gains are set the other way, a click view that holds samples is frozen, and the
    /// background sampler takes clips again. Then the clock moves on by one.
    pub open spec fn ended(self, info: InfoState) -> (MuteState, InfoState) {
        if self.clock == self.end {
            (
                MuteState {
                    background: self.background.resumed(),
                    clock: self.clock + 1,
                    ..self.unmuting(info)
                },
                InfoState {
                    click_sampler: if info.click_sampler.contents.len() > 0 {
                        info.click_sampler.held()
                    } else {
                        info.click_sampler
                    },
                    ..info
                },
            )
        } else {
            (MuteState { clock: self.clock + 1, ..self }, info)
        }
    }

    /// Whether the looper may be handed `pick` during the frame that takes `input`: the
    /// background sampler, as it stands once the input has gone through the delay, offers
    /// it among its quietest clips.
    pub open spec fn admits(
        self,
        info: InfoState,
        now: Micros,
        input: StereoSample,
        pick: Option<ClipState>,
    ) -> bool {
        let (begun, begun_info) = self.begun(info, now);
        let fed = begun.fed(begun_info, input).0;
        fed.background.offers(QUIETEST as nat, pick)
    }

    /// One frame: the scheduler and the shared status after it, and the output. `pick` is
    /// what the background sampler hands the looper if the looper asks.
    pub open spec fn ticked(
        self,
        info: InfoState,
        now: Micros,
        input: StereoSample,
        pick: Option<ClipState>,
    ) -> (MuteState, InfoState, StereoSample) {
        let (begun, begun_info) = self.begun(info, now);
        let (fed, fed_info, delayed) = begun.fed(begun_info, input);
        let (looper, noise) = fed.looper.produced(pick);
        let (routed, output) = (MuteState { looper, ..fed }).routed(fed_info, delayed, noise);
        let (ended, ended_info) = routed.ended(fed_info);
        (ended, ended_info, output)
    }

    /// Whether the looper may be handed `picks`, one per frame, during a run over `inputs`.
    pub open spec fn admits_all(
        self,
        info: InfoState,
        now: Micros,
        inputs: Seq<StereoSample>,
        picks: Seq<Option<ClipState>>,
    ) -> bool
        decreases inputs.len(),
    {
        if inputs.len() == 0 {
            true
        } else {
            let (before, before_info, _) = self.ran(
                info,
                now,
                inputs.drop_last(),
                picks.drop_last(),
            );
            &&& self.admits_all(info, now, inputs.drop_last(), picks.drop_last())
            &&& before.admits(before_info, now, inputs.last(), picks.last())
        }
    }

    /// A run of frames, one per input: the scheduler and the shared status after it, and
    /// the outputs.
    pub open spec fn ran(
        self,
        info: InfoState,
        now: Micros,
        inputs: Seq<StereoSample>,
        picks: Seq<Option<ClipState>>,
    ) -> (MuteState, InfoState, Seq<StereoSample>)
        decreases inputs.len(),
    {
        if inputs.len() == 0 {
            (self, info, Seq::empty())
        } else {
            let (before, before_info, outputs) = self.ran(
                info,
                now,
                inputs.drop_last(),
                picks.drop_last(),
            );
            let (after, after_info, output) = before.ticked(
                before_info,
                now,
                inputs.last(),
                picks.last(),
            );
            (after, after_info, outputs.push(output))
        }
    }
}

/// The first `count` frames of the two input channels.
pub open spec fn frames(in_a: Seq<Sample>, in_b: Seq<Sample>, count: nat) -> Seq<StereoSample> {
    Seq::new(count, |i: int| (in_a[i], in_b[i]))
}

/// How many frames a buffer holds: as many as the shortest of its four channels.
pub open spec fn frame_count(in_a: nat, in_b: nat, out_a: nat, out_b: nat) -> nat {
    let inputs = if in_a <= in_b {
        in_a
    } else {
        in_b
    };
    let outputs = if out_a <= out_b {
        out_a
    } else {
        out_b
    };
    if inputs <= outputs {
        inputs
    } else {
        outputs
    }
}

/// An output channel after a run: its first samples are the outputs of the run, one
/// component of each, and the rest of it is as it was.
pub open spec fn written(
    before: Seq<Sample>,
    after: Seq<Sample>,
    outputs: Seq<StereoSample>,
    first: bool,
) -> bool {
    &&& after.len() == before.len()
    &&& forall|i: int|
        0 <= i < after.len() ==> after[i] == (if i < outputs.len() {
            if first {
                outputs[i].0
            } else {
                outputs[i].1
            }
        } else {
            before[i]
        })
}

/// The number of whole samples in `micros` microseconds at `rate` samples per second.
fn count_samples(micros: i128, rate: usize) -> (samples: usize)
    requires
        -0x4_0000_0000_0000_0000 <= micros <= 0x4_0000_0000_0000_0000,
    ensures
        samples == samples_in(micros as int, rate as nat),
{
    if micros <= 0 {
        return 0;
    }
    let time: u128 = micros as u128;
    let whole: u128 = time / 1_000_000;
    let part: u128 = time % 1_000_000;
    assert(whole * rate <= 73_786_976_294_839 * 0x1_0000_0000_0000_0000) by (nonlinear_arith)
        requires
            whole <= 73_786_976_294_839,
            rate <= 0xffff_ffff_ffff_ffff,
    ;
    assert(part * rate <= 1_000_000 * 0x1_0000_0000_0000_0000) by (nonlinear_arith)
        requires
            part <= 1_000_000,
            rate <= 0xffff_ffff_ffff_ffff,
    ;
    let total: u128 = whole * (rate as u128) + part * (rate as u128) / 1_000_000;
    proof {
        let product = micros * rate;
        assert(product == part * rate + (whole * rate) * 1_000_000) by (nonlinear_arith)
            requires
                micros == whole * 1_000_000 + part,
                product == micros * rate,
        ;
        vstd::arithmetic::div_mod::lemma_hoist_over_denominator(
            part * rate,
            whole * rate,
            1_000_000,
        );
        assert(total == micros * rate / 1_000_000);
    }
    if total > usize::MAX as u128 {
        usize::MAX
    } else {
        total as usize
    }
}

/// The length of the delay line in microseconds for `mute_offset`.
fn delay_micros(mute_offset: i64) -> (delay: i128)
    ensures
        delay == delay_for(mute_offset as int),
        0 <= delay <= 0x8000_0000_0000_0000,
{
    if mute_offset < 0 {
        -(mute_offset as i128)
    } else {
        0
    }
}

/// Mutes the signal around clicks.
pub struct ClickMute {
    sample_rate: usize,
    delay_micros: i128,
    mute_offset_micros: i64,
    mute_duration_micros: i64,
    fade_samples: usize,
    delay_a: Delay,
    delay_b: Delay,
    fader_a: Fader,
    fader_b: Fader,
    cross_fader_a: CrossFader,
    cross_fader_b: CrossFader,
    sample_index: usize,
    mute_t0_index: Option<usize>,
    mute_t1_index: usize,
    marker: bool,
    background_sampler: BackgroundSampler,
    background_looper: Looper,
}

impl View for ClickMute {
    type V = MuteState;

    closed spec fn view(&self) -> MuteState {
        MuteState {
            sample_rate: self.sample_rate as nat,
            delay: self.delay_micros as int,
            mute_offset: self.mute_offset_micros as int,
            mute_duration: self.mute_duration_micros as int,
            fade_samples: self.fade_samples as nat,
            delay_a: self.delay_a@,
            delay_b: self.delay_b@,
            fader_a: self.fader_a@,
            fader_b: self.fader_b@,
            cross_fader_a: self.cross_fader_a@,
            cross_fader_b: self.cross_fader_b@,
            clock: self.sample_index as nat,
            start: match self.mute_t0_index {
                Some(start) => Some(start as nat),
                None => None,
            },
            end: self.mute_t1_index as nat,
            marker: self.marker,
            background: self.background_sampler@,
            looper: self.background_looper@,
        }
    }
}

impl ClickMute {
    /// Every part is well formed.
    pub closed spec fn parts_wf(&self) -> bool {
        &&& self.delay_a.wf()
        &&& self.delay_b.wf()
        &&& self.fader_a.wf()
        &&& self.fader_b.wf()
        &&& self.cross_fader_a.wf()
        &&& self.cross_fader_b.wf()
        &&& self.background_sampler.wf()
        &&& self.background_looper.wf()
        &&& self.fade_samples > 0
        &&& self.delay_micros == delay_for(self.mute_offset_micros as int)
        &&& self.delay_a@.len() > 0
        &&& self.delay_b@.len() > 0
    }

    /// Every part is well formed, and what the scheduler holds is in order.
    pub open spec fn wf(&self) -> bool {
        &&& self.parts_wf()
        &&& self@.wf()
    }

    /// The background of a well-formed scheduler keeps no more clips than it may, and
    /// every clip it holds is well formed.
    pub proof fn lemma_wf_state(&self)
        requires
            self.wf(),
        ensures
            self@.wf(),
            self@.background.clips.len() <= self@.background.num_clips,
            self@.background.clips.len() <= self@.background.next_id,
    {
        self.background_sampler.lemma_wf_state();
    }

    /// A scheduler for `sample_rate` samples per second under `config`. A configuration
    /// whose fade lasts no sample at this rate is refused. The choice among background
    /// clips starts from `seed`.
    pub fn new(sample_rate: usize, config: Config, seed: Seed) -> (made: Result<
        ClickMute,
        ConfigError,
    >)
        ensures
            match made {
                Ok(mute) => {
                    &&& fade_samples(config, sample_rate as nat) > 0
                    &&& mute.wf()
                    &&& mute@ == MuteState::initial(sample_rate as nat, config)
                },
                Err(error) => {
                    &&& fade_samples(config, sample_rate as nat) == 0
                    &&& error == ConfigError::EmptyFade
                },
            },
    {
        let delay: i128 = delay_micros(config.delays.mute_offset);
        let delay_length: usize = count_samples(delay, sample_rate);
        let fade_length: usize = count_samples(config.delays.fade as i128, sample_rate);
        if fade_length == 0 {
            return Err(ConfigError::EmptyFade);
        }
        let mut cross_fader_a = CrossFader::new(0);
        let mut cross_fader_b = CrossFader::new(0);
        let mut fader_a = Fader::new(0);
        let mut fader_b = Fader::new(0);
        cross_fader_a.fade_in(fade_length);
        cross_fader_b.fade_in(fade_length);
        fader_a.fade_in(fade_length);
        fader_b.fade_in(fade_length);
        let line_length: usize = if delay_length < 1 {
            1
        } else {
            delay_length
        };
        Ok(
            ClickMute {
                sample_rate,
                delay_micros: delay,
                mute_offset_micros: config.delays.mute_offset,
                mute_duration_micros: config.delays.mute_duration,
                fade_samples: fade_length,
                delay_a: Delay::new(line_length),
                delay_b: Delay::new(line_length),
                fader_a,
                fader_b,
                cross_fader_a,
                cross_fader_b,
                sample_index: 0,
                mute_t0_index: None,
                mute_t1_index: 0,
                marker: false,
                background_sampler: BackgroundSampler::new(BACKGROUND_CLIPS, CLIP_LENGTH, seed),
                background_looper: Looper::new(),
            },
        )
    }

    /// Takes `config` into use. A configuration whose fade lasts no sample is refused and
    /// changes nothing.
    pub fn update_config(&mut self, config: Config) -> (applied: Result<(), ConfigError>)
        requires
            old(self).wf(),
        ensures
            final(self).wf(),
            match applied {
                Ok(_) => {
                    &&& fade_samples(config, old(self)@.sample_rate) > 0
                    &&& final(self)@ == old(self)@.configured(config)
                },
                Err(error) => {
                    &&& fade_samples(config, old(self)@.sample_rate) == 0
                    &&& error == ConfigError::EmptyFade
                    &&& final(self)@ == old(self)@
                },
            },
    {
        let delay: i128 = delay_micros(config.delays.mute_offset);
        let delay_length: usize = count_samples(delay, self.sample_rate);
        let fade_length: usize = count_samples(config.delays.fade as i128, self.sample_rate);
        if fade_length == 0 {
            return Err(ConfigError::EmptyFade);
        }
        let line_length: usize = if delay_length < 1 {
            1
        } else {
            delay_length
        };
        self.delay_micros = delay;
        self.mute_offset_micros = config.delays.mute_offset;
        self.mute_duration_micros = config.delays.mute_duration;
        self.fade_samples = fade_length;
        self.delay_a = Delay::new(line_length);
        self.delay_b = Delay::new(line_length);
        Ok(())
    }

    /// Acts on a message from the control surface, if there is one.
    pub fn process_control(&mut self, message: Option<Message>) -> (applied: Result<
        (),
        ConfigError,
    >)
        requires
            old(self).wf(),
        ensures
            final(self).wf(),
            match message {
                None => applied is Ok && final(self)@ == old(self)@,
                Some(Message::UpdateConfig(config)) => match applied {
                    Ok(_) => {
                        &&& fade_samples(config, old(self)@.sample_rate) > 0
                        &&& final(self)@ == old(self)@.configured(config)
                    },
                    Err(error) => {
                        &&& fade_samples(config, old(self)@.sample_rate) == 0
                        &&& error == ConfigError::EmptyFade
                        &&& final(self)@ == old(self)@
                    },
                },
            },
    {
        match message {
            None => Ok(()),
            Some(Message::UpdateConfig(config)) => self.update_config(config),
        }
    }

    /// Schedules the mute for a click whose events lie from `earliest` to `latest`
    /// microseconds from now, and counts the click.
    pub fn on_click(&mut self, click_info: &mut ClickInfo, earliest: i64, latest: i64)
        requires
            old(self).wf(),
            old(click_info).num_clicks < usize::MAX,
        ensures
            final(self).wf(),
            final(self)@ == old(self)@.clicked(earliest as int, latest as int),
            final(self)@.start is Some,
            final(self)@.start.unwrap() <= final(self)@.end,
            final(click_info)@ == (InfoState {
                num_clicks: old(click_info)@.num_clicks + 1,
                ..old(click_info)@
            }),
            final(click_info).wf() == old(click_info).wf(),
    {
        let wait: i128 = self.delay_micros + earliest as i128 + self.mute_offset_micros as i128;
        let start: usize = match self.mute_t0_index {
            Some(start) => start,
            None => self.sample_index.saturating_add(count_samples(wait, self.sample_rate)),
        };
        let length: i128 = self.delay_micros + self.mute_duration_micros as i128 + latest as i128;
        let end: usize = self.sample_index.saturating_add(count_samples(length, self.sample_rate));
        self.mute_t0_index = Some(start);
        self.mute_t1_index = if end < start {
            start
        } else {
            end
        };
        click_info.num_clicks += 1;
    }

    /// The first part of a frame: begins the mute where the clock has reached its start.
    fn begin(&mut self, click_info: &mut ClickInfo, now: Micros)
        requires
            old(self).parts_wf(),
            old(click_info).wf(),
        ensures
            final(self).parts_wf(),
            final(click_info).wf(),
            (final(self)@, final(click_info)@) == old(self)@.begun(old(click_info)@, now),
    {
        let due: bool = match self.mute_t0_index {
            Some(start) => start == self.sample_index,
            None => false,
        };
        if due {
            if click_info.invert_mute {
                self.fader_a.fade_in(self.fade_samples);
                self.fader_b.fade_in(self.fade_samples);
            } else if click_info.background_noise {
                self.cross_fader_a.fade_out(self.fade_samples);
                self.cross_fader_b.fade_out(self.fade_samples);
            } else {
                self.fader_a.fade_out(self.fade_samples);
                self.fader_b.fade_out(self.fade_samples);
            }
            self.mute_t0_index = None;
            click_info.click_sampler.trigger(now);
            self.marker = !self.marker;
            self.background_sampler.pause();
        }
    }

    /// The second part of a frame: moves the input through the delay lines and feeds the
    /// samplers. Hands back what left the delay lines.
    fn feed(&mut self, click_info: &mut ClickInfo, input: StereoSample) -> (delayed: StereoSample)
        requires
            old(self).parts_wf(),
            old(click_info).wf(),
            old(self)@.background.next_id < usize::MAX,
        ensures
            final(self).parts_wf(),
            final(click_info).wf(),
            (final(self)@, final(click_info)@, delayed) == old(self)@.fed(old(click_info)@, input),
    {
        let a: Sample = self.delay_a.process(input.0);
        let b: Sample = self.delay_b.process(input.1);
        self.background_sampler.sample((a, b));
        click_info.live_sampler.sample(input.0);
        click_info.click_sampler.sample(a);
        (a, b)
    }

    /// The third part of a frame: sends the delayed signal through the gains.
    fn route(&mut self, click_info: &ClickInfo, delayed: StereoSample, noise: StereoSample) -> (output:
        StereoSample)
        requires
            old(self).parts_wf(),
        ensures
            final(self).parts_wf(),
            (final(self)@, output) == old(self)@.routed(click_info@, delayed, noise),
    {
        if click_info.mute_enabled {
            if click_info.invert_mute || !click_info.background_noise {
                (self.fader_a.process(delayed.0), self.fader_b.process(delayed.1))
            } else {
                (
                    self.cross_fader_a.process(delayed.0, noise.0),
                    self.cross_fader_b.process(delayed.1, noise.1),
                )
            }
        } else {
            delayed
        }
    }

    /// The last part of a frame: ends the mute where the clock has reached its end, and
    /// moves the clock on.
    fn end(&mut self, click_info: &mut ClickInfo)
        requires
            old(self).parts_wf(),
            old(click_info).wf(),
            old(self)@.clock < usize::MAX,
        ensures
            final(self).parts_wf(),
            final(click_info).wf(),
            (final(self)@, final(click_info)@) == old(self)@.ended(old(click_info)@),
    {
        if self.sample_index == self.mute_t1_index {
            if click_info.invert_mute {
                self.fader_a.fade_out(self.fade_samples);
                self.fader_b.fade_out(self.fade_samples);
            } else if click_info.background_noise {
                self.cross_fader_a.fade_in(self.fade_samples);
                self.cross_fader_b.fade_in(self.fade_samples);
            } else {
                self.fader_a.fade_in(self.fade_samples);
                self.fader_b.fade_in(self.fade_samples);
            }
            if !click_info.click_sampler.is_empty() {
                click_info.click_sampler.hold_or_auto_hold();
            }
            self.background_sampler.resume();
        }
        self.sample_index += 1;
    }

    /// One frame: takes one sample of each channel in and hands one of each out. Where
    /// the looper asks for a clip, the background sampler picks one of its quietest.
    pub fn tick(&mut self, click_info: &mut ClickInfo, now: Micros, input: StereoSample) -> (output:
        StereoSample)
        requires
            old(self).wf(),
            old(click_info).wf(),
            old(self)@.frames_left() > 0,
        ensures
            final(self).wf(),
            final(click_info).wf(),
            final(self)@.frames_left() >= old(self)@.frames_left() - 1,
            exists|pick: Option<ClipState>| #[trigger]
                old(self)@.admits(old(click_info)@, now, input, pick) && (
                    final(self)@,
                    final(click_info)@,
                    output,
                ) == old(self)@.ticked(old(click_info)@, now, input, pick),
    {
        self.begin(click_info, now);
        let delayed = self.feed(click_info, input);
        let ghost fed = self@;
        let ghost fed_info = click_info@;
        let noise = self.background_looper.produce(&mut self.background_sampler);
        let ghost pick = choose|pick: Option<ClipState>| #[trigger]
            fed.background.offers(QUIETEST as nat, pick) && (self.background_looper@, noise)
                == fed.looper.produced(pick);
        let output = self.route(click_info, delayed, noise);
        self.end(click_info);
        proof {
            assert(old(self)@.admits(old(click_info)@, now, input, pick));
            assert((self@, click_info@, output) == old(self)@.ticked(
                old(click_info)@,
                now,
                input,
                pick,
            ));
        }
        output
    }

    /// One buffer. A click that the poll gave is scheduled and counted first. Then every
    /// frame of the buffer is processed in turn: `in_a` and `in_b` are the inputs, and the
    /// outputs go to the front of `out_a` and `out_b`. The buffer has as many frames as
    /// its shortest channel.
    pub fn process(
        &mut self,
        click_info: &mut ClickInfo,
        clicked: Option<(i64, i64)>,
        now: Micros,
        in_a: &[Sample],
        in_b: &[Sample],
        out_a: &mut Vec<Sample>,
        out_b: &mut Vec<Sample>,
    )
        requires
            old(self).wf(),
            old(click_info).wf(),
            clicked is Some ==> old(click_info).num_clicks < usize::MAX,
            frame_count(in_a@.len(), in_b@.len(), old(out_a)@.len(), old(out_b)@.len()) <= old(
                self,
            )@.frames_left(),
        ensures
            final(self).wf(),
            final(click_info).wf(),
            final(self)@.frames_left() >= old(self)@.frames_left() - frame_count(
                in_a@.len(),
                in_b@.len(),
                old(out_a)@.len(),
                old(out_b)@.len(),
            ),
            old(self)@.polled(clicked).wf(),
            clicked is Some ==> old(self)@.polled(clicked).start is Some,
            exists|picks: Seq<Option<ClipState>>| #[trigger]
                old(self)@.polled(clicked).runs_to(
                    old(click_info)@.polled(clicked),
                    now,
                    frames(
                        in_a@,
                        in_b@,
                        frame_count(
                            in_a@.len(),
                            in_b@.len(),
                            old(out_a)@.len(),
                            old(out_b)@.len(),
                        ),
                    ),
                    picks,
                    final(self)@,
                    final(click_info)@,
                    (old(out_a)@, old(out_b)@),
                    (final(out_a)@, final(out_b)@),
                ),
    {
        let inputs_len: usize = if in_a.len() <= in_b.len() {
            in_a.len()
        } else {
            in_b.len()
        };
        let outputs_len: usize = if out_a.len() <= out_b.len() {
            out_a.len()
        } else {
            out_b.len()
        };
        let count: usize = if inputs_len <= outputs_len {
            inputs_len
        } else {
            outputs_len
        };
        match clicked {
            Some((earliest, latest)) => {
                self.on_click(click_info, earliest, latest);
            },
            None => {},
        }
        let ghost polled = self@;
        let ghost counted = click_info@;
        let ghost inputs = frames(in_a@, in_b@, count as nat);
        let ghost mut picks: Seq<Option<ClipState>> = Seq::empty();
        let ghost mut outputs: Seq<StereoSample> = Seq::empty();
        let ghost before_a = out_a@;
        let ghost before_b = out_b@;
        proof {
            self.lemma_wf_state();
            assert(inputs.take(0) =~= Seq::empty());
        }
        let mut i: usize = 0;
        while i < count
            invariant
                i <= count,
                count <= in_a@.len(),
                count <= in_b@.len(),
                count <= before_a.len(),
                count <= before_b.len(),
                inputs == frames(in_a@, in_b@, count as nat),
                self.wf(),
                click_info.wf(),
                self@.frames_left() >= count - i,
                self@.frames_left() >= old(self)@.frames_left() - i,
                picks.len() == i,
                outputs.len() == i,
                polled.admits_all(counted, now, inputs.take(i as int), picks),
                (self@, click_info@, outputs) == polled.ran(
                    counted,
                    now,
                    inputs.take(i as int),
                    picks,
                ),
                written(before_a, out_a@, outputs, true),
                written(before_b, out_b@, outputs, false),
            decreases count - i,
        {
            let ghost earlier = self@;
            let ghost earlier_info = click_info@;
            let input: StereoSample = (in_a[i], in_b[i]);
            let output = self.tick(click_info, now, input);
            proof {
                let pick = choose|pick: Option<ClipState>| #[trigger]
                    earlier.admits(earlier_info, now, input, pick) && (self@, click_info@, output)
                        == earlier.ticked(earlier_info, now, input, pick);
                let longer = inputs.take(i + 1);
                assert(longer.drop_last() =~= inputs.take(i as int));
                assert(longer.last() == input);
                assert(picks.push(pick).drop_last() =~= picks);
                picks = picks.push(pick);
                outputs = outputs.push(output);
            }
            out_a.set(i, output.0);
            out_b.set(i, output.1);
            i += 1;
        }
        proof {
            assert(inputs.take(count as int) =~= inputs);
            assert(polled.runs_to(
                counted,
                now,
                inputs,
                picks,
                self@,
                click_info@,
                (before_a, before_b),
                (out_a@, out_b@),
            ));
        }
    }

    /// How many more frames the counters have room for.
    pub fn frames_left(&self) -> (frames: usize)
        requires
            self.wf(),
        ensures
            frames == self@.frames_left(),
    {
        proof {
            self.lemma_wf_state();
        }
        let clips: usize = self.background_sampler.next_id();
        let counted: usize = if self.sample_index >= clips {
            self.sample_index
        } else {
            clips
        };
        usize::MAX - counted
    }

    /// The gain of the fader of the first channel.
    pub fn fader_gain(&self) -> (gain: i64)
        ensures
            gain == self@.fader_a.value,
    {
        self.fader_a.value()
    }

    /// The share that the cross-fader of the first channel gives the signal.
    pub fn cross_fader_gain(&self) -> (gain: i64)
        ensures
            gain == self@.cross_fader_a.value,
    {
        self.cross_fader_a.value()
    }

    /// The marker that flips at every start of a mute.
    pub fn marker(&self) -> (marker: bool)
        ensures
            marker == self@.marker,
    {
        self.marker
    }

    /// The sample clock: how many frames have been processed.
    pub fn sample_index(&self) -> (clock: usize)
        ensures
            clock == self@.clock,
    {
        self.sample_index
    }

    /// The index at which the next mute begins, where one is scheduled.
    pub fn mute_start(&self) -> (start: Option<usize>)
        ensures
            start is Some <==> self@.start is Some,
            start is Some ==> start.unwrap() == self@.start.unwrap(),
    {
        self.mute_t0_index
    }

    /// The index at which the mute ends.
    pub fn mute_end(&self) -> (end: usize)
        ensures
            end == self@.end,
    {
        self.mute_t1_index
    }
}

/// The mute window stays in order whatever clicks arrive: after a click a start is
/// scheduled, and the end is never before it.
pub proof fn lemma_click_keeps_window_in_order(state: MuteState, earliest: int, latest: int)
    requires
        state.wf(),
    ensures
        state.clicked(earliest, latest).wf(),
        state.clicked(earliest, latest).window_in_order(),
        state.clicked(earliest, latest).start is Some,
        state.clicked(earliest, latest).start.unwrap() <= state.clicked(earliest, latest).end,
        state.start is Some ==> state.clicked(earliest, latest).start == state.start,
{
}

/// A frame keeps the mute window in order, moves the clock on by one, and uses the
/// scheduled start up exactly when the clock reaches it.
pub proof fn lemma_frame_keeps_window_in_order(
    state: MuteState,
    info: InfoState,
    now: Micros,
    input: StereoSample,
    pick: Option<ClipState>,
)
    requires
        state.window_in_order(),
    ensures
        state.ticked(info, now, input, pick).0.window_in_order(),
        state.ticked(info, now, input, pick).0.clock == state.clock + 1,
        state.ticked(info, now, input, pick).0.end == state.end,
        state.ticked(info, now, input, pick).0.start == (if state.start == Some(state.clock) {
            None
        } else {
            state.start
        }),
{
}

/// A run of frames keeps the mute window in order and moves the clock on by one for
/// every frame.
pub proof fn lemma_run_keeps_window_in_order(
    state: MuteState,
    info: InfoState,
    now: Micros,
    inputs: Seq<StereoSample>,
    picks: Seq<Option<ClipState>>,
)
    requires
        state.window_in_order(),
    ensures
        state.ran(info, now, inputs, picks).0.window_in_order(),
        state.ran(info, now, inputs, picks).0.clock == state.clock + inputs.len(),
        state.ran(info, now, inputs, picks).0.end == state.end,
        state.ran(info, now, inputs, picks).2.len() == inputs.len(),
    decreases inputs.len(),
{
    if inputs.len() > 0 {
        lemma_run_keeps_window_in_order(state, info, now, inputs.drop_last(), picks.drop_last());
        let (before, before_info, _) = state.ran(
            info,
            now,
            inputs.drop_last(),
            picks.drop_last(),
        );
        lemma_frame_keeps_window_in_order(before, before_info, now, inputs.last(), picks.last());
    }
}

/// A run of frames can be cut anywhere: running the first part and then the second
/// from where the first ended is running the whole, and the outputs follow each other.
/// So one buffer after another is processed as the two in one would be.
pub proof fn lemma_run_composes(
    state: MuteState,
    info: InfoState,
    now: Micros,
    first: Seq<StereoSample>,
    second: Seq<StereoSample>,
    first_picks: Seq<Option<ClipState>>,
    second_picks: Seq<Option<ClipState>>,
)
    requires
        first.len() == first_picks.len(),
        second.len() == second_picks.len(),
    ensures
        ({
            let (middle, middle_info, first_outputs) = state.ran(info, now, first, first_picks);
            let (after, after_info, second_outputs) = middle.ran(
                middle_info,
                now,
                second,
                second_picks,
            );
            &&& state.ran(info, now, first + second, first_picks + second_picks) == (
                after,
                after_info,
                first_outputs + second_outputs,
            )
            &&& state.admits_all(info, now, first + second, first_picks + second_picks)
                <==> state.admits_all(info, now, first, first_picks) && middle.admits_all(
                middle_info,
                now,
                second,
                second_picks,
            )
        }),
    decreases second.len(),
{
    let (middle, middle_info, first_outputs) = state.ran(info, now, first, first_picks);
    if second.len() == 0 {
        assert(first + second =~= first);
        assert(first_picks + second_picks =~= first_picks);
        assert(first_outputs + Seq::<StereoSample>::empty() =~= first_outputs);
    } else {
        lemma_run_composes(
            state,
            info,
            now,
            first,
            second.drop_last(),
            first_picks,
            second_picks.drop_last(),
        );
        assert((first + second).drop_last() =~= first + second.drop_last());
        assert((first_picks + second_picks).drop_last() =~= first_picks
            + second_picks.drop_last());
        assert((first + second).last() == second.last());
        assert((first_picks + second_picks).last() == second_picks.last());
        let (before, before_info, outputs) = middle.ran(
            middle_info,
            now,
            second.drop_last(),
            second_picks.drop_last(),
        );
        let output = before.ticked(before_info, now, second.last(), second_picks.last()).2;
        assert((first_outputs + outputs).push(output) =~= first_outputs + outputs.push(output));
    }
}

/// While neither the start nor the end of a mute falls into a run, and muting is on, the
/// gains in use just keep moving, one step per frame, and the window stays as it is.
pub proof fn lemma_quiet_run(
    state: MuteState,
    info: InfoState,
    now: Micros,
    inputs: Seq<StereoSample>,
    picks: Seq<Option<ClipState>>,
)
    requires
        info.mute_enabled,
        state.quiet_for(inputs.len()),
    ensures
        ({
            let (after, after_info, _) = state.ran(info, now, inputs, picks);
            &&& after.gains(info).0 == state.gains(info).0.advanced_by(inputs.len())
            &&& after.gains(info).1 == state.gains(info).1.advanced_by(inputs.len())
            &&& after.start == state.start
            &&& after.end == state.end
            &&& after.clock == state.clock + inputs.len()
            &&& after.fade_samples == state.fade_samples
            &&& after_info.mute_enabled == info.mute_enabled
            &&& after_info.invert_mute == info.invert_mute
            &&& after_info.background_noise == info.background_noise
        }),
    decreases inputs.len(),
{
    if inputs.len() > 0 {
        let count = (inputs.len() - 1) as nat;
        lemma_quiet_run(state, info, now, inputs.drop_last(), picks.drop_last());
        lemma_advanced_by_extends(state.gains(info).0, count);
        lemma_advanced_by_extends(state.gains(info).1, count);
    }
}

/// The output of a frame is what leaves the delay lines, at the gains that the frame
/// leaves behind: as it is with muting off, scaled by the faders with inverted muting or
/// without background noise, and else blended with what the looper gives.
pub proof fn lemma_frame_output(
    state: MuteState,
    info: InfoState,
    now: Micros,
    input: StereoSample,
    pick: Option<ClipState>,
)
    ensures
        ({
            let (after, after_info, output) = state.ticked(info, now, input, pick);
            let noise = state.looper.produced(pick).1;
            let gains = after.gains(info);
            if !info.mute_enabled {
                output == (state.delay_a[0], state.delay_b[0])
            } else if info.invert_mute || !info.background_noise {
                &&& output.0 == scale(state.delay_a[0] as int, gains.0.value) as Sample
                &&& output.1 == scale(state.delay_b[0] as int, gains.1.value) as Sample
            } else {
                &&& output.0 == mix(state.delay_a[0] as int, noise.0 as int, gains.0.value) as Sample
                &&& output.1 == mix(state.delay_b[0] as int, noise.1 as int, gains.1.value) as Sample
            }
        }),
{
}

/// No frame makes a gain jump: a frame moves each gain in use by one step at most, the
/// step it had or the step of a fade that begins with the frame.
pub proof fn lemma_frame_moves_gains_one_step(
    state: MuteState,
    info: InfoState,
    now: Micros,
    input: StereoSample,
    pick: Option<ClipState>,
)
    requires
        state.wf(),
    ensures
        ({
            let after = state.ticked(info, now, input, pick).0;
            let before = state.gains(info);
            let moved = after.gains(info);
            let longest = if state.start == Some(state.clock) {
                ramp_step(state.fade_samples)
            } else if before.0.step >= 0 {
                before.0.step
            } else {
                -before.0.step
            };
            let longest_b = if state.start == Some(state.clock) {
                ramp_step(state.fade_samples)
            } else if before.1.step >= 0 {
                before.1.step
            } else {
                -before.1.step
            };
            &&& before.0.value - longest <= moved.0.value <= before.0.value + longest
            &&& before.1.value - longest_b <= moved.1.value <= before.1.value + longest_b
        }),
{
    crate::envelope::lemma_ramp_step_bounds(state.fade_samples);
}

/// The gains of a mute run down in a straight line. From the frame at which the clock
/// reaches the scheduled start, with muting on and the end of the mute not before the
/// end of the run, each gain in use has after `n` frames moved `n` steps of a fade from
/// where it stood: down, and held at zero, or with inverted muting up, and held at
/// unity. Once a fade's worth of frames has passed it has arrived, and stays there as
/// long as the mute lasts.
pub proof fn lemma_mute_ramp(
    state: MuteState,
    info: InfoState,
    now: Micros,
    inputs: Seq<StereoSample>,
    picks: Seq<Option<ClipState>>,
)
    requires
        state.wf(),
        info.mute_enabled,
        state.start == Some(state.clock),
        inputs.len() >= 1,
        picks.len() == inputs.len(),
        state.end >= state.clock + inputs.len(),
    ensures
        ({
            let after = state.ran(info, now, inputs, picks).0;
            let frames = inputs.len() as int;
            let step = ramp_step(state.fade_samples);
            let before = state.gains(info);
            let moved = after.gains(info);
            &&& after.start is None
            &&& after.end == state.end
            &&& !info.invert_mute ==> {
                &&& moved.0.value == clamp_unit(before.0.value - frames * step)
                &&& moved.1.value == clamp_unit(before.1.value - frames * step)
                &&& frames >= state.fade_samples ==> moved.0.value == 0 && moved.1.value == 0
            }
            &&& info.invert_mute ==> {
                &&& moved.0.value == clamp_unit(before.0.value + frames * step)
                &&& moved.1.value == clamp_unit(before.1.value + frames * step)
                &&& frames >= state.fade_samples ==> moved.0.value == UNITY && moved.1.value
                    == UNITY
            }
        }),
{
    let first = inputs.take(1);
    let rest = inputs.skip(1);
    let first_picks = picks.take(1);
    let rest_picks = picks.skip(1);
    assert(inputs =~= first + rest);
    assert(picks =~= first_picks + rest_picks);
    lemma_run_composes(state, info, now, first, rest, first_picks, rest_picks);
    assert(first.drop_last() =~= Seq::<StereoSample>::empty());
    let (begun, begun_info, _) = state.ran(info, now, first, first_picks);
    assert((begun, begun_info) == (
        state.ticked(info, now, first.last(), first_picks.last()).0,
        state.ticked(info, now, first.last(), first_picks.last()).1,
    ));
    lemma_quiet_run(begun, begun_info, now, rest, rest_picks);
    let armed = state.muting(info).gains(info);
    let frames = inputs.len();
    let step = ramp_step(state.fade_samples);
    crate::envelope::lemma_ramp_step_bounds(state.fade_samples);
    assert(armed.0.advanced().advanced_by(rest.len()) == armed.0.advanced_by(frames));
    assert(armed.1.advanced().advanced_by(rest.len()) == armed.1.advanced_by(frames));
    crate::envelope::lemma_ramp_is_linear(armed.0, frames);
    crate::envelope::lemma_ramp_is_linear(armed.1, frames);
    assert(frames * (-step) == -(frames * step)) by (nonlinear_arith);
    if frames >= state.fade_samples {
        crate::envelope::lemma_ramp_covers_range(state.fade_samples, frames);
    }
}

/// The gains come back in a straight line after a mute. From the frame at which the
/// clock reaches the end of the mute, with muting on and no start due within the run,
/// each gain in use has after that frame and `n` more moved `n` steps of a fade from
/// where that frame left it: up, and held at unity, or with inverted muting down, and
/// held at zero. Once a fade's worth of frames has followed it has arrived.
pub proof fn lemma_unmute_ramp(
    state: MuteState,
    info: InfoState,
    now: Micros,
    inputs: Seq<StereoSample>,
    picks: Seq<Option<ClipState>>,
)
    requires
        state.wf(),
        info.mute_enabled,
        state.end == state.clock,
        inputs.len() >= 1,
        picks.len() == inputs.len(),
        match state.start {
            Some(start) => start < state.clock || start >= state.clock + inputs.len(),
            None => true,
        },
    ensures
        ({
            let after = state.ran(info, now, inputs, picks).0;
            let more = inputs.len() - 1;
            let step = ramp_step(state.fade_samples);
            let left = (state.gains(info).0.advanced(), state.gains(info).1.advanced());
            let moved = after.gains(info);
            &&& !info.invert_mute ==> {
                &&& moved.0.value == clamp_unit(left.0.value + more * step)
                &&& moved.1.value == clamp_unit(left.1.value + more * step)
                &&& more >= state.fade_samples ==> moved.0.value == UNITY && moved.1.value
                    == UNITY
            }
            &&& info.invert_mute ==> {
                &&& moved.0.value == clamp_unit(left.0.value - more * step)
                &&& moved.1.value == clamp_unit(left.1.value - more * step)
                &&& more >= state.fade_samples ==> moved.0.value == 0 && moved.1.value == 0
            }
        }),
{
    let first = inputs.take(1);
    let rest = inputs.skip(1);
    let first_picks = picks.take(1);
    let rest_picks = picks.skip(1);
    assert(inputs =~= first + rest);
    assert(picks =~= first_picks + rest_picks);
    lemma_run_composes(state, info, now, first, rest, first_picks, rest_picks);
    assert(first.drop_last() =~= Seq::<StereoSample>::empty());
    let (ended, ended_info, _) = state.ran(info, now, first, first_picks);
    assert((ended, ended_info) == (
        state.ticked(info, now, first.last(), first_picks.last()).0,
        state.ticked(info, now, first.last(), first_picks.last()).1,
    ));
    lemma_quiet_run(ended, ended_info, now, rest, rest_picks);
    let more = rest.len();
    let step = ramp_step(state.fade_samples);
    crate::envelope::lemma_ramp_step_bounds(state.fade_samples);
    let armed = ended.gains(info);
    crate::envelope::lemma_ramp_is_linear(armed.0, more);
    crate::envelope::lemma_ramp_is_linear(armed.1, more);
    assert(more * (-step) == -(more * step)) by (nonlinear_arith);
    if more >= state.fade_samples {
        crate::envelope::lemma_ramp_covers_range(state.fade_samples, more);
    }
}

} // verus!

//! The status shared between the audio side and the control surface.

use vstd::prelude::*;
use crate::sampler::{Micros, Mode, Sampler, SamplerState};

verus! {

/// How many samples the live view keeps.
pub const LIVE_SAMPLES: usize = 10240;

/// How many samples the view of a click keeps.
pub const CLICK_SAMPLES: usize = 102400;

/// The diagnostic buffers, the toggles and the click counter.
pub struct ClickInfo {
    pub live_sampler: Sampler,
    pub click_sampler: Sampler,
    pub mute_enabled: bool,
    pub invert_mute: bool,
    pub background_noise: bool,
    pub num_clicks: usize,
}

/// What the shared status holds.
pub struct InfoState {
    pub live_sampler: SamplerState,
    pub click_sampler: SamplerState,
    pub mute_enabled: bool,
    pub invert_mute: bool,
    pub background_noise: bool,
    pub num_clicks: nat,
}

impl View for ClickInfo {
    type V = InfoState;

    open spec fn view(&self) -> InfoState {
        InfoState {
            live_sampler: self.live_sampler@,
            click_sampler: self.click_sampler@,
            mute_enabled: self.mute_enabled,
            invert_mute: self.invert_mute,
            background_noise: self.background_noise,
            num_clicks: self.num_clicks as nat,
        }
    }
}

impl InfoState {
    /// The status after the poll for clicks gave `clicked`: a click is counted.
    pub open spec fn polled(self, clicked: Option<(i64, i64)>) -> InfoState {
        InfoState {
            num_clicks: if clicked is Some {
                self.num_clicks + 1
            } else {
                self.num_clicks
            },
            ..self
        }
    }

    /// The status at start: the live view captures, the click view waits for the first
    /// trigger at or after `now`, muting with background noise is on, and no click was
    /// counted.
    pub open spec fn initial(now: Micros) -> InfoState {
        InfoState {
            live_sampler: SamplerState::empty(LIVE_SAMPLES as nat, true),
            click_sampler: SamplerState::empty(CLICK_SAMPLES as nat, false).with_mode(
                Mode::CaptureAfterTrigger(now),
            ),
            mute_enabled: true,
            invert_mute: false,
            background_noise: true,
            num_clicks: 0,
        }
    }
}

impl ClickInfo {
    /// Both samplers are well formed.
    pub open spec fn wf(&self) -> bool {
        self.live_sampler.wf() && self.click_sampler.wf()
    }

    /// The status at start, made at time `now`.
    pub fn new(now: Micros) -> (info: ClickInfo)
        ensures
            info.wf(),
            info@ == InfoState::initial(now),
    {
        ClickInfo {
            live_sampler: Sampler::new(LIVE_SAMPLES, true),
            click_sampler: {
                let mut sampler = Sampler::new(CLICK_SAMPLES, false);
                sampler.acquire_after(now);
                sampler
            },
            mute_enabled: true,
            invert_mute: false,
            background_noise: true,
            num_clicks: 0,
        }
    }
}

} // verus!

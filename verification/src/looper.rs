//! Plays background clips back, one sample at a time.

use vstd::prelude::*;
use crate::background_sampler::{BackgroundSampler, Clip, ClipState, StereoSample, picked};
use crate::delay::{Sample, SILENCE};

verus! {

/// How many of the quietest clips the looper picks among.
pub const QUIETEST: usize = 10;

/// A clip in playback: its two channels and how far playback has come.
pub struct PlayState {
    pub sample_a: Seq<Sample>,
    pub sample_b: Seq<Sample>,
    pub playhead: nat,
}

impl PlayState {
    /// A clip about to be played from its start.
    pub open spec fn begin(clip: ClipState) -> PlayState {
        PlayState {
            sample_a: clip.sample_a.contents,
            sample_b: clip.sample_b.contents,
            playhead: 0,
        }
    }
}

/// What a looper holds: the clip it plays, if any.
pub struct LooperState {
    pub current: Option<PlayState>,
}

impl LooperState {
    /// A looper that plays nothing.
    pub open spec fn idle() -> LooperState {
        LooperState { current: None }
    }

    /// The clip that plays during the next step: the one in playback, or else `pick`
    /// from its start.
    pub open spec fn playing(self, pick: Option<ClipState>) -> Option<PlayState> {
        match self.current {
            Some(play) => Some(play),
            None => match pick {
                Some(clip) => Some(PlayState::begin(clip)),
                None => None,
            },
        }
    }

    /// The looper after one step, and the samples it gave. An idle looper takes up `pick`.
    /// A clip with samples left gives the next one of each channel; a clip at its end is
    /// dropped and gives silence, and so does a looper with no clip.
    pub open spec fn produced(self, pick: Option<ClipState>) -> (LooperState, StereoSample) {
        match self.playing(pick) {
            None => (LooperState::idle(), (SILENCE, SILENCE)),
            Some(play) => if play.playhead >= play.sample_a.len() {
                (LooperState::idle(), (SILENCE, SILENCE))
            } else {
                (
                    LooperState {
                        current: Some(PlayState { playhead: play.playhead + 1, ..play }),
                    },
                    (play.sample_a[play.playhead as int], play.sample_b[play.playhead as int]),
                )
            },
        }
    }
}

struct PlayClip {
    sample_a: Vec<Sample>,
    sample_b: Vec<Sample>,
    playhead: usize,
}

/// Plays one background clip after another.
pub struct Looper {
    current_clip: Option<PlayClip>,
}

impl View for Looper {
    type V = LooperState;

    closed spec fn view(&self) -> LooperState {
        LooperState {
            current: match self.current_clip {
                Some(clip) => Some(
                    PlayState {
                        sample_a: clip.sample_a@,
                        sample_b: clip.sample_b@,
                        playhead: clip.playhead as nat,
                    },
                ),
                None => None,
            },
        }
    }
}

impl Looper {
    /// The two channels of the clip in playback are equally long, and playback has not
    /// run past their end.
    pub closed spec fn wf(&self) -> bool {
        match self.current_clip {
            Some(clip) => clip.sample_a.len() == clip.sample_b.len() && clip.playhead
                <= clip.sample_a.len(),
            None => true,
        }
    }

    /// A looper that plays nothing yet.
    pub fn new() -> (looper: Looper)
        ensures
            looper.wf(),
            looper@ == LooperState::idle(),
    {
        Looper { current_clip: None }
    }

    /// One step of playback, with `pick` as the clip to take up if none is playing.
    pub fn play(&mut self, pick: Option<Clip>) -> (out: StereoSample)
        requires
            old(self).wf(),
            pick is Some ==> pick.unwrap().wf(),
        ensures
            final(self).wf(),
            (final(self)@, out) == old(self)@.produced(picked(pick)),
    {
        let playing: Option<PlayClip> = match self.current_clip.take() {
            Some(play) => Some(play),
            None => match pick {
                Some(clip) => Some(
                    PlayClip {
                        sample_a: clip.sample_a.get(),
                        sample_b: clip.sample_b.get(),
                        playhead: 0,
                    },
                ),
                None => None,
            },
        };
        match playing {
            None => (SILENCE, SILENCE),
            Some(mut play) => {
                if play.playhead >= play.sample_a.len() {
                    (SILENCE, SILENCE)
                } else {
                    let out: StereoSample = (
                        play.sample_a[play.playhead],
                        play.sample_b[play.playhead],
                    );
                    play.playhead += 1;
                    self.current_clip = Some(play);
                    out
                }
            },
        }
    }

    /// One step of playback. A looper with no clip asks `background_sampler` for one of
    /// its quietest and plays it from the start; the sampler keeps its clips.
    pub fn produce(&mut self, background_sampler: &mut BackgroundSampler) -> (out: StereoSample)
        requires
            old(self).wf(),
            old(background_sampler).wf(),
        ensures
            final(self).wf(),
            final(background_sampler).wf(),
            final(background_sampler)@ == old(background_sampler)@,
            exists|pick: Option<ClipState>| #[trigger]
                old(background_sampler)@.offers(QUIETEST as nat, pick) && (final(self)@, out)
                    == old(self)@.produced(pick),
    {
        let pick: Option<Clip> = if self.current_clip.is_none() {
            background_sampler.choose_clip(QUIETEST)
        } else {
            None
        };
        let ghost offered: Option<ClipState> = picked(pick);
        let out = self.play(pick);
        proof {
            if old(self)@.current is Some {
                let any = old(background_sampler)@.any_offer(QUIETEST as nat);
                old(background_sampler)@.lemma_any_offer(QUIETEST as nat);
                assert(old(self)@.produced(any) == old(self)@.produced(offered));
                assert(old(background_sampler)@.offers(QUIETEST as nat, any));
            } else {
                assert(old(background_sampler)@.offers(QUIETEST as nat, offered));
            }
        }
        out
    }
}

} // verus!

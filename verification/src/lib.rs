//! Mutes a live microphone signal around the clicks of a keyboard, so that typing is not
//! heard, and fills the gap with quiet background noise taken from the signal itself.
//!
//! The signal runs through a fixed chain: a delay line, so that the mute can begin before
//! the click is heard; a fader, or a cross-fader that blends in the background; and on
//! the side a capture buffer for diagnostics and a sampler that keeps recent clips of the
//! background. A scheduler owns the sample clock, turns the times of key events into
//! sample indices, and drives the chain frame by frame.
//!
//! Everything here works on whole numbers. A sample is a signed fixed-point number
//! ([`delay::Sample`]), a gain runs from zero to [`envelope::UNITY`], the delays of the
//! configuration are microseconds, and points in time are microseconds on a clock that
//! the caller reads. Reading clocks and devices, and talking to the audio server, is left
//! to the caller: the library decides, and says in its contracts what it decides.

pub mod background_sampler;
pub mod click_info;
pub mod click_mute;
pub mod click_mute_control;
pub mod clicky_events;
pub mod config;
pub mod cross_fader;
pub mod delay;
pub mod envelope;
pub mod fader;
pub mod looper;
pub mod measure;
pub mod plot;
pub mod sampler;

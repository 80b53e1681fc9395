//! What the control surface can ask of the audio side.

use vstd::prelude::*;
use crate::config::Config;

verus! {

/// A request to the audio side.
pub enum Message {
    /// Use this configuration from now on.
    UpdateConfig(Config),
}

} // verus!

//! The delays that govern muting, and the error of a configuration that does not parse.

use vstd::prelude::*;
use vstd::string::StringExecFns;

verus! {

/// The delays around a click, in microseconds.
#[derive(Clone, Copy, Debug, PartialEq, Eq, Structural)]
pub struct Delays {
    /// From the arrival of a click event to the start of the mute; negative where the
    /// click is heard before its event arrives.
    pub mute_offset: i64,
    /// How long a mute lasts.
    pub mute_duration: i64,
    /// How long a fade in or out lasts.
    pub fade: i64,
}

/// What the user can configure.
#[derive(Clone, Copy, Debug, PartialEq, Eq, Structural)]
pub struct Config {
    pub delays: Delays,
}

/// The name of the configuration file in the working directory.
pub const FILENAME: &'static str = "click_mute.ini";

impl Config {
    /// The configuration used where none is stored: the mute begins 40 ms before the
    /// click event, lasts 80 ms, and fades over 10 ms.
    pub fn new() -> (config: Config)
        ensures
            config.delays.mute_offset == -40_000,
            config.delays.mute_duration == 80_000,
            config.delays.fade == 10_000,
    {
        let delays = Delays { mute_offset: -40_000, mute_duration: 80_000, fade: 10_000 };
        Config { delays }
    }
}

/// A configuration file that could not be parsed.
#[derive(Debug)]
pub struct ParseError {
    pub filename: String,
    pub message: String,
}

impl ParseError {
    /// The error in words: the file that failed and why.
    pub fn to_string(&self) -> (text: String)
        ensures
            text@ == "Failed to parse "@ + self.filename@ + ": "@ + self.message@,
    {
        let mut text = String::from_str("Failed to parse ");
        text.append(self.filename.as_str());
        text.append(": ");
        text.append(self.message.as_str());
        text
    }
}

} // verus!

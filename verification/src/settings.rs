//! The tunable constants of both pipelines.

use vstd::prelude::*;

verus! {

/// Largest amplitude that still counts as silence.
pub const SILENCE_THRESHOLD: i32 = 100;

/// Length from which a silent run is dropped.
pub const LONG_RUN: usize = 1000;

/// Length of each fade, in milliseconds.
pub const FADE_MILLIS: u32 = 1000;

/// Length of the looped output, in milliseconds.
pub const LOOP_MILLIS: u32 = 10000;

/// The constants that the pipelines work with. `Settings::default()` gives
/// the standard values; tests and callers may override any of them.
#[derive(Clone, Copy, Debug)]
pub struct Settings {
    /// Largest amplitude that still counts as silence.
    pub silence_threshold: i32,
    /// Length from which a silent run is dropped.
    pub long_run: usize,
    /// Length of each fade, in milliseconds.
    pub fade_millis: u32,
    /// Length of the looped output, in milliseconds.
    pub loop_millis: u32,
}

impl Default for Settings {
    fn default() -> (settings: Settings)
        ensures
            settings.silence_threshold == SILENCE_THRESHOLD,
            settings.long_run == LONG_RUN,
            settings.fade_millis == FADE_MILLIS,
            settings.loop_millis == LOOP_MILLIS,
    {
        Settings {
            silence_threshold: SILENCE_THRESHOLD,
            long_run: LONG_RUN,
            fade_millis: FADE_MILLIS,
            loop_millis: LOOP_MILLIS,
        }
    }
}

} // verus!

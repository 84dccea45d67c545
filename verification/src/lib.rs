//! Silence trimming and fade/loop rendering for interleaved PCM audio.
//!
//! Two independent pipelines live here. One scans a sample sequence for runs
//! of near-silence and drops the long ones. The other shapes decoded audio
//! with a linear fade at both ends and repeats it up to a fixed duration.
//! Reading and writing files is left to the caller: every function works on
//! plain values.

pub mod arith;
pub mod cli;
pub mod convert;
pub mod fade;
pub mod looping;
pub mod mp3;
pub mod pcm;
pub mod settings;
pub mod silence;
pub mod wav;

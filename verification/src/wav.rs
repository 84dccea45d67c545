//! What the trimming pipeline decides about the WAV files around it.

use vstd::prelude::*;

verus! {

/// How the samples of a WAV file are encoded.
#[derive(Clone, Copy, Debug, PartialEq, Eq, Structural)]
pub enum SampleFormat {
    /// IEEE floating point.
    Float,
    /// Signed integers.
    Int,
}

/// The format of a WAV file.
#[derive(Clone, Copy, Debug, PartialEq, Eq, Structural)]
pub struct AudioSpec {
    /// Samples per frame.
    pub channels: u16,
    /// Frames per second.
    pub sample_rate: u32,
    /// Width of one sample.
    pub bits_per_sample: u16,
    /// Encoding of one sample.
    pub sample_format: SampleFormat,
}

/// How the output file is to be opened.
#[derive(Clone, Copy, Debug, PartialEq, Eq, Structural)]
pub enum SinkMode {
    /// No file is there: a new one is written.
    Create,
    /// A file of the same format is there: the samples go behind its own.
    Append,
}

/// The output file exists in another format than the samples to be written.
#[derive(Clone, Copy, Debug, PartialEq, Eq, Structural)]
pub struct FormatMismatch {
    /// The format of the file that is there.
    pub existing: AudioSpec,
    /// The format of the samples.
    pub incoming: AudioSpec,
}

/// The sample that a read yields: its value, or silence where it failed.
pub open spec fn read_or_silence(read: Option<i32>) -> i32 {
    match read {
        Some(value) => value,
        None => 0,
    }
}

/// Puts silence in the place of a sample that could not be read.
pub fn sample_or_silence(read: Option<i32>) -> (sample: i32)
    ensures
        sample == read_or_silence(read),
{
    match read {
        Some(value) => value,
        None => 0,
    }
}

/// Decides how to open the output: a new file where none exists, an append
/// where one exists in exactly the format of the samples, and a refusal where
/// one exists in any other format.
pub fn choose_sink(existing: Option<AudioSpec>, incoming: AudioSpec) -> (mode: Result<
    SinkMode,
    FormatMismatch,
>)
    ensures
        existing is None ==> mode == Ok::<SinkMode, FormatMismatch>(SinkMode::Create),
        existing == Some(incoming) ==> mode == Ok::<SinkMode, FormatMismatch>(SinkMode::Append),
        existing is Some && existing != Some(incoming) ==> mode == Err::<SinkMode, FormatMismatch>(
            (FormatMismatch { existing: existing->0, incoming }),
        ),
{
    match existing {
        None => Ok(SinkMode::Create),
        Some(found) => {
            if found == incoming {
                Ok(SinkMode::Append)
            } else {
                Err(FormatMismatch { existing: found, incoming })
            }
        },
    }
}

} // verus!

//! The conversion pipeline: decode, fade, loop.

use vstd::prelude::*;
use crate::fade::{apply_fade_in_fade_out, fade_frame_count, fade_frames, faded, whole_frames};
use crate::looping::{loop_extend, looped, target_sample_count, target_samples};
use crate::mp3::{decode_mp3, frame_layout, is_decoding, FrameError};
use crate::pcm::{shaped, PcmBuffer, PcmModel};
use crate::settings::Settings;
use crate::wav::{AudioSpec, SampleFormat};

verus! {

/// Sixteen-bit audio ready to be written out as a WAV file.
#[derive(Debug)]
pub struct WavImage {
    /// The format to declare in the file.
    pub spec: AudioSpec,
    /// The samples to write, in order.
    pub samples: Vec<i16>,
}

/// Why a conversion gave no output.
#[derive(Clone, Copy, Debug, PartialEq, Eq, Structural)]
pub enum ConvertError {
    /// The decoder stopped on an error. Decoding bytes held in memory never
    /// ends so: `convert_mp3_to_wav` does not return this.
    Decode(FrameError),
    /// The decoded audio cannot be faded and looped: see `renderable`.
    Unrenderable,
}

/// Whether `audio` can be faded and looped under `settings`: it has a format
/// that a WAV header can carry, holds at least as many whole frames as one
/// fade spans, and has something to repeat unless nothing is to be emitted.
/// The number of samples to emit must fit a `usize`.
pub open spec fn renderable(audio: PcmModel, settings: Settings) -> bool {
    &&& 0 < audio.channels <= u16::MAX
    &&& 0 < audio.sample_rate
    &&& fade_frames(settings.fade_millis as int, audio.sample_rate) <= whole_frames(
        audio.samples.len() as int,
        audio.channels,
    )
    &&& target_samples(settings.loop_millis as int, audio.sample_rate, audio.channels)
        <= usize::MAX
    &&& (audio.samples.len() > 0 || target_samples(
        settings.loop_millis as int,
        audio.sample_rate,
        audio.channels,
    ) == 0)
}

/// The samples of the output: `audio` faded at both ends, then repeated up
/// to the length that `settings` asks for.
pub open spec fn rendered_samples(audio: PcmModel, settings: Settings) -> Seq<i16> {
    looped(
        faded(
            audio.samples,
            audio.channels,
            fade_frames(settings.fade_millis as int, audio.sample_rate),
        ),
        target_samples(settings.loop_millis as int, audio.sample_rate, audio.channels),
    )
}

/// The format of the output: that of `audio`, as 16-bit integers.
pub open spec fn rendered_spec(audio: PcmModel) -> AudioSpec {
    AudioSpec {
        channels: audio.channels as u16,
        sample_rate: audio.sample_rate as u32,
        bits_per_sample: 16,
        sample_format: SampleFormat::Int,
    }
}

/// Decides whether `audio` can be faded and looped under `settings`.
pub fn can_render(audio: &PcmBuffer, settings: &Settings) -> (ok: bool)
    ensures
        ok == renderable(audio@, *settings),
{
    if audio.channels == 0 || audio.channels > u16::MAX as usize || audio.sample_rate <= 0 {
        return false;
    }
    let frames = audio.samples.len() / audio.channels;
    let fade = fade_frame_count(settings.fade_millis, audio.sample_rate);
    if fade > frames as u64 {
        return false;
    }
    match target_sample_count(settings.loop_millis, audio.sample_rate, audio.channels) {
        None => false,
        Some(target) => audio.samples.len() > 0 || target == 0,
    }
}

/// Fades `audio` in and out and repeats it up to the configured duration.
pub fn render_loop(audio: PcmBuffer, settings: &Settings) -> (image: WavImage)
    requires
        renderable(audio@, *settings),
    ensures
        image.samples@ == rendered_samples(audio@, *settings),
        image.samples@.len() == target_samples(
            settings.loop_millis as int,
            audio@.sample_rate,
            audio@.channels,
        ),
        image.spec == rendered_spec(audio@),
{
    let channels = audio.channels;
    let sample_rate = audio.sample_rate;
    let mut samples = audio.samples;
    apply_fade_in_fade_out(&mut samples, channels, settings.fade_millis, sample_rate);
    let target = match target_sample_count(settings.loop_millis, sample_rate, channels) {
        Some(count) => count,
        None => 0,
    };
    let out = loop_extend(&samples, target);
    WavImage {
        spec: AudioSpec {
            channels: channels as u16,
            sample_rate: sample_rate as u32,
            bits_per_sample: 16,
            sample_format: SampleFormat::Int,
        },
        samples: out,
    }
}

/// Renders `audio` where it can be rendered, and refuses it where it cannot.
pub fn render(audio: PcmBuffer, settings: &Settings) -> (out: Result<WavImage, ConvertError>)
    ensures
        renderable(audio@, *settings) ==> out is Ok,
        !renderable(audio@, *settings) ==> out is Err,
        out matches Ok(image) ==> {
            &&& image.samples@ == rendered_samples(audio@, *settings)
            &&& image.spec == rendered_spec(audio@)
        },
        out matches Err(error) ==> error == ConvertError::Unrenderable,
{
    if can_render(&audio, settings) {
        Ok(render_loop(audio, settings))
    } else {
        Err(ConvertError::Unrenderable)
    }
}

/// Converts an MP3 stream held in memory into a looped, faded WAV image.
///
/// The stream is decoded whole and what was decoded goes through `render`.
/// Whether an image comes out is settled by the frames that the bytes hold:
/// their format and their length together must be renderable. Audio that is
/// not (none at all, or less than one fade) is refused. The image has the
/// format of the first frame and the length that the settings ask for, and
/// its samples are the rendering of a decoding of the bytes.
pub fn convert_mp3_to_wav(bytes: &[u8], settings: &Settings) -> (out: Result<
    WavImage,
    ConvertError,
>)
    ensures
        out is Ok <==> renderable(shaped(frame_layout(bytes@)), *settings),
        out matches Err(error) ==> error == ConvertError::Unrenderable,
        out matches Ok(image) ==> {
            &&& image.spec == rendered_spec(shaped(frame_layout(bytes@)))
            &&& image.samples@.len() == target_samples(
                settings.loop_millis as int,
                shaped(frame_layout(bytes@)).sample_rate,
                shaped(frame_layout(bytes@)).channels,
            )
            &&& exists|audio: PcmModel|
                {
                    &&& #[trigger] is_decoding(audio, bytes@)
                    &&& image.samples@ == rendered_samples(audio, *settings)
                }
        },
{
    match decode_mp3(bytes) {
        Err(error) => Err(ConvertError::Decode(error)),
        Ok(audio) => {
            let ghost decoded = audio@;
            let out = render(audio, settings);
            proof {
                assert(renderable(decoded, *settings) == renderable(
                    shaped(frame_layout(bytes@)),
                    *settings,
                ));
                if out is Ok {
                    assert(is_decoding(decoded, bytes@));
                }
            }
            out
        },
    }
}

} // verus!

//! MP3 decoding through the `minimp3` crate.

use vstd::prelude::*;
use crate::pcm::{
    absorbed,
    all_decoded_frames,
    empty_stream,
    frames_match,
    is_decoded_frame,
    layout_of,
    lemma_merged_of_decoded_frames,
    lemma_merged_prefix,
    lemma_merged_shape,
    merged,
    same_shape,
    shaped,
    PcmBuffer,
    PcmModel,
};

verus! {

/// `minimp3::Decoder`, the frame-by-frame MP3 decoder of the `minimp3`
/// crate. It is carried through as an opaque value: nothing of its inside
/// is visible here.
#[verifier::external_type_specification]
#[verifier::external_body]
#[verifier::reject_recursive_types(R)]
pub struct ExDecoder<R>(minimp3::Decoder<R>);

/// Why the decoder handed out no frame.
#[derive(Clone, Copy, Debug, PartialEq, Eq, Structural)]
pub enum FrameError {
    /// Reading the input failed.
    Io,
    /// The buffered input holds no complete frame.
    InsufficientData,
    /// Input that is no frame was skipped.
    SkippedData,
    /// The input is used up.
    Eof,
}

/// The frames that an MP3 stream holds, as the decoder finds them: for each
/// frame that it returns before it first returns an error, the sample rate,
/// the channel count and the number of samples. The decoder takes all three
/// from the frame headers by integer arithmetic alone. The values of the
/// samples are not part of this: they depend on how the decoder was built.
pub uninterp spec fn frame_layout(bytes: Seq<u8>) -> Seq<(int, int, int)>;

/// The frames that a decoder over a byte slice has still to return before
/// its first error, each with its sample rate, channel count and number of
/// samples. Every frame uses up input, so there are finitely many.
pub uninterp spec fn layout_ahead(decoder: minimp3::Decoder<&[u8]>) -> Seq<(int, int, int)>;

/// `minimp3::Decoder::new` over a byte slice. The claim is that the new
/// decoder has the whole stream before it: it starts with an empty buffer
/// and the whole slice still to read.
#[verifier::external_body]
fn open_decoder(bytes: &[u8]) -> (decoder: minimp3::Decoder<&[u8]>)
    ensures
        layout_ahead(decoder) == frame_layout(bytes@),
{
    minimp3::Decoder::new(bytes)
}

/// `minimp3::Decoder::next_frame`, with the frame and the error turned into
/// this crate's types.
///
/// Of a frame that is returned three things are claimed. It is the next of
/// the frames ahead, in rate, channel count and number of samples, and the
/// frames behind it are left ahead. And it is a decoded frame: it holds at
/// least one sample, the number of its samples is a multiple of its channel
/// count, which is at least one, and its sample rate is positive. The decoder
/// returns a frame only when samples were decoded, sets its length to the
/// samples per channel times the channel count, and takes channel count
/// (1 or 2) and sample rate (one of the MPEG rates) from the frame's header.
///
/// Of an error it is claimed that it is the end of the input, and that no
/// frame was ahead. Over a byte slice reading cannot fail, and where the
/// decoder finds too little data or skips data it reads on, and reports the
/// end of the input once nothing is left to read.
#[verifier::external_body]
fn next_frame(decoder: &mut minimp3::Decoder<&[u8]>) -> (step: Result<PcmBuffer, FrameError>)
    ensures
        match step {
            Ok(frame) => {
                &&& is_decoded_frame(frame@)
                &&& layout_ahead(*old(decoder)).len() > 0
                &&& layout_of(frame@) == layout_ahead(*old(decoder))[0]
                &&& layout_ahead(*final(decoder)) == layout_ahead(*old(decoder)).drop_first()
            },
            Err(error) => error == FrameError::Eof && layout_ahead(*old(decoder)).len() == 0,
        },
{
    match decoder.next_frame() {
        Ok(frame) => Ok(
            PcmBuffer {
                samples: frame.data,
                sample_rate: frame.sample_rate,
                channels: frame.channels,
            },
        ),
        Err(minimp3::Error::Io(_)) => Err(FrameError::Io),
        Err(minimp3::Error::InsufficientData) => Err(FrameError::InsufficientData),
        Err(minimp3::Error::SkippedData) => Err(FrameError::SkippedData),
        Err(minimp3::Error::Eof) => Err(FrameError::Eof),
    }
}

/// What the decoding loop does after one answer of the decoder.
#[derive(Clone, Copy, Debug, PartialEq, Eq, Structural)]
pub enum Progress {
    /// A frame was taken in: ask for the next one.
    Continue,
    /// The input is used up: the stream is complete.
    Finished,
    /// The decoder stopped for another reason: the stream is given up.
    Failed(FrameError),
}

/// Handles one answer of the decoder. A frame is taken in at the end of
/// `audio`; the end of the input finishes the stream as it stands; any other
/// error fails it.
pub fn take_answer(audio: &mut PcmBuffer, answer: Result<PcmBuffer, FrameError>) -> (progress:
    Progress)
    ensures
        match answer {
            Ok(frame) => progress == Progress::Continue && final(audio)@ == absorbed(
                old(audio)@,
                frame@,
            ),
            Err(FrameError::Eof) => progress == Progress::Finished && final(audio)@ == old(
                audio,
            )@,
            Err(error) => progress == Progress::Failed(error) && final(audio)@ == old(audio)@,
        },
{
    match answer {
        Ok(frame) => {
            audio.absorb(frame);
            Progress::Continue
        },
        Err(FrameError::Eof) => Progress::Finished,
        Err(error) => Progress::Failed(error),
    }
}

/// Whether `audio` is a decoding of `bytes`: the stream that decoded frames
/// make, taken in in their order, where the frames are as many as the bytes
/// hold and have their formats and lengths. Only the values of the samples
/// are left open.
pub open spec fn is_decoding(audio: PcmModel, bytes: Seq<u8>) -> bool {
    exists|frames: Seq<PcmModel>|
        {
            &&& all_decoded_frames(frames)
            &&& frames_match(frames, frame_layout(bytes))
            &&& audio == #[trigger] merged(frames, frames.len() as int)
        }
}

/// A decoding has the format of the first frame that the bytes hold and the
/// length of all their frames together. Where they hold no frame it is the
/// empty stream; where they hold one it has samples in it, at a positive
/// sample rate and with at least one channel.
pub proof fn lemma_decoding_has_shape(audio: PcmModel, bytes: Seq<u8>)
    requires
        is_decoding(audio, bytes),
    ensures
        same_shape(audio, shaped(frame_layout(bytes))),
        frame_layout(bytes).len() == 0 ==> audio == empty_stream(),
        frame_layout(bytes).len() > 0 ==> audio.sample_rate > 0 && audio.channels >= 1
            && audio.samples.len() > 0,
{
    let frames = choose|frames: Seq<PcmModel>|
        {
            &&& all_decoded_frames(frames)
            &&& frames_match(frames, frame_layout(bytes))
            &&& audio == #[trigger] merged(frames, frames.len() as int)
        };
    lemma_merged_shape(frames, frame_layout(bytes), frames.len() as int);
    if frames.len() > 0 {
        lemma_merged_of_decoded_frames(frames, frames.len() as int);
    }
}

/// Decodes an MP3 stream held in memory into one buffer.
///
/// The decoder is asked for frame after frame, and each answer goes through
/// `take_answer`: frames are taken in in their order, so the first one sets
/// the format, until the input is used up. Over bytes in memory the decoder
/// has no other reason to stop, so decoding always succeeds; input in which
/// it finds no frame gives the empty stream.
pub fn decode_mp3(bytes: &[u8]) -> (out: Result<PcmBuffer, FrameError>)
    ensures
        out is Ok,
        out matches Ok(audio) ==> is_decoding(audio@, bytes@),
        out matches Ok(audio) ==> same_shape(audio@, shaped(frame_layout(bytes@))),
{
    let mut decoder = open_decoder(bytes);
    let mut audio = PcmBuffer::new();
    let ghost layout = frame_layout(bytes@);
    let ghost mut frames: Seq<PcmModel> = Seq::empty();
    loop
        invariant
            layout == frame_layout(bytes@),
            frames.len() <= layout.len(),
            layout_ahead(decoder) == layout.skip(frames.len() as int),
            all_decoded_frames(frames),
            forall|i: int| 0 <= i < frames.len() ==> layout_of(#[trigger] frames[i]) == layout[i],
            audio@ == merged(frames, frames.len() as int),
        decreases layout_ahead(decoder).len(),
    {
        let answer = next_frame(&mut decoder);
        let ghost taken = answer;
        match take_answer(&mut audio, answer) {
            Progress::Continue => {
                proof {
                    let frame = taken->Ok_0@;
                    lemma_merged_prefix(frames, frame, frames.len() as int);
                    assert(layout.skip(frames.len() as int).drop_first() =~= layout.skip(
                        frames.len() as int + 1,
                    ));
                    frames = frames.push(frame);
                }
            },
            Progress::Finished => {
                proof {
                    assert(frames_match(frames, layout));
                    lemma_merged_shape(frames, layout, frames.len() as int);
                }
                return Ok(audio);
            },
            Progress::Failed(error) => {
                return Err(error);
            },
        }
    }
}

} // verus!

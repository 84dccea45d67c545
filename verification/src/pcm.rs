//! Sixteen-bit PCM audio with the format it was decoded at.

use vstd::prelude::*;

verus! {

/// Interleaved 16-bit samples together with their sample rate and channel
/// count. One decoded frame has this shape, and so has a whole decoded
/// stream.
#[derive(Debug)]
pub struct PcmBuffer {
    /// The samples, one per channel for each frame in turn.
    pub samples: Vec<i16>,
    /// Frames per second.
    pub sample_rate: i32,
    /// Samples per frame.
    pub channels: usize,
}

/// The mathematical content of a `PcmBuffer`.
pub ghost struct PcmModel {
    /// The samples, one per channel for each frame in turn.
    pub samples: Seq<i16>,
    /// Frames per second.
    pub sample_rate: int,
    /// Samples per frame.
    pub channels: int,
}

impl View for PcmBuffer {
    type V = PcmModel;

    open spec fn view(&self) -> PcmModel {
        PcmModel {
            samples: self.samples@,
            sample_rate: self.sample_rate as int,
            channels: self.channels as int,
        }
    }
}

/// What a stream holds once `frame` has been taken in: the frame's samples
/// follow those already there, and the frame's format is adopted while none
/// is set, which a sample rate of zero stands for.
pub open spec fn absorbed(audio: PcmModel, frame: PcmModel) -> PcmModel {
    PcmModel {
        samples: audio.samples + frame.samples,
        sample_rate: if audio.sample_rate == 0 {
            frame.sample_rate
        } else {
            audio.sample_rate
        },
        channels: if audio.sample_rate == 0 {
            frame.channels
        } else {
            audio.channels
        },
    }
}

/// A stream before its first frame.
pub open spec fn empty_stream() -> PcmModel {
    PcmModel { samples: Seq::empty(), sample_rate: 0, channels: 0 }
}

/// The stream that the first `n` of `frames` make, taken in one by one.
pub open spec fn merged(frames: Seq<PcmModel>, n: int) -> PcmModel
    decreases n,
{
    if n <= 0 {
        empty_stream()
    } else {
        absorbed(merged(frames, n - 1), frames[n - 1])
    }
}

impl PcmModel {
    /// Whether the buffer is made of whole frames at a positive sample rate.
    pub open spec fn well_formed(self) -> bool {
        &&& self.channels >= 1
        &&& self.sample_rate > 0
        &&& self.samples.len() as int % self.channels == 0
    }
}

/// Whole frames stay whole: a stream that is empty or well formed, taking in
/// a well-formed frame of its own channel count, is well formed again.
pub proof fn lemma_absorb_keeps_whole_frames(audio: PcmModel, frame: PcmModel)
    requires
        audio == empty_stream() || (audio.well_formed() && audio.channels == frame.channels),
        frame.well_formed(),
    ensures
        absorbed(audio, frame).well_formed(),
{
    let channels = frame.channels;
    let before = audio.samples.len() as int;
    let added = frame.samples.len() as int;
    assert((audio.samples + frame.samples).len() == before + added);
    if audio == empty_stream() {
        assert(before == 0);
    } else {
        vstd::arithmetic::div_mod::lemma_fundamental_div_mod(before, channels);
        vstd::arithmetic::div_mod::lemma_fundamental_div_mod(added, channels);
        let whole = before / channels + added / channels;
        assert(before + added == whole * channels + 0) by (nonlinear_arith)
            requires
                before == channels * (before / channels),
                added == channels * (added / channels),
                whole == before / channels + added / channels,
        ;
        vstd::arithmetic::div_mod::lemma_fundamental_div_mod_converse(
            before + added,
            channels,
            whole,
            0,
        );
    }
}

/// Whether `frame` is what a decoder hands out as one frame: a positive
/// number of whole frames of samples at a positive sample rate.
pub open spec fn is_decoded_frame(frame: PcmModel) -> bool {
    frame.well_formed() && frame.samples.len() > 0
}

/// Whether each of `frames` is a decoded frame.
pub open spec fn all_decoded_frames(frames: Seq<PcmModel>) -> bool {
    forall|i: int| 0 <= i < frames.len() ==> is_decoded_frame(#[trigger] frames[i])
}

/// What came before is not changed by a frame that follows.
pub proof fn lemma_merged_prefix(frames: Seq<PcmModel>, frame: PcmModel, n: int)
    requires
        n <= frames.len(),
    ensures
        merged(frames.push(frame), n) == merged(frames, n),
    decreases n,
{
    if n > 0 {
        lemma_merged_prefix(frames, frame, n - 1);
        assert(frames.push(frame)[n - 1] == frames[n - 1]);
    }
}

/// A stream made of at least one decoded frame has the format of the first
/// of them, and holds samples.
pub proof fn lemma_merged_of_decoded_frames(frames: Seq<PcmModel>, n: int)
    requires
        0 < n <= frames.len(),
        all_decoded_frames(frames),
    ensures
        merged(frames, n).sample_rate == frames[0].sample_rate,
        merged(frames, n).channels == frames[0].channels,
        merged(frames, n).sample_rate > 0,
        merged(frames, n).channels >= 1,
        merged(frames, n).samples.len() > 0,
    decreases n,
{
    assert(is_decoded_frame(frames[0]));
    if n > 1 {
        lemma_merged_of_decoded_frames(frames, n - 1);
    } else {
        reveal_with_fuel(merged, 2);
    }
}

/// The format and length of one frame: its sample rate, its channel count
/// and the number of its samples.
pub open spec fn layout_of(frame: PcmModel) -> (int, int, int) {
    (frame.sample_rate, frame.channels, frame.samples.len() as int)
}

/// Whether `frames` have, one by one, the formats and lengths that `layout`
/// lists.
pub open spec fn frames_match(frames: Seq<PcmModel>, layout: Seq<(int, int, int)>) -> bool {
    &&& frames.len() == layout.len()
    &&& forall|i: int| 0 <= i < frames.len() ==> layout_of(#[trigger] frames[i]) == layout[i]
}

/// The number of samples in the first `n` frames of `layout`.
pub open spec fn samples_in(layout: Seq<(int, int, int)>, n: int) -> int
    decreases n,
{
    if n <= 0 {
        0
    } else {
        samples_in(layout, n - 1) + layout[n - 1].2
    }
}

/// The stream that `layout` announces, with silence in the place of the
/// samples: it has the format of the first frame, or none where there is no
/// frame, and the length of all frames together.
pub open spec fn shaped(layout: Seq<(int, int, int)>) -> PcmModel {
    PcmModel {
        samples: Seq::new(samples_in(layout, layout.len() as int) as nat, |i: int| 0i16),
        sample_rate: if layout.len() == 0 {
            0
        } else {
            layout[0].0
        },
        channels: if layout.len() == 0 {
            0
        } else {
            layout[0].1
        },
    }
}

/// Whether two streams have the same format and the same length.
pub open spec fn same_shape(one: PcmModel, other: PcmModel) -> bool {
    &&& one.sample_rate == other.sample_rate
    &&& one.channels == other.channels
    &&& one.samples.len() == other.samples.len()
}

/// Decoded frames of a given layout make a stream of the first frame's
/// format that is as long as all of them together.
pub proof fn lemma_merged_shape(frames: Seq<PcmModel>, layout: Seq<(int, int, int)>, n: int)
    requires
        0 <= n <= frames.len(),
        all_decoded_frames(frames),
        frames_match(frames, layout),
    ensures
        merged(frames, n).samples.len() == samples_in(layout, n),
        samples_in(layout, n) >= 0,
        n > 0 ==> merged(frames, n).sample_rate == layout[0].0 && merged(frames, n).channels
            == layout[0].1,
        n == 0 ==> merged(frames, n) == empty_stream(),
        n == frames.len() ==> same_shape(merged(frames, n), shaped(layout)),
    decreases n,
{
    if n > 0 {
        lemma_merged_shape(frames, layout, n - 1);
        lemma_merged_of_decoded_frames(frames, n);
        assert(layout_of(frames[n - 1]) == layout[n - 1]);
        assert(layout_of(frames[0]) == layout[0]);
    }
}

/// The first frame fixes the format of the whole stream: as long as it
/// declares a sample rate, later frames add their samples and nothing else.
pub proof fn lemma_first_frame_defines_format(frames: Seq<PcmModel>, n: int)
    requires
        0 < n <= frames.len(),
        frames[0].sample_rate != 0,
    ensures
        merged(frames, n).sample_rate == frames[0].sample_rate,
        merged(frames, n).channels == frames[0].channels,
    decreases n,
{
    if n > 1 {
        lemma_first_frame_defines_format(frames, n - 1);
    } else {
        reveal_with_fuel(merged, 2);
    }
}

impl PcmBuffer {
    /// A stream before its first frame: no samples, no format.
    pub fn new() -> (audio: PcmBuffer)
        ensures
            audio@ == empty_stream(),
    {
        PcmBuffer { samples: Vec::new(), sample_rate: 0, channels: 0 }
    }

    /// Takes `frame` in at the end of the stream.
    pub fn absorb(&mut self, frame: PcmBuffer)
        ensures
            final(self)@ == absorbed(old(self)@, frame@),
    {
        if self.sample_rate == 0 {
            self.sample_rate = frame.sample_rate;
            self.channels = frame.channels;
        }
        let mut data = frame.samples;
        self.samples.append(&mut data);
    }
}

} // verus!

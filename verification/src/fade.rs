//! Linear fade-in and fade-out over the ends of an interleaved buffer.
//!
//! The fade runs over a whole number of frames. Frame `i` of the fade-in is
//! scaled by `i / fade`, so the first frame becomes silence; the frame that
//! lies `k` frames before the end is scaled by `k / fade`. Where a buffer is
//! shorter than two fades the ramps overlap and both apply, one after the
//! other. Scaling is exact: the product is rounded to the nearest integer,
//! halves away from zero.

use vstd::prelude::*;
use crate::arith::{floor_quotient, rounded_quotient};

verus! {

/// `sample * num / den` rounded to the nearest integer, halves away from zero.
pub open spec fn scaled(sample: int, num: int, den: int) -> int {
    if sample >= 0 {
        rounded_quotient(sample * num, den)
    } else {
        -rounded_quotient((-sample) * num, den)
    }
}

/// Number of frames that a fade of `fade_millis` milliseconds spans at
/// `sample_rate` frames per second, rounded up. A rate that is not positive
/// gives no fade.
pub open spec fn fade_frames(fade_millis: int, sample_rate: int) -> int {
    if sample_rate <= 0 || fade_millis <= 0 {
        0
    } else {
        floor_quotient(fade_millis * sample_rate + 999, 1000)
    }
}

/// `fade_frames` is a ceiling: the least number of frames that covers the
/// duration.
pub proof fn lemma_fade_frames_is_ceiling(fade_millis: int, sample_rate: int)
    requires
        0 < fade_millis,
        0 < sample_rate,
    ensures
        1000 * (fade_frames(fade_millis, sample_rate) - 1) < fade_millis * sample_rate <= 1000
            * fade_frames(fade_millis, sample_rate),
{
    vstd::arithmetic::div_mod::lemma_fundamental_div_mod(fade_millis * sample_rate + 999, 1000);
}

/// `scaled` is a nearest integer: it misses the exact quotient by at most
/// one half. It keeps the sign of the sample and never exceeds its magnitude
/// while the factor is at most one.
pub proof fn lemma_scaled_nearest(sample: int, num: int, den: int)
    requires
        0 <= num,
        0 < den,
    ensures
        -den <= 2 * (scaled(sample, num, den) * den - sample * num) <= den,
        sample >= 0 ==> scaled(sample, num, den) >= 0,
        sample <= 0 ==> scaled(sample, num, den) <= 0,
        num <= den && sample >= 0 ==> scaled(sample, num, den) <= sample,
        num <= den && sample <= 0 ==> scaled(sample, num, den) >= sample,
{
    let mag = if sample >= 0 {
        sample
    } else {
        -sample
    };
    lemma_rounded_quotient(mag * num, den);
    let q = rounded_quotient(mag * num, den);
    assert(0 <= mag * num) by (nonlinear_arith)
        requires
            0 <= mag,
            0 <= num,
    ;
    if num <= den {
        assert(mag * num <= mag * den) by (nonlinear_arith)
            requires
                0 <= mag,
                0 <= num <= den,
        ;
        assert(q <= mag) by (nonlinear_arith)
            requires
                -den <= 2 * (q * den - mag * num) <= den,
                mag * num <= mag * den,
                0 < den,
        ;
    }
    if sample == 0 {
        assert(mag * num == 0) by (nonlinear_arith)
            requires
                mag == 0,
        ;
        assert(q == 0) by (nonlinear_arith)
            requires
                0 <= q,
                2 * (q * den - 0) <= den,
                0 < den,
        ;
    }
    if sample < 0 {
        assert(scaled(sample, num, den) == -q);
        assert((-q) * den - sample * num == -(q * den - mag * num)) by (nonlinear_arith)
            requires
                mag == -sample,
        ;
    } else {
        assert(scaled(sample, num, den) == q);
    }
}

/// The rounded quotient of a non-negative numerator lies within one half of
/// the exact one.
proof fn lemma_rounded_quotient(n: int, den: int)
    by (nonlinear_arith)
    requires
        0 <= n,
        0 < den,
    ensures
        0 <= rounded_quotient(n, den),
        -den <= 2 * (rounded_quotient(n, den) * den - n) <= den,
{
    let q = (2 * n + den) / (2 * den);
    let r = (2 * n + den) % (2 * den);
    assert(2 * n + den == (2 * den) * q + r);
    assert(0 <= r < 2 * den);
}

/// Scales one sample by `num / den`, rounding to the nearest integer.
pub fn scale_sample(sample: i16, num: usize, den: usize) -> (out: i16)
    requires
        num <= den,
        0 < den,
    ensures
        out == scaled(sample as int, num as int, den as int),
{
    let negative = sample < 0;
    let mag: u128 = if negative {
        (-(sample as i32)) as u128
    } else {
        sample as u128
    };
    proof {
        lemma_scaled_nearest(sample as int, num as int, den as int);
        assert(0 <= mag * num <= 32768 * 0xffff_ffff_ffff_ffff) by (nonlinear_arith)
            requires
                0 <= mag <= 32768,
                0 <= num <= 0xffff_ffff_ffff_ffff,
        ;
    }
    let q: u128 = (2 * (mag * (num as u128)) + (den as u128)) / (2 * (den as u128));
    if negative {
        (-(q as i32)) as i16
    } else {
        q as i16
    }
}

/// The frame that holds position `idx` of an interleaved buffer.
pub open spec fn frame_of(idx: int, channels: int) -> int {
    idx / channels
}

/// The number of whole frames that `len` interleaved samples make.
pub open spec fn whole_frames(len: int, channels: int) -> int {
    len / channels
}

/// The sample at position `idx` after the fade-in alone: frames before
/// `fade` are scaled by their index over `fade`, the rest are as they were.
pub open spec fn risen_sample(data: Seq<i16>, channels: int, fade: int, idx: int) -> int {
    let frame = frame_of(idx, channels);
    if frame < fade {
        scaled(data[idx] as int, frame, fade)
    } else {
        data[idx] as int
    }
}

/// The sample at position `idx` after both fades: the fade-out scales each of
/// the last `fade` whole frames by its distance from the end over `fade`, on
/// top of what the fade-in left there.
pub open spec fn faded_sample(data: Seq<i16>, channels: int, fade: int, idx: int) -> int {
    let frames = whole_frames(data.len() as int, channels);
    let frame = frame_of(idx, channels);
    let risen = risen_sample(data, channels, fade, idx);
    if frames - fade <= frame < frames {
        scaled(risen, frames - frame, fade)
    } else {
        risen
    }
}

/// The buffer after a fade of `fade` frames at both ends.
pub open spec fn faded(data: Seq<i16>, channels: int, fade: int) -> Seq<i16> {
    Seq::new(data.len(), |idx: int| faded_sample(data, channels, fade, idx) as i16)
}

/// Position `frame * channels + channel` lies in frame `frame`, and inside
/// the buffer when the frame is one of its whole frames.
proof fn lemma_position(frame: int, channel: int, channels: int, len: int)
    requires
        0 <= frame,
        0 <= channel < channels,
        0 <= len,
    ensures
        0 <= frame * channels,
        frame_of(frame * channels + channel, channels) == frame,
        frame < whole_frames(len, channels) ==> frame * channels + channel < len,
{
    assert(0 <= frame * channels) by (nonlinear_arith)
        requires
            0 <= frame,
            0 < channels,
    ;
    vstd::arithmetic::div_mod::lemma_fundamental_div_mod_converse(
        frame * channels + channel,
        channels,
        frame,
        channel,
    );
    if frame < len / channels {
        vstd::arithmetic::div_mod::lemma_fundamental_div_mod(len, channels);
        assert(frame * channels + channels <= channels * (len / channels)) by (nonlinear_arith)
            requires
                frame + 1 <= len / channels,
                0 < channels,
        ;
    }
}

/// Both stages of the fade stay within the range of a sample.
proof fn lemma_faded_in_range(data: Seq<i16>, channels: int, fade: int, idx: int)
    requires
        0 < channels,
        0 <= fade <= whole_frames(data.len() as int, channels),
        0 <= idx < data.len(),
    ensures
        i16::MIN <= risen_sample(data, channels, fade, idx) <= i16::MAX,
        i16::MIN <= faded_sample(data, channels, fade, idx) <= i16::MAX,
{
    let frames = whole_frames(data.len() as int, channels);
    let frame = frame_of(idx, channels);
    vstd::arithmetic::div_mod::lemma_div_pos_is_pos(idx, channels);
    if frame < fade {
        lemma_scaled_nearest(data[idx] as int, frame, fade);
    }
    let risen = risen_sample(data, channels, fade, idx);
    if frames - fade <= frame < frames {
        lemma_scaled_nearest(risen, frames - frame, fade);
    }
}

/// A factor of zero silences a sample and a factor of one leaves it alone.
pub proof fn lemma_scaled_ends(sample: int, den: int)
    requires
        0 < den,
    ensures
        scaled(sample, 0, den) == 0,
        scaled(sample, den, den) == sample,
{
    let mag = if sample >= 0 {
        sample
    } else {
        -sample
    };
    assert(mag * 0 == 0);
    assert((2 * 0 + den) / (2 * den) == 0) by (nonlinear_arith)
        requires
            0 < den,
    ;
    assert((2 * (mag * den) + den) / (2 * den) == mag) by (nonlinear_arith)
        requires
            0 < den,
            0 <= mag,
    ;
}

/// The two ends of the fade-in, in a buffer that holds more than two fades:
/// every sample of the first frame becomes zero, and every sample of frame
/// `fade - 1` is scaled by `(fade - 1) / fade`, rounded to the nearest
/// integer. The fade-out does not reach either frame.
pub proof fn lemma_fade_in_boundary(data: Seq<i16>, channels: int, fade: int, channel: int)
    requires
        0 < channels,
        0 < fade,
        2 * fade < whole_frames(data.len() as int, channels),
        0 <= channel < channels,
    ensures
        (fade - 1) * channels + channel < data.len(),
        faded(data, channels, fade)[channel] == 0,
        faded(data, channels, fade)[(fade - 1) * channels + channel] == scaled(
            data[(fade - 1) * channels + channel] as int,
            fade - 1,
            fade,
        ),
{
    let len = data.len() as int;
    lemma_position(0, channel, channels, len);
    lemma_position(fade - 1, channel, channels, len);
    assert(0 * channels + channel == channel);
    lemma_scaled_ends(data[channel] as int, fade);
    lemma_faded_in_range(data, channels, fade, (fade - 1) * channels + channel);
}

/// Between the two fades nothing changes: a sample whose frame lies at or
/// after the end of the fade-in and before the start of the fade-out keeps
/// its value, and so does what follows the last whole frame.
pub proof fn lemma_fade_spares_middle(data: Seq<i16>, channels: int, fade: int, idx: int)
    requires
        0 < channels,
        0 <= fade,
        0 <= idx < data.len(),
        fade <= frame_of(idx, channels),
        frame_of(idx, channels) < whole_frames(data.len() as int, channels) - fade
            || whole_frames(data.len() as int, channels) <= frame_of(idx, channels),
    ensures
        faded(data, channels, fade)[idx] == data[idx],
{
}

/// Computes the number of frames that a fade of `fade_millis` milliseconds
/// spans at `sample_rate` frames per second.
pub fn fade_frame_count(fade_millis: u32, sample_rate: i32) -> (frames: u64)
    ensures
        frames == fade_frames(fade_millis as int, sample_rate as int),
{
    if sample_rate <= 0 || fade_millis == 0 {
        0
    } else {
        let millis = fade_millis as u64;
        let rate = sample_rate as u64;
        assert(millis * rate <= 0xffff_ffff * 0x7fff_ffff) by (nonlinear_arith)
            requires
                millis <= 0xffff_ffff,
                rate <= 0x7fff_ffff,
        ;
        (millis * rate + 999) / 1000
    }
}

/// Fades `data` in over its first frames and out over its last ones.
///
/// The fade spans `fade_frames(fade_millis, sample_rate)` frames of `channels`
/// samples each, and the buffer must hold at least that many whole frames.
/// Samples after the last whole frame are left alone.
pub fn apply_fade_in_fade_out(
    data: &mut Vec<i16>,
    channels: usize,
    fade_millis: u32,
    sample_rate: i32,
)
    requires
        channels > 0,
        fade_frames(fade_millis as int, sample_rate as int) <= whole_frames(
            old(data)@.len() as int,
            channels as int,
        ),
    ensures
        final(data)@ == faded(
            old(data)@,
            channels as int,
            fade_frames(fade_millis as int, sample_rate as int),
        ),
        final(data)@.len() == old(data)@.len(),
        forall|idx: int|
            0 <= idx < old(data)@.len() ==> #[trigger] final(data)@[idx] == faded_sample(
                old(data)@,
                channels as int,
                fade_frames(fade_millis as int, sample_rate as int),
                idx,
            ),
{
    let ghost orig = data@;
    let ghost ch = channels as int;
    let total: usize = data.len() / channels;
    let fade: usize = fade_frame_count(fade_millis, sample_rate) as usize;
    let ghost fd = fade as int;

    let mut i: usize = 0;
    while i < fade
        invariant
            0 < channels,
            ch == channels as int,
            fd == fade as int,
            i <= fade <= total,
            total == whole_frames(orig.len() as int, ch),
            data@.len() == orig.len() <= usize::MAX,
            forall|idx: int|
                0 <= idx < orig.len() ==> #[trigger] data@[idx] == (if frame_of(idx, ch) < i {
                    risen_sample(orig, ch, fd, idx) as i16
                } else {
                    orig[idx]
                }),
        decreases fade - i,
    {
        proof {
            assert forall|idx: int| #[trigger] frame_of(idx, ch) == i implies i * ch <= idx by {
                lemma_frame_span(idx, ch);
            }
        }
        let mut channel: usize = 0;
        while channel < channels
            invariant
                0 < channels,
                ch == channels as int,
                fd == fade as int,
                i < fade <= total,
                channel <= channels,
                total == whole_frames(orig.len() as int, ch),
                data@.len() == orig.len() <= usize::MAX,
                forall|idx: int|
                    0 <= idx < orig.len() ==> #[trigger] data@[idx] == (if frame_of(idx, ch) < i
                        || (frame_of(idx, ch) == i && idx < i * ch + channel) {
                        risen_sample(orig, ch, fd, idx) as i16
                    } else {
                        orig[idx]
                    }),
            decreases channels - channel,
        {
            proof {
                lemma_position(i as int, channel as int, ch, orig.len() as int);
            }
            let idx = i * channels + channel;
            let value = scale_sample(data[idx], i, fade);
            data.set(idx, value);
            channel += 1;
        }
        proof {
            assert forall|idx: int| #[trigger] frame_of(idx, ch) == i implies idx < i * ch + ch by {
                lemma_frame_span(idx, ch);
            }
        }
        i += 1;
    }

    let mut i: usize = total;
    while i > total - fade
        invariant
            0 < channels,
            ch == channels as int,
            fd == fade as int,
            fade <= total,
            total - fade <= i <= total,
            total == whole_frames(orig.len() as int, ch),
            data@.len() == orig.len() <= usize::MAX,
            forall|idx: int|
                0 <= idx < orig.len() ==> #[trigger] data@[idx] == (if i <= frame_of(idx, ch)
                    < total {
                    faded_sample(orig, ch, fd, idx) as i16
                } else {
                    risen_sample(orig, ch, fd, idx) as i16
                }),
        decreases i,
    {
        i -= 1;
        proof {
            assert forall|idx: int| #[trigger] frame_of(idx, ch) == i implies i * ch <= idx by {
                lemma_frame_span(idx, ch);
            }
        }
        let mut channel: usize = 0;
        while channel < channels
            invariant
                0 < channels,
                ch == channels as int,
                fd == fade as int,
                fade <= total,
                total - fade <= i < total,
                channel <= channels,
                total == whole_frames(orig.len() as int, ch),
                data@.len() == orig.len() <= usize::MAX,
                forall|idx: int|
                    0 <= idx < orig.len() ==> #[trigger] data@[idx] == (if i < frame_of(idx, ch)
                        < total || (frame_of(idx, ch) == i && idx < i * ch + channel) {
                        faded_sample(orig, ch, fd, idx) as i16
                    } else {
                        risen_sample(orig, ch, fd, idx) as i16
                    }),
            decreases channels - channel,
        {
            proof {
                lemma_position(i as int, channel as int, ch, orig.len() as int);
                lemma_faded_in_range(orig, ch, fd, i * ch + channel);
            }
            let idx = i * channels + channel;
            let value = scale_sample(data[idx], total - i, fade);
            data.set(idx, value);
            channel += 1;
        }
        proof {
            assert forall|idx: int| #[trigger] frame_of(idx, ch) == i implies idx < i * ch + ch by {
                lemma_frame_span(idx, ch);
            }
        }
    }
    proof {
        assert forall|idx: int| 0 <= idx < orig.len() implies #[trigger] data@[idx]
            == faded_sample(orig, ch, fd, idx) by {
            lemma_faded_in_range(orig, ch, fd, idx);
        }
        assert(data@ =~= faded(orig, ch, fd));
    }
}

/// A position lies below the end of its own frame.
proof fn lemma_frame_span(idx: int, channels: int)
    requires
        0 < channels,
    ensures
        frame_of(idx, channels) * channels <= idx < frame_of(idx, channels) * channels + channels,
{
    vstd::arithmetic::div_mod::lemma_fundamental_div_mod(idx, channels);
    assert((idx / channels) * channels == channels * (idx / channels)) by (nonlinear_arith);
    assert(0 <= idx % channels < channels);
}

} // verus!

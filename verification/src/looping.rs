//! Cyclic extension of a buffer to a fixed number of samples.

use vstd::prelude::*;
use crate::arith::floor_quotient;

verus! {

/// Number of samples that `loop_millis` milliseconds of audio hold at
/// `sample_rate` frames per second and `channels` samples per frame, rounded
/// up. Nothing is emitted for a rate, a duration or a channel count that is
/// not positive.
pub open spec fn target_samples(loop_millis: int, sample_rate: int, channels: int) -> int {
    if loop_millis <= 0 || sample_rate <= 0 || channels <= 0 {
        0
    } else {
        floor_quotient(loop_millis * sample_rate * channels + 999, 1000)
    }
}

/// The first `target` samples of `buffer` repeated without end.
pub open spec fn looped(buffer: Seq<i16>, target: int) -> Seq<i16> {
    Seq::new(target as nat, |i: int| buffer[i % (buffer.len() as int)])
}

/// Stepping one sample forward moves the position within the cycle by one,
/// or back to its start.
proof fn lemma_cycle_step(written: int, len: int, pos: int)
    requires
        0 <= written,
        0 < len,
        pos == written % len,
    ensures
        (written + 1) % len == (if pos + 1 == len {
            0
        } else {
            pos + 1
        }),
{
    let q = written / len;
    vstd::arithmetic::div_mod::lemma_fundamental_div_mod(written, len);
    assert(len * q == q * len) by (nonlinear_arith);
    if pos + 1 == len {
        assert(written + 1 == (q + 1) * len + 0) by (nonlinear_arith)
            requires
                written == q * len + pos,
                pos + 1 == len,
        ;
        vstd::arithmetic::div_mod::lemma_fundamental_div_mod_converse(written + 1, len, q + 1, 0);
    } else {
        vstd::arithmetic::div_mod::lemma_fundamental_div_mod_converse(
            written + 1,
            len,
            q,
            pos + 1,
        );
    }
}

/// `target_samples` is a ceiling: the least number of samples that covers
/// the duration.
pub proof fn lemma_target_is_ceiling(loop_millis: int, sample_rate: int, channels: int)
    requires
        0 < loop_millis,
        0 < sample_rate,
        0 < channels,
    ensures
        1000 * (target_samples(loop_millis, sample_rate, channels) - 1) < loop_millis * sample_rate
            * channels <= 1000 * target_samples(loop_millis, sample_rate, channels),
{
    let exact = loop_millis * sample_rate * channels;
    vstd::arithmetic::div_mod::lemma_fundamental_div_mod(exact + 999, 1000);
}

/// A duration of whole seconds gives exactly that many seconds of samples:
/// ten seconds give `10 * sample_rate * channels`, whatever the length of the
/// buffer that is repeated.
pub proof fn lemma_target_of_whole_seconds(seconds: int, sample_rate: int, channels: int)
    requires
        0 < seconds,
        0 < sample_rate,
        0 < channels,
    ensures
        target_samples(1000 * seconds, sample_rate, channels) == seconds * sample_rate * channels,
{
    let count = seconds * sample_rate * channels;
    assert((1000 * seconds) * sample_rate * channels == 1000 * count) by (nonlinear_arith)
        requires
            count == seconds * sample_rate * channels,
    ;
    assert(0 < 1000 * seconds);
    vstd::arithmetic::div_mod::lemma_fundamental_div_mod_converse(
        1000 * count + 999,
        1000,
        count,
        999,
    );
}

/// Computes the number of samples to emit, or `None` when that number does
/// not fit a `usize`.
pub fn target_sample_count(loop_millis: u32, sample_rate: i32, channels: usize) -> (count: Option<
    usize,
>)
    ensures
        match count {
            Some(n) => n == target_samples(
                loop_millis as int,
                sample_rate as int,
                channels as int,
            ),
            None => target_samples(loop_millis as int, sample_rate as int, channels as int)
                > usize::MAX,
        },
{
    if loop_millis == 0 || sample_rate <= 0 || channels == 0 {
        return Some(0);
    }
    let millis = loop_millis as u128;
    let rate = sample_rate as u128;
    let width = channels as u128;
    assert(millis * rate <= 0xffff_ffff * 0x7fff_ffff) by (nonlinear_arith)
        requires
            millis <= 0xffff_ffff,
            rate <= 0x7fff_ffff,
    ;
    assert(millis * rate * width <= 0xffff_ffff * 0x7fff_ffff * 0xffff_ffff_ffff_ffff)
        by (nonlinear_arith)
        requires
            millis * rate <= 0xffff_ffff * 0x7fff_ffff,
            width <= 0xffff_ffff_ffff_ffff,
    ;
    let total: u128 = (millis * rate * width + 999) / 1000;
    if total > usize::MAX as u128 {
        None
    } else {
        Some(total as usize)
    }
}

/// Repeats `buffer` cyclically, sample by sample, until exactly `target`
/// samples stand in the output; the last cycle is cut short where it must be.
pub fn loop_extend(buffer: &Vec<i16>, target: usize) -> (out: Vec<i16>)
    requires
        buffer@.len() > 0 || target == 0,
    ensures
        out@ == looped(buffer@, target as int),
        out@.len() == target,
{
    let len = buffer.len();
    let mut out: Vec<i16> = Vec::new();
    let mut pos: usize = 0;
    proof {
        if len > 0 {
            vstd::arithmetic::div_mod::lemma_fundamental_div_mod_converse(0, len as int, 0, 0);
        }
    }
    while out.len() < target
        invariant
            out@.len() <= target,
            len == buffer@.len(),
            buffer@.len() > 0 || target == 0,
            out@.len() < target ==> pos == (out@.len() as int) % (buffer@.len() as int),
            pos < buffer@.len() || target == 0,
            out@ == looped(buffer@, out@.len() as int),
        decreases target - out@.len(),
    {
        proof {
            lemma_cycle_step(out@.len() as int, buffer@.len() as int, pos as int);
        }
        out.push(buffer[pos]);
        pos += 1;
        if pos == len {
            pos = 0;
        }
        proof {
            assert(out@ =~= looped(buffer@, out@.len() as int));
        }
    }
    out
}

} // verus!

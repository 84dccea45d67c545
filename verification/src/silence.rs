//! Detection and removal of long silent runs.
//!
//! A sample is *silent* when its amplitude lies within the threshold of zero,
//! and *loud* otherwise. A silent run is closed by the first loud sample that
//! follows it. A closed run shorter than the cutoff is kept whole; a closed
//! run of cutoff length or more is dropped and only the loud sample that
//! closes it stays. A run that reaches the end of the input is never closed
//! and is dropped whatever its length.

use vstd::prelude::*;

verus! {

/// Whether a sample counts as silence at the given amplitude threshold.
pub open spec fn is_silent(sample: int, threshold: int) -> bool {
    -threshold <= sample <= threshold
}

/// Length of the silent run that ends just before position `end`.
pub open spec fn silent_run_before(samples: Seq<i32>, threshold: int, end: int) -> nat
    decreases end,
{
    if end <= 0 || end > samples.len() || !is_silent(samples[end - 1] as int, threshold) {
        0
    } else {
        1 + silent_run_before(samples, threshold, end - 1)
    }
}

/// Position of the first loud sample at or after `from`, or `samples.len()`
/// when every sample from there on is silent.
pub open spec fn next_loud(samples: Seq<i32>, threshold: int, from: int) -> int
    decreases samples.len() - from,
{
    if from < 0 || from >= samples.len() || !is_silent(samples[from] as int, threshold) {
        from
    } else {
        next_loud(samples, threshold, from + 1)
    }
}

/// Whether the sample at position `i` survives trimming: a loud sample closes
/// the run that holds it, and the sample is either that loud sample itself or
/// part of a run shorter than `cutoff`.
pub open spec fn is_retained(samples: Seq<i32>, threshold: int, cutoff: int, i: int) -> bool {
    let close = next_loud(samples, threshold, i);
    &&& 0 <= i
    &&& close < samples.len()
    &&& (close == i || silent_run_before(samples, threshold, close) < cutoff)
}

/// The retained samples among the first `n` positions, in their order.
pub open spec fn retained_prefix(samples: Seq<i32>, threshold: int, cutoff: int, n: int) -> Seq<i32>
    decreases n,
{
    if n <= 0 {
        Seq::empty()
    } else if is_retained(samples, threshold, cutoff, n - 1) {
        retained_prefix(samples, threshold, cutoff, n - 1).push(samples[n - 1])
    } else {
        retained_prefix(samples, threshold, cutoff, n - 1)
    }
}

/// The input with its long and its trailing silent runs removed.
pub open spec fn trimmed(samples: Seq<i32>, threshold: int, cutoff: int) -> Seq<i32> {
    retained_prefix(samples, threshold, cutoff, samples.len() as int)
}

/// Whether every sample at positions `from..to` is silent.
pub open spec fn all_silent(samples: Seq<i32>, threshold: int, from: int, to: int) -> bool {
    forall|k: int| from <= k < to ==> is_silent(#[trigger] samples[k] as int, threshold)
}

/// The run counted by `silent_run_before` is silent throughout and cannot be
/// extended to the left.
pub proof fn lemma_run_before(samples: Seq<i32>, threshold: int, end: int)
    requires
        0 <= end <= samples.len(),
    ensures
        silent_run_before(samples, threshold, end) <= end,
        all_silent(samples, threshold, end - silent_run_before(samples, threshold, end), end),
        end - silent_run_before(samples, threshold, end) > 0 ==> !is_silent(
            samples[end - silent_run_before(samples, threshold, end) - 1] as int,
            threshold,
        ),
    decreases end,
{
    if end > 0 && is_silent(samples[end - 1] as int, threshold) {
        lemma_run_before(samples, threshold, end - 1);
    }
}

/// A stretch of silence that starts right after a loud sample, or at the
/// start of the input, is the whole run before its end.
pub proof fn lemma_run_length(samples: Seq<i32>, threshold: int, start: int, end: int)
    requires
        0 <= start <= end <= samples.len(),
        all_silent(samples, threshold, start, end),
        start > 0 ==> !is_silent(samples[start - 1] as int, threshold),
    ensures
        silent_run_before(samples, threshold, end) == end - start,
    decreases end - start,
{
    if start < end {
        lemma_run_length(samples, threshold, start, end - 1);
    }
}

/// From anywhere inside a stretch of silence, the next loud position is the
/// end of the stretch.
pub proof fn lemma_next_loud(samples: Seq<i32>, threshold: int, from: int, close: int)
    requires
        0 <= from <= close <= samples.len(),
        all_silent(samples, threshold, from, close),
        close < samples.len() ==> !is_silent(samples[close] as int, threshold),
    ensures
        next_loud(samples, threshold, from) == close,
    decreases close - from,
{
    if from < close {
        lemma_next_loud(samples, threshold, from + 1, close);
    }
}

/// Across a stretch of silence the retained prefix grows by the whole stretch
/// or not at all, as the run that the stretch belongs to is kept or dropped.
pub proof fn lemma_prefix_over_silence(
    samples: Seq<i32>,
    threshold: int,
    cutoff: int,
    from: int,
    to: int,
    close: int,
)
    requires
        0 <= from <= to <= close <= samples.len(),
        all_silent(samples, threshold, from, close),
        close < samples.len() ==> !is_silent(samples[close] as int, threshold),
    ensures
        retained_prefix(samples, threshold, cutoff, to) == retained_prefix(
            samples,
            threshold,
            cutoff,
            from,
        ) + (if close < samples.len() && silent_run_before(samples, threshold, close) < cutoff {
            samples.subrange(from, to)
        } else {
            Seq::empty()
        }),
    decreases to - from,
{
    let base = retained_prefix(samples, threshold, cutoff, from);
    let keep = close < samples.len() && silent_run_before(samples, threshold, close) < cutoff;
    if from < to {
        lemma_prefix_over_silence(samples, threshold, cutoff, from, to - 1, close);
        lemma_next_loud(samples, threshold, to - 1, close);
        assert(is_retained(samples, threshold, cutoff, to - 1) == keep);
        if keep {
            assert(samples.subrange(from, to - 1).push(samples[to - 1]) =~= samples.subrange(
                from,
                to,
            ));
            assert((base + samples.subrange(from, to - 1)).push(samples[to - 1]) =~= base
                + samples.subrange(from, to));
        } else {
            assert(base + Seq::<i32>::empty() =~= base);
        }
    } else {
        assert(samples.subrange(from, to) =~= Seq::<i32>::empty());
        assert(base + Seq::<i32>::empty() =~= base);
    }
}

/// No loud sample is ever lost.
pub proof fn lemma_loud_is_retained(samples: Seq<i32>, threshold: int, cutoff: int, i: int)
    requires
        0 <= i < samples.len(),
        !is_silent(samples[i] as int, threshold),
    ensures
        is_retained(samples, threshold, cutoff, i),
{
}

/// Appending samples leaves the run before any earlier position as it was.
pub proof fn lemma_run_before_extended(
    samples: Seq<i32>,
    more: Seq<i32>,
    threshold: int,
    end: int,
)
    requires
        0 <= end <= samples.len(),
    ensures
        silent_run_before(samples + more, threshold, end) == silent_run_before(
            samples,
            threshold,
            end,
        ),
    decreases end,
{
    if end > 0 {
        assert((samples + more)[end - 1] == samples[end - 1]);
        lemma_run_before_extended(samples, more, threshold, end - 1);
    }
}

/// Appending samples leaves a loud position that was found where it was; a
/// search that ran off the end goes on in what was appended.
pub proof fn lemma_next_loud_extended(
    samples: Seq<i32>,
    more: Seq<i32>,
    threshold: int,
    from: int,
)
    requires
        0 <= from <= samples.len(),
    ensures
        from <= next_loud(samples, threshold, from) <= samples.len(),
        next_loud(samples, threshold, from) < samples.len() ==> next_loud(
            samples + more,
            threshold,
            from,
        ) == next_loud(samples, threshold, from),
        next_loud(samples, threshold, from) == samples.len() ==> next_loud(
            samples + more,
            threshold,
            from,
        ) == next_loud(samples + more, threshold, samples.len() as int),
    decreases samples.len() - from,
{
    if from < samples.len() {
        assert((samples + more)[from] == samples[from]);
        if is_silent(samples[from] as int, threshold) {
            lemma_next_loud_extended(samples, more, threshold, from + 1);
        }
    }
}

/// Appending samples after a loud sample changes nothing about what is
/// retained before them.
pub proof fn lemma_prefix_extended(
    samples: Seq<i32>,
    more: Seq<i32>,
    threshold: int,
    cutoff: int,
    n: int,
)
    requires
        0 <= n <= samples.len(),
        n > 0 ==> !is_silent(samples[n - 1] as int, threshold),
    ensures
        retained_prefix(samples + more, threshold, cutoff, n) == retained_prefix(
            samples,
            threshold,
            cutoff,
            n,
        ),
    decreases n,
{
    if n > 0 {
        lemma_retained_below_loud(samples, more, threshold, cutoff, n - 1, n - 1);
    }
}

/// The inductive form of `lemma_prefix_extended`: position `last` is loud
/// and `n` lies at or below it.
proof fn lemma_retained_below_loud(
    samples: Seq<i32>,
    more: Seq<i32>,
    threshold: int,
    cutoff: int,
    n: int,
    last: int,
)
    requires
        0 <= n <= last < samples.len(),
        !is_silent(samples[last] as int, threshold),
    ensures
        retained_prefix(samples + more, threshold, cutoff, n + 1) == retained_prefix(
            samples,
            threshold,
            cutoff,
            n + 1,
        ),
        next_loud(samples, threshold, n) <= last,
    decreases n,
{
    let longer = samples + more;
    lemma_loud_found(samples, threshold, n, last);
    lemma_next_loud_extended(samples, more, threshold, n);
    let close = next_loud(samples, threshold, n);
    lemma_run_before_extended(samples, more, threshold, close);
    assert(longer[n] == samples[n]);
    assert(is_retained(longer, threshold, cutoff, n) == is_retained(samples, threshold, cutoff, n));
    if n > 0 {
        lemma_retained_below_loud(samples, more, threshold, cutoff, n - 1, last);
    }
    assert(retained_prefix(longer, threshold, cutoff, n) == retained_prefix(
        samples,
        threshold,
        cutoff,
        n,
    ));
}

/// A loud sample at `last` stops every search that starts at or before it.
proof fn lemma_loud_found(samples: Seq<i32>, threshold: int, from: int, last: int)
    requires
        0 <= from <= last < samples.len(),
        !is_silent(samples[last] as int, threshold),
    ensures
        from <= next_loud(samples, threshold, from) <= last,
    decreases last - from,
{
    if from < last && is_silent(samples[from] as int, threshold) {
        lemma_loud_found(samples, threshold, from + 1, last);
    }
}

/// Silence at the end of the input never reaches the output: with or without
/// an all-silent tail, whatever its length, trimming gives the same samples.
pub proof fn lemma_trailing_silence_dropped(
    samples: Seq<i32>,
    tail: Seq<i32>,
    threshold: int,
    cutoff: int,
)
    requires
        all_silent(tail, threshold, 0, tail.len() as int),
    ensures
        trimmed(samples + tail, threshold, cutoff) == trimmed(samples, threshold, cutoff),
{
    let longer = samples + tail;
    let n = samples.len() as int;
    assert(all_silent(longer, threshold, n, longer.len() as int)) by {
        assert forall|k: int| n <= k < longer.len() implies is_silent(
            #[trigger] longer[k] as int,
            threshold,
        ) by {
            assert(longer[k] == tail[k - n]);
        }
    }
    lemma_next_loud(longer, threshold, n, longer.len() as int);
    lemma_prefix_over_silence(longer, threshold, cutoff, n, longer.len() as int, longer.len() as int);
    lemma_same_prefix_with_tail(samples, tail, threshold, cutoff, n);
    assert(retained_prefix(longer, threshold, cutoff, n) + Seq::<i32>::empty()
        =~= retained_prefix(longer, threshold, cutoff, n));
}

/// With an all-silent tail appended, each earlier position is retained
/// exactly when it was before.
proof fn lemma_same_prefix_with_tail(
    samples: Seq<i32>,
    tail: Seq<i32>,
    threshold: int,
    cutoff: int,
    n: int,
)
    requires
        0 <= n <= samples.len(),
        next_loud(samples + tail, threshold, samples.len() as int) == (samples + tail).len(),
    ensures
        retained_prefix(samples + tail, threshold, cutoff, n) == retained_prefix(
            samples,
            threshold,
            cutoff,
            n,
        ),
    decreases n,
{
    if n > 0 {
        let longer = samples + tail;
        lemma_same_prefix_with_tail(samples, tail, threshold, cutoff, n - 1);
        lemma_next_loud_extended(samples, tail, threshold, n - 1);
        lemma_run_before_extended(samples, tail, threshold, next_loud(samples, threshold, n - 1));
        assert(longer[n - 1] == samples[n - 1]);
        assert(is_retained(longer, threshold, cutoff, n - 1) == is_retained(
            samples,
            threshold,
            cutoff,
            n - 1,
        ));
    }
}

/// What one closed run contributes: after input that is empty or ends in a
/// loud sample, a silent run followed by a loud sample adds the whole run and
/// the loud sample when the run is shorter than the cutoff, and the loud
/// sample alone when it is not.
pub proof fn lemma_closed_run(
    samples: Seq<i32>,
    run: Seq<i32>,
    loud: i32,
    threshold: int,
    cutoff: int,
)
    requires
        samples.len() > 0 ==> !is_silent(samples.last() as int, threshold),
        all_silent(run, threshold, 0, run.len() as int),
        !is_silent(loud as int, threshold),
    ensures
        trimmed(samples + run + seq![loud], threshold, cutoff) == trimmed(
            samples,
            threshold,
            cutoff,
        ) + (if run.len() < cutoff {
            run
        } else {
            Seq::empty()
        }).push(loud),
{
    let whole = samples + run + seq![loud];
    let start = samples.len() as int;
    let close = start + run.len();
    assert(whole =~= samples + (run + seq![loud]));
    lemma_prefix_extended(samples, run + seq![loud], threshold, cutoff, start);
    assert(whole[close] == loud);
    assert(all_silent(whole, threshold, start, close)) by {
        assert forall|k: int| start <= k < close implies is_silent(
            #[trigger] whole[k] as int,
            threshold,
        ) by {
            assert(whole[k] == run[k - start]);
        }
    }
    if start > 0 {
        assert(whole[start - 1] == samples.last());
    }
    lemma_run_length(whole, threshold, start, close);
    lemma_prefix_over_silence(whole, threshold, cutoff, start, close, close);
    lemma_next_loud(whole, threshold, close, close);
    assert(is_retained(whole, threshold, cutoff, close));
    assert(whole.subrange(start, close) =~= run);
    let kept_run = if run.len() < cutoff {
        run
    } else {
        Seq::<i32>::empty()
    };
    assert((trimmed(samples, threshold, cutoff) + kept_run).push(loud) =~= trimmed(
        samples,
        threshold,
        cutoff,
    ) + kept_run.push(loud));
}

/// Decides whether `sample` lies within `threshold` of zero.
pub fn sample_is_silent(sample: i32, threshold: i32) -> (silent: bool)
    ensures
        silent == is_silent(sample as int, threshold as int),
{
    if threshold < 0 {
        false
    } else {
        -threshold <= sample && sample <= threshold
    }
}

/// Removes the long and the trailing silent runs from `samples`.
///
/// Runs of fewer than `long_run` silent samples that a loud sample closes are
/// kept whole; longer closed runs vanish, and so does whatever silence is left
/// at the end of the input.
pub fn cut_silences(samples: &Vec<i32>, threshold: i32, long_run: usize) -> (kept: Vec<i32>)
    ensures
        kept@ == trimmed(samples@, threshold as int, long_run as int),
        kept@.len() <= samples@.len(),
{
    let ghost th = threshold as int;
    let ghost cutoff = long_run as int;
    let mut kept: Vec<i32> = Vec::new();
    let mut ind: usize = 0;
    let mut count: usize = 0;
    while ind < samples.len()
        invariant
            count <= ind <= samples.len(),
            th == threshold as int,
            cutoff == long_run as int,
            count == silent_run_before(samples@, th, ind as int),
            kept@ == retained_prefix(samples@, th, cutoff, ind - count),
            kept@.len() <= ind - count,
        decreases samples.len() - ind,
    {
        let val = samples[ind];
        if sample_is_silent(val, threshold) {
            count += 1;
        } else {
            proof {
                lemma_run_before(samples@, th, ind as int);
                lemma_prefix_over_silence(
                    samples@,
                    th,
                    cutoff,
                    ind - count,
                    ind as int,
                    ind as int,
                );
                lemma_next_loud(samples@, th, ind as int, ind as int);
                assert(is_retained(samples@, th, cutoff, ind as int));
            }
            if count < long_run {
                let ghost base = kept@;
                let mut i: usize = ind - count;
                while i <= ind
                    invariant
                        count <= ind < samples.len(),
                        ind - count <= i <= ind + 1,
                        kept@ == base + samples@.subrange(ind - count, i as int),
                    decreases ind + 1 - i,
                {
                    kept.push(samples[i]);
                    proof {
                        assert(samples@.subrange(ind - count, i as int).push(samples@[i as int])
                            =~= samples@.subrange(ind - count, i + 1));
                    }
                    i += 1;
                }
            } else {
                kept.push(val);
            }
            count = 0;
        }
        ind += 1;
    }
    proof {
        lemma_run_before(samples@, th, ind as int);
        lemma_prefix_over_silence(samples@, th, cutoff, ind - count, ind as int, ind as int);
    }
    kept
}

} // verus!

//! Cutting a signal into overlapping analysis frames, and the length of
//! the signal that overlap-add rebuilds from such frames.

use vstd::prelude::*;
use vstd::arithmetic::div_mod::{lemma_fundamental_div_mod, lemma_fundamental_div_mod_converse};

verus! {

/// Number of samples in one analysis frame.
pub const WIN_SIZE: usize = 1024;

/// Distance, in samples, between the starts of two consecutive frames.
pub const HOP: usize = 512;

/// How many whole frames of `win` samples, started every `hop` samples
/// from the first one, fit into a signal of `len` samples.
pub open spec fn frame_count(len: int, win: int, hop: int) -> int {
    if win <= len {
        (len - win) / hop + 1
    } else {
        0
    }
}

/// Where frame `k` starts in the signal.
pub open spec fn frame_start(k: int, hop: int) -> int {
    k * hop
}

/// Frame `k` of `samples`: the `win` samples that start at `k * hop`.
pub open spec fn frame_of<T>(samples: Seq<T>, k: int, win: int, hop: int) -> Seq<T> {
    samples.subrange(frame_start(k, hop), frame_start(k, hop) + win)
}

/// Length of the signal that overlap-add rebuilds from `n` frames of
/// `win` samples placed every `hop` samples.
pub open spec fn reconstructed_len(n: int, win: int, hop: int) -> int {
    (n - 1) * hop + win
}

/// A copy of `v[start..end]`.
pub fn copy_range<T: Copy>(v: &Vec<T>, start: usize, end: usize) -> (out: Vec<T>)
    requires
        start <= end <= v.len(),
    ensures
        out@ == v@.subrange(start as int, end as int),
{
    let mut out: Vec<T> = Vec::new();
    let mut i: usize = start;
    while i < end
        invariant
            start <= i <= end <= v.len(),
            out@ == v@.subrange(start as int, i as int),
        decreases end - i,
    {
        out.push(v[i]);
        i = i + 1;
    }
    out
}

proof fn lemma_count_from_bounds(lim: int, hop: int, n: int)
    requires
        hop > 0,
        n >= 1,
        0 <= (n - 1) * hop <= lim,
        lim < n * hop,
    ensures
        lim / hop + 1 == n,
{
    assert(n * hop == (n - 1) * hop + hop) by (nonlinear_arith);
    lemma_fundamental_div_mod_converse(lim, hop, n - 1, lim - (n - 1) * hop);
}

/// Cuts `samples` into frames of `win` samples, one starting every `hop`
/// samples from the first sample on, for as long as a whole frame fits.
/// A tail shorter than a frame is left out.
pub fn split_frames<T: Copy>(samples: &Vec<T>, win: usize, hop: usize) -> (frames: Vec<Vec<T>>)
    requires
        win > 0,
        hop > 0,
    ensures
        frames.len() == frame_count(samples.len() as int, win as int, hop as int),
        forall|k: int|
            0 <= k < frames.len() ==> #[trigger] frames[k]@ == frame_of(
                samples@,
                k,
                win as int,
                hop as int,
            ),
        frames.len() == (if win <= samples.len() {
            (samples.len() - win) / (hop as int) + 1
        } else {
            0
        }),
        forall|k: int| 0 <= k < frames.len() ==> #[trigger] frames[k].len() == win,
        forall|k: int, j: int|
            0 <= k < frames.len() && 0 <= j < win ==> #[trigger] frames[k]@[j] == samples@[k * hop
                + j],
{
    let mut frames: Vec<Vec<T>> = Vec::new();
    let len = samples.len();
    if win > len {
        return frames;
    }
    let lim: usize = len - win;
    let mut start: usize = 0;
    assert(0 * hop == 0) by (nonlinear_arith);
    loop
        invariant_except_break
            start <= lim,
            start == frames.len() * hop,
        invariant
            lim == len - win,
            len == samples.len(),
            win > 0,
            hop > 0,
            frames.len() == 0 || (frames.len() - 1) * hop <= lim,
            forall|k: int|
                0 <= k < frames.len() ==> #[trigger] frames[k]@ == frame_of(
                    samples@,
                    k,
                    win as int,
                    hop as int,
                ),
        ensures
            frames.len() >= 1,
            (frames.len() - 1) * hop <= lim,
            lim < frames.len() * hop,
        decreases lim - start,
    {
        let frame = copy_range(samples, start, start + win);
        let ghost n = frames.len();
        frames.push(frame);
        proof {
            assert(start == n * hop);
            assert(frames[n as int]@ == frame_of(samples@, n as int, win as int, hop as int));
        }
        if hop > lim - start {
            proof {
                assert(frames.len() * hop == start + hop) by (nonlinear_arith)
                    requires
                        start == n * hop,
                        frames.len() == n + 1,
                ;
            }
            break;
        }
        proof {
            assert(frames.len() * hop == start + hop) by (nonlinear_arith)
                requires
                    start == n * hop,
                    frames.len() == n + 1,
            ;
        }
        start = start + hop;
    }
    proof {
        lemma_count_from_bounds(lim as int, hop as int, frames.len() as int);
        assert forall|k: int, j: int| 0 <= k < frames.len() && 0 <= j < win implies #[trigger] frames[k]@[j]
            == samples@[k * hop + j] by {
            lemma_frames_full(samples@, k, win as int, hop as int);
            lemma_frame_elements(samples@, k, win as int, hop as int, j);
        }
        assert forall|k: int| 0 <= k < frames.len() implies #[trigger] frames[k].len() == win by {
            lemma_frames_full(samples@, k, win as int, hop as int);
        }
    }
    frames
}

/// Law: a frame is the contiguous run of the signal at its start: its
/// sample `j` is the signal's sample `k * hop + j`.
pub proof fn lemma_frame_elements<T>(samples: Seq<T>, k: int, win: int, hop: int, j: int)
    requires
        0 < win,
        0 < hop,
        0 <= k < frame_count(samples.len() as int, win, hop),
        0 <= j < win,
    ensures
        frame_of(samples, k, win, hop).len() == win,
        frame_of(samples, k, win, hop)[j] == samples[k * hop + j],
{
    lemma_frames_full(samples, k, win, hop);
}

/// Law: the frames are exactly those that fit: frame `k` is cut precisely
/// when `k * hop + win` does not pass the end of the signal.
pub proof fn lemma_frame_count_exact(len: int, win: int, hop: int, k: int)
    requires
        0 < win,
        0 < hop,
        0 <= len,
        0 <= k,
    ensures
        k < frame_count(len, win, hop) <==> k * hop + win <= len,
{
    if win <= len {
        let q = (len - win) / hop;
        lemma_fundamental_div_mod(len - win, hop);
        assert(hop * q == q * hop) by (nonlinear_arith);
        if k <= q {
            assert(k * hop <= q * hop) by (nonlinear_arith)
                requires
                    k <= q,
                    hop > 0,
            ;
        } else {
            assert(k * hop >= (q + 1) * hop) by (nonlinear_arith)
                requires
                    k >= q + 1,
                    hop > 0,
            ;
            assert((q + 1) * hop == q * hop + hop) by (nonlinear_arith);
        }
    } else {
        assert(0 <= k * hop) by (nonlinear_arith)
            requires
                k >= 0,
                hop > 0,
        ;
    }
}

/// Length of the signal that overlap-add rebuilds from `n_frames` frames
/// of `win` samples placed every `hop` samples.
pub fn inverse_len(n_frames: usize, win: usize, hop: usize) -> (len: usize)
    requires
        n_frames >= 1,
        reconstructed_len(n_frames as int, win as int, hop as int) <= usize::MAX,
    ensures
        len == reconstructed_len(n_frames as int, win as int, hop as int),
        len == (n_frames - 1) * hop + win,
{
    proof {
        assert(0 <= (n_frames - 1) * hop) by (nonlinear_arith)
            requires
                n_frames >= 1,
        ;
    }
    (n_frames - 1) * hop + win
}

/// Law: rebuilding a signal from all of its frames gives back exactly the
/// samples that the frames cover: its length is the original length less
/// the tail that no frame reached, and that tail is shorter than a hop.
pub proof fn lemma_reconstruction_len(len: int, win: int, hop: int)
    requires
        0 < win <= len,
        hop > 0,
    ensures
        frame_count(len, win, hop) >= 1,
        reconstructed_len(frame_count(len, win, hop), win, hop) == len - (len - win) % hop,
        0 <= len - reconstructed_len(frame_count(len, win, hop), win, hop) < hop,
{
    let q = (len - win) / hop;
    lemma_fundamental_div_mod(len - win, hop);
    assert(hop * q == q * hop) by (nonlinear_arith);
    assert(0 <= q) by (nonlinear_arith)
        requires
            len - win >= 0,
            hop > 0,
            q == (len - win) / hop,
    ;
}

/// Law: overlap-add never writes outside the rebuilt signal: bin `j` of
/// frame `i` lands at `i * hop + j`, inside it.
pub proof fn lemma_frames_fit_output(n: int, win: int, hop: int, i: int, j: int)
    requires
        0 < hop,
        0 <= i < n,
        0 <= j < win,
    ensures
        0 <= frame_start(i, hop) + j < reconstructed_len(n, win, hop),
{
    assert(0 <= i * hop <= (n - 1) * hop) by (nonlinear_arith)
        requires
            0 <= i <= n - 1,
            0 < hop,
    ;
}

/// Law: when frames overlap or touch (`hop <= win`), every sample of the
/// rebuilt signal lies in at least one frame.
pub proof fn lemma_frames_cover(len: int, win: int, hop: int, p: int)
    requires
        0 < hop <= win <= len,
        0 <= p < reconstructed_len(frame_count(len, win, hop), win, hop),
    ensures
        exists|k: int|
            0 <= k < frame_count(len, win, hop) && #[trigger] frame_start(k, hop) <= p < frame_start(
                k,
                hop,
            ) + win,
{
    let n = frame_count(len, win, hop);
    lemma_reconstruction_len(len, win, hop);
    let q = p / hop;
    lemma_fundamental_div_mod(p, hop);
    assert(hop * q == q * hop) by (nonlinear_arith);
    assert(0 <= q) by (nonlinear_arith)
        requires
            p >= 0,
            hop > 0,
            q == p / hop,
    ;
    if q <= n - 1 {
        assert(frame_start(q, hop) <= p < frame_start(q, hop) + win);
    } else {
        assert(frame_start(n - 1, hop) <= p) by (nonlinear_arith)
            requires
                q >= n,
                n >= 1,
                hop > 0,
                p >= q * hop,
        ;
        assert(frame_start(n - 1, hop) <= p < frame_start(n - 1, hop) + win);
    }
}

/// Law: consecutive frames share `win - hop` samples: the end of one frame
/// is the beginning of the next.
pub proof fn lemma_adjacent_frames_overlap<T>(samples: Seq<T>, k: int, win: int, hop: int)
    requires
        0 < hop <= win,
        0 <= k,
        k + 1 < frame_count(samples.len() as int, win, hop),
    ensures
        frame_of(samples, k + 1, win, hop).subrange(0, win - hop) == frame_of(
            samples,
            k,
            win,
            hop,
        ).subrange(hop, win),
{
    let len = samples.len() as int;
    let q = (len - win) / hop;
    lemma_fundamental_div_mod(len - win, hop);
    assert(hop * q == q * hop) by (nonlinear_arith);
    assert((k + 1) * hop == k * hop + hop) by (nonlinear_arith);
    assert(0 <= k * hop) by (nonlinear_arith)
        requires
            k >= 0,
            hop > 0,
    ;
    assert((k + 1) * hop <= q * hop) by (nonlinear_arith)
        requires
            k + 1 <= q,
            hop > 0,
    ;
    assert(frame_of(samples, k + 1, win, hop).subrange(0, win - hop) =~= frame_of(
        samples,
        k,
        win,
        hop,
    ).subrange(hop, win));
}

/// Law: every frame lies inside the signal and holds exactly `win`
/// samples, so padding a frame up to `win` samples never changes it.
pub proof fn lemma_frames_full<T>(samples: Seq<T>, k: int, win: int, hop: int)
    requires
        0 < win,
        0 < hop,
        0 <= k < frame_count(samples.len() as int, win, hop),
    ensures
        0 <= frame_start(k, hop),
        frame_start(k, hop) + win <= samples.len(),
        frame_of(samples, k, win, hop).len() == win,
{
    let len = samples.len() as int;
    let q = (len - win) / hop;
    lemma_fundamental_div_mod(len - win, hop);
    assert(hop * q == q * hop) by (nonlinear_arith);
    assert(0 <= k * hop) by (nonlinear_arith)
        requires
            k >= 0,
            hop > 0,
    ;
    assert(k * hop <= q * hop) by (nonlinear_arith)
        requires
            k <= q,
            hop > 0,
    ;
}

} // verus!

//! Bookkeeping of the preprocessing step: which genre a class index
//! names, how long an excerpt is and where it may start, drawing the
//! excerpt, and the bounds of the frame groups that a spectrogram is
//! condensed into.

use vstd::prelude::*;
use vstd::arithmetic::div_mod::{lemma_div_plus_one, lemma_div_is_ordered, lemma_div_multiples_vanish};
use rand::Rng;
use crate::framing::copy_range;

verus! {

/// Number of bins kept in one frame of an excerpt.
pub const BINS_PER_FRAME: usize = 128;

/// Number of seconds in one excerpt.
pub const EXCERPT_SECONDS: u32 = 10;

/// The name of the genre with class index `index`: `rk`, `grm`, `jazz`,
/// `ele` and `dnb` for 0 to 4, the empty name otherwise.
pub open spec fn genre_name_of(index: u32) -> Seq<char> {
    if index == 0 {
        "rk"@
    } else if index == 1 {
        "grm"@
    } else if index == 2 {
        "jazz"@
    } else if index == 3 {
        "ele"@
    } else if index == 4 {
        "dnb"@
    } else {
        ""@
    }
}

/// The name of the genre with class index `index`.
pub fn genre_name(index: u32) -> (name: &'static str)
    ensures
        name@ == genre_name_of(index),
        index == 0 ==> name@ == "rk"@,
        index == 1 ==> name@ == "grm"@,
        index == 2 ==> name@ == "jazz"@,
        index == 3 ==> name@ == "ele"@,
        index == 4 ==> name@ == "dnb"@,
        index > 4 ==> name@ == ""@,
{
    match index {
        0 => "rk",
        1 => "grm",
        2 => "jazz",
        3 => "ele",
        4 => "dnb",
        _ => "",
    }
}

/// Excerpt length (samples) and the span its start is drawn from, for a
/// spectrogram of `n_frames` frames and a stream of `sample_rate` samples
/// per second: the excerpt is ten seconds long, the spectrogram is taken
/// to cover `BINS_PER_FRAME` samples per frame, and the span is what is
/// left, cut down to 32 bits.
pub open spec fn excerpt_bounds_of(n_frames: usize, sample_rate: u32) -> (u32, u32) {
    let sample_len = sample_rate * EXCERPT_SECONDS;
    let n_samples = n_frames * BINS_PER_FRAME;
    (sample_len as u32, (n_samples - sample_len) as u32)
}

/// Excerpt length and the span its start is drawn from (see
/// `excerpt_bounds_of`).
pub fn excerpt_bounds(n_frames: usize, sample_rate: u32) -> (bounds: (u32, u32))
    requires
        sample_rate * EXCERPT_SECONDS <= u32::MAX,
        n_frames * BINS_PER_FRAME <= usize::MAX,
        sample_rate * EXCERPT_SECONDS <= n_frames * BINS_PER_FRAME,
    ensures
        bounds == excerpt_bounds_of(n_frames, sample_rate),
        bounds.0 == sample_rate * 10,
        bounds.1 == (n_frames * 128 - sample_rate * 10) as u32,
{
    let sample_len: u32 = sample_rate * EXCERPT_SECONDS;
    let n_samples: usize = n_frames * BINS_PER_FRAME;
    let range: usize = n_samples - sample_len as usize;
    (sample_len, range as u32)
}

/// The frames of a spectrogram, each as a sequence.
pub open spec fn frames_view<T>(frames: Seq<Vec<T>>) -> Seq<Seq<T>> {
    frames.map_values(|f: Vec<T>| f@)
}

/// The excerpt of `sample_len / BINS_PER_FRAME` frames of
/// `BINS_PER_FRAME` bins whose frames before `start` are all `zero` and
/// whose other frames are those of the spectrogram at the same place.
pub open spec fn excerpt_of<T>(spectrogram: Seq<Seq<T>>, sample_len: u32, start: int, zero: T) -> Seq<
    Seq<T>,
> {
    Seq::new(
        excerpt_len(sample_len) as nat,
        |i: int|
            if i < start {
                Seq::new(BINS_PER_FRAME as nat, |j: int| zero)
            } else {
                spectrogram[i]
            },
    )
}

/// The spectrogram frames that an excerpt starting at `start` copies are
/// there and have `BINS_PER_FRAME` bins each.
pub open spec fn excerpt_fits<T>(spectrogram: Seq<Seq<T>>, sample_len: u32, start: int) -> bool {
    &&& start < excerpt_len(sample_len) ==> excerpt_len(sample_len) <= spectrogram.len()
    &&& forall|i: int|
        start <= i < excerpt_len(sample_len) ==> #[trigger] spectrogram[i].len() == BINS_PER_FRAME
}

/// Number of frames in an excerpt of `sample_len` samples.
pub open spec fn excerpt_len(sample_len: u32) -> int {
    sample_len as int / BINS_PER_FRAME as int
}

proof fn lemma_fits_later<T>(spectrogram: Seq<Seq<T>>, sample_len: u32, a: int, b: int)
    requires
        a <= b,
        excerpt_fits(spectrogram, sample_len, a),
    ensures
        excerpt_fits(spectrogram, sample_len, b),
{
}

/// Law: an excerpt is a full block: it has `excerpt_len(sample_len)`
/// frames and every frame has `BINS_PER_FRAME` bins, whatever its start.
pub proof fn lemma_excerpt_shape<T>(spectrogram: Seq<Seq<T>>, sample_len: u32, start: int, zero: T)
    requires
        excerpt_fits(spectrogram, sample_len, start),
    ensures
        excerpt_of(spectrogram, sample_len, start, zero).len() == excerpt_len(sample_len),
        forall|i: int|
            0 <= i < excerpt_len(sample_len) ==> #[trigger] excerpt_of(
                spectrogram,
                sample_len,
                start,
                zero,
            )[i].len() == BINS_PER_FRAME,
{
}

/// `n` copies of `x`.
pub fn filled<T: Copy>(n: usize, x: T) -> (v: Vec<T>)
    ensures
        v@ == Seq::new(n as nat, |j: int| x),
{
    let mut v: Vec<T> = Vec::new();
    let mut k: usize = 0;
    while k < n
        invariant
            k <= n,
            v@ == Seq::new(k as nat, |j: int| x),
        decreases n - k,
    {
        v.push(x);
        k = k + 1;
        assert(v@ =~= Seq::new(k as nat, |j: int| x));
    }
    v
}

/// The excerpt of a spectrogram that starts at frame `start` (see
/// `excerpt_of`): frames before `start` are left at `zero`.
pub fn excerpt<T: Copy>(spectrogram: &Vec<Vec<T>>, sample_len: u32, start: u32, zero: T) -> (out: Vec<
    Vec<T>,
>)
    requires
        excerpt_fits(frames_view(spectrogram@), sample_len, start as int),
    ensures
        frames_view(out@) == excerpt_of(frames_view(spectrogram@), sample_len, start as int, zero),
        out.len() == sample_len / (BINS_PER_FRAME as u32),
        forall|i: int| 0 <= i < out.len() ==> #[trigger] out[i].len() == BINS_PER_FRAME,
        forall|i: int, j: int|
            0 <= i < start && i < out.len() && 0 <= j < BINS_PER_FRAME ==> #[trigger] out[i]@[j]
                == zero,
        forall|i: int, j: int|
            start <= i < out.len() && 0 <= j < BINS_PER_FRAME ==> #[trigger] out[i]@[j]
                == spectrogram[i]@[j],
{
    let n_frames: usize = (sample_len / (BINS_PER_FRAME as u32)) as usize;
    let ghost spec_frames = frames_view(spectrogram@);
    let ghost target = excerpt_of(spec_frames, sample_len, start as int, zero);
    let mut out: Vec<Vec<T>> = Vec::new();
    let mut i: usize = 0;
    while i < n_frames
        invariant
            n_frames == excerpt_len(sample_len),
            spec_frames == frames_view(spectrogram@),
            target == excerpt_of(spec_frames, sample_len, start as int, zero),
            excerpt_fits(spec_frames, sample_len, start as int),
            i <= n_frames,
            out.len() == i,
            forall|j: int| 0 <= j < i ==> #[trigger] out[j]@ == target[j],
        decreases n_frames - i,
    {
        if i < start as usize {
            let f = filled(BINS_PER_FRAME, zero);
            out.push(f);
        } else {
            assert(spec_frames[i as int].len() == BINS_PER_FRAME);
            let f = copy_range(&spectrogram[i], 0, BINS_PER_FRAME);
            assert(f@ =~= spec_frames[i as int]);
            out.push(f);
        }
        i = i + 1;
    }
    assert(frames_view(out@) =~= target);
    proof {
        assert forall|i: int| 0 <= i < out.len() implies #[trigger] out[i].len() == BINS_PER_FRAME by {
            assert(frames_view(out@)[i] == out[i]@);
            lemma_excerpt_elements(spec_frames, sample_len, start as int, zero, i, 0);
        }
        assert forall|i: int, j: int|
            0 <= i < start && i < out.len() && 0 <= j < BINS_PER_FRAME implies #[trigger] out[i]@[j]
                == zero by {
            assert(frames_view(out@)[i] == out[i]@);
            lemma_excerpt_elements(spec_frames, sample_len, start as int, zero, i, j);
        }
        assert forall|i: int, j: int|
            start <= i < out.len() && 0 <= j < BINS_PER_FRAME implies #[trigger] out[i]@[j]
                == spectrogram[i]@[j] by {
            assert(frames_view(out@)[i] == out[i]@);
            assert(spec_frames[i] == spectrogram[i]@);
            lemma_excerpt_elements(spec_frames, sample_len, start as int, zero, i, j);
        }
    }
    out
}

/// Law: an excerpt keeps the bins of every copied frame in place: for a
/// frame `i` at or after the start, bin `j` is bin `j` of the
/// spectrogram's frame `i`; frames before the start hold `zero` in every
/// bin.
pub proof fn lemma_excerpt_elements<T>(
    spectrogram: Seq<Seq<T>>,
    sample_len: u32,
    start: int,
    zero: T,
    i: int,
    j: int,
)
    requires
        excerpt_fits(spectrogram, sample_len, start),
        0 <= i < excerpt_len(sample_len),
        0 <= j < BINS_PER_FRAME,
    ensures
        excerpt_of(spectrogram, sample_len, start, zero).len() == excerpt_len(sample_len),
        excerpt_of(spectrogram, sample_len, start, zero)[i].len() == BINS_PER_FRAME,
        i < start ==> excerpt_of(spectrogram, sample_len, start, zero)[i][j] == zero,
        start <= i ==> excerpt_of(spectrogram, sample_len, start, zero)[i][j] == spectrogram[i][j],
{
}

/// A random start frame below `range`.
///
/// Calls `rand::rng().random_range(0..range)`, which draws uniformly from
/// the half-open range and panics on an empty one. The contract claims
/// only that the result lies in the range; which value comes back is left
/// open. The thread generator's own failure to seed from the system,
/// which panics inside rand, is not excluded here.
#[verifier::external_body]
fn random_start(range: u32) -> (r: u32)
    requires
        range > 0,
    ensures
        r < range,
{
    rand::rng().random_range(0..range)
}

/// A random excerpt of a mono spectrogram: a start frame is drawn below
/// `range`, and the excerpt of `sample_len / BINS_PER_FRAME` frames keeps
/// the spectrogram's frames from there on and `zero` before.
pub fn m_random_sample<T: Copy>(spectrogram: &Vec<Vec<T>>, sample_len: u32, range: u32, zero: T) -> (out: Vec<
    Vec<T>,
>)
    requires
        range > 0,
        excerpt_fits(frames_view(spectrogram@), sample_len, 0),
    ensures
        exists|start: int|
            0 <= start < range && frames_view(out@) == excerpt_of(
                frames_view(spectrogram@),
                sample_len,
                start,
                zero,
            ),
        out.len() == sample_len / (BINS_PER_FRAME as u32),
        forall|i: int| 0 <= i < out.len() ==> #[trigger] out[i].len() == BINS_PER_FRAME,
        exists|start: int|
            #![trigger excerpt_of(frames_view(spectrogram@), sample_len, start, zero)]
            0 <= start < range && frames_view(out@) == excerpt_of(
                frames_view(spectrogram@),
                sample_len,
                start,
                zero,
            ) && (forall|i: int, j: int|
                0 <= i < start && i < out.len() && 0 <= j < BINS_PER_FRAME ==> #[trigger] out[i]@[j]
                    == zero) && (forall|i: int, j: int|
                start <= i < out.len() && 0 <= j < BINS_PER_FRAME ==> #[trigger] out[i]@[j]
                    == spectrogram[i]@[j]),
{
    let start = random_start(range);
    proof {
        lemma_fits_later(frames_view(spectrogram@), sample_len, 0, start as int);
    }
    excerpt(spectrogram, sample_len, start, zero)
}

/// A random excerpt of a stereo spectrogram, drawn as for a mono one with
/// (left, right) pairs as bins.
pub fn s_random_sample<T: Copy>(
    spectrogram: &Vec<Vec<(T, T)>>,
    sample_len: u32,
    range: u32,
    zero: (T, T),
) -> (out: Vec<Vec<(T, T)>>)
    requires
        range > 0,
        excerpt_fits(frames_view(spectrogram@), sample_len, 0),
    ensures
        exists|start: int|
            0 <= start < range && frames_view(out@) == excerpt_of(
                frames_view(spectrogram@),
                sample_len,
                start,
                zero,
            ),
        out.len() == sample_len / (BINS_PER_FRAME as u32),
        forall|i: int| 0 <= i < out.len() ==> #[trigger] out[i].len() == BINS_PER_FRAME,
        exists|start: int|
            #![trigger excerpt_of(frames_view(spectrogram@), sample_len, start, zero)]
            0 <= start < range && frames_view(out@) == excerpt_of(
                frames_view(spectrogram@),
                sample_len,
                start,
                zero,
            ) && (forall|i: int, j: int|
                0 <= i < start && i < out.len() && 0 <= j < BINS_PER_FRAME ==> #[trigger] out[i]@[j]
                    == zero) && (forall|i: int, j: int|
                start <= i < out.len() && 0 <= j < BINS_PER_FRAME ==> #[trigger] out[i]@[j]
                    == spectrogram[i]@[j]),
{
    m_random_sample(spectrogram, sample_len, range, zero)
}

/// Start of group `i` when `frames` frames are condensed into `parts`
/// groups.
pub open spec fn group_start(i: int, frames: int, parts: int) -> int {
    (i * frames) / parts
}

/// The bounds `(start, end)` of the `parts` groups of consecutive frames
/// that a spectrogram of `frames` frames is condensed into: group `i`
/// runs from `i * frames / parts` up to `(i + 1) * frames / parts`, the
/// end cut down to `frames`.
pub fn condense_bounds(frames: usize, parts: usize) -> (bounds: Vec<(usize, usize)>)
    requires
        parts * frames <= usize::MAX,
    ensures
        bounds.len() == parts,
        forall|i: int|
            0 <= i < parts ==> #[trigger] bounds[i] == (
                group_start(i, frames as int, parts as int) as usize,
                group_start(i + 1, frames as int, parts as int) as usize,
            ),
        forall|i: int|
            0 <= i < parts ==> (#[trigger] bounds[i]).0 == (i * frames) / (parts as int) && bounds[i].1
                == ((i + 1) * frames) / (parts as int),
{
    let mut bounds: Vec<(usize, usize)> = Vec::new();
    let mut i: usize = 0;
    while i < parts
        invariant
            parts * frames <= usize::MAX,
            i <= parts,
            bounds.len() == i,
            forall|j: int|
                0 <= j < i ==> #[trigger] bounds[j] == (
                    group_start(j, frames as int, parts as int) as usize,
                    group_start(j + 1, frames as int, parts as int) as usize,
                ),
            forall|j: int|
                0 <= j < i ==> (#[trigger] bounds[j]).0 == (j * frames) / (parts as int)
                    && bounds[j].1 == ((j + 1) * frames) / (parts as int),
        decreases parts - i,
    {
        proof {
            assert((i + 1) * frames <= parts * frames) by (nonlinear_arith)
                requires
                    i + 1 <= parts,
            ;
            assert(i * frames <= (i + 1) * frames) by (nonlinear_arith);
            lemma_group_start_bounded(i as int + 1, frames as int, parts as int);
        }
        let start = (i * frames) / parts;
        let e = ((i + 1) * frames) / parts;
        let end = if e > frames {
            frames
        } else {
            e
        };
        bounds.push((start, end));
        i = i + 1;
    }
    bounds
}

proof fn lemma_group_start_bounded(i: int, frames: int, parts: int)
    requires
        0 <= i <= parts,
        0 < parts,
        0 <= frames,
    ensures
        0 <= group_start(i, frames, parts) <= frames,
{
    assert(0 <= i * frames <= parts * frames) by (nonlinear_arith)
        requires
            0 <= i <= parts,
            0 <= frames,
    ;
    lemma_div_is_ordered(i * frames, parts * frames, parts);
    lemma_div_is_ordered(0, i * frames, parts);
    assert(parts * frames == frames * parts) by (nonlinear_arith);
    lemma_div_multiples_vanish(frames, parts);
}

/// Law: the groups cover the frames from first to last, each group ending
/// where the next begins, none running backwards.
pub proof fn lemma_groups_partition(frames: int, parts: int, i: int)
    requires
        0 < parts,
        0 <= frames,
        0 <= i < parts,
    ensures
        group_start(0, frames, parts) == 0,
        group_start(parts, frames, parts) == frames,
        group_start(i, frames, parts) <= group_start(i + 1, frames, parts),
{
    assert(0 * frames == 0);
    assert(parts * frames == frames * parts) by (nonlinear_arith);
    lemma_div_multiples_vanish(frames, parts);
    assert(i * frames <= (i + 1) * frames) by (nonlinear_arith)
        requires
            0 <= frames,
    ;
    lemma_div_is_ordered(i * frames, (i + 1) * frames, parts);
}

/// Law: every group holds at least one frame exactly when there are at
/// least as many frames as groups; with fewer frames the first group is
/// empty.
pub proof fn lemma_groups_nonempty(frames: int, parts: int, i: int)
    requires
        0 < parts,
        0 <= frames,
        0 <= i < parts,
    ensures
        frames >= parts ==> group_start(i, frames, parts) < group_start(i + 1, frames, parts),
        frames < parts ==> group_start(0, frames, parts) == group_start(1, frames, parts),
{
    if frames >= parts {
        assert((i + 1) * frames == i * frames + frames) by (nonlinear_arith);
        lemma_div_is_ordered(parts + i * frames, (i + 1) * frames, parts);
        lemma_div_plus_one(i * frames, parts);
    } else {
        assert(0 * frames == 0);
        assert(1 * frames == frames);
        lemma_div_multiples_vanish(0, parts);
        vstd::arithmetic::div_mod::lemma_basic_div(frames, parts);
    }
}

} // verus!

//! Stereo bookkeeping: pairing an interleaved sample stream into
//! (left, right) frames and back, and splitting a stereo frame into its
//! two channels and back.

use vstd::prelude::*;

verus! {

/// The (left, right) pairs of an interleaved stream; a last lone sample
/// is dropped.
pub open spec fn pairs_of<T>(s: Seq<T>) -> Seq<(T, T)> {
    Seq::new(s.len() / 2, |k: int| (s[2 * k], s[2 * k + 1]))
}

/// The interleaved stream of a sequence of (left, right) pairs.
pub open spec fn interleaved<T>(p: Seq<(T, T)>) -> Seq<T> {
    Seq::new(2 * p.len(), |i: int| if i % 2 == 0 { p[i / 2].0 } else { p[i / 2].1 })
}

/// The left channel of a stereo frame.
pub open spec fn lefts<T>(p: Seq<(T, T)>) -> Seq<T> {
    p.map_values(|x: (T, T)| x.0)
}

/// The right channel of a stereo frame.
pub open spec fn rights<T>(p: Seq<(T, T)>) -> Seq<T> {
    p.map_values(|x: (T, T)| x.1)
}

/// The stereo frame whose channels are `l` and `r`, as long as the
/// shorter of the two.
pub open spec fn zipped<T>(l: Seq<T>, r: Seq<T>) -> Seq<(T, T)> {
    let n = if l.len() <= r.len() {
        l.len()
    } else {
        r.len()
    };
    Seq::new(n, |k: int| (l[k], r[k]))
}

/// Groups an interleaved stream into consecutive (left, right) pairs,
/// two samples per pair; a last lone sample is dropped.
pub fn pair_up<T: Copy>(samples: &Vec<T>) -> (pairs: Vec<(T, T)>)
    ensures
        pairs@ == pairs_of(samples@),
        pairs.len() == samples.len() / 2,
        forall|k: int|
            0 <= k < pairs.len() ==> (#[trigger] pairs[k]).0 == samples[2 * k] && pairs[k].1
                == samples[2 * k + 1],
{
    let mut pairs: Vec<(T, T)> = Vec::new();
    let n = samples.len() / 2;
    let mut k: usize = 0;
    while k < n
        invariant
            n == samples.len() / 2,
            k <= n,
            pairs.len() == k,
            forall|j: int| 0 <= j < k ==> #[trigger] pairs[j] == (samples[2 * j], samples[2 * j + 1]),
        decreases n - k,
    {
        pairs.push((samples[2 * k], samples[2 * k + 1]));
        k = k + 1;
    }
    assert(pairs@ =~= pairs_of(samples@));
    pairs
}

/// Writes a sequence of (left, right) pairs out as one interleaved stream,
/// left sample first.
pub fn interleave<T: Copy>(pairs: &Vec<(T, T)>) -> (samples: Vec<T>)
    requires
        2 * pairs.len() <= usize::MAX,
    ensures
        samples@ == interleaved(pairs@),
        samples.len() == 2 * pairs.len(),
        forall|k: int|
            0 <= k < pairs.len() ==> samples[2 * k] == (#[trigger] pairs[k]).0 && samples[2 * k
                + 1] == pairs[k].1,
{
    let mut samples: Vec<T> = Vec::new();
    let mut k: usize = 0;
    while k < pairs.len()
        invariant
            k <= pairs.len(),
            2 * pairs.len() <= usize::MAX,
            samples.len() == 2 * k,
            forall|i: int|
                0 <= i < 2 * k ==> #[trigger] samples[i] == (if i % 2 == 0 {
                    pairs[i / 2].0
                } else {
                    pairs[i / 2].1
                }),
        decreases pairs.len() - k,
    {
        let (l, r) = pairs[k];
        samples.push(l);
        samples.push(r);
        k = k + 1;
    }
    assert(samples@ =~= interleaved(pairs@));
    proof {
        assert forall|k: int| 0 <= k < pairs.len() implies samples[2 * k] == (
        #[trigger] pairs[k]).0 && samples[2 * k + 1] == pairs[k].1 by {
            lemma_interleaved_elements(pairs@, k);
        }
    }
    samples
}

/// Splits a stereo frame into its left and its right channel.
pub fn split_channels<T: Copy>(frame: &Vec<(T, T)>) -> (channels: (Vec<T>, Vec<T>))
    ensures
        channels.0@ == lefts(frame@),
        channels.1@ == rights(frame@),
        channels.0.len() == frame.len(),
        channels.1.len() == frame.len(),
        forall|k: int|
            0 <= k < frame.len() ==> channels.0[k] == (#[trigger] frame[k]).0 && channels.1[k]
                == frame[k].1,
{
    let mut l: Vec<T> = Vec::new();
    let mut r: Vec<T> = Vec::new();
    let mut k: usize = 0;
    while k < frame.len()
        invariant
            k <= frame.len(),
            l@ == lefts(frame@.take(k as int)),
            r@ == rights(frame@.take(k as int)),
        decreases frame.len() - k,
    {
        let (a, b) = frame[k];
        l.push(a);
        r.push(b);
        k = k + 1;
        assert(l@ =~= lefts(frame@.take(k as int)));
        assert(r@ =~= rights(frame@.take(k as int)));
    }
    assert(frame@.take(k as int) =~= frame@);
    (l, r)
}

/// Joins a left and a right channel into one stereo frame, pair by pair,
/// as long as the shorter channel.
pub fn join_channels<T: Copy>(left: Vec<T>, right: Vec<T>) -> (frame: Vec<(T, T)>)
    ensures
        frame@ == zipped(left@, right@),
        frame.len() == (if left.len() <= right.len() {
            left.len()
        } else {
            right.len()
        }),
        forall|k: int| 0 <= k < frame.len() ==> #[trigger] frame[k] == (left[k], right[k]),
{
    let n = if left.len() <= right.len() {
        left.len()
    } else {
        right.len()
    };
    let mut frame: Vec<(T, T)> = Vec::new();
    let mut k: usize = 0;
    while k < n
        invariant
            n <= left.len(),
            n <= right.len(),
            n == (if left.len() <= right.len() {
                left.len()
            } else {
                right.len()
            }),
            k <= n,
            frame.len() == k,
            forall|j: int| 0 <= j < k ==> #[trigger] frame[j] == (left[j], right[j]),
        decreases n - k,
    {
        frame.push((left[k], right[k]));
        k = k + 1;
    }
    assert(frame@ =~= zipped(left@, right@));
    frame
}

/// Law: pair `k` of a stream is its samples `2k` (left) and `2k + 1`
/// (right), and a stream of `n` samples gives `n / 2` pairs.
pub proof fn lemma_pairs_elements<T>(s: Seq<T>, k: int)
    requires
        0 <= k < s.len() / 2,
    ensures
        pairs_of(s).len() == s.len() / 2,
        pairs_of(s)[k].0 == s[2 * k],
        pairs_of(s)[k].1 == s[2 * k + 1],
{
}

/// Law: the interleaved stream of `n` pairs has `2n` samples, pair `k`'s
/// left sample at `2k` and its right sample at `2k + 1`.
pub proof fn lemma_interleaved_elements<T>(p: Seq<(T, T)>, k: int)
    requires
        0 <= k < p.len(),
    ensures
        interleaved(p).len() == 2 * p.len(),
        interleaved(p)[2 * k] == p[k].0,
        interleaved(p)[2 * k + 1] == p[k].1,
{
    assert((2 * k) % 2 == 0);
    assert((2 * k) / 2 == k);
    assert((2 * k + 1) % 2 == 1);
    assert((2 * k + 1) / 2 == k);
}

/// Law: the channels of a stereo frame keep its pairs in place: sample `k`
/// of the left channel is the left half of pair `k`, and likewise right.
pub proof fn lemma_channel_elements<T>(f: Seq<(T, T)>, k: int)
    requires
        0 <= k < f.len(),
    ensures
        lefts(f).len() == f.len(),
        rights(f).len() == f.len(),
        lefts(f)[k] == f[k].0,
        rights(f)[k] == f[k].1,
{
}

/// Law: joining two channels pairs their samples in place, as far as the
/// shorter one goes.
pub proof fn lemma_zipped_elements<T>(l: Seq<T>, r: Seq<T>, k: int)
    requires
        0 <= k < l.len(),
        k < r.len(),
    ensures
        k < zipped(l, r).len(),
        zipped(l, r).len() <= l.len(),
        zipped(l, r).len() <= r.len(),
        zipped(l, r)[k] == (l[k], r[k]),
{
}

/// Law: pairing up the interleaved stream of some pairs gives the pairs back.
pub proof fn lemma_pair_up_interleave<T>(p: Seq<(T, T)>)
    ensures
        pairs_of(interleaved(p)) == p,
{
    let s = interleaved(p);
    assert forall|k: int| 0 <= k < p.len() implies #[trigger] pairs_of(s)[k] == p[k] by {
        assert((2 * k) % 2 == 0);
        assert((2 * k) / 2 == k);
        assert((2 * k + 1) % 2 == 1);
        assert((2 * k + 1) / 2 == k);
    }
    assert(pairs_of(s) =~= p);
}

/// Law: interleaving the pairs of a stream of even length gives the
/// stream back.
pub proof fn lemma_interleave_pair_up<T>(s: Seq<T>)
    requires
        s.len() % 2 == 0,
    ensures
        interleaved(pairs_of(s)) == s,
{
    let p = pairs_of(s);
    assert forall|i: int| 0 <= i < s.len() implies #[trigger] interleaved(p)[i] == s[i] by {
        let k = i / 2;
        assert(0 <= k < p.len());
        if i % 2 == 0 {
            assert(2 * k == i);
        } else {
            assert(2 * k + 1 == i);
        }
    }
    assert(interleaved(p) =~= s);
}

/// Law: joining the two channels of a stereo frame gives the frame back.
pub proof fn lemma_join_split<T>(f: Seq<(T, T)>)
    ensures
        zipped(lefts(f), rights(f)) == f,
{
    assert(zipped(lefts(f), rights(f)) =~= f);
}

/// Law: splitting the frame joined from two channels of equal length
/// gives the two channels back.
pub proof fn lemma_split_join<T>(l: Seq<T>, r: Seq<T>)
    requires
        l.len() == r.len(),
    ensures
        lefts(zipped(l, r)) == l,
        rights(zipped(l, r)) == r,
{
    assert(lefts(zipped(l, r)) =~= l);
    assert(rights(zipped(l, r)) =~= r);
}

} // verus!

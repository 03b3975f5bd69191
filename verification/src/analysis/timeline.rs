//! Alignment of timelines and recognition of patterns in them.
use super::traits::{
    apart, compared, duration_of, gap, hash_similarity, is_moved_copy, is_nearest, within_reach,
    ContentMatch, FingerprintSample, FingerprintTimeline, HashComparison, TimelineAlignment,
};
use crate::clock::{now, Timestamp};
use crate::ids::{is_random_id, new_id};
use crate::order::{in_front, is_stable_order, permutation_reaches, stable_order, SortKey};
use crate::scanner::fingerprint::{countable, hamming_zero_means_equal, Fingerprinter};
use crate::score::{
    best_is_the_greatest, best_of, reaching, score_of, Score, EIGHTY_FIVE_PERCENT, SIX_TENTHS,
};
use crate::text::{copy_bytes, same};
use vstd::prelude::*;

verus! {

/// The number of steps of width `step` from `from` up to `to`.
pub open spec fn step_count(from: int, to: int, step: int) -> nat {
    if from <= to {
        ((to - from) / step + 1) as nat
    } else {
        0
    }
}

/// The points from `from` up to `to` in steps of width `step`.
pub open spec fn steps(from: int, to: int, step: int) -> Seq<i32> {
    Seq::new(step_count(from, to, step), |k: int| (from + step * k) as i32)
}

/// A search from `from` up to `to` ends: the width is positive, and the point behind the last one
/// can be computed.
pub open spec fn steps_end(from: int, to: int, step: int) -> bool {
    from <= to ==> step > 0 && from + step * ((to - from) / step + 1) <= i32::MAX
}

/// The points from `from` up to `to` in steps of width `step`.
fn stepped(from: i32, to: i64, step: i32) -> (r: Vec<i32>)
    requires
        steps_end(from as int, to as int, step as int),
        to <= 0x2_0000_0000,
    ensures
        r@ == steps(from as int, to as int, step as int),
{
    let mut out: Vec<i32> = Vec::new();
    let mut at: i64 = from as i64;
    let ghost mut k: int = 0;
    if at > to {
        return out;
    }
    let ghost f = from as int;
    let ghost t = to as int;
    let ghost s = step as int;
    let ghost n = (t - f) / s;
    assert(f + s * n <= t < f + s * (n + 1) && n >= 0) by (nonlinear_arith)
        requires
            n == (t - f) / s,
            s > 0,
            f <= t,
    ;
    assert(f + s * 0 == f);
    while at <= to
        invariant
            f == from,
            t == to,
            s == step,
            s > 0,
            n == (t - f) / s,
            n >= 0,
            f <= t,
            f + s * n <= t < f + s * (n + 1),
            f + s * (n + 1) <= i32::MAX,
            0 <= k <= n + 1,
            at == f + s * k,
            out@ == steps(f, t, s).take(k),
        decreases n + 1 - k,
    {
        assert(k <= n && i32::MIN <= f + s * k && f + s * k <= i32::MAX) by (nonlinear_arith)
            requires
                f + s * k <= t,
                t < f + s * (n + 1),
                f + s * (n + 1) <= i32::MAX,
                s > 0,
                k >= 0,
                f >= i32::MIN,
        ;
        out.push(at as i32);
        assert(s * (k + 1) == s * k + s) by (nonlinear_arith);
        at = at + step as i64;
        proof {
            k = k + 1;
        }
        assert(out@ =~= steps(f, t, s).take(k));
    }
    assert(k == n + 1) by (nonlinear_arith)
        requires
            f + s * k > t,
            f + s * n <= t,
            k <= n + 1,
            s > 0,
    ;
    assert(out@ =~= steps(f, t, s));
    out
}

/// Extracts dense fingerprint timelines, with samples at regular intervals.
#[derive(Debug, Clone, Copy)]
pub struct DenseTimelineExtractor {
    pub fingerprinter: Fingerprinter,
}

impl Default for DenseTimelineExtractor {
    fn default() -> (r: Self)
        ensures
            r.fingerprinter.hash_width == 8,
            r.fingerprinter.hash_height == 8,
    {
        DenseTimelineExtractor { fingerprinter: Fingerprinter::new() }
    }
}

/// The points in time at which a video is sampled: the multiples of the interval inside its
/// duration. With a negative interval only the beginning is sampled.
pub open spec fn dense_points(duration_ms: int, interval_ms: int) -> Seq<i32> {
    if duration_ms <= 0 {
        Seq::empty()
    } else if interval_ms < 0 {
        seq![0i32]
    } else {
        steps(0, duration_ms - 1, interval_ms)
    }
}

impl DenseTimelineExtractor {
    /// The points in time at which a video of the given duration is sampled.
    pub fn sample_points(&self, duration_ms: i32, interval_ms: i32) -> (r: Vec<i32>)
        requires
            interval_ms != 0,
        ensures
            r@ == dense_points(duration_ms as int, interval_ms as int),
    {
        let mut out: Vec<i32> = Vec::new();
        if duration_ms <= 0 {
            return out;
        }
        let ghost d = duration_ms as int;
        let ghost s = interval_ms as int;
        let ghost n = (d - 1) / s;
        let ghost mut k: int = 0;
        if interval_ms < 0 {
            out.push(0);
            assert(out@ =~= seq![0i32]);
            return out;
        }
        assert(s * n <= d - 1 < s * (n + 1) && n >= 0) by (nonlinear_arith)
            requires
                n == (d - 1) / s,
                s > 0,
                d >= 1,
        ;
        let mut at: i64 = 0;
        while at < duration_ms as i64
            invariant
                d == duration_ms,
                s == interval_ms,
                s > 0,
                d > 0,
                n == (d - 1) / s,
                n >= 0,
                s * n <= d - 1 < s * (n + 1),
                0 <= k <= n + 1,
                at == s * k,
                out@ == steps(0, d - 1, s).take(k),
            decreases n + 1 - k,
        {
            assert(k <= n && 0 <= s * k) by (nonlinear_arith)
                requires
                    s * k <= d - 1,
                    d - 1 < s * (n + 1),
                    s > 0,
                    k >= 0,
            ;
            out.push(at as i32);
            assert(s * (k + 1) == s * k + s) by (nonlinear_arith);
            at = at + interval_ms as i64;
            proof {
                k = k + 1;
            }
            assert(out@ =~= steps(0, d - 1, s).take(k));
        }
        assert(k == n + 1) by (nonlinear_arith)
            requires
                s * k > d - 1,
                s * n <= d - 1,
                k <= n + 1,
                s > 0,
        ;
        assert(out@ =~= steps(0, d - 1, s));
        out
    }

    /// The timeline that the hashes of the sampled frames make up.
    pub fn timeline_of(&self, hashes: Vec<(i32, Vec<u8>)>, interval_ms: i32) -> (r:
        FingerprintTimeline)
        ensures
            sample_views(r.samples@) == hashes@.map_values(
                |h: (i32, Vec<u8>)| (h.0 as int, h.1@),
            ),
            r.sample_interval_ms == interval_ms,
    {
        let mut samples: Vec<FingerprintSample> = Vec::new();
        let ghost whole = hashes@.map_values(|h: (i32, Vec<u8>)| (h.0 as int, h.1@));
        for i in 0..hashes.len()
            invariant
                whole == hashes@.map_values(|h: (i32, Vec<u8>)| (h.0 as int, h.1@)),
                sample_views(samples@) == whole.take(i as int),
        {
            let ghost before = samples@;
            let hash = copy_bytes(&hashes[i].1);
            samples.push(FingerprintSample { timestamp_ms: hashes[i].0, hash });
            assert(sample_views(samples@) =~= sample_views(before).push(whole[i as int]));
            assert(sample_views(samples@) =~= whole.take(i + 1));
        }
        assert(whole.take(hashes@.len() as int) =~= whole);
        FingerprintTimeline { samples, sample_interval_ms: interval_ms }
    }
}

/// Aligns timelines using cross-correlation of fingerprint hashes.
#[derive(Debug, Clone, Copy)]
pub struct CrossCorrelationAligner {
    /// Maximum offset to search (in either direction).
    pub max_offset_ms: i32,
    /// Step size for searching offsets.
    pub search_step_ms: i32,
    /// Minimum similarity to consider samples matching.
    pub match_threshold: Score,
}

impl Default for CrossCorrelationAligner {
    fn default() -> (r: Self)
        ensures
            r.max_offset_ms == 300_000,
            r.search_step_ms == 1000,
            r.match_threshold.bits == EIGHTY_FIVE_PERCENT,
    {
        CrossCorrelationAligner {
            max_offset_ms: 300_000,
            search_step_ms: 1000,
            match_threshold: Score::from_bits(EIGHTY_FIVE_PERCENT),
        }
    }
}

/// A sample of one timeline and its counterpart in another.
#[derive(Debug, Clone, Copy, PartialEq, Eq, Structural)]
pub struct SamplePair {
    pub index_a: usize,
    pub index_b: usize,
    pub comparison: HashComparison,
}

/// Where sample `i` of the first timeline lies in the second, where `offset` is what is added to the
/// second to align it with the first.
pub open spec fn target(a: Seq<FingerprintSample>, i: int, offset: int) -> int {
    a[i].timestamp_ms - offset
}

/// Sample `k` of the second timeline, moved by `offset`, is the counterpart of sample `i` of the
/// first: it is the nearest one, and not further off than an interval between samples.
pub open spec fn is_counterpart(
    a: Seq<FingerprintSample>,
    b: FingerprintTimeline,
    offset: int,
    i: int,
    k: int,
) -> bool {
    &&& 0 <= i < a.len()
    &&& is_nearest(b.samples@, target(a, i, offset), k)
    &&& apart(b.samples@[k].timestamp_ms as int, target(a, i, offset)) <= b.sample_interval_ms
}

/// The counterparts of all samples can be found and compared.
pub open spec fn can_pair(
    a: Seq<FingerprintSample>,
    b: FingerprintTimeline,
    offset: int,
) -> bool {
    &&& forall|i: int|
        0 <= i < a.len() ==> i32::MIN <= (#[trigger] a[i]).timestamp_ms - offset <= i32::MAX
            && within_reach(b.samples@, a[i].timestamp_ms - offset)
    &&& forall|i: int, k: int| #[trigger]
        is_counterpart(a, b, offset, i, k) ==> countable(a[i].hash@, b.samples@[k].hash@)
}

/// `pairs` are the first `n` samples of the first timeline that have a counterpart, in order, each
/// with its counterpart.
pub open spec fn are_pairs(
    pairs: Seq<SamplePair>,
    a: Seq<FingerprintSample>,
    b: FingerprintTimeline,
    offset: int,
    n: int,
) -> bool {
    &&& forall|p: int|
        0 <= p < pairs.len() ==> {
            &&& (#[trigger] pairs[p]).index_a < n
            &&& is_counterpart(
                a,
                b,
                offset,
                pairs[p].index_a as int,
                pairs[p].index_b as int,
            )
            &&& pairs[p].comparison == compared(
                a[pairs[p].index_a as int].hash@,
                b.samples@[pairs[p].index_b as int].hash@,
            )
        }
    &&& forall|p: int, q: int|
        0 <= p < q < pairs.len() ==> (#[trigger] pairs[p]).index_a < (#[trigger] pairs[q]).index_a
    &&& forall|i: int, k: int|
        i < n && #[trigger] is_counterpart(a, b, offset, i, k) ==> has_pair(pairs, i)
}

/// One of the pairs is that of sample `i`.
pub open spec fn has_pair(pairs: Seq<SamplePair>, i: int) -> bool {
    exists|p: int| 0 <= p < pairs.len() && (#[trigger] pairs[p]).index_a == i
}

/// An offset that was tried: how similar the timelines are with it, and which samples match.
#[derive(Debug, Clone)]
pub struct ScoredOffset {
    pub score: Score,
    pub matches: Vec<(usize, usize, Score)>,
}

/// The scores of the offsets that were tried.
pub open spec fn scores_of(tried: Seq<ScoredOffset>) -> Seq<Score> {
    tried.map_values(|t: ScoredOffset| t.score)
}

/// The offset at a position, `otherwise` where there is no position.
pub open spec fn offset_at(offsets: Seq<i32>, at: Option<int>, otherwise: i32) -> i32 {
    match at {
        Some(i) => offsets[i],
        None => otherwise,
    }
}

/// A number, and at least a hundred.
pub open spec fn at_least_hundred(n: int) -> int {
    if n >= 100 {
        n
    } else {
        100
    }
}

/// Finds the greatest score.
fn find_best(scores: &Vec<Score>) -> (r: Option<usize>)
    ensures
        match r {
            Some(i) => i < scores@.len() && best_of(scores@, scores@.len() as int) == Some(
                i as int,
            ),
            None => best_of(scores@, scores@.len() as int) is None,
        },
{
    let mut best: Option<usize> = None;
    let mut best_score = Score::zero();
    for i in 0..scores.len()
        invariant
            match best {
                Some(b) => b < i && best_of(scores@, i as int) == Some(b as int) && best_score
                    == scores@[b as int],
                None => best_of(scores@, i as int) is None && best_score == (Score { bits: 0 }),
            },
    {
        if scores[i].gt(best_score) {
            best = Some(i);
            best_score = scores[i];
        }
    }
    best
}

/// The first `n` offsets that are not greater than `most` in either direction.
pub open spec fn up_to(offsets: Seq<i32>, most: int, n: int) -> Seq<i32>
    decreases n,
{
    if n <= 0 {
        Seq::empty()
    } else if -most <= offsets[n - 1] <= most {
        up_to(offsets, most, n - 1).push(offsets[n - 1])
    } else {
        up_to(offsets, most, n - 1)
    }
}

proof fn lemma_up_to_is_bounded(offsets: Seq<i32>, most: int, n: int, i: int)
    requires
        0 <= i < up_to(offsets, most, n).len(),
    ensures
        -most <= up_to(offsets, most, n)[i] <= most,
    decreases n,
{
    if i < up_to(offsets, most, n - 1).len() {
        lemma_up_to_is_bounded(offsets, most, n - 1, i);
    }
}

proof fn lemma_steps_lie_between(from: int, to: int, step: int, i: int)
    requires
        steps_end(from, to, step),
        i32::MIN <= from,
        0 <= i < steps(from, to, step).len(),
    ensures
        from <= steps(from, to, step)[i] <= to,
{
    let n = (to - from) / step;
    assert(step * n <= to - from) by (nonlinear_arith)
        requires
            n == (to - from) / step,
            step > 0,
    ;
    assert(0 <= step * i <= step * n && step * (n + 1) == step * n + step) by (nonlinear_arith)
        requires
            0 <= i <= n,
            step > 0,
    ;
}

impl CrossCorrelationAligner {
    /// The offsets that are tried first.
    pub open spec fn coarse_offsets(&self) -> Seq<i32> {
        steps(-self.max_offset_ms, self.max_offset_ms as int, self.search_step_ms as int)
    }

    /// The offsets around `coarse`.
    pub open spec fn near_offsets(&self, timeline_a: FingerprintTimeline, coarse: int) -> Seq<i32> {
        steps(
            coarse - self.search_step_ms,
            coarse + self.search_step_ms,
            at_least_hundred(timeline_a.sample_interval_ms as int),
        )
    }

    /// The offsets that are tried around `coarse`: none of them is greater than the maximum.
    pub open spec fn fine_offsets(&self, timeline_a: FingerprintTimeline, coarse: int) -> Seq<i32> {
        let near = self.near_offsets(timeline_a, coarse);
        up_to(near, self.max_offset_ms as int, near.len() as int)
    }

    /// The search over the coarse offsets ends.
    pub open spec fn coarse_search_ends(&self) -> bool {
        &&& self.max_offset_ms > i32::MIN
        &&& steps_end(
            -self.max_offset_ms,
            self.max_offset_ms as int,
            self.search_step_ms as int,
        )
    }

    /// The search around `coarse` ends.
    pub open spec fn fine_search_ends(&self, timeline_a: FingerprintTimeline, coarse: int) -> bool {
        &&& i32::MIN <= coarse - self.search_step_ms <= i32::MAX
        &&& i32::MIN <= coarse + self.search_step_ms <= i32::MAX
        &&& steps_end(
            coarse - self.search_step_ms,
            coarse + self.search_step_ms,
            at_least_hundred(timeline_a.sample_interval_ms as int),
        )
    }

    /// The offset that the coarse search settles on.
    pub open spec fn coarse_best(&self, scores: Seq<Score>) -> i32 {
        offset_at(self.coarse_offsets(), best_of(scores, scores.len() as int), 0)
    }

    /// The offsets that are tried first: from the greatest one backwards to the greatest one
    /// forwards.
    pub fn search_offsets(&self) -> (r: Vec<i32>)
        requires
            self.coarse_search_ends(),
        ensures
            r@ == self.coarse_offsets(),
    {
        stepped(-self.max_offset_ms, self.max_offset_ms as i64, self.search_step_ms)
    }

    /// The offsets that are tried around the one that the coarse search settled on.
    pub fn refine_offsets(&self, timeline_a: &FingerprintTimeline, coarse_offset: i32) -> (r: Vec<
        i32,
    >)
        requires
            self.fine_search_ends(*timeline_a, coarse_offset as int),
        ensures
            r@ == self.fine_offsets(*timeline_a, coarse_offset as int),
    {
        let fine_step: i32 = if timeline_a.sample_interval_ms >= 100 {
            timeline_a.sample_interval_ms
        } else {
            100
        };
        let near = stepped(
            coarse_offset - self.search_step_ms,
            (coarse_offset + self.search_step_ms) as i64,
            fine_step,
        );
        let mut out: Vec<i32> = Vec::new();
        for i in 0..near.len()
            invariant
                out@ == up_to(near@, self.max_offset_ms as int, i as int),
        {
            if near[i] as i64 >= -(self.max_offset_ms as i64) && near[i] <= self.max_offset_ms {
                out.push(near[i]);
            }
        }
        out
    }

    /// Pairs the samples of the first timeline with their counterparts in the second, to which
    /// `offset` is added. How well the offset fits is the mean similarity of these pairs.
    pub fn score_alignment(
        &self,
        timeline_a: &FingerprintTimeline,
        timeline_b: &FingerprintTimeline,
        offset: i32,
    ) -> (pairs: Vec<SamplePair>)
        requires
            can_pair(timeline_a.samples@, *timeline_b, offset as int),
        ensures
            are_pairs(
                pairs@,
                timeline_a.samples@,
                *timeline_b,
                offset as int,
                timeline_a.samples@.len() as int,
            ),
    {
        let mut pairs: Vec<SamplePair> = Vec::new();
        let ghost a = timeline_a.samples@;
        let ghost b = *timeline_b;
        let ghost o = offset as int;
        for i in 0..timeline_a.samples.len()
            invariant
                a == timeline_a.samples@,
                b == *timeline_b,
                o == offset,
                can_pair(a, b, o),
                are_pairs(pairs@, a, b, o, i as int),
        {
            let ghost before = pairs@;
            assert(i32::MIN <= a[i as int].timestamp_ms - offset <= i32::MAX);
            let target_ts: i32 = timeline_a.samples[i].timestamp_ms - offset;
            let mut paired: bool = false;
            if let Some(j) = timeline_b.nearest(target_ts) {
                let there: i32 = timeline_b.samples[j].timestamp_ms;
                if gap(there, target_ts) <= timeline_b.sample_interval_ms {
                    assert(is_counterpart(a, b, o, i as int, j as int));
                    let comparison = hash_similarity(
                        &timeline_a.samples[i].hash,
                        &timeline_b.samples[j].hash,
                    );
                    pairs.push(SamplePair { index_a: i, index_b: j, comparison });
                    paired = true;
                    assert(pairs@[before.len() as int].index_a == i);
                } else {
                    assert forall|k: int| !(#[trigger] is_counterpart(a, b, o, i as int, k)) by {
                        if is_counterpart(a, b, o, i as int, k) {
                            super::traits::nearest_is_unique(
                                b.samples@,
                                target_ts as int,
                                j as int,
                                k,
                            );
                        }
                    }
                }
            }
            assert forall|l: int, k: int|
                l < i + 1 && #[trigger] is_counterpart(a, b, o, l, k) implies has_pair(
                pairs@,
                l,
            ) by {
                if l < i {
                    assert(has_pair(before, l));
                    let p = choose|p: int|
                        0 <= p < before.len() && (#[trigger] before[p]).index_a == l;
                    assert(pairs@[p].index_a == l);
                }
            }
        }
        pairs
    }

    /// The pairs of samples that match, given how similar each pair is.
    pub fn matching_samples(
        &self,
        pairs: &Vec<SamplePair>,
        similarities: &Vec<Score>,
    ) -> (r: Vec<(usize, usize, Score)>)
        requires
            pairs@.len() == similarities@.len(),
        ensures
            r@ == reaching(
                similarities@,
                self.match_threshold,
                similarities@.len() as int,
            ).map_values(|k: int| (pairs@[k].index_a, pairs@[k].index_b, similarities@[k])),
    {
        let mut out: Vec<(usize, usize, Score)> = Vec::new();
        let ghost pick = |k: int| (pairs@[k].index_a, pairs@[k].index_b, similarities@[k]);
        for i in 0..pairs.len()
            invariant
                pairs@.len() == similarities@.len(),
                pick == (|k: int| (pairs@[k].index_a, pairs@[k].index_b, similarities@[k])),
                out@ == reaching(similarities@, self.match_threshold, i as int).map_values(pick),
        {
            let ghost chosen = reaching(similarities@, self.match_threshold, i as int);
            if similarities[i].ge(self.match_threshold) {
                out.push((pairs[i].index_a, pairs[i].index_b, similarities[i]));
                assert(chosen.push(i as int).map_values(pick) =~= chosen.map_values(pick).push(
                    pick(i as int),
                ));
            }
        }
        out
    }

    /// Neither search settles on an offset that is greater than the maximum in either direction.
    pub proof fn offset_is_bounded(
        self,
        timeline_a: FingerprintTimeline,
        coarse: Seq<Score>,
        fine: Seq<Score>,
    )
        requires
            self.max_offset_ms >= 0,
            self.coarse_search_ends(),
            coarse.len() == self.coarse_offsets().len(),
            fine.len() == self.fine_offsets(timeline_a, self.coarse_best(coarse) as int).len(),
        ensures
            -self.max_offset_ms <= self.coarse_best(coarse) <= self.max_offset_ms,
            -self.max_offset_ms <= offset_at(
                self.fine_offsets(timeline_a, self.coarse_best(coarse) as int),
                best_of(fine, fine.len() as int),
                self.coarse_best(coarse),
            ) <= self.max_offset_ms,
    {
        let most = self.max_offset_ms as int;
        if let Some(i) = best_of(coarse, coarse.len() as int) {
            best_is_the_greatest(coarse, coarse.len() as int, 0);
            lemma_steps_lie_between(-most, most, self.search_step_ms as int, i);
        }
        if let Some(i) = best_of(fine, fine.len() as int) {
            best_is_the_greatest(fine, fine.len() as int, 0);
            let near = self.near_offsets(timeline_a, self.coarse_best(coarse) as int);
            lemma_up_to_is_bounded(near, most, near.len() as int, i);
        }
    }

    /// The offset that the coarse search settles on: the one with the greatest score, the first
    /// where there are several, and none where no score is above zero.
    pub fn coarse_offset(&self, scores: &Vec<Score>) -> (r: i32)
        requires
            self.coarse_search_ends(),
            scores@.len() == self.coarse_offsets().len(),
        ensures
            r == self.coarse_best(scores@),
    {
        match find_best(scores) {
            Some(i) => self.search_offsets()[i],
            None => 0,
        }
    }

    /// The offset that the search around `coarse_offset` settles on, given how well each offset
    /// fits.
    pub fn refine_offset(
        &self,
        timeline_a: &FingerprintTimeline,
        coarse_offset: i32,
        scores: &Vec<Score>,
    ) -> (r: i32)
        requires
            self.fine_search_ends(*timeline_a, coarse_offset as int),
            scores@.len() == self.fine_offsets(*timeline_a, coarse_offset as int).len(),
        ensures
            r == offset_at(
                self.fine_offsets(*timeline_a, coarse_offset as int),
                best_of(scores@, scores@.len() as int),
                coarse_offset,
            ),
    {
        match find_best(scores) {
            Some(i) => self.refine_offsets(timeline_a, coarse_offset)[i],
            None => coarse_offset,
        }
    }

    /// The alignment of two timelines, given how well each of the coarse offsets fits and how well
    /// each of the offsets around the best of them fits. The confidence and the matches are those
    /// of the best coarse offset.
    pub fn align(
        &self,
        timeline_a: &FingerprintTimeline,
        coarse: &Vec<ScoredOffset>,
        fine: &Vec<Score>,
    ) -> (r: TimelineAlignment)
        requires
            self.coarse_search_ends(),
            coarse@.len() == self.coarse_offsets().len(),
            self.fine_search_ends(*timeline_a, self.coarse_best(scores_of(coarse@)) as int),
            fine@.len() == self.fine_offsets(
                *timeline_a,
                self.coarse_best(scores_of(coarse@)) as int,
            ).len(),
        ensures
            ({
                let scores = scores_of(coarse@);
                let best = best_of(scores, scores.len() as int);
                let start = self.coarse_best(scores);
                &&& r.offset_ms == offset_at(
                    self.fine_offsets(*timeline_a, start as int),
                    best_of(fine@, fine@.len() as int),
                    start,
                )
                &&& r.confidence == score_of(scores, best)
                &&& r.matched_samples@ == match best {
                    Some(i) => coarse@[i].matches@,
                    None => Seq::empty(),
                }
            }),
            self.max_offset_ms >= 0 ==> -self.max_offset_ms <= r.offset_ms <= self.max_offset_ms,
    {
        let mut scores: Vec<Score> = Vec::new();
        for i in 0..coarse.len()
            invariant
                scores@ == scores_of(coarse@).take(i as int),
        {
            scores.push(coarse[i].score);
            assert(scores@ =~= scores_of(coarse@).take(i + 1));
        }
        assert(scores@ =~= scores_of(coarse@));
        let start: i32 = self.coarse_offset(&scores);
        let offset_ms: i32 = self.refine_offset(timeline_a, start, fine);
        proof {
            if self.max_offset_ms >= 0 {
                self.offset_is_bounded(*timeline_a, scores@, fine@);
            }
        }
        match find_best(&scores) {
            Some(i) => {
                let matches = &coarse[i].matches;
                let mut matched_samples: Vec<(usize, usize, Score)> = Vec::new();
                for k in 0..matches.len()
                    invariant
                        matched_samples@ == matches@.take(k as int),
                {
                    matched_samples.push(matches[k]);
                }
                TimelineAlignment { offset_ms, confidence: scores[i], matched_samples }
            },
            None => TimelineAlignment {
                offset_ms,
                confidence: Score::zero(),
                matched_samples: Vec::new(),
            },
        }
    }
}

/// Matches content by comparing fingerprint timelines.
#[derive(Debug, Clone, Copy)]
pub struct FingerprintContentMatcher {
    pub aligner: CrossCorrelationAligner,
    /// Minimum percentage of samples that must match.
    pub min_match_ratio: Score,
    /// Similarity threshold for individual samples.
    pub similarity_threshold: Score,
}

impl Default for FingerprintContentMatcher {
    fn default() -> (r: Self)
        ensures
            r.aligner.max_offset_ms == 300_000,
            r.aligner.search_step_ms == 1000,
            r.aligner.match_threshold.bits == EIGHTY_FIVE_PERCENT,
            r.min_match_ratio.bits == SIX_TENTHS,
            r.similarity_threshold.bits == EIGHTY_FIVE_PERCENT,
    {
        FingerprintContentMatcher {
            aligner: CrossCorrelationAligner::default(),
            min_match_ratio: Score::from_bits(SIX_TENTHS),
            similarity_threshold: Score::from_bits(EIGHTY_FIVE_PERCENT),
        }
    }
}

impl FingerprintContentMatcher {
    /// The number of samples that match and the number of samples of the shorter timeline. The
    /// match ratio is the quotient of the two.
    pub fn match_counts(
        timeline_a: &FingerprintTimeline,
        timeline_b: &FingerprintTimeline,
        alignment: &TimelineAlignment,
    ) -> (r: (usize, usize))
        ensures
            r.0 == alignment.matched_samples@.len(),
            r.1 == shorter_len(*timeline_a, *timeline_b),
    {
        let shorter: usize = if timeline_a.samples.len() <= timeline_b.samples.len() {
            timeline_a.samples.len()
        } else {
            timeline_b.samples.len()
        };
        (alignment.matched_samples.len(), shorter)
    }

    /// Two timelines show the same content: neither is empty, enough of the samples of the shorter
    /// one match, and the alignment is certain enough.
    pub open spec fn recognizes(
        self,
        timeline_a: FingerprintTimeline,
        timeline_b: FingerprintTimeline,
        alignment: TimelineAlignment,
        match_ratio: Score,
    ) -> bool {
        &&& shorter_len(timeline_a, timeline_b) > 0
        &&& match_ratio.at_least(self.min_match_ratio)
        &&& alignment.confidence.at_least(self.similarity_threshold)
    }

    /// Whether two timelines show the same content, given their alignment, the part of the samples
    /// of the shorter one that match, and the product of that part and the confidence of the
    /// alignment. Timelines of which one is empty have no such part, and never match.
    pub fn matches(
        &self,
        timeline_a: &FingerprintTimeline,
        timeline_b: &FingerprintTimeline,
        alignment: TimelineAlignment,
        match_ratio: Score,
        confidence: Score,
    ) -> (r: ContentMatch)
        ensures
            r.is_match == self.recognizes(*timeline_a, *timeline_b, alignment, match_ratio),
            r.confidence == confidence,
            r.alignment == Some(alignment),
    {
        let is_match: bool = timeline_a.samples.len() > 0 && timeline_b.samples.len() > 0
            && match_ratio.ge(self.min_match_ratio) && alignment.confidence.ge(
            self.similarity_threshold,
        );
        ContentMatch { is_match, confidence, alignment: Some(alignment) }
    }

    /// Timelines of which one is empty never match, and neither do timelines whose match ratio is
    /// not a number.
    pub proof fn empty_timelines_never_match(
        self,
        timeline_a: FingerprintTimeline,
        timeline_b: FingerprintTimeline,
        alignment: TimelineAlignment,
        match_ratio: Score,
    )
        requires
            timeline_a.samples@.len() == 0 || timeline_b.samples@.len() == 0
                || match_ratio.is_nan(),
        ensures
            !self.recognizes(timeline_a, timeline_b, alignment, match_ratio),
    {
    }
}

/// The number of samples of the shorter of two timelines.
pub open spec fn shorter_len(a: FingerprintTimeline, b: FingerprintTimeline) -> nat {
    if a.samples@.len() <= b.samples@.len() {
        a.samples@.len()
    } else {
        b.samples@.len()
    }
}

/// Types of recognizable patterns.
#[derive(Debug, Clone, Copy, PartialEq, Eq, Structural)]
pub enum PatternType {
    Commercial,
    Intro,
    Outro,
    Recap,
    Preview,
}

/// Database of known pattern fingerprints for recognition.
#[derive(Debug, Clone)]
pub struct KnownPattern {
    pub id: u128,
    pub pattern_type: PatternType,
    pub name: Option<String>,
    /// For series-specific patterns (intros, outros, recaps).
    pub series_title: Option<String>,
    pub duration_ms: i32,
    pub timeline: FingerprintTimeline,
    pub detection_count: i32,
    pub first_seen: Timestamp,
    pub last_seen: Timestamp,
}

/// A place where a known pattern was recognized.
#[derive(Debug, Clone, Copy, PartialEq, Eq, Structural)]
pub struct PatternMatch {
    pub pattern_id: u128,
    pub pattern_type: PatternType,
    pub start_ms: i32,
    pub end_ms: i32,
    pub confidence: Score,
}

/// Detects patterns by matching against a database of known patterns.
#[derive(Debug, Clone, Copy)]
pub struct PatternDetector {
    pub matcher: FingerprintContentMatcher,
    /// Minimum duration to consider a potential pattern.
    pub min_duration_ms: i32,
    /// Maximum duration for a single pattern.
    pub max_duration_ms: i32,
}

impl Default for PatternDetector {
    fn default() -> (r: Self)
        ensures
            r.matcher.aligner.max_offset_ms == 300_000,
            r.matcher.aligner.search_step_ms == 1000,
            r.matcher.aligner.match_threshold.bits == EIGHTY_FIVE_PERCENT,
            r.matcher.min_match_ratio.bits == SIX_TENTHS,
            r.matcher.similarity_threshold.bits == EIGHTY_FIVE_PERCENT,
            r.min_duration_ms == 5_000,
            r.max_duration_ms == 300_000,
    {
        PatternDetector {
            matcher: FingerprintContentMatcher::default(),
            min_duration_ms: 5_000,
            max_duration_ms: 300_000,
        }
    }
}

/// A sample as its point in time and its hash.
pub open spec fn sample_view(s: FingerprintSample) -> (int, Seq<u8>) {
    (s.timestamp_ms as int, s.hash@)
}

/// Samples as their points in time and their hashes.
pub open spec fn sample_views(samples: Seq<FingerprintSample>) -> Seq<(int, Seq<u8>)> {
    samples.map_values(|s: FingerprintSample| sample_view(s))
}

/// The first `n` samples that lie from `start` on and before `end`, counted from `start`.
pub open spec fn window_of(
    samples: Seq<FingerprintSample>,
    start: int,
    end: int,
    n: int,
) -> Seq<(int, Seq<u8>)>
    decreases n,
{
    if n <= 0 {
        Seq::empty()
    } else {
        let before = window_of(samples, start, end, n - 1);
        let s = samples[n - 1];
        if start <= s.timestamp_ms < end {
            before.push((s.timestamp_ms - start, s.hash@))
        } else {
            before
        }
    }
}

/// The positions at which a pattern of length `pattern` is looked for in content of length
/// `content`.
pub open spec fn window_starts(content: int, pattern: int, step: int) -> Seq<i32> {
    steps(0, content - pattern, step)
}

/// The search for a pattern ends: the steps are positive, and the end of the window behind the last
/// one can be computed.
pub open spec fn pattern_search_ends(content: int, pattern: int, step: int) -> bool {
    pattern <= content ==> {
        &&& step > 0
        &&& step * ((content - pattern) / step + 1) <= i32::MAX
        &&& step * ((content - pattern) / step + 1) + pattern <= i32::MAX
    }
}

/// The best of the first `n` windows: one that matches and is more confident than all matching ones
/// before it.
pub open spec fn best_window(results: Seq<ContentMatch>, n: int) -> Option<int>
    decreases n,
{
    if n <= 0 {
        None
    } else {
        let before = best_window(results, n - 1);
        let better = match before {
            None => true,
            Some(b) => results[n - 1].confidence.above(results[b].confidence),
        };
        if results[n - 1].is_match && better {
            Some(n - 1)
        } else {
            before
        }
    }
}

/// Two matches have a stretch of the timeline in common.
pub open spec fn overlap(a: PatternMatch, b: PatternMatch) -> bool {
    a.start_ms < b.end_ms && a.end_ms > b.start_ms
}

/// `m` has a stretch in common with one of `list`.
pub open spec fn overlaps_any(list: Seq<PatternMatch>, m: PatternMatch) -> bool {
    exists|i: int| 0 <= i < list.len() && overlap(m, #[trigger] list[i])
}

/// The first `n` matches without those that overlap an earlier one that stays.
pub open spec fn without_overlaps(matches: Seq<PatternMatch>, n: int) -> Seq<PatternMatch>
    decreases n,
{
    if n <= 0 {
        Seq::empty()
    } else {
        let before = without_overlaps(matches, n - 1);
        if overlaps_any(before, matches[n - 1]) {
            before
        } else {
            before.push(matches[n - 1])
        }
    }
}

/// The results of the wanted ones among the first `n` patterns.
pub open spec fn wanted_results(
    found: Seq<Option<PatternMatch>>,
    wanted: spec_fn(int) -> bool,
    n: int,
) -> Seq<Option<PatternMatch>>
    decreases n,
{
    if n <= 0 {
        Seq::empty()
    } else {
        let before = wanted_results(found, wanted, n - 1);
        if wanted(n - 1) {
            before.push(found[n - 1])
        } else {
            before
        }
    }
}

/// What matches are sorted by: the point in time at which they begin.
pub open spec fn start_keys(matches: Seq<PatternMatch>) -> Seq<SortKey> {
    matches.map_values(
        |m: PatternMatch| SortKey { first: m.start_ms as i64, second: 0, third: 0 },
    )
}

/// `sorted` are the matches by the point in time at which they begin; matches that begin together
/// keep their order.
pub open spec fn sorted_by_start(matches: Seq<PatternMatch>, sorted: Seq<PatternMatch>) -> bool {
    exists|order: Seq<usize>| #[trigger]
        is_stable_order(start_keys(matches), order) && sorted == order.map_values(
            |i: usize| matches[i as int],
        )
}

/// `r` are the given matches in order, without overlaps.
pub open spec fn resolves(matches: Seq<PatternMatch>, r: Seq<PatternMatch>) -> bool {
    exists|sorted: Seq<PatternMatch>| #[trigger]
        sorted_by_start(matches, sorted) && r == without_overlaps(sorted, sorted.len() as int)
}

/// A pattern that belongs to the given series.
pub open spec fn of_series(pattern: KnownPattern, series_title: Seq<char>) -> bool {
    pattern.series_title matches Some(title) && title@ == series_title
}

impl PatternDetector {
    /// A pattern of the given length is considered.
    pub open spec fn considers(self, duration: int) -> bool {
        self.min_duration_ms <= duration <= self.max_duration_ms
    }

    /// The positions at which a pattern is looked for: none where it is longer than the content or
    /// is not considered.
    pub open spec fn places(self, content: int, pattern: int, step: int) -> Seq<i32> {
        if self.considers(pattern) {
            window_starts(content, pattern, step)
        } else {
            Seq::empty()
        }
    }

    /// The search for a pattern ends, where there is one.
    pub open spec fn search_ends(self, content: int, pattern: int, step: int) -> bool {
        self.considers(pattern) ==> pattern_search_ends(content, pattern, step)
    }

    /// The matches among the first `n` results whose pattern is wanted and considered.
    pub open spec fn wanted_matches(
        self,
        found: Seq<Option<PatternMatch>>,
        wanted: spec_fn(int) -> bool,
        n: int,
    ) -> Seq<PatternMatch>
        decreases n,
    {
        if n <= 0 {
            Seq::empty()
        } else {
            let before = self.wanted_matches(found, wanted, n - 1);
            match found[n - 1] {
                Some(m) => if wanted(n - 1) && self.considers(m.end_ms - m.start_ms) {
                    before.push(m)
                } else {
                    before
                },
                None => before,
            }
        }
    }

    /// Every one of the matches has a length that is considered.
    pub open spec fn considers_all(self, matches: Seq<PatternMatch>) -> bool {
        forall|k: int|
            0 <= k < matches.len() ==> self.min_duration_ms <= (#[trigger] matches[k]).end_ms
                - matches[k].start_ms <= self.max_duration_ms
    }

    /// Tests whether a match has a length that is considered.
    fn takes(&self, m: PatternMatch) -> (r: bool)
        ensures
            r == self.considers(m.end_ms - m.start_ms),
    {
        let duration: i64 = m.end_ms as i64 - m.start_ms as i64;
        self.min_duration_ms as i64 <= duration && duration <= self.max_duration_ms as i64
    }

    proof fn lemma_wanted_are_considered(
        self,
        found: Seq<Option<PatternMatch>>,
        wanted: spec_fn(int) -> bool,
        n: int,
    )
        ensures
            self.considers_all(self.wanted_matches(found, wanted, n)),
        decreases n,
    {
        if n > 0 {
            self.lemma_wanted_are_considered(found, wanted, n - 1);
        }
    }

    proof fn lemma_kept_are_considered(self, matches: Seq<PatternMatch>, n: int)
        requires
            self.considers_all(matches),
            0 <= n <= matches.len(),
        ensures
            self.considers_all(without_overlaps(matches, n)),
        decreases n,
    {
        if n > 0 {
            self.lemma_kept_are_considered(matches, n - 1);
        }
    }

    /// Matches of lengths that are considered keep such lengths when they are put in order and
    /// overlaps are removed.
    proof fn lemma_resolved_are_considered(self, matches: Seq<PatternMatch>, r: Seq<PatternMatch>)
        requires
            resolves(matches, r),
            self.considers_all(matches),
        ensures
            self.considers_all(r),
    {
        let sorted = choose|sorted: Seq<PatternMatch>| #[trigger]
            sorted_by_start(matches, sorted) && r == without_overlaps(sorted, sorted.len() as int);
        let order = choose|order: Seq<usize>| #[trigger]
            is_stable_order(start_keys(matches), order) && sorted == order.map_values(
                |i: usize| matches[i as int],
            );
        assert forall|k: int| 0 <= k < sorted.len() implies self.min_duration_ms <= (
        #[trigger] sorted[k]).end_ms - sorted[k].start_ms <= self.max_duration_ms by {
            assert(order[k] < matches.len());
            assert(sorted[k] == matches[order[k] as int]);
        }
        self.lemma_kept_are_considered(sorted, sorted.len() as int);
    }

    /// Looking for some of the known patterns finds what looking for all patterns finds where only
    /// those are known.
    pub proof fn wanted_patterns_are_found_alone(
        self,
        found: Seq<Option<PatternMatch>>,
        wanted: spec_fn(int) -> bool,
        r: Seq<PatternMatch>,
    )
        ensures
            ({
                let alone = wanted_results(found, wanted, found.len() as int);
                resolves(self.wanted_matches(found, wanted, found.len() as int), r) <==> resolves(
                    self.wanted_matches(alone, |i: int| true, alone.len() as int),
                    r,
                )
            }),
    {
        self.lemma_wanted_alone(found, wanted, found.len() as int);
    }

    proof fn lemma_wanted_alone(
        self,
        found: Seq<Option<PatternMatch>>,
        wanted: spec_fn(int) -> bool,
        n: int,
    )
        requires
            0 <= n <= found.len(),
        ensures
            self.wanted_matches(found, wanted, n) == self.wanted_matches(
                wanted_results(found, wanted, n),
                |i: int| true,
                wanted_results(found, wanted, n).len() as int,
            ),
        decreases n,
    {
        if n > 0 {
            self.lemma_wanted_alone(found, wanted, n - 1);
            if wanted(n - 1) {
                let before = wanted_results(found, wanted, n - 1);
                let all = |i: int| true;
                self.lemma_wanted_of_front(
                    before,
                    before.push(found[n - 1]),
                    all,
                    before.len() as int,
                );
            }
        }
    }

    proof fn lemma_wanted_of_front(
        self,
        a: Seq<Option<PatternMatch>>,
        b: Seq<Option<PatternMatch>>,
        wanted: spec_fn(int) -> bool,
        n: int,
    )
        requires
            n <= a.len(),
            n <= b.len(),
            forall|i: int| 0 <= i < n ==> a[i] == b[i],
        ensures
            self.wanted_matches(a, wanted, n) == self.wanted_matches(b, wanted, n),
        decreases n,
    {
        if n > 0 {
            self.lemma_wanted_of_front(a, b, wanted, n - 1);
        }
    }

    /// Puts matches in order and removes overlaps.
    fn resolve(&self, matches: Vec<PatternMatch>) -> (r: Vec<PatternMatch>)
        ensures
            resolves(matches@, r@),
    {
        let mut keys: Vec<SortKey> = Vec::new();
        for i in 0..matches.len()
            invariant
                keys@ == start_keys(matches@).take(i as int),
        {
            keys.push(SortKey { first: matches[i].start_ms as i64, second: 0, third: 0 });
            assert(keys@ =~= start_keys(matches@).take(i + 1));
        }
        assert(keys@ =~= start_keys(matches@));
        let order = stable_order(&keys);
        let mut sorted: Vec<PatternMatch> = Vec::new();
        let ghost whole = order@.map_values(|i: usize| matches@[i as int]);
        for k in 0..order.len()
            invariant
                is_stable_order(start_keys(matches@), order@),
                whole == order@.map_values(|i: usize| matches@[i as int]),
                sorted@ == whole.take(k as int),
        {
            assert(order@[k as int] < matches@.len());
            sorted.push(matches[order[k]]);
            assert(sorted@ =~= whole.take(k + 1));
        }
        assert(sorted@ =~= whole);
        assert(sorted_by_start(matches@, sorted@));
        self.remove_overlapping_matches(sorted)
    }

    /// The places where known patterns were recognized, in order and without overlaps, given for
    /// each known pattern where it was recognized.
    pub fn find_patterns(&self, found: &Vec<Option<PatternMatch>>) -> (r: Vec<PatternMatch>)
        ensures
            resolves(self.wanted_matches(found@, |i: int| true, found@.len() as int), r@),
            self.considers_all(r@),
    {
        let mut matches: Vec<PatternMatch> = Vec::new();
        let ghost all = |i: int| true;
        for i in 0..found.len()
            invariant
                all == (|i: int| true),
                matches@ == self.wanted_matches(found@, all, i as int),
        {
            if let Some(m) = found[i] {
                if self.takes(m) {
                    matches.push(m);
                }
            }
        }
        let ghost wanted = matches@;
        let r = self.resolve(matches);
        proof {
            self.lemma_wanted_are_considered(found@, all, found@.len() as int);
            self.lemma_resolved_are_considered(wanted, r@);
        }
        r
    }

    /// The places where known patterns of one type were recognized.
    pub fn find_patterns_of_type(
        &self,
        known: &[KnownPattern],
        found: &Vec<Option<PatternMatch>>,
        pattern_type: &PatternType,
    ) -> (r: Vec<PatternMatch>)
        requires
            known@.len() == found@.len(),
        ensures
            resolves(
                self.wanted_matches(
                    found@,
                    |i: int| known@[i].pattern_type == *pattern_type,
                    found@.len() as int,
                ),
                r@,
            ),
            self.considers_all(r@),
    {
        let mut matches: Vec<PatternMatch> = Vec::new();
        let ghost wanted = |i: int| known@[i].pattern_type == *pattern_type;
        for i in 0..found.len()
            invariant
                known@.len() == found@.len(),
                wanted == (|i: int| known@[i].pattern_type == *pattern_type),
                matches@ == self.wanted_matches(found@, wanted, i as int),
        {
            if let Some(m) = found[i] {
                if known[i].pattern_type == *pattern_type && self.takes(m) {
                    matches.push(m);
                }
            }
        }
        let ghost all = matches@;
        let r = self.resolve(matches);
        proof {
            self.lemma_wanted_are_considered(found@, wanted, found@.len() as int);
            self.lemma_resolved_are_considered(all, r@);
        }
        r
    }

    /// The places where known patterns of one series were recognized.
    pub fn find_series_patterns(
        &self,
        known: &[KnownPattern],
        found: &Vec<Option<PatternMatch>>,
        series_title: &str,
    ) -> (r: Vec<PatternMatch>)
        requires
            known@.len() == found@.len(),
        ensures
            resolves(
                self.wanted_matches(
                    found@,
                    |i: int| of_series(known@[i], series_title@),
                    found@.len() as int,
                ),
                r@,
            ),
            self.considers_all(r@),
    {
        let mut matches: Vec<PatternMatch> = Vec::new();
        let ghost wanted = |i: int| of_series(known@[i], series_title@);
        for i in 0..found.len()
            invariant
                known@.len() == found@.len(),
                wanted == (|i: int| of_series(known@[i], series_title@)),
                matches@ == self.wanted_matches(found@, wanted, i as int),
        {
            if let Some(m) = found[i] {
                if let Some(title) = &known[i].series_title {
                    if same(title, series_title) && self.takes(m) {
                        matches.push(m);
                    }
                }
            }
        }
        let ghost all = matches@;
        let r = self.resolve(matches);
        proof {
            self.lemma_wanted_are_considered(found@, wanted, found@.len() as int);
            self.lemma_resolved_are_considered(all, r@);
        }
        r
    }

    /// The positions at which a pattern is looked for; none where the pattern is longer than the
    /// timeline, or shorter or longer than what is considered.
    pub fn window_positions(
        &self,
        timeline: &FingerprintTimeline,
        pattern_duration: i32,
    ) -> (r: Vec<i32>)
        requires
            self.search_ends(
                duration_of(timeline.samples@) as int,
                pattern_duration as int,
                timeline.sample_interval_ms as int,
            ),
        ensures
            r@ == self.places(
                duration_of(timeline.samples@) as int,
                pattern_duration as int,
                timeline.sample_interval_ms as int,
            ),
    {
        if pattern_duration < self.min_duration_ms || pattern_duration > self.max_duration_ms {
            return Vec::new();
        }
        let content_duration: i32 = timeline.duration_ms();
        stepped(0, content_duration as i64 - pattern_duration as i64, timeline.sample_interval_ms)
    }

    /// Where a pattern was recognized in a timeline, given whether each window matches it: at the
    /// most confident of the matching windows, the first where there are several. A pattern that is
    /// not considered is not recognized.
    pub fn find_pattern_in_timeline(
        &self,
        timeline: &FingerprintTimeline,
        pattern: &KnownPattern,
        results: &Vec<ContentMatch>,
    ) -> (r: Option<PatternMatch>)
        requires
            self.search_ends(
                duration_of(timeline.samples@) as int,
                pattern.duration_ms as int,
                timeline.sample_interval_ms as int,
            ),
            results@.len() == self.places(
                duration_of(timeline.samples@) as int,
                pattern.duration_ms as int,
                timeline.sample_interval_ms as int,
            ).len(),
        ensures
            match best_window(results@, results@.len() as int) {
                Some(w) => {
                    let start = self.places(
                        duration_of(timeline.samples@) as int,
                        pattern.duration_ms as int,
                        timeline.sample_interval_ms as int,
                    )[w];
                    &&& r matches Some(m)
                    &&& m.pattern_id == pattern.id
                    &&& m.pattern_type == pattern.pattern_type
                    &&& m.start_ms == start
                    &&& m.end_ms == start + pattern.duration_ms
                    &&& m.confidence == results@[w].confidence
                },
                None => r is None,
            },
            !self.considers(pattern.duration_ms as int) ==> r is None,
            r matches Some(m) ==> self.min_duration_ms <= m.end_ms - m.start_ms
                <= self.max_duration_ms,
    {
        let positions = self.window_positions(timeline, pattern.duration_ms);
        let mut best: Option<PatternMatch> = None;
        let ghost mut at: Option<int> = None;
        for i in 0..results.len()
            invariant
                positions@ == self.places(
                    duration_of(timeline.samples@) as int,
                    pattern.duration_ms as int,
                    timeline.sample_interval_ms as int,
                ),
                results@.len() == positions@.len(),
                self.search_ends(
                    duration_of(timeline.samples@) as int,
                    pattern.duration_ms as int,
                    timeline.sample_interval_ms as int,
                ),
                at == best_window(results@, i as int),
                match at {
                    Some(w) => {
                        &&& 0 <= w < i
                        &&& best matches Some(m)
                        &&& m.pattern_id == pattern.id
                        &&& m.pattern_type == pattern.pattern_type
                        &&& m.start_ms == positions@[w]
                        &&& m.end_ms == positions@[w] + pattern.duration_ms
                        &&& m.confidence == results@[w].confidence
                    },
                    None => best is None,
                },
        {
            proof {
                lemma_window_ends_inside(
                    duration_of(timeline.samples@) as int,
                    pattern.duration_ms as int,
                    timeline.sample_interval_ms as int,
                    i as int,
                );
            }
            if results[i].is_match {
                let better: bool = match best {
                    None => true,
                    Some(m) => results[i].confidence.gt(m.confidence),
                };
                if better {
                    best = Some(
                        PatternMatch {
                            pattern_id: pattern.id,
                            pattern_type: pattern.pattern_type,
                            start_ms: positions[i],
                            end_ms: positions[i] + pattern.duration_ms,
                            confidence: results[i].confidence,
                        },
                    );
                }
            }
            proof {
                at = best_window(results@, i + 1);
            }
        }
        best
    }

    /// The part of a timeline that lasts `duration_ms` from `start_ms` on, counted from its own
    /// beginning.
    pub fn extract_window(
        &self,
        timeline: &FingerprintTimeline,
        start_ms: i32,
        duration_ms: i32,
    ) -> (r: FingerprintTimeline)
        requires
            i32::MIN <= start_ms + duration_ms <= i32::MAX,
        ensures
            sample_views(r.samples@) == window_of(
                timeline.samples@,
                start_ms as int,
                start_ms + duration_ms,
                timeline.samples@.len() as int,
            ),
            r.sample_interval_ms == timeline.sample_interval_ms,
    {
        let end_ms: i32 = start_ms + duration_ms;
        let mut samples: Vec<FingerprintSample> = Vec::new();
        for i in 0..timeline.samples.len()
            invariant
                end_ms == start_ms + duration_ms,
                sample_views(samples@) == window_of(
                    timeline.samples@,
                    start_ms as int,
                    end_ms as int,
                    i as int,
                ),
        {
            let timestamp: i32 = timeline.samples[i].timestamp_ms;
            if timestamp >= start_ms && timestamp < end_ms {
                let ghost before = samples@;
                let hash = copy_bytes(&timeline.samples[i].hash);
                samples.push(FingerprintSample { timestamp_ms: timestamp - start_ms, hash });
                assert(sample_views(samples@) =~= sample_views(before).push(
                    (timestamp - start_ms, timeline.samples@[i as int].hash@),
                ));
            }
        }
        FingerprintTimeline { samples, sample_interval_ms: timeline.sample_interval_ms }
    }

    /// Removes every match that overlaps an earlier one that stays.
    pub fn remove_overlapping_matches(&self, matches: Vec<PatternMatch>) -> (r: Vec<PatternMatch>)
        ensures
            r@ == without_overlaps(matches@, matches@.len() as int),
    {
        let mut result: Vec<PatternMatch> = Vec::new();
        for i in 0..matches.len()
            invariant
                result@ == without_overlaps(matches@, i as int),
        {
            let m = matches[i];
            let mut overlaps: bool = false;
            for j in 0..result.len()
                invariant
                    overlaps <==> exists|k: int|
                        0 <= k < j && overlap(m, #[trigger] result@[k]),
            {
                let existing = result[j];
                if m.start_ms < existing.end_ms && m.end_ms > existing.start_ms {
                    assert(overlap(m, result@[j as int]));
                    overlaps = true;
                }
            }
            if !overlaps {
                result.push(m);
            }
        }
        result
    }

    /// A new pattern out of a stretch of a timeline, with the given id, seen once, at the given
    /// point in time.
    pub fn new_pattern(
        &self,
        timeline: &FingerprintTimeline,
        start_ms: i32,
        end_ms: i32,
        pattern_type: PatternType,
        series_title: Option<String>,
        id: u128,
        seen: Timestamp,
    ) -> (r: KnownPattern)
        requires
            i32::MIN <= end_ms - start_ms <= i32::MAX,
        ensures
            r.id == id,
            r.pattern_type == pattern_type,
            r.name is None,
            r.series_title == series_title,
            r.duration_ms == end_ms - start_ms,
            sample_views(r.timeline.samples@) == window_of(
                timeline.samples@,
                start_ms as int,
                end_ms as int,
                timeline.samples@.len() as int,
            ),
            r.timeline.sample_interval_ms == timeline.sample_interval_ms,
            r.detection_count == 1,
            r.first_seen == seen,
            r.last_seen == seen,
    {
        let duration_ms: i32 = end_ms - start_ms;
        KnownPattern {
            id,
            pattern_type,
            name: None,
            series_title,
            duration_ms,
            timeline: self.extract_window(timeline, start_ms, duration_ms),
            detection_count: 1,
            first_seen: seen,
            last_seen: seen,
        }
    }

    /// A new pattern out of a stretch of a timeline, with a random id, seen once, now.
    pub fn extract_pattern(
        &self,
        timeline: &FingerprintTimeline,
        start_ms: i32,
        end_ms: i32,
        pattern_type: PatternType,
        series_title: Option<String>,
    ) -> (r: KnownPattern)
        requires
            i32::MIN <= end_ms - start_ms <= i32::MAX,
        ensures
            is_random_id(r.id),
            r.pattern_type == pattern_type,
            r.name is None,
            r.series_title == series_title,
            r.duration_ms == end_ms - start_ms,
            sample_views(r.timeline.samples@) == window_of(
                timeline.samples@,
                start_ms as int,
                end_ms as int,
                timeline.samples@.len() as int,
            ),
            r.timeline.sample_interval_ms == timeline.sample_interval_ms,
            r.detection_count == 1,
            r.first_seen == r.last_seen,
    {
        let seen = now();
        let id: u128 = new_id();
        self.new_pattern(timeline, start_ms, end_ms, pattern_type, series_title, id, seen)
    }
}

proof fn lemma_window_ends_inside(content: int, pattern: int, step: int, i: int)
    requires
        pattern_search_ends(content, pattern, step),
        -0x8000_0000 <= pattern,
        0 <= i < window_starts(content, pattern, step).len(),
    ensures
        0 <= step * i <= i32::MAX,
        window_starts(content, pattern, step)[i] == step * i,
        step * i + pattern <= content,
{
    let n = (content - pattern) / step;
    assert(step * n <= content - pattern) by (nonlinear_arith)
        requires
            n == (content - pattern) / step,
            step > 0,
    ;
    assert(0 <= step * i <= step * n) by (nonlinear_arith)
        requires
            0 <= i <= n,
            step > 0,
    ;
    assert(step * (n + 1) == step * n + step) by (nonlinear_arith);
}

/// The samples of a dense timeline lie inside the video, in order.
pub proof fn dense_points_lie_inside(duration_ms: i32, interval_ms: i32, i: int, j: int)
    requires
        interval_ms != 0,
        0 <= i < j < dense_points(duration_ms as int, interval_ms as int).len(),
    ensures
        0 <= dense_points(duration_ms as int, interval_ms as int)[i],
        dense_points(duration_ms as int, interval_ms as int)[j] < duration_ms,
        dense_points(duration_ms as int, interval_ms as int)[j] - dense_points(
            duration_ms as int,
            interval_ms as int,
        )[i] == interval_ms * (j - i),
{
    let d = duration_ms as int;
    let s = interval_ms as int;
    let n = (d - 1) / s;
    assert(s * n <= d - 1) by (nonlinear_arith)
        requires
            n == (d - 1) / s,
            s > 0,
    ;
    assert(0 <= s * i && s * i <= s * j && s * j <= s * n && s * j - s * i == s * (j - i))
        by (nonlinear_arith)
        requires
            0 <= i < j <= n,
            s > 0,
    ;
}

/// No two of the matches that stay overlap.
pub proof fn remaining_matches_are_disjoint(matches: Seq<PatternMatch>, n: int, i: int, j: int)
    requires
        0 <= i < j < without_overlaps(matches, n).len(),
    ensures
        !overlap(without_overlaps(matches, n)[j], without_overlaps(matches, n)[i]),
        !overlap(without_overlaps(matches, n)[i], without_overlaps(matches, n)[j]),
    decreases n,
{
    let before = without_overlaps(matches, n - 1);
    if j < before.len() {
        remaining_matches_are_disjoint(matches, n - 1, i, j);
    } else {
        assert(!overlap(matches[n - 1], before[i]));
    }
}

/// A match that does not stay overlaps one that does.
pub proof fn removed_matches_overlap(matches: Seq<PatternMatch>, n: int, i: int)
    requires
        0 <= i < n <= matches.len(),
    ensures
        without_overlaps(matches, n).contains(matches[i]) || overlaps_any(
            without_overlaps(matches, n),
            matches[i],
        ),
    decreases n,
{
    let before = without_overlaps(matches, n - 1);
    let now_kept = without_overlaps(matches, n);
    if i == n - 1 {
        if !overlaps_any(before, matches[i]) {
            assert(now_kept[before.len() as int] == matches[i]);
        }
    } else {
        removed_matches_overlap(matches, n - 1, i);
        if before.contains(matches[i]) {
            let k = choose|k: int| 0 <= k < before.len() && before[k] == matches[i];
            assert(now_kept[k] == matches[i]);
        } else {
            let k = choose|k: int| 0 <= k < before.len() && overlap(matches[i], #[trigger] before[k]);
            assert(overlap(matches[i], now_kept[k]));
        }
    }
}

/// The samples of a window lie inside it.
pub proof fn window_lies_inside(
    samples: Seq<FingerprintSample>,
    start: int,
    end: int,
    n: int,
    i: int,
)
    requires
        0 <= i < window_of(samples, start, end, n).len(),
    ensures
        0 <= window_of(samples, start, end, n)[i].0 < end - start,
    decreases n,
{
    let before = window_of(samples, start, end, n - 1);
    if i < before.len() {
        window_lies_inside(samples, start, end, n - 1, i);
    }
}

/// Stepping starts at the first point, takes in every point that is a whole number of steps behind
/// it, and passes none that is not behind the last one.
pub proof fn steps_take_in_every_point(from: int, to: int, step: int, o: i32)
    requires
        steps_end(from, to, step),
        i32::MIN <= from,
    ensures
        steps(from, to, step).contains(o) <==> from <= o <= to && (o - from) % step == 0,
{
    let all = steps(from, to, step);
    if all.contains(o) {
        let k = choose|k: int| 0 <= k < all.len() && all[k] == o;
        lemma_steps_lie_between(from, to, step, k);
        let n = (to - from) / step;
        assert(0 <= step * k && step * k <= step * (n + 1)) by (nonlinear_arith)
            requires
                0 <= k <= n,
                step > 0,
        ;
        assert(o - from == step * k);
        assert((step * k) % step == 0) by (nonlinear_arith)
            requires
                step > 0,
        ;
    }
    if from <= o <= to && (o - from) % step == 0 {
        let k = (o - from) / step;
        vstd::arithmetic::div_mod::lemma_fundamental_div_mod(o - from, step);
        vstd::arithmetic::div_mod::lemma_div_is_ordered(o - from, to - from, step);
        assert(0 <= k) by (nonlinear_arith)
            requires
                k == (o - from) / step,
                from <= o,
                step > 0,
        ;
        assert(all[k] == o);
    }
}

/// A video is sampled at a point in time if and only if the point lies inside the video and is a
/// multiple of the interval.
pub proof fn multiples_of_the_interval_are_sampled(duration_ms: i32, interval_ms: i32, t: i32)
    requires
        0 < interval_ms,
    ensures
        dense_points(duration_ms as int, interval_ms as int).contains(t) <==> 0 <= t < duration_ms
            && t % interval_ms == 0,
{
    let d = duration_ms as int;
    let s = interval_ms as int;
    let all = dense_points(d, s);
    if duration_ms > 0 {
        let n = (d - 1) / s;
        assert(s * n <= d - 1) by (nonlinear_arith)
            requires
                n == (d - 1) / s,
                s > 0,
        ;
        if all.contains(t) {
            let k = choose|k: int| 0 <= k < all.len() && all[k] == t;
            assert(0 <= s * k && s * k <= s * n) by (nonlinear_arith)
                requires
                    0 <= k <= n,
                    s > 0,
            ;
            assert((s * k) % s == 0) by (nonlinear_arith)
                requires
                    s > 0,
            ;
        }
        if 0 <= t < duration_ms && t % interval_ms == 0 {
            let k = t as int / s;
            vstd::arithmetic::div_mod::lemma_fundamental_div_mod(t as int, s);
            vstd::arithmetic::div_mod::lemma_div_is_ordered(t as int, d - 1, s);
            assert(0 <= k) by (nonlinear_arith)
                requires
                    k == t as int / s,
                    0 <= t,
                    s > 0,
            ;
            assert(all[k] == t);
        }
    }
}

proof fn lemma_up_to_holds(offsets: Seq<i32>, most: int, n: int, o: i32)
    requires
        0 <= n <= offsets.len(),
    ensures
        up_to(offsets, most, n).contains(o) <==> offsets.take(n).contains(o) && -most <= o <= most,
    decreases n,
{
    if n > 0 {
        lemma_up_to_holds(offsets, most, n - 1, o);
        let before = up_to(offsets, most, n - 1);
        let here = offsets[n - 1];
        let now = up_to(offsets, most, n);
        let front = offsets.take(n - 1);
        assert(offsets.take(n) =~= front.push(here));
        if now.contains(o) {
            let k = choose|k: int| 0 <= k < now.len() && now[k] == o;
            if k < before.len() {
                assert(before[k] == o);
            } else {
                assert(offsets.take(n)[n - 1] == o);
            }
            if front.contains(o) {
                let l = choose|l: int| 0 <= l < front.len() && front[l] == o;
                assert(offsets.take(n)[l] == o);
            }
        }
        if offsets.take(n).contains(o) && -most <= o <= most {
            let l = choose|l: int| 0 <= l < n && offsets.take(n)[l] == o;
            if l < n - 1 {
                assert(front[l] == o);
                let k = choose|k: int| 0 <= k < before.len() && before[k] == o;
                assert(now[k] == o);
            } else {
                assert(now[before.len() as int] == o);
            }
        }
    }
}

impl CrossCorrelationAligner {
    /// The coarse search tries the offsets that lie between the greatest one backwards and the
    /// greatest one forwards, a whole number of steps from the former.
    pub proof fn coarse_search_covers_both_directions(self, o: i32)
        requires
            self.coarse_search_ends(),
        ensures
            self.coarse_offsets().contains(o) <==> -self.max_offset_ms <= o <= self.max_offset_ms
                && (o + self.max_offset_ms) % self.search_step_ms as int == 0,
    {
        steps_take_in_every_point(
            -self.max_offset_ms,
            self.max_offset_ms as int,
            self.search_step_ms as int,
            o,
        );
    }

    /// The fine search tries the offsets up to one coarse step to either side, at the distance of
    /// the samples of the first timeline, though not closer than a hundred, and none that is greater
    /// than the maximum.
    pub proof fn fine_search_covers_a_step(
        self,
        timeline_a: FingerprintTimeline,
        coarse: int,
        width: int,
        o: i32,
    )
        requires
            self.fine_search_ends(timeline_a, coarse),
            width == timeline_a.sample_interval_ms || width == 100,
            width >= 100,
            width >= timeline_a.sample_interval_ms,
        ensures
            self.fine_offsets(timeline_a, coarse).contains(o) <==> {
                &&& -self.search_step_ms <= o - coarse <= self.search_step_ms
                &&& (o - coarse + self.search_step_ms) % width == 0
                &&& -self.max_offset_ms <= o <= self.max_offset_ms
            },
    {
        let near = self.near_offsets(timeline_a, coarse);
        lemma_up_to_holds(near, self.max_offset_ms as int, near.len() as int, o);
        assert(near.take(near.len() as int) =~= near);
        assert(width == at_least_hundred(timeline_a.sample_interval_ms as int));
        steps_take_in_every_point(
            coarse - self.search_step_ms,
            coarse + self.search_step_ms,
            width,
            o,
        );
    }
}

/// A sample has a counterpart if and only if a sample of the second timeline, moved by the offset,
/// is no further away from it than the interval between samples there. The counterpart is one that
/// lies nearest after the move.
pub proof fn counterparts_lie_close(
    a: Seq<FingerprintSample>,
    b: FingerprintTimeline,
    offset: int,
    i: int,
    l: int,
)
    requires
        0 <= i < a.len(),
        0 <= l < b.samples@.len(),
    ensures
        forall|k: int| #[trigger]
            is_counterpart(a, b, offset, i, k) ==> {
                &&& 0 <= k < b.samples@.len()
                &&& apart(b.samples@[k].timestamp_ms + offset, a[i].timestamp_ms as int)
                    <= b.sample_interval_ms
                &&& apart(b.samples@[k].timestamp_ms + offset, a[i].timestamp_ms as int) <= apart(
                    b.samples@[l].timestamp_ms + offset,
                    a[i].timestamp_ms as int,
                )
            },
        apart(b.samples@[l].timestamp_ms + offset, a[i].timestamp_ms as int) <= b.sample_interval_ms
            ==> exists|k: int| #[trigger] is_counterpart(a, b, offset, i, k),
{
    assert forall|k: int| #[trigger] is_counterpart(a, b, offset, i, k) implies {
        &&& 0 <= k < b.samples@.len()
        &&& apart(b.samples@[k].timestamp_ms + offset, a[i].timestamp_ms as int)
            <= b.sample_interval_ms
        &&& apart(b.samples@[k].timestamp_ms + offset, a[i].timestamp_ms as int) <= apart(
            b.samples@[l].timestamp_ms + offset,
            a[i].timestamp_ms as int,
        )
    } by {
        assert(apart(b.samples@[k].timestamp_ms as int, target(a, i, offset)) <= apart(
            b.samples@[l].timestamp_ms as int,
            target(a, i, offset),
        ));
    }
    let k = lemma_nearest_exists(
        b.samples@,
        target(a, i, offset),
        b.samples@.len() as int,
    );
    assert(apart(b.samples@[k].timestamp_ms as int, target(a, i, offset)) <= apart(
        b.samples@[l].timestamp_ms as int,
        target(a, i, offset),
    ));
    if apart(b.samples@[l].timestamp_ms + offset, a[i].timestamp_ms as int) <= b.sample_interval_ms {
        assert(is_counterpart(a, b, offset, i, k));
    }
}

proof fn lemma_nearest_exists(samples: Seq<FingerprintSample>, t: int, n: int) -> (k: int)
    requires
        0 < n <= samples.len(),
    ensures
        is_nearest(samples.take(n), t, k),
        n == samples.len() ==> is_nearest(samples, t, k),
    decreases n,
{
    let k = if n == 1 {
        0
    } else {
        let before = lemma_nearest_exists(samples, t, n - 1);
        assert forall|j: int| 0 <= j < n - 1 implies apart(
            samples[before].timestamp_ms as int,
            t,
        ) <= apart((#[trigger] samples[j]).timestamp_ms as int, t) && (j < before ==> apart(
            samples[before].timestamp_ms as int,
            t,
        ) < apart(samples[j].timestamp_ms as int, t)) by {
            assert(samples.take(n - 1)[j] == samples[j]);
            assert(samples.take(n - 1)[before] == samples[before]);
        }
        if apart(samples[n - 1].timestamp_ms as int, t) < apart(
            samples[before].timestamp_ms as int,
            t,
        ) {
            n - 1
        } else {
            before
        }
    };
    assert(samples.take(samples.len() as int) =~= samples);
    k
}

/// The offset is added to the second timeline: where that is the first one, lowered by the offset,
/// every sample is paired with its own copy, and the two hashes do not differ in any bit.
pub proof fn moved_copy_is_paired_with_itself(
    pairs: Seq<SamplePair>,
    a: Seq<FingerprintSample>,
    b: FingerprintTimeline,
    offset: int,
    p: int,
)
    requires
        is_moved_copy(a, b.samples@, offset),
        b.sample_interval_ms >= 0,
        are_pairs(pairs, a, b, offset, a.len() as int),
        0 <= p < a.len(),
    ensures
        pairs.len() == a.len(),
        pairs[p].index_a == p,
        pairs[p].index_b == p,
        pairs[p].comparison matches HashComparison::Bits { distance, .. } && distance == 0,
{
    assert forall|i: int| 0 <= i < a.len() implies #[trigger] has_pair(pairs, i) by {
        assert(b.samples@[i].timestamp_ms == a[i].timestamp_ms - offset);
        counterparts_lie_close(a, b, offset, i, i);
        let k = choose|k: int| #[trigger] is_counterpart(a, b, offset, i, k);
        assert(is_counterpart(a, b, offset, i, k));
    }
    lemma_all_are_paired(pairs, a.len() as int, 0);
    lemma_all_are_paired(pairs, a.len() as int, p);
    let k = pairs[p].index_b as int;
    counterparts_lie_close(a, b, offset, p, p);
    assert(is_counterpart(a, b, offset, p, k));
    assert(b.samples@[p].timestamp_ms == a[p].timestamp_ms - offset);
    assert(b.samples@[k].timestamp_ms == a[k].timestamp_ms - offset);
    assert(k == p) by {
        if k < p {
            assert(a[k].timestamp_ms != a[p].timestamp_ms);
        } else if p < k {
            assert(a[p].timestamp_ms != a[k].timestamp_ms);
        }
    }
    hamming_zero_means_equal(a[p].hash@, b.samples@[p].hash@);
}

proof fn lemma_all_are_paired(pairs: Seq<SamplePair>, n: int, p: int)
    requires
        0 <= p < n,
        forall|q: int| 0 <= q < pairs.len() ==> (#[trigger] pairs[q]).index_a < n,
        forall|q: int, r: int|
            0 <= q < r < pairs.len() ==> (#[trigger] pairs[q]).index_a < (
            #[trigger] pairs[r]).index_a,
        forall|i: int| 0 <= i < n ==> #[trigger] has_pair(pairs, i),
    ensures
        pairs.len() == n,
        pairs[p].index_a == p,
{
    lemma_pair_at(pairs, n, p);
    lemma_pair_at(pairs, n, n - 1);
    if pairs.len() > n {
        assert(pairs[n - 1].index_a < pairs[n].index_a);
    }
}

proof fn lemma_pair_at(pairs: Seq<SamplePair>, n: int, p: int)
    requires
        0 <= p < n,
        forall|q: int, r: int|
            0 <= q < r < pairs.len() ==> (#[trigger] pairs[q]).index_a < (
            #[trigger] pairs[r]).index_a,
        forall|i: int| 0 <= i < n ==> #[trigger] has_pair(pairs, i),
    ensures
        p < pairs.len(),
        pairs[p].index_a == p,
    decreases p,
{
    assert(has_pair(pairs, p));
    let q = choose|q: int| 0 <= q < pairs.len() && (#[trigger] pairs[q]).index_a == p;
    if p > 0 {
        lemma_pair_at(pairs, n, p - 1);
        if q < p - 1 {
            assert(pairs[q].index_a < pairs[p - 1].index_a);
        }
        if q > p {
            assert(pairs[p - 1].index_a < pairs[p].index_a);
            assert(pairs[p].index_a < pairs[q].index_a);
        }
    } else if q > 0 {
        assert(pairs[0].index_a < pairs[q].index_a);
    }
}

/// The number of samples that matches are measured against is that of one of the two timelines, and
/// at most that of either, so that it does not matter which timeline comes first.
pub proof fn matches_are_measured_against_the_shorter(
    a: FingerprintTimeline,
    b: FingerprintTimeline,
)
    ensures
        shorter_len(a, b) <= a.samples@.len(),
        shorter_len(a, b) <= b.samples@.len(),
        shorter_len(a, b) == a.samples@.len() || shorter_len(a, b) == b.samples@.len(),
        shorter_len(a, b) == shorter_len(b, a),
{
}

impl FingerprintContentMatcher {
    /// It does not matter which of two timelines comes first. Timelines that match still do where
    /// more of their samples match and the alignment is more certain. Both thresholds suffice
    /// exactly.
    pub proof fn better_alignments_match_too(
        self,
        a: FingerprintTimeline,
        b: FingerprintTimeline,
        alignment: TimelineAlignment,
        ratio: Score,
        better_alignment: TimelineAlignment,
        better_ratio: Score,
    )
        requires
            a.samples@.len() > 0,
            b.samples@.len() > 0,
        ensures
            self.recognizes(a, b, alignment, ratio) == self.recognizes(b, a, alignment, ratio),
            self.recognizes(a, b, alignment, ratio) && better_ratio.at_least(ratio)
                && better_alignment.confidence.at_least(alignment.confidence) ==> self.recognizes(
                a,
                b,
                better_alignment,
                better_ratio,
            ),
            !self.min_match_ratio.is_nan() && !self.similarity_threshold.is_nan()
                && alignment.confidence == self.similarity_threshold ==> self.recognizes(
                a,
                b,
                alignment,
                self.min_match_ratio,
            ),
            self.recognizes(a, b, alignment, ratio) ==> !ratio.below(self.min_match_ratio)
                && !alignment.confidence.below(self.similarity_threshold),
    {
    }
}

proof fn lemma_kept_in_order(sorted: Seq<PatternMatch>, n: int)
    requires
        0 <= n <= sorted.len(),
        forall|k: int, l: int|
            0 <= k < l < sorted.len() ==> (#[trigger] sorted[k]).start_ms <= (
            #[trigger] sorted[l]).start_ms,
    ensures
        forall|i: int|
            0 <= i < without_overlaps(sorted, n).len() ==> sorted.take(n).contains(
                #[trigger] without_overlaps(sorted, n)[i],
            ),
        forall|i: int, j: int|
            0 <= i < j < without_overlaps(sorted, n).len() ==> (
            #[trigger] without_overlaps(sorted, n)[i]).start_ms <= (
            #[trigger] without_overlaps(sorted, n)[j]).start_ms,
    decreases n,
{
    if n > 0 {
        lemma_kept_in_order(sorted, n - 1);
        let before = without_overlaps(sorted, n - 1);
        let now = without_overlaps(sorted, n);
        let front = sorted.take(n - 1);
        assert forall|i: int| 0 <= i < now.len() implies sorted.take(n).contains(
            #[trigger] now[i],
        ) by {
            if i < before.len() {
                assert(now[i] == before[i]);
                let k = choose|k: int| 0 <= k < front.len() && front[k] == before[i];
                assert(sorted.take(n)[k] == now[i]);
            } else {
                assert(sorted.take(n)[n - 1] == now[i]);
            }
        }
        assert forall|i: int, j: int| 0 <= i < j < now.len() implies (
        #[trigger] now[i]).start_ms <= (#[trigger] now[j]).start_ms by {
            assert(now[i] == before[i]);
            if j < before.len() {
                assert(now[j] == before[j]);
            } else {
                let k = choose|k: int| 0 <= k < front.len() && front[k] == before[i];
                assert(sorted[k].start_ms <= sorted[n - 1].start_ms);
            }
        }
    }
}

proof fn lemma_removed_for_an_earlier_one(sorted: Seq<PatternMatch>, n: int, i: int) -> (k: int)
    requires
        0 <= i < n <= sorted.len(),
        forall|k: int, l: int|
            0 <= k < l < sorted.len() ==> (#[trigger] sorted[k]).start_ms <= (
            #[trigger] sorted[l]).start_ms,
    ensures
        0 <= k < without_overlaps(sorted, n).len(),
        without_overlaps(sorted, n)[k] == sorted[i] || {
            &&& without_overlaps(sorted, n)[k].start_ms <= sorted[i].start_ms
            &&& sorted[i].start_ms < without_overlaps(sorted, n)[k].end_ms
            &&& without_overlaps(sorted, n)[k].start_ms < sorted[i].end_ms
        },
    decreases n,
{
    let before = without_overlaps(sorted, n - 1);
    if i < n - 1 {
        lemma_removed_for_an_earlier_one(sorted, n - 1, i)
    } else if overlaps_any(before, sorted[i]) {
        let k = choose|k: int| 0 <= k < before.len() && overlap(sorted[i], #[trigger] before[k]);
        lemma_kept_in_order(sorted, n - 1);
        let front = sorted.take(n - 1);
        let l = choose|l: int| 0 <= l < front.len() && front[l] == before[k];
        assert(sorted[l].start_ms <= sorted[i].start_ms);
        k
    } else {
        before.len() as int
    }
}

/// The reported matches come in the order in which they begin, none begins before another one has
/// ended, and each of them was found.
pub proof fn reported_matches_follow_each_other(
    matches: Seq<PatternMatch>,
    r: Seq<PatternMatch>,
    i: int,
    j: int,
)
    requires
        resolves(matches, r),
        0 <= i < j < r.len(),
    ensures
        r[i].start_ms <= r[j].start_ms,
        r[i].end_ms <= r[j].start_ms || r[j].end_ms <= r[i].start_ms,
        matches.contains(r[i]),
        matches.contains(r[j]),
{
    let sorted = choose|sorted: Seq<PatternMatch>| #[trigger]
        sorted_by_start(matches, sorted) && r == without_overlaps(sorted, sorted.len() as int);
    let n = sorted.len() as int;
    lemma_sorted_by_start(matches, sorted);
    lemma_kept_in_order(sorted, n);
    remaining_matches_are_disjoint(sorted, n, i, j);
    assert(sorted.take(n) =~= sorted);
    assert(sorted.take(n).contains(r[i]));
    assert(sorted.take(n).contains(r[j]));
}

/// A match that was found is reported, or shares a stretch with a reported one that begins no later.
pub proof fn found_matches_are_reported(
    matches: Seq<PatternMatch>,
    r: Seq<PatternMatch>,
    i: int,
) -> (k: int)
    requires
        resolves(matches, r),
        0 <= i < matches.len(),
    ensures
        0 <= k < r.len(),
        r[k] == matches[i] || {
            &&& r[k].start_ms <= matches[i].start_ms
            &&& matches[i].start_ms < r[k].end_ms
            &&& r[k].start_ms < matches[i].end_ms
        },
{
    let sorted = choose|sorted: Seq<PatternMatch>| #[trigger]
        sorted_by_start(matches, sorted) && r == without_overlaps(sorted, sorted.len() as int);
    lemma_sorted_by_start(matches, sorted);
    let l = choose|l: int| 0 <= l < sorted.len() && sorted[l] == matches[i];
    lemma_removed_for_an_earlier_one(sorted, sorted.len() as int, l)
}

proof fn lemma_sorted_by_start(matches: Seq<PatternMatch>, sorted: Seq<PatternMatch>)
    requires
        sorted_by_start(matches, sorted),
    ensures
        forall|k: int, l: int|
            0 <= k < l < sorted.len() ==> (#[trigger] sorted[k]).start_ms <= (
            #[trigger] sorted[l]).start_ms,
        forall|i: int| 0 <= i < matches.len() ==> sorted.contains(#[trigger] matches[i]),
        forall|k: int| 0 <= k < sorted.len() ==> matches.contains(#[trigger] sorted[k]),
{
    let keys = start_keys(matches);
    let order = choose|order: Seq<usize>| #[trigger]
        is_stable_order(keys, order) && sorted == order.map_values(|i: usize| matches[i as int]);
    assert forall|k: int, l: int| 0 <= k < l < sorted.len() implies (
    #[trigger] sorted[k]).start_ms <= (#[trigger] sorted[l]).start_ms by {
        assert(in_front(keys, order[k] as int, order[l] as int));
        assert(order[k] < keys.len() && order[l] < keys.len());
    }
    assert forall|i: int| 0 <= i < matches.len() implies sorted.contains(
        #[trigger] matches[i],
    ) by {
        let k = permutation_reaches(order, matches.len() as int, i);
        assert(sorted[k] == matches[i]);
    }
    assert forall|k: int| 0 <= k < sorted.len() implies matches.contains(#[trigger] sorted[k]) by {
        assert(order[k] < keys.len());
        assert(matches[order[k] as int] == sorted[k]);
    }
}

impl PatternDetector {
    /// A match counts if and only if its pattern is wanted and its length lies between the least and
    /// the greatest one, both included.
    pub proof fn matches_of_every_wanted_length_count(
        self,
        found: Seq<Option<PatternMatch>>,
        wanted: spec_fn(int) -> bool,
        n: int,
        m: PatternMatch,
    )
        requires
            0 <= n <= found.len(),
        ensures
            self.wanted_matches(found, wanted, n).contains(m) <==> {
                &&& self.min_duration_ms <= m.end_ms - m.start_ms <= self.max_duration_ms
                &&& exists|i: int| 0 <= i < n && #[trigger] found[i] == Some(m) && wanted(i)
            },
            n > 0 && found[n - 1] == Some(m) && wanted(n - 1) && self.min_duration_ms <= m.end_ms
                - m.start_ms <= self.max_duration_ms ==> self.wanted_matches(found, wanted, n).last()
                == m,
        decreases n,
    {
        let now = self.wanted_matches(found, wanted, n);
        if n > 0 {
            self.matches_of_every_wanted_length_count(found, wanted, n - 1, m);
            let before = self.wanted_matches(found, wanted, n - 1);
            if now.contains(m) {
                let k = choose|k: int| 0 <= k < now.len() && now[k] == m;
                if k < before.len() {
                    assert(before[k] == m);
                } else {
                    assert(found[n - 1] == Some(m));
                }
            }
            if self.min_duration_ms <= m.end_ms - m.start_ms <= self.max_duration_ms && exists|
                i: int,
            |
                0 <= i < n && #[trigger] found[i] == Some(m) && wanted(i) {
                let i = choose|i: int| 0 <= i < n && #[trigger] found[i] == Some(m) && wanted(i);
                if i < n - 1 {
                    let k = choose|k: int| 0 <= k < before.len() && before[k] == m;
                    assert(now[k] == m);
                } else {
                    assert(now[before.len() as int] == m);
                }
            }
        }
    }

    /// A pattern whose length lies between the least and the greatest one, both included, and is not
    /// greater than that of the content, is looked for from the beginning of the content on; one
    /// that fits exactly is looked for there only.
    pub proof fn fitting_patterns_are_looked_for(self, content: int, pattern: int, step: int)
        requires
            0 < step <= i32::MAX,
            content <= i32::MAX,
        ensures
            self.places(content, pattern, step).len() > 0 <==> self.min_duration_ms <= pattern
                <= self.max_duration_ms && pattern <= content,
            self.places(content, pattern, step).len() > 0 ==> self.places(
                content,
                pattern,
                step,
            )[0] == 0,
            pattern == content && self.min_duration_ms <= pattern <= self.max_duration_ms
                ==> self.places(content, pattern, step) == seq![0i32],
    {
        assert(step * 0 == 0) by (nonlinear_arith);
        assert(0int / step == 0) by (nonlinear_arith)
            requires
                step > 0,
        ;
        if pattern <= content {
            assert((content - pattern) / step >= 0) by (nonlinear_arith)
                requires
                    step > 0,
                    content - pattern >= 0,
            ;
        }
        if pattern == content && self.considers(pattern) {
            assert(self.places(content, pattern, step) =~= seq![0i32]);
        }
    }
}

/// A pattern is recognized where a window matches it, and only there. The window is at least as
/// confident as every other matching one, and the first such.
pub proof fn best_window_is_the_most_confident(results: Seq<ContentMatch>, n: int, j: int)
    requires
        0 <= j < n <= results.len(),
        forall|k: int|
            0 <= k < n && (#[trigger] results[k]).is_match ==> !results[k].confidence.is_nan(),
    ensures
        results[j].is_match ==> best_window(results, n) is Some,
        best_window(results, n) matches Some(w) ==> {
            &&& 0 <= w < n
            &&& results[w].is_match
            &&& results[j].is_match ==> results[w].confidence.at_least(results[j].confidence)
            &&& results[j].is_match && j < w ==> !results[j].confidence.at_least(
                results[w].confidence,
            )
        },
    decreases n,
{
    reveal_with_fuel(best_window, 2);
    if n > 1 {
        if j < n - 1 {
            best_window_is_the_most_confident(results, n - 1, j);
        } else {
            best_window_is_the_most_confident(results, n - 1, 0);
        }
    }
}

/// Stepping goes forward.
pub proof fn steps_ascend(from: int, to: int, step: int, k: int, l: int)
    requires
        steps_end(from, to, step),
        i32::MIN <= from,
        0 <= k < l < steps(from, to, step).len(),
    ensures
        steps(from, to, step)[k] < steps(from, to, step)[l],
{
    let n = (to - from) / step;
    assert(0 <= step * k && step * k < step * l && step * l <= step * (n + 1)) by (nonlinear_arith)
        requires
            0 <= k < l <= n,
            step > 0,
    ;
}

/// With a negative interval only the beginning of a video is sampled, and nothing of one without
/// length.
pub proof fn negative_interval_samples_the_beginning(duration_ms: int, interval_ms: int)
    requires
        interval_ms < 0,
    ensures
        duration_ms > 0 ==> dense_points(duration_ms, interval_ms) == seq![0i32],
        duration_ms <= 0 ==> dense_points(duration_ms, interval_ms).len() == 0,
{
}

impl CrossCorrelationAligner {
    /// The coarse search settles on the offset that fits best, the first where there are several,
    /// and on none where nothing fits.
    pub proof fn best_offset_is_settled_on(self, scores: Seq<Score>, i: int)
        requires
            0 <= i < scores.len(),
            scores[i].above(Score { bits: 0 }),
            forall|j: int| 0 <= j < i ==> scores[i].above(#[trigger] scores[j]),
            forall|j: int| i < j < scores.len() ==> scores[i].at_least(#[trigger] scores[j]),
        ensures
            self.coarse_best(scores) == self.coarse_offsets()[i],
            forall|offsets: Seq<i32>, otherwise: i32| #[trigger]
                offset_at(offsets, best_of(scores, scores.len() as int), otherwise) == offsets[i],
    {
        let n = scores.len() as int;
        best_is_the_greatest(scores, n, i);
        let b = best_of(scores, n)->0;
        best_is_the_greatest(scores, n, b);
        assert(b == i) by {
            if b < i {
                assert(scores[i].above(scores[b]));
            } else if i < b {
                assert(scores[i].at_least(scores[b]));
            }
        }
    }
}

/// A pair holds a sample and its counterpart and compares their hashes; pairs come in the order of
/// the first timeline, and every sample that another one comes close to has one.
pub proof fn close_samples_are_paired(
    pairs: Seq<SamplePair>,
    a: Seq<FingerprintSample>,
    b: FingerprintTimeline,
    offset: int,
    i: int,
    l: int,
    p: int,
)
    requires
        are_pairs(pairs, a, b, offset, a.len() as int),
        0 <= i < a.len(),
        0 <= l < b.samples@.len(),
        0 <= p < pairs.len(),
    ensures
        apart(b.samples@[l].timestamp_ms + offset, a[i].timestamp_ms as int) <= b.sample_interval_ms
            ==> exists|q: int| 0 <= q < pairs.len() && (#[trigger] pairs[q]).index_a == i,
        pairs[p].index_a < a.len(),
        pairs[p].index_b < b.samples@.len(),
        apart(
            b.samples@[pairs[p].index_b as int].timestamp_ms + offset,
            a[pairs[p].index_a as int].timestamp_ms as int,
        ) <= b.sample_interval_ms,
        pairs[p].comparison == compared(
            a[pairs[p].index_a as int].hash@,
            b.samples@[pairs[p].index_b as int].hash@,
        ),
        p > 0 ==> pairs[p - 1].index_a < pairs[p].index_a,
{
    counterparts_lie_close(a, b, offset, i, l);
    if apart(b.samples@[l].timestamp_ms + offset, a[i].timestamp_ms as int) <= b.sample_interval_ms {
        let k = choose|k: int| #[trigger] is_counterpart(a, b, offset, i, k);
        assert(is_counterpart(a, b, offset, i, k));
        assert(has_pair(pairs, i));
    }
    let x = pairs[p].index_a as int;
    let y = pairs[p].index_b as int;
    assert(is_counterpart(a, b, offset, x, y));
    counterparts_lie_close(a, b, offset, x, y);
}

/// A window holds the samples that lie from its start on and before its end, with their points in time
/// counted from its start, and no others. The last of them comes last.
pub proof fn window_holds_the_samples_inside(
    samples: Seq<FingerprintSample>,
    start: int,
    end: int,
    n: int,
    t: int,
    hash: Seq<u8>,
)
    requires
        0 <= n <= samples.len(),
    ensures
        window_of(samples, start, end, n).contains((t, hash)) <==> exists|i: int|
            0 <= i < n && (#[trigger] samples[i]).timestamp_ms == start + t && samples[i].hash@
                == hash && 0 <= t < end - start,
        n > 0 && start <= samples[n - 1].timestamp_ms < end ==> window_of(
            samples,
            start,
            end,
            n,
        ).last() == (samples[n - 1].timestamp_ms - start, samples[n - 1].hash@),
    decreases n,
{
    let now = window_of(samples, start, end, n);
    if n > 0 {
        window_holds_the_samples_inside(samples, start, end, n - 1, t, hash);
        let before = window_of(samples, start, end, n - 1);
        let s = samples[n - 1];
        if before.contains((t, hash)) {
            let k = choose|k: int| 0 <= k < before.len() && before[k] == (t, hash);
            assert(now[k] == (t, hash));
        }
        if start <= s.timestamp_ms < end {
            assert(now[before.len() as int] == (s.timestamp_ms - start, s.hash@));
        }
        if now.contains((t, hash)) {
            let k = choose|k: int| 0 <= k < now.len() && now[k] == (t, hash);
            if k < before.len() {
                assert(before[k] == (t, hash));
            }
        }
    }
}

/// A pattern belongs to one series at most, and one without a series to none.
pub proof fn pattern_belongs_to_one_series(pattern: KnownPattern, a: Seq<char>, b: Seq<char>)
    ensures
        of_series(pattern, a) && of_series(pattern, b) ==> a == b,
        pattern.series_title is None ==> !of_series(pattern, a),
        pattern.series_title is Some ==> of_series(pattern, pattern.series_title->0@),
{
}

impl PatternDetector {
    /// A pattern that is considered is looked for at every multiple of the interval at which it ends
    /// inside the content.
    pub proof fn patterns_are_looked_for_everywhere(
        self,
        content: int,
        pattern: int,
        step: int,
        o: i32,
    )
        requires
            self.min_duration_ms <= pattern <= self.max_duration_ms,
            pattern_search_ends(content, pattern, step),
        ensures
            self.places(content, pattern, step).contains(o) <==> 0 <= o && o + pattern <= content && o
                as int % step == 0,
    {
        steps_take_in_every_point(0, content - pattern, step, o);
    }
}

}

//! Detection of segments.
use super::traits::{
    apart, are_segments, compared, duration_of, hash_similarity, is_moved_copy, is_nearest, is_segment, within_reach,
    AnalysisError, FingerprintSample, FingerprintTimeline, HashComparison, Segment,
    SegmentDetectionContext, SegmentDetector, SegmentFacts, SegmentMetadata, SegmentType,
};
use crate::scanner::fingerprint::{countable, hamming_is_symmetric, hamming_zero_means_equal};
use crate::score::{Score, EIGHTY_FIVE_PERCENT, EIGHT_TENTHS, HALF, SEVEN_TENTHS};
use vstd::prelude::*;

verus! {

/// Detects segments by comparing multiple recordings of the same content.
/// Segments where fingerprints match = content, where they diverge = commercials.
#[derive(Debug, Clone, Copy)]
pub struct DuplicateComparisonDetector {
    /// Minimum similarity to consider samples matching.
    pub match_threshold: Score,
    /// Minimum duration to consider a segment (avoids tiny false positives).
    pub min_segment_ms: i32,
}

impl Default for DuplicateComparisonDetector {
    fn default() -> (r: Self)
        ensures
            r.match_threshold.bits == EIGHTY_FIVE_PERCENT,
            r.min_segment_ms == 5000,
    {
        DuplicateComparisonDetector {
            match_threshold: Score::from_bits(EIGHTY_FIVE_PERCENT),
            min_segment_ms: 5000,
        }
    }
}

/// The number of comparison timelines that have an alignment.
pub open spec fn aligned(context: SegmentDetectionContext) -> nat {
    if context.comparisons@.len() <= context.alignments@.len() {
        context.comparisons@.len()
    } else {
        context.alignments@.len()
    }
}

/// The point in time in comparison timeline `j` that corresponds to sample `i`.
pub open spec fn adjusted(context: SegmentDetectionContext, i: int, j: int) -> int {
    context.primary.samples@[i].timestamp_ms - context.alignments@[j].offset_ms
}

/// The sample `i` can be compared with its counterpart in comparison timeline `j`.
pub open spec fn can_compare(context: SegmentDetectionContext, i: int, j: int) -> bool {
    let other = context.comparisons@[j].samples@;
    &&& i32::MIN <= adjusted(context, i, j) <= i32::MAX
    &&& within_reach(other, adjusted(context, i, j))
    &&& forall|k: int| #[trigger]
        is_nearest(other, adjusted(context, i, j), k) ==> countable(
            context.primary.samples@[i].hash@,
            other[k].hash@,
        )
}

/// `c` is the comparison of sample `i` with its counterpart in comparison timeline `j`, if there is
/// one.
pub open spec fn is_comparison(
    c: Option<HashComparison>,
    context: SegmentDetectionContext,
    i: int,
    j: int,
) -> bool {
    let other = context.comparisons@[j].samples@;
    match c {
        Some(found) => exists|k: int| #[trigger]
            is_nearest(other, adjusted(context, i, j), k) && found == compared(
                context.primary.samples@[i].hash@,
                other[k].hash@,
            ),
        None => other.len() == 0,
    }
}

/// Compares every sample of the primary timeline with its counterpart in each of the comparison
/// timelines, moved by their alignments.
pub fn compare_samples(context: &SegmentDetectionContext) -> (r: Vec<Vec<Option<HashComparison>>>)
    requires
        forall|i: int, j: int|
            0 <= i < context.primary.samples@.len() && 0 <= j < aligned(*context)
                ==> #[trigger] can_compare(*context, i, j),
    ensures
        r@.len() == context.primary.samples@.len(),
        forall|i: int| 0 <= i < r@.len() ==> (#[trigger] r@[i])@.len() == aligned(*context),
        forall|i: int, j: int|
            0 <= i < r@.len() && 0 <= j < aligned(*context) ==> is_comparison(
                #[trigger] r@[i]@[j],
                *context,
                i,
                j,
            ),
{
    let mut out: Vec<Vec<Option<HashComparison>>> = Vec::new();
    let count: usize = if context.comparisons.len() <= context.alignments.len() {
        context.comparisons.len()
    } else {
        context.alignments.len()
    };
    for i in 0..context.primary.samples.len()
        invariant
            count == aligned(*context),
            forall|i: int, j: int|
                0 <= i < context.primary.samples@.len() && 0 <= j < aligned(*context)
                    ==> #[trigger] can_compare(*context, i, j),
            out@.len() == i,
            forall|k: int| 0 <= k < i ==> (#[trigger] out@[k])@.len() == count,
            forall|k: int, j: int|
                0 <= k < i && 0 <= j < count ==> is_comparison(
                    #[trigger] out@[k]@[j],
                    *context,
                    k,
                    j,
                ),
    {
        let sample = &context.primary.samples[i];
        let mut row: Vec<Option<HashComparison>> = Vec::new();
        for j in 0..count
            invariant
                count == aligned(*context),
                i < context.primary.samples@.len(),
                *sample == context.primary.samples@[i as int],
                forall|i: int, j: int|
                    0 <= i < context.primary.samples@.len() && 0 <= j < aligned(*context)
                        ==> #[trigger] can_compare(*context, i, j),
                row@.len() == j,
                forall|l: int|
                    0 <= l < j ==> is_comparison(#[trigger] row@[l], *context, i as int, l),
        {
            assert(can_compare(*context, i as int, j as int));
            let target: i32 = sample.timestamp_ms - context.alignments[j].offset_ms;
            let found: Option<HashComparison> = match context.comparisons[j].sample_at(target) {
                Some(other) => {
                    let ghost k = choose|k: int| #[trigger]
                        is_nearest(context.comparisons@[j as int].samples@, target as int, k)
                            && *other == context.comparisons@[j as int].samples@[k];
                    assert(countable(sample.hash@, other.hash@));
                    Some(hash_similarity(&sample.hash, &other.hash))
                },
                None => None,
            };
            assert(is_comparison(found, *context, i as int, j as int));
            row.push(found);
        }
        out.push(row);
    }
    out
}

/// A sample is content: it has a counterpart, and it matches every counterpart that it has.
pub open spec fn is_content(row: Seq<Option<Score>>, threshold: Score) -> bool {
    &&& exists|j: int| 0 <= j < row.len() && #[trigger] row[j] is Some
    &&& forall|j: int|
        0 <= j < row.len() ==> (#[trigger] row[j] matches Some(s) ==> s.at_least(threshold))
}

/// Tests whether a sample is content.
fn matches_everywhere(row: &Vec<Option<Score>>, threshold: Score) -> (r: bool)
    ensures
        r == is_content(row@, threshold),
{
    let mut seen: bool = false;
    for j in 0..row.len()
        invariant
            seen <==> exists|l: int| 0 <= l < j && #[trigger] row@[l] is Some,
            forall|l: int|
                0 <= l < j ==> (#[trigger] row@[l] matches Some(s) ==> s.at_least(threshold)),
    {
        if let Some(s) = row[j] {
            if !s.ge(threshold) {
                assert(row@[j as int] matches Some(t) && !t.at_least(threshold));
                return false;
            }
            assert(row@[j as int] is Some);
            seen = true;
        }
    }
    seen
}

/// The similarities of a context belong to the comparisons of its samples: there is a row for each
/// sample and an entry for each aligned timeline, with a similarity where the sample has a
/// counterpart there.
pub open spec fn are_rated(context: SegmentDetectionContext) -> bool {
    &&& context.similarities@.len() == context.primary.samples@.len()
    &&& forall|i: int|
        0 <= i < context.similarities@.len() ==> (#[trigger] context.similarities@[i])@.len()
            == aligned(context)
    &&& forall|i: int, j: int|
        0 <= i < context.similarities@.len() && 0 <= j < aligned(context) ==> (
        #[trigger] context.similarities@[i]@[j] is Some <==> context.comparisons@[j].samples@.len()
            > 0)
}

/// Which samples are content.
pub open spec fn content_flags(rows: Seq<Vec<Option<Score>>>, threshold: Score) -> Seq<bool> {
    rows.map_values(|row: Vec<Option<Score>>| is_content(row@, threshold))
}

/// Where the run of equal flags begins that ends in front of position `n`.
pub open spec fn run_start(flags: Seq<bool>, n: int) -> int
    decreases n,
{
    if n <= 1 {
        0
    } else if flags[n - 1] != flags[n - 2] {
        n - 1
    } else {
        run_start(flags, n - 1)
    }
}

/// The kind of segment that a flag stands for.
pub open spec fn kind_of(content: bool) -> SegmentType {
    if content {
        SegmentType::Content
    } else {
        SegmentType::Commercial
    }
}

/// A run from `start` to `end` as a segment, if it lasts at least `min`.
pub open spec fn kept_run(start: i32, end: i32, content: bool, min: int) -> Seq<SegmentFacts> {
    if end - start >= min {
        seq![
            SegmentFacts {
                start_ms: start,
                end_ms: end,
                segment_type: kind_of(content),
                confidence: Score { bits: EIGHT_TENTHS },
            },
        ]
    } else {
        Seq::empty()
    }
}

/// The segments of the runs of equal flags that are over among the first `n` samples. Each run
/// lasts from its first sample to the first sample of the next run.
pub open spec fn closed_runs(
    samples: Seq<FingerprintSample>,
    flags: Seq<bool>,
    min: int,
    n: int,
) -> Seq<SegmentFacts>
    decreases n,
{
    if n <= 1 {
        Seq::empty()
    } else {
        let before = closed_runs(samples, flags, min, n - 1);
        if flags[n - 1] != flags[n - 2] {
            before + kept_run(
                samples[run_start(flags, n - 1)].timestamp_ms,
                samples[n - 1].timestamp_ms,
                flags[n - 2],
                min,
            )
        } else {
            before
        }
    }
}

/// The segments of all runs of equal flags. The last run lasts to the end of the timeline.
pub open spec fn all_runs(
    samples: Seq<FingerprintSample>,
    flags: Seq<bool>,
    min: int,
) -> Seq<SegmentFacts> {
    let n = samples.len() as int;
    if n == 0 {
        Seq::empty()
    } else {
        closed_runs(samples, flags, min, n) + kept_run(
            samples[run_start(flags, n)].timestamp_ms,
            duration_of(samples),
            flags[n - 1],
            min,
        )
    }
}

/// The lengths of the runs of equal flags can be computed.
pub open spec fn runs_fit(samples: Seq<FingerprintSample>, flags: Seq<bool>) -> bool {
    &&& forall|k: int|
        0 < k < samples.len() && #[trigger] flags[k] != flags[k - 1] ==> i32::MIN
            <= samples[k].timestamp_ms - samples[run_start(flags, k)].timestamp_ms <= i32::MAX
    &&& samples.len() > 0 ==> i32::MIN <= duration_of(samples) - samples[run_start(
        flags,
        samples.len() as int,
    )].timestamp_ms <= i32::MAX
}

proof fn lemma_run_start(flags: Seq<bool>, n: int)
    requires
        0 < n <= flags.len(),
    ensures
        0 <= run_start(flags, n) < n,
    decreases n,
{
    if n > 1 && flags[n - 1] == flags[n - 2] {
        lemma_run_start(flags, n - 1);
    }
}

fn segment(start_ms: i32, end_ms: i32, segment_type: SegmentType, confidence: u32) -> (r: Segment)
    ensures
        is_segment(
            r,
            (SegmentFacts { start_ms, end_ms, segment_type, confidence: Score { bits: confidence } }),
        ),
{
    Segment {
        start_ms,
        end_ms,
        segment_type,
        confidence: Score::from_bits(confidence),
        metadata: SegmentMetadata::default(),
    }
}

impl SegmentDetector for DuplicateComparisonDetector {
    open spec fn accepts(&self, context: SegmentDetectionContext) -> bool {
        context.comparisons@.len() > 0 ==> {
            &&& are_rated(context)
            &&& runs_fit(
                context.primary.samples@,
                content_flags(context.similarities@, self.match_threshold),
            )
        }
    }

    open spec fn finds(&self, context: SegmentDetectionContext) -> Seq<SegmentFacts> {
        if context.comparisons@.len() == 0 {
            Seq::empty()
        } else {
            all_runs(
                context.primary.samples@,
                content_flags(context.similarities@, self.match_threshold),
                self.min_segment_ms as int,
            )
        }
    }

    fn detect(&self, context: &SegmentDetectionContext) -> (r: Result<Vec<Segment>, AnalysisError>) {
        let mut segments: Vec<Segment> = Vec::new();
        if context.comparisons.len() == 0 {
            return Ok(segments);
        }
        let ghost samples = context.primary.samples@;
        let ghost flags = content_flags(context.similarities@, self.match_threshold);
        let ghost min = self.min_segment_ms as int;
        let mut current = SegmentType::Unknown;
        let mut segment_start: i32 = 0;
        for i in 0..context.primary.samples.len()
            invariant
                samples == context.primary.samples@,
                flags == content_flags(context.similarities@, self.match_threshold),
                min == self.min_segment_ms,
                context.similarities@.len() == samples.len(),
                runs_fit(samples, flags),
                i == 0 ==> current == SegmentType::Unknown,
                i > 0 ==> current == kind_of(flags[i - 1]) && segment_start == samples[run_start(
                    flags,
                    i as int,
                )].timestamp_ms,
                are_segments(segments@, closed_runs(samples, flags, min, i as int)),
        {
            let timestamp: i32 = context.primary.samples[i].timestamp_ms;
            let content: bool = matches_everywhere(&context.similarities[i], self.match_threshold);
            assert(content == flags[i as int]);
            let detected = if content {
                SegmentType::Content
            } else {
                SegmentType::Commercial
            };
            if detected != current {
                if current != SegmentType::Unknown {
                    assert(flags[i as int] != flags[i - 1]);
                    if timestamp - segment_start >= self.min_segment_ms {
                        segments.push(segment(segment_start, timestamp, current, EIGHT_TENTHS));
                    }
                }
                current = detected;
                segment_start = timestamp;
            }
        }
        if current != SegmentType::Unknown {
            let end: i32 = context.primary.duration_ms();
            if end - segment_start >= self.min_segment_ms {
                segments.push(segment(segment_start, end, current, EIGHT_TENTHS));
            }
        }
        Ok(segments)
    }
}

/// Detects segments by looking for scene changes within a single recording.
/// Useful as a fallback when no duplicates exist.
#[derive(Debug, Clone, Copy)]
pub struct SceneChangeDetector {
    /// Similarity threshold below which we consider it a scene change.
    pub change_threshold: Score,
    /// Minimum time between detected changes.
    pub min_gap_ms: i32,
}

impl Default for SceneChangeDetector {
    fn default() -> (r: Self)
        ensures
            r.change_threshold.bits == SEVEN_TENTHS,
            r.min_gap_ms == 1000,
    {
        SceneChangeDetector { change_threshold: Score::from_bits(SEVEN_TENTHS), min_gap_ms: 1000 }
    }
}

/// The comparison of each sample with the one before it.
pub open spec fn neighbours(samples: Seq<FingerprintSample>) -> Seq<HashComparison> {
    Seq::new(
        (if samples.len() == 0 {
            0
        } else {
            samples.len() - 1
        }) as nat,
        |i: int| compared(samples[i].hash@, samples[i + 1].hash@),
    )
}

/// Compares each sample with the one before it.
pub fn compare_neighbours(timeline: &FingerprintTimeline) -> (r: Vec<HashComparison>)
    requires
        forall|i: int|
            0 < i < timeline.samples@.len() ==> countable(
                timeline.samples@[i - 1].hash@,
                (#[trigger] timeline.samples@[i]).hash@,
            ),
    ensures
        r@ == neighbours(timeline.samples@),
{
    let mut out: Vec<HashComparison> = Vec::new();
    if timeline.samples.len() == 0 {
        return out;
    }
    for i in 1..timeline.samples.len()
        invariant
            forall|i: int|
                0 < i < timeline.samples@.len() ==> countable(
                    timeline.samples@[i - 1].hash@,
                    (#[trigger] timeline.samples@[i]).hash@,
                ),
            out@ == Seq::new(
                (i - 1) as nat,
                |i: int| compared(timeline.samples@[i].hash@, timeline.samples@[i + 1].hash@),
            ),
    {
        assert(countable(
            timeline.samples@[i - 1].hash@,
            timeline.samples@[i as int].hash@,
        ));
        out.push(hash_similarity(&timeline.samples[i - 1].hash, &timeline.samples[i].hash));
    }
    out
}

/// The last of the changes, the beginning of the timeline where there is none.
pub open spec fn last_or_start(changes: Seq<i32>) -> int {
    if changes.len() == 0 {
        0
    } else {
        changes.last() as int
    }
}

/// The changes among the first `n + 1` samples: the samples that are less similar to their
/// predecessor than the threshold, and far enough behind the change before.
pub open spec fn changes_of(
    samples: Seq<FingerprintSample>,
    continuity: Seq<Score>,
    threshold: Score,
    min_gap: int,
    n: int,
) -> Seq<i32>
    decreases n,
{
    if n <= 0 {
        Seq::empty()
    } else {
        let before = changes_of(samples, continuity, threshold, min_gap, n - 1);
        let here = samples[n].timestamp_ms;
        if continuity[n - 1].below(threshold) && here - last_or_start(before) >= min_gap {
            before.push(here)
        } else {
            before
        }
    }
}

/// The distances between changes can be computed.
pub open spec fn changes_fit(
    samples: Seq<FingerprintSample>,
    continuity: Seq<Score>,
    threshold: Score,
    min_gap: int,
) -> bool {
    forall|n: int|
        0 < n < samples.len() && continuity[n - 1].below(threshold) ==> i32::MIN <= (
        #[trigger] samples[n]).timestamp_ms - last_or_start(
            changes_of(samples, continuity, threshold, min_gap, n - 1),
        ) <= i32::MAX
}

/// A continuity score belongs to every sample but the first.
pub open spec fn scored(samples: Seq<FingerprintSample>, continuity: Seq<Score>) -> bool {
    if samples.len() == 0 {
        continuity.len() == 0
    } else {
        continuity.len() == samples.len() - 1
    }
}

impl SceneChangeDetector {
    /// The points in time at which the scene changes, given how similar each sample is to the one
    /// before it.
    pub fn detect_changes(
        &self,
        timeline: &FingerprintTimeline,
        continuity: &Vec<Score>,
    ) -> (changes: Vec<i32>)
        requires
            scored(timeline.samples@, continuity@),
            changes_fit(
                timeline.samples@,
                continuity@,
                self.change_threshold,
                self.min_gap_ms as int,
            ),
        ensures
            changes@ == changes_of(
                timeline.samples@,
                continuity@,
                self.change_threshold,
                self.min_gap_ms as int,
                continuity@.len() as int,
            ),
    {
        let mut changes: Vec<i32> = Vec::new();
        let mut last_change: i32 = 0;
        for i in 0..continuity.len()
            invariant
                scored(timeline.samples@, continuity@),
                changes_fit(
                    timeline.samples@,
                    continuity@,
                    self.change_threshold,
                    self.min_gap_ms as int,
                ),
                last_change == last_or_start(changes@),
                changes@ == changes_of(
                    timeline.samples@,
                    continuity@,
                    self.change_threshold,
                    self.min_gap_ms as int,
                    i as int,
                ),
        {
            if continuity[i].lt(self.change_threshold) {
                let ts: i32 = timeline.samples[i + 1].timestamp_ms;
                assert(continuity@[(i + 1) - 1].below(self.change_threshold));
                assert(timeline.samples@[i + 1].timestamp_ms == ts);
                if ts - last_change >= self.min_gap_ms {
                    changes.push(ts);
                    last_change = ts;
                }
            }
        }
        changes
    }
}

/// Combines multiple detectors, using the best available method.
#[derive(Debug, Clone, Copy)]
pub struct AdaptiveSegmentDetector {
    pub duplicate_detector: DuplicateComparisonDetector,
    pub scene_detector: SceneChangeDetector,
}

impl Default for AdaptiveSegmentDetector {
    fn default() -> (r: Self)
        ensures
            r.duplicate_detector.match_threshold.bits == EIGHTY_FIVE_PERCENT,
            r.duplicate_detector.min_segment_ms == 5000,
            r.scene_detector.change_threshold.bits == SEVEN_TENTHS,
            r.scene_detector.min_gap_ms == 1000,
    {
        AdaptiveSegmentDetector {
            duplicate_detector: DuplicateComparisonDetector::default(),
            scene_detector: SceneChangeDetector::default(),
        }
    }
}

/// A stretch of content that nothing was compared with.
pub open spec fn assumed_content(start: i32, end: i32) -> SegmentFacts {
    SegmentFacts {
        start_ms: start,
        end_ms: end,
        segment_type: SegmentType::Content,
        confidence: Score { bits: HALF },
    }
}

/// The stretches between the first `n` changes, from the beginning on.
pub open spec fn stretches(changes: Seq<i32>, n: int) -> Seq<SegmentFacts> {
    Seq::new(
        n as nat,
        |i: int|
            assumed_content(
                if i == 0 {
                    0
                } else {
                    changes[i - 1]
                },
                changes[i],
            ),
    )
}

/// The stretches between the changes, and the rest of the timeline behind the last of them.
pub open spec fn scene_segments(changes: Seq<i32>, duration: i32) -> Seq<SegmentFacts> {
    let inner = stretches(changes, changes.len() as int);
    if last_or_start(changes) < duration {
        inner.push(assumed_content(last_or_start(changes) as i32, duration))
    } else {
        inner
    }
}

impl SegmentDetector for AdaptiveSegmentDetector {
    open spec fn accepts(&self, context: SegmentDetectionContext) -> bool {
        if context.comparisons@.len() > 0 {
            self.duplicate_detector.accepts(context)
        } else {
            &&& scored(context.primary.samples@, context.continuity@)
            &&& changes_fit(
                context.primary.samples@,
                context.continuity@,
                self.scene_detector.change_threshold,
                self.scene_detector.min_gap_ms as int,
            )
        }
    }

    open spec fn finds(&self, context: SegmentDetectionContext) -> Seq<SegmentFacts> {
        if context.comparisons@.len() > 0 {
            self.duplicate_detector.finds(context)
        } else {
            scene_segments(
                changes_of(
                    context.primary.samples@,
                    context.continuity@,
                    self.scene_detector.change_threshold,
                    self.scene_detector.min_gap_ms as int,
                    context.continuity@.len() as int,
                ),
                duration_of(context.primary.samples@),
            )
        }
    }

    fn detect(&self, context: &SegmentDetectionContext) -> (r: Result<Vec<Segment>, AnalysisError>) {
        if context.comparisons.len() > 0 {
            return self.duplicate_detector.detect(context);
        }
        let changes = self.scene_detector.detect_changes(context.primary, &context.continuity);
        let mut segments: Vec<Segment> = Vec::new();
        let mut start: i32 = 0;
        for i in 0..changes.len()
            invariant
                are_segments(segments@, stretches(changes@, i as int)),
                start == (if i == 0 {
                    0
                } else {
                    changes@[i - 1]
                }),
        {
            segments.push(segment(start, changes[i], SegmentType::Content, HALF));
            start = changes[i];
        }
        let duration: i32 = context.primary.duration_ms();
        if start < duration {
            segments.push(segment(start, duration, SegmentType::Content, HALF));
        }
        Ok(segments)
    }
}

/// The samples of a timeline come in order.
pub open spec fn in_order(samples: Seq<FingerprintSample>) -> bool {
    forall|i: int, j: int|
        0 <= i <= j < samples.len() ==> (#[trigger] samples[i]).timestamp_ms <= (
        #[trigger] samples[j]).timestamp_ms
}

/// `s` lasts at least `min` and lies between `from` and `to`.
pub open spec fn lies_between(s: SegmentFacts, min: int, from: int, to: int) -> bool {
    s.end_ms - s.start_ms >= min && from <= s.start_ms && s.end_ms <= to
}

proof fn lemma_closed_runs(
    samples: Seq<FingerprintSample>,
    flags: Seq<bool>,
    min: int,
    n: int,
)
    requires
        in_order(samples),
        flags.len() == samples.len(),
        0 < n <= samples.len(),
    ensures
        forall|i: int|
            0 <= i < closed_runs(samples, flags, min, n).len() ==> lies_between(
                #[trigger] closed_runs(samples, flags, min, n)[i],
                min,
                samples[0].timestamp_ms as int,
                samples[run_start(flags, n)].timestamp_ms as int,
            ),
        forall|i: int, j: int|
            0 <= i < j < closed_runs(samples, flags, min, n).len() ==> (
            #[trigger] closed_runs(samples, flags, min, n)[i]).end_ms <= (
            #[trigger] closed_runs(samples, flags, min, n)[j]).start_ms,
    decreases n,
{
    if n > 1 {
        lemma_closed_runs(samples, flags, min, n - 1);
        lemma_run_start(flags, n - 1);
        lemma_run_start(flags, n);
        let before = closed_runs(samples, flags, min, n - 1);
        let now = closed_runs(samples, flags, min, n);
        if flags[n - 1] != flags[n - 2] {
            let s = samples[run_start(flags, n - 1)].timestamp_ms;
            let e = samples[n - 1].timestamp_ms;
            let kept = kept_run(s, e, flags[n - 2], min);
            assert(now == before + kept);
            assert(s <= e);
            assert forall|i: int| 0 <= i < now.len() implies lies_between(
                #[trigger] now[i],
                min,
                samples[0].timestamp_ms as int,
                samples[run_start(flags, n)].timestamp_ms as int,
            ) by {
                if i < before.len() {
                    assert(now[i] == before[i]);
                    assert(lies_between(
                        before[i],
                        min,
                        samples[0].timestamp_ms as int,
                        s as int,
                    ));
                } else {
                    assert(now[i] == kept[i - before.len()]);
                }
            }
            assert forall|i: int, j: int| 0 <= i < j < now.len() implies (#[trigger] now[i]).end_ms
                <= (#[trigger] now[j]).start_ms by {
                assert(now[i] == before[i]);
                assert(lies_between(before[i], min, samples[0].timestamp_ms as int, s as int));
                if j < before.len() {
                    assert(now[j] == before[j]);
                } else {
                    assert(now[j] == kept[j - before.len()]);
                }
            }
        } else {
            assert(now == before);
        }
    }
}

/// In a timeline whose samples come in order, the segments found by comparison come in order, do not
/// overlap, last at least the minimum, and lie inside the timeline.
pub proof fn compared_segments_are_disjoint(
    samples: Seq<FingerprintSample>,
    flags: Seq<bool>,
    min: int,
    i: int,
)
    requires
        in_order(samples),
        flags.len() == samples.len(),
        0 <= i < all_runs(samples, flags, min).len(),
    ensures
        lies_between(
            all_runs(samples, flags, min)[i],
            min,
            samples[0].timestamp_ms as int,
            duration_of(samples) as int,
        ),
        i + 1 < all_runs(samples, flags, min).len() ==> all_runs(samples, flags, min)[i].end_ms
            <= all_runs(samples, flags, min)[i + 1].start_ms,
{
    let n = samples.len() as int;
    lemma_closed_runs(samples, flags, min, n);
    lemma_run_start(flags, n);
    let before = closed_runs(samples, flags, min, n);
    let all = all_runs(samples, flags, min);
    let last = kept_run(
        samples[run_start(flags, n)].timestamp_ms,
        duration_of(samples),
        flags[n - 1],
        min,
    );
    assert(all == before + last);
    if i < before.len() {
        assert(all[i] == before[i]);
        if i + 1 < before.len() {
            assert(all[i + 1] == before[i + 1]);
        } else if i + 1 < all.len() {
            assert(all[i + 1] == last[0]);
        }
    } else {
        assert(all[i] == last[0]);
    }
}

/// Two scene changes that follow each other are at least the minimum gap apart, and the first one
/// is at least as far from the beginning.
pub proof fn changes_keep_their_distance(
    samples: Seq<FingerprintSample>,
    continuity: Seq<Score>,
    threshold: Score,
    min_gap: int,
    n: int,
    i: int,
)
    requires
        0 <= i < changes_of(samples, continuity, threshold, min_gap, n).len(),
    ensures
        changes_of(samples, continuity, threshold, min_gap, n)[i] - (if i == 0 {
            0
        } else {
            changes_of(samples, continuity, threshold, min_gap, n)[i - 1] as int
        }) >= min_gap,
    decreases n,
{
    let before = changes_of(samples, continuity, threshold, min_gap, n - 1);
    if i < before.len() {
        changes_keep_their_distance(samples, continuity, threshold, min_gap, n - 1, i);
    }
}

/// The segments between scene changes follow each other without a gap, from the beginning on.
pub proof fn scene_segments_are_contiguous(changes: Seq<i32>, duration: i32, i: int)
    requires
        0 <= i < scene_segments(changes, duration).len(),
    ensures
        scene_segments(changes, duration)[i].start_ms == (if i == 0 {
            0
        } else {
            scene_segments(changes, duration)[i - 1].end_ms
        }),
        last_or_start(changes) < duration ==> scene_segments(changes, duration).last().end_ms
            == duration,
{
}

/// The offset of an alignment is added to the comparison timeline: where that timeline is the
/// primary one, lowered by the offset, each sample is compared with its own copy, and the two hashes
/// do not differ in any bit.
pub proof fn moved_copy_is_compared_with_itself(
    context: SegmentDetectionContext,
    i: int,
    j: int,
    c: Option<HashComparison>,
)
    requires
        0 <= i < context.primary.samples@.len(),
        0 <= j < aligned(context),
        is_moved_copy(
            context.primary.samples@,
            context.comparisons@[j].samples@,
            context.alignments@[j].offset_ms as int,
        ),
        is_comparison(c, context, i, j),
    ensures
        c matches Some(HashComparison::Bits { distance, bytes }) && distance == 0 && bytes
            == context.primary.samples@[i].hash@.len() as usize,
{
    let a = context.primary.samples@;
    let b = context.comparisons@[j].samples@;
    let d = context.alignments@[j].offset_ms as int;
    assert(b[i].timestamp_ms == a[i].timestamp_ms - d);
    let k = choose|k: int| #[trigger]
        is_nearest(b, adjusted(context, i, j), k) && c == Some(compared(a[i].hash@, b[k].hash@));
    assert(b[k].timestamp_ms == a[k].timestamp_ms - d);
    assert(apart(b[k].timestamp_ms as int, adjusted(context, i, j)) <= apart(
        b[i].timestamp_ms as int,
        adjusted(context, i, j),
    ));
    assert(k == i) by {
        if k < i {
            assert(a[k].timestamp_ms != a[i].timestamp_ms);
        } else if i < k {
            assert(a[i].timestamp_ms != a[k].timestamp_ms);
        }
    }
    hamming_zero_means_equal(a[i].hash@, b[i].hash@);
}

/// A sample is compared with the sample of the other timeline that lies nearest to it once the
/// offset has been added to that timeline.
pub proof fn nearest_sample_is_compared(
    context: SegmentDetectionContext,
    i: int,
    j: int,
    c: Option<HashComparison>,
) -> (k: int)
    requires
        0 <= i < context.primary.samples@.len(),
        0 <= j < aligned(context),
        context.comparisons@[j].samples@.len() > 0,
        is_comparison(c, context, i, j),
    ensures
        0 <= k < context.comparisons@[j].samples@.len(),
        c == Some(
            compared(
                context.primary.samples@[i].hash@,
                context.comparisons@[j].samples@[k].hash@,
            ),
        ),
        forall|l: int|
            0 <= l < context.comparisons@[j].samples@.len() ==> apart(
                context.comparisons@[j].samples@[k].timestamp_ms + context.alignments@[j].offset_ms,
                context.primary.samples@[i].timestamp_ms as int,
            ) <= apart(
                (#[trigger] context.comparisons@[j].samples@[l]).timestamp_ms
                    + context.alignments@[j].offset_ms,
                context.primary.samples@[i].timestamp_ms as int,
            ),
{
    let a = context.primary.samples@;
    let b = context.comparisons@[j].samples@;
    let k = choose|k: int| #[trigger]
        is_nearest(b, adjusted(context, i, j), k) && c == Some(compared(a[i].hash@, b[k].hash@));
    assert forall|l: int| 0 <= l < b.len() implies apart(
        b[k].timestamp_ms + context.alignments@[j].offset_ms,
        a[i].timestamp_ms as int,
    ) <= apart(
        (#[trigger] b[l]).timestamp_ms + context.alignments@[j].offset_ms,
        a[i].timestamp_ms as int,
    ) by {
        assert(apart(b[k].timestamp_ms as int, adjusted(context, i, j)) <= apart(
            b[l].timestamp_ms as int,
            adjusted(context, i, j),
        ));
    }
    k
}

/// A timeline counts where it has an alignment: there are as many aligned timelines as the smaller
/// of the two lists has entries.
pub proof fn every_alignment_has_a_timeline(context: SegmentDetectionContext)
    ensures
        aligned(context) <= context.comparisons@.len(),
        aligned(context) <= context.alignments@.len(),
        aligned(context) == context.comparisons@.len() || aligned(context)
            == context.alignments@.len(),
{
}

/// A sample without any counterpart is no content. One counterpart decides alone. A further
/// recording in which there is no counterpart changes nothing, and one in which there is a
/// counterpart never turns a sample that was compared and is no content into content.
pub proof fn every_recording_has_a_say(
    row: Seq<Option<Score>>,
    further: Option<Score>,
    s: Score,
    threshold: Score,
    j: int,
)
    requires
        0 <= j < row.len(),
        row[j] is Some,
    ensures
        !is_content(Seq::empty(), threshold),
        is_content(seq![Some(s)], threshold) <==> s.at_least(threshold),
        is_content(row.push(None), threshold) <==> is_content(row, threshold),
        is_content(row.push(Some(s)), threshold) <==> is_content(row, threshold) && s.at_least(
            threshold,
        ),
        is_content(row.push(further), threshold) ==> is_content(row, threshold),
{
    assert(seq![Some(s)][0] is Some);
    assert forall|x: Option<Score>| #[trigger] is_content(row.push(x), threshold) <==> is_content(
        row,
        threshold,
    ) && (x matches Some(t) ==> t.at_least(threshold)) by {
        assert(row.push(x)[j] == row[j]);
        assert(forall|l: int| 0 <= l < row.len() ==> row.push(x)[l] == #[trigger] row[l]);
        assert(row.push(x)[row.len() as int] == x);
    }
}

/// The samples `from..to` are all of one kind, and no longer stretch of samples is.
pub open spec fn is_run(flags: Seq<bool>, from: int, to: int) -> bool {
    &&& 0 <= from < to <= flags.len()
    &&& forall|k: int| from <= k < to ==> #[trigger] flags[k] == flags[from]
    &&& from > 0 ==> flags[from - 1] != flags[from]
    &&& to < flags.len() ==> flags[to] != flags[from]
}

proof fn lemma_run_begins(flags: Seq<bool>, from: int, to: int)
    requires
        0 <= from < to <= flags.len(),
        forall|k: int| from <= k < to ==> #[trigger] flags[k] == flags[from],
        from > 0 ==> flags[from - 1] != flags[from],
    ensures
        run_start(flags, to) == from,
    decreases to,
{
    if to > from + 1 {
        assert(flags[to - 1] == flags[from]);
        assert(flags[to - 2] == flags[from]);
        lemma_run_begins(flags, from, to - 1);
    }
}

proof fn lemma_closed_run_is_kept(
    samples: Seq<FingerprintSample>,
    flags: Seq<bool>,
    min: int,
    from: int,
    to: int,
    n: int,
) -> (i: int)
    requires
        flags.len() == samples.len(),
        is_run(flags, from, to),
        to < n <= samples.len(),
        samples[to].timestamp_ms - samples[from].timestamp_ms >= min,
    ensures
        0 <= i < closed_runs(samples, flags, min, n).len(),
        closed_runs(samples, flags, min, n)[i].start_ms == samples[from].timestamp_ms,
        closed_runs(samples, flags, min, n)[i].end_ms == samples[to].timestamp_ms,
        closed_runs(samples, flags, min, n)[i].segment_type == kind_of(flags[from]),
    decreases n,
{
    let before = closed_runs(samples, flags, min, n - 1);
    if to == n - 1 {
        lemma_run_begins(flags, from, to);
        assert(flags[to - 1] == flags[from]);
        before.len() as int
    } else {
        lemma_closed_run_is_kept(samples, flags, min, from, to, n - 1)
    }
}

/// Every longest stretch of samples of one kind that lasts at least the minimum is a segment of that
/// kind. It lasts from its first sample to the first sample behind it, the last one to the end of
/// the timeline.
pub proof fn long_runs_are_segments(
    samples: Seq<FingerprintSample>,
    flags: Seq<bool>,
    min: int,
    from: int,
    to: int,
) -> (i: int)
    requires
        flags.len() == samples.len(),
        is_run(flags, from, to),
        samples[if to < samples.len() {
            to
        } else {
            to - 1
        }].timestamp_ms - samples[from].timestamp_ms >= min,
    ensures
        0 <= i < all_runs(samples, flags, min).len(),
        all_runs(samples, flags, min)[i].start_ms == samples[from].timestamp_ms,
        all_runs(samples, flags, min)[i].end_ms == samples[if to < samples.len() {
            to
        } else {
            to - 1
        }].timestamp_ms,
        all_runs(samples, flags, min)[i].segment_type == (if flags[from] {
            SegmentType::Content
        } else {
            SegmentType::Commercial
        }),
{
    let n = samples.len() as int;
    let before = closed_runs(samples, flags, min, n);
    if to < n {
        lemma_closed_run_is_kept(samples, flags, min, from, to, n)
    } else {
        lemma_run_begins(flags, from, to);
        assert(flags[to - 1] == flags[from]);
        before.len() as int
    }
}

proof fn lemma_run_is_even(flags: Seq<bool>, n: int)
    requires
        0 < n <= flags.len(),
    ensures
        0 <= run_start(flags, n) < n,
        forall|k: int| run_start(flags, n) <= k < n ==> #[trigger] flags[k] == flags[n - 1],
    decreases n,
{
    if n > 1 && flags[n - 1] == flags[n - 2] {
        lemma_run_is_even(flags, n - 1);
    }
}

/// No two samples lie at the same point in time, and the samples come in order.
pub open spec fn ascending(samples: Seq<FingerprintSample>) -> bool {
    forall|i: int, j: int|
        0 <= i < j < samples.len() ==> (#[trigger] samples[i]).timestamp_ms < (
        #[trigger] samples[j]).timestamp_ms
}

proof fn lemma_closed_runs_are_even(
    samples: Seq<FingerprintSample>,
    flags: Seq<bool>,
    min: int,
    n: int,
    i: int,
    k: int,
)
    requires
        ascending(samples),
        flags.len() == samples.len(),
        0 < n <= samples.len(),
        0 <= i < closed_runs(samples, flags, min, n).len(),
        0 <= k < samples.len(),
        closed_runs(samples, flags, min, n)[i].start_ms <= samples[k].timestamp_ms
            < closed_runs(samples, flags, min, n)[i].end_ms,
    ensures
        closed_runs(samples, flags, min, n)[i].segment_type == kind_of(flags[k]),
    decreases n,
{
    let before = closed_runs(samples, flags, min, n - 1);
    if i < before.len() {
        lemma_closed_runs_are_even(samples, flags, min, n - 1, i, k);
    } else {
        let s = run_start(flags, n - 1);
        lemma_run_is_even(flags, n - 1);
        assert(s <= k < n - 1) by {
            if k < s {
                assert(samples[k].timestamp_ms < samples[s].timestamp_ms);
            } else if n - 1 < k {
                assert(samples[n - 1].timestamp_ms < samples[k].timestamp_ms);
            }
        }
        assert(flags[k] == flags[n - 2]);
    }
}

/// Every sample inside a segment is of the kind of the segment.
pub proof fn segments_hold_one_kind(
    samples: Seq<FingerprintSample>,
    flags: Seq<bool>,
    min: int,
    i: int,
    k: int,
)
    requires
        ascending(samples),
        flags.len() == samples.len(),
        0 <= i < all_runs(samples, flags, min).len(),
        0 <= k < samples.len(),
        all_runs(samples, flags, min)[i].start_ms <= samples[k].timestamp_ms < all_runs(
            samples,
            flags,
            min,
        )[i].end_ms,
    ensures
        all_runs(samples, flags, min)[i].segment_type == (if flags[k] {
            SegmentType::Content
        } else {
            SegmentType::Commercial
        }),
{
    let n = samples.len() as int;
    let before = closed_runs(samples, flags, min, n);
    if i < before.len() {
        lemma_closed_runs_are_even(samples, flags, min, n, i, k);
    } else {
        let s = run_start(flags, n);
        lemma_run_is_even(flags, n);
        if k < s {
            assert(samples[k].timestamp_ms < samples[s].timestamp_ms);
        }
        assert(flags[k] == flags[n - 1]);
    }
}

/// A scene changes only at a sample that is less similar to its predecessor than the threshold.
pub proof fn changes_are_sudden(
    samples: Seq<FingerprintSample>,
    continuity: Seq<Score>,
    threshold: Score,
    min_gap: int,
    n: int,
    i: int,
) -> (m: int)
    requires
        0 <= i < changes_of(samples, continuity, threshold, min_gap, n).len(),
    ensures
        0 < m <= n,
        changes_of(samples, continuity, threshold, min_gap, n)[i] == samples[m].timestamp_ms,
        continuity[m - 1].below(threshold),
    decreases n,
{
    let before = changes_of(samples, continuity, threshold, min_gap, n - 1);
    if i < before.len() {
        changes_are_sudden(samples, continuity, threshold, min_gap, n - 1, i)
    } else {
        n
    }
}

proof fn lemma_changes_stay(
    samples: Seq<FingerprintSample>,
    continuity: Seq<Score>,
    threshold: Score,
    min_gap: int,
    m: int,
    n: int,
    c: i32,
)
    requires
        0 <= m <= n,
        changes_of(samples, continuity, threshold, min_gap, m).contains(c),
    ensures
        changes_of(samples, continuity, threshold, min_gap, n).contains(c),
    decreases n,
{
    if m < n {
        lemma_changes_stay(samples, continuity, threshold, min_gap, m, n - 1, c);
        let before = changes_of(samples, continuity, threshold, min_gap, n - 1);
        let now = changes_of(samples, continuity, threshold, min_gap, n);
        let at = choose|at: int| 0 <= at < before.len() && before[at] == c;
        assert(now[at] == c);
    }
}

/// A sample that is less similar to its predecessor than the threshold and yet no change follows
/// another change, or the beginning, by less than the minimum gap.
pub proof fn no_change_is_missed(
    samples: Seq<FingerprintSample>,
    continuity: Seq<Score>,
    threshold: Score,
    min_gap: int,
    n: int,
    m: int,
) -> (c: i32)
    requires
        0 < m <= n,
        continuity[m - 1].below(threshold),
        !changes_of(samples, continuity, threshold, min_gap, n).contains(samples[m].timestamp_ms),
    ensures
        c == 0 || changes_of(samples, continuity, threshold, min_gap, n).contains(c),
        samples[m].timestamp_ms - c < min_gap,
{
    let before = changes_of(samples, continuity, threshold, min_gap, m - 1);
    let later = changes_of(samples, continuity, threshold, min_gap, m);
    let here = samples[m].timestamp_ms;
    if here - last_or_start(before) >= min_gap {
        assert(later[before.len() as int] == here);
        lemma_changes_stay(samples, continuity, threshold, min_gap, m, n, here);
    }
    if before.len() == 0 {
        0
    } else {
        assert(before[before.len() - 1] == before.last());
        lemma_changes_stay(samples, continuity, threshold, min_gap, m - 1, n, before.last());
        before.last()
    }
}

/// Two samples that follow each other differ in no bit if and only if their hashes are equal, and the
/// order of the two does not matter.
pub proof fn still_pictures_do_not_differ(samples: Seq<FingerprintSample>, i: int)
    requires
        0 <= i < samples.len() - 1,
        countable(samples[i].hash@, samples[i + 1].hash@),
    ensures
        neighbours(samples).len() == samples.len() - 1,
        (neighbours(samples)[i] matches HashComparison::Bits { distance, .. } && distance == 0)
            <==> samples[i].hash@ == samples[i + 1].hash@,
        neighbours(samples.reverse())[samples.len() - 2 - i] == HashComparison::Unlike
            <==> samples[i].hash@.len() != samples[i + 1].hash@.len(),
        samples[i].hash@.len() == samples[i + 1].hash@.len() ==> neighbours(
            samples.reverse(),
        )[samples.len() - 2 - i] == neighbours(samples)[i],
{
    let a = samples[i].hash@;
    let b = samples[i + 1].hash@;
    if a.len() == b.len() {
        hamming_zero_means_equal(a, b);
        hamming_is_symmetric(a, b);
    }
}

/// Where the changes come in order inside the timeline, no segment between them is empty.
pub proof fn scene_segments_last(changes: Seq<i32>, duration: i32, i: int)
    requires
        forall|k: int, l: int|
            0 <= k < l < changes.len() ==> #[trigger] changes[k] < #[trigger] changes[l],
        changes.len() > 0 ==> 0 < changes[0],
        0 <= i < scene_segments(changes, duration).len(),
    ensures
        scene_segments(changes, duration)[i].start_ms < scene_segments(changes, duration)[i].end_ms,
        scene_segments(changes, duration)[i].segment_type == SegmentType::Content,
{
}

proof fn lemma_run_is_maximal(flags: Seq<bool>, n: int)
    requires
        0 < n <= flags.len(),
    ensures
        run_start(flags, n) > 0 ==> flags[run_start(flags, n) - 1] != flags[run_start(flags, n)],
    decreases n,
{
    if n > 1 && flags[n - 1] == flags[n - 2] {
        lemma_run_is_maximal(flags, n - 1);
    }
}

/// Every segment is a longest stretch of samples of one kind: it lasts from the first sample of the
/// stretch to the first sample behind it, the last one to the end of the timeline.
pub proof fn segments_are_runs(
    samples: Seq<FingerprintSample>,
    flags: Seq<bool>,
    min: int,
    i: int,
) -> (r: (int, int))
    requires
        flags.len() == samples.len(),
        0 <= i < all_runs(samples, flags, min).len(),
    ensures
        is_run(flags, r.0, r.1),
        all_runs(samples, flags, min)[i].start_ms == samples[r.0].timestamp_ms,
        all_runs(samples, flags, min)[i].end_ms == samples[if r.1 < samples.len() {
            r.1
        } else {
            r.1 - 1
        }].timestamp_ms,
        all_runs(samples, flags, min)[i].confidence == (Score { bits: EIGHT_TENTHS }),
{
    lemma_kind_of_run(samples, flags, min, i)
}

impl DuplicateComparisonDetector {
    /// A sample inside a segment of content matches all recordings that it was compared with, at
    /// least as well as the threshold asks for, and was compared with one. A sample inside a
    /// commercial was compared with none, or does not match one of them. Without another recording
    /// nothing is found.
    pub proof fn content_matches_all_recordings(
        self,
        context: SegmentDetectionContext,
        i: int,
        k: int,
    )
        requires
            self.accepts(context),
            ascending(context.primary.samples@),
            0 <= i < self.finds(context).len(),
            0 <= k < context.primary.samples@.len(),
            self.finds(context)[i].start_ms <= context.primary.samples@[k].timestamp_ms
                < self.finds(context)[i].end_ms,
        ensures
            context.comparisons@.len() > 0,
            self.finds(context)[i].segment_type == SegmentType::Content <==> {
                &&& exists|j: int|
                    0 <= j < context.similarities@[k]@.len()
                        && #[trigger] context.similarities@[k]@[j] is Some
                &&& forall|j: int|
                    0 <= j < context.similarities@[k]@.len() && (
                    #[trigger] context.similarities@[k]@[j]) is Some
                        ==> context.similarities@[k]@[j]->0.at_least(self.match_threshold)
            },
            self.finds(context)[i].segment_type != SegmentType::Content ==> self.finds(
                context,
            )[i].segment_type == SegmentType::Commercial,
    {
        let flags = content_flags(context.similarities@, self.match_threshold);
        segments_hold_one_kind(
            context.primary.samples@,
            flags,
            self.min_segment_ms as int,
            i,
            k,
        );
        let row = context.similarities@[k]@;
        assert(flags[k] == is_content(row, self.match_threshold));
    }

    /// No segment is shorter than the minimum, and a smaller minimum leaves every segment in.
    pub proof fn smaller_minimum_finds_more(
        self,
        other: DuplicateComparisonDetector,
        context: SegmentDetectionContext,
        i: int,
    ) -> (j: int)
        requires
            self.accepts(context),
            other.match_threshold == self.match_threshold,
            0 <= i < self.finds(context).len(),
            other.min_segment_ms <= self.finds(context)[i].end_ms - self.finds(context)[i].start_ms,
        ensures
            self.finds(context)[i].end_ms - self.finds(context)[i].start_ms >= self.min_segment_ms,
            0 <= j < other.finds(context).len(),
            other.finds(context)[j] == self.finds(context)[i],
    {
        let samples = context.primary.samples@;
        let flags = content_flags(context.similarities@, self.match_threshold);
        let (from, to) = lemma_kind_of_run(samples, flags, self.min_segment_ms as int, i);
        let j = long_runs_are_segments(samples, flags, other.min_segment_ms as int, from, to);
        segments_are_runs(samples, flags, other.min_segment_ms as int, j);
        j
    }
}

proof fn lemma_kind_of_run(
    samples: Seq<FingerprintSample>,
    flags: Seq<bool>,
    min: int,
    i: int,
) -> (r: (int, int))
    requires
        flags.len() == samples.len(),
        0 <= i < all_runs(samples, flags, min).len(),
    ensures
        is_run(flags, r.0, r.1),
        all_runs(samples, flags, min)[i].start_ms == samples[r.0].timestamp_ms,
        all_runs(samples, flags, min)[i].end_ms == samples[if r.1 < samples.len() {
            r.1
        } else {
            r.1 - 1
        }].timestamp_ms,
        all_runs(samples, flags, min)[i].segment_type == kind_of(flags[r.0]),
        all_runs(samples, flags, min)[i].confidence == (Score { bits: EIGHT_TENTHS }),
        all_runs(samples, flags, min)[i].end_ms - all_runs(samples, flags, min)[i].start_ms >= min,
{
    let n = samples.len() as int;
    let before = closed_runs(samples, flags, min, n);
    if i < before.len() {
        lemma_kind_of_closed_run(samples, flags, min, n, i)
    } else {
        lemma_run_is_even(flags, n);
        lemma_run_is_maximal(flags, n);
        assert(flags[run_start(flags, n)] == flags[n - 1]);
        (run_start(flags, n), n)
    }
}

proof fn lemma_kind_of_closed_run(
    samples: Seq<FingerprintSample>,
    flags: Seq<bool>,
    min: int,
    n: int,
    i: int,
) -> (r: (int, int))
    requires
        flags.len() == samples.len(),
        0 < n <= samples.len(),
        0 <= i < closed_runs(samples, flags, min, n).len(),
    ensures
        is_run(flags, r.0, r.1),
        r.1 < n,
        closed_runs(samples, flags, min, n)[i].start_ms == samples[r.0].timestamp_ms,
        closed_runs(samples, flags, min, n)[i].end_ms == samples[r.1].timestamp_ms,
        closed_runs(samples, flags, min, n)[i].segment_type == kind_of(flags[r.0]),
        closed_runs(samples, flags, min, n)[i].confidence == (Score { bits: EIGHT_TENTHS }),
        closed_runs(samples, flags, min, n)[i].end_ms - closed_runs(
            samples,
            flags,
            min,
            n,
        )[i].start_ms >= min,
    decreases n,
{
    let before = closed_runs(samples, flags, min, n - 1);
    if i < before.len() {
        lemma_kind_of_closed_run(samples, flags, min, n - 1, i)
    } else {
        lemma_run_is_even(flags, n - 1);
        lemma_run_is_maximal(flags, n - 1);
        assert(flags[run_start(flags, n - 1)] == flags[n - 2]);
        (run_start(flags, n - 1), n - 1)
    }
}

impl AdaptiveSegmentDetector {
    /// With another recording the segments are those that the comparison finds. Without one they are
    /// all content, follow each other without a gap from the beginning, and end where the scene
    /// changes, the last one at the end of the timeline.
    pub proof fn best_method_is_used(self, context: SegmentDetectionContext, i: int)
        ensures
            context.comparisons@.len() > 0 ==> self.finds(context)
                == self.duplicate_detector.finds(context),
            context.comparisons@.len() == 0 && 0 <= i < self.finds(context).len() ==> {
                let changes = changes_of(
                    context.primary.samples@,
                    context.continuity@,
                    self.scene_detector.change_threshold,
                    self.scene_detector.min_gap_ms as int,
                    context.continuity@.len() as int,
                );
                &&& self.finds(context)[i].segment_type == SegmentType::Content
                &&& self.finds(context)[i].confidence == (Score { bits: HALF })
                &&& self.finds(context)[i].start_ms == (if i == 0 {
                    0
                } else {
                    self.finds(context)[i - 1].end_ms
                })
                &&& i < changes.len() ==> self.finds(context)[i].end_ms == changes[i]
                &&& i >= changes.len() ==> i == changes.len() && self.finds(context)[i].end_ms
                    == duration_of(context.primary.samples@)
            },
            context.comparisons@.len() == 0 && context.continuity@.len() == 0 && duration_of(
                context.primary.samples@,
            ) > 0 ==> self.finds(context).len() == 1,
    {
    }
}

/// A sample is compared with a timeline if and only if that has samples.
pub proof fn empty_timelines_compare_with_nothing(
    context: SegmentDetectionContext,
    i: int,
    j: int,
    c: Option<HashComparison>,
)
    requires
        0 <= i < context.primary.samples@.len(),
        0 <= j < aligned(context),
        is_comparison(c, context, i, j),
    ensures
        c is Some <==> context.comparisons@[j].samples@.len() > 0,
{
}

}

//! Timelines of fingerprints and what is found in them.
use crate::scanner::fingerprint::{
    countable, hamming, hamming_is_bounded, hamming_is_symmetric, hamming_zero_means_equal,
    Fingerprinter,
};
use crate::score::Score;
use std::collections::HashMap;
use vstd::prelude::*;

verus! {

/// A point in a fingerprint timeline.
#[derive(Debug, Clone)]
pub struct FingerprintSample {
    pub timestamp_ms: i32,
    pub hash: Vec<u8>,
}

/// A dense fingerprint timeline for a piece of content.
#[derive(Debug, Clone)]
pub struct FingerprintTimeline {
    pub samples: Vec<FingerprintSample>,
    pub sample_interval_ms: i32,
}

/// The difference of two points in time can be computed with 32 bits, and so can its magnitude.
pub open spec fn spans(a: int, b: int) -> bool {
    i32::MIN < a - b <= i32::MAX
}

/// How far two points in time are apart.
pub open spec fn apart(a: int, b: int) -> int {
    if a >= b {
        a - b
    } else {
        b - a
    }
}

/// Sample `i` is the one that lies nearest to `timestamp_ms`, the first of them where there are
/// several.
pub open spec fn is_nearest(samples: Seq<FingerprintSample>, timestamp_ms: int, i: int) -> bool {
    &&& 0 <= i < samples.len()
    &&& forall|j: int|
        0 <= j < samples.len() ==> apart(samples[i].timestamp_ms as int, timestamp_ms) <= apart(
            (#[trigger] samples[j]).timestamp_ms as int,
            timestamp_ms,
        )
    &&& forall|j: int|
        0 <= j < i ==> apart(samples[i].timestamp_ms as int, timestamp_ms) < apart(
            (#[trigger] samples[j]).timestamp_ms as int,
            timestamp_ms,
        )
}

/// The distance of `timestamp_ms` from every sample can be computed.
pub open spec fn within_reach(samples: Seq<FingerprintSample>, timestamp_ms: int) -> bool {
    forall|j: int|
        0 <= j < samples.len() ==> spans(
            (#[trigger] samples[j]).timestamp_ms as int,
            timestamp_ms,
        )
}

/// There is at most one nearest sample.
pub proof fn nearest_is_unique(samples: Seq<FingerprintSample>, timestamp_ms: int, i: int, j: int)
    requires
        is_nearest(samples, timestamp_ms, i),
        is_nearest(samples, timestamp_ms, j),
    ensures
        i == j,
{
    if i < j {
        assert(apart(samples[j].timestamp_ms as int, timestamp_ms) < apart(
            samples[i].timestamp_ms as int,
            timestamp_ms,
        ));
    } else if j < i {
        assert(apart(samples[i].timestamp_ms as int, timestamp_ms) < apart(
            samples[j].timestamp_ms as int,
            timestamp_ms,
        ));
    }
}

/// `b` is the timeline `a` with every point in time lowered by `d`, and no two samples of it lie at
/// the same point in time.
pub open spec fn is_moved_copy(
    a: Seq<FingerprintSample>,
    b: Seq<FingerprintSample>,
    d: int,
) -> bool {
    &&& a.len() == b.len()
    &&& forall|k: int|
        0 <= k < a.len() ==> (#[trigger] b[k]).timestamp_ms == a[k].timestamp_ms - d && b[k].hash@
            == a[k].hash@
    &&& forall|k: int, l: int|
        0 <= k < l < a.len() ==> (#[trigger] a[k]).timestamp_ms != (#[trigger] a[l]).timestamp_ms
}

/// The length of a timeline: the point in time of its last sample, zero where it has none.
pub open spec fn duration_of(samples: Seq<FingerprintSample>) -> i32 {
    if samples.len() == 0 {
        0
    } else {
        samples.last().timestamp_ms
    }
}

/// How far `a` and `b` are apart.
pub fn gap(a: i32, b: i32) -> (r: i32)
    requires
        spans(a as int, b as int),
    ensures
        r == apart(a as int, b as int),
{
    let d: i32 = a - b;
    if d < 0 {
        -d
    } else {
        d
    }
}

impl FingerprintTimeline {
    /// The point in time of the last sample, zero where there is none.
    pub fn duration_ms(&self) -> (r: i32)
        ensures
            r == duration_of(self.samples@),
    {
        if self.samples.len() == 0 {
            0
        } else {
            self.samples[self.samples.len() - 1].timestamp_ms
        }
    }

    /// The position of the sample that lies nearest to a point in time.
    pub fn nearest(&self, timestamp_ms: i32) -> (r: Option<usize>)
        requires
            within_reach(self.samples@, timestamp_ms as int),
        ensures
            match r {
                Some(i) => is_nearest(self.samples@, timestamp_ms as int, i as int),
                None => self.samples@.len() == 0,
            },
    {
        if self.samples.len() == 0 {
            return None;
        }
        let mut best: usize = 0;
        assert(spans(self.samples@[0].timestamp_ms as int, timestamp_ms as int));
        let mut distance: i32 = gap(self.samples[0].timestamp_ms, timestamp_ms);
        for i in 1..self.samples.len()
            invariant
                within_reach(self.samples@, timestamp_ms as int),
                best < i,
                i <= self.samples@.len(),
                distance == apart(
                    self.samples@[best as int].timestamp_ms as int,
                    timestamp_ms as int,
                ),
                forall|j: int|
                    0 <= j < i ==> distance <= apart(
                        (#[trigger] self.samples@[j]).timestamp_ms as int,
                        timestamp_ms as int,
                    ),
                forall|j: int|
                    0 <= j < best ==> distance < apart(
                        (#[trigger] self.samples@[j]).timestamp_ms as int,
                        timestamp_ms as int,
                    ),
        {
            assert(spans(self.samples@[i as int].timestamp_ms as int, timestamp_ms as int));
            let here: i32 = gap(self.samples[i].timestamp_ms, timestamp_ms);
            if here < distance {
                best = i;
                distance = here;
            }
        }
        Some(best)
    }

    /// The sample that lies nearest to a point in time.
    pub fn sample_at(&self, timestamp_ms: i32) -> (r: Option<&FingerprintSample>)
        requires
            within_reach(self.samples@, timestamp_ms as int),
        ensures
            match r {
                Some(s) => exists|i: int| #[trigger]
                    is_nearest(self.samples@, timestamp_ms as int, i) && *s == self.samples@[i],
                None => self.samples@.len() == 0,
            },
    {
        match self.nearest(timestamp_ms) {
            Some(i) => {
                assert(is_nearest(self.samples@, timestamp_ms as int, i as int));
                Some(&self.samples[i])
            },
            None => None,
        }
    }
}

/// How two hashes compare.
#[derive(Debug, Clone, Copy, PartialEq, Eq, Structural)]
pub enum HashComparison {
    /// The hashes have different lengths and nothing in common.
    Unlike,
    /// The hashes have `bytes` bytes and differ in `distance` bits.
    Bits { distance: u32, bytes: usize },
}

/// The comparison of two hashes.
pub open spec fn compared(a: Seq<u8>, b: Seq<u8>) -> HashComparison {
    if a.len() != b.len() {
        HashComparison::Unlike
    } else {
        HashComparison::Bits { distance: hamming(a, b) as u32, bytes: a.len() as usize }
    }
}

/// Compares two hashes bit by bit. The similarity of the two is the part of the bits that agree.
pub fn hash_similarity(a: &[u8], b: &[u8]) -> (r: HashComparison)
    requires
        countable(a@, b@),
    ensures
        r == compared(a@, b@),
{
    if a.len() != b.len() {
        return HashComparison::Unlike;
    }
    HashComparison::Bits { distance: Fingerprinter::hamming_distance(a, b), bytes: a.len() }
}

/// A detected segment within content.
#[derive(Debug, Clone)]
pub struct Segment {
    pub start_ms: i32,
    pub end_ms: i32,
    pub segment_type: SegmentType,
    pub confidence: Score,
    pub metadata: SegmentMetadata,
}

/// The kinds of segments.
#[derive(Debug, Clone, Copy, PartialEq, Eq, Structural)]
pub enum SegmentType {
    Content,
    Commercial,
    Intro,
    Outro,
    Recap,
    Preview,
    Unknown,
}

/// What else is known of a segment.
#[derive(Debug, Clone)]
pub struct SegmentMetadata {
    /// Which source(s) contributed to detecting this segment.
    pub sources: Vec<String>,
    /// Quality score if evaluated.
    pub quality_score: Option<Score>,
    /// Additional key-value data.
    pub extra: HashMap<String, String>,
}

impl SegmentMetadata {
    /// Nothing is known.
    pub open spec fn is_blank(self) -> bool {
        &&& self.sources@.len() == 0
        &&& self.quality_score is None
        &&& self.extra@ == Map::<String, String>::empty()
    }
}

impl Default for SegmentMetadata {
    fn default() -> (r: Self)
        ensures
            r.is_blank(),
    {
        SegmentMetadata { sources: Vec::new(), quality_score: None, extra: HashMap::new() }
    }
}

/// Alignment between two timelines.
#[derive(Debug, Clone)]
pub struct TimelineAlignment {
    /// Offset to add to timeline B to align with timeline A.
    pub offset_ms: i32,
    /// Confidence in the alignment (0.0 - 1.0).
    pub confidence: Score,
    /// Matched sample pairs (index_a, index_b, similarity).
    pub matched_samples: Vec<(usize, usize, Score)>,
}

/// Quality assessment for a segment or frame.
#[derive(Debug, Clone)]
pub struct QualityAssessment {
    pub overall_score: Score,
    pub metrics: QualityMetrics,
}

/// The parts of a quality assessment.
#[derive(Debug, Clone)]
pub struct QualityMetrics {
    /// Watermark severity (0.0 = none, 1.0 = severe).
    pub watermark_score: Option<Score>,
    /// Compression artifact severity.
    pub artifact_score: Option<Score>,
    /// Brightness/contrast quality.
    pub exposure_score: Option<Score>,
    /// Sharpness/blur assessment.
    pub sharpness_score: Option<Score>,
}

impl Default for QualityMetrics {
    fn default() -> (r: Self)
        ensures
            r.watermark_score is None,
            r.artifact_score is None,
            r.exposure_score is None,
            r.sharpness_score is None,
    {
        QualityMetrics {
            watermark_score: None,
            artifact_score: None,
            exposure_score: None,
            sharpness_score: None,
        }
    }
}

/// What went wrong in an analysis.
#[derive(Debug, Clone)]
pub struct AnalysisError {
    pub message: String,
}

/// Extracts dense fingerprint timelines from video files.
pub trait TimelineExtractor {
    fn extract(&self, video_path: &str, interval_ms: i32) -> Result<
        FingerprintTimeline,
        AnalysisError,
    >;
}

/// Aligns two fingerprint timelines to find temporal offset.
pub trait TimelineAligner {
    fn align(
        &self,
        timeline_a: &FingerprintTimeline,
        timeline_b: &FingerprintTimeline,
    ) -> Result<TimelineAlignment, AnalysisError>;
}

/// Context provided to segment detectors.
#[derive(Debug)]
pub struct SegmentDetectionContext<'a> {
    /// The primary timeline being analyzed.
    pub primary: &'a FingerprintTimeline,
    /// Other timelines of the same content (for comparison-based detection).
    pub comparisons: Vec<&'a FingerprintTimeline>,
    /// Alignments between primary and comparison timelines.
    pub alignments: Vec<&'a TimelineAlignment>,
    /// For each sample of the primary timeline, how similar it is to its counterpart in each
    /// comparison timeline; nothing where a comparison timeline has no samples.
    pub similarities: Vec<Vec<Option<Score>>>,
    /// How similar each sample of the primary timeline but the first is to the one before it.
    pub continuity: Vec<Score>,
}

/// What a detector says of a segment, apart from its metadata.
pub struct SegmentFacts {
    pub start_ms: i32,
    pub end_ms: i32,
    pub segment_type: SegmentType,
    pub confidence: Score,
}

/// `s` is a segment with the given facts and no metadata.
pub open spec fn is_segment(s: Segment, f: SegmentFacts) -> bool {
    &&& s.start_ms == f.start_ms
    &&& s.end_ms == f.end_ms
    &&& s.segment_type == f.segment_type
    &&& s.confidence == f.confidence
    &&& s.metadata.is_blank()
}

/// `list` holds segments with the given facts, in their order.
pub open spec fn are_segments(list: Seq<Segment>, facts: Seq<SegmentFacts>) -> bool {
    &&& list.len() == facts.len()
    &&& forall|i: int| 0 <= i < list.len() ==> is_segment(#[trigger] list[i], facts[i])
}

/// Detects segment boundaries within content.
pub trait SegmentDetector {
    /// The detector can work on a context: the similarities are those of its samples, and the
    /// lengths of its segments can be computed.
    spec fn accepts(&self, context: SegmentDetectionContext) -> bool;

    /// The segments that the detector finds.
    spec fn finds(&self, context: SegmentDetectionContext) -> Seq<SegmentFacts>;

    /// Finds the segments of the primary timeline.
    fn detect(&self, context: &SegmentDetectionContext) -> (r: Result<Vec<Segment>, AnalysisError>)
        requires
            self.accepts(*context),
        ensures
            r matches Ok(list) && are_segments(list@, self.finds(*context)),
    ;
}

/// Scores segment quality to help choose best source.
pub trait SegmentScorer {
    fn score(&self, video_path: &str, segment: &Segment) -> Result<
        QualityAssessment,
        AnalysisError,
    >;
}

/// Determines if two fingerprint sets represent the same content.
pub trait ContentMatcher {
    fn matches(
        &self,
        timeline_a: &FingerprintTimeline,
        timeline_b: &FingerprintTimeline,
    ) -> Result<ContentMatch, AnalysisError>;
}

/// Whether two timelines show the same content.
#[derive(Debug, Clone)]
pub struct ContentMatch {
    pub is_match: bool,
    pub confidence: Score,
    pub alignment: Option<TimelineAlignment>,
}

/// Generates output from analyzed content (chapters, EDL, composite video).
pub trait ContentRenderer {
    fn render(&self, context: &RenderContext) -> Result<RenderOutput, AnalysisError>;
}

/// What a renderer works on.
#[derive(Debug)]
pub struct RenderContext<'a> {
    pub segments: &'a [Segment],
    pub sources: Vec<RenderSource<'a>>,
    pub options: RenderOptions,
}

/// A recording that a renderer may draw on.
#[derive(Debug)]
pub struct RenderSource<'a> {
    pub path: &'a str,
    pub timeline: &'a FingerprintTimeline,
    pub alignment: Option<&'a TimelineAlignment>,
}

/// What a renderer is asked for.
#[derive(Debug, Clone, Copy)]
pub struct RenderOptions {
    /// Include commercials in output (marked as chapters).
    pub include_commercials: bool,
    /// Add chapter markers to output.
    pub add_chapters: bool,
    /// Composite from multiple sources or use single best.
    pub composite_sources: bool,
}

impl Default for RenderOptions {
    fn default() -> (r: Self)
        ensures
            !r.include_commercials,
            !r.add_chapters,
            !r.composite_sources,
    {
        RenderOptions { include_commercials: false, add_chapters: false, composite_sources: false }
    }
}

/// What a renderer makes.
#[derive(Debug)]
pub enum RenderOutput {
    /// Chapter metadata to mux into existing file.
    Chapters(Vec<Chapter>),
    /// EDL file content.
    Edl(String),
    /// Path to newly created composite file.
    CompositeFile(String),
}

/// A chapter of a recording.
#[derive(Debug, Clone)]
pub struct Chapter {
    pub start_ms: i32,
    pub end_ms: i32,
    pub title: String,
    pub is_content: bool,
}

/// The distance of two points in time is the same in both directions, does not change when both are
/// moved, and is nothing only where they are one.
pub proof fn distance_in_time(a: int, b: int, d: int)
    ensures
        apart(a, b) == apart(b, a),
        apart(a + d, b + d) == apart(a, b),
        apart(a, a + d) == d || apart(a, a + d) == -d,
        apart(a, b) >= 0,
        apart(a, b) == 0 <==> a == b,
{
}

/// Where several samples lie equally near, the first of them is the nearest.
pub proof fn first_of_the_near_samples_is_nearest(
    samples: Seq<FingerprintSample>,
    timestamp_ms: int,
    i: int,
    j: int,
)
    requires
        is_nearest(samples, timestamp_ms, i),
        0 <= j < samples.len(),
    ensures
        apart(samples[i].timestamp_ms as int, timestamp_ms) <= apart(
            samples[j].timestamp_ms as int,
            timestamp_ms,
        ),
        apart(samples[i].timestamp_ms as int, timestamp_ms) == apart(
            samples[j].timestamp_ms as int,
            timestamp_ms,
        ) ==> i <= j,
{
    if j < i {
        assert(apart(samples[i].timestamp_ms as int, timestamp_ms) < apart(
            samples[j].timestamp_ms as int,
            timestamp_ms,
        ));
    }
}

/// Hashes of one length are compared bit by bit, in either order: no bit differs only where they are
/// equal, and there are no more bits than they have. Hashes of different lengths are unlike.
pub proof fn hashes_are_compared_bit_by_bit(a: Seq<u8>, b: Seq<u8>)
    requires
        countable(a, b),
        a.len() <= usize::MAX,
    ensures
        compared(a, b) == HashComparison::Unlike <==> a.len() != b.len(),
        a.len() == b.len() ==> compared(a, b) == compared(b, a),
        compared(a, b) matches HashComparison::Bits { distance, bytes } ==> {
            &&& bytes == a.len()
            &&& bytes == b.len()
            &&& distance <= 8 * bytes
            &&& distance == 0 <==> a == b
        },
{
    if a.len() == b.len() {
        hamming_is_symmetric(a, b);
        hamming_zero_means_equal(a, b);
        hamming_is_bounded(a, b);
    }
}

/// A timeline lasts to its last sample: where its samples come in order, none lies behind its end, and
/// one lies there.
pub proof fn timeline_lasts_to_its_last_sample(samples: Seq<FingerprintSample>, i: int)
    requires
        0 <= i < samples.len(),
        forall|k: int, l: int|
            0 <= k <= l < samples.len() ==> (#[trigger] samples[k]).timestamp_ms <= (
            #[trigger] samples[l]).timestamp_ms,
    ensures
        samples[i].timestamp_ms <= duration_of(samples),
        exists|k: int|
            0 <= k < samples.len() && (#[trigger] samples[k]).timestamp_ms == duration_of(samples),
{
    assert(samples[samples.len() - 1].timestamp_ms == duration_of(samples));
}

}

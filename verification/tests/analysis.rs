use dvrreview::analysis::segments::{
    compare_neighbours, compare_samples, AdaptiveSegmentDetector, DuplicateComparisonDetector,
    SceneChangeDetector,
};
use dvrreview::analysis::timeline::{
    CrossCorrelationAligner, DenseTimelineExtractor, FingerprintContentMatcher, KnownPattern,
    PatternDetector, PatternMatch, PatternType, ScoredOffset,
};
use dvrreview::analysis::traits::{
    hash_similarity, ContentMatch, FingerprintSample, FingerprintTimeline, HashComparison,
    RenderOptions, SegmentDetectionContext, SegmentDetector, SegmentType, TimelineAlignment,
};
use dvrreview::clock::Timestamp;
use dvrreview::score::Score;

fn score(x: f32) -> Score {
    Score::from_bits(x.to_bits())
}

fn similarity(c: HashComparison) -> Score {
    match c {
        HashComparison::Unlike => Score::zero(),
        HashComparison::Bits { distance, bytes } => {
            score(1.0 - (distance as f32 / (bytes * 8) as f32))
        }
    }
}

fn timeline(samples: &[(i32, u8)], interval: i32) -> FingerprintTimeline {
    FingerprintTimeline {
        samples: samples
            .iter()
            .map(|s| FingerprintSample { timestamp_ms: s.0, hash: vec![s.1] })
            .collect(),
        sample_interval_ms: interval,
    }
}

fn alignment(offset_ms: i32) -> TimelineAlignment {
    TimelineAlignment { offset_ms, confidence: score(1.0), matched_samples: vec![] }
}

fn found(start_ms: i32, end_ms: i32, id: u128) -> PatternMatch {
    PatternMatch {
        pattern_id: id,
        pattern_type: PatternType::Intro,
        start_ms,
        end_ms,
        confidence: score(0.9),
    }
}

fn pattern(id: u128, kind: PatternType, series: Option<&str>, duration_ms: i32) -> KnownPattern {
    let time = Timestamp { seconds: 0, nanos: 0 };
    KnownPattern {
        id,
        pattern_type: kind,
        name: None,
        series_title: series.map(|s| s.to_string()),
        duration_ms,
        timeline: timeline(&[(0, 1)], 1000),
        detection_count: 1,
        first_seen: time,
        last_seen: time,
    }
}

fn result(is_match: bool, confidence: f32) -> ContentMatch {
    ContentMatch { is_match, confidence: score(confidence), alignment: None }
}

#[test]
fn timelines_know_their_samples() {
    let t = timeline(&[(0, 1), (1000, 2), (2000, 3)], 1000);
    assert_eq!(t.duration_ms(), 2000);
    assert_eq!(t.sample_at(1400).unwrap().hash, vec![2]);
    assert_eq!(t.sample_at(1500).unwrap().hash, vec![2]);
    assert_eq!(t.sample_at(-99).unwrap().hash, vec![1]);
    assert!(timeline(&[], 1000).sample_at(0).is_none());
    assert_eq!(timeline(&[], 1000).duration_ms(), 0);
}

#[test]
fn hashes_are_compared_bit_by_bit() {
    assert_eq!(hash_similarity(&[0xf0], &[0xff]), HashComparison::Bits { distance: 4, bytes: 1 });
    assert_eq!(hash_similarity(&[0xf0], &[0xff, 0]), HashComparison::Unlike);
}

#[test]
fn content_is_what_all_recordings_share() {
    let a = timeline(&[(0, 0), (5000, 0), (10_000, 255), (20_000, 0), (30_000, 0)], 5000);
    let b = timeline(&[(0, 0), (5000, 0), (10_000, 0), (20_000, 0), (30_000, 0)], 5000);
    let aligned = alignment(0);
    let mut context = SegmentDetectionContext {
        primary: &a,
        comparisons: vec![&b],
        alignments: vec![&aligned],
        similarities: vec![],
        continuity: vec![],
    };
    let compared = compare_samples(&context);
    context.similarities =
        compared.iter().map(|row| row.iter().map(|c| c.map(similarity)).collect()).collect();
    let segments = DuplicateComparisonDetector::default().detect(&context).unwrap();
    let shown: Vec<(i32, i32, SegmentType)> =
        segments.iter().map(|s| (s.start_ms, s.end_ms, s.segment_type)).collect();
    assert_eq!(
        shown,
        vec![
            (0, 10_000, SegmentType::Content),
            (10_000, 20_000, SegmentType::Commercial),
            (20_000, 30_000, SegmentType::Content)
        ]
    );
    assert!(segments.iter().all(|s| s.confidence == score(0.8)));
    let adaptive = AdaptiveSegmentDetector::default().detect(&context).unwrap();
    assert_eq!(adaptive.len(), 3);
}

#[test]
fn short_segments_are_dropped() {
    let a = timeline(&[(0, 0), (4000, 255), (10_000, 255)], 1000);
    let b = timeline(&[(0, 0), (4000, 0), (10_000, 0)], 1000);
    let aligned = alignment(0);
    let context = SegmentDetectionContext {
        primary: &a,
        comparisons: vec![&b],
        alignments: vec![&aligned],
        similarities: vec![vec![Some(score(1.0))], vec![Some(score(0.0))], vec![Some(score(0.0))]],
        continuity: vec![],
    };
    let segments = DuplicateComparisonDetector::default().detect(&context).unwrap();
    assert_eq!(segments.len(), 1);
    assert_eq!((segments[0].start_ms, segments[0].end_ms), (4000, 10_000));
}

#[test]
fn scenes_change_where_neighbours_differ() {
    let t = timeline(&[(0, 0), (1000, 255), (1500, 0), (3000, 255), (9000, 255)], 1000);
    let continuity: Vec<Score> = compare_neighbours(&t).into_iter().map(similarity).collect();
    let detector = SceneChangeDetector::default();
    assert_eq!((detector.change_threshold, detector.min_gap_ms), (score(0.7), 1000));
    assert_eq!(detector.detect_changes(&t, &continuity), vec![1000, 3000]);
    let context = SegmentDetectionContext {
        primary: &t,
        comparisons: vec![],
        alignments: vec![],
        similarities: vec![vec![]; 5],
        continuity,
    };
    let segments = AdaptiveSegmentDetector::default().detect(&context).unwrap();
    let shown: Vec<(i32, i32)> = segments.iter().map(|s| (s.start_ms, s.end_ms)).collect();
    assert_eq!(shown, vec![(0, 1000), (1000, 3000), (3000, 9000)]);
    assert!(segments.iter().all(|s| s.confidence == score(0.5)));
    assert!(DuplicateComparisonDetector::default().detect(&context).unwrap().is_empty());
}

#[test]
fn dense_timelines_have_regular_samples() {
    let extractor = DenseTimelineExtractor::default();
    for duration in [-5, 0, 1, 999, 1000, 1001, 10_000] {
        for interval in [1000, 333, i32::MAX, -7] {
            let expected: Vec<i32> = (0..duration).step_by(interval as usize).collect();
            assert_eq!(extractor.sample_points(duration, interval), expected);
        }
    }
    let t = extractor.timeline_of(vec![(0, vec![1]), (1000, vec![2, 3])], 1000);
    assert_eq!(t.sample_interval_ms, 1000);
    assert_eq!((t.samples[1].timestamp_ms, t.samples[1].hash.clone()), (1000, vec![2, 3]));
}

#[test]
fn offsets_are_searched_in_steps() {
    let aligner = CrossCorrelationAligner { max_offset_ms: 2500, search_step_ms: 1000, match_threshold: score(0.85) };
    assert_eq!(aligner.search_offsets(), vec![-2500, -1500, -500, 500, 1500, 2500]);
    let t = timeline(&[(0, 1)], 50);
    assert_eq!(aligner.refine_offsets(&t, 500).len(), 21);
    assert_eq!(aligner.refine_offsets(&t, 500)[1], -400);
    assert_eq!(aligner.refine_offsets(&timeline(&[], 700), 500), vec![-500, 200, 900]);
    assert_eq!(aligner.refine_offsets(&timeline(&[], 700), 2500), vec![1500, 2200]);
    assert_eq!(aligner.refine_offsets(&timeline(&[], 1000), -2500), vec![-2500, -1500]);
    let fixed = CrossCorrelationAligner { max_offset_ms: 0, ..aligner };
    assert_eq!(fixed.search_offsets(), vec![0]);
    assert_eq!(fixed.refine_offsets(&t, 0), vec![0]);
    let default = CrossCorrelationAligner::default();
    assert_eq!(default.search_offsets().len(), 601);
    assert_eq!(default.match_threshold, score(0.85));
}

#[test]
fn samples_are_paired_with_near_ones() {
    let a = timeline(&[(0, 0x0f), (1000, 0xff), (9000, 0x00)], 1000);
    let b = timeline(&[(500, 0x0f), (1600, 0xfe)], 500);
    let aligner = CrossCorrelationAligner::default();
    let pairs = aligner.score_alignment(&a, &b, -500);
    let shown: Vec<(usize, usize)> = pairs.iter().map(|p| (p.index_a, p.index_b)).collect();
    assert_eq!(shown, vec![(0, 0), (1, 1)]);
    assert_eq!(pairs[1].comparison, HashComparison::Bits { distance: 1, bytes: 1 });
    let similarities: Vec<Score> = pairs.iter().map(|p| similarity(p.comparison)).collect();
    assert_eq!(
        aligner.matching_samples(&pairs, &similarities),
        vec![(0, 0, score(1.0)), (1, 1, score(0.875))]
    );
    assert!(aligner.score_alignment(&a, &timeline(&[], 500), 0).is_empty());
}

#[test]
fn the_best_offset_wins() {
    let aligner = CrossCorrelationAligner { max_offset_ms: 1000, search_step_ms: 1000, match_threshold: score(0.85) };
    let t = timeline(&[(0, 1)], 500);
    let tried = |s: f32, i: usize| ScoredOffset { score: score(s), matches: vec![(i, i, score(s))] };
    let coarse = vec![tried(0.5, 0), tried(0.9, 1), tried(0.9, 2)];
    let edge = vec![tried(0.1, 0), tried(0.2, 1), tried(0.9, 2)];
    assert_eq!(aligner.align(&t, &edge, &vec![score(0.1), score(0.2), score(0.3)]).offset_ms, 1000);
    let fine = vec![score(0.1), score(0.2), score(0.9), score(0.95), score(0.3)];
    let aligned = aligner.align(&t, &coarse, &fine);
    assert_eq!(aligned.offset_ms, 500);
    assert_eq!(aligned.confidence, score(0.9));
    assert_eq!(aligned.matched_samples, vec![(1, 1, score(0.9))]);
    let none = vec![tried(0.0, 0), tried(f32::NAN, 1), tried(-1.0, 2)];
    let aligned = aligner.align(&t, &none, &vec![Score::zero(); 5]);
    assert_eq!((aligned.offset_ms, aligned.confidence), (0, Score::zero()));
    assert!(aligned.matched_samples.is_empty());
}

#[test]
fn content_matches_with_enough_samples() {
    let matcher = FingerprintContentMatcher::default();
    let full = timeline(&[(0, 1)], 1);
    let aligned = |c: f32| TimelineAlignment { offset_ms: 0, confidence: score(c), matched_samples: vec![] };
    let matches = |c: f32, ratio: f32| {
        matcher.matches(&full, &full, aligned(c), score(ratio), score(c * ratio)).is_match
    };
    assert!(matches(0.85, 0.6));
    assert!(!matches(0.85, 0.59));
    assert!(!matches(0.84, 1.0));
    assert!(!matches(0.9, f32::NAN));
    let empty = timeline(&[], 1);
    for (a, b) in [(&empty, &full), (&full, &empty), (&empty, &empty)] {
        assert!(!matcher.matches(a, b, aligned(0.9), score(1.0), score(0.9)).is_match);
    }
    let m = matcher.matches(&full, &full, aligned(0.9), score(1.0), score(0.9));
    assert_eq!((m.confidence, m.alignment.unwrap().confidence), (score(0.9), score(0.9)));
    let a = timeline(&[(0, 1), (1, 1), (2, 1)], 1);
    let b = timeline(&[(0, 1), (1, 1)], 1);
    let mut c = aligned(1.0);
    c.matched_samples = vec![(0, 0, score(1.0))];
    assert_eq!(FingerprintContentMatcher::match_counts(&a, &b, &c), (1, 2));
}

#[test]
fn patterns_are_found_at_the_best_window() {
    let detector = PatternDetector::default();
    assert_eq!((detector.min_duration_ms, detector.max_duration_ms), (5_000, 300_000));
    let detector = PatternDetector { min_duration_ms: 1000, ..detector };
    let t = timeline(&[(0, 1), (1000, 2), (2000, 3), (3000, 4)], 1000);
    assert_eq!(detector.window_positions(&t, 2000), vec![0, 1000]);
    assert_eq!(detector.window_positions(&t, 2500), vec![0]);
    assert!(detector.window_positions(&t, 4000).is_empty());
    let p = pattern(5, PatternType::Outro, None, 1000);
    let results = vec![result(true, 0.7), result(true, 0.9), result(false, 1.0)];
    let m = detector.find_pattern_in_timeline(&t, &p, &results).unwrap();
    assert_eq!((m.pattern_id, m.pattern_type), (5, PatternType::Outro));
    assert_eq!((m.start_ms, m.end_ms, m.confidence), (1000, 2000, score(0.9)));
    let results = vec![result(true, 0.9), result(true, 0.9), result(true, 0.8)];
    assert_eq!(detector.find_pattern_in_timeline(&t, &p, &results).unwrap().start_ms, 0);
    let results = vec![result(false, 0.9), result(false, 0.9), result(false, 0.8)];
    assert!(detector.find_pattern_in_timeline(&t, &p, &results).is_none());
}

#[test]
fn patterns_of_other_lengths_are_not_considered() {
    let t = timeline(&[(0, 1), (1000, 2), (2000, 3), (3000, 4)], 1000);
    let detector =
        PatternDetector { min_duration_ms: 1500, max_duration_ms: 2500, ..PatternDetector::default() };
    for duration in [1000, 3000] {
        assert!(detector.window_positions(&t, duration).is_empty());
        let p = pattern(5, PatternType::Outro, None, duration);
        assert!(detector.find_pattern_in_timeline(&t, &p, &vec![]).is_none());
    }
    assert_eq!(detector.window_positions(&t, 2000), vec![0, 1000]);
    let list = vec![Some(found(0, 1499, 1)), Some(found(5000, 6500, 2)), Some(found(9000, 11_501, 3))];
    let ids: Vec<u128> = detector.find_patterns(&list).iter().map(|m| m.pattern_id).collect();
    assert_eq!(ids, vec![2]);
}

#[test]
fn the_offset_is_added_to_the_second_timeline() {
    let aligner = CrossCorrelationAligner::default();
    let a = timeline(&[(10_000, 0x00), (11_000, 0x0f), (12_000, 0xff)], 1000);
    let b = timeline(&[(0, 0x00), (1000, 0x0f), (2000, 0xff)], 1000);
    let rate = |offset: i32| -> ScoredOffset {
        let pairs = aligner.score_alignment(&a, &b, offset);
        let rated: Vec<Score> = pairs.iter().map(|p| similarity(p.comparison)).collect();
        let sum: f32 = rated.iter().map(|s| f32::from_bits(s.bits)).sum();
        let mean = if rated.is_empty() { 0.0 } else { sum / rated.len() as f32 };
        ScoredOffset { score: score(mean), matches: aligner.matching_samples(&pairs, &rated) }
    };
    let coarse: Vec<ScoredOffset> = aligner.search_offsets().into_iter().map(rate).collect();
    let start = aligner.coarse_offset(&coarse.iter().map(|c| c.score).collect());
    let fine: Vec<Score> =
        aligner.refine_offsets(&a, start).into_iter().map(|o| rate(o).score).collect();
    let aligned = aligner.align(&a, &coarse, &fine);
    assert_eq!((aligned.offset_ms, aligned.confidence), (10_000, score(1.0)));
    assert_eq!(
        aligned.matched_samples,
        vec![(0, 0, score(1.0)), (1, 1, score(1.0)), (2, 2, score(1.0))]
    );
}

#[test]
fn windows_count_from_their_own_beginning() {
    let t = timeline(&[(0, 1), (1000, 2), (2000, 3), (3000, 4)], 1000);
    let w = PatternDetector::default().extract_window(&t, 1000, 2000);
    let shown: Vec<(i32, u8)> = w.samples.iter().map(|s| (s.timestamp_ms, s.hash[0])).collect();
    assert_eq!(shown, vec![(0, 2), (1000, 3)]);
    assert_eq!(w.sample_interval_ms, 1000);
}

#[test]
fn overlapping_matches_are_removed() {
    let detector = PatternDetector::default();
    let matches = vec![found(0, 10, 1), found(5, 15, 2), found(10, 20, 3), found(14, 16, 4)];
    let kept: Vec<u128> = detector.remove_overlapping_matches(matches).iter().map(|m| m.pattern_id).collect();
    assert_eq!(kept, vec![1, 3]);
}

#[test]
fn found_patterns_come_in_order() {
    let detector = PatternDetector { min_duration_ms: 1, ..PatternDetector::default() };
    let list = vec![Some(found(50, 60, 1)), None, Some(found(0, 10, 3)), Some(found(5, 15, 4)), Some(found(0, 1, 5))];
    let ids = |m: Vec<PatternMatch>| -> Vec<u128> { m.iter().map(|m| m.pattern_id).collect() };
    assert_eq!(ids(detector.find_patterns(&list)), vec![3, 1]);
    let known = vec![
        pattern(1, PatternType::Intro, Some("A"), 10),
        pattern(2, PatternType::Intro, Some("A"), 10),
        pattern(3, PatternType::Commercial, None, 10),
        pattern(4, PatternType::Intro, Some("B"), 10),
        pattern(5, PatternType::Recap, Some("A"), 1),
    ];
    assert_eq!(ids(detector.find_patterns_of_type(&known, &list, &PatternType::Intro)), vec![4, 1]);
    assert_eq!(ids(detector.find_series_patterns(&known, &list, "A")), vec![5, 1]);
    assert!(ids(detector.find_series_patterns(&known, &list, "C")).is_empty());
    let intros = vec![list[0], list[1], list[3]];
    assert_eq!(
        detector.find_patterns_of_type(&known, &list, &PatternType::Intro),
        detector.find_patterns(&intros)
    );
}

#[test]
fn new_patterns_are_seen_now() {
    let t = timeline(&[(0, 1), (1000, 2), (2000, 3)], 1000);
    let detector = PatternDetector::default();
    let before = chrono::Utc::now().timestamp();
    let p = detector.extract_pattern(&t, 1000, 3000, PatternType::Preview, Some("A".to_string()));
    let q = detector.extract_pattern(&t, 0, 1000, PatternType::Preview, None);
    let after = chrono::Utc::now().timestamp();
    assert!(before <= p.first_seen.seconds && p.first_seen.seconds <= after);
    assert_eq!(p.first_seen, p.last_seen);
    assert_eq!(uuid::Uuid::from_u128(p.id).get_version_num(), 4);
    assert_ne!(p.id, q.id);
    assert_eq!((p.duration_ms, p.detection_count, p.name.is_none()), (2000, 1, true));
    assert_eq!(p.series_title.as_deref(), Some("A"));
    assert_eq!(p.timeline.samples.len(), 2);
    assert_eq!(p.timeline.samples[1].timestamp_ms, 1000);
    let seen = Timestamp { seconds: 9, nanos: 1 };
    let r = detector.new_pattern(&t, 0, 1000, PatternType::Recap, None, 77, seen);
    assert_eq!((r.id, r.last_seen), (77, seen));
}

#[test]
fn render_options_by_default() {
    let o = RenderOptions::default();
    assert!(!o.include_commercials);
    assert!(!o.add_chapters);
    assert!(!o.composite_sources);
}

use dvrreview::clock::Timestamp;
use dvrreview::cluster::SimilarityMatch;
use dvrreview::commands::clusters::{
    build_members, candidate_groups, fingerprints_by_file, new_cluster,
};
use dvrreview::commands::dvr::{get_or_create_dvr, DvrContext, DvrStep};
use dvrreview::commands::fingerprints::{
    files_to_fingerprint, fingerprint_points, generate_fingerprints, FingerprintStep,
};
use dvrreview::commands::identify::{
    identification, identify_files, Identification, IdentifyTally,
};
use dvrreview::commands::scan::{
    extension_list, new_file, next_step, wants, ScanFacts, ScanOutcome, ScanStep, ScanTally,
};
use dvrreview::commands::stats::{savings, show_stats, sum_sizes, tell_stats, StatCounts};
use dvrreview::commands::thumbnails::{
    clear_thumbnails, generate_thumbnail, thumbnail_times, wants_thumbnails,
};
use dvrreview::commands::transcode::{
    collection_config, completed_file, stale_files, stale_paths, sum_queue, transcode_file,
    transcode_queue, FileAction, FileOutcome, FileState, TranscodeTally,
};
use dvrreview::commands::verify::{
    choose_sample, compare_file, compare_hashes, file_matches, sample_verify, tell_outcome,
    timestamps_of, verify_dvr, SampleFacts, SampleOutcome, SampleStep, VerifyResult,
};
use dvrreview::commands::Command;
use dvrreview::db::models::{Dvr, File, FileStatus, MediaType, TranscodeStatus};
use dvrreview::scanner::metadata::MediaMetadata;
use dvrreview::score::Score;
use dvrreview::thumbnail::{extract_thumbnail, thumbnail_args};
use dvrreview::tmdb::TmdbResult;
use dvrreview::transcode::TranscodeResult;

const TIME: Timestamp = Timestamp { seconds: 5, nanos: 0 };

fn score(x: f32) -> Score {
    Score::from_bits(x.to_bits())
}

fn dvr() -> Dvr {
    Dvr { id: 9, name: "den".to_string(), created_at: TIME, last_verified_at: None }
}

fn context() -> DvrContext {
    DvrContext { dvr: dvr(), base_path: "/dvr".to_string() }
}

fn file(id: u128) -> File {
    File {
        id,
        path: format!("/old/{}.ts", id),
        size_bytes: 1000,
        duration_ms: Some(60_000),
        video_codec: None,
        audio_codec: None,
        width: None,
        height: None,
        bitrate: None,
        claimed_title: None,
        claimed_season: None,
        claimed_episode: None,
        content_start_ms: None,
        content_end_ms: None,
        status: FileStatus::Pending,
        created_at: TIME,
        fingerprinted_at: None,
        transcoded_path: None,
        transcoded_at: None,
        original_size_bytes: None,
        transcode_status: TranscodeStatus::Pending,
        dvr_id: Some(9),
        relative_path: None,
        tmdb_id: None,
        tmdb_media_type: None,
        tmdb_title: None,
        tmdb_year: None,
        identified_at: None,
    }
}

#[test]
fn some_commands_do_not_verify() {
    assert!(Command::Verify.skip_verify());
    assert!(Command::Stats.skip_verify());
    assert!(Command::Identify { dry_run: false, incremental: true }.skip_verify());
    assert!(!Command::Scan { extensions: "ts".to_string() }.skip_verify());
    assert!(!Command::Cluster { threshold: score(0.85) }.skip_verify());
    for unverified in [true, false] {
        let command = Command::Fingerprint { samples: 10, incremental: true, unverified };
        assert_eq!(command.skip_verify(), unverified);
        let command = Command::Transcode {
            crf: 23,
            preset: "medium".to_string(),
            hardware: false,
            kept_only: false,
            limit: None,
            unverified,
            temp_dir: None,
        };
        assert_eq!(command.skip_verify(), unverified);
    }
}

#[test]
fn paths_are_resolved_and_made_relative() {
    let ctx = context();
    assert_eq!(ctx.resolve_path("Show/a.ts"), "/dvr/Show/a.ts");
    assert_eq!(ctx.make_relative("/dvr/Show/a.ts").unwrap(), "Show/a.ts");
    assert_eq!(
        ctx.make_relative("/other/a.ts").unwrap_err(),
        "Path is not within DVR base directory"
    );
    let mut f = file(1);
    assert_eq!(ctx.file_path(&f), "/old/1.ts");
    f.relative_path = Some("x.ts".to_string());
    assert_eq!(ctx.file_path(&f), "/dvr/x.ts");
}

#[test]
fn steps_to_the_record_of_a_collection() {
    let step = |found, skip, v| get_or_create_dvr("den", "\"/dvr\"", found, skip, &v);
    assert!(matches!(step(false, false, None), DvrStep::Create(d) if d.name == "den"));
    assert!(matches!(step(true, true, None), DvrStep::Proceed));
    assert!(matches!(step(true, false, None), DvrStep::Sample));
    let empty = VerifyResult { total: 0, matched: 0, verified: false };
    assert!(matches!(step(true, false, Some(empty)), DvrStep::Confirm));
    let good = VerifyResult { total: 5, matched: 4, verified: true };
    assert!(matches!(step(true, false, Some(good)), DvrStep::Confirm));
    let bad = VerifyResult { total: 5, matched: 3, verified: false };
    match step(true, false, Some(bad)) {
        DvrStep::Refuse(message) => assert_eq!(
            message,
            "DVR verification failed. 3 of 5 sampled files had matching fingerprints.\n\
             This may not be the correct location for DVR 'den'.\n\
             Run 'dvrreview den \"/dvr\" verify' for detailed results."
        ),
        _ => panic!("most of the sample has to match"),
    }
}

#[test]
fn samples_hold_distinct_fingerprinted_files() {
    let mut files: Vec<File> = (0..20).map(|i| file(i)).collect();
    for i in 0..20 {
        if i % 2 == 0 {
            files[i].fingerprinted_at = Some(TIME);
        }
        if i % 3 != 0 {
            files[i].relative_path = Some("x".to_string());
        }
    }
    let candidates = [2usize, 4, 8, 10, 14, 16];
    for _ in 0..50 {
        let mut sample = choose_sample(&files, 5);
        assert_eq!(sample.len(), 5);
        sample.sort();
        sample.dedup();
        assert_eq!(sample.len(), 5);
        assert!(sample.iter().all(|i| candidates.contains(i)));
    }
    let mut all = choose_sample(&files, 10);
    all.sort();
    assert_eq!(all, candidates.to_vec());
    assert!(choose_sample(&vec![], 5).is_empty());
    let firsts: Vec<usize> = (0..200).map(|_| choose_sample(&files, 1)[0]).collect();
    assert!(firsts.iter().any(|f| *f != firsts[0]));
}

#[test]
fn stored_hashes_are_compared_with_those_of_the_same_time() {
    let stored = vec![(1000, vec![0x00]), (2000, vec![0xff])];
    let current = vec![(2000, vec![0xfe]), (1000, vec![0x00]), (2000, vec![0x00])];
    let distances = compare_hashes(&stored, &current).unwrap();
    let shown: Vec<u32> = distances.iter().map(|d| d.distance).collect();
    assert_eq!(shown, vec![0, 1]);
    assert!(compare_hashes(&stored, &vec![(1000, vec![0x00])]).is_none());
    assert!(compare_hashes(&vec![], &current).unwrap().is_empty());
    assert_eq!(timestamps_of(&stored), vec![1000, 2000]);
}

#[test]
fn steps_of_the_comparison_of_a_file() {
    let mut facts = SampleFacts { exists: false, stored: None, current: None, similarities: None };
    let done = |step, outcome| matches!(step, SampleStep::Done(o) if o == outcome);
    assert!(done(compare_file(&facts), SampleOutcome::Missing));
    facts.exists = true;
    assert!(matches!(compare_file(&facts), SampleStep::Load));
    facts.stored = Some(vec![]);
    assert!(done(compare_file(&facts), SampleOutcome::Bare));
    facts.stored = Some(vec![(1000, vec![1]), (2000, vec![3])]);
    assert!(matches!(compare_file(&facts), SampleStep::Extract(t) if t == vec![1000, 2000]));
    facts.current = Some(Err("broken".to_string()));
    assert!(done(compare_file(&facts), SampleOutcome::Unreadable));
    facts.current = Some(Ok(vec![(1000, vec![1])]));
    assert!(done(compare_file(&facts), SampleOutcome::Mismatched));
    facts.current = Some(Ok(vec![(1000, vec![1]), (2000, vec![2])]));
    match compare_file(&facts) {
        SampleStep::Rate(d) => assert_eq!((d[0].distance, d[1].distance), (0, 1)),
        _ => panic!("the distances are next"),
    }
    facts.similarities = Some(vec![score(1.0), score(0.9)]);
    assert!(done(compare_file(&facts), SampleOutcome::Matched));
    facts.similarities = Some(vec![score(1.0), score(0.875)]);
    assert!(done(compare_file(&facts), SampleOutcome::Mismatched));
}

#[test]
fn nine_tenths_match() {
    assert!(file_matches(&vec![score(0.9), score(1.0)]));
    assert!(!file_matches(&vec![score(1.0), score(0.8999)]));
    assert!(file_matches(&vec![score(f32::NAN)]));
    assert!(file_matches(&vec![]));
}

#[test]
fn four_fifths_of_a_sample_have_to_match() {
    for total in 1..=10usize {
        for matched in 0..=total {
            let mut outcomes = vec![SampleOutcome::Matched; matched];
            outcomes.extend(vec![SampleOutcome::Missing; total - matched]);
            let result = sample_verify(&outcomes);
            assert_eq!((result.total, result.matched), (total, matched));
            assert_eq!(result.verified, matched as f32 / total as f32 >= 0.8);
            let lines = verify_dvr("den", &outcomes);
            assert_eq!(lines[6].starts_with("Verification PASSED"), result.verified);
        }
    }
    let empty = sample_verify(&vec![]);
    assert!(empty.is_empty() && empty.verified);
}

#[test]
fn verification_in_words() {
    let outcomes = vec![
        SampleOutcome::Matched,
        SampleOutcome::Missing,
        SampleOutcome::Bare,
        SampleOutcome::Unreadable,
        SampleOutcome::Mismatched,
    ];
    assert_eq!(
        verify_dvr("den", &outcomes),
        vec![
            "",
            "Verified 5 files:",
            "  Matched:    1",
            "  Missing:    1",
            "  Mismatched: 2",
            "",
            "Verification FAILED. This may not be the correct location for DVR 'den'."
        ]
    );
    assert_eq!(
        verify_dvr("den", &vec![]),
        vec!["No fingerprinted files found for DVR 'den'."]
    );
    let id = uuid::Uuid::new_v4();
    let tell = |o| tell_outcome(o, "a.ts", id.as_u128(), "broken");
    assert_eq!(tell(SampleOutcome::Missing), "  MISSING: a.ts");
    assert_eq!(tell(SampleOutcome::Bare), format!("  NO FINGERPRINTS: a.ts (file_id: {})", id));
    assert_eq!(tell(SampleOutcome::Unreadable), "  ERROR: a.ts - broken");
    assert_eq!(tell(SampleOutcome::Matched), "  OK: a.ts");
    assert_eq!(tell(SampleOutcome::Mismatched), "  MISMATCH: a.ts");
}

#[test]
fn extensions_are_compared_without_case() {
    let list = extension_list("ts,MKV");
    assert_eq!(list, vec!["ts", "MKV"]);
    assert!(wants("/dvr/a.TS", &list));
    assert!(wants("/dvr/a.b.mkv", &list));
    assert!(!wants("/dvr/a.mp4", &list));
    assert!(!wants("/dvr/a", &list));
    assert!(wants("/dvr/a", &extension_list("")));
}

#[test]
fn new_files_tell_what_is_known() {
    let metadata = MediaMetadata {
        duration_ms: Some(5),
        video_codec: Some("h264".to_string()),
        audio_codec: None,
        width: Some(1),
        height: Some(2),
        bitrate: Some(3),
    };
    let f = new_file(9, "/dvr/Show S01E02.ts", "Show S01E02.ts".to_string(), 77, metadata);
    assert_eq!(f.path, "/dvr/Show S01E02.ts");
    assert_eq!(f.relative_path.as_deref(), Some("Show S01E02.ts"));
    assert_eq!((f.size_bytes, f.duration_ms, f.dvr_id), (77, Some(5), Some(9)));
    assert_eq!((f.width, f.height, f.bitrate), (Some(1), Some(2), Some(3)));
    assert_eq!(f.video_codec.as_deref(), Some("h264"));
    assert_eq!(f.claimed_title.as_deref(), Some("Show"));
    assert_eq!((f.claimed_season, f.claimed_episode), (Some(1), Some(2)));
}

#[test]
fn steps_of_a_scan() {
    let step = |is_file, has_extension, known, probed| {
        next_step(&ScanFacts { is_file, has_extension, known, probed })
    };
    assert_eq!(step(false, true, None, None), ScanStep::Leave(ScanOutcome::Passed));
    assert_eq!(step(true, false, None, None), ScanStep::Leave(ScanOutcome::Passed));
    assert_eq!(step(true, true, None, None), ScanStep::LookUp);
    assert_eq!(step(true, true, Some(true), None), ScanStep::Leave(ScanOutcome::Known));
    assert_eq!(step(true, true, Some(false), None), ScanStep::Probe);
    assert_eq!(step(true, true, Some(false), Some(true)), ScanStep::Enter);
    assert_eq!(step(true, true, Some(false), Some(false)), ScanStep::Leave(ScanOutcome::Passed));
    let mut tally = ScanTally::default();
    for outcome in [ScanOutcome::Added, ScanOutcome::Known, ScanOutcome::Passed, ScanOutcome::Added] {
        tally.count(outcome);
    }
    assert_eq!((tally.scanned, tally.skipped), (2, 1));
}

#[test]
fn files_without_fingerprints_are_taken() {
    let mut files: Vec<File> = (0..6).map(|i| file(i)).collect();
    files[1].fingerprinted_at = Some(TIME);
    files[2].duration_ms = None;
    files[3].transcode_status = TranscodeStatus::Transcoding;
    files[4].transcode_status = TranscodeStatus::Verifying;
    files[5].dvr_id = Some(1);
    assert_eq!(files_to_fingerprint(&files, 9, true), vec![0]);
    assert_eq!(files_to_fingerprint(&files, 9, false), vec![0, 1]);
    assert_eq!(fingerprint_points(&files[0], 2).unwrap(), vec![22_000, 38_000]);
    assert!(fingerprint_points(&files[2], 2).is_none());
}

#[test]
fn fingerprints_become_rows() {
    match generate_fingerprints(4, &Ok(vec![(1000, vec![1, 2]), (2000, vec![3])])) {
        FingerprintStep::Enter(rows) => {
            assert_eq!(rows.len(), 2);
            assert_eq!((rows[1].file_id, rows[1].timestamp_ms), (4, 2000));
            assert_eq!(rows[0].frame_hash, Some(vec![1, 2]));
            assert_eq!(rows[0].audio_hash, None);
        }
        FingerprintStep::Leave => panic!("there are two hashes"),
    }
    assert!(matches!(generate_fingerprints(4, &Ok(vec![])), FingerprintStep::Leave));
    assert!(matches!(generate_fingerprints(4, &Err("x".to_string())), FingerprintStep::Leave));
}

#[test]
fn thumbnails_are_cleared_with_a_yes() {
    assert!(clear_thumbnails(true, ""));
    assert!(clear_thumbnails(false, " Y\n"));
    assert!(!clear_thumbnails(false, "yes\n"));
    assert!(!clear_thumbnails(false, "\n"));
}

#[test]
fn thumbnails_are_made_where_there_are_none() {
    let mut f = file(3);
    assert!(wants_thumbnails(&f, 9, false));
    assert!(!wants_thumbnails(&f, 9, true));
    assert!(!wants_thumbnails(&f, 8, false));
    assert_eq!(thumbnail_times(&f, 2).unwrap(), vec![20_000, 40_000]);
    f.duration_ms = None;
    assert!(!wants_thumbnails(&f, 9, false));
    assert!(thumbnail_times(&f, 2).is_none());
    let row = generate_thumbnail(3, 20_000, Ok(vec![1])).unwrap();
    assert_eq!((row.file_id, row.timestamp_ms, row.data), (3, 20_000, vec![1]));
    assert!(generate_thumbnail(3, 20_000, Err("x".to_string())).is_none());
}

#[test]
fn thumbnails_are_taken_by_the_tool() {
    assert_eq!(
        thumbnail_args("/a.ts", 1500, "/tmp/t.jpg"),
        vec!["-ss", "1.500", "-i", "/a.ts", "-vframes", "1", "-vf", "scale=320:-1", "-y", "/tmp/t.jpg"]
    );
    assert_eq!(extract_thumbnail(true, "", vec![1, 2]).unwrap(), vec![1, 2]);
    assert_eq!(extract_thumbnail(false, "bad", vec![1]).unwrap_err(), "ffmpeg failed: bad");
    assert_eq!(extract_thumbnail(true, "bad", vec![]).unwrap_err(), "ffmpeg produced empty thumbnail");
}

#[test]
fn titles_are_looked_for_once() {
    let mut files: Vec<File> = (0..6).map(|i| file(i)).collect();
    files[0].claimed_title = Some("Friends (1994)".to_string());
    files[1].claimed_title = Some("News".to_string());
    files[2].claimed_title = Some("Friends (1994)".to_string());
    files[2].claimed_season = Some(1);
    files[3].claimed_title = Some("News".to_string());
    files[3].identified_at = Some(TIME);
    files[4].claimed_title = Some("News".to_string());
    files[4].dvr_id = None;
    let queries = identify_files(&files, 9, true);
    assert_eq!(queries.len(), 2);
    assert_eq!(queries[0].claimed_title, "Friends (1994)");
    assert_eq!(queries[0].parsed.clean_title, "Friends");
    assert_eq!(queries[0].parsed.year, Some(1994));
    assert_eq!((queries[0].files.clone(), queries[0].has_season), (vec![0, 2], true));
    assert_eq!((queries[1].files.clone(), queries[1].has_season), (vec![1], false));
    assert_eq!(identify_files(&files, 9, false)[1].files, vec![1, 3]);

    let mut tally = IdentifyTally::default();
    let found = TmdbResult { id: 5, media_type: "tv".to_string(), title: "F".to_string(), year: None };
    tally.count(&queries[0], &Ok(Some(found)));
    tally.count(&queries[1], &Ok(None));
    tally.count(&queries[1], &Err("x".to_string()));
    assert_eq!((tally.identified, tally.not_found), (2, 1));
}

#[test]
fn what_is_noted_of_identified_files() {
    let found = |kind: &str| {
        Some(TmdbResult { id: 5, media_type: kind.to_string(), title: "F".to_string(), year: Some(1) })
    };
    match identification(&found("tv"), false) {
        Some(Identification::Found { tmdb_id, media_type, title, year }) => {
            assert_eq!((tmdb_id, media_type, title.as_str(), year), (5, MediaType::Tv, "F", Some(1)))
        }
        _ => panic!("it was found"),
    }
    assert!(matches!(
        identification(&found("movie"), false),
        Some(Identification::Found { media_type: MediaType::Movie, .. })
    ));
    assert!(matches!(identification(&None, false), Some(Identification::NotFound)));
    assert!(identification(&found("tv"), true).is_none());
    assert!(identification(&None, true).is_none());
}

#[test]
fn files_are_compared_with_those_of_the_same_key() {
    let mut files: Vec<File> = (0..8).map(|i| file(i)).collect();
    for f in files.iter_mut() {
        f.fingerprinted_at = Some(TIME);
    }
    files[0].tmdb_id = Some(5);
    files[1].claimed_title = Some("A".to_string());
    files[2].tmdb_id = Some(5);
    files[2].claimed_title = Some("A".to_string());
    files[5].claimed_title = Some("A".to_string());
    files[6].fingerprinted_at = None;
    files[7].transcode_status = TranscodeStatus::Verifying;
    let groups = candidate_groups(&files, 9);
    let shown: Vec<(String, Vec<usize>)> = groups.into_iter().map(|g| (g.key, g.members)).collect();
    assert_eq!(
        shown,
        vec![
            ("tmdb:5".to_string(), vec![0, 2]),
            ("title:A".to_string(), vec![1, 5]),
            ("title:Unknown".to_string(), vec![3, 4])
        ]
    );
}

#[test]
fn hashes_are_sorted_by_file() {
    let map = fingerprints_by_file(&vec![(1, vec![1]), (2, vec![2]), (1, vec![3])]);
    assert_eq!(map.len(), 2);
    assert_eq!(map[&1], vec![vec![1], vec![3]]);
    assert_eq!(map[&2], vec![vec![2]]);
}

#[test]
fn clusters_get_names_and_members() {
    assert_eq!(new_cluster("title:A", 3).name.as_deref(), Some("title:A (3)"));
    let matches = vec![
        SimilarityMatch { file_a: 1, file_b: 2, score: score(0.9) },
        SimilarityMatch { file_a: 2, file_b: 3, score: score(0.8) },
    ];
    let members = build_members(7, &vec![1, 2, 3, 4], &matches);
    let shown: Vec<_> = members.iter().map(|m| (m.cluster_id, m.file_id, m.similarity_score)).collect();
    assert_eq!(
        shown,
        vec![
            (7, 1, Some(score(0.9))),
            (7, 2, Some(score(0.9))),
            (7, 3, Some(score(0.8))),
            (7, 4, None)
        ]
    );
}

#[test]
fn sums_over_files() {
    let mut files: Vec<File> = (0..3).map(|i| file(i)).collect();
    files[0].transcode_status = TranscodeStatus::Completed;
    files[0].original_size_bytes = Some(5000);
    files[1].original_size_bytes = Some(9000);
    files[2].transcode_status = TranscodeStatus::Completed;
    assert_eq!(savings(&files), 4000);
    assert_eq!(sum_sizes(&files), 3000);
}

#[test]
fn statistics_in_words() {
    let counts = StatCounts {
        total_files: 1,
        fingerprinted: 2,
        files_with_fps: 3,
        total_fp_records: 4,
        total_clusters: 5,
        reviewed: 6,
        transcoded: 7,
        pending_transcode: 8,
        failed_transcode: 9,
    };
    let id = uuid::Uuid::from_u128(9);
    let lines = tell_stats(&dvr(), "\"/dvr\"", Some("today"), &counts, 5, "1.00", "2.00");
    assert_eq!(
        lines,
        vec![
            format!("DVR: den (id: {})", id),
            "Path: \"/dvr\"".to_string(),
            "Last verified: today".to_string(),
            "".to_string(),
            "Files".to_string(),
            "  Total:           1".to_string(),
            "  Fingerprinted:   2 (flag set)".to_string(),
            "  With FP records: 3 (4 records)".to_string(),
            "".to_string(),
            "Dedup".to_string(),
            "  Clusters:        5".to_string(),
            "  Reviews:         6".to_string(),
            "".to_string(),
            "Transcode".to_string(),
            "  Completed:       7".to_string(),
            "  Pending:         8".to_string(),
            "  Failed:          9".to_string(),
            "  Space saved:  1.00 GB".to_string(),
            "".to_string(),
            "Storage".to_string(),
            "  Current size: 2.00 GB".to_string(),
        ]
    );
    let lines = tell_stats(&dvr(), "x", None, &counts, 0, "1.00", "2.00");
    assert!(!lines.iter().any(|l| l.contains("saved") || l.contains("verified")));
    let lines = show_stats(&dvr(), "x", &counts, 0, "1.00", "2.00");
    assert!(!lines.iter().any(|l| l.contains("saved") || l.contains("verified")));
    let mut verified = dvr();
    verified.last_verified_at = Some(Timestamp { seconds: 1_431_648_000, nanos: 0 });
    let lines = show_stats(&verified, "x", &counts, 0, "1.00", "2.00");
    assert_eq!(lines[2], "Last verified: 2015-05-15 00:00:00 UTC");
}

#[test]
fn large_files_are_transcoded_first() {
    let mut files: Vec<File> = (0..6).map(|i| file(i)).collect();
    files[1].size_bytes = 3000;
    files[2].size_bytes = 5000;
    files[2].transcode_status = TranscodeStatus::Completed;
    files[3].size_bytes = 2000;
    files[3].status = FileStatus::Kept;
    files[4].dvr_id = None;
    files[5].status = FileStatus::Kept;
    assert_eq!(transcode_queue(&files, 9, false, None), vec![1, 3, 0, 5]);
    assert_eq!(transcode_queue(&files, 9, false, Some(2)), vec![1, 3]);
    assert_eq!(transcode_queue(&files, 9, true, Some(9)), vec![3, 5]);
    assert!(transcode_queue(&files, 9, true, Some(0)).is_empty());
    assert_eq!(sum_queue(&files, &vec![1, 3]), 5000);
}

#[test]
fn what_was_left_behind_is_found() {
    let mut files: Vec<File> = (0..3).map(|i| file(i)).collect();
    files[1].transcode_status = TranscodeStatus::Transcoding;
    assert_eq!(stale_files(&files, 9), vec![1]);
    assert!(stale_files(&files, 8).is_empty());
    assert_eq!(
        stale_paths("/dvr/a.ts", Some("/tmp")),
        ("/dvr/a.transcoding".to_string(), "/tmp/a.transcoding".to_string())
    );
    let config = collection_config(30, "slow".to_string(), true, Some("nvenc"));
    assert_eq!((config.crf, config.preset.as_str(), config.use_hardware), (30, "slow", true));
    assert_eq!((config.audio_codec.as_str(), config.container.as_str()), ("aac", "mkv"));
    assert!(!collection_config(30, "slow".to_string(), true, None).use_hardware);
    assert!(!collection_config(30, "slow".to_string(), false, Some("nvenc")).use_hardware);
}

#[test]
fn a_file_that_works_out_is_completed() {
    let (state, actions) = transcode_file(FileState::Checking, true, true);
    assert_eq!(state, FileState::Transcoding);
    assert_eq!(
        actions,
        vec![FileAction::SetStatus(TranscodeStatus::Transcoding), FileAction::Transcode]
    );
    let (state, actions) = transcode_file(state, true, true);
    assert_eq!(state, FileState::Verifying);
    assert_eq!(actions, vec![FileAction::SetStatus(TranscodeStatus::Verifying), FileAction::Verify]);
    let (state, actions) = transcode_file(state, true, true);
    assert_eq!((state, actions), (FileState::Finalizing, vec![FileAction::Finalize]));
    let (state, actions) = transcode_file(state, true, true);
    assert_eq!(state, FileState::Closed(FileOutcome::Completed));
    assert_eq!(actions, vec![FileAction::Complete]);
    assert_eq!(transcode_file(state, true, true), (state, vec![]));
}

#[test]
fn a_file_can_fail_at_every_step() {
    let failed = FileAction::SetStatus(TranscodeStatus::Failed);
    assert_eq!(
        transcode_file(FileState::Checking, false, true),
        (FileState::Closed(FileOutcome::Missing), vec![failed])
    );
    for state in [FileState::Transcoding, FileState::Verifying] {
        assert_eq!(
            transcode_file(state, false, true),
            (FileState::Closed(FileOutcome::Failed), vec![FileAction::Cleanup, failed])
        );
    }
    assert_eq!(
        transcode_file(FileState::Finalizing, false, true),
        (FileState::Closed(FileOutcome::Failed), vec![failed])
    );
    assert_eq!(
        transcode_file(FileState::Transcoding, true, false),
        (FileState::Finalizing, vec![FileAction::Finalize])
    );
}

#[test]
fn what_is_noted_of_transcoded_files() {
    let result = TranscodeResult {
        transcoding_path: "/dvr/a.transcoding".to_string(),
        final_path: "/dvr/Show/a.mkv".to_string(),
        original_size: 1000,
        transcoded_size: 400,
    };
    let done = completed_file(&context(), &result);
    assert_eq!(done.status, TranscodeStatus::Completed);
    assert_eq!((done.path.as_str(), done.transcoded_path.as_str()), ("/dvr/Show/a.mkv", "/dvr/Show/a.mkv"));
    assert_eq!(done.relative_path.as_deref(), Some("Show/a.mkv"));
    assert_eq!((done.original_size_bytes, done.size_bytes), (1000, 400));
    let elsewhere = TranscodeResult { final_path: "/x/a.mkv".to_string(), ..result };
    assert_eq!(completed_file(&context(), &elsewhere).relative_path, None);

    let mut tally = TranscodeTally::default();
    tally.count(FileOutcome::Completed, 600);
    tally.count(FileOutcome::Failed, 7);
    tally.count(FileOutcome::Missing, 7);
    tally.count(FileOutcome::Completed, -100);
    assert_eq!((tally.total_saved, tally.success_count, tally.fail_count), (500, 2, 1));
}

#[test]
fn a_second_scan_enters_nothing() {
    let extensions = extension_list("ts,MKV");
    let entries = [("a.ts", true), ("b.mkv", true), ("c.txt", true), ("d.ts", false), ("a.ts", true)];
    let mut records: Vec<&str> = vec![];
    let mut tallies = vec![];
    for _ in 0..2 {
        let mut tally = ScanTally::default();
        for (path, probes) in entries {
            let mut facts = ScanFacts {
                is_file: true,
                has_extension: wants(path, &extensions),
                known: None,
                probed: None,
            };
            let outcome = loop {
                match next_step(&facts) {
                    ScanStep::LookUp => facts.known = Some(records.contains(&path)),
                    ScanStep::Probe => facts.probed = Some(probes),
                    ScanStep::Enter => {
                        records.push(path);
                        break ScanOutcome::Added;
                    }
                    ScanStep::Leave(outcome) => break outcome,
                }
            };
            tally.count(outcome);
        }
        tallies.push((tally.scanned, tally.skipped));
        assert_eq!(records, vec!["a.ts", "b.mkv"]);
    }
    assert_eq!(tallies, vec![(2, 1), (0, 3)]);
}

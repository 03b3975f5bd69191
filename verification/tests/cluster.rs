use dvrreview::clock::Timestamp;
use dvrreview::cluster::{rank_by_quality, ClusterBuilder, SimilarityMatch};
use dvrreview::db::models::{File, FileStatus, TranscodeStatus};
use dvrreview::score::Score;
use std::collections::HashMap;

fn score(x: f32) -> Score {
    Score::from_bits(x.to_bits())
}

fn file(id: u128) -> File {
    File {
        id,
        path: format!("/dvr/{}.ts", id),
        size_bytes: 1000,
        duration_ms: Some(60_000),
        video_codec: None,
        audio_codec: None,
        width: None,
        height: None,
        bitrate: None,
        claimed_title: None,
        claimed_season: None,
        claimed_episode: None,
        content_start_ms: None,
        content_end_ms: None,
        status: FileStatus::Pending,
        created_at: Timestamp { seconds: 0, nanos: 0 },
        fingerprinted_at: None,
        transcoded_path: None,
        transcoded_at: None,
        original_size_bytes: None,
        transcode_status: TranscodeStatus::Pending,
        dvr_id: Some(1),
        relative_path: None,
        tmdb_id: None,
        tmdb_media_type: None,
        tmdb_title: None,
        tmdb_year: None,
        identified_at: None,
    }
}

fn link(a: u128, b: u128, s: f32) -> SimilarityMatch {
    SimilarityMatch { file_a: a, file_b: b, score: score(s) }
}

#[test]
fn test_build_clusters() {
    let builder = ClusterBuilder::new(score(0.85));
    let id1 = uuid::Uuid::new_v4().as_u128();
    let id2 = uuid::Uuid::new_v4().as_u128();
    let id3 = uuid::Uuid::new_v4().as_u128();
    let id4 = uuid::Uuid::new_v4().as_u128();

    let matches = vec![link(id1, id2, 0.9), link(id2, id3, 0.88)];

    let clusters = builder.build_clusters(&matches);
    assert_eq!(clusters.len(), 1);
    assert_eq!(clusters[0].len(), 3);
    assert!(!clusters.iter().any(|c| c.contains(&id4)));
}

#[test]
fn clusters_are_the_connected_groups() {
    let builder = ClusterBuilder::default();
    let matches = vec![link(1, 2, 0.9), link(3, 4, 0.9), link(4, 5, 0.9), link(2, 6, 0.9), link(6, 1, 0.9)];
    let mut clusters = builder.build_clusters(&matches);
    for c in clusters.iter_mut() {
        c.sort();
    }
    clusters.sort();
    assert_eq!(clusters, vec![vec![1, 2, 6], vec![3, 4, 5]]);
}

#[test]
fn no_matches_no_clusters() {
    assert!(ClusterBuilder::default().build_clusters(&vec![]).is_empty());
}

#[test]
fn a_file_that_matches_itself_alone_is_no_cluster() {
    assert!(ClusterBuilder::default().build_clusters(&vec![link(7, 7, 1.0)]).is_empty());
}

#[test]
fn default_threshold_is_eighty_five_percent() {
    assert_eq!(ClusterBuilder::default().threshold, score(0.85));
}

#[test]
fn pairs_are_compared_once_and_kept_from_the_threshold_on() {
    let files = vec![file(1), file(2), file(3), file(4)];
    let mut fingerprints: HashMap<u128, Vec<Vec<u8>>> = HashMap::new();
    fingerprints.insert(1, vec![vec![0x00], vec![0xff]]);
    fingerprints.insert(2, vec![vec![0x01], vec![0xff], vec![0xaa]]);
    fingerprints.insert(4, vec![vec![0x00, 0x00]]);
    let pairs = ClusterBuilder::compare_files(&files, &fingerprints);
    let ids: Vec<(u128, u128)> = pairs.iter().map(|p| (p.file_a, p.file_b)).collect();
    assert_eq!(ids, vec![(1, 2), (1, 4), (2, 4)]);
    assert_eq!(pairs[0].frames.len(), 2);
    assert_eq!((pairs[0].frames[0].distance, pairs[0].frames[0].bytes), (1, 1));
    assert_eq!((pairs[0].frames[1].distance, pairs[0].frames[1].bytes), (0, 1));
    assert_eq!((pairs[1].frames[0].distance, pairs[1].frames[0].bytes), (u32::MAX, 1));

    let builder = ClusterBuilder::new(score(0.85));
    let scores = vec![score(0.85), score(0.84999), score(f32::NAN)];
    let matches = builder.find_similar_pairs(&pairs, &scores);
    assert_eq!(matches.len(), 1);
    assert_eq!((matches[0].file_a, matches[0].file_b), (1, 2));
    assert_eq!(matches[0].score, score(0.85));
}

#[test]
fn a_set_without_hashes_has_no_distances() {
    let empty: Vec<Vec<u8>> = vec![];
    assert!(ClusterBuilder::compare_fingerprint_sets(&empty, &vec![vec![1]]).is_empty());
    assert!(ClusterBuilder::compare_fingerprint_sets(&vec![vec![1]], &empty).is_empty());
}

#[test]
fn quality_ranks_by_resolution_then_bitrate_then_size() {
    let mut a = file(1);
    a.width = Some(1280);
    a.height = Some(720);
    a.bitrate = Some(9000);
    let mut b = file(2);
    b.width = Some(1920);
    b.height = Some(1080);
    b.bitrate = Some(4000);
    let mut c = file(3);
    c.width = Some(1920);
    c.height = Some(1080);
    c.bitrate = Some(5000);
    let mut d = file(4);
    d.width = Some(1920);
    d.height = Some(1080);
    d.bitrate = Some(4000);
    d.size_bytes = 2000;
    let e = file(5);
    let files = vec![a, b, c, d, e];
    let ranked: Vec<u128> = rank_by_quality(&files).iter().map(|f| f.id).collect();
    assert_eq!(ranked, vec![3, 4, 2, 1, 5]);
}

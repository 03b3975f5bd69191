use dvrreview::clock::Timestamp;
use dvrreview::db::models::{
    ClusterMember, File, FileStatus, ReviewDecision, TranscodeStatus,
};
use dvrreview::web::routes::{
    review_cluster, review_page, serve_thumbnail, show_file, skip_cluster, submit_decision,
    ClusterPage, ReviewTarget, ThumbnailFacts, ThumbnailStep,
};

fn file(id: u128, path: &str) -> File {
    File {
        id,
        path: path.to_string(),
        size_bytes: 2_999_999,
        duration_ms: Some(90_000),
        video_codec: None,
        audio_codec: None,
        width: Some(1920),
        height: Some(1080),
        bitrate: Some(4_999),
        claimed_title: None,
        claimed_season: None,
        claimed_episode: None,
        content_start_ms: None,
        content_end_ms: None,
        status: FileStatus::Pending,
        created_at: Timestamp { seconds: 0, nanos: 0 },
        fingerprinted_at: None,
        transcoded_path: None,
        transcoded_at: None,
        original_size_bytes: None,
        transcode_status: TranscodeStatus::Completed,
        dvr_id: None,
        relative_path: None,
        tmdb_id: None,
        tmdb_media_type: None,
        tmdb_title: None,
        tmdb_year: None,
        identified_at: None,
    }
}

fn member(file_id: u128) -> ClusterMember {
    ClusterMember { cluster_id: 7, file_id, similarity_score: None, is_canonical: false }
}

#[test]
fn a_review_goes_on_with_the_next_cluster() {
    let id = uuid::Uuid::new_v4();
    match review_page(Some(id.as_u128())) {
        ReviewTarget::Redirect(path) => assert_eq!(path, format!("/review/{}", id)),
        ReviewTarget::Page(_) => panic!("there is a cluster"),
    }
    assert!(matches!(review_page(None), ReviewTarget::Page(p) if p.starts_with("<h1>No clusters")));
}

#[test]
fn files_are_shown_with_their_data() {
    let f = file(3, "/dvr/Show/a.mkv");
    let shown = show_file(&f, "/dvr");
    assert_eq!(shown.relative_path, "Show/a.mkv");
    assert_eq!(shown.filename, "a.mkv");
    assert_eq!(shown.resolution, "1920x1080");
    assert_eq!(shown.bitrate_kbps, "4 kbps");
    assert_eq!(shown.size_mb, 2);
    assert_eq!(shown.duration_display, "1:30");
    assert_eq!(shown.thumbnails.len(), 8);
    assert_eq!(shown.thumbnails[1].timestamp_ms, 20_000);
    assert_eq!(shown.thumbnails[1].timestamp_secs, 20);
    assert_eq!(shown.thumbnails[1].file_id, 3);
}

#[test]
fn files_without_data_are_shown_without_it() {
    let mut f = file(3, "a.mkv");
    f.width = None;
    f.bitrate = None;
    f.duration_ms = None;
    f.size_bytes = -1;
    let shown = show_file(&f, "/dvr");
    assert_eq!((shown.relative_path.as_str(), shown.filename.as_str()), ("a.mkv", "a.mkv"));
    assert_eq!((shown.resolution.as_str(), shown.bitrate_kbps.as_str()), ("", ""));
    assert_eq!((shown.size_mb, shown.duration_display.as_str()), (0, ""));
    assert!(shown.thumbnails.is_empty());
    f.duration_ms = Some(3_605_999);
    assert_eq!(show_file(&f, "").duration_display, "60:05");
    f.duration_ms = Some(-61_000);
    assert_eq!(show_file(&f, "").duration_display, format!("{}:{:02}", -61_000 / 60_000, (-61_000 % 60_000) / 1000));
}

#[test]
fn good_files_are_shown_first() {
    let mut files = vec![file(1, "a"), file(2, "b"), file(3, "c"), file(4, "d"), file(5, "e")];
    files[1].bitrate = Some(9_000);
    files[2].transcode_status = TranscodeStatus::Pending;
    files[3].width = None;
    match review_cluster(Some("x"), &files, "") {
        ClusterPage::Files(list) => {
            let ids: Vec<u128> = list.iter().map(|f| f.file.id).collect();
            assert_eq!(ids, vec![2, 1, 5, 4]);
        }
        ClusterPage::NotReady(_) => panic!("four files are ready"),
    }
}

#[test]
fn a_cluster_without_transcoded_files_is_not_ready() {
    let mut files = vec![file(1, "a")];
    files[0].transcode_status = TranscodeStatus::Failed;
    match review_cluster(None, &files, "") {
        ClusterPage::NotReady(html) => assert_eq!(
            html,
            "<h1>Cluster not ready</h1><p>No transcoded files available for cluster \"Unnamed\". \
             Transcode files first, then review.</p><p><a href=\"/\">Back to home</a></p>"
        ),
        ClusterPage::Files(_) => panic!("nothing is ready"),
    }
    assert!(matches!(review_cluster(Some("x"), &vec![], ""), ClusterPage::NotReady(h) if h.contains("\"x\"")));
}

#[test]
fn one_file_is_kept() {
    let members = vec![member(1), member(2), member(3)];
    let plan = submit_decision(7, &members, 2, Some("best".to_string()));
    assert_eq!(
        plan.statuses,
        vec![(1, FileStatus::Deleted), (2, FileStatus::Kept), (3, FileStatus::Deleted)]
    );
    assert_eq!(plan.canonical, Some(2));
    assert_eq!(plan.review.cluster_id, 7);
    assert_eq!(plan.review.decision, ReviewDecision::ConfirmedDuplicates);
    assert_eq!(plan.review.kept_file_id, Some(2));
    assert_eq!(plan.review.notes.as_deref(), Some("best"));
    let ids: Vec<String> = [1u128, 2, 3].iter().map(|i| uuid::Uuid::from_u128(*i).to_string()).collect();
    assert_eq!(plan.review.review_context, Some(ids));
}

#[test]
fn a_skipped_cluster_is_reviewed_again() {
    let plan = skip_cluster(7, &vec![member(1), member(2)]);
    assert_eq!(plan.statuses, vec![(1, FileStatus::Skipped), (2, FileStatus::Skipped)]);
    assert_eq!(plan.canonical, None);
    assert_eq!(plan.review.decision, ReviewDecision::NeedsMoreReview);
    assert_eq!(plan.review.kept_file_id, None);
    assert_eq!(plan.review.notes.as_deref(), Some("Skipped - regenerate thumbnails"));
    assert_eq!(plan.review.review_context, None);
}

#[test]
fn thumbnails_are_served_or_made() {
    let mut facts = ThumbnailFacts { existing: Some(vec![1]), file: None, data: None };
    match serve_thumbnail(3, 500, &facts, true) {
        ThumbnailStep::Serve { data, entry } => {
            assert_eq!(data, vec![1]);
            assert!(entry.is_none());
        }
        _ => panic!("it is there"),
    }
    facts.existing = None;
    assert!(matches!(serve_thumbnail(3, 500, &facts, true), ThumbnailStep::FindFile));
    facts.file = Some(None);
    match serve_thumbnail(3, 500, &facts, true) {
        ThumbnailStep::Refuse(r) => assert_eq!((r.code, r.text), (404, "File not found")),
        _ => panic!("there is no file"),
    }
    facts.file = Some(Some("/a.ts".to_string()));
    assert!(matches!(serve_thumbnail(3, 500, &facts, true), ThumbnailStep::Extract(p) if p == "/a.ts"));
    facts.data = Some(Err("x".to_string()));
    match serve_thumbnail(3, 500, &facts, true) {
        ThumbnailStep::Refuse(r) => assert_eq!((r.code, r.text), (500, "Thumbnail generation failed")),
        _ => panic!("it could not be made"),
    }
    facts.data = Some(Ok(vec![2]));
    match serve_thumbnail(3, 500, &facts, true) {
        ThumbnailStep::Serve { data, entry } => {
            assert_eq!(data, vec![2]);
            let row = entry.unwrap();
            assert_eq!((row.file_id, row.timestamp_ms, row.data), (3, 500, vec![2]));
        }
        _ => panic!("it was made"),
    }
    assert!(matches!(
        serve_thumbnail(3, 500, &facts, false),
        ThumbnailStep::Serve { entry: None, .. }
    ));
}

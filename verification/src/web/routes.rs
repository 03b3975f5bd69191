//! What the pages of the review show and do.
use crate::cluster::{or_zero, value_or_zero};
use crate::db::models::{
    ClusterMember, File, FileStatus, NewReview, NewThumbnail, ReviewDecision, TranscodeStatus,
};
use crate::ids::{id_string, id_text};
use crate::numbers::{
    decimal, decimal_text, divide, push_two_places, quotient, two_places,
};
use crate::order::{in_front, is_stable_order, permutation_reaches, stable_order, SortKey};
use crate::scanner::fingerprint::{
    generate_thumbnail_timestamps, thumbnail_points, thumbnails_are_spread_evenly,
    thumbnails_stay_inside,
};
use crate::text::{
    after_last, chars_of, copy_bytes, middle_is_told, one_of, push_text, starts_with, string_of, strip_prefix,
    tail_after, texts, trim_start_matches, trimmed_start,
};
use vstd::prelude::*;

verus! {

/// Where the browser is sent, or what it is shown.
#[derive(Debug, Clone)]
pub enum ReviewTarget {
    /// The page of a cluster.
    Redirect(String),
    /// A page that says that there is nothing to do.
    Page(&'static str),
}

/// Where a review goes on: with the next cluster, where there is one.
pub fn review_page(next_cluster: Option<u128>) -> (r: ReviewTarget)
    ensures
        match next_cluster {
            Some(id) => r matches ReviewTarget::Redirect(path) && path@ == "/review/"@ + id_text(id),
            None => r matches ReviewTarget::Page(html) && html@
                == "<h1>No clusters to review</h1><p><a href=\"/\">Back to home</a></p>"@,
        },
{
    match next_cluster {
        Some(id) => {
            let mut path = "/review/".to_owned();
            path.append(&id_string(id));
            ReviewTarget::Redirect(path)
        },
        None => ReviewTarget::Page(
            "<h1>No clusters to review</h1><p><a href=\"/\">Back to home</a></p>",
        ),
    }
}

/// A thumbnail on the page of a cluster.
#[derive(Debug, Clone, Copy, PartialEq, Eq, Structural)]
pub struct ThumbnailDisplay {
    pub file_id: u128,
    pub timestamp_ms: i32,
    pub timestamp_secs: i32,
}

/// A file on the page of a cluster.
#[derive(Debug, Clone)]
pub struct FileWithThumbnails<'a> {
    pub file: &'a File,
    pub thumbnails: Vec<ThumbnailDisplay>,
    pub relative_path: String,
    pub filename: String,
    pub resolution: String,
    pub bitrate_kbps: String,
    pub size_mb: i64,
    pub duration_display: String,
}

/// A path without the directory at its beginning and without `/` at its beginning then.
pub open spec fn path_under(path: Seq<char>, media_root: Seq<char>) -> Seq<char> {
    trimmed_start(
        if starts_with(path, media_root) {
            path.skip(media_root.len() as int)
        } else {
            path
        },
        one_of(seq!['/']),
    )
}

/// The size of the picture, where it is known.
pub open spec fn resolution_text(file: File) -> Seq<char> {
    match (file.width, file.height) {
        (Some(w), Some(h)) => decimal(w as int) + "x"@ + decimal(h as int),
        _ => Seq::empty(),
    }
}

/// The bit rate, where it is known.
pub open spec fn bitrate_text(file: File) -> Seq<char> {
    match file.bitrate {
        Some(b) => decimal(quotient(b as int, 1000)) + " kbps"@,
        None => Seq::empty(),
    }
}

/// The duration in minutes and seconds, where it is known.
pub open spec fn duration_text(file: File) -> Seq<char> {
    match file.duration_ms {
        Some(d) => decimal(quotient(d as int, 60000)) + ":"@ + two_places(
            quotient(d - 60000 * quotient(d as int, 60000), 1000),
        ),
        None => Seq::empty(),
    }
}

/// The points in time at which the thumbnails of a file are shown: eight, spread over it.
pub open spec fn shown_points(file: File) -> Seq<i32> {
    match file.duration_ms {
        Some(d) => if d > 0 {
            thumbnail_points(d as int, 8)
        } else {
            Seq::empty()
        },
        None => Seq::empty(),
    }
}

/// The thumbnails of a file.
pub open spec fn shown_thumbnails(file: File) -> Seq<ThumbnailDisplay> {
    shown_points(file).map_values(
        |ts: i32|
            ThumbnailDisplay {
                file_id: file.id,
                timestamp_ms: ts,
                timestamp_secs: quotient(ts as int, 1000) as i32,
            },
    )
}

/// `shown` shows the file `file`.
pub open spec fn shows(shown: FileWithThumbnails, file: File, media_root: Seq<char>) -> bool {
    &&& *shown.file == file
    &&& shown.thumbnails@ == shown_thumbnails(file)
    &&& shown.relative_path@ == path_under(file.path@, media_root)
    &&& shown.filename@ == after_last(file.path@, '/')
    &&& shown.resolution@ == resolution_text(file)
    &&& shown.bitrate_kbps@ == bitrate_text(file)
    &&& shown.size_mb == quotient(file.size_bytes as int, 1_000_000)
    &&& shown.duration_display@ == duration_text(file)
}

fn show_thumbnails(file: &File) -> (r: Vec<ThumbnailDisplay>)
    ensures
        r@ == shown_thumbnails(*file),
{
    let mut out: Vec<ThumbnailDisplay> = Vec::new();
    let points: Vec<i32> = match file.duration_ms {
        Some(d) => generate_thumbnail_timestamps(d, 8),
        None => Vec::new(),
    };
    assert(points@ =~= shown_points(*file));
    let ghost all = shown_thumbnails(*file);
    for i in 0..points.len()
        invariant
            points@ == shown_points(*file),
            all == shown_thumbnails(*file),
            out@ == all.take(i as int),
    {
        let ts: i32 = points[i];
        let secs: i64 = divide(ts as i64, 1000);
        assert(i32::MIN <= secs <= i32::MAX);
        out.push(
            ThumbnailDisplay {
                file_id: file.id,
                timestamp_ms: ts,
                timestamp_secs: secs as i32,
            },
        );
        assert(out@ =~= all.take(i + 1));
    }
    assert(all.take(points@.len() as int) =~= all);
    out
}

fn show_path(path: &str, media_root: &str) -> (r: String)
    ensures
        r@ == path_under(path@, media_root@),
{
    let slash: [char; 1] = ['/'];
    assert(slash@ =~= seq!['/']);
    let chars = chars_of(path);
    match strip_prefix(&chars, &chars_of(media_root)) {
        Some(rest) => string_of(&trim_start_matches(&rest, &slash)),
        None => string_of(&trim_start_matches(&chars, &slash)),
    }
}

fn show_resolution(file: &File) -> (r: String)
    ensures
        r@ == resolution_text(*file),
{
    match (file.width, file.height) {
        (Some(w), Some(h)) => {
            let mut text = decimal_text(w as i64);
            text.append("x");
            text.append(&decimal_text(h as i64));
            text
        },
        _ => String::new(),
    }
}

fn show_bitrate(file: &File) -> (r: String)
    ensures
        r@ == bitrate_text(*file),
{
    match file.bitrate {
        Some(b) => {
            let mut text = decimal_text(divide(b as i64, 1000));
            text.append(" kbps");
            text
        },
        None => String::new(),
    }
}

fn show_duration(file: &File) -> (r: String)
    ensures
        r@ == duration_text(*file),
{
    match file.duration_ms {
        Some(d) => {
            let minutes: i64 = divide(d as i64, 60000);
            let mut text = decimal_text(minutes);
            text.append(":");
            let rest: i64 = d as i64 - 60000 * minutes;
            push_two_places(&mut text, divide(rest, 1000));
            text
        },
        None => String::new(),
    }
}

/// What the page of a cluster shows of a file.
pub fn show_file<'a>(file: &'a File, media_root: &str) -> (r: FileWithThumbnails<'a>)
    ensures
        shows(r, *file, media_root@),
{
    FileWithThumbnails {
        file,
        thumbnails: show_thumbnails(file),
        relative_path: show_path(&file.path, media_root),
        filename: string_of(&tail_after(&chars_of(&file.path), '/')),
        resolution: show_resolution(file),
        bitrate_kbps: show_bitrate(file),
        size_mb: divide(file.size_bytes, 1_000_000),
        duration_display: show_duration(file),
    }
}

/// The area of the picture of a file.
pub open spec fn area(file: File) -> int {
    or_zero(file.width) * or_zero(file.height)
}

/// The quality of a file: the area of its picture times its bit rate.
pub open spec fn quality(file: File) -> int {
    area(file) * or_zero(file.bitrate)
}

/// The area of the picture of a file fits in 32 bits.
pub open spec fn area_fits(file: File) -> bool {
    i32::MIN <= area(file) <= i32::MAX
}

/// The positions of the first `n` files that were transcoded.
pub open spec fn ready_files(files: Seq<File>, n: int) -> Seq<usize>
    decreases n,
{
    if n <= 0 {
        Seq::empty()
    } else if files[n - 1].transcode_status == TranscodeStatus::Completed {
        ready_files(files, n - 1).push((n - 1) as usize)
    } else {
        ready_files(files, n - 1)
    }
}

/// What files are sorted by: good ones come first.
pub open spec fn quality_keys(files: Seq<File>, positions: Seq<usize>) -> Seq<SortKey> {
    positions.map_values(
        |p: usize| SortKey { first: (-1 - quality(files[p as int])) as i64, second: 0, third: 0 },
    )
}

/// The page of a cluster.
#[derive(Debug, Clone)]
pub enum ClusterPage<'a> {
    /// None of its files was transcoded yet.
    NotReady(String),
    /// Its files, good ones first.
    Files(Vec<FileWithThumbnails<'a>>),
}

/// The page of a cluster without transcoded files.
pub open spec fn not_ready_page(name: Option<Seq<char>>) -> Seq<char> {
    "<h1>Cluster not ready</h1><p>No transcoded files available for cluster \""@ + (match name {
        Some(n) => n,
        None => "Unnamed"@,
    }) + "\". Transcode files first, then review.</p><p><a href=\"/\">Back to home</a></p>"@
}

/// `list` shows the given files, those of good quality first; files of the same quality keep their
/// order.
pub open spec fn shows_by_quality(
    list: Seq<FileWithThumbnails>,
    files: Seq<File>,
    positions: Seq<usize>,
    media_root: Seq<char>,
) -> bool {
    exists|order: Seq<usize>|
        {
            &&& #[trigger] is_stable_order(quality_keys(files, positions), order)
            &&& list.len() == order.len()
            &&& forall|k: int|
                0 <= k < list.len() ==> shows(
                    #[trigger] list[k],
                    files[positions[order[k] as int] as int],
                    media_root,
                )
        }
}

fn quality_of(file: &File) -> (r: i64)
    requires
        area_fits(*file),
    ensures
        r == quality(*file),
        r > i64::MIN,
{
    let width: i32 = value_or_zero(file.width);
    let height: i32 = value_or_zero(file.height);
    let bitrate: i32 = value_or_zero(file.bitrate);
    let area: i32 = width * height;
    assert(-0x4000_0000_0000_0000 <= area * bitrate <= 0x4000_0000_0000_0000) by (nonlinear_arith)
        requires
            -0x8000_0000 <= area <= 0x7fff_ffff,
            -0x8000_0000 <= bitrate <= 0x7fff_ffff,
    ;
    area as i64 * bitrate as i64
}

/// What the page of a cluster shows.
pub fn review_cluster<'a>(
    name: Option<&str>,
    files: &'a Vec<File>,
    media_root: &str,
) -> (r: ClusterPage<'a>)
    requires
        forall|i: int|
            0 <= i < files@.len() && (#[trigger] files@[i]).transcode_status
                == TranscodeStatus::Completed ==> area_fits(files@[i]),
    ensures
        ({
            let ready = ready_files(files@, files@.len() as int);
            match r {
                ClusterPage::NotReady(html) => ready.len() == 0 && html@ == not_ready_page(
                    crate::commands::stats::shown(name),
                ),
                ClusterPage::Files(list) => ready.len() > 0 && shows_by_quality(
                    list@,
                    files@,
                    ready,
                    media_root@,
                ),
            }
        }),
{
    let mut positions: Vec<usize> = Vec::new();
    let mut keys: Vec<SortKey> = Vec::new();
    for i in 0..files.len()
        invariant
            forall|i: int|
                0 <= i < files@.len() && (#[trigger] files@[i]).transcode_status
                    == TranscodeStatus::Completed ==> area_fits(files@[i]),
            positions@ == ready_files(files@, i as int),
            keys@ == quality_keys(files@, positions@),
            forall|k: int| 0 <= k < positions@.len() ==> (#[trigger] positions@[k]) < i,
    {
        if let TranscodeStatus::Completed = files[i].transcode_status {
            assert(area_fits(files@[i as int]));
            let q: i64 = quality_of(&files[i]);
            positions.push(i);
            keys.push(SortKey { first: -1 - q, second: 0, third: 0 });
            assert(keys@ =~= quality_keys(files@, positions@));
        }
    }
    if positions.len() == 0 {
        let mut html =
            "<h1>Cluster not ready</h1><p>No transcoded files available for cluster \"".to_owned();
        match name {
            Some(n) => html.append(n),
            None => html.append("Unnamed"),
        }
        html.append(
            "\". Transcode files first, then review.</p><p><a href=\"/\">Back to home</a></p>",
        );
        return ClusterPage::NotReady(html);
    }
    let order = stable_order(&keys);
    let mut list: Vec<FileWithThumbnails<'a>> = Vec::new();
    for k in 0..order.len()
        invariant
            is_stable_order(quality_keys(files@, positions@), order@),
            forall|k: int| 0 <= k < positions@.len() ==> (#[trigger] positions@[k]) < files@.len(),
            list@.len() == k,
            forall|l: int|
                0 <= l < k ==> shows(
                    #[trigger] list@[l],
                    files@[positions@[order@[l] as int] as int],
                    media_root@,
                ),
    {
        assert(order@[k as int] < positions@.len());
        let at: usize = positions[order[k]];
        list.push(show_file(&files[at], media_root));
    }
    ClusterPage::Files(list)
}

/// What a decision on a cluster changes.
#[derive(Debug, Clone)]
pub struct DecisionPlan {
    /// The files and what becomes of them.
    pub statuses: Vec<(u128, FileStatus)>,
    /// The file that stands for the cluster, if there is one.
    pub canonical: Option<u128>,
    /// The record of the review.
    pub review: NewReview,
}

/// The ids of the files of a cluster in words.
pub open spec fn member_ids(members: Seq<ClusterMember>) -> Seq<Seq<char>> {
    members.map_values(|m: ClusterMember| id_text(m.file_id))
}

/// The files of a cluster and what becomes of them when one is kept.
pub open spec fn decided(members: Seq<ClusterMember>, kept_file_id: u128) -> Seq<(u128, FileStatus)> {
    members.map_values(
        |m: ClusterMember|
            (
                m.file_id,
                if m.file_id == kept_file_id {
                    FileStatus::Kept
                } else {
                    FileStatus::Deleted
                },
            ),
    )
}

/// Keeps one of the files of a cluster and gives up the others.
pub fn submit_decision(
    cluster_id: u128,
    members: &Vec<ClusterMember>,
    kept_file_id: u128,
    notes: Option<String>,
) -> (r: DecisionPlan)
    ensures
        r.statuses@ == decided(members@, kept_file_id),
        r.canonical == Some(kept_file_id),
        r.review.cluster_id == cluster_id,
        r.review.decision == ReviewDecision::ConfirmedDuplicates,
        r.review.kept_file_id == Some(kept_file_id),
        r.review.notes == notes,
        r.review.review_context matches Some(ids) && texts(ids@) == member_ids(members@),
{
    let mut statuses: Vec<(u128, FileStatus)> = Vec::new();
    let mut ids: Vec<String> = Vec::new();
    let ghost all = members@.map_values(
        |m: ClusterMember|
            (
                m.file_id,
                if m.file_id == kept_file_id {
                    FileStatus::Kept
                } else {
                    FileStatus::Deleted
                },
            ),
    );
    for i in 0..members.len()
        invariant
            all == members@.map_values(
                |m: ClusterMember|
                    (
                        m.file_id,
                        if m.file_id == kept_file_id {
                            FileStatus::Kept
                        } else {
                            FileStatus::Deleted
                        },
                    ),
            ),
            statuses@ == all.take(i as int),
            texts(ids@) == member_ids(members@).take(i as int),
    {
        let status = if members[i].file_id == kept_file_id {
            FileStatus::Kept
        } else {
            FileStatus::Deleted
        };
        statuses.push((members[i].file_id, status));
        push_text(&mut ids, &id_string(members[i].file_id));
        assert(statuses@ =~= all.take(i + 1));
        assert(texts(ids@) =~= member_ids(members@).take(i + 1));
    }
    assert(all.take(members@.len() as int) =~= all);
    assert(member_ids(members@).take(members@.len() as int) =~= member_ids(members@));
    DecisionPlan {
        statuses,
        canonical: Some(kept_file_id),
        review: NewReview {
            cluster_id,
            decision: ReviewDecision::ConfirmedDuplicates,
            kept_file_id: Some(kept_file_id),
            notes,
            review_context: Some(ids),
        },
    }
}

/// After a decision no file of the cluster but the kept one is kept.
pub proof fn only_one_file_is_kept(members: Seq<ClusterMember>, kept_file_id: u128, i: int)
    requires
        0 <= i < members.len(),
    ensures
        decided(members, kept_file_id).len() == members.len(),
        decided(members, kept_file_id)[i].0 == members[i].file_id,
        decided(members, kept_file_id)[i].1 == FileStatus::Kept <==> members[i].file_id
            == kept_file_id,
        decided(members, kept_file_id)[i].1 == FileStatus::Kept || decided(
            members,
            kept_file_id,
        )[i].1 == FileStatus::Deleted,
{
}

/// Sets a cluster aside for another review.
pub fn skip_cluster(cluster_id: u128, members: &Vec<ClusterMember>) -> (r: DecisionPlan)
    ensures
        r.statuses@ == members@.map_values(|m: ClusterMember| (m.file_id, FileStatus::Skipped)),
        r.canonical is None,
        r.review.cluster_id == cluster_id,
        r.review.decision == ReviewDecision::NeedsMoreReview,
        r.review.kept_file_id is None,
        r.review.notes matches Some(notes) && notes@ == "Skipped - regenerate thumbnails"@,
        r.review.review_context is None,
{
    let mut statuses: Vec<(u128, FileStatus)> = Vec::new();
    let ghost all = members@.map_values(|m: ClusterMember| (m.file_id, FileStatus::Skipped));
    for i in 0..members.len()
        invariant
            all == members@.map_values(|m: ClusterMember| (m.file_id, FileStatus::Skipped)),
            statuses@ == all.take(i as int),
    {
        statuses.push((members[i].file_id, FileStatus::Skipped));
        assert(statuses@ =~= all.take(i + 1));
    }
    assert(all.take(members@.len() as int) =~= all);
    DecisionPlan {
        statuses,
        canonical: None,
        review: NewReview {
            cluster_id,
            decision: ReviewDecision::NeedsMoreReview,
            kept_file_id: None,
            notes: Some("Skipped - regenerate thumbnails".to_owned()),
            review_context: None,
        },
    }
}

/// A refusal: the code and the text of the answer.
#[derive(Debug, Clone, Copy)]
pub struct Refusal {
    pub code: u16,
    pub text: &'static str,
}

/// What is done to answer a request for a thumbnail.
#[derive(Debug, Clone)]
pub enum ThumbnailStep {
    /// Look for the record of the file.
    FindFile,
    /// Take the thumbnail from the recording at the given path.
    Extract(String),
    /// Answer with the thumbnail, after it has been entered where that is asked for.
    Serve { data: Vec<u8>, entry: Option<NewThumbnail> },
    /// Refuse.
    Refuse(Refusal),
}

/// What is known of a thumbnail that is asked for.
#[derive(Debug, Clone)]
pub struct ThumbnailFacts {
    /// The thumbnail, where it was made before.
    pub existing: Option<Vec<u8>>,
    /// Where the recording lies, once its record was looked for; nothing where it has none.
    pub file: Option<Option<String>>,
    /// The thumbnail or an error, once it was taken from the recording.
    pub data: Option<Result<Vec<u8>, String>>,
}

/// `step` answers with `data`, and enters it where that is asked for.
pub open spec fn serves(
    step: ThumbnailStep,
    file_id: u128,
    timestamp_ms: i32,
    bytes: Seq<u8>,
    preserve: bool,
) -> bool {
    &&& step matches ThumbnailStep::Serve { data, entry }
    &&& data@ == bytes
    &&& entry is Some <==> preserve
    &&& entry matches Some(row) ==> row.file_id == file_id && row.timestamp_ms == timestamp_ms
        && row.data@ == bytes
}

/// `step` refuses with the given code and text.
pub open spec fn refuses(step: ThumbnailStep, code: u16, text: Seq<char>) -> bool {
    step matches ThumbnailStep::Refuse(refusal) && refusal.code == code && refusal.text@ == text
}

/// What is done next to answer a request for a thumbnail: one that was made before is served, else
/// it is taken from the recording and, where that is asked for, entered.
pub fn serve_thumbnail(
    file_id: u128,
    timestamp_ms: i32,
    facts: &ThumbnailFacts,
    preserve_thumbnails: bool,
) -> (r: ThumbnailStep)
    ensures
        match facts.existing {
            Some(bytes) => serves(r, file_id, timestamp_ms, bytes@, false),
            None => match facts.file {
                None => r is FindFile,
                Some(None) => refuses(r, 404, "File not found"@),
                Some(Some(place)) => match facts.data {
                    None => r matches ThumbnailStep::Extract(path) && path@ == place@,
                    Some(Err(_)) => refuses(r, 500, "Thumbnail generation failed"@),
                    Some(Ok(bytes)) => serves(
                        r,
                        file_id,
                        timestamp_ms,
                        bytes@,
                        preserve_thumbnails,
                    ),
                },
            },
        },
{
    if let Some(bytes) = &facts.existing {
        return ThumbnailStep::Serve { data: copy_bytes(bytes), entry: None };
    }
    match &facts.file {
        None => ThumbnailStep::FindFile,
        Some(None) => ThumbnailStep::Refuse(Refusal { code: 404, text: "File not found" }),
        Some(Some(path)) => match &facts.data {
            None => ThumbnailStep::Extract(path.as_str().to_owned()),
            Some(Err(_)) => ThumbnailStep::Refuse(
                Refusal { code: 500, text: "Thumbnail generation failed" },
            ),
            Some(Ok(bytes)) => {
                let entry = if preserve_thumbnails {
                    Some(NewThumbnail { file_id, timestamp_ms, data: copy_bytes(bytes) })
                } else {
                    None
                };
                ThumbnailStep::Serve { data: copy_bytes(bytes), entry }
            },
        },
    }
}

/// The quality of a file grows by the factor by which its width, its height or its bit rate grows.
/// It is one where each of them is one, and nothing where one of them is unknown.
pub proof fn quality_grows_with_each_measure(a: File, b: File, k: int)
    requires
        a.width is Some,
        a.height is Some,
        a.bitrate is Some,
        b.width is Some,
        b.height is Some,
        b.bitrate is Some,
    ensures
        b.width->0 == k * a.width->0 && b.height == a.height && b.bitrate == a.bitrate ==> quality(
            b,
        ) == k * quality(a),
        b.height->0 == k * a.height->0 && b.width == a.width && b.bitrate == a.bitrate ==> quality(
            b,
        ) == k * quality(a),
        b.bitrate->0 == k * a.bitrate->0 && b.width == a.width && b.height == a.height ==> quality(
            b,
        ) == k * quality(a),
        a.width->0 == 1 && a.height->0 == 1 && a.bitrate->0 == 1 ==> quality(a) == 1,
        forall|f: File|
            f.width is None || f.height is None || f.bitrate is None ==> #[trigger] quality(f) == 0,
{
    let w = a.width->0 as int;
    let h = a.height->0 as int;
    let r = a.bitrate->0 as int;
    assert((k * w) * h * r == k * (w * h * r)) by (nonlinear_arith);
    assert(w * (k * h) * r == k * (w * h * r)) by (nonlinear_arith);
    assert(w * h * (k * r) == k * (w * h * r)) by (nonlinear_arith);
    assert forall|f: File|
        f.width is None || f.height is None || f.bitrate is None implies #[trigger] quality(f)
        == 0 by {
        assert(0 * or_zero(f.height) == 0 && or_zero(f.width) * 0 == 0 && area(f) * 0 == 0 && 0
            * or_zero(f.bitrate) == 0) by (nonlinear_arith);
    }
}

proof fn lemma_ready_files(files: Seq<File>, n: int, k: int)
    requires
        0 <= n <= files.len() <= usize::MAX,
    ensures
        forall|j: int|
            0 <= j < ready_files(files, n).len() ==> (#[trigger] ready_files(files, n)[j]) < n
                && files[ready_files(files, n)[j] as int].transcode_status
                == TranscodeStatus::Completed,
        0 <= k < n && files[k].transcode_status == TranscodeStatus::Completed ==> exists|j: int|
            0 <= j < ready_files(files, n).len() && #[trigger] ready_files(files, n)[j] == k,
    decreases n,
{
    if n > 0 {
        lemma_ready_files(files, n - 1, k);
        let before = ready_files(files, n - 1);
        let now = ready_files(files, n);
        assert forall|j: int| 0 <= j < now.len() implies (#[trigger] now[j]) < n
            && files[now[j] as int].transcode_status == TranscodeStatus::Completed by {
            if j < before.len() {
                assert(now[j] == before[j]);
            }
        }
        if 0 <= k < n && files[k].transcode_status == TranscodeStatus::Completed {
            if k < n - 1 {
                let j = choose|j: int| 0 <= j < before.len() && #[trigger] before[j] == k;
                assert(now[j] == k);
            } else {
                assert(now[before.len() as int] == k);
            }
        }
    }
}

/// The page of a cluster shows every file that was transcoded and no other, and none behind one of
/// lower quality.
pub proof fn good_files_are_shown_first(
    list: Seq<FileWithThumbnails>,
    files: Seq<File>,
    media_root: Seq<char>,
    k: int,
    l: int,
    f: int,
)
    requires
        files.len() <= usize::MAX,
        forall|i: int|
            0 <= i < files.len() && (#[trigger] files[i]).transcode_status
                == TranscodeStatus::Completed ==> area_fits(files[i]),
        shows_by_quality(list, files, ready_files(files, files.len() as int), media_root),
        0 <= k < l < list.len(),
    ensures
        quality(*list[k].file) >= quality(*list[l].file),
        list[k].file.transcode_status == TranscodeStatus::Completed,
        list[l].file.transcode_status == TranscodeStatus::Completed,
        0 <= f < files.len() && files[f].transcode_status == TranscodeStatus::Completed
            ==> exists|i: int| 0 <= i < list.len() && *(#[trigger] list[i]).file == files[f],
{
    let n = files.len() as int;
    let ready = ready_files(files, n);
    let keys = quality_keys(files, ready);
    lemma_ready_files(files, n, f);
    let order = choose|order: Seq<usize>|
        {
            &&& #[trigger] is_stable_order(keys, order)
            &&& list.len() == order.len()
            &&& forall|k: int|
                0 <= k < list.len() ==> shows(
                    #[trigger] list[k],
                    files[ready[order[k] as int] as int],
                    media_root,
                )
        };
    let a = order[k] as int;
    let b = order[l] as int;
    assert(a < keys.len() && b < keys.len());
    assert(in_front(keys, a, b));
    assert(shows(list[k], files[ready[a] as int], media_root));
    assert(shows(list[l], files[ready[b] as int], media_root));
    assert(ready[a] < n && ready[b] < n);
    lemma_quality_fits(files[ready[a] as int]);
    lemma_quality_fits(files[ready[b] as int]);
    if 0 <= f < n && files[f].transcode_status == TranscodeStatus::Completed {
        let j = choose|j: int| 0 <= j < ready.len() && #[trigger] ready[j] == f;
        let i = permutation_reaches(order, keys.len() as int, j);
        assert(shows(list[i], files[ready[order[i] as int] as int], media_root));
    }
}

proof fn lemma_quality_fits(file: File)
    requires
        area_fits(file),
    ensures
        i64::MIN < quality(file) <= i64::MAX,
        i64::MIN <= -1 - quality(file) <= i64::MAX,
{
    let x = area(file);
    let y = or_zero(file.bitrate);
    assert(-0x4000_0000_0000_0000 <= x * y <= 0x4000_0000_0000_0000) by (nonlinear_arith)
        requires
            -0x8000_0000 <= x <= 0x7fff_ffff,
            -0x8000_0000 <= y <= 0x7fff_ffff,
    ;
}

/// The path of a file below a directory is shown without the directory and without the slashes
/// behind it. A path that lies elsewhere is shown whole.
pub proof fn shown_path_is_the_rest(root: Seq<char>, slashes: Seq<char>, rest: Seq<char>)
    requires
        forall|k: int| 0 <= k < slashes.len() ==> #[trigger] slashes[k] == '/',
        rest.len() == 0 || rest[0] != '/',
    ensures
        path_under(root + slashes + rest, root) == rest,
        rest.len() > 0 && root.len() > 0 && root[0] == '/' ==> path_under(rest, root) == rest,
{
    let path = root + slashes + rest;
    let set = seq!['/'];
    assert(set[0] == '/');
    assert(path.subrange(0, root.len() as int) =~= root);
    assert(path.skip(root.len() as int) =~= slashes + rest);
    lemma_slashes_are_dropped(slashes, rest);
    if rest.len() > 0 && root.len() > 0 && root[0] == '/' {
        if starts_with(rest, root) {
            assert(rest.subrange(0, root.len() as int)[0] == root[0]);
        }
        assert(!set.contains(rest[0]));
    }
}

proof fn lemma_slashes_are_dropped(slashes: Seq<char>, rest: Seq<char>)
    requires
        forall|k: int| 0 <= k < slashes.len() ==> #[trigger] slashes[k] == '/',
        rest.len() == 0 || rest[0] != '/',
    ensures
        trimmed_start(slashes + rest, one_of(seq!['/'])) == rest,
    decreases slashes.len(),
{
    let set = seq!['/'];
    assert(set[0] == '/');
    assert(set.contains('/'));
    let all = slashes + rest;
    if slashes.len() > 0 {
        assert(all[0] == slashes[0]);
        assert(all.skip(1) =~= slashes.skip(1) + rest);
        lemma_slashes_are_dropped(slashes.skip(1), rest);
    } else {
        assert(all =~= rest);
    }
}

/// The name of a file is what stands behind the last slash of its path.
pub proof fn shown_name_is_behind_the_last_slash(dir: Seq<char>, name: Seq<char>)
    requires
        forall|k: int| 0 <= k < name.len() ==> #[trigger] name[k] != '/',
    ensures
        after_last(dir.push('/') + name, '/') == name,
        after_last(name, '/') == name,
    decreases name.len(),
{
    let path = dir.push('/') + name;
    if name.len() > 0 {
        shown_name_is_behind_the_last_slash(dir, name.drop_last());
        assert(path.last() == name[name.len() - 1]);
        assert(path.drop_last() =~= dir.push('/') + name.drop_last());
        assert(name.drop_last().push(name.last()) =~= name);
    } else {
        assert(path =~= dir.push('/'));
        assert(path.last() == '/');
    }
}

/// What is shown of a file agrees with its measures: the minutes and seconds with its duration, less
/// than a second short of it, the bit rate and the size with less than a thousand and a million
/// missing, and the size of the picture with its width and height.
pub proof fn shown_measures_agree(
    shown: FileWithThumbnails,
    file: File,
    media_root: Seq<char>,
) -> (r: (int, int, int))
    requires
        shows(shown, file, media_root),
        file.size_bytes >= 0,
        file.duration_ms matches Some(d) && d >= 0,
        file.bitrate matches Some(b) && b >= 0,
        file.width is Some,
        file.height is Some,
    ensures
        shown.duration_display@ == decimal(r.0) + ":"@ + two_places(r.1),
        0 <= r.0,
        0 <= r.1 < 60,
        0 <= file.duration_ms->0 - 60_000 * r.0 - 1000 * r.1 < 1000,
        shown.bitrate_kbps@ == decimal(r.2) + " kbps"@,
        0 <= file.bitrate->0 - 1000 * r.2 < 1000,
        0 <= file.size_bytes - 1_000_000 * shown.size_mb < 1_000_000,
        shown.resolution@ == decimal(file.width->0 as int) + "x"@ + decimal(
            file.height->0 as int,
        ),
{
    let d = file.duration_ms->0 as int;
    let minutes = quotient(d, 60_000);
    let seconds = quotient(d - 60_000 * minutes, 1000);
    (minutes, seconds, quotient(file.bitrate->0 as int, 1000))
}

/// A file with a length is shown with eight thumbnails of its own, each with the whole seconds of its
/// point in time, as far from the one before it as the first is from the beginning.
pub proof fn shown_thumbnails_are_spread_evenly(file: File, i: int)
    requires
        file.duration_ms matches Some(d) && d > 0,
        0 <= i < 8,
    ensures
        shown_thumbnails(file).len() == 8,
        shown_thumbnails(file)[i].file_id == file.id,
        0 <= shown_thumbnails(file)[i].timestamp_ms < file.duration_ms->0,
        0 <= shown_thumbnails(file)[i].timestamp_ms - 1000 * shown_thumbnails(file)[i].timestamp_secs
            < 1000,
        i > 0 ==> shown_thumbnails(file)[i].timestamp_ms - shown_thumbnails(file)[i - 1].timestamp_ms
            == shown_thumbnails(file)[0].timestamp_ms,
{
    let d = file.duration_ms->0 as int;
    thumbnails_are_spread_evenly(d, 8, if i > 0 {
        i - 1
    } else {
        0
    });
    thumbnails_stay_inside(d, 8, i, i);
}

/// The page of a cluster that is not ready tells its name, and the record of a review lists the ids of
/// all members in order.
pub proof fn names_and_members_are_told(
    a: Option<Seq<char>>,
    b: Seq<char>,
    members: Seq<ClusterMember>,
    i: int,
)
    ensures
        a is Some && not_ready_page(a) == not_ready_page(Some(b)) ==> a == Some(b),
        not_ready_page(None) == not_ready_page(Some("Unnamed"@)),
        member_ids(members).len() == members.len(),
        0 <= i < members.len() ==> member_ids(members)[i] == id_text(members[i].file_id),
{
    if a is Some && not_ready_page(a) == not_ready_page(Some(b)) {
        middle_is_told(
            "<h1>Cluster not ready</h1><p>No transcoded files available for cluster \""@,
            a->0,
            b,
            "\". Transcode files first, then review.</p><p><a href=\"/\">Back to home</a></p>"@,
        );
    }
}

}

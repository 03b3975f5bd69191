//! The statistics of a collection.
use crate::clock::{time_text, utc_text};
use crate::db::models::{Dvr, File, TranscodeStatus};
use crate::ids::{id_string, id_text};
use crate::numbers::{decimal, decimal_text, written_numbers_read_back};
use crate::text::{middle_is_told, push_text, texts};
use vstd::prelude::*;

verus! {

/// The space that the transcoding of a file has saved; none where it was not transcoded or its
/// former size is not known.
pub open spec fn saved_by(file: File) -> int {
    if file.transcode_status == TranscodeStatus::Completed && file.original_size_bytes is Some {
        file.original_size_bytes->0 - file.size_bytes
    } else {
        0
    }
}

/// The space that the transcoding of the first `n` files has saved.
pub open spec fn saved(files: Seq<File>, n: int) -> int
    decreases n,
{
    if n <= 0 {
        0
    } else {
        saved(files, n - 1) + saved_by(files[n - 1])
    }
}

/// The size of the first `n` files together.
pub open spec fn total_size(files: Seq<File>, n: int) -> int
    decreases n,
{
    if n <= 0 {
        0
    } else {
        total_size(files, n - 1) + files[n - 1].size_bytes
    }
}

/// A number fits in 64 bits.
pub open spec fn fits(n: int) -> bool {
    i64::MIN <= n <= i64::MAX
}

/// The space that the transcoding of files has saved.
pub fn savings(files: &Vec<File>) -> (r: i64)
    requires
        forall|i: int| 0 <= i < files@.len() ==> fits(saved_by(#[trigger] files@[i])),
        forall|n: int| 0 <= n <= files@.len() ==> fits(#[trigger] saved(files@, n)),
    ensures
        r == saved(files@, files@.len() as int),
{
    let mut sum: i64 = 0;
    for i in 0..files.len()
        invariant
            forall|i: int| 0 <= i < files@.len() ==> fits(saved_by(#[trigger] files@[i])),
            forall|n: int| 0 <= n <= files@.len() ==> fits(#[trigger] saved(files@, n)),
            sum == saved(files@, i as int),
    {
        assert(fits(saved(files@, i + 1)));
        assert(fits(saved_by(files@[i as int])));
        if let TranscodeStatus::Completed = files[i].transcode_status {
            if let Some(original) = files[i].original_size_bytes {
                sum = sum + (original - files[i].size_bytes);
            }
        }
    }
    sum
}

/// The size of files together.
pub fn sum_sizes(files: &Vec<File>) -> (r: i64)
    requires
        forall|n: int| 0 <= n <= files@.len() ==> fits(#[trigger] total_size(files@, n)),
    ensures
        r == total_size(files@, files@.len() as int),
{
    let mut sum: i64 = 0;
    for i in 0..files.len()
        invariant
            forall|n: int| 0 <= n <= files@.len() ==> fits(#[trigger] total_size(files@, n)),
            sum == total_size(files@, i as int),
    {
        assert(fits(total_size(files@, i + 1)));
        sum = sum + files[i].size_bytes;
    }
    sum
}

/// What was counted in the database.
#[derive(Debug, Clone, Copy, PartialEq, Eq, Structural)]
pub struct StatCounts {
    pub total_files: i64,
    pub fingerprinted: i64,
    pub files_with_fps: i64,
    pub total_fp_records: i64,
    pub total_clusters: i64,
    pub reviewed: i64,
    pub transcoded: i64,
    pub pending_transcode: i64,
    pub failed_transcode: i64,
}

/// The lines on the collection itself.
pub open spec fn dvr_lines(
    dvr: Dvr,
    shown_path: Seq<char>,
    verified: Option<Seq<char>>,
) -> Seq<Seq<char>> {
    let front = seq![
        "DVR: "@ + dvr.name@ + " (id: "@ + id_text(dvr.id) + ")"@,
        "Path: "@ + shown_path,
    ];
    match verified {
        Some(time) => front.push("Last verified: "@ + time),
        None => front,
    }
}

/// The lines on what was counted.
pub open spec fn count_lines(c: StatCounts) -> Seq<Seq<char>> {
    seq![
        ""@,
        "Files"@,
        "  Total:           "@ + decimal(c.total_files as int),
        "  Fingerprinted:   "@ + decimal(c.fingerprinted as int) + " (flag set)"@,
        "  With FP records: "@ + decimal(c.files_with_fps as int) + " ("@ + decimal(
            c.total_fp_records as int,
        ) + " records)"@,
        ""@,
        "Dedup"@,
        "  Clusters:        "@ + decimal(c.total_clusters as int),
        "  Reviews:         "@ + decimal(c.reviewed as int),
        ""@,
        "Transcode"@,
        "  Completed:       "@ + decimal(c.transcoded as int),
        "  Pending:         "@ + decimal(c.pending_transcode as int),
        "  Failed:          "@ + decimal(c.failed_transcode as int),
    ]
}

/// The lines on the space: what was saved, where that is something, and what is in use.
pub open spec fn space_lines(savings: int, saved_gb: Seq<char>, size_gb: Seq<char>) -> Seq<
    Seq<char>,
> {
    let front = if savings > 0 {
        seq!["  Space saved:  "@ + saved_gb + " GB"@]
    } else {
        Seq::empty()
    };
    front + seq![""@, "Storage"@, "  Current size: "@ + size_gb + " GB"@]
}

fn push_count(lines: &mut Vec<String>, label: &str, n: i64)
    ensures
        texts(final(lines)@) == texts(old(lines)@).push(label@ + decimal(n as int)),
{
    let mut line = label.to_owned();
    line.append(&decimal_text(n));
    push_text(lines, &line);
}

/// The view of a text that may be missing.
pub open spec fn shown(text: Option<&str>) -> Option<Seq<char>> {
    match text {
        Some(t) => Some(t@),
        None => None,
    }
}

/// The statistics of a collection in words. The path, the time of the last verification and the
/// two sizes in gigabytes are given as they are to be shown.
pub fn tell_stats(
    dvr: &Dvr,
    shown_path: &str,
    verified: Option<&str>,
    counts: &StatCounts,
    savings: i64,
    saved_gb: &str,
    size_gb: &str,
) -> (r: Vec<String>)
    ensures
        texts(r@) == dvr_lines(*dvr, shown_path@, shown(verified)) + count_lines(*counts)
            + space_lines(savings as int, saved_gb@, size_gb@),
{
    let mut lines: Vec<String> = Vec::new();
    let mut line = "DVR: ".to_owned();
    line.append(&dvr.name);
    line.append(" (id: ");
    line.append(&id_string(dvr.id));
    line.append(")");
    push_text(&mut lines, &line);
    let mut line = "Path: ".to_owned();
    line.append(shown_path);
    push_text(&mut lines, &line);
    if let Some(time) = verified {
        let mut line = "Last verified: ".to_owned();
        line.append(time);
        push_text(&mut lines, &line);
    }
    let ghost front = dvr_lines(*dvr, shown_path@, shown(verified));
    assert(texts(lines@) =~= front);
    push_text(&mut lines, "");
    push_text(&mut lines, "Files");
    push_count(&mut lines, "  Total:           ", counts.total_files);
    let mut line = "  Fingerprinted:   ".to_owned();
    line.append(&decimal_text(counts.fingerprinted));
    line.append(" (flag set)");
    push_text(&mut lines, &line);
    let mut line = "  With FP records: ".to_owned();
    line.append(&decimal_text(counts.files_with_fps));
    line.append(" (");
    line.append(&decimal_text(counts.total_fp_records));
    line.append(" records)");
    push_text(&mut lines, &line);
    push_text(&mut lines, "");
    push_text(&mut lines, "Dedup");
    push_count(&mut lines, "  Clusters:        ", counts.total_clusters);
    push_count(&mut lines, "  Reviews:         ", counts.reviewed);
    push_text(&mut lines, "");
    push_text(&mut lines, "Transcode");
    push_count(&mut lines, "  Completed:       ", counts.transcoded);
    push_count(&mut lines, "  Pending:         ", counts.pending_transcode);
    push_count(&mut lines, "  Failed:          ", counts.failed_transcode);
    let ghost front = front + count_lines(*counts);
    assert(texts(lines@) =~= front);
    if savings > 0 {
        let mut line = "  Space saved:  ".to_owned();
        line.append(saved_gb);
        line.append(" GB");
        push_text(&mut lines, &line);
    }
    push_text(&mut lines, "");
    push_text(&mut lines, "Storage");
    let mut line = "  Current size: ".to_owned();
    line.append(size_gb);
    line.append(" GB");
    push_text(&mut lines, &line);
    assert(texts(lines@) =~= front + space_lines(savings as int, saved_gb@, size_gb@));
    lines
}

/// The time of the last verification in words, where there was one.
pub open spec fn verified_text(dvr: Dvr) -> Option<Seq<char>> {
    match dvr.last_verified_at {
        Some(time) => utc_text(time.seconds, time.nanos),
        None => None,
    }
}

/// The statistics of a collection in words. The path and the two sizes in gigabytes are given as
/// they are to be shown.
pub fn show_stats(
    dvr: &Dvr,
    shown_path: &str,
    counts: &StatCounts,
    savings: i64,
    saved_gb: &str,
    size_gb: &str,
) -> (r: Vec<String>)
    ensures
        texts(r@) == dvr_lines(*dvr, shown_path@, verified_text(*dvr)) + count_lines(*counts)
            + space_lines(savings as int, saved_gb@, size_gb@),
{
    let verified = match dvr.last_verified_at {
        Some(time) => time_text(time),
        None => None,
    };
    match &verified {
        Some(time) => tell_stats(
            dvr,
            shown_path,
            Some(time.as_str()),
            counts,
            savings,
            saved_gb,
            size_gb,
        ),
        None => tell_stats(dvr, shown_path, None, counts, savings, saved_gb, size_gb),
    }
}

/// A file that was transcoded takes less space by what it has saved; every other file has saved
/// nothing.
pub proof fn saved_space_is_the_difference(file: File)
    ensures
        file.transcode_status == TranscodeStatus::Completed && file.original_size_bytes is Some
            ==> file.size_bytes + saved_by(file) == file.original_size_bytes->0,
        file.transcode_status != TranscodeStatus::Completed || file.original_size_bytes is None
            ==> saved_by(file) == 0,
{
}

/// The space that files take and the space that was saved add up over parts of a collection.
pub proof fn sizes_add_up(a: Seq<File>, b: Seq<File>, n: int)
    requires
        0 <= n <= b.len(),
    ensures
        saved(a + b, a.len() + n) == saved(a, a.len() as int) + saved(b, n),
        total_size(a + b, a.len() + n) == total_size(a, a.len() as int) + total_size(b, n),
        n == 1 ==> saved(b, n) == saved_by(b[0]) && total_size(b, n) == b[0].size_bytes,
    decreases n,
{
    if n > 0 {
        sizes_add_up(a, b, n - 1);
        assert((a + b)[a.len() + n - 1] == b[n - 1]);
        reveal_with_fuel(saved, 2);
        reveal_with_fuel(total_size, 2);
    } else {
        lemma_sizes_of_front(a, b, a.len() as int);
    }
}

proof fn lemma_sizes_of_front(a: Seq<File>, b: Seq<File>, n: int)
    requires
        0 <= n <= a.len(),
    ensures
        saved(a + b, n) == saved(a, n),
        total_size(a + b, n) == total_size(a, n),
    decreases n,
{
    if n > 0 {
        lemma_sizes_of_front(a, b, n - 1);
        assert((a + b)[n - 1] == a[n - 1]);
    }
}

/// Every count is told: different counts make different lines.
pub proof fn every_count_is_told(a: StatCounts, b: StatCounts)
    requires
        count_lines(a) == count_lines(b),
        a.files_with_fps == b.files_with_fps || a.total_fp_records == b.total_fp_records,
    ensures
        a == b,
{
    let p = count_lines(a);
    let q = count_lines(b);
    lemma_count_is_told("  Total:           "@, a.total_files, b.total_files, Seq::empty(), p[2], q[2]);
    lemma_count_is_told(
        "  Fingerprinted:   "@,
        a.fingerprinted,
        b.fingerprinted,
        " (flag set)"@,
        p[3],
        q[3],
    );
    if a.total_fp_records == b.total_fp_records {
        lemma_count_is_told(
            "  With FP records: "@,
            a.files_with_fps,
            b.files_with_fps,
            " ("@ + decimal(a.total_fp_records as int) + " records)"@,
            p[4],
            q[4],
        );
    } else {
        lemma_count_is_told(
            "  With FP records: "@ + decimal(a.files_with_fps as int) + " ("@,
            a.total_fp_records,
            b.total_fp_records,
            " records)"@,
            p[4],
            q[4],
        );
    }
    lemma_count_is_told(
        "  Clusters:        "@,
        a.total_clusters,
        b.total_clusters,
        Seq::empty(),
        p[7],
        q[7],
    );
    lemma_count_is_told("  Reviews:         "@, a.reviewed, b.reviewed, Seq::empty(), p[8], q[8]);
    lemma_count_is_told("  Completed:       "@, a.transcoded, b.transcoded, Seq::empty(), p[11], q[11]);
    lemma_count_is_told(
        "  Pending:         "@,
        a.pending_transcode,
        b.pending_transcode,
        Seq::empty(),
        p[12],
        q[12],
    );
    lemma_count_is_told(
        "  Failed:          "@,
        a.failed_transcode,
        b.failed_transcode,
        Seq::empty(),
        p[13],
        q[13],
    );
}

proof fn lemma_count_is_told(
    front: Seq<char>,
    a: i64,
    b: i64,
    rest: Seq<char>,
    p: Seq<char>,
    q: Seq<char>,
)
    requires
        p == q,
        p =~= front + decimal(a as int) + rest,
        q =~= front + decimal(b as int) + rest,
    ensures
        a == b,
{
    middle_is_told(front, decimal(a as int), decimal(b as int), rest);
    written_numbers_read_back(a as int);
    assert(decimal(b as int) == decimal(a as int));
}

/// The lines on a collection tell its path and, where there was one, the time of its verification;
/// those on the space tell what is in use and, where something was saved, how much.
pub proof fn collection_and_space_are_told(
    dvr: Dvr,
    path_a: Seq<char>,
    path_b: Seq<char>,
    verified_a: Option<Seq<char>>,
    verified_b: Option<Seq<char>>,
    savings: int,
    saved_a: Seq<char>,
    saved_b: Seq<char>,
    size_a: Seq<char>,
    size_b: Seq<char>,
)
    ensures
        dvr_lines(dvr, path_a, verified_a) == dvr_lines(dvr, path_b, verified_b) ==> path_a
            == path_b && verified_a == verified_b,
        space_lines(savings, saved_a, size_a) == space_lines(savings, saved_b, size_b) ==> size_a
            == size_b && (savings > 0 ==> saved_a == saved_b),
        space_lines(savings, saved_a, size_a).len() == (if savings > 0 {
            4nat
        } else {
            3
        }),
{
    let p = dvr_lines(dvr, path_a, verified_a);
    let q = dvr_lines(dvr, path_b, verified_b);
    let none = Seq::<char>::empty();
    assert(p.len() == 3 <==> verified_a is Some);
    assert(q.len() == 3 <==> verified_b is Some);
    if p == q {
        assert("Path: "@ + path_a + none =~= p[1]);
        assert("Path: "@ + path_b + none =~= q[1]);
        middle_is_told("Path: "@, path_a, path_b, none);
        if verified_a is Some {
            assert("Last verified: "@ + verified_a->0 + none =~= p[2]);
            assert("Last verified: "@ + verified_b->0 + none =~= q[2]);
            middle_is_told("Last verified: "@, verified_a->0, verified_b->0, none);
        }
    }
    let u = space_lines(savings, saved_a, size_a);
    let v = space_lines(savings, saved_b, size_b);
    if u == v {
        let at: int = if savings > 0 {
            3
        } else {
            2
        };
        assert(u[at] == "  Current size: "@ + size_a + " GB"@);
        assert(v[at] == "  Current size: "@ + size_b + " GB"@);
        middle_is_told("  Current size: "@, size_a, size_b, " GB"@);
        if savings > 0 {
            assert(u[0] == "  Space saved:  "@ + saved_a + " GB"@);
            assert(v[0] == "  Space saved:  "@ + saved_b + " GB"@);
            middle_is_told("  Space saved:  "@, saved_a, saved_b, " GB"@);
        }
    }
}

}

//! The scan of a directory for recordings.
use crate::db::models::NewFile;
use crate::paths::{
    below, extended_name_falls_apart, extension, extension_of, file_name, file_name_of, joined,
    joined_name_is_the_file_name,
};
use crate::scanner::metadata::{
    episode_in, name_of, parse_filename, season_in, title_in, MediaMetadata,
};
use crate::text::{
    eq_ignore_ascii_case, equal_ignoring_case, pieces, split, text_of, texts,
};
use vstd::prelude::*;

verus! {

/// The extension of a path, empty where it has none.
pub open spec fn extension_or_empty(path: Seq<char>) -> Seq<char> {
    match extension(path) {
        Some(ext) => ext,
        None => Seq::empty(),
    }
}

/// One of the first `n` extensions is that of the path, but for the case of letters.
pub open spec fn has_extension(path: Seq<char>, extensions: Seq<String>, n: int) -> bool {
    exists|i: int|
        0 <= i < n && equal_ignoring_case(
            (#[trigger] extensions[i])@,
            extension_or_empty(path),
        )
}

/// The extensions in a list with commas between them.
pub fn extension_list(extensions: &str) -> (r: Vec<String>)
    ensures
        texts(r@) == pieces(extensions@, ','),
{
    split(extensions, ',')
}

/// Whether a file is to be entered, by its extension.
pub fn wants(path: &str, extensions: &Vec<String>) -> (r: bool)
    ensures
        r == has_extension(path@, extensions@, extensions@.len() as int),
{
    let ext = match extension_of(path) {
        Some(ext) => ext,
        None => String::new(),
    };
    assert(ext@ =~= extension_or_empty(path@));
    for i in 0..extensions.len()
        invariant
            ext@ == extension_or_empty(path@),
            !has_extension(path@, extensions@, i as int),
    {
        if eq_ignore_ascii_case(&extensions[i], &ext) {
            assert(equal_ignoring_case(extensions@[i as int]@, extension_or_empty(path@)));
            return true;
        }
    }
    false
}

/// The file name that is read for a title: that of the path, empty where it has none.
pub open spec fn scanned_name(path: Seq<char>) -> Seq<char> {
    name_of(
        match file_name(path) {
            Some(name) => name,
            None => Seq::empty(),
        },
    )
}

/// `r` is the record of a file that is entered.
pub open spec fn is_record(
    r: NewFile,
    dvr_id: u128,
    path: Seq<char>,
    relative_path: String,
    size: u64,
    metadata: MediaMetadata,
) -> bool {
    &&& r.path@ == path
    &&& r.size_bytes == size as i64
    &&& r.duration_ms == metadata.duration_ms
    &&& r.video_codec == metadata.video_codec
    &&& r.audio_codec == metadata.audio_codec
    &&& r.width == metadata.width
    &&& r.height == metadata.height
    &&& r.bitrate == metadata.bitrate
    &&& text_of(r.claimed_title) == title_in(scanned_name(path))
    &&& r.claimed_season == season_in(scanned_name(path))
    &&& r.claimed_episode == episode_in(scanned_name(path))
    &&& r.dvr_id == Some(dvr_id)
    &&& r.relative_path == Some(relative_path)
}

/// The record of a file that is entered: what its streams and its name tell about it.
pub fn new_file(
    dvr_id: u128,
    path: &str,
    relative_path: String,
    size: u64,
    metadata: MediaMetadata,
) -> (r: NewFile)
    ensures
        is_record(r, dvr_id, path@, relative_path, size, metadata),
{
    let filename = match file_name_of(path) {
        Some(name) => name,
        None => String::new(),
    };
    assert(name_of(filename@) == scanned_name(path@)) by {
        assert(file_name(path@) is None ==> filename@ =~= Seq::<char>::empty());
    }
    let parsed = parse_filename(&filename);
    NewFile {
        path: path.to_owned(),
        size_bytes: #[verifier::truncate]
        (size as i64),
        duration_ms: metadata.duration_ms,
        video_codec: metadata.video_codec,
        audio_codec: metadata.audio_codec,
        width: metadata.width,
        height: metadata.height,
        bitrate: metadata.bitrate,
        claimed_title: parsed.title,
        claimed_season: parsed.season,
        claimed_episode: parsed.episode,
        dvr_id: Some(dvr_id),
        relative_path: Some(relative_path),
    }
}

/// What came of a file that the scan met.
#[derive(Debug, Clone, Copy, PartialEq, Eq, Structural)]
pub enum ScanOutcome {
    /// It was entered.
    Added,
    /// It was entered before.
    Known,
    /// It is not a file, has another extension, or could not be probed.
    Passed,
}

/// What the scan does with an entry of the directory.
#[derive(Debug, Clone, Copy, PartialEq, Eq, Structural)]
pub enum ScanStep {
    /// Look for its record.
    LookUp,
    /// Probe it.
    Probe,
    /// Enter it.
    Enter,
    /// Go on to the next entry.
    Leave(ScanOutcome),
}

/// What is known of an entry of the directory.
#[derive(Debug, Clone, Copy, PartialEq, Eq, Structural)]
pub struct ScanFacts {
    pub is_file: bool,
    pub has_extension: bool,
    /// Whether it has a record, once that was looked for.
    pub known: Option<bool>,
    /// Whether the probe worked, once it was run.
    pub probed: Option<bool>,
}

/// What the scan does next with an entry: files with one of the extensions are looked up, new ones
/// are probed, and those are entered where the probe worked.
pub open spec fn step_after(facts: ScanFacts) -> ScanStep {
    if !facts.is_file || !facts.has_extension {
        ScanStep::Leave(ScanOutcome::Passed)
    } else {
        match facts.known {
            None => ScanStep::LookUp,
            Some(true) => ScanStep::Leave(ScanOutcome::Known),
            Some(false) => match facts.probed {
                None => ScanStep::Probe,
                Some(true) => ScanStep::Enter,
                Some(false) => ScanStep::Leave(ScanOutcome::Passed),
            },
        }
    }
}

/// What the scan does next with an entry, given what is known of it.
pub fn next_step(facts: &ScanFacts) -> (r: ScanStep)
    ensures
        r == step_after(*facts),
{
    if !facts.is_file || !facts.has_extension {
        return ScanStep::Leave(ScanOutcome::Passed);
    }
    match facts.known {
        None => ScanStep::LookUp,
        Some(true) => ScanStep::Leave(ScanOutcome::Known),
        Some(false) => match facts.probed {
            None => ScanStep::Probe,
            Some(true) => ScanStep::Enter,
            Some(false) => ScanStep::Leave(ScanOutcome::Passed),
        },
    }
}

/// How many files the scan has entered, and how many it knew.
#[derive(Debug, Clone, Copy, PartialEq, Eq, Structural)]
pub struct ScanTally {
    pub scanned: usize,
    pub skipped: usize,
}

impl Default for ScanTally {
    fn default() -> (r: Self)
        ensures
            r.scanned == 0,
            r.skipped == 0,
    {
        ScanTally { scanned: 0, skipped: 0 }
    }
}

impl ScanTally {
    /// Counts a file that the scan met.
    pub fn count(&mut self, outcome: ScanOutcome)
        requires
            old(self).scanned < usize::MAX,
            old(self).skipped < usize::MAX,
        ensures
            final(self).scanned == old(self).scanned + (if outcome == ScanOutcome::Added {
                1int
            } else {
                0
            }),
            final(self).skipped == old(self).skipped + (if outcome == ScanOutcome::Known {
                1int
            } else {
                0
            }),
    {
        match outcome {
            ScanOutcome::Added => {
                self.scanned = self.scanned + 1;
            },
            ScanOutcome::Known => {
                self.skipped = self.skipped + 1;
            },
            ScanOutcome::Passed => {},
        }
    }
}

/// An entry of a directory: the path by which it was met, the path to which links lead from there,
/// how that is seen from the directory, whether it is a file, and whether a probe of it works.
#[derive(Debug, Clone)]
pub struct ScanEntry {
    pub path: String,
    pub resolved_path: String,
    pub relative_path: String,
    pub is_file: bool,
    pub probes: bool,
}

/// What is known of an entry, given whether it has a record and whether the probe worked, once
/// that is known.
pub open spec fn facts_of(
    entry: ScanEntry,
    extensions: Seq<String>,
    known: Option<bool>,
    probed: Option<bool>,
) -> ScanFacts {
    ScanFacts {
        is_file: entry.is_file,
        has_extension: has_extension(entry.path@, extensions, extensions.len() as int),
        known,
        probed,
    }
}

/// Where the scan ends up with an entry, given whether it has a record: each step is followed by
/// the next one, with what it has brought to light.
pub open spec fn last_step(entry: ScanEntry, extensions: Seq<String>, known: bool) -> ScanStep {
    let first = step_after(facts_of(entry, extensions, None, None));
    if first is LookUp {
        let second = step_after(facts_of(entry, extensions, Some(known), None));
        if second is Probe {
            step_after(facts_of(entry, extensions, Some(known), Some(entry.probes)))
        } else {
            second
        }
    } else {
        first
    }
}

/// The records after the first `n` entries were scanned, as the relative paths under which they
/// stand.
pub open spec fn records_after(
    records: Set<Seq<char>>,
    entries: Seq<ScanEntry>,
    extensions: Seq<String>,
    n: int,
) -> Set<Seq<char>>
    decreases n,
{
    if n <= 0 {
        records
    } else {
        let before = records_after(records, entries, extensions, n - 1);
        let path = entries[n - 1].relative_path@;
        if last_step(entries[n - 1], extensions, before.contains(path)) is Enter {
            before.insert(path)
        } else {
            before
        }
    }
}

/// A scan loses no record.
pub proof fn scan_keeps_records(
    records: Set<Seq<char>>,
    entries: Seq<ScanEntry>,
    extensions: Seq<String>,
    m: int,
    n: int,
)
    requires
        m <= n,
    ensures
        records_after(records, entries, extensions, m).subset_of(
            records_after(records, entries, extensions, n),
        ),
    decreases n - m,
{
    if m < n && n > 0 {
        scan_keeps_records(records, entries, extensions, m, n - 1);
    }
}

/// A file with a record is left as it is: no record is entered a second time.
pub proof fn known_file_is_left(entry: ScanEntry, extensions: Seq<String>)
    ensures
        last_step(entry, extensions, true) == ScanStep::Leave(ScanOutcome::Known) || last_step(
            entry,
            extensions,
            true,
        ) == ScanStep::Leave(ScanOutcome::Passed),
{
}

/// A second scan of a directory that has not changed enters nothing: the records stay as they are,
/// after each of the entries.
pub proof fn second_scan_changes_nothing(
    records: Set<Seq<char>>,
    entries: Seq<ScanEntry>,
    extensions: Seq<String>,
    n: int,
)
    requires
        0 <= n <= entries.len(),
    ensures
        ({
            let once = records_after(records, entries, extensions, entries.len() as int);
            records_after(once, entries, extensions, n) == once
        }),
    decreases n,
{
    let all = entries.len() as int;
    if n > 0 {
        second_scan_changes_nothing(records, entries, extensions, n - 1);
        scan_keeps_records(records, entries, extensions, n - 1, all);
        scan_keeps_records(records, entries, extensions, n, all);
    }
}

/// Every record that a scan enters is that of a file below the directory with one of the
/// extensions.
pub proof fn entered_files_are_wanted(
    records: Set<Seq<char>>,
    entries: Seq<ScanEntry>,
    extensions: Seq<String>,
    base_path: Seq<char>,
    n: int,
    path: Seq<char>,
)
    requires
        0 <= n <= entries.len(),
        forall|i: int|
            0 <= i < entries.len() ==> below((#[trigger] entries[i]).resolved_path@, base_path)
                == Some(entries[i].relative_path@),
        records_after(records, entries, extensions, n).contains(path),
        !records.contains(path),
    ensures
        exists|i: int|
            {
                &&& 0 <= i < n
                &&& (#[trigger] entries[i]).is_file
                &&& has_extension(entries[i].path@, extensions, extensions.len() as int)
                &&& below(entries[i].resolved_path@, base_path) == Some(path)
            },
    decreases n,
{
    if n > 0 {
        if records_after(records, entries, extensions, n - 1).contains(path) {
            entered_files_are_wanted(records, entries, extensions, base_path, n - 1, path);
        } else {
            assert(entries[n - 1].relative_path@ == path);
        }
    }
}

/// A record keeps all that is known of a file: different facts make different records, as far as the
/// size fits, and what is not known of a file is not known of its record.
pub proof fn records_lose_nothing(
    r: NewFile,
    dvr_a: u128,
    dvr_b: u128,
    path_a: Seq<char>,
    path_b: Seq<char>,
    relative_a: String,
    relative_b: String,
    size_a: u64,
    size_b: u64,
    a: MediaMetadata,
    b: MediaMetadata,
)
    requires
        is_record(r, dvr_a, path_a, relative_a, size_a, a),
        is_record(r, dvr_b, path_b, relative_b, size_b, b),
        size_a <= i64::MAX,
        size_b <= i64::MAX,
    ensures
        a == b,
        dvr_a == dvr_b,
        path_a == path_b,
        relative_a == relative_b,
        size_a == size_b,
        r.duration_ms is None <==> a.duration_ms is None,
        r.video_codec is None <==> a.video_codec is None,
        r.audio_codec is None <==> a.audio_codec is None,
        r.width is None <==> a.width is None,
        r.height is None <==> a.height is None,
        r.bitrate is None <==> a.bitrate is None,
{
}

/// An entry is entered if and only if it is a file with one of the extensions, has no record, and
/// could be probed. Nothing is looked up or probed twice.
pub proof fn new_probed_files_are_entered(facts: ScanFacts)
    ensures
        step_after(facts) is Enter <==> facts.is_file && facts.has_extension && facts.known == Some(
            false,
        ) && facts.probed == Some(true),
        step_after(facts) is LookUp ==> facts.known is None,
        step_after(facts) is Probe ==> facts.known == Some(false) && facts.probed is None,
        step_after(facts) == ScanStep::Leave(ScanOutcome::Known) ==> facts.known == Some(true),
        step_after(facts) != ScanStep::Leave(ScanOutcome::Added),
{
}

/// A path is scanned for its extension: it is wanted if and only if the extension is one of those
/// asked for, but for the case of letters, wherever the file lies and whatever its name is.
pub proof fn wanted_files_have_an_extension(
    dir: Seq<char>,
    name: Seq<char>,
    ext: Seq<char>,
    extensions: Seq<String>,
)
    requires
        name.len() > 0,
        name.len() + ext.len() >= 2,
        !name.contains('/'),
        !ext.contains('/'),
        !ext.contains('.'),
    ensures
        has_extension(
            joined(dir, name.push('.') + ext),
            extensions,
            extensions.len() as int,
        ) <==> exists|i: int|
            0 <= i < extensions.len() && equal_ignoring_case((#[trigger] extensions[i])@, ext),
{
    let whole = name.push('.') + ext;
    assert(!whole.contains('/')) by {
        if whole.contains('/') {
            let k = choose|k: int| 0 <= k < whole.len() && whole[k] == '/';
            if k < name.len() {
                assert(name.contains(name[k]));
            } else if k > name.len() {
                assert(ext.contains(ext[k - name.len() - 1]));
            }
        }
    }
    joined_name_is_the_file_name(dir, whole);
    extended_name_falls_apart(name, ext);
}

/// The scan enters an entry if and only if it is a file with one of the extensions, has no record
/// yet, and can be probed; it knows an entry if and only if it is such a file and has a record.
pub proof fn scan_enters_new_files(entry: ScanEntry, extensions: Seq<String>, known: bool)
    ensures
        ({
            let wanted = entry.is_file && has_extension(
                entry.path@,
                extensions,
                extensions.len() as int,
            );
            let last = last_step(entry, extensions, known);
            &&& last is Enter <==> wanted && !known && entry.probes
            &&& last == ScanStep::Leave(ScanOutcome::Known) <==> wanted && known
            &&& last == ScanStep::Leave(ScanOutcome::Passed) <==> !wanted || (!known
                && !entry.probes)
        }),
{
}

}

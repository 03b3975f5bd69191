//! The comparison of a collection with its fingerprints.
use crate::cluster::{frame_distance, FrameDistance};
use crate::db::models::File;
use crate::ids::{id_string, id_text};
use crate::numbers::{count_text, decimal, written_numbers_read_back};
use crate::scanner::fingerprint::{countable, hamming_zero_means_equal, Fingerprinter};
use crate::score::{Score, NINE_TENTHS};
use crate::text::{middle_is_told, push_text, texts};
use rand::prelude::IndexedRandom;
use vstd::prelude::*;

verus! {

/// The outcome of the verification of a collection.
#[derive(Debug, Clone, Copy, PartialEq, Eq, Structural)]
pub struct VerifyResult {
    pub total: usize,
    pub matched: usize,
    pub verified: bool,
}

impl VerifyResult {
    /// Whether there was nothing to verify.
    pub fn is_empty(&self) -> (r: bool)
        ensures
            r == (self.total == 0),
    {
        self.total == 0
    }
}

/// A file can be compared with its fingerprints: it has some, and its place in the collection is
/// known.
pub open spec fn is_fingerprinted(file: File) -> bool {
    file.fingerprinted_at is Some && file.relative_path is Some
}

/// The positions of the first `n` files that can be compared with their fingerprints.
pub open spec fn fingerprinted_files(files: Seq<File>, n: int) -> Seq<usize>
    decreases n,
{
    if n <= 0 {
        Seq::empty()
    } else if is_fingerprinted(files[n - 1]) {
        fingerprinted_files(files, n - 1).push((n - 1) as usize)
    } else {
        fingerprinted_files(files, n - 1)
    }
}

/// `sample` holds some of `items`, none of them twice.
pub open spec fn is_sample(sample: Seq<usize>, items: Seq<usize>) -> bool {
    exists|at: Seq<int>| #[trigger] picks(at, sample, items)
}

/// `at` tells where each of `sample` stands in `items`.
pub open spec fn picks(at: Seq<int>, sample: Seq<usize>, items: Seq<usize>) -> bool {
    &&& at.len() == sample.len()
    &&& at.no_duplicates()
    &&& forall|k: int|
        0 <= k < at.len() ==> 0 <= #[trigger] at[k] < items.len() && sample[k] == items[at[k]]
}

/// `rand`'s `IndexedRandom::choose_multiple` chooses the given number of items at random, none of
/// them twice; all of them where there are not as many. Which ones it chooses, and in what order,
/// is left to chance.
#[verifier::external_body]
fn draw(items: &[usize], amount: usize) -> (r: Vec<usize>)
    ensures
        r@.len() == (if amount <= items@.len() {
            amount as nat
        } else {
            items@.len()
        }),
        is_sample(r@, items@),
{
    items.choose_multiple(&mut rand::rng(), amount).copied().collect()
}

/// Chooses at most `limit` of the files that can be compared with their fingerprints, at random.
pub fn choose_sample(files: &Vec<File>, limit: usize) -> (r: Vec<usize>)
    ensures
        is_sample(r@, fingerprinted_files(files@, files@.len() as int)),
        r@.len() <= limit,
        r@.len() <= fingerprinted_files(files@, files@.len() as int).len(),
        r@.len() == limit || r@.len() == fingerprinted_files(files@, files@.len() as int).len(),
{
    let mut candidates: Vec<usize> = Vec::new();
    for i in 0..files.len()
        invariant
            candidates@ == fingerprinted_files(files@, i as int),
    {
        if files[i].fingerprinted_at.is_some() && files[i].relative_path.is_some() {
            candidates.push(i);
        }
    }
    draw(&candidates, limit)
}

proof fn lemma_fingerprinted_files(files: Seq<File>, n: int, k: int)
    requires
        0 <= n <= files.len() <= usize::MAX,
        0 <= k < fingerprinted_files(files, n).len(),
    ensures
        fingerprinted_files(files, n)[k] < n,
        is_fingerprinted(files[fingerprinted_files(files, n)[k] as int]),
        forall|l: int|
            0 <= l < k ==> #[trigger] fingerprinted_files(files, n)[l] < fingerprinted_files(
                files,
                n,
            )[k],
    decreases n,
{
    let before = fingerprinted_files(files, n - 1);
    if k < before.len() {
        lemma_fingerprinted_files(files, n - 1, k);
        assert forall|l: int| 0 <= l < k implies #[trigger] fingerprinted_files(files, n)[l]
            < fingerprinted_files(files, n)[k] by {
            assert(before[l] < before[k]);
        }
    } else {
        assert forall|l: int| 0 <= l < k implies #[trigger] fingerprinted_files(files, n)[l]
            < fingerprinted_files(files, n)[k] by {
            lemma_fingerprinted_files(files, n - 1, l);
        }
    }
}

/// A sample of the files holds files that can be compared with their fingerprints, and none of them
/// twice.
pub proof fn sample_is_sound(files: Seq<File>, sample: Seq<usize>, i: int, j: int)
    requires
        files.len() <= usize::MAX,
        is_sample(sample, fingerprinted_files(files, files.len() as int)),
        0 <= i < sample.len(),
        0 <= j < sample.len(),
    ensures
        sample[i] < files.len(),
        is_fingerprinted(files[sample[i] as int]),
        i != j ==> sample[i] != sample[j],
{
    let items = fingerprinted_files(files, files.len() as int);
    let at = choose|at: Seq<int>| #[trigger] picks(at, sample, items);
    assert(i != j ==> at[i] != at[j]);
    assert(sample[i] == items[at[i]]);
    assert(sample[j] == items[at[j]]);
    lemma_fingerprinted_files(files, files.len() as int, at[i]);
    lemma_fingerprinted_files(files, files.len() as int, at[j]);
    if at[i] < at[j] {
        assert(items[at[i]] < items[at[j]]);
    } else if at[j] < at[i] {
        assert(items[at[j]] < items[at[i]]);
    }
}

/// The first of the first `n` hashes that was taken at the given point in time.
pub open spec fn hash_at(hashes: Seq<(i32, Vec<u8>)>, timestamp: i32, n: int) -> Option<int>
    decreases n,
{
    if n <= 0 {
        None
    } else {
        match hash_at(hashes, timestamp, n - 1) {
            Some(i) => Some(i),
            None => if hashes[n - 1].0 == timestamp {
                Some(n - 1)
            } else {
                None
            },
        }
    }
}

/// Every one of the first `n` stored hashes has a counterpart.
pub open spec fn all_found(
    stored: Seq<(i32, Vec<u8>)>,
    current: Seq<(i32, Vec<u8>)>,
    n: int,
) -> bool {
    forall|i: int|
        0 <= i < n ==> hash_at(
            current,
            (#[trigger] stored[i]).0,
            current.len() as int,
        ) is Some
}

/// The hash of the current ones that belongs to a stored one.
pub open spec fn counterpart(
    stored: Seq<(i32, Vec<u8>)>,
    current: Seq<(i32, Vec<u8>)>,
    i: int,
) -> Seq<u8> {
    current[hash_at(current, stored[i].0, current.len() as int)->0].1@
}

/// The hashes can be compared.
pub open spec fn comparable(stored: Seq<(i32, Vec<u8>)>, current: Seq<(i32, Vec<u8>)>) -> bool {
    forall|i: int, j: int|
        0 <= i < stored.len() && 0 <= j < current.len() ==> countable(
            (#[trigger] stored[i]).1@,
            (#[trigger] current[j]).1@,
        )
}

fn find_hash(hashes: &Vec<(i32, Vec<u8>)>, timestamp: i32) -> (r: Option<usize>)
    ensures
        match r {
            Some(i) => i < hashes@.len() && hash_at(hashes@, timestamp, hashes@.len() as int)
                == Some(i as int),
            None => hash_at(hashes@, timestamp, hashes@.len() as int) is None,
        },
{
    let mut found: Option<usize> = None;
    for i in 0..hashes.len()
        invariant
            match found {
                Some(k) => k < i && hash_at(hashes@, timestamp, i as int) == Some(k as int),
                None => hash_at(hashes@, timestamp, i as int) is None,
            },
    {
        if found.is_none() && hashes[i].0 == timestamp {
            found = Some(i);
        }
    }
    found
}

/// The points in time at which hashes were taken.
pub fn timestamps_of(hashes: &Vec<(i32, Vec<u8>)>) -> (r: Vec<i32>)
    ensures
        r@ == hashes@.map_values(|h: (i32, Vec<u8>)| h.0),
{
    let mut out: Vec<i32> = Vec::new();
    let ghost all = hashes@.map_values(|h: (i32, Vec<u8>)| h.0);
    for i in 0..hashes.len()
        invariant
            all == hashes@.map_values(|h: (i32, Vec<u8>)| h.0),
            out@ == all.take(i as int),
    {
        out.push(hashes[i].0);
        assert(out@ =~= all.take(i + 1));
    }
    assert(out@ =~= all);
    out
}

/// The distances of the stored hashes from the current ones that were taken at the same points in
/// time; nothing where one of them has no counterpart.
pub fn compare_hashes(
    stored: &Vec<(i32, Vec<u8>)>,
    current: &Vec<(i32, Vec<u8>)>,
) -> (r: Option<Vec<FrameDistance>>)
    requires
        comparable(stored@, current@),
    ensures
        match r {
            Some(distances) => {
                &&& all_found(stored@, current@, stored@.len() as int)
                &&& distances@.len() == stored@.len()
                &&& forall|i: int|
                    0 <= i < stored@.len() ==> (#[trigger] distances@[i]) == frame_distance(
                        stored@[i].1@,
                        counterpart(stored@, current@, i),
                    )
            },
            None => !all_found(stored@, current@, stored@.len() as int),
        },
{
    let mut distances: Vec<FrameDistance> = Vec::new();
    for i in 0..stored.len()
        invariant
            comparable(stored@, current@),
            all_found(stored@, current@, i as int),
            distances@.len() == i,
            forall|k: int|
                0 <= k < i ==> (#[trigger] distances@[k]) == frame_distance(
                    stored@[k].1@,
                    counterpart(stored@, current@, k),
                ),
    {
        match find_hash(current, stored[i].0) {
            Some(j) => {
                assert(countable(stored@[i as int].1@, current@[j as int].1@));
                let distance: u32 = Fingerprinter::hamming_distance(
                    &stored[i].1,
                    &current[j].1,
                );
                distances.push(FrameDistance { distance, bytes: stored[i].1.len() });
            },
            None => {
                assert(hash_at(current@, stored@[i as int].0, current@.len() as int) is None);
                return None;
            },
        }
    }
    Some(distances)
}

/// None of the first `n` frames is less similar than is asked for.
pub open spec fn similar_enough(similarities: Seq<Score>, n: int) -> bool {
    forall|i: int|
        0 <= i < n ==> !(#[trigger] similarities[i]).below(Score { bits: NINE_TENTHS })
}

/// Whether a file matches its fingerprints, given how similar its frames are.
pub fn file_matches(similarities: &Vec<Score>) -> (r: bool)
    ensures
        r == similar_enough(similarities@, similarities@.len() as int),
{
    for i in 0..similarities.len()
        invariant
            similar_enough(similarities@, i as int),
    {
        if similarities[i].lt(Score::from_bits(NINE_TENTHS)) {
            return false;
        }
    }
    true
}

/// What came of the comparison of a file with its fingerprints.
#[derive(Debug, Clone, Copy, PartialEq, Eq, Structural)]
pub enum SampleOutcome {
    /// The file is not there.
    Missing,
    /// It has no fingerprints.
    Bare,
    /// No frames could be taken from it.
    Unreadable,
    /// It matches its fingerprints.
    Matched,
    /// It does not match its fingerprints.
    Mismatched,
}

/// What is known of a file in the course of its comparison with its fingerprints.
#[derive(Debug, Clone)]
pub struct SampleFacts {
    /// Whether the file is there.
    pub exists: bool,
    /// Its stored hashes, once they were loaded.
    pub stored: Option<Vec<(i32, Vec<u8>)>>,
    /// The hashes of its frames or an error, once frames were taken from it.
    pub current: Option<Result<Vec<(i32, Vec<u8>)>, String>>,
    /// How similar each of its frames is, once that was computed from their distances.
    pub similarities: Option<Vec<Score>>,
}

/// What the comparison of a file with its fingerprints does next.
#[derive(Debug, Clone)]
pub enum SampleStep {
    /// Load the stored hashes.
    Load,
    /// Take frames at the given points in time.
    Extract(Vec<i32>),
    /// Compute how similar the frames are from their distances.
    Rate(Vec<FrameDistance>),
    /// Nothing; this came of it.
    Done(SampleOutcome),
}

/// `distances` are those of the stored hashes from their counterparts.
pub open spec fn are_distances(
    distances: Seq<FrameDistance>,
    stored: Seq<(i32, Vec<u8>)>,
    current: Seq<(i32, Vec<u8>)>,
) -> bool {
    distances.len() == stored.len() && forall|i: int|
        0 <= i < stored.len() ==> (#[trigger] distances[i]) == frame_distance(
            stored[i].1@,
            counterpart(stored, current, i),
        )
}

/// `step` follows the comparison of the hashes of a file: it does not match where one of the stored
/// hashes has no counterpart or a frame is not similar enough.
pub open spec fn follows(
    step: SampleStep,
    stored: Seq<(i32, Vec<u8>)>,
    current: Seq<(i32, Vec<u8>)>,
    similarities: Option<Vec<Score>>,
) -> bool {
    if !all_found(stored, current, stored.len() as int) {
        step == SampleStep::Done(SampleOutcome::Mismatched)
    } else {
        match similarities {
            None => step matches SampleStep::Rate(distances) && are_distances(
                distances@,
                stored,
                current,
            ),
            Some(list) => step == SampleStep::Done(
                if similar_enough(list@, list@.len() as int) {
                    SampleOutcome::Matched
                } else {
                    SampleOutcome::Mismatched
                },
            ),
        }
    }
}

/// What the comparison of a file with its fingerprints does next.
pub fn compare_file(facts: &SampleFacts) -> (r: SampleStep)
    requires
        facts.stored is Some && facts.current is Some && facts.current->0 is Ok ==> comparable(
            facts.stored->0@,
            facts.current->0->Ok_0@,
        ),
        facts.stored is Some && facts.similarities is Some ==> facts.similarities->0@.len()
            == facts.stored->0@.len(),
    ensures
        if !facts.exists {
            r == SampleStep::Done(SampleOutcome::Missing)
        } else {
            match facts.stored {
                None => r is Load,
                Some(stored) => if stored@.len() == 0 {
                    r == SampleStep::Done(SampleOutcome::Bare)
                } else {
                    match facts.current {
                        None => r matches SampleStep::Extract(times) && times@
                            == stored@.map_values(|h: (i32, Vec<u8>)| h.0),
                        Some(Err(_)) => r == SampleStep::Done(SampleOutcome::Unreadable),
                        Some(Ok(current)) => follows(r, stored@, current@, facts.similarities),
                    }
                },
            }
        },
{
    if !facts.exists {
        return SampleStep::Done(SampleOutcome::Missing);
    }
    let stored = match &facts.stored {
        None => {
            return SampleStep::Load;
        },
        Some(stored) => stored,
    };
    if stored.len() == 0 {
        return SampleStep::Done(SampleOutcome::Bare);
    }
    match &facts.current {
        None => SampleStep::Extract(timestamps_of(stored)),
        Some(Err(_)) => SampleStep::Done(SampleOutcome::Unreadable),
        Some(Ok(current)) => match compare_hashes(stored, current) {
            None => SampleStep::Done(SampleOutcome::Mismatched),
            Some(distances) => match &facts.similarities {
                None => SampleStep::Rate(distances),
                Some(list) => if file_matches(list) {
                    SampleStep::Done(SampleOutcome::Matched)
                } else {
                    SampleStep::Done(SampleOutcome::Mismatched)
                },
            },
        },
    }
}

/// How many of the first `n` outcomes are the given one.
pub open spec fn count_of(outcomes: Seq<SampleOutcome>, which: SampleOutcome, n: int) -> nat
    decreases n,
{
    if n <= 0 {
        0
    } else {
        count_of(outcomes, which, n - 1) + (if outcomes[n - 1] == which {
            1nat
        } else {
            0
        })
    }
}

fn count(outcomes: &Vec<SampleOutcome>, which: SampleOutcome) -> (r: usize)
    ensures
        r == count_of(outcomes@, which, outcomes@.len() as int),
        r <= outcomes@.len(),
{
    let mut n: usize = 0;
    for i in 0..outcomes.len()
        invariant
            n == count_of(outcomes@, which, i as int),
            n <= i,
    {
        if outcomes[i] == which {
            n = n + 1;
        }
    }
    n
}

/// At least four fifths of a sample match.
pub open spec fn enough_match(matched: int, total: int) -> bool {
    5 * matched >= 4 * total
}

/// The outcome of the verification of a collection by a sample of its files. A collection without
/// fingerprints is not refused.
pub fn sample_verify(outcomes: &Vec<SampleOutcome>) -> (r: VerifyResult)
    ensures
        r.total == outcomes@.len(),
        r.matched == count_of(outcomes@, SampleOutcome::Matched, outcomes@.len() as int),
        r.verified == enough_match(r.matched as int, r.total as int),
{
    let total: usize = outcomes.len();
    let matched: usize = count(outcomes, SampleOutcome::Matched);
    let verified: bool = 5 * (matched as u128) >= 4 * (total as u128);
    VerifyResult { total, matched, verified }
}

/// The line that tells of the comparison of a file with its fingerprints.
pub open spec fn outcome_line(
    outcome: SampleOutcome,
    path: Seq<char>,
    file_id: u128,
    error: Seq<char>,
) -> Seq<char> {
    match outcome {
        SampleOutcome::Missing => "  MISSING: "@ + path,
        SampleOutcome::Bare => "  NO FINGERPRINTS: "@ + path + " (file_id: "@ + id_text(file_id)
            + ")"@,
        SampleOutcome::Unreadable => "  ERROR: "@ + path + " - "@ + error,
        SampleOutcome::Matched => "  OK: "@ + path,
        SampleOutcome::Mismatched => "  MISMATCH: "@ + path,
    }
}

/// Tells of the comparison of a file with its fingerprints.
pub fn tell_outcome(outcome: SampleOutcome, path: &str, file_id: u128, error: &str) -> (r: String)
    ensures
        r@ == outcome_line(outcome, path@, file_id, error@),
{
    match outcome {
        SampleOutcome::Missing => {
            let mut line = "  MISSING: ".to_owned();
            line.append(path);
            line
        },
        SampleOutcome::Bare => {
            let mut line = "  NO FINGERPRINTS: ".to_owned();
            line.append(path);
            line.append(" (file_id: ");
            line.append(&id_string(file_id));
            line.append(")");
            line
        },
        SampleOutcome::Unreadable => {
            let mut line = "  ERROR: ".to_owned();
            line.append(path);
            line.append(" - ");
            line.append(error);
            line
        },
        SampleOutcome::Matched => {
            let mut line = "  OK: ".to_owned();
            line.append(path);
            line
        },
        SampleOutcome::Mismatched => {
            let mut line = "  MISMATCH: ".to_owned();
            line.append(path);
            line
        },
    }
}

/// The lines that sum up the verification of a collection.
pub open spec fn summary_lines(
    name: Seq<char>,
    sample_size: int,
    matched: int,
    missing: int,
    mismatched: int,
) -> Seq<Seq<char>> {
    seq![
        ""@,
        "Verified "@ + decimal(sample_size) + " files:"@,
        "  Matched:    "@ + decimal(matched),
        "  Missing:    "@ + decimal(missing),
        "  Mismatched: "@ + decimal(mismatched),
        ""@,
        if enough_match(matched, sample_size) {
            "Verification PASSED. This appears to be the correct DVR location."@
        } else {
            "Verification FAILED. This may not be the correct location for DVR '"@ + name + "'."@
        },
    ]
}

/// The line that tells that there is nothing to verify a collection by.
pub open spec fn nothing_line(name: Seq<char>) -> Seq<char> {
    "No fingerprinted files found for DVR '"@ + name + "'."@
}

/// Sums up the verification of a collection. A file from which no frames could be taken counts as
/// one that does not match. Without a file there is nothing to sum up.
pub fn verify_dvr(name: &str, outcomes: &Vec<SampleOutcome>) -> (r: Vec<String>)
    ensures
        ({
            let n = outcomes@.len() as int;
            texts(r@) == if n == 0 {
                seq![nothing_line(name@)]
            } else {
                summary_lines(
                    name@,
                    n,
                    count_of(outcomes@, SampleOutcome::Matched, n) as int,
                    count_of(outcomes@, SampleOutcome::Missing, n) as int,
                    count_of(outcomes@, SampleOutcome::Mismatched, n) as int + count_of(
                        outcomes@,
                        SampleOutcome::Unreadable,
                        n,
                    ),
                )
            }
        }),
{
    if outcomes.len() == 0 {
        let mut lines: Vec<String> = Vec::new();
        let mut line = "No fingerprinted files found for DVR '".to_owned();
        line.append(name);
        line.append("'.");
        push_text(&mut lines, &line);
        return lines;
    }
    let total: usize = outcomes.len();
    let matched: usize = count(outcomes, SampleOutcome::Matched);
    let missing: usize = count(outcomes, SampleOutcome::Missing);
    let differing: usize = count(outcomes, SampleOutcome::Mismatched);
    let unreadable: usize = count(outcomes, SampleOutcome::Unreadable);
    proof {
        counts_add_up(outcomes@, outcomes@.len() as int);
    }
    let mismatched: usize = differing + unreadable;
    let mut lines: Vec<String> = Vec::new();
    push_text(&mut lines, "");
    let mut line = "Verified ".to_owned();
    line.append(&count_text(total));
    line.append(" files:");
    push_text(&mut lines, &line);
    let mut line = "  Matched:    ".to_owned();
    line.append(&count_text(matched));
    push_text(&mut lines, &line);
    let mut line = "  Missing:    ".to_owned();
    line.append(&count_text(missing));
    push_text(&mut lines, &line);
    let mut line = "  Mismatched: ".to_owned();
    line.append(&count_text(mismatched));
    push_text(&mut lines, &line);
    push_text(&mut lines, "");
    if 5 * (matched as u128) >= 4 * (total as u128) {
        push_text(&mut lines, "Verification PASSED. This appears to be the correct DVR location.");
    } else {
        let mut line =
            "Verification FAILED. This may not be the correct location for DVR '".to_owned();
        line.append(name);
        line.append("'.");
        push_text(&mut lines, &line);
    }
    lines
}

/// Every outcome is counted once.
pub proof fn counts_add_up(outcomes: Seq<SampleOutcome>, n: int)
    requires
        0 <= n <= outcomes.len(),
    ensures
        count_of(outcomes, SampleOutcome::Missing, n) + count_of(outcomes, SampleOutcome::Bare, n)
            + count_of(outcomes, SampleOutcome::Unreadable, n) + count_of(
            outcomes,
            SampleOutcome::Matched,
            n,
        ) + count_of(outcomes, SampleOutcome::Mismatched, n) == n,
    decreases n,
{
    if n > 0 {
        counts_add_up(outcomes, n - 1);
    }
}

/// The hash at a point in time is the first one that was taken then; there is none only where none
/// was.
pub proof fn first_hash_of_a_time_counts(
    hashes: Seq<(i32, Vec<u8>)>,
    timestamp: i32,
    n: int,
    j: int,
)
    requires
        0 <= j < n <= hashes.len(),
    ensures
        match hash_at(hashes, timestamp, n) {
            Some(i) => 0 <= i < n && hashes[i].0 == timestamp && (j < i ==> hashes[j].0
                != timestamp),
            None => hashes[j].0 != timestamp,
        },
    decreases n,
{
    reveal_with_fuel(hash_at, 2);
    if n > 1 {
        if j < n - 1 {
            first_hash_of_a_time_counts(hashes, timestamp, n - 1, j);
        } else {
            first_hash_of_a_time_counts(hashes, timestamp, n - 1, 0);
            if let Some(i) = hash_at(hashes, timestamp, n - 1) {
                first_hash_of_a_time_counts(hashes, timestamp, n - 1, i);
            }
        }
    }
}

/// A recording that has not changed matches: where the current hashes are the stored ones, no two of
/// them of one point in time, every stored hash has a counterpart, and the two differ in no bit.
pub proof fn unchanged_recording_is_at_distance_zero(
    stored: Seq<(i32, Vec<u8>)>,
    current: Seq<(i32, Vec<u8>)>,
    distances: Seq<FrameDistance>,
    i: int,
)
    requires
        stored.len() == current.len(),
        forall|k: int|
            0 <= k < stored.len() ==> (#[trigger] current[k]).0 == stored[k].0 && current[k].1@
                == stored[k].1@,
        forall|k: int, l: int|
            0 <= k < l < stored.len() ==> (#[trigger] stored[k]).0 != (#[trigger] stored[l]).0,
        are_distances(distances, stored, current),
        0 <= i < stored.len(),
    ensures
        all_found(stored, current, stored.len() as int),
        distances[i].distance == 0,
        distances[i].bytes == stored[i].1@.len() as usize,
{
    let n = stored.len() as int;
    assert forall|k: int| 0 <= k < n implies hash_at(current, (#[trigger] stored[k]).0, n) == Some(
        k,
    ) by {
        assert(current[k].0 == stored[k].0);
        first_hash_of_a_time_counts(current, stored[k].0, n, k);
        let f = hash_at(current, stored[k].0, n)->0;
        assert(current[f].0 == stored[f].0);
        if f < k {
            assert(stored[f].0 != stored[k].0);
        } else if k < f {
            assert(stored[k].0 != stored[f].0);
        }
    }
    assert(hash_at(current, stored[i].0, n) == Some(i));
    assert(current[i].1@ == stored[i].1@);
    hamming_zero_means_equal(stored[i].1@, current[i].1@);
}

/// A file matches where all of its frames are similar enough: one frame more never makes a match of
/// it, and one that is exactly as similar as is asked for breaks none.
pub proof fn every_frame_has_a_say(similarities: Seq<Score>, s: Score)
    ensures
        ({
            let n = similarities.len() as int;
            let more = similarities.push(s);
            &&& similar_enough(Seq::empty(), 0)
            &&& similar_enough(more, n + 1) <==> similar_enough(similarities, n) && !s.below(
                Score { bits: NINE_TENTHS },
            )
            &&& similar_enough(similarities, n) ==> similar_enough(
                similarities.push(Score { bits: NINE_TENTHS }),
                n + 1,
            )
        }),
{
    let n = similarities.len() as int;
    assert forall|x: Score| #[trigger] similar_enough(similarities.push(x), n + 1) <==> similar_enough(
        similarities,
        n,
    ) && !x.below(Score { bits: NINE_TENTHS }) by {
        let more = similarities.push(x);
        assert(forall|i: int| 0 <= i < n ==> more[i] == #[trigger] similarities[i]);
        assert(more[n] == x);
    }
}

/// Four files out of five are just enough, and the part that matches decides, not the number: one
/// more that matches never hurts, and a sample that is a multiple of another is judged alike.
pub proof fn four_out_of_five_are_enough(matched: int, total: int, k: int)
    requires
        k > 0,
    ensures
        enough_match(4 * k, 5 * k),
        !enough_match(4 * k - 1, 5 * k),
        enough_match(matched, total) ==> enough_match(matched + 1, total),
        enough_match(k * matched, k * total) <==> enough_match(matched, total),
{
    assert(5 * (k * matched) == k * (5 * matched) && 4 * (k * total) == k * (4 * total))
        by (nonlinear_arith);
    assert(k * (5 * matched) >= k * (4 * total) <==> 5 * matched >= 4 * total) by (nonlinear_arith)
        requires
            k > 0,
    ;
}

/// A file can be chosen for a sample if and only if it was fingerprinted and its place in the
/// collection is known.
pub proof fn sampled_files_are_the_right_ones(files: Seq<File>, n: int, i: int)
    requires
        0 <= n <= files.len() <= usize::MAX,
    ensures
        (exists|k: int|
            0 <= k < fingerprinted_files(files, n).len() && #[trigger] fingerprinted_files(
                files,
                n,
            )[k] == i) <==> 0 <= i < n && files[i].fingerprinted_at is Some
            && files[i].relative_path is Some,
        n > 0 && files[n - 1].fingerprinted_at is Some && files[n - 1].relative_path is Some
            ==> fingerprinted_files(files, n).last() == n - 1,
    decreases n,
{
    let now = fingerprinted_files(files, n);
    if n > 0 {
        sampled_files_are_the_right_ones(files, n - 1, i);
        let before = fingerprinted_files(files, n - 1);
        if exists|k: int| 0 <= k < before.len() && #[trigger] before[k] == i {
            let k = choose|k: int| 0 <= k < before.len() && #[trigger] before[k] == i;
            assert(now[k] == i);
        }
        if is_fingerprinted(files[n - 1]) {
            assert(now[before.len() as int] == n - 1);
        }
        if exists|k: int| 0 <= k < now.len() && #[trigger] now[k] == i {
            let k = choose|k: int| 0 <= k < now.len() && #[trigger] now[k] == i;
            if k < before.len() {
                assert(before[k] == i);
            }
        }
    }
}

/// A file matches if and only if all of its stored hashes have a counterpart and its frames are
/// similar enough; as long as their similarity is not known, it is asked for with the distances.
pub proof fn matching_needs_every_hash(
    step: SampleStep,
    stored: Seq<(i32, Vec<u8>)>,
    current: Seq<(i32, Vec<u8>)>,
    similarities: Option<Vec<Score>>,
)
    requires
        follows(step, stored, current, similarities),
    ensures
        step == SampleStep::Done(SampleOutcome::Matched) <==> {
            &&& forall|i: int|
                0 <= i < stored.len() ==> hash_at(
                    current,
                    (#[trigger] stored[i]).0,
                    current.len() as int,
                ) is Some
            &&& similarities matches Some(list) && forall|i: int|
                0 <= i < list@.len() ==> !(#[trigger] list@[i]).below(
                    Score { bits: NINE_TENTHS },
                )
        },
        step matches SampleStep::Rate(distances) ==> similarities is None && distances@.len()
            == stored.len(),
        !(step is Load) && !(step is Extract),
{
}

/// The line on a file tells its path and, where frames could not be taken from it, the error.
pub proof fn outcome_tells_the_file(
    outcome: SampleOutcome,
    path_a: Seq<char>,
    path_b: Seq<char>,
    file_id: u128,
    error_a: Seq<char>,
    error_b: Seq<char>,
)
    ensures
        outcome_line(outcome, path_a, file_id, error_a) == outcome_line(
            outcome,
            path_b,
            file_id,
            error_a,
        ) ==> path_a == path_b,
        outcome == SampleOutcome::Unreadable && outcome_line(outcome, path_a, file_id, error_a)
            == outcome_line(outcome, path_a, file_id, error_b) ==> error_a == error_b,
{
    let none = Seq::<char>::empty();
    let p = outcome_line(outcome, path_a, file_id, error_a);
    let q = outcome_line(outcome, path_b, file_id, error_a);
    let front = match outcome {
        SampleOutcome::Missing => "  MISSING: "@,
        SampleOutcome::Bare => "  NO FINGERPRINTS: "@,
        SampleOutcome::Unreadable => "  ERROR: "@,
        SampleOutcome::Matched => "  OK: "@,
        SampleOutcome::Mismatched => "  MISMATCH: "@,
    };
    let rest = match outcome {
        SampleOutcome::Bare => " (file_id: "@ + id_text(file_id) + ")"@,
        SampleOutcome::Unreadable => " - "@ + error_a,
        _ => none,
    };
    assert(p =~= front + path_a + rest);
    assert(q =~= front + path_b + rest);
    if p == q {
        middle_is_told(front, path_a, path_b, rest);
    }
    if outcome == SampleOutcome::Unreadable {
        let u = outcome_line(outcome, path_a, file_id, error_a);
        let v = outcome_line(outcome, path_a, file_id, error_b);
        let head = "  ERROR: "@ + path_a + " - "@;
        assert(u =~= head + error_a + none);
        assert(v =~= head + error_b + none);
        if u == v {
            middle_is_told(head, error_a, error_b, none);
        }
    }
}

/// The summary tells every count, and whether enough files match.
pub proof fn summary_tells_every_count(
    name: Seq<char>,
    size_a: int,
    size_b: int,
    matched_a: int,
    matched_b: int,
    missing_a: int,
    missing_b: int,
    mismatched_a: int,
    mismatched_b: int,
)
    requires
        summary_lines(name, size_a, matched_a, missing_a, mismatched_a) == summary_lines(
            name,
            size_b,
            matched_b,
            missing_b,
            mismatched_b,
        ),
    ensures
        size_a == size_b,
        matched_a == matched_b,
        missing_a == missing_b,
        mismatched_a == mismatched_b,
        5 * matched_a >= 4 * size_a <==> summary_lines(
            name,
            size_a,
            matched_a,
            missing_a,
            mismatched_a,
        )[6] == "Verification PASSED. This appears to be the correct DVR location."@,
{
    let p = summary_lines(name, size_a, matched_a, missing_a, mismatched_a);
    let q = summary_lines(name, size_b, matched_b, missing_b, mismatched_b);
    let none = Seq::<char>::empty();
    lemma_number_is_told("Verified "@, size_a, size_b, " files:"@, p[1], q[1]);
    lemma_number_is_told("  Matched:    "@, matched_a, matched_b, none, p[2], q[2]);
    lemma_number_is_told("  Missing:    "@, missing_a, missing_b, none, p[3], q[3]);
    lemma_number_is_told("  Mismatched: "@, mismatched_a, mismatched_b, none, p[4], q[4]);
    reveal_strlit("Verification PASSED. This appears to be the correct DVR location.");
    reveal_strlit("Verification FAILED. This may not be the correct location for DVR '");
    let good = "Verification PASSED. This appears to be the correct DVR location."@;
    let bad = "Verification FAILED. This may not be the correct location for DVR '"@;
    assert(good[13] == 'P' && bad[13] == 'F');
    assert((bad + name + "'."@)[13] == 'F');
}

proof fn lemma_number_is_told(
    front: Seq<char>,
    a: int,
    b: int,
    rest: Seq<char>,
    p: Seq<char>,
    q: Seq<char>,
)
    requires
        p == q,
        p =~= front + decimal(a) + rest,
        q =~= front + decimal(b) + rest,
    ensures
        a == b,
{
    middle_is_told(front, decimal(a), decimal(b), rest);
    written_numbers_read_back(a);
    assert(decimal(b) == decimal(a));
}

}

//! The transcoding of the recordings of a collection.
use super::dvr::DvrContext;
use super::fingerprints::is_of;
use super::stats::fits;
use crate::db::models::{File, FileStatus, TranscodeStatus};
use crate::order::{is_stable_order, permutation_covers, stable_order, SortKey};
use crate::paths::below;
use crate::text::text_of;
use crate::transcode::{dir_of, working_path, TranscodeConfig, TranscodeResult, Transcoder};
use vstd::prelude::*;

verus! {

/// The file was left behind in the middle of a transcoding.
pub open spec fn was_left(file: File, dvr_id: u128) -> bool {
    file.dvr_id == Some(dvr_id) && file.transcode_status == TranscodeStatus::Transcoding
}

/// The positions of the first `n` files that were left behind.
pub open spec fn left_behind(files: Seq<File>, dvr_id: u128, n: int) -> Seq<usize>
    decreases n,
{
    if n <= 0 {
        Seq::empty()
    } else if was_left(files[n - 1], dvr_id) {
        left_behind(files, dvr_id, n - 1).push((n - 1) as usize)
    } else {
        left_behind(files, dvr_id, n - 1)
    }
}

/// The files that were left behind in the middle of a transcoding.
pub fn stale_files(files: &Vec<File>, dvr_id: u128) -> (r: Vec<usize>)
    ensures
        r@ == left_behind(files@, dvr_id, files@.len() as int),
{
    let mut out: Vec<usize> = Vec::new();
    for i in 0..files.len()
        invariant
            out@ == left_behind(files@, dvr_id, i as int),
    {
        let stale: bool = match files[i].transcode_status {
            TranscodeStatus::Transcoding => true,
            _ => false,
        };
        if is_of(&files[i], dvr_id) && stale {
            out.push(i);
        }
    }
    out
}

/// Where what a file left behind may lie: next to it, and in the given directory.
pub fn stale_paths(file_path: &str, temp_dir: Option<&str>) -> (r: (String, String))
    ensures
        r.0@ == working_path(file_path@, None),
        r.1@ == working_path(file_path@, dir_of(temp_dir)),
{
    (Transcoder::transcoding_path(file_path, None), Transcoder::transcoding_path(
        file_path,
        temp_dir,
    ))
}

/// The file is to be transcoded.
pub open spec fn is_pending(file: File, dvr_id: u128, kept_only: bool) -> bool {
    &&& file.dvr_id == Some(dvr_id)
    &&& file.transcode_status == TranscodeStatus::Pending
    &&& kept_only ==> file.status == FileStatus::Kept
}

/// The positions of the first `n` files that are to be transcoded.
pub open spec fn pending(files: Seq<File>, dvr_id: u128, kept_only: bool, n: int) -> Seq<usize>
    decreases n,
{
    if n <= 0 {
        Seq::empty()
    } else if is_pending(files[n - 1], dvr_id, kept_only) {
        pending(files, dvr_id, kept_only, n - 1).push((n - 1) as usize)
    } else {
        pending(files, dvr_id, kept_only, n - 1)
    }
}

/// What files are sorted by: large ones come first.
pub open spec fn size_keys(files: Seq<File>, positions: Seq<usize>) -> Seq<SortKey> {
    positions.map_values(
        |p: usize|
            SortKey { first: (-1 - files[p as int].size_bytes) as i64, second: 0, third: 0 },
    )
}

/// `queue` are the given positions, those of large files first, up to the limit.
pub open spec fn is_queue(
    queue: Seq<usize>,
    files: Seq<File>,
    positions: Seq<usize>,
    limit: Option<usize>,
) -> bool {
    exists|order: Seq<usize>|
        {
            &&& #[trigger] is_stable_order(size_keys(files, positions), order)
            &&& queue == order.map_values(|k: usize| positions[k as int]).take(
                if limit is Some && limit->0 < order.len() {
                    limit->0 as int
                } else {
                    order.len() as int
                },
            )
        }
}

proof fn lemma_pending_inside(files: Seq<File>, dvr_id: u128, kept_only: bool, n: int, k: int)
    requires
        0 <= n <= files.len(),
        n <= usize::MAX,
        0 <= k < pending(files, dvr_id, kept_only, n).len(),
    ensures
        pending(files, dvr_id, kept_only, n)[k] < n,
        is_pending(files[pending(files, dvr_id, kept_only, n)[k] as int], dvr_id, kept_only),
    decreases n,
{
    if k < pending(files, dvr_id, kept_only, n - 1).len() {
        lemma_pending_inside(files, dvr_id, kept_only, n - 1, k);
    }
}

/// The files to transcode, large ones first, up to the limit.
pub fn transcode_queue(
    files: &Vec<File>,
    dvr_id: u128,
    kept_only: bool,
    limit: Option<usize>,
) -> (r: Vec<usize>)
    ensures
        is_queue(r@, files@, pending(files@, dvr_id, kept_only, files@.len() as int), limit),
{
    let mut positions: Vec<usize> = Vec::new();
    let mut keys: Vec<SortKey> = Vec::new();
    for i in 0..files.len()
        invariant
            positions@ == pending(files@, dvr_id, kept_only, i as int),
            keys@ == size_keys(files@, positions@),
    {
        let waiting: bool = match files[i].transcode_status {
            TranscodeStatus::Pending => true,
            _ => false,
        };
        let kept: bool = match files[i].status {
            FileStatus::Kept => true,
            _ => false,
        };
        if is_of(&files[i], dvr_id) && waiting && (!kept_only || kept) {
            let ghost before = positions@;
            positions.push(i);
            keys.push(SortKey { first: -1 - files[i].size_bytes, second: 0, third: 0 });
            assert(keys@ =~= size_keys(files@, positions@));
        }
    }
    let order = stable_order(&keys);
    let len: usize = match limit {
        Some(max) => if max < order.len() {
            max
        } else {
            order.len()
        },
        None => order.len(),
    };
    let ghost whole = order@.map_values(|k: usize| positions@[k as int]);
    let mut queue: Vec<usize> = Vec::new();
    for k in 0..len
        invariant
            len <= order@.len(),
            is_stable_order(size_keys(files@, positions@), order@),
            whole == order@.map_values(|k: usize| positions@[k as int]),
            queue@ == whole.take(k as int),
    {
        assert(order@[k as int] < positions@.len());
        queue.push(positions[order[k]]);
        assert(queue@ =~= whole.take(k + 1));
    }
    queue
}

/// A queue holds files that are to be transcoded, none of them larger than one before it, and no
/// more than the limit.
pub proof fn queue_is_sound(
    queue: Seq<usize>,
    files: Seq<File>,
    dvr_id: u128,
    kept_only: bool,
    limit: Option<usize>,
    i: int,
    j: int,
)
    requires
        files.len() <= usize::MAX,
        is_queue(queue, files, pending(files, dvr_id, kept_only, files.len() as int), limit),
        0 <= i <= j < queue.len(),
    ensures
        limit is Some ==> queue.len() <= limit->0,
        queue[i] < files.len(),
        queue[j] < files.len(),
        is_pending(files[queue[i] as int], dvr_id, kept_only),
        is_pending(files[queue[j] as int], dvr_id, kept_only),
        files[queue[i] as int].size_bytes >= files[queue[j] as int].size_bytes,
{
    let positions = pending(files, dvr_id, kept_only, files.len() as int);
    let keys = size_keys(files, positions);
    let order = choose|order: Seq<usize>|
        {
            &&& #[trigger] is_stable_order(keys, order)
            &&& queue == order.map_values(|k: usize| positions[k as int]).take(
                if limit is Some && limit->0 < order.len() {
                    limit->0 as int
                } else {
                    order.len() as int
                },
            )
        };
    assert(order[i] < keys.len() && order[j] < keys.len());
    lemma_pending_inside(files, dvr_id, kept_only, files.len() as int, order[i] as int);
    lemma_pending_inside(files, dvr_id, kept_only, files.len() as int, order[j] as int);
    assert(i < j ==> crate::order::in_front(keys, order[i] as int, order[j] as int));
    assert(keys[order[i] as int].first == -1 - files[queue[i] as int].size_bytes);
    assert(keys[order[j] as int].first == -1 - files[queue[j] as int].size_bytes);
}

proof fn lemma_pending_is_listed(files: Seq<File>, dvr_id: u128, kept_only: bool, n: int, f: int)
    requires
        0 <= f < n <= files.len() <= usize::MAX,
        is_pending(files[f], dvr_id, kept_only),
    ensures
        pending(files, dvr_id, kept_only, n).contains(f as usize),
    decreases n,
{
    let before = pending(files, dvr_id, kept_only, n - 1);
    let here = pending(files, dvr_id, kept_only, n);
    if f < n - 1 {
        lemma_pending_is_listed(files, dvr_id, kept_only, n - 1, f);
        let k = choose|k: int| 0 <= k < before.len() && before[k] == f as usize;
        assert(here[k] == f as usize);
    } else {
        assert(here[before.len() as int] == f as usize);
    }
}

/// A file that is to be transcoded and is not in the queue was left out by the limit, and is not
/// larger than a file that is in it.
pub proof fn queue_leaves_out_small_files(
    queue: Seq<usize>,
    files: Seq<File>,
    dvr_id: u128,
    kept_only: bool,
    limit: Option<usize>,
    f: int,
    i: int,
)
    requires
        files.len() <= usize::MAX,
        is_queue(queue, files, pending(files, dvr_id, kept_only, files.len() as int), limit),
        0 <= f < files.len(),
        is_pending(files[f], dvr_id, kept_only),
        !queue.contains(f as usize),
    ensures
        limit is Some && queue.len() == limit->0,
        0 <= i < queue.len() ==> files[queue[i] as int].size_bytes >= files[f].size_bytes,
{
    let positions = pending(files, dvr_id, kept_only, files.len() as int);
    let keys = size_keys(files, positions);
    let order = choose|order: Seq<usize>|
        {
            &&& #[trigger] is_stable_order(keys, order)
            &&& queue == order.map_values(|k: usize| positions[k as int]).take(
                if limit is Some && limit->0 < order.len() {
                    limit->0 as int
                } else {
                    order.len() as int
                },
            )
        };
    lemma_pending_is_listed(files, dvr_id, kept_only, files.len() as int, f);
    lemma_pending_fits(files, dvr_id, kept_only, files.len() as int);
    let p = choose|p: int| 0 <= p < positions.len() && positions[p] == f as usize;
    permutation_covers(order, keys.len() as int, p as usize);
    let k = choose|k: int| 0 <= k < order.len() && order[k] == p as usize;
    if k < queue.len() {
        assert(queue[k] == f as usize);
    }
    if 0 <= i < queue.len() {
        assert(crate::order::in_front(keys, order[i] as int, order[k] as int));
        assert(keys[order[i] as int].first == -1 - files[queue[i] as int].size_bytes);
        assert(keys[p].first == -1 - files[f].size_bytes);
    }
}

proof fn lemma_pending_fits(files: Seq<File>, dvr_id: u128, kept_only: bool, n: int)
    requires
        0 <= n <= files.len(),
    ensures
        pending(files, dvr_id, kept_only, n).len() <= n,
    decreases n,
{
    if n > 0 {
        lemma_pending_fits(files, dvr_id, kept_only, n - 1);
    }
}

/// The settings with which a collection is transcoded, given the hardware encoder that was found,
/// if one was. Hardware is used where that is asked for and there is an encoder; else the encoding
/// falls back to software.
pub fn collection_config(
    crf: u8,
    preset: String,
    use_hardware: bool,
    encoder: Option<&str>,
) -> (r: TranscodeConfig)
    ensures
        r.crf == crf,
        r.preset == preset,
        r.use_hardware == (use_hardware && encoder is Some),
        r.audio_codec@ == "aac"@,
        r.container@ == "mkv"@,
        !r.container@.contains('/'),
{
    proof {
        reveal_strlit("mkv");
        assert(!"mkv"@.contains('/'));
    }
    TranscodeConfig {
        crf,
        preset,
        use_hardware: use_hardware && encoder.is_some(),
        audio_codec: "aac".to_owned(),
        container: "mkv".to_owned(),
    }
}

/// The size of the files of a queue together.
pub open spec fn queue_size(files: Seq<File>, queue: Seq<usize>, n: int) -> int
    decreases n,
{
    if n <= 0 {
        0
    } else {
        queue_size(files, queue, n - 1) + files[queue[n - 1] as int].size_bytes
    }
}

/// The size of the files of a queue together.
pub fn sum_queue(files: &Vec<File>, queue: &Vec<usize>) -> (r: i64)
    requires
        forall|k: int| 0 <= k < queue@.len() ==> (#[trigger] queue@[k]) < files@.len(),
        forall|n: int| 0 <= n <= queue@.len() ==> fits(#[trigger] queue_size(files@, queue@, n)),
    ensures
        r == queue_size(files@, queue@, queue@.len() as int),
{
    let mut sum: i64 = 0;
    for k in 0..queue.len()
        invariant
            forall|k: int| 0 <= k < queue@.len() ==> (#[trigger] queue@[k]) < files@.len(),
            forall|n: int|
                0 <= n <= queue@.len() ==> fits(#[trigger] queue_size(files@, queue@, n)),
            sum == queue_size(files@, queue@, k as int),
    {
        assert(fits(queue_size(files@, queue@, k + 1)));
        sum = sum + files[queue[k]].size_bytes;
    }
    sum
}

/// How a file has fared.
#[derive(Debug, Clone, Copy, PartialEq, Eq, Structural)]
pub enum FileOutcome {
    /// It was not there.
    Missing,
    /// It could not be transcoded.
    Failed,
    /// It was transcoded.
    Completed,
}

/// How far the transcoding of a file has come.
#[derive(Debug, Clone, Copy, PartialEq, Eq, Structural)]
pub enum FileState {
    /// It is looked for.
    Checking,
    /// It is transcoded.
    Transcoding,
    /// What came out is compared with it.
    Verifying,
    /// What came out takes its place.
    Finalizing,
    /// It is done with.
    Closed(FileOutcome),
}

/// What is done with a file.
#[derive(Debug, Clone, Copy, PartialEq, Eq, Structural)]
pub enum FileAction {
    /// Note its status.
    SetStatus(TranscodeStatus),
    /// Transcode it.
    Transcode,
    /// Compare what came out with it.
    Verify,
    /// Remove what came out.
    Cleanup,
    /// Let what came out take its place.
    Finalize,
    /// Note that it was transcoded, and where it is now.
    Complete,
}

/// How it goes on with a file, given whether the step worked and whether what comes out is to be
/// verified.
pub open spec fn next_file_state(state: FileState, worked: bool, verify: bool) -> FileState {
    match state {
        FileState::Checking => if worked {
            FileState::Transcoding
        } else {
            FileState::Closed(FileOutcome::Missing)
        },
        FileState::Transcoding => if !worked {
            FileState::Closed(FileOutcome::Failed)
        } else if verify {
            FileState::Verifying
        } else {
            FileState::Finalizing
        },
        FileState::Verifying => if worked {
            FileState::Finalizing
        } else {
            FileState::Closed(FileOutcome::Failed)
        },
        FileState::Finalizing => if worked {
            FileState::Closed(FileOutcome::Completed)
        } else {
            FileState::Closed(FileOutcome::Failed)
        },
        FileState::Closed(outcome) => state,
    }
}

/// What is done then.
pub open spec fn file_actions(state: FileState, worked: bool, verify: bool) -> Seq<FileAction> {
    match state {
        FileState::Checking => if worked {
            seq![FileAction::SetStatus(TranscodeStatus::Transcoding), FileAction::Transcode]
        } else {
            seq![FileAction::SetStatus(TranscodeStatus::Failed)]
        },
        FileState::Transcoding => if !worked {
            seq![FileAction::Cleanup, FileAction::SetStatus(TranscodeStatus::Failed)]
        } else if verify {
            seq![FileAction::SetStatus(TranscodeStatus::Verifying), FileAction::Verify]
        } else {
            seq![FileAction::Finalize]
        },
        FileState::Verifying => if worked {
            seq![FileAction::Finalize]
        } else {
            seq![FileAction::Cleanup, FileAction::SetStatus(TranscodeStatus::Failed)]
        },
        FileState::Finalizing => if worked {
            seq![FileAction::Complete]
        } else {
            seq![FileAction::SetStatus(TranscodeStatus::Failed)]
        },
        FileState::Closed(outcome) => Seq::empty(),
    }
}

/// Goes on with the transcoding of a file.
pub fn transcode_file(state: FileState, worked: bool, verify: bool) -> (r: (
    FileState,
    Vec<FileAction>,
))
    ensures
        r.0 == next_file_state(state, worked, verify),
        r.1@ == file_actions(state, worked, verify),
{
    match state {
        FileState::Checking => if worked {
            (
                FileState::Transcoding,
                vec![FileAction::SetStatus(TranscodeStatus::Transcoding), FileAction::Transcode],
            )
        } else {
            (
                FileState::Closed(FileOutcome::Missing),
                vec![FileAction::SetStatus(TranscodeStatus::Failed)],
            )
        },
        FileState::Transcoding => if !worked {
            (
                FileState::Closed(FileOutcome::Failed),
                vec![FileAction::Cleanup, FileAction::SetStatus(TranscodeStatus::Failed)],
            )
        } else if verify {
            (
                FileState::Verifying,
                vec![FileAction::SetStatus(TranscodeStatus::Verifying), FileAction::Verify],
            )
        } else {
            (FileState::Finalizing, vec![FileAction::Finalize])
        },
        FileState::Verifying => if worked {
            (FileState::Finalizing, vec![FileAction::Finalize])
        } else {
            (
                FileState::Closed(FileOutcome::Failed),
                vec![FileAction::Cleanup, FileAction::SetStatus(TranscodeStatus::Failed)],
            )
        },
        FileState::Finalizing => if worked {
            (FileState::Closed(FileOutcome::Completed), vec![FileAction::Complete])
        } else {
            (
                FileState::Closed(FileOutcome::Failed),
                vec![FileAction::SetStatus(TranscodeStatus::Failed)],
            )
        },
        FileState::Closed(_) => (state, Vec::new()),
    }
}

/// The status of a file after an action.
pub open spec fn status_after(status: TranscodeStatus, action: FileAction) -> TranscodeStatus {
    match action {
        FileAction::SetStatus(s) => s,
        FileAction::Complete => TranscodeStatus::Completed,
        _ => status,
    }
}

/// The status of a file after the first `n` actions.
pub open spec fn status_after_all(
    status: TranscodeStatus,
    actions: Seq<FileAction>,
    n: int,
) -> TranscodeStatus
    decreases n,
{
    if n <= 0 {
        status
    } else {
        status_after(status_after_all(status, actions, n - 1), actions[n - 1])
    }
}

/// The status that a file has in a state.
pub open spec fn status_in(state: FileState, verify: bool, before: TranscodeStatus) -> TranscodeStatus {
    match state {
        FileState::Checking => before,
        FileState::Transcoding => TranscodeStatus::Transcoding,
        FileState::Verifying => TranscodeStatus::Verifying,
        FileState::Finalizing => if verify {
            TranscodeStatus::Verifying
        } else {
            TranscodeStatus::Transcoding
        },
        FileState::Closed(FileOutcome::Completed) => TranscodeStatus::Completed,
        FileState::Closed(_) => TranscodeStatus::Failed,
    }
}

/// The status that is noted follows the state, so that a file that is done with is noted as
/// completed or failed.
pub proof fn status_follows_the_state(
    state: FileState,
    worked: bool,
    verify: bool,
    before: TranscodeStatus,
)
    requires
        state == FileState::Verifying ==> verify,
    ensures
        ({
            let actions = file_actions(state, worked, verify);
            status_after_all(
                status_in(state, verify, before),
                actions,
                actions.len() as int,
            ) == status_in(next_file_state(state, worked, verify), verify, before)
        }),
{
    reveal_with_fuel(status_after_all, 3);
}

/// Where it is asked for, nothing takes the place of a file that was not found to match it.
pub proof fn only_verified_files_are_finalized(state: FileState, worked: bool)
    ensures
        next_file_state(state, worked, true) == FileState::Finalizing ==> state
            == FileState::Verifying && worked,
        file_actions(state, worked, true).contains(FileAction::Finalize) ==> state
            == FileState::Verifying && worked,
{
}

/// How many more steps a file takes at most.
pub open spec fn steps_left(state: FileState) -> nat {
    match state {
        FileState::Checking => 4,
        FileState::Transcoding => 3,
        FileState::Verifying => 2,
        FileState::Finalizing => 1,
        FileState::Closed(outcome) => 0,
    }
}

/// The transcoding of a file comes to an end.
pub proof fn transcoding_ends(state: FileState, worked: bool, verify: bool)
    ensures
        steps_left(state) > 0 ==> steps_left(next_file_state(state, worked, verify)) < steps_left(
            state,
        ),
{
}

/// What is noted of a file that was transcoded.
#[derive(Debug, Clone)]
pub struct CompletedFile {
    pub status: TranscodeStatus,
    pub transcoded_path: String,
    pub path: String,
    pub relative_path: Option<String>,
    pub original_size_bytes: i64,
    pub size_bytes: i64,
}

/// What is noted of a file that was transcoded: where it is now, and both of its sizes.
pub fn completed_file(context: &DvrContext, result: &TranscodeResult) -> (r: CompletedFile)
    ensures
        r.status == TranscodeStatus::Completed,
        r.transcoded_path@ == result.final_path@,
        r.path@ == result.final_path@,
        text_of(r.relative_path) == below(result.final_path@, context.base_path@),
        r.original_size_bytes == result.original_size,
        r.size_bytes == result.transcoded_size,
{
    let relative_path = match context.make_relative(&result.final_path) {
        Ok(path) => Some(path),
        Err(_) => None,
    };
    CompletedFile {
        status: TranscodeStatus::Completed,
        transcoded_path: result.final_path.as_str().to_owned(),
        path: result.final_path.as_str().to_owned(),
        relative_path,
        original_size_bytes: result.original_size,
        size_bytes: result.transcoded_size,
    }
}

/// How many files were transcoded, how many could not be, and how much space was saved.
#[derive(Debug, Clone, Copy, PartialEq, Eq, Structural)]
pub struct TranscodeTally {
    pub total_saved: i64,
    pub success_count: usize,
    pub fail_count: usize,
}

impl Default for TranscodeTally {
    fn default() -> (r: Self)
        ensures
            r.total_saved == 0,
            r.success_count == 0,
            r.fail_count == 0,
    {
        TranscodeTally { total_saved: 0, success_count: 0, fail_count: 0 }
    }
}

impl TranscodeTally {
    /// Counts a file that is done with. One that was not there does not count.
    pub fn count(&mut self, outcome: FileOutcome, saved: i64)
        requires
            old(self).success_count < usize::MAX,
            old(self).fail_count < usize::MAX,
            outcome == FileOutcome::Completed ==> fits(old(self).total_saved + saved),
        ensures
            final(self).total_saved == old(self).total_saved + (if outcome
                == FileOutcome::Completed {
                saved as int
            } else {
                0
            }),
            final(self).success_count == old(self).success_count + (if outcome
                == FileOutcome::Completed {
                1int
            } else {
                0
            }),
            final(self).fail_count == old(self).fail_count + (if outcome == FileOutcome::Failed {
                1int
            } else {
                0
            }),
    {
        match outcome {
            FileOutcome::Completed => {
                self.total_saved = self.total_saved + saved;
                self.success_count = self.success_count + 1;
            },
            FileOutcome::Failed => {
                self.fail_count = self.fail_count + 1;
            },
            FileOutcome::Missing => {},
        }
    }
}

/// A file was left behind if and only if it is of the collection and noted as being transcoded; one
/// that is being verified was not.
pub proof fn left_files_are_the_right_ones(files: Seq<File>, dvr_id: u128, n: int, i: int)
    requires
        0 <= n <= files.len() <= usize::MAX,
    ensures
        (exists|k: int|
            0 <= k < left_behind(files, dvr_id, n).len() && #[trigger] left_behind(
                files,
                dvr_id,
                n,
            )[k] == i) <==> 0 <= i < n && files[i].dvr_id == Some(dvr_id)
            && files[i].transcode_status == TranscodeStatus::Transcoding,
        n > 0 && files[n - 1].dvr_id == Some(dvr_id) && files[n - 1].transcode_status
            == TranscodeStatus::Transcoding ==> left_behind(files, dvr_id, n).last() == n - 1,
    decreases n,
{
    let now = left_behind(files, dvr_id, n);
    if n > 0 {
        left_files_are_the_right_ones(files, dvr_id, n - 1, i);
        let before = left_behind(files, dvr_id, n - 1);
        if exists|k: int| 0 <= k < before.len() && #[trigger] before[k] == i {
            let k = choose|k: int| 0 <= k < before.len() && #[trigger] before[k] == i;
            assert(now[k] == i);
        }
        if was_left(files[n - 1], dvr_id) {
            assert(now[before.len() as int] == n - 1);
        }
        if exists|k: int| 0 <= k < now.len() && #[trigger] now[k] == i {
            let k = choose|k: int| 0 <= k < now.len() && #[trigger] now[k] == i;
            if k < before.len() {
                assert(before[k] == i);
            }
        }
    }
}

/// A queue holds only files of the collection that were not transcoded before and, where only kept
/// files count, are kept. Without a limit it holds all of them.
pub proof fn queued_files_are_the_right_ones(
    queue: Seq<usize>,
    files: Seq<File>,
    dvr_id: u128,
    kept_only: bool,
    limit: Option<usize>,
    i: int,
    f: int,
)
    requires
        files.len() <= usize::MAX,
        is_queue(queue, files, pending(files, dvr_id, kept_only, files.len() as int), limit),
        0 <= i < queue.len(),
        0 <= f < files.len(),
    ensures
        queue[i] < files.len(),
        files[queue[i] as int].dvr_id == Some(dvr_id),
        files[queue[i] as int].transcode_status == TranscodeStatus::Pending,
        kept_only ==> files[queue[i] as int].status == FileStatus::Kept,
        limit is None && files[f].dvr_id == Some(dvr_id) && files[f].transcode_status
            == TranscodeStatus::Pending && (kept_only ==> files[f].status == FileStatus::Kept)
            ==> queue.contains(f as usize),
{
    queue_is_sound(queue, files, dvr_id, kept_only, limit, i, i);
    if limit is None && is_pending(files[f], dvr_id, kept_only) && !queue.contains(f as usize) {
        queue_leaves_out_small_files(queue, files, dvr_id, kept_only, limit, f, i);
    }
}

/// The sizes of the files of two queues add up.
pub proof fn queue_sizes_add_up(files: Seq<File>, a: Seq<usize>, b: Seq<usize>, n: int)
    requires
        0 <= n <= b.len(),
    ensures
        queue_size(files, a + b, a.len() + n) == queue_size(files, a, a.len() as int) + queue_size(
            files,
            b,
            n,
        ),
        n == 1 ==> queue_size(files, b, n) == files[b[0] as int].size_bytes,
    decreases n,
{
    if n > 0 {
        queue_sizes_add_up(files, a, b, n - 1);
        assert((a + b)[a.len() + n - 1] == b[n - 1]);
        reveal_with_fuel(queue_size, 2);
    } else {
        lemma_queue_size_of_front(files, a, b, a.len() as int);
    }
}

proof fn lemma_queue_size_of_front(files: Seq<File>, a: Seq<usize>, b: Seq<usize>, n: int)
    requires
        0 <= n <= a.len(),
    ensures
        queue_size(files, a + b, n) == queue_size(files, a, n),
    decreases n,
{
    if n > 0 {
        lemma_queue_size_of_front(files, a, b, n - 1);
        assert((a + b)[n - 1] == a[n - 1]);
    }
}

/// A step that fails ends the transcoding of a file without success, and what came out of the encoder
/// so far is removed. Where every step works, the file ends up transcoded, after as many steps as
/// there are, one less where nothing is verified.
pub proof fn failing_step_ends_the_transcoding(state: FileState, verify: bool)
    ensures
        !(state is Closed) ==> next_file_state(state, false, verify) is Closed && next_file_state(
            state,
            false,
            verify,
        ) != FileState::Closed(FileOutcome::Completed),
        state is Transcoding || state is Verifying ==> file_actions(state, false, verify)[0]
            == FileAction::Cleanup,
        !file_actions(state, true, verify).contains(FileAction::Cleanup),
        ({
            let transcoding = next_file_state(FileState::Checking, true, verify);
            let behind = next_file_state(transcoding, true, verify);
            let last = if verify {
                next_file_state(behind, true, verify)
            } else {
                behind
            };
            next_file_state(last, true, verify) == FileState::Closed(FileOutcome::Completed)
        }),
{
    let actions = file_actions(state, true, verify);
    assert forall|k: int| 0 <= k < actions.len() implies actions[k] != FileAction::Cleanup by {}
}

}

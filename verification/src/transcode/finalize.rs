//! How a transcoded recording takes the place of the original.
use crate::numbers::{hex_digit, hex_digits_differ};
use crate::paths::{
    below, extended_name_falls_apart, extension, extension_of, file_stem, file_stem_of,
    joined_name_is_the_file_name, path_is_below_itself, rename, stems_are_names, strip_base, with_file_name,
};
use crate::text::chars_of;
use vstd::prelude::*;

verus! {

/// The hash of the contents of a file.
pub type FileHash = [u8; 32];

/// Bytes in hexadecimal, two digits each.
pub open spec fn hex(bytes: Seq<u8>) -> Seq<char> {
    Seq::new(
        2 * bytes.len(),
        |k: int|
            hex_digit(
                if k % 2 == 0 {
                    bytes[k / 2] as int / 16
                } else {
                    bytes[k / 2] as int % 16
                },
            ),
    )
}

/// `blake3::Hash::to_hex` writes a hash in hexadecimal, with two small digits for each byte.
#[verifier::external_body]
fn hash_text(hash: &FileHash) -> (r: String)
    ensures
        r@ == hex(hash@),
{
    blake3::Hash::from_bytes(*hash).to_hex().to_string()
}

/// Two paths have the same components.
pub open spec fn same_path(a: Seq<char>, b: Seq<char>) -> bool {
    below(a, b) == Some(Seq::<char>::empty())
}

fn is_same_path(a: &str, b: &str) -> (r: bool)
    ensures
        r == same_path(a@, b@),
{
    match strip_base(a, b) {
        Some(rest) => {
            let len = chars_of(&rest).len();
            assert(len == 0 ==> rest@ =~= Seq::<char>::empty());
            len == 0
        },
        None => false,
    }
}

/// What is to take the place of what.
#[derive(Debug, Clone)]
pub struct FinalizeJob {
    pub transcoding_path: String,
    pub final_path: String,
    pub original: String,
    pub preserve_original: bool,
}

/// One of the files that have a part in it.
#[derive(Debug, Clone, Copy, PartialEq, Eq, Structural)]
pub enum Target {
    /// The original recording.
    Original,
    /// The original recording under another name.
    Preserved,
    /// The transcoded recording where it was written.
    Transcoding,
    /// The transcoded recording in its place.
    Final,
}

/// What is done next.
#[derive(Debug, Clone, Copy)]
pub enum FinalizeAction {
    /// Give a file another name.
    Rename { from: Target, to: Target },
    /// Hash the contents of a file.
    Hash(Target),
    /// Copy a file.
    Copy { from: Target, to: Target },
    /// Remove a file.
    Remove(Target),
    /// Nothing; the transcoded recording is in its place.
    Finish,
    /// Nothing; it did not work.
    Fail(FinalizeError),
}

/// What came of an action.
#[derive(Debug, Clone, Copy)]
pub enum FinalizeEvent {
    /// It worked.
    Done,
    /// The contents have this hash.
    Hashed(FileHash),
    /// It did not work.
    Error,
}

/// Why it did not work.
#[derive(Debug, Clone, Copy)]
pub enum FinalizeError {
    /// The original could not be given another name.
    Preserve,
    /// The transcoded recording could not be read.
    HashSource,
    /// The transcoded recording could not be copied.
    Copy,
    /// The copy could not be read.
    HashCopy,
    /// The copy differs from what was copied.
    Mismatch { source: FileHash, copy: FileHash },
    /// The transcoded recording could not be removed after it was copied.
    RemoveSource,
    /// The original could not be removed.
    RemoveOriginal,
}

/// How far it has come.
#[derive(Debug, Clone, Copy)]
pub enum FinalizeState {
    /// The original is to be given another name.
    Preserving,
    /// The transcoded recording is to be moved to its place.
    Moving,
    /// It could not be moved; it is to be hashed.
    HashingSource,
    /// It is to be copied.
    Copying { source: FileHash },
    /// The copy is to be hashed.
    HashingCopy { source: FileHash },
    /// The copy is to be removed again.
    RemovingCopy { source: FileHash, copy: FileHash },
    /// What was copied is to be removed.
    RemovingSource,
    /// The original is to be removed.
    RemovingOriginal,
    /// The transcoded recording is in its place.
    Finished,
    /// It did not work.
    Failed(FinalizeError),
}

impl FinalizeEvent {
    /// The action worked.
    pub open spec fn worked(self) -> bool {
        !(self is Error)
    }
}

impl FinalizeJob {
    /// The transcoded recording ends up where the original is.
    pub open spec fn replaces(self) -> bool {
        same_path(self.final_path@, self.original@)
    }

    /// Where it begins.
    pub open spec fn first_state(self) -> FinalizeState {
        if self.preserve_original && self.replaces() {
            FinalizeState::Preserving
        } else {
            FinalizeState::Moving
        }
    }

    /// How it goes on once the transcoded recording is in its place.
    pub open spec fn placed_state(self) -> FinalizeState {
        if !self.preserve_original && !self.replaces() {
            FinalizeState::RemovingOriginal
        } else {
            FinalizeState::Finished
        }
    }

    /// How it goes on after an action.
    pub open spec fn next_state(self, state: FinalizeState, event: FinalizeEvent) -> FinalizeState {
        match state {
            FinalizeState::Preserving => if event.worked() {
                FinalizeState::Moving
            } else {
                FinalizeState::Failed(FinalizeError::Preserve)
            },
            FinalizeState::Moving => if event.worked() {
                self.placed_state()
            } else {
                FinalizeState::HashingSource
            },
            FinalizeState::HashingSource => match event {
                FinalizeEvent::Hashed(source) => FinalizeState::Copying { source },
                _ => FinalizeState::Failed(FinalizeError::HashSource),
            },
            FinalizeState::Copying { source } => if event.worked() {
                FinalizeState::HashingCopy { source }
            } else {
                FinalizeState::Failed(FinalizeError::Copy)
            },
            FinalizeState::HashingCopy { source } => match event {
                FinalizeEvent::Hashed(copy) => if copy@ == source@ {
                    FinalizeState::RemovingSource
                } else {
                    FinalizeState::RemovingCopy { source, copy }
                },
                _ => FinalizeState::Failed(FinalizeError::HashCopy),
            },
            FinalizeState::RemovingCopy { source, copy } => FinalizeState::Failed(
                FinalizeError::Mismatch { source, copy },
            ),
            FinalizeState::RemovingSource => if event.worked() {
                self.placed_state()
            } else {
                FinalizeState::Failed(FinalizeError::RemoveSource)
            },
            FinalizeState::RemovingOriginal => if event.worked() {
                FinalizeState::Finished
            } else {
                FinalizeState::Failed(FinalizeError::RemoveOriginal)
            },
            FinalizeState::Finished => state,
            FinalizeState::Failed(_) => state,
        }
    }

    /// The name under which the original is kept where the transcoded recording takes its place.
    pub open spec fn preserved_path(self) -> Seq<char> {
        let stem = match file_stem(self.original@) {
            Some(s) => s,
            None => Seq::empty(),
        };
        let ext = match extension(self.original@) {
            Some(e) => e,
            None => Seq::empty(),
        };
        with_file_name(self.original@, stem + ".original."@ + ext)
    }

    /// The path of one of the files.
    pub open spec fn path_of(self, target: Target) -> Seq<char> {
        match target {
            Target::Original => self.original@,
            Target::Preserved => self.preserved_path(),
            Target::Transcoding => self.transcoding_path@,
            Target::Final => self.final_path@,
        }
    }

    /// Begins.
    pub fn begin(&self) -> (r: FinalizeState)
        ensures
            r == self.first_state(),
    {
        if self.preserve_original && is_same_path(&self.final_path, &self.original) {
            FinalizeState::Preserving
        } else {
            FinalizeState::Moving
        }
    }

    fn placed(&self) -> (r: FinalizeState)
        ensures
            r == self.placed_state(),
    {
        if !self.preserve_original && !is_same_path(&self.final_path, &self.original) {
            FinalizeState::RemovingOriginal
        } else {
            FinalizeState::Finished
        }
    }

    /// Goes on after an action.
    pub fn advance(&self, state: FinalizeState, event: FinalizeEvent) -> (r: FinalizeState)
        ensures
            r == self.next_state(state, event),
    {
        let worked: bool = match event {
            FinalizeEvent::Error => false,
            _ => true,
        };
        match state {
            FinalizeState::Preserving => if worked {
                FinalizeState::Moving
            } else {
                FinalizeState::Failed(FinalizeError::Preserve)
            },
            FinalizeState::Moving => if worked {
                self.placed()
            } else {
                FinalizeState::HashingSource
            },
            FinalizeState::HashingSource => match event {
                FinalizeEvent::Hashed(source) => FinalizeState::Copying { source },
                _ => FinalizeState::Failed(FinalizeError::HashSource),
            },
            FinalizeState::Copying { source } => if worked {
                FinalizeState::HashingCopy { source }
            } else {
                FinalizeState::Failed(FinalizeError::Copy)
            },
            FinalizeState::HashingCopy { source } => match event {
                FinalizeEvent::Hashed(copy) => if same_hash(&copy, &source) {
                    FinalizeState::RemovingSource
                } else {
                    FinalizeState::RemovingCopy { source, copy }
                },
                _ => FinalizeState::Failed(FinalizeError::HashCopy),
            },
            FinalizeState::RemovingCopy { source, copy } => FinalizeState::Failed(
                FinalizeError::Mismatch { source, copy },
            ),
            FinalizeState::RemovingSource => if worked {
                self.placed()
            } else {
                FinalizeState::Failed(FinalizeError::RemoveSource)
            },
            FinalizeState::RemovingOriginal => if worked {
                FinalizeState::Finished
            } else {
                FinalizeState::Failed(FinalizeError::RemoveOriginal)
            },
            FinalizeState::Finished => state,
            FinalizeState::Failed(_) => state,
        }
    }

    /// What is done in a state.
    pub fn action(state: FinalizeState) -> (r: FinalizeAction)
        ensures
            r == action_in(state),
    {
        match state {
            FinalizeState::Preserving => FinalizeAction::Rename {
                from: Target::Original,
                to: Target::Preserved,
            },
            FinalizeState::Moving => FinalizeAction::Rename {
                from: Target::Transcoding,
                to: Target::Final,
            },
            FinalizeState::HashingSource => FinalizeAction::Hash(Target::Transcoding),
            FinalizeState::Copying { source: _ } => FinalizeAction::Copy {
                from: Target::Transcoding,
                to: Target::Final,
            },
            FinalizeState::HashingCopy { source: _ } => FinalizeAction::Hash(Target::Final),
            FinalizeState::RemovingCopy { source: _, copy: _ } => FinalizeAction::Remove(
                Target::Final,
            ),
            FinalizeState::RemovingSource => FinalizeAction::Remove(Target::Transcoding),
            FinalizeState::RemovingOriginal => FinalizeAction::Remove(Target::Original),
            FinalizeState::Finished => FinalizeAction::Finish,
            FinalizeState::Failed(e) => FinalizeAction::Fail(e),
        }
    }

    /// The path of one of the files.
    pub fn path(&self, target: Target) -> (r: String)
        ensures
            r@ == self.path_of(target),
    {
        match target {
            Target::Original => self.original.as_str().to_owned(),
            Target::Preserved => {
                let mut name = match file_stem_of(&self.original) {
                    Some(s) => s,
                    None => String::new(),
                };
                name.append(".original.");
                if let Some(e) = extension_of(&self.original) {
                    name.append(&e);
                }
                assert(extension(self.original@) is None ==> name@ + Seq::<char>::empty()
                    =~= name@);
                rename(&self.original, &name)
            },
            Target::Transcoding => self.transcoding_path.as_str().to_owned(),
            Target::Final => self.final_path.as_str().to_owned(),
        }
    }
}

/// What is done in a state.
pub open spec fn action_in(state: FinalizeState) -> FinalizeAction {
    match state {
        FinalizeState::Preserving => FinalizeAction::Rename {
            from: Target::Original,
            to: Target::Preserved,
        },
        FinalizeState::Moving => FinalizeAction::Rename {
            from: Target::Transcoding,
            to: Target::Final,
        },
        FinalizeState::HashingSource => FinalizeAction::Hash(Target::Transcoding),
        FinalizeState::Copying { source } => FinalizeAction::Copy {
            from: Target::Transcoding,
            to: Target::Final,
        },
        FinalizeState::HashingCopy { source } => FinalizeAction::Hash(Target::Final),
        FinalizeState::RemovingCopy { source, copy } => FinalizeAction::Remove(Target::Final),
        FinalizeState::RemovingSource => FinalizeAction::Remove(Target::Transcoding),
        FinalizeState::RemovingOriginal => FinalizeAction::Remove(Target::Original),
        FinalizeState::Finished => FinalizeAction::Finish,
        FinalizeState::Failed(e) => FinalizeAction::Fail(e),
    }
}

fn same_hash(a: &FileHash, b: &FileHash) -> (r: bool)
    ensures
        r == (a@ == b@),
{
    for i in 0..32
        invariant
            a@.len() == 32,
            b@.len() == 32,
            forall|j: int| 0 <= j < i ==> a@[j] == b@[j],
    {
        if a[i] != b[i] {
            return false;
        }
    }
    assert(a@ =~= b@);
    true
}

impl FinalizeError {
    /// The error in words. The name under which the original was to be kept is not among them.
    pub open spec fn words(self) -> Seq<char> {
        match self {
            FinalizeError::Preserve => "Failed to preserve original"@,
            FinalizeError::HashSource => "Failed to hash temp file before copy"@,
            FinalizeError::Copy => "Failed to copy transcoded file to final location"@,
            FinalizeError::HashCopy => "Failed to hash copied file"@,
            FinalizeError::Mismatch { source, copy } => "Copy integrity check failed: "@ + hex(
                source@,
            ) + " != "@ + hex(copy@),
            FinalizeError::RemoveSource => "Failed to remove temporary transcoded file"@,
            FinalizeError::RemoveOriginal => "Failed to delete original file"@,
        }
    }

    /// The error in words.
    pub fn message(&self) -> (r: String)
        ensures
            r@ == self.words(),
    {
        match self {
            FinalizeError::Preserve => "Failed to preserve original".to_owned(),
            FinalizeError::HashSource => "Failed to hash temp file before copy".to_owned(),
            FinalizeError::Copy => "Failed to copy transcoded file to final location".to_owned(),
            FinalizeError::HashCopy => "Failed to hash copied file".to_owned(),
            FinalizeError::Mismatch { source, copy } => {
                let mut message = "Copy integrity check failed: ".to_owned();
                message.append(&hash_text(source));
                message.append(" != ");
                message.append(&hash_text(copy));
                message
            },
            FinalizeError::RemoveSource => "Failed to remove temporary transcoded file".to_owned(),
            FinalizeError::RemoveOriginal => "Failed to delete original file".to_owned(),
        }
    }
}

/// The state after the first `n` events.
pub open spec fn state_after(job: FinalizeJob, events: Seq<FinalizeEvent>, n: int) -> FinalizeState
    decreases n,
{
    if n <= 0 {
        job.first_state()
    } else {
        job.next_state(state_after(job, events, n - 1), events[n - 1])
    }
}

/// One of the first `n` events was that the transcoded recording was moved to its place.
pub open spec fn was_moved(job: FinalizeJob, events: Seq<FinalizeEvent>, n: int) -> bool
    decreases n,
{
    n > 0 && (was_moved(job, events, n - 1) || (state_after(job, events, n - 1) is Moving
        && events[n - 1].worked()))
}

/// One of the first `n` events was that the copy turned out to have the hash of what was copied.
pub open spec fn was_copied(job: FinalizeJob, events: Seq<FinalizeEvent>, n: int) -> bool
    decreases n,
{
    n > 0 && (was_copied(job, events, n - 1) || (state_after(
        job,
        events,
        n - 1,
    ) matches FinalizeState::HashingCopy { source } && events[n
        - 1] matches FinalizeEvent::Hashed(copy) && copy@ == source@))
}

/// One of the first `n` events was that the original was removed.
pub open spec fn was_removed(job: FinalizeJob, events: Seq<FinalizeEvent>, n: int) -> bool
    decreases n,
{
    n > 0 && (was_removed(job, events, n - 1) || (state_after(
        job,
        events,
        n - 1,
    ) is RemovingOriginal && events[n - 1].worked()))
}

/// The original is removed, and the transcoded recording where it was written, only once the
/// transcoded recording was moved to its place or copied there without a change. The same holds
/// when all is finished.
pub proof fn nothing_is_removed_early(job: FinalizeJob, events: Seq<FinalizeEvent>, n: int)
    ensures
        state_after(job, events, n) is RemovingSource ==> was_copied(job, events, n),
        state_after(job, events, n) is RemovingOriginal ==> was_moved(job, events, n)
            || was_copied(job, events, n),
        state_after(job, events, n) is Finished ==> was_moved(job, events, n) || was_copied(
            job,
            events,
            n,
        ),
    decreases n,
{
    if n > 0 {
        nothing_is_removed_early(job, events, n - 1);
    }
}

/// The original is removed only where it is not to be preserved and the transcoded recording has
/// another place.
pub proof fn preserved_original_stays(job: FinalizeJob, events: Seq<FinalizeEvent>, n: int)
    requires
        job.preserve_original || job.replaces(),
    ensures
        !(state_after(job, events, n) is RemovingOriginal),
        !was_removed(job, events, n),
    decreases n,
{
    if n > 0 {
        preserved_original_stays(job, events, n - 1);
    }
}

/// Where it does not work, the original is still there.
pub proof fn failure_keeps_the_original(job: FinalizeJob, events: Seq<FinalizeEvent>, n: int)
    ensures
        was_removed(job, events, n) ==> state_after(job, events, n) is Finished,
        state_after(job, events, n) is Failed ==> !was_removed(job, events, n),
    decreases n,
{
    if n > 0 {
        failure_keeps_the_original(job, events, n - 1);
    }
}

/// How many more actions there can be.
pub open spec fn actions_left(state: FinalizeState) -> nat {
    match state {
        FinalizeState::Preserving => 7,
        FinalizeState::Moving => 6,
        FinalizeState::HashingSource => 5,
        FinalizeState::Copying { source } => 4,
        FinalizeState::HashingCopy { source } => 3,
        FinalizeState::RemovingCopy { source, copy } => 2,
        FinalizeState::RemovingSource => 2,
        FinalizeState::RemovingOriginal => 1,
        FinalizeState::Finished => 0,
        FinalizeState::Failed(_) => 0,
    }
}

/// It comes to an end.
pub proof fn it_ends(job: FinalizeJob, state: FinalizeState, event: FinalizeEvent)
    ensures
        actions_left(state) > 0 ==> actions_left(job.next_state(state, event)) < actions_left(
            state,
        ),
        actions_left(state) == 0 ==> job.next_state(state, event) == state,
{
}

/// An original that makes way for the transcoded recording keeps its extension and gets another
/// stem: its own with `.original` behind it.
pub proof fn preserved_name_keeps_the_extension(job: FinalizeJob)
    requires
        file_stem(job.original@) is Some,
        extension(job.original@) is Some,
    ensures
        extension(job.preserved_path()) == extension(job.original@),
        file_stem(job.preserved_path()) == Some(file_stem(job.original@)->0 + ".original"@),
        job.preserved_path() != job.original@,
{
    let s = file_stem(job.original@)->0;
    let e = extension(job.original@)->0;
    let name = s + ".original."@ + e;
    stems_are_names(job.original@);
    reveal_strlit(".original.");
    reveal_strlit(".original");
    let front = s + ".original"@;
    assert(name =~= front.push('.') + e);
    assert(!name.contains('/')) by {
        if name.contains('/') {
            let k = choose|k: int| 0 <= k < name.len() && name[k] == '/';
            if k < s.len() {
                assert(s.contains(s[k]));
            } else if k >= s.len() + 10 {
                assert(e.contains(e[k - s.len() - 10]));
            }
        }
    }
    extended_name_falls_apart(front, e);
    joined_name_is_the_file_name(job.original@, name);
    assert(front.len() != s.len());
}

/// Where every action works, the transcoded recording is moved to its place, and nothing is hashed or
/// copied. A copy that differs is removed again, and that is an error.
pub proof fn working_actions_lead_to_the_end(job: FinalizeJob, source: FileHash, copy: FileHash)
    ensures
        ({
            let moving = if job.first_state() is Preserving {
                job.next_state(job.first_state(), FinalizeEvent::Done)
            } else {
                job.first_state()
            };
            let placed = job.next_state(moving, FinalizeEvent::Done);
            &&& moving is Moving
            &&& placed is Finished || job.next_state(placed, FinalizeEvent::Done) is Finished
            &&& placed is Finished <==> job.preserve_original || job.replaces()
            &&& job.first_state() is Preserving <==> job.preserve_original && job.replaces()
        }),
        copy@ != source@ ==> {
            let removing = job.next_state(
                FinalizeState::HashingCopy { source },
                FinalizeEvent::Hashed(copy),
            );
            &&& action_in(removing) == FinalizeAction::Remove(Target::Final)
            &&& job.next_state(removing, FinalizeEvent::Done) is Failed
            &&& job.next_state(removing, FinalizeEvent::Error) is Failed
        },
{
}

/// Nothing is written over: a file is only renamed or copied from where it is to where it belongs, and
/// the original only makes way by another name.
pub proof fn files_go_where_they_belong(state: FinalizeState)
    ensures
        action_in(state) matches FinalizeAction::Rename { from, to } ==> from == Target::Transcoding
            && to == Target::Final || from == Target::Original && to == Target::Preserved,
        action_in(state) matches FinalizeAction::Copy { from, to } ==> from == Target::Transcoding
            && to == Target::Final,
        action_in(state) == FinalizeAction::Remove(Target::Original) ==> state is RemovingOriginal,
        action_in(state) == FinalizeAction::Remove(Target::Final) ==> state is RemovingCopy,
        action_in(state) != FinalizeAction::Remove(Target::Preserved),
{
}

/// A path is the same as itself.
pub proof fn every_path_is_itself(p: Seq<char>)
    ensures
        same_path(p, p),
{
    path_is_below_itself(p);
}

/// The bytes of a hash can be told from its text, so that the two hashes in an error can be told.
pub proof fn hashes_can_be_told(a: Seq<u8>, b: Seq<u8>)
    requires
        hex(a) == hex(b),
    ensures
        a == b,
{
    assert(hex(a).len() == 2 * a.len() && hex(b).len() == 2 * b.len());
    assert(a.len() == b.len());
    assert forall|i: int| 0 <= i < a.len() implies a[i] == b[i] by {
        let x = hex(a);
        let y = hex(b);
        assert(x[2 * i] == hex_digit(a[i] as int / 16));
        assert(y[2 * i] == hex_digit(b[i] as int / 16));
        assert(x[2 * i + 1] == hex_digit(a[i] as int % 16));
        assert(y[2 * i + 1] == hex_digit(b[i] as int % 16));
        hex_digits_differ(a[i] as int / 16, b[i] as int / 16);
        hex_digits_differ(a[i] as int % 16, b[i] as int % 16);
    }
    assert(a =~= b);
}

}

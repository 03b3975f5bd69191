//! The collection that a command works on.
use super::verify::VerifyResult;
use crate::db::models::{Dvr, File, NewDvr};
use crate::numbers::{count_text, decimal, written_numbers_read_back};
use crate::paths::{below, is_directory, is_tidy, join, joined, joined_path_is_below, strip_base};
use crate::text::middle_is_told;
use vstd::prelude::*;

verus! {

/// A collection and the directory in which it lies.
#[derive(Debug, Clone)]
pub struct DvrContext {
    pub dvr: Dvr,
    pub base_path: String,
}

/// Where a file of a collection lies: inside its directory where that is known.
pub open spec fn place_of(base_path: Seq<char>, file: File) -> Seq<char> {
    match file.relative_path {
        Some(relative) => joined(base_path, relative@),
        None => file.path@,
    }
}

/// Where a file lies, given the directory of its collection.
pub fn locate(base_path: &str, file: &File) -> (r: String)
    ensures
        r@ == place_of(base_path@, *file),
{
    match &file.relative_path {
        Some(relative) => join(base_path, relative),
        None => file.path.as_str().to_owned(),
    }
}

impl DvrContext {
    /// The path of something inside the directory.
    pub fn resolve_path(&self, relative_path: &str) -> (r: String)
        ensures
            r@ == joined(self.base_path@, relative_path@),
    {
        join(&self.base_path, relative_path)
    }

    /// The path of something as it is seen from the directory.
    pub fn make_relative(&self, absolute_path: &str) -> (r: Result<String, String>)
        ensures
            match r {
                Ok(relative) => below(absolute_path@, self.base_path@) == Some(relative@),
                Err(message) => below(absolute_path@, self.base_path@) is None && message@
                    == "Path is not within DVR base directory"@,
            },
    {
        match strip_base(absolute_path, &self.base_path) {
            Some(relative) => Ok(relative),
            None => Err("Path is not within DVR base directory".to_owned()),
        }
    }

    /// Where a file of the collection lies.
    pub fn file_path(&self, file: &File) -> (r: String)
        ensures
            r@ == place_of(self.base_path@, *file),
    {
        locate(&self.base_path, file)
    }
}

/// A path that was found inside the directory is seen from there as what it was found by.
pub proof fn resolved_path_is_relative(context: DvrContext, relative: Seq<char>)
    requires
        is_directory(context.base_path@),
        is_tidy(relative),
    ensures
        below(joined(context.base_path@, relative), context.base_path@) == Some(relative),
{
    joined_path_is_below(context.base_path@, relative);
}

/// What is done to get at the record of a collection.
#[derive(Debug, Clone)]
pub enum DvrStep {
    /// Enter a new collection.
    Create(NewDvr),
    /// Compare a sample of its files with their fingerprints.
    Sample,
    /// Give up.
    Refuse(String),
    /// Note when it was verified, and use it.
    Confirm,
    /// Use it.
    Proceed,
}

/// The message for a collection whose files do not match their fingerprints.
pub open spec fn refusal(name: Seq<char>, result: VerifyResult, shown_path: Seq<char>) -> Seq<
    char,
> {
    "DVR verification failed. "@ + decimal(result.matched as int) + " of "@ + decimal(
        result.total as int,
    ) + " sampled files had matching fingerprints.\nThis may not be the correct location for DVR '"@
        + name + "'.\nRun 'dvrreview "@ + name + " "@ + shown_path
        + " verify' for detailed results."@
}

/// What is done next to get at the record of a collection, given whether there is one, and the
/// outcome of its verification once it has been verified.
pub fn get_or_create_dvr(
    name: &str,
    shown_path: &str,
    found: bool,
    skip_verify: bool,
    verification: &Option<VerifyResult>,
) -> (r: DvrStep)
    ensures
        match r {
            DvrStep::Create(new_dvr) => !found && new_dvr.name@ == name@,
            DvrStep::Proceed => found && skip_verify,
            DvrStep::Sample => found && !skip_verify && verification is None,
            DvrStep::Refuse(message) => {
                &&& found
                &&& !skip_verify
                &&& verification matches Some(result)
                &&& result.total > 0
                &&& !result.verified
                &&& message@ == refusal(name@, *result, shown_path@)
            },
            DvrStep::Confirm => {
                &&& found
                &&& !skip_verify
                &&& verification matches Some(result)
                &&& result.total == 0 || result.verified
            },
        },
{
    if !found {
        return DvrStep::Create(NewDvr { name: name.to_owned() });
    }
    if skip_verify {
        return DvrStep::Proceed;
    }
    match verification {
        None => DvrStep::Sample,
        Some(result) => if !result.is_empty() && !result.verified {
            let mut message = "DVR verification failed. ".to_owned();
            message.append(&count_text(result.matched));
            message.append(" of ");
            message.append(&count_text(result.total));
            message.append(
                " sampled files had matching fingerprints.\nThis may not be the correct location for DVR '",
            );
            message.append(name);
            message.append("'.\nRun 'dvrreview ");
            message.append(name);
            message.append(" ");
            message.append(shown_path);
            message.append(" verify' for detailed results.");
            DvrStep::Refuse(message)
        } else {
            DvrStep::Confirm
        },
    }
}

/// A file whose place in the collection is known lies inside the directory, at that place: seen from
/// there, it has the path that was noted, wherever the directory is. Another file lies where its own
/// path says.
pub proof fn file_lies_where_it_was_noted(base_path: Seq<char>, file: File)
    ensures
        file.relative_path is Some && is_directory(base_path) && is_tidy(file.relative_path->0@)
            ==> below(place_of(base_path, file), base_path) == Some(file.relative_path->0@),
        file.relative_path is None ==> place_of(base_path, file) == file.path@,
{
    if file.relative_path is Some && is_directory(base_path) && is_tidy(file.relative_path->0@) {
        joined_path_is_below(base_path, file.relative_path->0@);
    }
}

/// A refusal tells how many files matched, out of how many, and where the collection was looked for.
pub proof fn refusal_tells_the_counts(
    name: Seq<char>,
    a: VerifyResult,
    b: VerifyResult,
    path_a: Seq<char>,
    path_b: Seq<char>,
)
    ensures
        refusal(name, a, path_a) == refusal(name, b, path_a) && a.total == b.total ==> a.matched
            == b.matched,
        refusal(name, a, path_a) == refusal(name, b, path_a) && a.matched == b.matched ==> a.total
            == b.total,
        refusal(name, a, path_a) == refusal(name, a, path_b) ==> path_a == path_b,
{
    let front = "DVR verification failed. "@;
    let middle =
        " sampled files had matching fingerprints.\nThis may not be the correct location for DVR '"@;
    let end = "'.\nRun 'dvrreview "@;
    let last = " verify' for detailed results."@;
    let ma = decimal(a.matched as int);
    let mb = decimal(b.matched as int);
    let ta = decimal(a.total as int);
    let tb = decimal(b.total as int);
    let rest = middle + name + end + name + " "@ + path_a + last;
    assert(refusal(name, a, path_a) =~= front + ma + (" of "@ + ta + rest));
    assert(refusal(name, b, path_a) =~= front + mb + (" of "@ + tb + rest));
    assert(refusal(name, a, path_a) =~= (front + ma + " of "@) + ta + rest);
    assert(refusal(name, b, path_a) =~= (front + mb + " of "@) + tb + rest);
    if refusal(name, a, path_a) == refusal(name, b, path_a) {
        written_numbers_read_back(a.matched as int);
        written_numbers_read_back(a.total as int);
        if a.total == b.total {
            middle_is_told(front, ma, mb, " of "@ + ta + rest);
            assert(decimal(b.matched as int) == decimal(a.matched as int));
        }
        if a.matched == b.matched {
            middle_is_told(front + ma + " of "@, ta, tb, rest);
            assert(decimal(b.total as int) == decimal(a.total as int));
        }
    }
    let head = front + ma + " of "@ + ta + middle + name + end + name + " "@;
    assert(refusal(name, a, path_a) =~= head + path_a + last);
    assert(refusal(name, a, path_b) =~= head + path_b + last);
    if refusal(name, a, path_a) == refusal(name, a, path_b) {
        middle_is_told(head, path_a, path_b, last);
    }
}

}

//! The thumbnails of the recordings of a collection.
use super::fingerprints::is_of;
use crate::db::models::{File, NewThumbnail};
use crate::scanner::fingerprint::{
    countable_points, generate_thumbnail_timestamps, thumbnail_points,
};
use crate::text::{
    chars_of, eq_ignore_ascii_case, equal_ignoring_case, is_whitespace, lower, string_of, trim,
    trimmed, trimmed_start, trimming_stops_at_the_rest, ws,
};
use vstd::prelude::*;

verus! {

/// An answer is a yes.
pub open spec fn is_yes(input: Seq<char>) -> bool {
    equal_ignoring_case(trimmed(input), "y"@)
}

/// Whether all thumbnails are to be removed: without a question, or with a yes for an answer.
pub fn clear_thumbnails(force: bool, input: &str) -> (r: bool)
    ensures
        r == (force || is_yes(input@)),
{
    force || eq_ignore_ascii_case(&string_of(&trim(&chars_of(input))), "y")
}

/// Thumbnails are to be made for the file: it is of the collection, its duration is known, and it
/// has none.
pub open spec fn needs_thumbnails(file: File, dvr_id: u128, has_thumbnails: bool) -> bool {
    file.dvr_id == Some(dvr_id) && file.duration_ms is Some && !has_thumbnails
}

/// Whether thumbnails are to be made for a file.
pub fn wants_thumbnails(file: &File, dvr_id: u128, has_thumbnails: bool) -> (r: bool)
    ensures
        r == needs_thumbnails(*file, dvr_id, has_thumbnails),
{
    is_of(file, dvr_id) && file.duration_ms.is_some() && !has_thumbnails
}

/// The points in time at which thumbnails of a file are made; nothing where its duration is not
/// known.
pub fn thumbnail_times(file: &File, count: usize) -> (r: Option<Vec<i32>>)
    requires
        file.duration_ms is Some && file.duration_ms->0 > 0 && count > 0 ==> countable_points(
            count,
        ),
    ensures
        match file.duration_ms {
            Some(duration) => {
                &&& r matches Some(points)
                &&& duration <= 0 || count == 0 || (count as i32) < 0 ==> points@.len() == 0
                &&& duration > 0 && count > 0 && count as i32 >= 0 ==> points@
                    == thumbnail_points(duration as int, (count as i32) as int)
            },
            None => r is None,
        },
{
    match file.duration_ms {
        Some(duration) => Some(generate_thumbnail_timestamps(duration, count)),
        None => None,
    }
}

/// The record of a thumbnail; nothing where it could not be made.
pub fn generate_thumbnail(
    file_id: u128,
    timestamp_ms: i32,
    data: Result<Vec<u8>, String>,
) -> (r: Option<NewThumbnail>)
    ensures
        match data {
            Ok(bytes) => r == Some(NewThumbnail { file_id, timestamp_ms, data: bytes }),
            Err(_) => r is None,
        },
{
    match data {
        Ok(bytes) => Some(NewThumbnail { file_id, timestamp_ms, data: bytes }),
        Err(_) => None,
    }
}

/// Thumbnails are made of a file of the collection with a known duration, and only once.
pub proof fn thumbnails_are_made_once(file: File, dvr_id: u128, other: u128)
    requires
        other != dvr_id,
    ensures
        !needs_thumbnails(file, dvr_id, true),
        needs_thumbnails(file, dvr_id, false) ==> !needs_thumbnails(file, other, false),
        needs_thumbnails(file, dvr_id, false) || needs_thumbnails(file, other, false)
            ==> file.duration_ms is Some,
        file.dvr_id == Some(dvr_id) && file.duration_ms is Some ==> needs_thumbnails(
            file,
            dvr_id,
            false,
        ),
{
}

/// A small or a capital `y` is a yes, whatever white space stands around it, and nothing else is.
pub proof fn only_y_is_a_yes(before: Seq<char>, answer: Seq<char>, behind: Seq<char>)
    requires
        forall|k: int| 0 <= k < before.len() ==> is_whitespace(#[trigger] before[k]),
        forall|k: int| 0 <= k < behind.len() ==> is_whitespace(#[trigger] behind[k]),
        answer.len() > 0,
        !is_whitespace(answer[0]),
        !is_whitespace(answer.last()),
    ensures
        is_yes(before + answer + behind) <==> answer == seq!['y'] || answer == seq!['Y'],
{
    let input = before + answer + behind;
    lemma_front_is_trimmed(before, answer + behind);
    assert(input =~= before + (answer + behind));
    trimming_stops_at_the_rest(answer, behind, ws());
    assert(trimmed(input) == answer);
    reveal_strlit("y");
    let f = |c: char| lower(c);
    assert("y"@ =~= seq!['y']);
    assert("y"@.map_values(f) =~= seq!['y']);
    if is_yes(input) {
        assert(answer.map_values(f).len() == 1);
        assert(answer.map_values(f)[0] == lower(answer[0]));
        assert(answer =~= seq![answer[0]]);
    }
    if answer == seq!['y'] || answer == seq!['Y'] {
        assert(answer.map_values(f) =~= seq!['y']);
    }
}

proof fn lemma_front_is_trimmed(before: Seq<char>, rest: Seq<char>)
    requires
        forall|k: int| 0 <= k < before.len() ==> is_whitespace(#[trigger] before[k]),
        rest.len() > 0,
        !is_whitespace(rest[0]),
    ensures
        trimmed_start(before + rest, ws()) == rest,
    decreases before.len(),
{
    let all = before + rest;
    if before.len() > 0 {
        assert(all[0] == before[0]);
        assert(all.skip(1) =~= before.skip(1) + rest);
        lemma_front_is_trimmed(before.skip(1), rest);
    } else {
        assert(all =~= rest);
    }
}

}

//! The identification of recordings by their titles.
use super::fingerprints::is_of;
use crate::db::models::{File, MediaType};
use crate::groups::{group_by_key, is_grouping, Group};
use crate::text::{copy_option, same, text_of};
use crate::tmdb::{claimed_year, clean_title, parse_title, ParsedTitle, TmdbResult};
use vstd::prelude::*;

verus! {

/// The file is to be identified: it is of the collection, claims a title and, where only new files
/// count, was not identified before.
pub open spec fn needs_identification(file: File, dvr_id: u128, incremental: bool) -> bool {
    &&& file.dvr_id == Some(dvr_id)
    &&& file.claimed_title is Some
    &&& incremental ==> file.identified_at is None
}

/// The title under which a file is looked for; none where it is not to be identified.
pub open spec fn wanted_title(file: File, dvr_id: u128, incremental: bool) -> Option<Seq<char>> {
    if needs_identification(file, dvr_id, incremental) {
        text_of(file.claimed_title)
    } else {
        None
    }
}

/// The files that claim one title, and what they are looked for by.
#[derive(Debug, Clone)]
pub struct TitleQuery {
    pub claimed_title: String,
    /// The positions of the files.
    pub files: Vec<usize>,
    pub parsed: ParsedTitle,
    /// Whether one of the files claims a season.
    pub has_season: bool,
}

/// One of the files at the first `n` of the positions claims a season.
pub open spec fn claims_season(files: Seq<File>, members: Seq<usize>, n: int) -> bool {
    exists|k: int|
        0 <= k < n && files[(#[trigger] members[k]) as int].claimed_season is Some
}

/// `query` looks for the files of `group`.
pub open spec fn is_query(query: TitleQuery, group: Group, files: Seq<File>) -> bool {
    &&& query.claimed_title@ == group.key@
    &&& query.files@ == group.members@
    &&& query.parsed.clean_title@ == clean_title(group.key@)
    &&& query.parsed.year == claimed_year(group.key@)
    &&& query.has_season == claims_season(files, group.members@, group.members@.len() as int)
}

/// The titles by which files are grouped.
pub open spec fn are_titles(
    keys: Seq<Option<String>>,
    files: Seq<File>,
    dvr_id: u128,
    incremental: bool,
) -> bool {
    keys.len() == files.len() && forall|i: int|
        0 <= i < keys.len() ==> text_of(#[trigger] keys[i]) == wanted_title(
            files[i],
            dvr_id,
            incremental,
        )
}

/// `queries` look for all files that are to be identified, each title once.
pub open spec fn are_queries(
    queries: Seq<TitleQuery>,
    files: Seq<File>,
    dvr_id: u128,
    incremental: bool,
) -> bool {
    exists|keys: Seq<Option<String>>, groups: Seq<Group>|
        {
            &&& are_titles(keys, files, dvr_id, incremental)
            &&& #[trigger] is_grouping(groups, keys, keys.len() as int)
            &&& queries.len() == groups.len()
            &&& forall|g: int|
                0 <= g < queries.len() ==> is_query(#[trigger] queries[g], groups[g], files)
        }
}

/// The titles to look for, each with the files that claim it.
pub fn identify_files(files: &Vec<File>, dvr_id: u128, incremental: bool) -> (queries: Vec<
    TitleQuery,
>)
    ensures
        are_queries(queries@, files@, dvr_id, incremental),
{
    let mut keys: Vec<Option<String>> = Vec::new();
    for i in 0..files.len()
        invariant
            keys@.len() == i,
            forall|j: int|
                0 <= j < i ==> text_of(#[trigger] keys@[j]) == wanted_title(
                    files@[j],
                    dvr_id,
                    incremental,
                ),
    {
        let f = &files[i];
        if is_of(f, dvr_id) && f.claimed_title.is_some() && (!incremental
            || f.identified_at.is_none()) {
            keys.push(copy_option(&f.claimed_title));
        } else {
            keys.push(None);
        }
    }
    let groups = group_by_key(&keys);
    let mut queries: Vec<TitleQuery> = Vec::new();
    for g in 0..groups.len()
        invariant
            keys@.len() == files@.len(),
            is_grouping(groups@, keys@, keys@.len() as int),
            queries@.len() == g,
            forall|h: int|
                0 <= h < g ==> is_query(#[trigger] queries@[h], groups@[h], files@),
    {
        let members = &groups[g].members;
        let mut positions: Vec<usize> = Vec::new();
        let mut has_season: bool = false;
        assert(crate::groups::is_group(groups@[g as int], keys@, keys@.len() as int));
        for k in 0..members.len()
            invariant
                keys@.len() == files@.len(),
                crate::groups::is_group(groups@[g as int], keys@, keys@.len() as int),
                members@ == groups@[g as int].members@,
                positions@ == members@.take(k as int),
                has_season == claims_season(files@, members@, k as int),
        {
            assert(members@[k as int] < files@.len());
            positions.push(members[k]);
            if files[members[k]].claimed_season.is_some() {
                assert(files@[members@[k as int] as int].claimed_season is Some);
                has_season = true;
            }
        }
        assert(positions@ =~= members@);
        queries.push(
            TitleQuery {
                claimed_title: groups[g].key.as_str().to_owned(),
                files: positions,
                parsed: parse_title(&groups[g].key),
                has_season,
            },
        );
    }
    assert(are_titles(keys@, files@, dvr_id, incremental));
    queries
}

/// What is noted of a file that was looked for.
#[derive(Debug, Clone)]
pub enum Identification {
    /// It was found.
    Found { tmdb_id: i32, media_type: MediaType, title: String, year: Option<i32> },
    /// It was not found, and is not looked for again.
    NotFound,
}

/// The kind that a text stands for: a TV show, or else a movie.
pub open spec fn kind_of(media_type: Seq<char>) -> MediaType {
    if media_type == "tv"@ {
        MediaType::Tv
    } else {
        MediaType::Movie
    }
}

/// What is noted of the files of a query, given what was found; nothing on a trial run.
pub fn identification(result: &Option<TmdbResult>, dry_run: bool) -> (r: Option<Identification>)
    ensures
        r is None <==> dry_run,
        r matches Some(note) ==> match *result {
            Some(found) => {
                &&& note matches Identification::Found { tmdb_id, media_type, title, year }
                &&& tmdb_id == found.id
                &&& media_type == kind_of(found.media_type@)
                &&& title@ == found.title@
                &&& year == found.year
            },
            None => note is NotFound,
        },
{
    if dry_run {
        return None;
    }
    match result {
        Some(found) => {
            let media_type = if same(&found.media_type, "tv") {
                MediaType::Tv
            } else {
                MediaType::Movie
            };
            Some(
                Identification::Found {
                    tmdb_id: found.id,
                    media_type,
                    title: found.title.as_str().to_owned(),
                    year: found.year,
                },
            )
        },
        None => Some(Identification::NotFound),
    }
}

/// How many files were identified, and how many were not found.
#[derive(Debug, Clone, Copy, PartialEq, Eq, Structural)]
pub struct IdentifyTally {
    pub identified: usize,
    pub not_found: usize,
}

impl Default for IdentifyTally {
    fn default() -> (r: Self)
        ensures
            r.identified == 0,
            r.not_found == 0,
    {
        IdentifyTally { identified: 0, not_found: 0 }
    }
}

impl IdentifyTally {
    /// Counts the files of a query. A query that failed does not count.
    pub fn count(&mut self, query: &TitleQuery, result: &Result<Option<TmdbResult>, String>)
        requires
            old(self).identified + query.files@.len() <= usize::MAX,
            old(self).not_found + query.files@.len() <= usize::MAX,
        ensures
            final(self).identified == old(self).identified + (match *result {
                Ok(Some(_)) => query.files@.len() as int,
                _ => 0,
            }),
            final(self).not_found == old(self).not_found + (match *result {
                Ok(None) => query.files@.len() as int,
                _ => 0,
            }),
    {
        match result {
            Ok(Some(_)) => {
                self.identified = self.identified + query.files.len();
            },
            Ok(None) => {
                self.not_found = self.not_found + query.files.len();
            },
            Err(_) => {},
        }
    }
}

/// Every file that is to be identified is looked for by exactly one query.
pub proof fn every_file_is_looked_for(
    queries: Seq<TitleQuery>,
    files: Seq<File>,
    dvr_id: u128,
    incremental: bool,
    i: int,
)
    requires
        files.len() <= usize::MAX,
        are_queries(queries, files, dvr_id, incremental),
        0 <= i < files.len(),
        needs_identification(files[i], dvr_id, incremental),
    ensures
        exists|g: int|
            #![trigger queries[g]]
            0 <= g < queries.len() && queries[g].files@.contains(i as usize)
                && queries[g].claimed_title@ == files[i].claimed_title->0@,
        forall|g: int, h: int|
            0 <= g < h < queries.len() && (#[trigger] queries[g]).files@.contains(i as usize)
                ==> !(#[trigger] queries[h]).files@.contains(i as usize),
{
    let (keys, groups) = choose|keys: Seq<Option<String>>, groups: Seq<Group>|
        {
            &&& are_titles(keys, files, dvr_id, incremental)
            &&& #[trigger] is_grouping(groups, keys, keys.len() as int)
            &&& queries.len() == groups.len()
            &&& forall|g: int|
                0 <= g < queries.len() ==> is_query(#[trigger] queries[g], groups[g], files)
        };
    assert(text_of(keys[i]) == wanted_title(files[i], dvr_id, incremental));
    assert(crate::groups::has_group(groups, keys[i]->0@));
    let g = choose|g: int| 0 <= g < groups.len() && (#[trigger] groups[g]).key@ == keys[i]->0@;
    assert(crate::groups::is_group(groups[g], keys, keys.len() as int));
    assert(groups[g].members@.contains(i as usize));
    assert(is_query(queries[g], groups[g], files));
    assert forall|g: int, h: int|
        0 <= g < h < queries.len() && (#[trigger] queries[g]).files@.contains(
            i as usize,
        ) implies !(#[trigger] queries[h]).files@.contains(i as usize) by {
        assert(is_query(queries[g], groups[g], files));
        assert(is_query(queries[h], groups[h], files));
        crate::groups::groups_are_disjoint(groups, keys, keys.len() as int, g, h, i as usize);
    }
}

/// A query looks for files of the collection that claim its title and, where only new files count,
/// were not identified before. It asks for the title without the year that stands behind it, and for a
/// show if and only if one of them claims a season.
pub proof fn looked_for_files_claim_the_title(
    queries: Seq<TitleQuery>,
    files: Seq<File>,
    dvr_id: u128,
    incremental: bool,
    g: int,
    k: int,
)
    requires
        are_queries(queries, files, dvr_id, incremental),
        0 <= g < queries.len(),
        0 <= k < queries[g].files@.len(),
    ensures
        ({
            let at = queries[g].files@[k] as int;
            &&& at < files.len()
            &&& files[at].dvr_id == Some(dvr_id)
            &&& files[at].claimed_title matches Some(title) && title@ == queries[g].claimed_title@
            &&& incremental ==> files[at].identified_at is None
            &&& queries[g].parsed.clean_title@ == clean_title(files[at].claimed_title->0@)
            &&& queries[g].parsed.year == claimed_year(files[at].claimed_title->0@)
            &&& files[at].claimed_season is Some ==> queries[g].has_season
            &&& queries[g].has_season ==> exists|l: int|
                0 <= l < queries[g].files@.len() && files[(
                #[trigger] queries[g].files@[l]) as int].claimed_season is Some
        }),
{
    let (keys, groups) = choose|keys: Seq<Option<String>>, groups: Seq<Group>|
        {
            &&& are_titles(keys, files, dvr_id, incremental)
            &&& #[trigger] is_grouping(groups, keys, keys.len() as int)
            &&& queries.len() == groups.len()
            &&& forall|g: int|
                0 <= g < queries.len() ==> is_query(#[trigger] queries[g], groups[g], files)
        };
    assert(is_query(queries[g], groups[g], files));
    assert(crate::groups::is_group(groups[g], keys, keys.len() as int));
    let at = groups[g].members@[k] as int;
    assert(text_of(keys[at]) == wanted_title(files[at], dvr_id, incremental));
}

/// A file of the collection that claims a title and was not identified before is looked for in
/// either way; one that was identified before only where all files count.
pub proof fn new_files_are_always_looked_for(file: File, dvr_id: u128)
    requires
        file.dvr_id == Some(dvr_id),
        file.claimed_title is Some,
    ensures
        needs_identification(file, dvr_id, false),
        needs_identification(file, dvr_id, true) <==> file.identified_at is None,
{
}

/// The kinds under which results are found are the ones under which they are stored.
pub proof fn found_kinds_are_the_stored_ones(kind: MediaType)
    ensures
        kind_of(kind.sql()) == kind,
        forall|text: Seq<char>| text != MediaType::Tv.sql() ==> #[trigger] kind_of(text)
            == MediaType::Movie,
{
    reveal_strlit("tv");
    reveal_strlit("movie");
    assert("movie"@.len() != "tv"@.len());
}

}

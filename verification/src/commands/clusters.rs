//! The clusters of recordings that look alike.
use super::fingerprints::{in_transcoding, is_in_transcoding, is_of};
use crate::cluster::{connected, is_chain, is_clustering, joins, linked, SimilarityMatch};
use crate::db::models::{File, NewCluster, NewClusterMember, TranscodeStatus};
use crate::groups::{group_by_key, has_group, is_group, is_grouping, Group};
use crate::numbers::{count_text, decimal, decimal_text, written_numbers_read_back};
use crate::score::Score;
use crate::text::{copy_bytes, text_of};
use std::collections::HashMap;
use vstd::prelude::*;

verus! {

broadcast use vstd::std_specs::hash::group_hash_axioms;

/// The file takes part in clusters: it is of the collection, has fingerprints and is not in
/// transcoding.
pub open spec fn takes_part(file: File, dvr_id: u128) -> bool {
    file.dvr_id == Some(dvr_id) && file.fingerprinted_at is Some && !in_transcoding(file)
}

/// The key under which files are compared: what they were identified as or, where they were not,
/// the title that they claim.
pub open spec fn cluster_key(file: File) -> Seq<char> {
    match file.tmdb_id {
        Some(id) => "tmdb:"@ + decimal(id as int),
        None => "title:"@ + (match file.claimed_title {
            Some(title) => title@,
            None => "Unknown"@,
        }),
    }
}

/// The key of a file; none where it does not take part.
pub open spec fn wanted_key(file: File, dvr_id: u128) -> Option<Seq<char>> {
    if takes_part(file, dvr_id) {
        Some(cluster_key(file))
    } else {
        None
    }
}

fn key_text(file: &File) -> (r: String)
    ensures
        r@ == cluster_key(*file),
{
    match file.tmdb_id {
        Some(id) => {
            let mut key = "tmdb:".to_owned();
            key.append(&decimal_text(id as i64));
            key
        },
        None => {
            let mut key = "title:".to_owned();
            match &file.claimed_title {
                Some(title) => key.append(title),
                None => key.append("Unknown"),
            }
            key
        },
    }
}

/// The keys by which files are grouped.
pub open spec fn are_keys(keys: Seq<Option<String>>, files: Seq<File>, dvr_id: u128) -> bool {
    keys.len() == files.len() && forall|i: int|
        0 <= i < keys.len() ==> text_of(#[trigger] keys[i]) == wanted_key(files[i], dvr_id)
}

/// The positions of the first `n` groups with at least two members.
pub open spec fn large_groups(groups: Seq<Group>, n: int) -> Seq<int>
    decreases n,
{
    if n <= 0 {
        Seq::empty()
    } else if groups[n - 1].members@.len() >= 2 {
        large_groups(groups, n - 1).push(n - 1)
    } else {
        large_groups(groups, n - 1)
    }
}

/// Two groups have the same key and the same members.
pub open spec fn same_group(a: Group, b: Group) -> bool {
    a.key@ == b.key@ && a.members@ == b.members@
}

/// `r` are the groups of files that are compared with each other: those with one key, where there
/// are at least two.
pub open spec fn are_candidates(r: Seq<Group>, files: Seq<File>, dvr_id: u128) -> bool {
    exists|keys: Seq<Option<String>>, groups: Seq<Group>|
        {
            &&& are_keys(keys, files, dvr_id)
            &&& #[trigger] is_grouping(groups, keys, keys.len() as int)
            &&& r.len() == large_groups(groups, groups.len() as int).len()
            &&& forall|k: int|
                0 <= k < r.len() ==> same_group(
                    #[trigger] r[k],
                    groups[large_groups(groups, groups.len() as int)[k]],
                )
        }
}

/// The groups of files that are compared with each other.
pub fn candidate_groups(files: &Vec<File>, dvr_id: u128) -> (r: Vec<Group>)
    ensures
        are_candidates(r@, files@, dvr_id),
{
    let mut keys: Vec<Option<String>> = Vec::new();
    for i in 0..files.len()
        invariant
            keys@.len() == i,
            forall|j: int|
                0 <= j < i ==> text_of(#[trigger] keys@[j]) == wanted_key(files@[j], dvr_id),
    {
        let f = &files[i];
        if is_of(f, dvr_id) && f.fingerprinted_at.is_some() && !is_in_transcoding(f) {
            keys.push(Some(key_text(f)));
        } else {
            keys.push(None);
        }
    }
    let groups = group_by_key(&keys);
    let mut out: Vec<Group> = Vec::new();
    for g in 0..groups.len()
        invariant
            out@.len() == large_groups(groups@, g as int).len(),
            forall|k: int|
                0 <= k < out@.len() ==> same_group(
                    #[trigger] out@[k],
                    groups@[large_groups(groups@, g as int)[k]],
                ),
    {
        let members = &groups[g].members;
        if members.len() >= 2 {
            let mut copy: Vec<usize> = Vec::new();
            for k in 0..members.len()
                invariant
                    copy@ == members@.take(k as int),
            {
                copy.push(members[k]);
            }
            assert(copy@ =~= members@);
            out.push(Group { key: groups[g].key.as_str().to_owned(), members: copy });
        }
    }
    assert(are_keys(keys@, files@, dvr_id));
    out
}

/// The hashes of a file among the first `n` rows.
pub open spec fn hashes_of(rows: Seq<(u128, Vec<u8>)>, file_id: u128, n: int) -> Seq<Seq<u8>>
    decreases n,
{
    if n <= 0 {
        Seq::empty()
    } else if rows[n - 1].0 == file_id {
        hashes_of(rows, file_id, n - 1).push(rows[n - 1].1@)
    } else {
        hashes_of(rows, file_id, n - 1)
    }
}

/// The views of a list of hashes.
pub open spec fn hash_views(hashes: Seq<Vec<u8>>) -> Seq<Seq<u8>> {
    hashes.map_values(|h: Vec<u8>| h@)
}

/// `map` holds the hashes of the first `n` rows by the file that they belong to, in order.
pub open spec fn maps_rows(
    map: Map<u128, Vec<Vec<u8>>>,
    rows: Seq<(u128, Vec<u8>)>,
    n: int,
) -> bool {
    forall|id: u128|
        {
            &&& #[trigger] map.dom().contains(id) <==> hashes_of(rows, id, n).len() > 0
            &&& map.dom().contains(id) ==> hash_views(map[id]@) == hashes_of(rows, id, n)
        }
}

/// Sorts hashes by the file that they belong to.
pub fn fingerprints_by_file(rows: &Vec<(u128, Vec<u8>)>) -> (map: HashMap<u128, Vec<Vec<u8>>>)
    ensures
        maps_rows(map@, rows@, rows@.len() as int),
{
    let mut map: HashMap<u128, Vec<Vec<u8>>> = HashMap::new();
    for i in 0..rows.len()
        invariant
            maps_rows(map@, rows@, i as int),
    {
        let id: u128 = rows[i].0;
        let ghost before = map@;
        assert(before.dom().contains(id) <==> hashes_of(rows@, id, i as int).len() > 0);
        let mut hashes: Vec<Vec<u8>> = match map.remove(&id) {
            Some(hashes) => hashes,
            None => Vec::new(),
        };
        assert(hash_views(hashes@) =~= hashes_of(rows@, id, i as int));
        let ghost earlier = hashes@;
        hashes.push(copy_bytes(&rows[i].1));
        assert(hash_views(hashes@) =~= hash_views(earlier).push(rows@[i as int].1@));
        map.insert(id, hashes);
        assert forall|other: u128|
            {
                &&& #[trigger] map@.dom().contains(other) <==> hashes_of(
                    rows@,
                    other,
                    i + 1,
                ).len() > 0
                &&& map@.dom().contains(other) ==> hash_views(map@[other]@) == hashes_of(
                    rows@,
                    other,
                    i + 1,
                )
            } by {
            if other != id {
                assert(map@.dom().contains(other) <==> before.dom().contains(other));
            }
        }
    }
    map
}

/// The record of a cluster with the given number of files.
pub fn new_cluster(title: &str, count: usize) -> (r: NewCluster)
    ensures
        r.name matches Some(name) && name@ == title@ + " ("@ + decimal(count as int) + ")"@,
{
    let mut name = title.to_owned();
    name.append(" (");
    name.append(&count_text(count));
    name.append(")");
    NewCluster { name: Some(name) }
}

/// The score of the first of the first `n` matches in which a file takes part.
pub open spec fn score_in(matches: Seq<SimilarityMatch>, file_id: u128, n: int) -> Option<Score>
    decreases n,
{
    if n <= 0 {
        None
    } else {
        match score_in(matches, file_id, n - 1) {
            Some(score) => Some(score),
            None => if matches[n - 1].file_a == file_id || matches[n - 1].file_b == file_id {
                Some(matches[n - 1].score)
            } else {
                None
            },
        }
    }
}

fn find_score(matches: &Vec<SimilarityMatch>, file_id: u128) -> (r: Option<Score>)
    ensures
        r == score_in(matches@, file_id, matches@.len() as int),
{
    let mut found: Option<Score> = None;
    for i in 0..matches.len()
        invariant
            found == score_in(matches@, file_id, i as int),
    {
        if found.is_none() && (matches[i].file_a == file_id || matches[i].file_b == file_id) {
            found = Some(matches[i].score);
        }
    }
    found
}

/// `row` is the record of the membership of a file in a cluster.
pub open spec fn is_membership(
    row: NewClusterMember,
    cluster_id: u128,
    file_id: u128,
    matches: Seq<SimilarityMatch>,
) -> bool {
    &&& row.cluster_id == cluster_id
    &&& row.file_id == file_id
    &&& row.similarity_score == score_in(matches, file_id, matches.len() as int)
}

/// The records of the memberships of the files of a cluster.
pub fn build_members(
    cluster_id: u128,
    file_ids: &Vec<u128>,
    matches: &Vec<SimilarityMatch>,
) -> (r: Vec<NewClusterMember>)
    ensures
        r@.len() == file_ids@.len(),
        forall|i: int|
            0 <= i < r@.len() ==> is_membership(
                #[trigger] r@[i],
                cluster_id,
                file_ids@[i],
                matches@,
            ),
{
    let mut out: Vec<NewClusterMember> = Vec::new();
    for i in 0..file_ids.len()
        invariant
            out@.len() == i,
            forall|j: int|
                0 <= j < i ==> is_membership(
                    #[trigger] out@[j],
                    cluster_id,
                    file_ids@[j],
                    matches@,
                ),
    {
        out.push(
            NewClusterMember {
                cluster_id,
                file_id: file_ids[i],
                similarity_score: find_score(matches, file_ids[i]),
            },
        );
    }
    out
}

proof fn lemma_matched_file_has_a_score(
    matches: Seq<SimilarityMatch>,
    n: int,
    i: int,
    file_id: u128,
)
    requires
        0 <= i < n <= matches.len(),
        matches[i].file_a == file_id || matches[i].file_b == file_id,
    ensures
        score_in(matches, file_id, n) is Some,
    decreases n,
{
    if i < n - 1 {
        lemma_matched_file_has_a_score(matches, n - 1, i, file_id);
    }
}

/// A file of a cluster takes part in a match, so that its membership has a score.
pub proof fn clustered_file_has_a_score(
    matches: Seq<SimilarityMatch>,
    clusters: Seq<Vec<u128>>,
    c: int,
    file_id: u128,
)
    requires
        is_clustering(matches, clusters),
        0 <= c < clusters.len(),
        clusters[c]@.contains(file_id),
    ensures
        score_in(matches, file_id, matches.len() as int) is Some,
{
    let members = clusters[c]@;
    let other = if members[0] == file_id {
        members[1]
    } else {
        members[0]
    };
    assert(members.contains(other) && other != file_id);
    assert(connected(matches, file_id, other));
    let path = choose|path: Seq<u128>| #[trigger]
        is_chain(matches, path) && path.first() == file_id && path.last() == other;
    assert(linked(matches, path[0], path[1]));
    let i = choose|i: int| #[trigger] joins(matches, i, path[0], path[1]);
    lemma_matched_file_has_a_score(matches, matches.len() as int, i, file_id);
}

/// Two files are the same programme as far as is known: they were identified as the same one or,
/// where neither was identified, claim the same title; all files without a title are alike.
pub open spec fn same_programme(a: File, b: File) -> bool {
    match (a.tmdb_id, b.tmdb_id) {
        (Some(x), Some(y)) => x == y,
        (None, None) => {
            let unknown = "Unknown"@;
            (match a.claimed_title {
                Some(title) => title@,
                None => unknown,
            }) == (match b.claimed_title {
                Some(title) => title@,
                None => unknown,
            })
        },
        _ => false,
    }
}

proof fn lemma_key_tells_the_programme(a: File, b: File)
    ensures
        cluster_key(a) == cluster_key(b) <==> same_programme(a, b),
{
    reveal_strlit("tmdb:");
    reveal_strlit("title:");
    let p = "tmdb:"@;
    let q = "title:"@;
    assert(p[1] == 'm' && q[1] == 'i');
    assert(cluster_key(a)[1] == (if a.tmdb_id is Some {
        'm'
    } else {
        'i'
    }));
    assert(cluster_key(b)[1] == (if b.tmdb_id is Some {
        'm'
    } else {
        'i'
    }));
    if a.tmdb_id is Some && b.tmdb_id is Some {
        let x = decimal(a.tmdb_id->0 as int);
        let y = decimal(b.tmdb_id->0 as int);
        written_numbers_read_back(a.tmdb_id->0 as int);
        if cluster_key(a) == cluster_key(b) {
            assert((p + x).skip(p.len() as int) =~= x);
            assert((p + y).skip(p.len() as int) =~= y);
            assert(decimal(b.tmdb_id->0 as int) == decimal(a.tmdb_id->0 as int));
        }
    }
    if a.tmdb_id is None && b.tmdb_id is None {
        let x = cluster_key(a).skip(q.len() as int);
        let y = cluster_key(b).skip(q.len() as int);
        assert(x =~= (match a.claimed_title {
            Some(title) => title@,
            None => "Unknown"@,
        }));
        assert(y =~= (match b.claimed_title {
            Some(title) => title@,
            None => "Unknown"@,
        }));
    }
}

/// The files of a group that are compared with each other are at least two, all of the collection,
/// fingerprinted and not being transcoded or verified, and all of one programme.
pub proof fn candidates_are_of_one_programme(
    r: Seq<Group>,
    files: Seq<File>,
    dvr_id: u128,
    g: int,
    k: int,
    l: int,
)
    requires
        are_candidates(r, files, dvr_id),
        0 <= g < r.len(),
        0 <= k < l < r[g].members@.len(),
    ensures
        ({
            let a = files[r[g].members@[k] as int];
            let b = files[r[g].members@[l] as int];
            &&& r[g].members@[k] < r[g].members@[l] < files.len()
            &&& a.dvr_id == Some(dvr_id) && b.dvr_id == Some(dvr_id)
            &&& a.fingerprinted_at is Some && b.fingerprinted_at is Some
            &&& a.transcode_status != TranscodeStatus::Transcoding
            &&& a.transcode_status != TranscodeStatus::Verifying
            &&& b.transcode_status != TranscodeStatus::Transcoding
            &&& b.transcode_status != TranscodeStatus::Verifying
            &&& same_programme(a, b)
        }),
{
    let (keys, groups) = choose|keys: Seq<Option<String>>, groups: Seq<Group>|
        {
            &&& are_keys(keys, files, dvr_id)
            &&& #[trigger] is_grouping(groups, keys, keys.len() as int)
            &&& r.len() == large_groups(groups, groups.len() as int).len()
            &&& forall|k: int|
                0 <= k < r.len() ==> same_group(
                    #[trigger] r[k],
                    groups[large_groups(groups, groups.len() as int)[k]],
                )
        };
    let at = large_groups(groups, groups.len() as int)[g];
    lemma_large_groups(groups, groups.len() as int, g);
    assert(same_group(r[g], groups[at]));
    assert(is_group(groups[at], keys, keys.len() as int));
    let i = groups[at].members@[k] as int;
    let j = groups[at].members@[l] as int;
    assert(text_of(keys[i]) == wanted_key(files[i], dvr_id));
    assert(text_of(keys[j]) == wanted_key(files[j], dvr_id));
    lemma_key_tells_the_programme(files[i], files[j]);
}

proof fn lemma_large_groups(groups: Seq<Group>, n: int, k: int)
    requires
        0 <= n <= groups.len(),
        0 <= k < large_groups(groups, n).len(),
    ensures
        0 <= large_groups(groups, n)[k] < n,
        groups[large_groups(groups, n)[k]].members@.len() >= 2,
    decreases n,
{
    if n > 0 && k < large_groups(groups, n - 1).len() {
        lemma_large_groups(groups, n - 1, k);
    }
}

proof fn lemma_large_group_is_listed(groups: Seq<Group>, n: int, g: int) -> (k: int)
    requires
        0 <= g < n <= groups.len(),
        groups[g].members@.len() >= 2,
    ensures
        0 <= k < large_groups(groups, n).len(),
        large_groups(groups, n)[k] == g,
    decreases n,
{
    if g == n - 1 {
        large_groups(groups, n - 1).len() as int
    } else {
        lemma_large_group_is_listed(groups, n - 1, g)
    }
}

/// Two files of the collection that are fingerprinted, not being transcoded or verified, and of one
/// programme, are compared with each other.
pub proof fn files_of_one_programme_are_candidates(
    r: Seq<Group>,
    files: Seq<File>,
    dvr_id: u128,
    i: int,
    j: int,
) -> (g: int)
    requires
        files.len() <= usize::MAX,
        are_candidates(r, files, dvr_id),
        0 <= i < j < files.len(),
        files[i].dvr_id == Some(dvr_id) && files[j].dvr_id == Some(dvr_id),
        files[i].fingerprinted_at is Some && files[j].fingerprinted_at is Some,
        files[i].transcode_status != TranscodeStatus::Transcoding,
        files[i].transcode_status != TranscodeStatus::Verifying,
        files[j].transcode_status != TranscodeStatus::Transcoding,
        files[j].transcode_status != TranscodeStatus::Verifying,
        same_programme(files[i], files[j]),
    ensures
        0 <= g < r.len(),
        r[g].members@.contains(i as usize),
        r[g].members@.contains(j as usize),
{
    let (keys, groups) = choose|keys: Seq<Option<String>>, groups: Seq<Group>|
        {
            &&& are_keys(keys, files, dvr_id)
            &&& #[trigger] is_grouping(groups, keys, keys.len() as int)
            &&& r.len() == large_groups(groups, groups.len() as int).len()
            &&& forall|k: int|
                0 <= k < r.len() ==> same_group(
                    #[trigger] r[k],
                    groups[large_groups(groups, groups.len() as int)[k]],
                )
        };
    assert(text_of(keys[i]) == wanted_key(files[i], dvr_id));
    assert(text_of(keys[j]) == wanted_key(files[j], dvr_id));
    lemma_key_tells_the_programme(files[i], files[j]);
    assert(has_group(groups, keys[i]->0@));
    let at = choose|at: int|
        0 <= at < groups.len() && (#[trigger] groups[at]).key@ == keys[i]->0@;
    assert(is_group(groups[at], keys, keys.len() as int));
    let members = groups[at].members@;
    assert(members.contains(i as usize));
    assert(members.contains(j as usize));
    let a = choose|a: int| 0 <= a < members.len() && members[a] == i as usize;
    let b = choose|b: int| 0 <= b < members.len() && members[b] == j as usize;
    assert(a != b);
    let g = lemma_large_group_is_listed(groups, groups.len() as int, at);
    assert(same_group(r[g], groups[at]));
    g
}

/// The hash of every row is among those of its file, and a file has no hash but those of its rows. The
/// hash of the last row comes last.
pub proof fn hashes_stay_with_their_file(
    rows: Seq<(u128, Vec<u8>)>,
    file_id: u128,
    n: int,
    hash: Seq<u8>,
)
    requires
        0 <= n <= rows.len(),
    ensures
        hashes_of(rows, file_id, n).contains(hash) <==> exists|i: int|
            0 <= i < n && (#[trigger] rows[i]).0 == file_id && rows[i].1@ == hash,
        n > 0 && rows[n - 1].0 == file_id ==> hashes_of(rows, file_id, n).last() == rows[n - 1].1@,
    decreases n,
{
    let now = hashes_of(rows, file_id, n);
    if n > 0 {
        hashes_stay_with_their_file(rows, file_id, n - 1, hash);
        let before = hashes_of(rows, file_id, n - 1);
        if before.contains(hash) {
            let k = choose|k: int| 0 <= k < before.len() && before[k] == hash;
            assert(now[k] == hash);
        }
        if rows[n - 1].0 == file_id {
            assert(now[before.len() as int] == rows[n - 1].1@);
        }
        if now.contains(hash) {
            let k = choose|k: int| 0 <= k < now.len() && now[k] == hash;
            if k < before.len() {
                assert(before[k] == hash);
            }
        }
    }
}

/// The score of a file is that of the first match in which it takes part, on either side.
pub proof fn first_match_gives_the_score(
    matches: Seq<SimilarityMatch>,
    file_id: u128,
    n: int,
) -> (i: int)
    requires
        0 <= n <= matches.len(),
        score_in(matches, file_id, n) is Some,
    ensures
        0 <= i < n,
        score_in(matches, file_id, n) == Some(matches[i].score),
        matches[i].file_a == file_id || matches[i].file_b == file_id,
        forall|j: int|
            0 <= j < i ==> (#[trigger] matches[j]).file_a != file_id && matches[j].file_b
                != file_id,
    decreases n,
{
    if score_in(matches, file_id, n - 1) is Some {
        first_match_gives_the_score(matches, file_id, n - 1)
    } else {
        assert forall|j: int| 0 <= j < n - 1 implies (#[trigger] matches[j]).file_a != file_id
            && matches[j].file_b != file_id by {
            if matches[j].file_a == file_id || matches[j].file_b == file_id {
                lemma_matched_file_has_a_score(matches, n - 1, j, file_id);
            }
        }
        n - 1
    }
}

/// The record of a membership tells the cluster and the file.
pub proof fn memberships_tell_cluster_and_file(
    row: NewClusterMember,
    cluster_a: u128,
    cluster_b: u128,
    file_a: u128,
    file_b: u128,
    matches: Seq<SimilarityMatch>,
)
    requires
        is_membership(row, cluster_a, file_a, matches),
        is_membership(row, cluster_b, file_b, matches),
    ensures
        cluster_a == cluster_b,
        file_a == file_b,
        (exists|i: int|
            0 <= i < matches.len() && ((#[trigger] matches[i]).file_a == file_a
                || matches[i].file_b == file_a)) ==> row.similarity_score is Some,
{
    if exists|i: int|
        0 <= i < matches.len() && ((#[trigger] matches[i]).file_a == file_a || matches[i].file_b
            == file_a) {
        let i = choose|i: int|
            0 <= i < matches.len() && ((#[trigger] matches[i]).file_a == file_a
                || matches[i].file_b == file_a);
        lemma_matched_file_has_a_score(matches, matches.len() as int, i, file_a);
    }
}

}

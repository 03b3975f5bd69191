//! Grouping of items by a key.
use crate::text::{same, text_of};
use vstd::prelude::*;

verus! {

/// The positions of the items with one key.
#[derive(Debug, Clone)]
pub struct Group {
    pub key: String,
    pub members: Vec<usize>,
}

/// The positions ascend.
pub open spec fn ascends(members: Seq<usize>) -> bool {
    forall|a: int, b: int|
        0 <= a < b < members.len() ==> (#[trigger] members[a]) < (#[trigger] members[b])
}

/// `group` holds, in order, exactly those of the first `n` positions that have its key, and at
/// least one.
pub open spec fn is_group(group: Group, keys: Seq<Option<String>>, n: int) -> bool {
    &&& group.members@.len() > 0
    &&& ascends(group.members@)
    &&& forall|k: int|
        0 <= k < group.members@.len() ==> (#[trigger] group.members@[k]) < n && text_of(
            keys[group.members@[k] as int],
        ) == Some(group.key@)
    &&& forall|i: int|
        #![trigger keys[i]]
        0 <= i < n && text_of(keys[i]) == Some(group.key@) ==> group.members@.contains(i as usize)
}

/// One of the groups has the given key.
pub open spec fn has_group(groups: Seq<Group>, key: Seq<char>) -> bool {
    exists|g: int| 0 <= g < groups.len() && (#[trigger] groups[g]).key@ == key
}

/// `groups` are the first `n` items grouped by their keys, in the order in which the keys first
/// appear. Items without a key are left out.
pub open spec fn is_grouping(groups: Seq<Group>, keys: Seq<Option<String>>, n: int) -> bool {
    &&& forall|g: int| 0 <= g < groups.len() ==> is_group(#[trigger] groups[g], keys, n)
    &&& forall|g: int, h: int|
        0 <= g < h < groups.len() ==> {
            &&& (#[trigger] groups[g]).key@ != (#[trigger] groups[h]).key@
            &&& groups[g].members@[0] < groups[h].members@[0]
        }
    &&& forall|i: int|
        #![trigger keys[i]]
        0 <= i < n && keys[i] is Some ==> has_group(groups, keys[i]->0@)
}

/// Groups items by their keys.
pub fn group_by_key(keys: &Vec<Option<String>>) -> (groups: Vec<Group>)
    ensures
        is_grouping(groups@, keys@, keys@.len() as int),
{
    let mut groups: Vec<Group> = Vec::new();
    for i in 0..keys.len()
        invariant
            is_grouping(groups@, keys@, i as int),
    {
        if let Some(key) = &keys[i] {
            insert(&mut groups, keys, key, i);
        } else {
            proof {
                lemma_no_key(groups@, keys@, i as int);
            }
        }
    }
    groups
}

proof fn lemma_no_key(groups: Seq<Group>, keys: Seq<Option<String>>, n: int)
    requires
        0 <= n < keys.len(),
        is_grouping(groups, keys, n),
        keys[n] is None,
    ensures
        is_grouping(groups, keys, n + 1),
{
    assert forall|g: int| 0 <= g < groups.len() implies is_group(
        #[trigger] groups[g],
        keys,
        n + 1,
    ) by {
        assert(is_group(groups[g], keys, n));
    }
}

fn insert(groups: &mut Vec<Group>, keys: &Vec<Option<String>>, key: &str, i: usize)
    requires
        i < keys@.len(),
        text_of(keys@[i as int]) == Some(key@),
        is_grouping(old(groups)@, keys@, i as int),
    ensures
        is_grouping(final(groups)@, keys@, i + 1),
{
    let ghost before = groups@;
    let mut at: Option<usize> = None;
    for g in 0..groups.len()
        invariant
            groups@ == before,
            match at {
                Some(k) => k < g && before[k as int].key@ == key@,
                None => forall|k: int| 0 <= k < g ==> (#[trigger] before[k]).key@ != key@,
            },
    {
        if same(&groups[g].key, key) {
            at = Some(g);
        }
    }
    match at {
        Some(g) => {
            assert(is_group(before[g as int], keys@, i as int));
            groups[g].members.push(i);
            let ghost after = groups@;
            proof {
                lemma_joined(before, after, keys@, i as int, g as int);
            }
        },
        None => {
            let mut members: Vec<usize> = Vec::new();
            members.push(i);
            groups.push(Group { key: key.to_owned(), members });
            let ghost after = groups@;
            proof {
                lemma_added(before, after, keys@, i as int);
            }
        },
    }
}

proof fn lemma_joined(
    before: Seq<Group>,
    after: Seq<Group>,
    keys: Seq<Option<String>>,
    n: int,
    g: int,
)
    requires
        0 <= n < keys.len(),
        n <= usize::MAX,
        is_grouping(before, keys, n),
        0 <= g < before.len(),
        text_of(keys[n]) == Some(before[g].key@),
        after.len() == before.len(),
        after[g].key == before[g].key,
        after[g].members@ == before[g].members@.push(n as usize),
        forall|h: int| 0 <= h < before.len() && h != g ==> after[h] == before[h],
    ensures
        is_grouping(after, keys, n + 1),
{
    assert forall|h: int| 0 <= h < after.len() implies is_group(
        #[trigger] after[h],
        keys,
        n + 1,
    ) by {
        assert(is_group(before[h], keys, n));
        if h == g {
            assert forall|i: int|
                #![trigger keys[i]]
                0 <= i < n + 1 && text_of(keys[i]) == Some(after[h].key@) implies after[h].members@.contains(
                i as usize,
            ) by {
                if i < n {
                    assert(before[h].members@.contains(i as usize));
                    let k = choose|k: int|
                        0 <= k < before[h].members@.len() && before[h].members@[k] == i as usize;
                    assert(after[h].members@[k] == i as usize);
                } else {
                    assert(after[h].members@[before[h].members@.len() as int] == n as usize);
                }
            }
        } else {
            let (a, b) = if h < g {
                (h, g)
            } else {
                (g, h)
            };
            assert(before[a].key@ != before[b].key@);
        }
    }
    assert forall|a: int, b: int| 0 <= a < b < after.len() implies {
        &&& (#[trigger] after[a]).key@ != (#[trigger] after[b]).key@
        &&& after[a].members@[0] < after[b].members@[0]
    } by {
        assert(is_group(before[a], keys, n));
        assert(is_group(before[b], keys, n));
        assert(before[a].key@ != before[b].key@);
    }
    assert forall|i: int|
        #![trigger keys[i]]
        0 <= i < n + 1 && keys[i] is Some implies has_group(after, keys[i]->0@) by {
        if i < n {
            assert(has_group(before, keys[i]->0@));
            let h = choose|h: int|
                0 <= h < before.len() && (#[trigger] before[h]).key@ == keys[i]->0@;
            assert(after[h].key@ == keys[i]->0@);
        } else {
            assert(after[g].key@ == keys[i]->0@);
        }
    }
}

proof fn lemma_added(before: Seq<Group>, after: Seq<Group>, keys: Seq<Option<String>>, n: int)
    requires
        0 <= n < keys.len(),
        n <= usize::MAX,
        is_grouping(before, keys, n),
        keys[n] is Some,
        forall|h: int| 0 <= h < before.len() ==> (#[trigger] before[h]).key@ != keys[n]->0@,
        after.len() == before.len() + 1,
        forall|h: int| 0 <= h < before.len() ==> after[h] == before[h],
        after.last().key@ == keys[n]->0@,
        after.last().members@ == seq![n as usize],
    ensures
        is_grouping(after, keys, n + 1),
{
    let g = before.len() as int;
    assert(!has_group(before, keys[n]->0@));
    assert forall|h: int| 0 <= h < after.len() implies is_group(
        #[trigger] after[h],
        keys,
        n + 1,
    ) by {
        if h < g {
            assert(is_group(before[h], keys, n));
        } else {
            assert forall|i: int|
                #![trigger keys[i]]
                0 <= i < n + 1 && text_of(keys[i]) == Some(after[h].key@) implies after[h].members@.contains(
                i as usize,
            ) by {
                if i < n {
                    assert(has_group(before, keys[i]->0@));
                } else {
                    assert(after[h].members@[0] == n as usize);
                }
            }
        }
    }
    assert forall|a: int, b: int| 0 <= a < b < after.len() implies {
        &&& (#[trigger] after[a]).key@ != (#[trigger] after[b]).key@
        &&& after[a].members@[0] < after[b].members@[0]
    } by {
        assert(is_group(before[a], keys, n));
        if b < g {
            assert(before[a].key@ != before[b].key@);
        } else {
            assert(before[a].members@[0] < n);
        }
    }
    assert forall|i: int|
        #![trigger keys[i]]
        0 <= i < n + 1 && keys[i] is Some implies has_group(after, keys[i]->0@) by {
        if i < n {
            assert(has_group(before, keys[i]->0@));
            let h = choose|h: int|
                0 <= h < before.len() && (#[trigger] before[h]).key@ == keys[i]->0@;
            assert(after[h].key@ == keys[i]->0@);
        } else {
            assert(after[g].key@ == keys[i]->0@);
        }
    }
}

/// No item is in two groups.
pub proof fn groups_are_disjoint(
    groups: Seq<Group>,
    keys: Seq<Option<String>>,
    n: int,
    g: int,
    h: int,
    i: usize,
)
    requires
        is_grouping(groups, keys, n),
        0 <= g < h < groups.len(),
        groups[g].members@.contains(i),
    ensures
        !groups[h].members@.contains(i),
{
    assert(is_group(groups[g], keys, n));
    assert(is_group(groups[h], keys, n));
    assert(groups[g].key@ != groups[h].key@);
}

}

//! Grouping of similar files.
use crate::db::models::File;
use crate::order::{stable_order, SortKey};
use crate::scanner::fingerprint::{
    countable, hamming, hamming_is_symmetric, hamming_zero_means_equal, Fingerprinter,
};
use crate::score::{reaching, Score, EIGHTY_FIVE_PERCENT};
use std::collections::HashMap;
use vstd::prelude::*;

verus! {

broadcast use vstd::std_specs::hash::group_hash_axioms;

/// Two files whose fingerprints are alike.
#[derive(Debug, Clone, Copy)]
pub struct SimilarityMatch {
    pub file_a: u128,
    pub file_b: u128,
    pub score: Score,
}

/// Builds clusters out of pairs of files that are alike at least to a threshold.
pub struct ClusterBuilder {
    pub threshold: Score,
}

/// One of the matches joins `x` and `y`.
pub open spec fn linked(matches: Seq<SimilarityMatch>, x: u128, y: u128) -> bool {
    exists|i: int| #[trigger] joins(matches, i, x, y)
}

/// Match number `i` joins `x` and `y`.
pub open spec fn joins(matches: Seq<SimilarityMatch>, i: int, x: u128, y: u128) -> bool {
    0 <= i < matches.len() && ({
        ||| matches[i].file_a == x && matches[i].file_b == y
        ||| matches[i].file_a == y && matches[i].file_b == x
    })
}

/// Each file of `path` is linked to the next.
pub open spec fn is_chain(matches: Seq<SimilarityMatch>, path: Seq<u128>) -> bool {
    path.len() > 0 && forall|i: int|
        0 <= i < path.len() - 1 ==> linked(matches, #[trigger] path[i], path[i + 1])
}

/// A chain of matches leads from `x` to `y`.
pub open spec fn connected(matches: Seq<SimilarityMatch>, x: u128, y: u128) -> bool {
    exists|path: Seq<u128>| #[trigger]
        is_chain(matches, path) && path.first() == x && path.last() == y
}

/// `clusters` are the groups of connected files that have more than one member: every group is
/// there once, whole, and without repetitions.
pub open spec fn is_clustering(
    matches: Seq<SimilarityMatch>,
    clusters: Seq<Vec<u128>>,
) -> bool {
    &&& forall|i: int|
        0 <= i < clusters.len() ==> (#[trigger] clusters[i])@.len() > 1
            && clusters[i]@.no_duplicates()
    &&& forall|i: int, x: u128, y: u128|
        0 <= i < clusters.len() && #[trigger] clusters[i]@.contains(x) ==> (
        #[trigger] clusters[i]@.contains(y) <==> connected(matches, x, y))
    &&& forall|i: int, j: int, x: u128|
        0 <= i < j < clusters.len() && #[trigger] clusters[i]@.contains(x)
            ==> !#[trigger] clusters[j]@.contains(x)
    &&& forall|x: u128, y: u128|
        x != y && #[trigger] connected(matches, x, y) ==> in_some_cluster(clusters, x)
}

/// `x` is a member of one of the clusters.
pub open spec fn in_some_cluster(clusters: Seq<Vec<u128>>, x: u128) -> bool {
    exists|i: int| 0 <= i < clusters.len() && #[trigger] clusters[i]@.contains(x)
}

/// Every file is connected to itself.
pub proof fn connected_is_reflexive(matches: Seq<SimilarityMatch>, x: u128)
    ensures
        connected(matches, x, x),
{
    let path = seq![x];
    assert(is_chain(matches, path));
    assert(path.first() == x && path.last() == x);
}

/// Connection goes both ways.
pub proof fn connected_is_symmetric(matches: Seq<SimilarityMatch>, x: u128, y: u128)
    requires
        connected(matches, x, y),
    ensures
        connected(matches, y, x),
{
    let path = choose|path: Seq<u128>| #[trigger]
        is_chain(matches, path) && path.first() == x && path.last() == y;
    let back = path.reverse();
    assert forall|i: int| 0 <= i < back.len() - 1 implies linked(
        matches,
        #[trigger] back[i],
        back[i + 1],
    ) by {
        let j = path.len() - 2 - i;
        assert(back[i] == path[j + 1]);
        assert(back[i + 1] == path[j]);
        assert(linked(matches, path[j], path[j + 1]));
        let k = choose|k: int| #[trigger] joins(matches, k, path[j], path[j + 1]);
        assert(joins(matches, k, path[j + 1], path[j]));
    }
    assert(is_chain(matches, back));
    assert(back.first() == y && back.last() == x);
}

/// Connection carries over from file to file.
pub proof fn connected_is_transitive(matches: Seq<SimilarityMatch>, x: u128, y: u128, z: u128)
    requires
        connected(matches, x, y),
        connected(matches, y, z),
    ensures
        connected(matches, x, z),
{
    let p = choose|path: Seq<u128>| #[trigger]
        is_chain(matches, path) && path.first() == x && path.last() == y;
    let q = choose|path: Seq<u128>| #[trigger]
        is_chain(matches, path) && path.first() == y && path.last() == z;
    let whole = p + q.skip(1);
    assert forall|i: int| 0 <= i < whole.len() - 1 implies linked(
        matches,
        #[trigger] whole[i],
        whole[i + 1],
    ) by {
        if i < p.len() - 1 {
            assert(whole[i] == p[i] && whole[i + 1] == p[i + 1]);
        } else {
            let j = i - (p.len() - 1);
            assert(whole[i] == q[j]);
            assert(whole[i + 1] == q[j + 1]);
        }
    }
    assert(is_chain(matches, whole));
    assert(whole.first() == x);
    assert(whole.last() == z);
}

proof fn lemma_joined_are_connected(matches: Seq<SimilarityMatch>, i: int)
    requires
        0 <= i < matches.len(),
    ensures
        connected(matches, matches[i].file_a, matches[i].file_b),
{
    let path = seq![matches[i].file_a, matches[i].file_b];
    assert(joins(matches, i, path[0], path[1]));
    assert(linked(matches, path[0], path[1]));
    assert(is_chain(matches, path));
    assert(path.first() == matches[i].file_a && path.last() == matches[i].file_b);
}

/// A forest over file ids: every id points to its parent, a root to itself.
struct Forest {
    parent: HashMap<u128, u128>,
    /// The ids of the forest in the order in which they came.
    ids: Vec<u128>,
    /// The root of each id.
    root: Ghost<Map<u128, u128>>,
    /// A measure that falls on the way to the root.
    depth: Ghost<Map<u128, nat>>,
}

/// `x` is in order: its parent and its root are there, and the way to the root goes over the
/// parent.
spec fn node_ok(
    p: Map<u128, u128>,
    root: Map<u128, u128>,
    depth: Map<u128, nat>,
    x: u128,
) -> bool {
    &&& p.dom().contains(p[x])
    &&& p.dom().contains(root[x])
    &&& p[root[x]] == root[x]
    &&& root[p[x]] == root[x]
    &&& p[x] == x ==> root[x] == x && depth[x] == 0
    &&& p[x] != x ==> depth[p[x]] < depth[x]
}

impl Forest {
    spec fn holds(&self, x: u128) -> bool {
        self.parent@.dom().contains(x)
    }

    spec fn wf(&self) -> bool {
        &&& self.root@.dom() == self.parent@.dom()
        &&& self.depth@.dom() == self.parent@.dom()
        &&& self.listed()
        &&& forall|x: u128|
            self.holds(x) ==> #[trigger] node_ok(self.parent@, self.root@, self.depth@, x)
    }

    /// The list of ids is the forest's set of ids.
    spec fn listed(&self) -> bool {
        &&& self.ids@.no_duplicates()
        &&& forall|x: u128| self.ids@.contains(x) <==> #[trigger] self.holds(x)
    }

    /// Ids with one root are connected.
    spec fn sound(&self, matches: Seq<SimilarityMatch>) -> bool {
        forall|x: u128, y: u128|
            self.holds(x) && self.holds(y) && #[trigger] self.root@[x] == #[trigger] self.root@[y]
                ==> connected(matches, x, y)
    }

    fn new() -> (r: Self)
        ensures
            r.wf(),
            r.parent@ == Map::<u128, u128>::empty(),
    {
        Forest {
            parent: HashMap::new(),
            ids: Vec::new(),
            root: Ghost(Map::empty()),
            depth: Ghost(Map::empty()),
        }
    }

    /// Finds the root of `x`, which joins the forest as its own root where it was not there.
    /// The ids on the way point to the root afterwards.
    fn find(&mut self, x: u128) -> (r: u128)
        requires
            old(self).wf(),
        ensures
            final(self).wf(),
            old(self).holds(x) ==> final(self).root@ == old(self).root@ && final(self).depth@
                == old(self).depth@ && final(self).ids@ == old(self).ids@,
            !old(self).holds(x) ==> final(self).root@ == old(self).root@.insert(x, x),
            r == final(self).root@[x],
            final(self).holds(x),
        decreases
            (if old(self).holds(x) {
                old(self).depth@[x]
            } else {
                0
            }),
    {
        let ghost before = *self;
        match self.parent.get(&x) {
            None => {
                self.parent.insert(x, x);
                self.ids.push(x);
                self.root = Ghost(self.root@.insert(x, x));
                self.depth = Ghost(self.depth@.insert(x, 0));
                proof {
                    let ids = before.ids@;
                    assert(!before.holds(x));
                    assert(!ids.contains(x));
                    assert forall|y: u128| self.ids@.contains(y) <==> #[trigger] self.holds(y) by {
                        assert(before.holds(y) <==> ids.contains(y));
                        if ids.contains(y) {
                            let k = choose|k: int| 0 <= k < ids.len() && ids[k] == y;
                            assert(self.ids@[k] == y);
                        }
                        if y == x {
                            assert(self.ids@[ids.len() as int] == x);
                        }
                    }
                    assert forall|y: u128| self.holds(y) implies #[trigger] node_ok(
                        self.parent@,
                        self.root@,
                        self.depth@,
                        y,
                    ) by {
                        if y != x {
                            assert(before.holds(y));
                            assert(node_ok(before.parent@, before.root@, before.depth@, y));
                        }
                    }
                }
                x
            },
            Some(parent) => {
                let p: u128 = *parent;
                assert(node_ok(before.parent@, before.root@, before.depth@, x));
                if p == x {
                    x
                } else {
                    assert(self.holds(p));
                    let root = self.find(p);
                    let ghost mid = *self;
                    self.parent.insert(x, root);
                    proof {
                        assert(mid.parent@.dom() == before.parent@.dom());
                        assert(self.parent@.dom() =~= mid.parent@.dom());
                        assert(root == before.root@[x]);
                        assert(node_ok(mid.parent@, mid.root@, mid.depth@, x));
                        assert forall|y: u128| self.holds(y) implies #[trigger] node_ok(
                            self.parent@,
                            self.root@,
                            self.depth@,
                            y,
                        ) by {
                            assert(mid.holds(y));
                            assert(node_ok(mid.parent@, mid.root@, mid.depth@, y));
                            assert(node_ok(mid.parent@, mid.root@, mid.depth@, root));
                        }
                        assert(self.listed()) by {
                            assert forall|y: u128|
                                self.ids@.contains(y) <==> #[trigger] self.holds(y) by {
                                assert(mid.ids@.contains(y) <==> mid.holds(y));
                            }
                        }
                    }
                    root
                }
            },
        }
    }

    /// A new id of its own keeps ids with one root connected.
    proof fn lemma_grown_is_sound(before: Self, after: Self, x: u128, matches: Seq<SimilarityMatch>)
        requires
            before.wf(),
            after.wf(),
            before.sound(matches),
            before.holds(x) ==> after.root@ == before.root@,
            !before.holds(x) ==> after.root@ == before.root@.insert(x, x),
        ensures
            after.sound(matches),
    {
        assert forall|y: u128, z: u128|
            after.holds(y) && after.holds(z) && #[trigger] after.root@[y]
                == #[trigger] after.root@[z] implies connected(matches, y, z) by {
            connected_is_reflexive(matches, y);
            assert(after.root@.dom().contains(y) && after.root@.dom().contains(z));
            if before.holds(y) {
                assert(node_ok(before.parent@, before.root@, before.depth@, y));
            }
            if before.holds(z) {
                assert(node_ok(before.parent@, before.root@, before.depth@, z));
            }
            if before.holds(y) && before.holds(z) {
                assert(before.root@[y] == before.root@[z]);
            }
        }
    }

    /// Brings the trees of `a` and `b` together.
    fn union(&mut self, a: u128, b: u128, matches: Ghost<Seq<SimilarityMatch>>)
        requires
            old(self).wf(),
            old(self).sound(matches@),
            connected(matches@, a, b),
        ensures
            final(self).wf(),
            final(self).sound(matches@),
            final(self).holds(a),
            final(self).holds(b),
            final(self).root@[a] == final(self).root@[b],
            forall|x: u128, y: u128|
                old(self).holds(x) && old(self).holds(y) && #[trigger] old(self).root@[x]
                    == #[trigger] old(self).root@[y] ==> final(self).root@[x]
                    == final(self).root@[y],
            forall|x: u128| #[trigger]
                final(self).holds(x) <==> old(self).holds(x) || x == a || x == b,
    {
        let ghost m = matches@;
        let ghost first = *self;
        let root_a = self.find(a);
        let ghost second = *self;
        let root_b = self.find(b);
        proof {
            Self::lemma_grown_is_sound(first, second, a, m);
            Self::lemma_grown_is_sound(second, *self, b, m);
            assert forall|x: u128| #[trigger] self.holds(x) <==> first.holds(x) || x == a || x == b by {
                assert(self.root@.dom().contains(x) <==> first.root@.dom().contains(x) || x == a
                    || x == b);
            }
        }
        if root_a != root_b {
            let ghost mid = *self;
            self.parent.insert(root_a, root_b);
            self.root = Ghost(
                Map::new(
                    |x: u128| mid.root@.dom().contains(x),
                    |x: u128|
                        if mid.root@[x] == root_a {
                            root_b
                        } else {
                            mid.root@[x]
                        },
                ),
            );
            self.depth = Ghost(
                Map::new(
                    |x: u128| mid.depth@.dom().contains(x),
                    |x: u128|
                        if mid.root@[x] == root_a {
                            mid.depth@[x] + 1
                        } else {
                            mid.depth@[x]
                        },
                ),
            );
            proof {
                assert(node_ok(mid.parent@, mid.root@, mid.depth@, a));
                assert(node_ok(mid.parent@, mid.root@, mid.depth@, b));
                assert(node_ok(mid.parent@, mid.root@, mid.depth@, root_a));
                assert(node_ok(mid.parent@, mid.root@, mid.depth@, root_b));
                assert(self.parent@.dom() =~= mid.parent@.dom());
                assert(self.root@.dom() =~= mid.parent@.dom());
                assert(self.depth@.dom() =~= mid.parent@.dom());
                assert(self.listed()) by {
                    assert forall|y: u128| self.ids@.contains(y) <==> #[trigger] self.holds(y) by {
                        assert(mid.ids@.contains(y) <==> mid.holds(y));
                    }
                }
                assert forall|x: u128| self.holds(x) implies #[trigger] node_ok(
                    self.parent@,
                    self.root@,
                    self.depth@,
                    x,
                ) by {
                    assert(mid.holds(x));
                    assert(node_ok(mid.parent@, mid.root@, mid.depth@, x));
                    assert(node_ok(mid.parent@, mid.root@, mid.depth@, mid.parent@[x]));
                }
                assert forall|x: u128, y: u128|
                    self.holds(x) && self.holds(y) && #[trigger] self.root@[x]
                        == #[trigger] self.root@[y] implies connected(m, x, y) by {
                    if mid.root@[x] != mid.root@[y] {
                        connected_is_symmetric(m, a, b);
                        if mid.root@[x] == root_a {
                            assert(connected(m, x, a));
                            assert(connected(m, b, y));
                            connected_is_transitive(m, x, a, b);
                            connected_is_transitive(m, x, b, y);
                        } else {
                            assert(connected(m, x, b));
                            assert(connected(m, a, y));
                            connected_is_transitive(m, x, b, a);
                            connected_is_transitive(m, x, a, y);
                        }
                    }
                }
            }
        }
    }
}

/// The two files of every match have one root.
spec fn complete(forest: Forest, matches: Seq<SimilarityMatch>, n: int) -> bool {
    forall|i: int|
        0 <= i < n ==> forest.holds((#[trigger] matches[i]).file_a) && forest.holds(
            matches[i].file_b,
        ) && forest.root@[matches[i].file_a] == forest.root@[matches[i].file_b]
}

proof fn lemma_chain_has_one_root(
    forest: Forest,
    matches: Seq<SimilarityMatch>,
    path: Seq<u128>,
    k: int,
)
    requires
        complete(forest, matches, matches.len() as int),
        is_chain(matches, path),
        path.len() > 1,
        0 <= k < path.len(),
    ensures
        forest.holds(path[0]),
        forest.holds(path[k]),
        forest.root@[path[0]] == forest.root@[path[k]],
    decreases k,
{
    assert(linked(matches, path[0], path[1]));
    let i = choose|i: int| #[trigger] joins(matches, i, path[0], path[1]);
    assert(forest.holds(matches[i].file_a));
    if k > 0 {
        lemma_chain_has_one_root(forest, matches, path, k - 1);
        assert(linked(matches, path[k - 1], path[k - 1 + 1]));
        let j = choose|j: int| #[trigger] joins(matches, j, path[k - 1], path[k - 1 + 1]);
        assert(forest.holds(matches[j].file_a));
    }
}

/// Connected files have one root.
proof fn lemma_connected_have_one_root(
    forest: Forest,
    matches: Seq<SimilarityMatch>,
    x: u128,
    y: u128,
)
    requires
        complete(forest, matches, matches.len() as int),
        connected(matches, x, y),
        x != y,
    ensures
        forest.holds(x),
        forest.holds(y),
        forest.root@[x] == forest.root@[y],
{
    let path = choose|path: Seq<u128>| #[trigger]
        is_chain(matches, path) && path.first() == x && path.last() == y;
    lemma_chain_has_one_root(forest, matches, path, path.len() - 1);
}

/// `groups` hold the first `n` ids of the forest, one group for each of `roots`.
spec fn grouped(forest: Forest, roots: Seq<u128>, groups: Seq<Vec<u128>>, n: int) -> bool {
    &&& roots.len() == groups.len()
    &&& roots.no_duplicates()
    &&& forall|g: int| 0 <= g < groups.len() ==> (#[trigger] groups[g])@.no_duplicates()
    &&& forall|g: int, x: u128|
        0 <= g < groups.len() ==> (#[trigger] groups[g]@.contains(x) <==> forest.ids@.take(
            n,
        ).contains(x) && forest.root@[x] == roots[g])
    &&& forall|k: int|
        0 <= k < n ==> roots.contains(forest.root@[#[trigger] forest.ids@[k]])
}

proof fn lemma_member_added(
    forest: Forest,
    roots: Seq<u128>,
    before: Seq<Vec<u128>>,
    after: Seq<Vec<u128>>,
    n: int,
    g: int,
)
    requires
        grouped(forest, roots, before, n),
        0 <= n < forest.ids@.len(),
        !forest.ids@.take(n).contains(forest.ids@[n]),
        0 <= g < before.len(),
        roots[g] == forest.root@[forest.ids@[n]],
        after.len() == before.len(),
        after[g]@ == before[g]@.push(forest.ids@[n]),
        forall|h: int| 0 <= h < before.len() && h != g ==> after[h] == before[h],
    ensures
        grouped(forest, roots, after, n + 1),
{
    let id = forest.ids@[n];
    let grown = forest.ids@.take(n + 1);
    assert(grown =~= forest.ids@.take(n).push(id));
    assert forall|x: u128| #[trigger] grown.contains(x) <==> forest.ids@.take(n).contains(x) || x
        == id by {
        lemma_push_contains(forest.ids@.take(n), id, x);
    }
    assert forall|h: int, x: u128| 0 <= h < after.len() implies (#[trigger] after[h]@.contains(
        x,
    ) <==> grown.contains(x) && forest.root@[x] == roots[h]) by {
        assert(before[h]@.contains(x) <==> forest.ids@.take(n).contains(x) && forest.root@[x]
            == roots[h]);
        if h == g {
            lemma_push_contains(before[g]@, id, x);
        } else {
            assert(roots[h] != roots[g]);
        }
    }
    assert forall|h: int| 0 <= h < after.len() implies (#[trigger] after[h])@.no_duplicates() by {
        if h == g {
            assert(!before[g]@.contains(id));
        }
    }
    assert forall|k: int| 0 <= k < n + 1 implies roots.contains(
        forest.root@[#[trigger] forest.ids@[k]],
    ) by {
        if k == n {
            assert(roots[g] == forest.root@[id]);
        }
    }
}

proof fn lemma_group_added(
    forest: Forest,
    roots: Seq<u128>,
    before: Seq<Vec<u128>>,
    more: Seq<u128>,
    after: Seq<Vec<u128>>,
    n: int,
)
    requires
        grouped(forest, roots, before, n),
        0 <= n < forest.ids@.len(),
        !forest.ids@.take(n).contains(forest.ids@[n]),
        !roots.contains(forest.root@[forest.ids@[n]]),
        more == roots.push(forest.root@[forest.ids@[n]]),
        after.len() == before.len() + 1,
        after.last()@ == seq![forest.ids@[n]],
        forall|h: int| 0 <= h < before.len() ==> after[h] == before[h],
    ensures
        grouped(forest, more, after, n + 1),
{
    let id = forest.ids@[n];
    let last = before.len() as int;
    let grown = forest.ids@.take(n + 1);
    assert(grown =~= forest.ids@.take(n).push(id));
    assert forall|x: u128| #[trigger] grown.contains(x) <==> forest.ids@.take(n).contains(x) || x
        == id by {
        lemma_push_contains(forest.ids@.take(n), id, x);
    }
    assert forall|h: int, x: u128| 0 <= h < after.len() implies (#[trigger] after[h]@.contains(
        x,
    ) <==> grown.contains(x) && forest.root@[x] == more[h]) by {
        if h < last {
            assert(before[h]@.contains(x) <==> forest.ids@.take(n).contains(x) && forest.root@[x]
                == roots[h]);
            assert(roots.contains(roots[h]));
        } else {
            assert(after[h]@.contains(x) <==> x == id) by {
                if x == id {
                    assert(after[h]@[0] == id);
                }
            }
            if forest.ids@.take(n).contains(x) {
                let k = choose|k: int|
                    0 <= k < forest.ids@.take(n).len() && forest.ids@.take(n)[k] == x;
                assert(forest.ids@[k] == x);
                assert(roots.contains(forest.root@[forest.ids@[k]]));
            }
        }
    }
    assert forall|h: int| 0 <= h < after.len() implies (#[trigger] after[h])@.no_duplicates() by {
        if h < last {
            assert(after[h] == before[h]);
        }
    }
    assert forall|k: int| 0 <= k < n + 1 implies more.contains(
        forest.root@[#[trigger] forest.ids@[k]],
    ) by {
        lemma_push_contains(roots, forest.root@[id], forest.root@[forest.ids@[k]]);
    }
}

proof fn lemma_push_contains(s: Seq<u128>, v: u128, x: u128)
    ensures
        s.push(v).contains(x) <==> s.contains(x) || x == v,
{
    if s.contains(x) {
        let k = choose|k: int| 0 <= k < s.len() && s[k] == x;
        assert(s.push(v)[k] == x);
    }
    if x == v {
        assert(s.push(v)[s.len() as int] == x);
    }
}

fn copy_ids(ids: &Vec<u128>) -> (r: Vec<u128>)
    ensures
        r@ == ids@,
{
    let mut out: Vec<u128> = Vec::new();
    for i in 0..ids.len()
        invariant
            out@ == ids@.take(i as int),
    {
        out.push(ids[i]);
    }
    out
}

fn position_of_root(roots: &Vec<u128>, root: u128) -> (r: Option<usize>)
    ensures
        match r {
            Some(g) => g < roots@.len() && roots@[g as int] == root,
            None => !roots@.contains(root),
        },
{
    for g in 0..roots.len()
        invariant
            forall|h: int| 0 <= h < g ==> roots@[h] != root,
    {
        if roots[g] == root {
            return Some(g);
        }
    }
    None
}

proof fn lemma_groups_are_clusters(
    forest: Forest,
    matches: Seq<SimilarityMatch>,
    roots: Seq<u128>,
    groups: Seq<Vec<u128>>,
    clusters: Seq<Vec<u128>>,
    from: Seq<int>,
)
    requires
        forest.wf(),
        forest.sound(matches),
        complete(forest, matches, matches.len() as int),
        grouped(forest, roots, groups, forest.ids@.len() as int),
        from.len() == clusters.len(),
        forall|c: int|
            0 <= c < from.len() ==> 0 <= #[trigger] from[c] < groups.len() && clusters[c]@
                == groups[from[c]]@ && clusters[c]@.len() > 1,
        forall|c: int, d: int| 0 <= c < d < from.len() ==> #[trigger] from[c] < #[trigger] from[d],
        forall|h: int|
            0 <= h < groups.len() && (#[trigger] groups[h])@.len() > 1 ==> from.contains(h),
    ensures
        is_clustering(matches, clusters),
{
    let n = forest.ids@.len() as int;
    assert(forest.ids@.take(n) =~= forest.ids@);
    assert forall|g: int, x: u128| 0 <= g < groups.len() implies (#[trigger] groups[g]@.contains(
        x,
    ) <==> forest.holds(x) && forest.root@[x] == roots[g]) by {
        assert(forest.ids@.contains(x) <==> forest.holds(x));
    }
    assert forall|i: int| 0 <= i < clusters.len() implies (#[trigger] clusters[i])@.len() > 1
        && clusters[i]@.no_duplicates() by {
        assert(groups[from[i]]@.no_duplicates());
    }
    assert forall|i: int, x: u128, y: u128|
        0 <= i < clusters.len() && #[trigger] clusters[i]@.contains(x) implies (
    #[trigger] clusters[i]@.contains(y) <==> connected(matches, x, y)) by {
        let g = from[i];
        assert(groups[g]@.contains(x));
        if clusters[i]@.contains(y) {
            assert(groups[g]@.contains(y));
            assert(forest.root@[x] == forest.root@[y]);
        }
        if connected(matches, x, y) && x != y {
            lemma_connected_have_one_root(forest, matches, x, y);
            assert(groups[g]@.contains(y));
        }
    }
    assert forall|i: int, j: int, x: u128|
        0 <= i < j < clusters.len() && #[trigger] clusters[i]@.contains(
            x,
        ) implies !#[trigger] clusters[j]@.contains(x) by {
        assert(groups[from[i]]@.contains(x));
        if clusters[j]@.contains(x) {
            assert(groups[from[j]]@.contains(x));
            assert(from[i] < from[j]);
            assert(roots[from[i]] == roots[from[j]]);
        }
    }
    assert forall|x: u128, y: u128|
        x != y && #[trigger] connected(matches, x, y) implies in_some_cluster(clusters, x) by {
        lemma_connected_have_one_root(forest, matches, x, y);
        assert(forest.ids@.contains(x));
        let k = choose|k: int| 0 <= k < forest.ids@.len() && forest.ids@[k] == x;
        assert(roots.contains(forest.root@[forest.ids@[k]]));
        let g = choose|g: int| 0 <= g < roots.len() && roots[g] == forest.root@[x];
        assert(groups[g]@.contains(x));
        assert(groups[g]@.contains(y));
        let a = choose|a: int| 0 <= a < groups[g]@.len() && groups[g]@[a] == x;
        let b = choose|b: int| 0 <= b < groups[g]@.len() && groups[g]@[b] == y;
        assert(a != b);
        assert(groups[g]@.len() > 1);
        assert(from.contains(g));
        let c = choose|c: int| 0 <= c < from.len() && from[c] == g;
        assert(clusters[c]@.contains(x));
    }
}

impl ClusterBuilder {
    /// A builder that takes files for similar from `threshold` on.
    pub fn new(threshold: Score) -> (r: Self)
        ensures
            r.threshold == threshold,
    {
        ClusterBuilder { threshold }
    }

    /// Groups the files that chains of matches connect. A file that is connected to no other file
    /// is in no cluster.
    pub fn build_clusters(&self, matches: &Vec<SimilarityMatch>) -> (clusters: Vec<Vec<u128>>)
        ensures
            is_clustering(matches@, clusters@),
    {
        let ghost m = matches@;
        let mut forest = Forest::new();
        for i in 0..matches.len()
            invariant
                m == matches@,
                forest.wf(),
                forest.sound(m),
                complete(forest, m, i as int),
        {
            let ghost before = forest;
            proof {
                lemma_joined_are_connected(m, i as int);
            }
            forest.union(matches[i].file_a, matches[i].file_b, Ghost(m));
            assert forall|k: int| 0 <= k < i + 1 implies forest.holds(
                (#[trigger] m[k]).file_a,
            ) && forest.holds(m[k].file_b) && forest.root@[m[k].file_a]
                == forest.root@[m[k].file_b] by {
                if k < i {
                    assert(before.holds(m[k].file_a) && before.holds(m[k].file_b));
                    assert(before.root@[m[k].file_a] == before.root@[m[k].file_b]);
                }
            }
        }
        let ghost built = forest;
        let mut roots: Vec<u128> = Vec::new();
        let mut groups: Vec<Vec<u128>> = Vec::new();
        let count: usize = forest.ids.len();
        for i in 0..count
            invariant
                count == forest.ids@.len(),
                forest.wf(),
                forest.root@ == built.root@,
                forest.ids@ == built.ids@,
                grouped(built, roots@, groups@, i as int),
        {
            let id = forest.ids[i];
            assert(forest.ids@.contains(id));
            assert(forest.holds(id));
            let root = forest.find(id);
            let ghost prior = groups@;
            let ghost prior_roots = roots@;
            assert(built.ids@.take(i + 1) =~= built.ids@.take(i as int).push(id));
            assert(!built.ids@.take(i as int).contains(id)) by {
                if built.ids@.take(i as int).contains(id) {
                    let k = choose|k: int|
                        0 <= k < built.ids@.take(i as int).len() && built.ids@.take(i as int)[k]
                            == id;
                    assert(built.ids@[k] == built.ids@[i as int]);
                }
            }
            match position_of_root(&roots, root) {
                Some(g) => {
                    groups[g].push(id);
                    proof {
                        lemma_member_added(built, prior_roots, prior, groups@, i as int, g as int);
                    }
                },
                None => {
                    let mut group: Vec<u128> = Vec::new();
                    group.push(id);
                    roots.push(root);
                    groups.push(group);
                    proof {
                        lemma_group_added(built, prior_roots, prior, roots@, groups@, i as int);
                    }
                },
            }
        }
        assert(built.ids@.take(count as int) =~= built.ids@);
        let mut clusters: Vec<Vec<u128>> = Vec::new();
        let ghost mut from: Seq<int> = Seq::empty();
        for g in 0..groups.len()
            invariant
                from.len() == clusters@.len(),
                forall|c: int|
                    0 <= c < from.len() ==> 0 <= #[trigger] from[c] < g && clusters@[c]@
                        == groups@[from[c]]@ && clusters@[c]@.len() > 1,
                forall|c: int, d: int|
                    0 <= c < d < from.len() ==> #[trigger] from[c] < #[trigger] from[d],
                forall|h: int|
                    0 <= h < g && (#[trigger] groups@[h])@.len() > 1 ==> from.contains(h),
        {
            let ghost prior = from;
            if groups[g].len() > 1 {
                clusters.push(copy_ids(&groups[g]));
                proof {
                    from = from.push(g as int);
                    assert(from[prior.len() as int] == g);
                }
            }
            assert forall|h: int|
                0 <= h < g + 1 && (#[trigger] groups@[h])@.len() > 1 implies from.contains(h) by {
                if h < g {
                    let c = choose|c: int| 0 <= c < prior.len() && prior[c] == h;
                    assert(from[c] == h);
                }
            }
        }
        proof {
            lemma_groups_are_clusters(built, m, roots@, groups@, clusters@, from);
        }
        clusters
    }
}

/// How far two frames are apart: the number of bits in which their hashes differ, which is the
/// greatest number where the hashes have different lengths, and the length of the first hash.
#[derive(Debug, Clone, Copy, PartialEq, Eq, Structural)]
pub struct FrameDistance {
    pub distance: u32,
    pub bytes: usize,
}

/// The distance of two frames.
pub open spec fn frame_distance(a: Seq<u8>, b: Seq<u8>) -> FrameDistance {
    FrameDistance {
        distance: if a.len() == b.len() {
            hamming(a, b) as u32
        } else {
            u32::MAX
        },
        bytes: a.len() as usize,
    }
}

/// The number of frames that two fingerprints have in common.
pub open spec fn common_frames(a: Seq<Vec<u8>>, b: Seq<Vec<u8>>) -> nat {
    if a.len() <= b.len() {
        a.len()
    } else {
        b.len()
    }
}

/// The distances of corresponding frames of two fingerprints.
pub open spec fn frame_distances(a: Seq<Vec<u8>>, b: Seq<Vec<u8>>) -> Seq<FrameDistance> {
    Seq::new(common_frames(a, b), |i: int| frame_distance(a[i]@, b[i]@))
}

/// The distances of corresponding frames can be counted.
pub open spec fn countable_frames(a: Seq<Vec<u8>>, b: Seq<Vec<u8>>) -> bool {
    forall|i: int|
        0 <= i < a.len() && i < b.len() ==> countable((#[trigger] a[i])@, b[i]@)
}

/// Two files with fingerprints, and how far their frames are apart.
#[derive(Debug, Clone)]
pub struct PairComparison {
    pub file_a: u128,
    pub file_b: u128,
    pub frames: Vec<FrameDistance>,
}

/// Both files have fingerprints.
pub open spec fn both_known(
    files: Seq<File>,
    fingerprints: Map<u128, Vec<Vec<u8>>>,
    i: int,
    j: int,
) -> bool {
    fingerprints.dom().contains(files[i].id) && fingerprints.dom().contains(files[j].id)
}

/// The pairs of file `i` with the later files up to `j` that both have fingerprints.
pub open spec fn pairs_of_file(
    files: Seq<File>,
    fingerprints: Map<u128, Vec<Vec<u8>>>,
    i: int,
    j: int,
) -> Seq<(int, int)>
    decreases j - i,
{
    if j <= i + 1 {
        Seq::empty()
    } else {
        let before = pairs_of_file(files, fingerprints, i, j - 1);
        if both_known(files, fingerprints, i, j - 1) {
            before.push((i, j - 1))
        } else {
            before
        }
    }
}

/// The pairs of the first `i` files with all later files that both have fingerprints.
pub open spec fn known_pairs(
    files: Seq<File>,
    fingerprints: Map<u128, Vec<Vec<u8>>>,
    i: int,
) -> Seq<(int, int)>
    decreases i,
{
    if i <= 0 {
        Seq::empty()
    } else {
        known_pairs(files, fingerprints, i - 1) + pairs_of_file(
            files,
            fingerprints,
            i - 1,
            files.len() as int,
        )
    }
}

/// `c` compares the two files of `pair`.
pub open spec fn compares(
    c: PairComparison,
    files: Seq<File>,
    fingerprints: Map<u128, Vec<Vec<u8>>>,
    pair: (int, int),
) -> bool {
    let a = files[pair.0].id;
    let b = files[pair.1].id;
    &&& c.file_a == a
    &&& c.file_b == b
    &&& c.frames@ == frame_distances(fingerprints[a]@, fingerprints[b]@)
}

/// `list` compares the files of each of `pairs`, in their order.
pub open spec fn compares_all(
    list: Seq<PairComparison>,
    files: Seq<File>,
    fingerprints: Map<u128, Vec<Vec<u8>>>,
    pairs: Seq<(int, int)>,
) -> bool {
    &&& list.len() == pairs.len()
    &&& forall|k: int|
        0 <= k < list.len() ==> compares(#[trigger] list[k], files, fingerprints, pairs[k])
}

/// The match that a comparison and its score make.
pub open spec fn match_of(pair: PairComparison, score: Score) -> SimilarityMatch {
    SimilarityMatch { file_a: pair.file_a, file_b: pair.file_b, score }
}

impl Default for ClusterBuilder {
    fn default() -> (r: Self)
        ensures
            r.threshold.bits == EIGHTY_FIVE_PERCENT,
    {
        ClusterBuilder::new(Score::from_bits(EIGHTY_FIVE_PERCENT))
    }
}

impl ClusterBuilder {
    /// Compares corresponding frames of two fingerprints. Where one has more frames, the rest of
    /// them is left out.
    pub fn compare_fingerprint_sets(a: &Vec<Vec<u8>>, b: &Vec<Vec<u8>>) -> (r: Vec<FrameDistance>)
        requires
            countable_frames(a@, b@),
        ensures
            r@ == frame_distances(a@, b@),
    {
        let mut out: Vec<FrameDistance> = Vec::new();
        let common: usize = if a.len() <= b.len() {
            a.len()
        } else {
            b.len()
        };
        for i in 0..common
            invariant
                common == common_frames(a@, b@),
                countable_frames(a@, b@),
                out@ == frame_distances(a@, b@).take(i as int),
        {
            assert(countable(a@[i as int]@, b@[i as int]@));
            let distance: u32 = Fingerprinter::hamming_distance(&a[i], &b[i]);
            out.push(FrameDistance { distance, bytes: a[i].len() });
            assert(out@ =~= frame_distances(a@, b@).take(i + 1));
        }
        assert(out@ =~= frame_distances(a@, b@));
        out
    }

    /// Compares every file with every later one, as far as both have fingerprints.
    pub fn compare_files(
        files: &Vec<File>,
        fingerprints: &HashMap<u128, Vec<Vec<u8>>>,
    ) -> (r: Vec<PairComparison>)
        requires
            forall|x: u128, y: u128|
                #![trigger fingerprints@.dom().contains(x), fingerprints@.dom().contains(y)]
                fingerprints@.dom().contains(x) && fingerprints@.dom().contains(y)
                    ==> countable_frames(fingerprints@[x]@, fingerprints@[y]@),
        ensures
            compares_all(
                r@,
                files@,
                fingerprints@,
                known_pairs(files@, fingerprints@, files@.len() as int),
            ),
    {
        let mut out: Vec<PairComparison> = Vec::new();
        let ghost fp = fingerprints@;
        let count: usize = files.len();
        for i in 0..count
            invariant
                count == files@.len(),
                fp == fingerprints@,
                forall|x: u128, y: u128|
                    #![trigger fp.dom().contains(x), fp.dom().contains(y)]
                    fp.dom().contains(x) && fp.dom().contains(y) ==> countable_frames(
                        fp[x]@,
                        fp[y]@,
                    ),
                compares_all(out@, files@, fp, known_pairs(files@, fp, i as int)),
        {
            let ghost done = known_pairs(files@, fp, i as int);
            assert(done + pairs_of_file(files@, fp, i as int, i + 1) =~= done);
            for j in i + 1..count
                invariant
                    count == files@.len(),
                    i < count,
                    fp == fingerprints@,
                    done == known_pairs(files@, fp, i as int),
                    forall|x: u128, y: u128|
                        #![trigger fp.dom().contains(x), fp.dom().contains(y)]
                        fp.dom().contains(x) && fp.dom().contains(y) ==> countable_frames(
                            fp[x]@,
                            fp[y]@,
                        ),
                    compares_all(
                        out@,
                        files@,
                        fp,
                        done + pairs_of_file(files@, fp, i as int, j as int),
                    ),
            {
                let ghost pairs = done + pairs_of_file(files@, fp, i as int, j as int);
                let ghost more = done + pairs_of_file(files@, fp, i as int, j + 1);
                if let Some(fps_a) = fingerprints.get(&files[i].id) {
                    if let Some(fps_b) = fingerprints.get(&files[j].id) {
                        assert(both_known(files@, fp, i as int, j as int));
                        let frames = Self::compare_fingerprint_sets(fps_a, fps_b);
                        out.push(
                            PairComparison { file_a: files[i].id, file_b: files[j].id, frames },
                        );
                        assert(more =~= pairs.push((i as int, j as int)));
                    } else {
                        assert(more =~= pairs);
                    }
                } else {
                    assert(more =~= pairs);
                }
            }
        }
        out
    }

    /// The pairs of files that are alike at least to the threshold, given how alike each compared
    /// pair is.
    pub fn find_similar_pairs(
        &self,
        pairs: &Vec<PairComparison>,
        scores: &Vec<Score>,
    ) -> (r: Vec<SimilarityMatch>)
        requires
            pairs@.len() == scores@.len(),
        ensures
            r@ == reaching(scores@, self.threshold, scores@.len() as int).map_values(
                |k: int| match_of(pairs@[k], scores@[k]),
            ),
    {
        let mut out: Vec<SimilarityMatch> = Vec::new();
        let ghost pick = |k: int| match_of(pairs@[k], scores@[k]);
        for i in 0..pairs.len()
            invariant
                pairs@.len() == scores@.len(),
                pick == (|k: int| match_of(pairs@[k], scores@[k])),
                out@ == reaching(scores@, self.threshold, i as int).map_values(pick),
        {
            let ghost chosen = reaching(scores@, self.threshold, i as int);
            if scores[i].ge(self.threshold) {
                out.push(
                    SimilarityMatch {
                        file_a: pairs[i].file_a,
                        file_b: pairs[i].file_b,
                        score: scores[i],
                    },
                );
                assert(chosen.push(i as int).map_values(pick) =~= chosen.map_values(pick).push(
                    pick(i as int),
                ));
            }
        }
        out
    }
}

/// The value of an optional measure, zero where it is unknown.
pub open spec fn or_zero(x: Option<i32>) -> int {
    match x {
        Some(v) => v as int,
        None => 0,
    }
}

/// The number of pixels of a recording's picture.
pub open spec fn resolution(f: File) -> int {
    or_zero(f.width) * or_zero(f.height)
}

/// What a file is ranked by: the resolution first, then the bitrate, then the size, the greatest in
/// front.
pub open spec fn better(a: File, b: File) -> bool {
    ||| resolution(a) > resolution(b)
    ||| resolution(a) == resolution(b) && or_zero(a.bitrate) > or_zero(b.bitrate)
    ||| resolution(a) == resolution(b) && or_zero(a.bitrate) == or_zero(b.bitrate) && a.size_bytes
        > b.size_bytes
}

/// `order` lists the positions of all files, better files in front, and files of one quality in
/// their order.
pub open spec fn is_ranking(files: Seq<File>, order: Seq<usize>) -> bool {
    &&& crate::order::is_permutation(order, files.len() as int)
    &&& forall|k: int, l: int|
        0 <= k < l < order.len() ==> ranks_before(
            files,
            #[trigger] order[k] as int,
            #[trigger] order[l] as int,
        )
}

/// File `a` stands in front of file `b`.
pub open spec fn ranks_before(files: Seq<File>, a: int, b: int) -> bool {
    better(files[a], files[b]) || (!better(files[b], files[a]) && a < b)
}

/// Reads an optional measure.
pub fn value_or_zero(x: Option<i32>) -> (r: i32)
    ensures
        r == or_zero(x),
{
    match x {
        Some(v) => v,
        None => 0,
    }
}

/// `-1 - n`, which orders numbers the other way round.
fn reversed(n: i64) -> (r: i64)
    ensures
        r == -1 - n,
{
    -1 - n
}

/// The positions of the files by quality, the best first.
fn rank_positions(files: &[File]) -> (order: Vec<usize>)
    requires
        forall|i: int|
            0 <= i < files@.len() ==> i32::MIN <= #[trigger] resolution(files@[i]) <= i32::MAX,
    ensures
        is_ranking(files@, order@),
{
    let mut keys: Vec<SortKey> = Vec::new();
    for i in 0..files.len()
        invariant
            forall|i: int|
                0 <= i < files@.len() ==> i32::MIN <= #[trigger] resolution(files@[i]) <= i32::MAX,
            keys@.len() == i,
            forall|k: int|
                0 <= k < i ==> {
                    &&& (#[trigger] keys@[k]).first == -1 - resolution(files@[k])
                    &&& keys@[k].second == -1 - or_zero(files@[k].bitrate)
                    &&& keys@[k].third == -1 - files@[k].size_bytes
                },
    {
        assert(i32::MIN <= resolution(files@[i as int]) <= i32::MAX);
        let pixels: i32 = value_or_zero(files[i].width) * value_or_zero(files[i].height);
        keys.push(
            SortKey {
                first: reversed(pixels as i64),
                second: reversed(value_or_zero(files[i].bitrate) as i64),
                third: reversed(files[i].size_bytes),
            },
        );
    }
    let order = stable_order(&keys);
    assert forall|k: int, l: int| 0 <= k < l < order@.len() implies ranks_before(
        files@,
        #[trigger] order@[k] as int,
        #[trigger] order@[l] as int,
    ) by {
        assert(crate::order::in_front(keys@, order@[k] as int, order@[l] as int));
        assert(order@[k] < keys@.len() && order@[l] < keys@.len());
        let a = keys@[order@[k] as int];
        let b = keys@[order@[l] as int];
    }
    order
}

/// The files by quality, the best first: by resolution, then by bitrate, then by size. Files of one
/// quality keep their order.
pub fn rank_by_quality(files: &[File]) -> (ranked: Vec<&File>)
    requires
        forall|i: int|
            0 <= i < files@.len() ==> i32::MIN <= #[trigger] resolution(files@[i]) <= i32::MAX,
    ensures
        exists|order: Seq<usize>| #[trigger]
            is_ranking(files@, order) && ranked@.len() == order.len() && forall|k: int|
                0 <= k < order.len() ==> *(#[trigger] ranked@[k]) == files@[order[k] as int],
{
    let order = rank_positions(files);
    let mut ranked: Vec<&File> = Vec::new();
    for k in 0..order.len()
        invariant
            is_ranking(files@, order@),
            ranked@.len() == k,
            forall|l: int| 0 <= l < k ==> *(#[trigger] ranked@[l]) == files@[order@[l] as int],
    {
        assert(order@[k as int] < files@.len());
        ranked.push(&files[order[k]]);
    }
    ranked
}

/// Better is a strict order: no file is better than itself, and the relation carries over.
pub proof fn better_is_a_strict_order(a: File, b: File, c: File)
    ensures
        !better(a, a),
        better(a, b) ==> !better(b, a),
        better(a, b) && better(b, c) ==> better(a, c),
{
}

/// The area of the picture decides over everything else: width and height may be exchanged, what one
/// has more the other may have less, and a picture that is larger in one direction and not smaller
/// in the other is better, whatever the bitrate and the size are. A picture of unknown size counts
/// less than any.
pub proof fn picture_area_decides(a: File, b: File, k: int)
    requires
        a.width matches Some(w) && w > 0,
        a.height matches Some(h) && h > 0,
        k > 0,
    ensures
        b.width == a.height && b.height == a.width && b.bitrate == a.bitrate && b.size_bytes
            == a.size_bytes ==> !better(a, b) && !better(b, a),
        b.width is Some && b.height is Some && b.width->0 == k * a.width->0 && a.height->0 == k
            * b.height->0 && b.bitrate == a.bitrate && b.size_bytes == a.size_bytes ==> !better(
            a,
            b,
        ) && !better(b, a),
        b.width is Some && b.height is Some && b.width->0 >= a.width->0 && b.height->0
            >= a.height->0 && (b.width->0 > a.width->0 || b.height->0 > a.height->0) ==> better(
            b,
            a,
        ),
        b.width is None || b.height is None ==> better(a, b),
{
    let w = a.width->0 as int;
    let h = a.height->0 as int;
    assert(w * h == h * w && w * h > 0) by (nonlinear_arith)
        requires
            w > 0,
            h > 0,
    ;
    assert(or_zero(b.width) * 0 == 0 && 0 * or_zero(b.height) == 0) by (nonlinear_arith);
    if b.width is Some && b.height is Some {
        let x = b.width->0 as int;
        let y = b.height->0 as int;
        if x == k * w && h == k * y {
            assert(x * y == w * h) by (nonlinear_arith)
                requires
                    x == k * w,
                    h == k * y,
            ;
        }
        if x >= w && y >= h && (x > w || y > h) {
            assert(x * y > w * h) by (nonlinear_arith)
                requires
                    x >= w,
                    y >= h,
                    x > w || y > h,
                    w > 0,
                    h > 0,
            ;
        }
    }
}

/// Between pictures of one size the greater bitrate is better, whatever the size of the files, and at
/// the same bitrate the greater file.
pub proof fn bitrate_and_size_decide_next(a: File, b: File)
    requires
        a.width == b.width,
        a.height == b.height,
        a.bitrate is Some,
        b.bitrate is Some,
    ensures
        a.bitrate->0 > b.bitrate->0 ==> better(a, b),
        a.bitrate->0 < b.bitrate->0 ==> better(b, a),
        a.bitrate->0 == b.bitrate->0 ==> (better(a, b) <==> a.size_bytes > b.size_bytes),
{
}

/// In a ranking no file stands behind one that it is better than.
pub proof fn better_files_rank_higher(files: Seq<File>, order: Seq<usize>, k: int, l: int)
    requires
        is_ranking(files, order),
        0 <= k < l < files.len(),
    ensures
        !better(files[order[l] as int], files[order[k] as int]),
        !better(files[order[k] as int], files[order[l] as int]) ==> order[k] < order[l],
{
    assert(ranks_before(files, order[k] as int, order[l] as int));
    better_is_a_strict_order(files[order[k] as int], files[order[l] as int], files[0]);
}

/// As many frames are compared as the shorter of two fingerprints has. It does not matter which
/// fingerprint comes first, two frames are at distance zero if and only if they are equal, and the
/// distance is the greatest one where their lengths differ.
pub proof fn frames_are_compared_in_pairs(a: Seq<Vec<u8>>, b: Seq<Vec<u8>>, i: int)
    requires
        countable_frames(a, b),
        0 <= i < a.len(),
        0 <= i < b.len(),
    ensures
        frame_distances(a, b).len() <= a.len(),
        frame_distances(a, b).len() <= b.len(),
        frame_distances(a, b).len() == a.len() || frame_distances(a, b).len() == b.len(),
        frame_distances(a, b).len() == frame_distances(b, a).len(),
        frame_distances(a, b)[i].distance == frame_distances(b, a)[i].distance,
        frame_distances(a, b)[i].distance == 0 <==> a[i]@ == b[i]@,
        frame_distances(a, b)[i].bytes == a[i]@.len() as usize,
        a[i]@.len() != b[i]@.len() ==> frame_distances(a, b)[i].distance == u32::MAX,
{
    let x = a[i]@;
    let y = b[i]@;
    if x.len() == y.len() {
        hamming_is_symmetric(x, y);
        hamming_zero_means_equal(x, y);
        assert(countable(x, y));
    }
}

/// The compared pairs are each file with each later one where both have fingerprints, and each pair
/// is compared once.
pub proof fn every_known_pair_is_compared_once(
    files: Seq<File>,
    fingerprints: Map<u128, Vec<Vec<u8>>>,
    n: int,
    i: int,
    j: int,
)
    requires
        0 <= n <= files.len(),
    ensures
        known_pairs(files, fingerprints, n).contains((i, j)) <==> {
            &&& 0 <= i < n
            &&& i < j < files.len()
            &&& fingerprints.dom().contains(files[i].id)
            &&& fingerprints.dom().contains(files[j].id)
        },
        known_pairs(files, fingerprints, n).no_duplicates(),
    decreases n,
{
    let now = known_pairs(files, fingerprints, n);
    if n > 0 {
        let before = known_pairs(files, fingerprints, n - 1);
        let last = pairs_of_file(files, fingerprints, n - 1, files.len() as int);
        every_known_pair_is_compared_once(files, fingerprints, n - 1, i, j);
        lemma_pairs_of_file(files, fingerprints, n - 1, files.len() as int, i, j);
        assert(now == before + last);
        if before.contains((i, j)) {
            let k = choose|k: int| 0 <= k < before.len() && before[k] == (i, j);
            assert(now[k] == (i, j));
        }
        if last.contains((i, j)) {
            let k = choose|k: int| 0 <= k < last.len() && last[k] == (i, j);
            assert(now[before.len() + k] == (i, j));
        }
        if now.contains((i, j)) {
            let k = choose|k: int| 0 <= k < now.len() && now[k] == (i, j);
            if k < before.len() {
                assert(before[k] == (i, j));
            } else {
                assert(last[k - before.len()] == (i, j));
            }
        }
        assert forall|k: int, l: int| 0 <= k < before.len() && 0 <= l < last.len() implies (
        #[trigger] before[k]).0 < (#[trigger] last[l]).0 by {
            every_known_pair_is_compared_once(
                files,
                fingerprints,
                n - 1,
                before[k].0,
                before[k].1,
            );
            lemma_pairs_of_file(
                files,
                fingerprints,
                n - 1,
                files.len() as int,
                last[l].0,
                last[l].1,
            );
            assert(before.contains(before[k]));
            assert(last.contains(last[l]));
        }
        assert forall|k: int, l: int| 0 <= k < l < now.len() implies now[k] != now[l] by {
            if l < before.len() {
                assert(before[k] != before[l]);
            } else if k < before.len() {
                assert(before[k].0 < last[l - before.len()].0);
            } else {
                assert(last[k - before.len()] != last[l - before.len()]);
            }
        }
    }
}

proof fn lemma_pairs_of_file(
    files: Seq<File>,
    fingerprints: Map<u128, Vec<Vec<u8>>>,
    f: int,
    n: int,
    i: int,
    j: int,
)
    requires
        0 <= f < files.len(),
        n <= files.len(),
    ensures
        pairs_of_file(files, fingerprints, f, n).contains((i, j)) <==> i == f && f < j < n
            && fingerprints.dom().contains(files[i].id) && fingerprints.dom().contains(files[j].id),
        pairs_of_file(files, fingerprints, f, n).no_duplicates(),
    decreases n - f,
{
    let now = pairs_of_file(files, fingerprints, f, n);
    if n > f + 1 {
        let before = pairs_of_file(files, fingerprints, f, n - 1);
        lemma_pairs_of_file(files, fingerprints, f, n - 1, i, j);
        lemma_pairs_of_file(files, fingerprints, f, n - 1, f, n - 1);
        if before.contains((i, j)) {
            let k = choose|k: int| 0 <= k < before.len() && before[k] == (i, j);
            assert(now[k] == (i, j));
        }
        if both_known(files, fingerprints, f, n - 1) {
            assert(now[before.len() as int] == (f, n - 1));
        }
        if now.contains((i, j)) {
            let k = choose|k: int| 0 <= k < now.len() && now[k] == (i, j);
            if k < before.len() {
                assert(before[k] == (i, j));
            }
        }
        assert forall|k: int, l: int| 0 <= k < l < now.len() implies now[k] != now[l] by {
            if l < before.len() {
                assert(before[k] != before[l]);
            } else {
                assert(before[k] == now[k]);
                if now[k] == (f, n - 1) {
                    assert(before.contains((f, n - 1)));
                }
            }
        }
    }
}

/// The two files of a match are in one cluster, whichever of them the match names first.
pub proof fn matched_files_share_a_cluster(
    matches: Seq<SimilarityMatch>,
    clusters: Seq<Vec<u128>>,
    i: int,
) -> (c: int)
    requires
        is_clustering(matches, clusters),
        0 <= i < matches.len(),
        matches[i].file_a != matches[i].file_b,
    ensures
        0 <= c < clusters.len(),
        clusters[c]@.contains(matches[i].file_a),
        clusters[c]@.contains(matches[i].file_b),
{
    let x = matches[i].file_a;
    let y = matches[i].file_b;
    lemma_joined_are_connected(matches, i);
    assert(in_some_cluster(clusters, x));
    let c = choose|c: int| 0 <= c < clusters.len() && #[trigger] clusters[c]@.contains(x);
    assert(clusters[c]@.contains(y) <==> connected(matches, x, y));
    c
}

/// Every member of a cluster is one of the two files of a match whose other file is in the same
/// cluster.
pub proof fn cluster_members_have_a_match(
    matches: Seq<SimilarityMatch>,
    clusters: Seq<Vec<u128>>,
    c: int,
    x: u128,
) -> (i: int)
    requires
        is_clustering(matches, clusters),
        0 <= c < clusters.len(),
        clusters[c]@.contains(x),
    ensures
        0 <= i < matches.len(),
        matches[i].file_a == x && clusters[c]@.contains(matches[i].file_b) || matches[i].file_b == x
            && clusters[c]@.contains(matches[i].file_a),
{
    let members = clusters[c]@;
    assert(members.len() > 1 && members.no_duplicates());
    let k = choose|k: int| 0 <= k < members.len() && members[k] == x;
    let l: int = if k == 0 {
        1
    } else {
        0
    };
    let y = members[l];
    assert(y != x);
    assert(members.contains(y));
    assert(connected(matches, x, y));
    let path = choose|path: Seq<u128>| #[trigger]
        is_chain(matches, path) && path.first() == x && path.last() == y;
    assert(linked(matches, path[0], path[1]));
    let i = choose|i: int| #[trigger] joins(matches, i, path[0], path[1]);
    let z = path[1];
    assert(connected(matches, x, z)) by {
        let short = seq![x, z];
        assert(is_chain(matches, short));
        assert(short.first() == x && short.last() == z);
    }
    assert(members.contains(z));
    i
}

/// Two files with fingerprints are compared with each other, the earlier one first, frame by frame,
/// and nothing else is compared.
pub proof fn files_are_compared_frame_by_frame(
    list: Seq<PairComparison>,
    files: Seq<File>,
    fingerprints: Map<u128, Vec<Vec<u8>>>,
    i: int,
    j: int,
) -> (k: int)
    requires
        compares_all(
            list,
            files,
            fingerprints,
            known_pairs(files, fingerprints, files.len() as int),
        ),
        0 <= i < j < files.len(),
        fingerprints.dom().contains(files[i].id),
        fingerprints.dom().contains(files[j].id),
    ensures
        0 <= k < list.len(),
        list[k].file_a == files[i].id,
        list[k].file_b == files[j].id,
        list[k].frames@ == frame_distances(
            fingerprints[files[i].id]@,
            fingerprints[files[j].id]@,
        ),
        forall|l: int|
            0 <= l < list.len() ==> fingerprints.dom().contains((#[trigger] list[l]).file_a)
                && fingerprints.dom().contains(list[l].file_b),
        forall|s: Score| #[trigger]
            match_of(list[k], s) == (SimilarityMatch {
                file_a: files[i].id,
                file_b: files[j].id,
                score: s,
            }),
{
    let n = files.len() as int;
    let pairs = known_pairs(files, fingerprints, n);
    every_known_pair_is_compared_once(files, fingerprints, n, i, j);
    let k = choose|k: int| 0 <= k < pairs.len() && pairs[k] == (i, j);
    assert(compares(list[k], files, fingerprints, pairs[k]));
    assert forall|l: int| 0 <= l < list.len() implies fingerprints.dom().contains(
        (#[trigger] list[l]).file_a,
    ) && fingerprints.dom().contains(list[l].file_b) by {
        assert(compares(list[l], files, fingerprints, pairs[l]));
        every_known_pair_is_compared_once(files, fingerprints, n, pairs[l].0, pairs[l].1);
        assert(pairs.contains(pairs[l]));
    }
    k
}

}

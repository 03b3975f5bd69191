//! Stable ordering of items by integer keys.
use vstd::prelude::*;

verus! {

/// What an item is ordered by: the first parts decide, then the second, then the third.
#[derive(Debug, Clone, Copy, PartialEq, Eq, Structural)]
pub struct SortKey {
    pub first: i64,
    pub second: i64,
    pub third: i64,
}

impl SortKey {
    /// `self` comes before `other`.
    pub open spec fn before(self, other: SortKey) -> bool {
        ||| self.first < other.first
        ||| self.first == other.first && self.second < other.second
        ||| self.first == other.first && self.second == other.second && self.third < other.third
    }

    /// Tests whether `self` comes before `other`.
    pub fn precedes(self, other: SortKey) -> (r: bool)
        ensures
            r == self.before(other),
    {
        self.first < other.first || (self.first == other.first && (self.second < other.second || (
        self.second == other.second && self.third < other.third)))
    }
}

/// `order` lists every position below `n` exactly once.
pub open spec fn is_permutation(order: Seq<usize>, n: int) -> bool {
    &&& order.len() == n
    &&& forall|k: int| 0 <= k < n ==> #[trigger] order[k] < n
    &&& forall|k: int, l: int|
        0 <= k < l < n ==> #[trigger] order[k] != #[trigger] order[l]
}

/// Position `a` belongs in front of position `b`: its key comes first, or the keys are equal and
/// it stood in front before.
pub open spec fn in_front(keys: Seq<SortKey>, a: int, b: int) -> bool {
    keys[a].before(keys[b]) || (keys[a] == keys[b] && a < b)
}

/// `order` lists the positions of `keys` by ascending key; positions with equal keys keep their
/// order.
pub open spec fn is_stable_order(keys: Seq<SortKey>, order: Seq<usize>) -> bool {
    &&& is_permutation(order, keys.len() as int)
    &&& forall|k: int, l: int|
        0 <= k < l < order.len() ==> in_front(
            keys,
            #[trigger] order[k] as int,
            #[trigger] order[l] as int,
        )
}

/// Sorts the positions of `keys`, keeping positions with equal keys in their order.
pub fn stable_order(keys: &Vec<SortKey>) -> (order: Vec<usize>)
    ensures
        is_stable_order(keys@, order@),
{
    let mut order: Vec<usize> = Vec::new();
    for i in 0..keys.len()
        invariant
            is_permutation(order@, i as int),
            forall|k: int, l: int|
                0 <= k < l < order.len() ==> in_front(
                    keys@,
                    #[trigger] order@[k] as int,
                    #[trigger] order@[l] as int,
                ),
            i <= keys@.len(),
    {
        let mut at: usize = order.len();
        while 0 < at && keys[i].precedes(keys[order[at - 1]])
            invariant
                at <= order@.len(),
                i < keys@.len(),
                order@.len() == i,
                forall|k: int| 0 <= k < i ==> #[trigger] order@[k] < i,
                forall|k: int|
                    at <= k < i ==> keys@[i as int].before(keys@[#[trigger] order@[k] as int]),
            decreases at,
        {
            at -= 1;
        }
        let ghost prior = order@;
        assert forall|k: int| 0 <= k < at implies in_front(
            keys@,
            #[trigger] prior[k] as int,
            i as int,
        ) by {
            if k < at - 1 {
                assert(in_front(keys@, prior[k] as int, prior[at - 1] as int));
            }
            assert(prior[k] < i);
        }
        order.insert(at, i);
        assert forall|k: int| 0 <= k < i + 1 implies #[trigger] order@[k] < i + 1 by {
            if k < at {
                assert(order@[k] == prior[k]);
            } else if k > at {
                assert(order@[k] == prior[k - 1]);
            }
        }
        assert forall|k: int, l: int| 0 <= k < l < i + 1 implies in_front(
            keys@,
            #[trigger] order@[k] as int,
            #[trigger] order@[l] as int,
        ) && order@[k] != order@[l] by {
            if k < at {
                assert(order@[k] == prior[k]);
            } else if k > at {
                assert(order@[k] == prior[k - 1]);
            }
            if l < at {
                assert(order@[l] == prior[l]);
            } else if l > at {
                assert(order@[l] == prior[l - 1]);
            }
        }
    }
    order
}

/// There is only one stable order of a list of keys.
pub proof fn stable_order_is_unique(keys: Seq<SortKey>, a: Seq<usize>, b: Seq<usize>)
    requires
        is_stable_order(keys, a),
        is_stable_order(keys, b),
    ensures
        a == b,
{
    assert forall|k: int| 0 <= k < a.len() implies a[k] == b[k] by {
        lemma_same_position(keys, a, b, k);
    }
    assert(a =~= b);
}

/// A permutation of the positions below `n` reaches each of them.
pub proof fn permutation_reaches(order: Seq<usize>, n: int, x: int) -> (k: int)
    requires
        is_permutation(order, n),
        0 <= x < n,
    ensures
        0 <= k < order.len(),
        order[k] == x,
{
    let range = vstd::set_lib::set_int_range(0, n);
    let image = order.map_values(|v: usize| v as int).to_set();
    vstd::set_lib::lemma_int_range(0, n);
    let ints = order.map_values(|v: usize| v as int);
    assert(ints.no_duplicates()) by {
        assert forall|k: int, l: int| 0 <= k < ints.len() && 0 <= l < ints.len() && k != l implies ints[k]
            != ints[l] by {
            if k < l {
                assert(order[k] != order[l]);
            } else {
                assert(order[l] != order[k]);
            }
        }
    }
    ints.unique_seq_to_set();
    assert(image.subset_of(range)) by {
        assert forall|y: int| image.contains(y) implies range.contains(y) by {
            let k = choose|k: int| 0 <= k < ints.len() && ints[k] == y;
            assert(order[k] < n);
        }
    }
    vstd::set_lib::lemma_subset_equality(image, range);
    assert(image.contains(x));
    let k = choose|k: int| 0 <= k < ints.len() && ints[k] == x;
    k
}

/// A permutation of the positions below `n` holds each of them.
pub proof fn permutation_covers(order: Seq<usize>, n: int, x: usize)
    requires
        is_permutation(order, n),
        x < n,
    ensures
        order.contains(x),
{
    let k = permutation_reaches(order, n, x as int);
    assert(order[k] == x);
}

proof fn lemma_same_position(keys: Seq<SortKey>, a: Seq<usize>, b: Seq<usize>, k: int)
    requires
        is_stable_order(keys, a),
        is_stable_order(keys, b),
        0 <= k < a.len(),
    ensures
        a[k] == b[k],
    decreases k,
{
    let n = keys.len() as int;
    assert forall|j: int| 0 <= j < k implies a[j] == b[j] by {
        lemma_same_position(keys, a, b, j);
    }
    if a[k] != b[k] {
        permutation_covers(b, n, a[k]);
        let l = choose|l: int| 0 <= l < b.len() && b[l] == a[k];
        permutation_covers(a, n, b[k]);
        let m = choose|m: int| 0 <= m < a.len() && a[m] == b[k];
        if l < k {
            assert(a[l] == b[l]);
            assert(a[l] != a[k]);
        }
        if m < k {
            assert(a[m] == b[m]);
            assert(b[m] != b[k]);
        }
        assert(in_front(keys, a[k] as int, a[m] as int));
        assert(in_front(keys, b[k] as int, b[l] as int));
        assert(false);
    }
}

}

//! Stable ordering of items by an integer key. The order is a sequence of
//! indices: smaller keys first, or greater keys first, and among equal keys
//! the item that came first.

use vstd::prelude::*;

verus! {

/// The key by which the item at index `i` is ordered: the key itself where
/// small keys come first, its negative where great keys do.
pub open spec fn sort_key(keys: Seq<u64>, descending: bool, i: int) -> int {
    if descending {
        -(keys[i] as int)
    } else {
        keys[i] as int
    }
}

/// The item at index `i` stands before the item at index `j`: its key comes
/// first, or the keys are equal and `i` is the smaller index.
pub open spec fn before(keys: Seq<u64>, descending: bool, i: int, j: int) -> bool {
    ||| sort_key(keys, descending, i) < sort_key(keys, descending, j)
    ||| sort_key(keys, descending, i) == sort_key(keys, descending, j) && i < j
}

/// `order` holds the index `i`.
pub open spec fn lists(order: Seq<usize>, i: int) -> bool {
    exists|k: int| 0 <= k < order.len() && #[trigger] order[k] == i
}

/// `order` lists the first `n` indices of `keys`, each once, every one before
/// those that follow it.
pub open spec fn orders_first(keys: Seq<u64>, descending: bool, order: Seq<usize>, n: int) -> bool {
    &&& order.len() == n
    &&& forall|k: int| 0 <= k < order.len() ==> (#[trigger] order[k]) < n
    &&& forall|a: int, b: int|
        0 <= a < b < order.len() ==> before(
            keys,
            descending,
            (#[trigger] order[a]) as int,
            (#[trigger] order[b]) as int,
        )
    &&& forall|i: int| 0 <= i < n ==> #[trigger] lists(order, i)
}

/// `order` is the stable order of `keys`.
pub open spec fn is_stable_order(keys: Seq<u64>, descending: bool, order: Seq<usize>) -> bool {
    orders_first(keys, descending, order, keys.len() as int)
}

/// The stable order of `keys`.
pub open spec fn stable_order(keys: Seq<u64>, descending: bool) -> Seq<usize> {
    choose|order: Seq<usize>| is_stable_order(keys, descending, order)
}

/// Whether the item at `i` stands before the item at `j`.
fn comes_first(keys: &Vec<u64>, descending: bool, i: usize, j: usize) -> (r: bool)
    requires
        i < keys.len(),
        j < keys.len(),
    ensures
        r == before(keys@, descending, i as int, j as int),
{
    let a = keys[i];
    let b = keys[j];
    if descending {
        a > b || (a == b && i < j)
    } else {
        a < b || (a == b && i < j)
    }
}

/// The stable order of `keys`: the indices of the items, those with smaller
/// keys first (with greater keys first where `descending` is set), and among
/// equal keys the smaller index first.
pub fn ordered(keys: &Vec<u64>, descending: bool) -> (order: Vec<usize>)
    ensures
        is_stable_order(keys@, descending, order@),
        order@ == stable_order(keys@, descending),
{
    let mut order: Vec<usize> = Vec::new();
    let mut i: usize = 0;
    while i < keys.len()
        invariant
            i <= keys.len(),
            orders_first(keys@, descending, order@, i as int),
        decreases keys.len() - i,
    {
        let mut p: usize = 0;
        while p < order.len() && !comes_first(keys, descending, i, order[p])
            invariant
                p <= order.len(),
                i < keys.len(),
                orders_first(keys@, descending, order@, i as int),
                forall|k: int| 0 <= k < p ==> before(keys@, descending, (#[trigger] order@[k]) as int, i as int),
            decreases order.len() - p,
        {
            p += 1;
        }
        proof {
            insert_keeps_order(keys@, descending, order@, i as int, p as int);
        }
        order.insert(p, i);
        i += 1;
    }
    proof {
        stable_order_exists(keys@, descending);
        stable_order_is_unique(keys@, descending, order@, stable_order(keys@, descending));
    }
    order
}

/// Two stable orders of the same keys agree at every index below `n`.
proof fn agree_below(keys: Seq<u64>, descending: bool, o1: Seq<usize>, o2: Seq<usize>, n: int)
    requires
        is_stable_order(keys, descending, o1),
        is_stable_order(keys, descending, o2),
        0 <= n <= keys.len(),
    ensures
        forall|k: int| 0 <= k < n ==> o1[k] == o2[k],
    decreases n,
{
    if n > 0 {
        agree_below(keys, descending, o1, o2, n - 1);
        let k = n - 1;
        let x = o1[k];
        let y = o2[k];
        if x != y {
            // x stands somewhere in o2, and y somewhere in o1
            assert(lists(o2, x as int));
            assert(lists(o1, y as int));
            let m2 = choose|m: int| 0 <= m < o2.len() && #[trigger] o2[m] == x as int;
            let m1 = choose|m: int| 0 <= m < o1.len() && #[trigger] o1[m] == y as int;
            if m2 < k {
                assert(o1[m2] == o2[m2]);
                assert(before(keys, descending, o1[m2] as int, o1[k] as int));
            } else if m1 < k {
                assert(o1[m1] == o2[m1]);
                assert(before(keys, descending, o2[m1] as int, o2[k] as int));
            } else {
                assert(before(keys, descending, o2[k] as int, o2[m2] as int));
                assert(before(keys, descending, o1[k] as int, o1[m1] as int));
            }
        }
    }
}

/// There is one stable order only: two orders of the same keys are equal.
pub proof fn stable_order_is_unique(keys: Seq<u64>, descending: bool, o1: Seq<usize>, o2: Seq<usize>)
    requires
        is_stable_order(keys, descending, o1),
        is_stable_order(keys, descending, o2),
    ensures
        o1 == o2,
{
    agree_below(keys, descending, o1, o2, keys.len() as int);
    assert(o1 =~= o2);
}

/// The first position at or after `k` whose item does not stand before the
/// item at index `i`.
proof fn insertion_point(keys: Seq<u64>, descending: bool, order: Seq<usize>, i: int, k: int) -> (p:
    int)
    requires
        0 <= k <= order.len(),
        forall|j: int| 0 <= j < k ==> before(keys, descending, (#[trigger] order[j]) as int, i),
    ensures
        k <= p <= order.len(),
        forall|j: int| 0 <= j < p ==> before(keys, descending, (#[trigger] order[j]) as int, i),
        p < order.len() ==> !before(keys, descending, order[p] as int, i),
    decreases order.len() - k,
{
    if k == order.len() || !before(keys, descending, order[k] as int, i) {
        k
    } else {
        insertion_point(keys, descending, order, i, k + 1)
    }
}

/// An order of the first `n` indices, with the index `n` put in at the first
/// position whose item does not stand before it, is an order of the first
/// `n + 1` indices.
proof fn insert_keeps_order(keys: Seq<u64>, descending: bool, prev: Seq<usize>, n: int, p: int)
    requires
        0 <= n < keys.len(),
        n <= usize::MAX,
        orders_first(keys, descending, prev, n),
        0 <= p <= prev.len(),
        forall|j: int| 0 <= j < p ==> before(keys, descending, (#[trigger] prev[j]) as int, n),
        p < prev.len() ==> !before(keys, descending, prev[p] as int, n),
    ensures
        orders_first(keys, descending, prev.insert(p, n as usize), n + 1),
{
    let next = prev.insert(p, n as usize);
    assert forall|k: int| 0 <= k < next.len() implies (#[trigger] next[k]) < n + 1 by {
        if k < p {
            assert(next[k] == prev[k]);
        } else if k > p {
            assert(next[k] == prev[k - 1]);
        }
    }
    assert forall|a: int, b: int| 0 <= a < b < next.len() implies before(
        keys,
        descending,
        (#[trigger] next[a]) as int,
        (#[trigger] next[b]) as int,
    ) by {
        if b < p {
            assert(next[a] == prev[a] && next[b] == prev[b]);
        } else if b == p {
            assert(next[a] == prev[a]);
        } else if a < p {
            assert(next[a] == prev[a] && next[b] == prev[b - 1]);
        } else if a == p {
            assert(next[b] == prev[b - 1]);
            if b - 1 > p {
                assert(before(keys, descending, prev[p] as int, prev[b - 1] as int));
            }
        } else {
            assert(next[a] == prev[a - 1] && next[b] == prev[b - 1]);
        }
    }
    assert forall|j: int| 0 <= j < n + 1 implies #[trigger] lists(next, j) by {
        if j == n {
            assert(next[p] == j);
        } else {
            assert(lists(prev, j));
            let k0 = choose|k: int| 0 <= k < prev.len() && #[trigger] prev[k] == j;
            if k0 < p {
                assert(next[k0] == j);
            } else {
                assert(next[k0 + 1] == j);
            }
        }
    }
}

/// An order of the first `n` indices.
proof fn order_of_first(keys: Seq<u64>, descending: bool, n: int) -> (order: Seq<usize>)
    requires
        0 <= n <= keys.len(),
        n <= usize::MAX,
    ensures
        orders_first(keys, descending, order, n),
    decreases n,
{
    if n == 0 {
        Seq::empty()
    } else {
        let prev = order_of_first(keys, descending, n - 1);
        let p = insertion_point(keys, descending, prev, n - 1, 0);
        insert_keeps_order(keys, descending, prev, n - 1, p);
        prev.insert(p, (n - 1) as usize)
    }
}

/// Keys that a vector can hold have a stable order, and `stable_order` is
/// that order.
pub proof fn stable_order_exists(keys: Seq<u64>, descending: bool)
    requires
        keys.len() <= usize::MAX,
    ensures
        is_stable_order(keys, descending, stable_order(keys, descending)),
{
    let order = order_of_first(keys, descending, keys.len() as int);
    assert(is_stable_order(keys, descending, order));
}

/// In the stable order the keys never fall where small keys come first, and
/// never rise where great keys do.
pub proof fn stable_order_is_sorted(keys: Seq<u64>, descending: bool, a: int, b: int)
    requires
        keys.len() <= usize::MAX,
        0 <= a <= b < keys.len(),
    ensures
        stable_order(keys, descending).len() == keys.len(),
        0 <= stable_order(keys, descending)[a] < keys.len(),
        0 <= stable_order(keys, descending)[b] < keys.len(),
        !descending ==> keys[stable_order(keys, descending)[a] as int] <= keys[stable_order(
            keys,
            descending,
        )[b] as int],
        descending ==> keys[stable_order(keys, descending)[a] as int] >= keys[stable_order(
            keys,
            descending,
        )[b] as int],
{
    stable_order_exists(keys, descending);
    let order = stable_order(keys, descending);
    if a < b {
        assert(before(keys, descending, order[a] as int, order[b] as int));
    }
}

} // verus!

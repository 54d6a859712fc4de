//! Facts about sequences and their filters that the proofs of the other
//! modules share.

use vstd::prelude::*;

verus! {

/// A sequence up to and with index `i` is the sequence up to `i` and the
/// item at `i`.
pub(crate) proof fn take_next<A>(s: Seq<A>, i: int)
    requires
        0 <= i < s.len(),
    ensures
        s.take(i + 1) == s.take(i).push(s[i]),
{
    assert(s.take(i + 1) =~= s.take(i).push(s[i]));
}

/// Filtering one item more: the item joins the result where it passes.
pub(crate) proof fn filter_next<A>(s: Seq<A>, pred: spec_fn(A) -> bool, i: int)
    requires
        0 <= i < s.len(),
    ensures
        s.take(i + 1).filter(pred) == if pred(s[i]) {
            s.take(i).filter(pred).push(s[i])
        } else {
            s.take(i).filter(pred)
        },
{
    take_next(s, i);
    s.take(i).lemma_filter_push(s[i], pred);
}

/// Whatever passes a filter stood in what was filtered, at some index.
pub(crate) proof fn filter_source<A>(s: Seq<A>, pred: spec_fn(A) -> bool, k: int) -> (j: int)
    requires
        0 <= k < s.filter(pred).len(),
    ensures
        0 <= j < s.len(),
        s[j] == s.filter(pred)[k],
        pred(s[j]),
{
    let f = s.filter(pred);
    assert(f.contains(f[k]));
    s.lemma_filter_contains_rev(pred, f[k]);
    s.lemma_filter_pred(pred, k);
    choose|j: int| 0 <= j < s.len() && s[j] == f[k]
}

/// A filter that every item passes changes nothing.
pub(crate) proof fn filter_all<A>(s: Seq<A>, pred: spec_fn(A) -> bool)
    requires
        forall|i: int| 0 <= i < s.len() ==> pred(#[trigger] s[i]),
    ensures
        s.filter(pred) == s,
    decreases s.len(),
{
    reveal(Seq::filter);
    if s.len() > 0 {
        let front = s.drop_last();
        assert forall|i: int| 0 <= i < front.len() implies pred(#[trigger] front[i]) by {
            assert(front[i] == s[i]);
        }
        filter_all(front, pred);
        assert(front.push(s.last()) =~= s);
    }
}

/// Two items that pass a filter stood in what was filtered, in the same
/// order.
pub(crate) proof fn filter_pair_source<A>(s: Seq<A>, pred: spec_fn(A) -> bool, a: int, b: int) -> (at:
    (int, int))
    requires
        0 <= a < b < s.filter(pred).len(),
    ensures
        0 <= at.0 < at.1 < s.len(),
        s[at.0] == s.filter(pred)[a],
        s[at.1] == s.filter(pred)[b],
    decreases s.len(),
{
    reveal(Seq::filter);
    let front = s.drop_last();
    let last = s.last();
    assert(front.push(last) =~= s);
    front.lemma_filter_push(last, pred);
    let f = front.filter(pred);
    if b < f.len() {
        let at = filter_pair_source(front, pred, a, b);
        assert(front[at.0] == s[at.0] && front[at.1] == s[at.1]);
        at
    } else {
        let i = filter_source(front, pred, a);
        assert(front[i] == s[i]);
        (i, s.len() - 1)
    }
}

/// A filter that one item fails and every other passes takes out that item
/// and leaves the rest in its order.
pub(crate) proof fn filter_drops_one<A>(s: Seq<A>, pred: spec_fn(A) -> bool, i: int)
    requires
        0 <= i < s.len(),
        !pred(s[i]),
        forall|k: int| 0 <= k < s.len() && k != i ==> pred(#[trigger] s[k]),
    ensures
        s.filter(pred) == s.remove(i),
    decreases s.len(),
{
    let front = s.drop_last();
    let last = s.last();
    assert(front.push(last) =~= s);
    front.lemma_filter_push(last, pred);
    if i == s.len() - 1 {
        assert forall|k: int| 0 <= k < front.len() implies pred(#[trigger] front[k]) by {
            assert(front[k] == s[k]);
        }
        filter_all(front, pred);
        assert(front =~= s.remove(i));
    } else {
        assert(front[i] == s[i]);
        assert forall|k: int| 0 <= k < front.len() && k != i implies pred(#[trigger] front[k]) by {
            assert(front[k] == s[k]);
        }
        filter_drops_one(front, pred, i);
        assert(front.remove(i).push(last) =~= s.remove(i));
    }
}

} // verus!

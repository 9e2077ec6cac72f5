//! Facts about filtered sequences, as the adjacency lists need them.

use vstd::prelude::*;

verus! {

/// The sequence `s` with every occurrence of `x` left out. The remaining
/// items keep their order.
pub open spec fn without<T>(s: Seq<T>, x: T) -> Seq<T> {
    s.filter(|y: T| y != x)
}

/// An item is in the filtered sequence exactly when it is in the sequence
/// and passes the filter.
pub proof fn lemma_filter_membership<T>(s: Seq<T>, pred: spec_fn(T) -> bool, y: T)
    ensures
        s.filter(pred).contains(y) <==> s.contains(y) && pred(y),
    decreases s.len(),
{
    reveal(Seq::filter);
    if s.len() > 0 {
        let front = s.drop_last();
        lemma_filter_membership(front, pred, y);
    }
}

/// Filtering a sequence without repeated items gives one without repeated
/// items.
pub proof fn lemma_filter_no_duplicates<T>(s: Seq<T>, pred: spec_fn(T) -> bool)
    requires
        s.no_duplicates(),
    ensures
        s.filter(pred).no_duplicates(),
    decreases s.len(),
{
    reveal(Seq::filter);
    if s.len() > 0 {
        let front = s.drop_last();
        lemma_filter_no_duplicates(front, pred);
        lemma_filter_membership(front, pred, s.last());
    }
}

/// Two filters that agree on every item of a sequence keep the same items
/// of it.
pub proof fn lemma_filter_agree<T>(s: Seq<T>, p: spec_fn(T) -> bool, q: spec_fn(T) -> bool)
    requires
        forall|i: int| 0 <= i < s.len() ==> p(#[trigger] s[i]) == q(s[i]),
    ensures
        s.filter(p) == s.filter(q),
    decreases s.len(),
{
    reveal(Seq::filter);
    if s.len() > 0 {
        let front = s.drop_last();
        lemma_filter_agree(front, p, q);
    }
}

/// A filter that every item of a sequence passes changes nothing.
pub proof fn lemma_filter_keeps_all<T>(s: Seq<T>, pred: spec_fn(T) -> bool)
    requires
        forall|i: int| 0 <= i < s.len() ==> pred(#[trigger] s[i]),
    ensures
        s.filter(pred) == s,
    decreases s.len(),
{
    reveal(Seq::filter);
    if s.len() > 0 {
        let front = s.drop_last();
        lemma_filter_keeps_all(front, pred);
    }
}

/// Appending an item that does not occur keeps a sequence free of repeated
/// items, and adds that item to what it holds.
pub proof fn lemma_push_fresh<T>(s: Seq<T>, x: T)
    requires
        s.no_duplicates(),
        !s.contains(x),
    ensures
        s.push(x).no_duplicates(),
        forall|y: T| s.push(x).contains(y) <==> s.contains(y) || y == x,
{
    let t = s.push(x);
    assert forall|y: T| t.contains(y) <==> s.contains(y) || y == x by {
        if s.contains(y) {
            let i = choose|i: int| 0 <= i < s.len() && s[i] == y;
            assert(t[i] == y);
        }
        if y == x {
            assert(t[s.len() as int] == y);
        }
    }
}

/// A filter that passes exactly the items of `s` other than `x` leaves `x`
/// out of `s`.
pub proof fn lemma_filter_is_without<T>(s: Seq<T>, pred: spec_fn(T) -> bool, x: T)
    requires
        forall|i: int| 0 <= i < s.len() ==> pred(#[trigger] s[i]) == (s[i] != x),
    ensures
        s.filter(pred) == without(s, x),
{
    lemma_filter_agree(s, pred, |y: T| y != x);
}

/// What `without` keeps: the items of `s` other than `x`.
pub proof fn lemma_without_membership<T>(s: Seq<T>, x: T, y: T)
    ensures
        without(s, x).contains(y) <==> s.contains(y) && y != x,
{
    lemma_filter_membership(s, |y: T| y != x, y);
}

/// `without` keeps a sequence free of repeated items.
pub proof fn lemma_without_no_duplicates<T>(s: Seq<T>, x: T)
    requires
        s.no_duplicates(),
    ensures
        without(s, x).no_duplicates(),
{
    lemma_filter_no_duplicates(s, |y: T| y != x);
}

/// Leaving out an item that does not occur changes nothing.
pub proof fn lemma_without_absent<T>(s: Seq<T>, x: T)
    requires
        !s.contains(x),
    ensures
        without(s, x) == s,
{
    lemma_filter_keeps_all(s, |y: T| y != x);
}

} // verus!

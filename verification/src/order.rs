//! Stable sorting, as a specification.
//!
//! Both the catalog and the history ledger order their items by a relation
//! under which different items may tie, and both keep tied items in the order
//! in which they came. `stable_sort` says what that means for any relation;
//! the lemmas say what it gives when the relation is a total preorder.

use vstd::prelude::*;

verus! {

/// Any two items compare one way or the other, and comparisons chain.
pub open spec fn is_total_preorder<T>(le: spec_fn(T, T) -> bool) -> bool {
    &&& forall|a: T, b: T| #[trigger] le(a, b) || #[trigger] le(b, a)
    &&& forall|a: T, b: T, c: T| #[trigger] le(a, b) && #[trigger] le(b, c) ==> le(a, c)
}

/// No item of `s` stands before one that it does not precede under `le`.
pub open spec fn is_sorted<T>(s: Seq<T>, le: spec_fn(T, T) -> bool) -> bool {
    forall|i: int, j: int| 0 <= i < j < s.len() ==> le(#[trigger] s[i], #[trigger] s[j])
}

/// Where a new item `x` goes into `s`: right after the last item that
/// precedes it under `le`, so that it lands behind every item it ties with.
pub open spec fn insert_point<T>(s: Seq<T>, x: T, le: spec_fn(T, T) -> bool) -> int
    decreases s.len(),
{
    if s.len() == 0 {
        0
    } else if le(s.last(), x) {
        s.len() as int
    } else {
        insert_point(s.drop_last(), x, le)
    }
}

/// `s` ordered by `le`, items that tie staying in the order they had in `s`.
pub open spec fn stable_sort<T>(s: Seq<T>, le: spec_fn(T, T) -> bool) -> Seq<T>
    decreases s.len(),
{
    if s.len() == 0 {
        Seq::empty()
    } else {
        let sorted = stable_sort(s.drop_last(), le);
        sorted.insert(insert_point(sorted, s.last(), le), s.last())
    }
}

/// The insert point lies within `s`, right behind an item that precedes `x`
/// (if it is not at the front) and before items none of which precedes `x`.
pub proof fn lemma_insert_point<T>(s: Seq<T>, x: T, le: spec_fn(T, T) -> bool)
    ensures
        0 <= insert_point(s, x, le) <= s.len(),
        insert_point(s, x, le) > 0 ==> le(s[insert_point(s, x, le) - 1], x),
        forall|j: int| insert_point(s, x, le) <= j < s.len() ==> !le(#[trigger] s[j], x),
    decreases s.len(),
{
    if s.len() == 0 {
    } else if le(s.last(), x) {
    } else {
        let t = s.drop_last();
        lemma_insert_point(t, x, le);
        let p = insert_point(t, x, le);
        assert forall|j: int| p <= j < s.len() implies !le(#[trigger] s[j], x) by {
            if j < t.len() {
                assert(t[j] == s[j]);
            }
        }
    }
}

/// Sorting keeps the number of items.
pub proof fn lemma_stable_sort_len<T>(s: Seq<T>, le: spec_fn(T, T) -> bool)
    ensures
        stable_sort(s, le).len() == s.len(),
    decreases s.len(),
{
    if s.len() > 0 {
        lemma_stable_sort_len(s.drop_last(), le);
        lemma_insert_point(stable_sort(s.drop_last(), le), s.last(), le);
    }
}

/// Sorting keeps the items: each occurs as often after as before.
pub proof fn lemma_stable_sort_permutes<T>(s: Seq<T>, le: spec_fn(T, T) -> bool)
    ensures
        stable_sort(s, le).to_multiset() == s.to_multiset(),
    decreases s.len(),
{
    broadcast use vstd::seq_lib::group_to_multiset_ensures;

    if s.len() == 0 {
        assert(stable_sort(s, le) =~= s);
    } else {
        let t = s.drop_last();
        let sorted = stable_sort(t, le);
        lemma_stable_sort_permutes(t, le);
        lemma_insert_point(sorted, s.last(), le);
        vstd::seq_lib::to_multiset_insert(sorted, insert_point(sorted, s.last(), le), s.last());
        assert(t.push(s.last()) =~= s);
    }
}

/// Under a total preorder, what `stable_sort` gives is sorted.
pub proof fn lemma_stable_sort_sorted<T>(s: Seq<T>, le: spec_fn(T, T) -> bool)
    requires
        is_total_preorder(le),
    ensures
        is_sorted(stable_sort(s, le), le),
    decreases s.len(),
{
    if s.len() > 0 {
        let x = s.last();
        let sorted = stable_sort(s.drop_last(), le);
        lemma_stable_sort_sorted(s.drop_last(), le);
        lemma_insert_point(sorted, x, le);
        let p = insert_point(sorted, x, le);
        let out = sorted.insert(p, x);
        assert forall|i: int, j: int| 0 <= i < j < out.len() implies le(
            #[trigger] out[i],
            #[trigger] out[j],
        ) by {
            if j < p {
                assert(out[i] == sorted[i] && out[j] == sorted[j]);
            } else if j == p {
                assert(out[i] == sorted[i]);
                if i < p - 1 {
                    assert(le(sorted[i], sorted[p - 1]));
                }
                assert(le(sorted[p - 1], x));
            } else if i < p {
                assert(out[i] == sorted[i] && out[j] == sorted[j - 1]);
            } else if i == p {
                assert(out[j] == sorted[j - 1]);
                assert(!le(sorted[j - 1], x));
                assert(le(sorted[j - 1], x) || le(x, sorted[j - 1]));
            } else {
                assert(out[i] == sorted[i - 1] && out[j] == sorted[j - 1]);
            }
        }
    }
}

/// Whether an item ties with `x`: each of the two precedes the other.
pub open spec fn ties_with<T>(x: T, le: spec_fn(T, T) -> bool) -> spec_fn(T) -> bool {
    |e: T| le(e, x) && le(x, e)
}

/// Under a total preorder, sorting is stable: the items that tie with any
/// one item stand in the same order after sorting as before.
pub proof fn lemma_stable_sort_keeps_ties<T>(s: Seq<T>, le: spec_fn(T, T) -> bool, x: T)
    requires
        is_total_preorder(le),
    ensures
        stable_sort(s, le).filter(ties_with(x, le)) == s.filter(ties_with(x, le)),
    decreases s.len(),
{
    reveal(Seq::filter);
    if s.len() == 0 {
        assert(stable_sort(s, le) =~= s);
    } else {
        let tie = ties_with(x, le);
        let y = s.last();
        let sorted = stable_sort(s.drop_last(), le);
        lemma_stable_sort_keeps_ties(s.drop_last(), le, x);
        lemma_insert_point(sorted, y, le);
        let p = insert_point(sorted, y, le);
        let front = sorted.take(p);
        let back = sorted.skip(p);
        assert(sorted.insert(p, y) =~= (front + seq![y]) + back);
        assert(sorted =~= front + back);
        Seq::filter_distributes_over_add(front + seq![y], back, tie);
        Seq::filter_distributes_over_add(front, seq![y], tie);
        Seq::filter_distributes_over_add(front, back, tie);
        let one = seq![y];
        assert(one.len() == 1 && one.last() == y);
        assert(one.drop_last() =~= Seq::<T>::empty());
        assert(one.drop_last().filter(tie) =~= Seq::<T>::empty());
        assert(one.filter(tie) =~= if tie(y) {
            seq![y]
        } else {
            Seq::empty()
        });
        if tie(y) {
            assert(back.filter(tie).len() == 0) by {
                if back.filter(tie).len() > 0 {
                    let e = back.filter(tie)[0];
                    back.lemma_filter_pred(tie, 0);
                    assert(back.filter(tie).contains(e));
                    back.lemma_filter_contains_rev(tie, e);
                    let j = choose|j: int| 0 <= j < back.len() && back[j] == e;
                    assert(back[j] == sorted[p + j]);
                    assert(!le(sorted[p + j], y));
                    assert(le(e, x) && le(x, y));
                }
            }
            assert(back.filter(tie) =~= Seq::<T>::empty());
            assert(stable_sort(s, le).filter(tie) =~= sorted.filter(tie).push(y));
        } else {
            assert(stable_sort(s, le).filter(tie) =~= sorted.filter(tie));
        }
    }
}

/// Filters that accept the same items give the same result.
pub proof fn lemma_filter_agrees<T>(s: Seq<T>, p: spec_fn(T) -> bool, q: spec_fn(T) -> bool)
    requires
        forall|e: T| #[trigger] p(e) == q(e),
    ensures
        s.filter(p) == s.filter(q),
    decreases s.len(),
{
    reveal(Seq::filter);
    if s.len() > 0 {
        lemma_filter_agrees(s.drop_last(), p, q);
    }
}

} // verus!

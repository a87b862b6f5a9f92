//! Lists and their views, and picking items out of a list by marks.

use vstd::prelude::*;

verus! {

/// The views of the items of a list, in order.
pub open spec fn views<T: View>(items: Seq<T>) -> Seq<T::V> {
    Seq::new(items.len(), |i: int| items[i]@)
}

/// The items of `items` whose mark in `keep` is set, in order.
pub open spec fn kept<T>(items: Seq<T>, keep: Seq<bool>) -> Seq<T>
    decreases items.len(),
{
    if items.len() == 0 {
        items
    } else {
        let rest = kept(items.drop_last(), keep);
        if keep[items.len() - 1] {
            rest.push(items.last())
        } else {
            rest
        }
    }
}

/// No two items of `items` have the same key.
pub open spec fn distinct_by<T, K>(items: Seq<T>, key: spec_fn(T) -> K) -> bool {
    forall|i: int, j: int|
        0 <= i < items.len() && 0 <= j < items.len() && i != j ==> key(items[i]) != key(items[j])
}

/// The position in `items` of the item that is kept at position `k`.
pub open spec fn origin<T>(items: Seq<T>, keep: Seq<bool>, k: int) -> int
    decreases items.len(),
{
    if items.len() == 0 {
        0
    } else if k < kept(items.drop_last(), keep).len() {
        origin(items.drop_last(), keep, k)
    } else {
        items.len() - 1
    }
}

/// Removes, in place, the items whose mark in `keep` is not set.
pub fn retain_marked<T>(items: &mut Vec<T>, keep: &Vec<bool>)
    requires
        keep.len() == old(items).len(),
    ensures
        final(items)@ == kept(old(items)@, keep@),
{
    let ghost before = items@;
    let mut done: usize = 0;
    let mut at: usize = 0;
    while done < keep.len()
        invariant
            keep.len() == before.len(),
            at <= done <= keep.len(),
            items.len() - at == keep.len() - done,
            items@.take(at as int) == kept(before.take(done as int), keep@),
            items@.skip(at as int) == before.skip(done as int),
        decreases keep.len() - done,
    {
        let ghost current = items@;
        assert(current[at as int] == current.skip(at as int)[0]);
        assert(before.take(done + 1).drop_last() =~= before.take(done as int));
        if keep[done] {
            assert(current.skip(at + 1) =~= current.skip(at as int).skip(1));
            at += 1;
        } else {
            items.remove(at);
            assert(items@.skip(at as int) =~= current.skip(at as int).skip(1));
        }
        done += 1;
    }
    assert(before.take(done as int) =~= before);
}

/// Keeping some items never gives more than there were.
pub proof fn lemma_kept_len<T>(items: Seq<T>, keep: Seq<bool>)
    ensures
        kept(items, keep).len() <= items.len(),
    decreases items.len(),
{
    if items.len() > 0 {
        lemma_kept_len(items.drop_last(), keep);
    }
}

/// Picking by marks and taking views can be done in either order.
pub proof fn lemma_kept_views<T: View>(items: Seq<T>, keep: Seq<bool>)
    ensures
        views(kept(items, keep)) == kept(views(items), keep),
    decreases items.len(),
{
    if items.len() > 0 {
        lemma_kept_views(items.drop_last(), keep);
        assert(views(items).drop_last() =~= views(items.drop_last()));
    }
}

/// Whatever is marked is kept: the place at which it is kept.
pub proof fn lemma_marked_is_kept<T>(items: Seq<T>, keep: Seq<bool>, i: int) -> (k: int)
    requires
        0 <= i < items.len(),
        keep[i],
    ensures
        0 <= k < kept(items, keep).len(),
        kept(items, keep)[k] == items[i],
    decreases items.len(),
{
    let front = items.drop_last();
    if i < items.len() - 1 {
        lemma_marked_is_kept(front, keep, i)
    } else {
        kept(front, keep).len() as int
    }
}

/// Picking items out of a list with distinct keys leaves the keys distinct.
pub proof fn lemma_kept_distinct<T, K>(items: Seq<T>, keep: Seq<bool>, key: spec_fn(T) -> K)
    requires
        distinct_by(items, key),
    ensures
        distinct_by(kept(items, keep), key),
{
    let after = kept(items, keep);
    assert forall|a: int, b: int|
        0 <= a < after.len() && 0 <= b < after.len() && a != b implies key(after[a]) != key(
        after[b],
    ) by {
        let i = lemma_kept_origin(items, keep, a);
        let j = lemma_kept_origin(items, keep, b);
        if a < b {
            lemma_kept_in_order(items, keep, a, b);
        } else {
            lemma_kept_in_order(items, keep, b, a);
        }
        assert(i != j);
    }
}

/// What is kept at position `k` stood at its origin, and was marked.
pub proof fn lemma_kept_origin<T>(items: Seq<T>, keep: Seq<bool>, k: int) -> (i: int)
    requires
        0 <= k < kept(items, keep).len(),
    ensures
        i == origin(items, keep, k),
        0 <= i < items.len(),
        keep[i],
        items[i] == kept(items, keep)[k],
    decreases items.len(),
{
    if k < kept(items.drop_last(), keep).len() {
        lemma_kept_origin(items.drop_last(), keep, k)
    } else {
        items.len() - 1
    }
}

/// What is kept earlier stood earlier.
pub proof fn lemma_kept_in_order<T>(items: Seq<T>, keep: Seq<bool>, a: int, b: int)
    requires
        0 <= a < b < kept(items, keep).len(),
    ensures
        origin(items, keep, a) < origin(items, keep, b),
    decreases items.len(),
{
    let front = items.drop_last();
    if b < kept(front, keep).len() {
        lemma_kept_in_order(front, keep, a, b);
    } else {
        let i = lemma_kept_origin(front, keep, a);
        assert(origin(items, keep, a) == i && i < items.len() - 1);
    }
}

} // verus!

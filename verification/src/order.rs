//! Stable ordering of a sequence by a relation "goes before".

use vstd::prelude::*;

verus! {

/// `sorted` with `x` put in: before the items that `x` goes before, after all the others.
pub open spec fn insert_sorted<T>(sorted: Seq<T>, x: T, before: spec_fn(T, T) -> bool) -> Seq<T>
    decreases sorted.len(),
{
    if sorted.len() > 0 && before(x, sorted.last()) {
        insert_sorted(sorted.drop_last(), x, before).push(sorted.last())
    } else {
        sorted.push(x)
    }
}

/// The items in order: each is put, one after the other, before the items it goes before
/// and after all the others. Items of which neither goes before the other keep the order
/// they came in.
pub open spec fn sorted_by<T>(items: Seq<T>, before: spec_fn(T, T) -> bool) -> Seq<T>
    decreases items.len(),
{
    if items.len() == 0 {
        items
    } else {
        insert_sorted(sorted_by(items.drop_last(), before), items.last(), before)
    }
}

/// Whether `before` orders by rank: nothing goes before itself; what goes before an item
/// goes before all that the item goes before; and of three items, where the first does
/// not go before the second nor the second before the third, the first does not go before
/// the third.
pub open spec fn is_ranking<T>(before: spec_fn(T, T) -> bool) -> bool {
    &&& forall|a: T| !#[trigger] before(a, a)
    &&& forall|a: T, b: T, c: T|
        #![trigger before(a, b), before(b, c)]
        before(a, b) && before(b, c) ==> before(a, c)
    &&& forall|a: T, b: T, c: T|
        #![trigger before(a, b), before(b, c)]
        !before(a, b) && !before(b, c) ==> !before(a, c)
}

/// Whether no item of `items` goes before an earlier one.
pub open spec fn is_sorted_by<T>(items: Seq<T>, before: spec_fn(T, T) -> bool) -> bool {
    forall|i: int, j: int| 0 <= i < j < items.len() ==> !before(items[j], items[i])
}

/// Putting `x` in at `pos` is [`insert_sorted`], where `x` goes before everything from
/// `pos` on and not before the item in front of `pos`.
pub proof fn lemma_insert_at<T>(sorted: Seq<T>, x: T, before: spec_fn(T, T) -> bool, pos: int)
    requires
        0 <= pos <= sorted.len(),
        forall|k: int| pos <= k < sorted.len() ==> before(x, #[trigger] sorted[k]),
        pos > 0 ==> !before(x, sorted[pos - 1]),
    ensures
        insert_sorted(sorted, x, before) == sorted.insert(pos, x),
    decreases sorted.len(),
{
    if pos == sorted.len() {
        assert(sorted.insert(pos, x) =~= sorted.push(x));
    } else {
        lemma_insert_at(sorted.drop_last(), x, before, pos);
        assert(sorted.insert(pos, x) =~= sorted.drop_last().insert(pos, x).push(sorted.last()));
    }
}

/// Where [`insert_sorted`] puts `x`: at a position from which on `x` goes before
/// everything, and in front of which stands nothing that `x` goes before.
pub proof fn lemma_insert_position<T>(sorted: Seq<T>, x: T, before: spec_fn(T, T) -> bool) -> (pos:
    int)
    ensures
        0 <= pos <= sorted.len(),
        insert_sorted(sorted, x, before) == sorted.insert(pos, x),
        forall|k: int| pos <= k < sorted.len() ==> before(x, #[trigger] sorted[k]),
        pos > 0 ==> !before(x, sorted[pos - 1]),
    decreases sorted.len(),
{
    if sorted.len() > 0 && before(x, sorted.last()) {
        let pos = lemma_insert_position(sorted.drop_last(), x, before);
        assert(sorted.insert(pos, x) =~= sorted.drop_last().insert(pos, x).push(sorted.last()));
        assert forall|k: int| pos <= k < sorted.len() implies before(x, #[trigger] sorted[k]) by {
            if k < sorted.len() - 1 {
                assert(sorted.drop_last()[k] == sorted[k]);
            }
        }
        if pos > 0 {
            assert(sorted.drop_last()[pos - 1] == sorted[pos - 1]);
        }
        pos
    } else {
        assert(sorted.insert(sorted.len() as int, x) =~= sorted.push(x));
        sorted.len() as int
    }
}

/// Ordering moves items and neither adds nor drops any.
pub proof fn lemma_sorted_by_permutes<T>(items: Seq<T>, before: spec_fn(T, T) -> bool)
    ensures
        sorted_by(items, before).to_multiset() == items.to_multiset(),
        sorted_by(items, before).len() == items.len(),
    decreases items.len(),
{
    if items.len() > 0 {
        let front = items.drop_last();
        lemma_sorted_by_permutes(front, before);
        let sorted = sorted_by(front, before);
        let pos = lemma_insert_position(sorted, items.last(), before);
        vstd::seq_lib::to_multiset_insert(sorted, pos, items.last());
        assert(items =~= front.push(items.last()));
        vstd::seq_lib::to_multiset_insert(front, front.len() as int, items.last());
        assert(front.insert(front.len() as int, items.last()) =~= front.push(items.last()));
    }
}

/// Under a relation that orders by rank, no item of the ordered sequence goes before an
/// earlier one.
pub proof fn lemma_sorted_by_sorts<T>(items: Seq<T>, before: spec_fn(T, T) -> bool)
    requires
        is_ranking(before),
    ensures
        is_sorted_by(sorted_by(items, before), before),
    decreases items.len(),
{
    if items.len() > 0 {
        let front = items.drop_last();
        lemma_sorted_by_sorts(front, before);
        let sorted = sorted_by(front, before);
        let x = items.last();
        let pos = lemma_insert_position(sorted, x, before);
        let out = sorted.insert(pos, x);
        assert forall|i: int, j: int| 0 <= i < j < out.len() implies !before(out[j], out[i]) by {
            if j == pos {
                assert(out[i] == sorted[i]);
                if i < pos - 1 {
                    assert(!before(x, sorted[pos - 1]) && !before(sorted[pos - 1], sorted[i]));
                }
            } else if i == pos {
                assert(out[j] == sorted[j - 1]);
                if before(sorted[j - 1], x) {
                    assert(before(x, sorted[j - 1]) && before(sorted[j - 1], x));
                    assert(before(x, x));
                }
            } else {
                let a = if i < pos {
                    i
                } else {
                    i - 1
                };
                let b = if j < pos {
                    j
                } else {
                    j - 1
                };
                assert(out[i] == sorted[a] && out[j] == sorted[b]);
            }
        }
    }
}

} // verus!

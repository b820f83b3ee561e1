//! Facts about sequences.
use vstd::prelude::*;

verus! {

/// What a filter keeps was in the sequence.
pub proof fn lemma_kept_was_there<A>(items: Seq<A>, keep: spec_fn(A) -> bool, i: int)
    requires
        0 <= i < items.filter(keep).len(),
    ensures
        items.contains(items.filter(keep)[i]),
        keep(items.filter(keep)[i]),
    decreases items.len(),
{
    reveal(Seq::filter);
    if items.len() > 0 {
        let before = items.drop_last();
        if i < before.filter(keep).len() {
            lemma_kept_was_there(before, keep, i);
            let j = choose|j: int| 0 <= j < before.len() && before[j] == before.filter(keep)[i];
            assert(items[j] == items.filter(keep)[i]);
        } else {
            assert(items[items.len() - 1] == items.filter(keep)[i]);
        }
    }
}

/// One more item of a sequence is one more item.
pub proof fn lemma_take_next<A>(items: Seq<A>, i: int)
    requires
        0 <= i < items.len(),
    ensures
        forall|item: A| #[trigger]
            items.take(i + 1).contains(item) == (items.take(i).contains(item) || item == items[i]),
{
    let short = items.take(i);
    let long = items.take(i + 1);
    assert forall|item: A| #[trigger] long.contains(item) == (short.contains(item) || item
        == items[i]) by {
        if short.contains(item) {
            let n = choose|n: int| 0 <= n < short.len() && short[n] == item;
            assert(long[n] == item);
        }
        if long.contains(item) {
            let n = choose|n: int| 0 <= n < long.len() && long[n] == item;
            if n < i {
                assert(short[n] == item);
            }
        }
        assert(long[i] == items[i]);
    }
}

/// An item that is not in a sequence leaves it without repetition.
pub proof fn lemma_push_new<A>(items: Seq<A>, item: A)
    requires
        items.no_duplicates(),
        !items.contains(item),
    ensures
        items.push(item).no_duplicates(),
        forall|other: A| #[trigger]
            items.push(item).contains(other) == (items.contains(other) || other == item),
{
    let longer = items.push(item);
    assert forall|i: int, j: int|
        0 <= i < longer.len() && 0 <= j < longer.len() && i != j implies longer[i]
        != longer[j] by {
        if i == items.len() {
            assert(items.contains(items[j]));
        } else if j == items.len() {
            assert(items.contains(items[i]));
        }
    }
    assert forall|other: A| #[trigger] longer.contains(other) == (items.contains(other) || other
        == item) by {
        if items.contains(other) {
            let i = choose|i: int| 0 <= i < items.len() && items[i] == other;
            assert(longer[i] == other);
        }
        if other == item {
            assert(longer[items.len() as int] == other);
        }
        if longer.contains(other) && other != item {
            let i = choose|i: int| 0 <= i < longer.len() && longer[i] == other;
            assert(items[i] == other);
        }
    }
}

/// A filter takes the items one by one.
pub proof fn lemma_filter_next<A>(items: Seq<A>, keep: spec_fn(A) -> bool, i: int)
    requires
        0 <= i < items.len(),
    ensures
        items.take(i + 1).filter(keep) == (if keep(items[i]) {
            items.take(i).filter(keep).push(items[i])
        } else {
            items.take(i).filter(keep)
        }),
{
    reveal(Seq::filter);
    let longer = items.take(i + 1);
    assert(longer.drop_last() =~= items.take(i));
    assert(longer.last() == items[i]);
}

/// A filter of nothing is nothing, and a filter of the whole prefix is the filter.
pub proof fn lemma_filter_ends<A>(items: Seq<A>, keep: spec_fn(A) -> bool)
    ensures
        items.take(0).filter(keep) == Seq::<A>::empty(),
        items.take(items.len() as int).filter(keep) == items.filter(keep),
{
    reveal(Seq::filter);
    assert(items.take(0).filter(keep) =~= Seq::<A>::empty());
    assert(items.take(items.len() as int) =~= items);
}

/// What a filter keeps stays in the sequence.
pub proof fn lemma_kept_stays<A>(items: Seq<A>, keep: spec_fn(A) -> bool, i: int)
    requires
        0 <= i < items.len(),
        keep(items[i]),
    ensures
        items.filter(keep).contains(items[i]),
    decreases items.len(),
{
    reveal(Seq::filter);
    let before = items.drop_last();
    let kept = items.filter(keep);
    if i < before.len() {
        assert(before[i] == items[i]);
        lemma_kept_stays(before, keep, i);
        let n = choose|n: int|
            0 <= n < before.filter(keep).len() && before.filter(keep)[n] == items[i];
        assert(kept[n] == items[i]);
    } else {
        assert(kept.last() == items[i]);
    }
}

} // verus!

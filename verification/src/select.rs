//! Taking the items that a selector hits out of a sequence.
use vstd::prelude::*;

verus! {

/// Picks the items of a collection that are to leave it.
pub trait Selector<T>: Sized {
    /// The selector picks `item`.
    spec fn hits(&self, item: T) -> bool;

    /// Whether the selector picks `item`.
    fn strikes(&self, item: &T) -> (hit: bool)
        ensures
            hit == self.hits(*item),
    ;
}

/// The test that `selector` leaves an item in place.
pub open spec fn spares<T, S: Selector<T>>(selector: S) -> spec_fn(T) -> bool {
    |item: T| !selector.hits(item)
}

/// `items` without those that `selector` hits, the others in their old order.
pub open spec fn kept<T, S: Selector<T>>(items: Seq<T>, selector: S) -> Seq<T> {
    items.filter(spares(selector))
}

/// An item is kept exactly if it was there and the selector spares it.
pub proof fn lemma_kept_members<T, S: Selector<T>>(items: Seq<T>, selector: S)
    ensures
        forall|item: T| #[trigger]
            kept(items, selector).contains(item) <==> items.contains(item) && !selector.hits(item),
        kept(items, selector).len() <= items.len(),
{
    let keep = spares(selector);
    items.lemma_filter_len(keep);
    assert forall|item: T| #[trigger]
        kept(items, selector).contains(item) <==> items.contains(item) && !selector.hits(
            item,
        ) by {
        if items.filter(keep).contains(item) {
            items.lemma_filter_contains_rev(keep, item);
        }
        if items.contains(item) && keep(item) {
            let i = choose|i: int| 0 <= i < items.len() && items[i] == item;
            items.lemma_filter_contains(keep, i);
        }
    }
}

/// Looking at one more item either appends it to what is kept or changes
/// nothing.
pub proof fn lemma_kept_step<T, S: Selector<T>>(items: Seq<T>, selector: S, k: int)
    requires
        0 <= k < items.len(),
    ensures
        kept(items.take(k + 1), selector) == if selector.hits(items[k]) {
            kept(items.take(k), selector)
        } else {
            kept(items.take(k), selector).push(items[k])
        },
{
    reveal(Seq::filter);
    assert(items.take(k + 1).drop_last() =~= items.take(k));
}

/// Nothing is kept of nothing.
pub proof fn lemma_kept_empty<T, S: Selector<T>>(selector: S)
    ensures
        kept(Seq::<T>::empty(), selector) == Seq::<T>::empty(),
{
    reveal(Seq::filter);
}

/// Where the selector hits nothing, everything is kept.
pub proof fn lemma_kept_all<T, S: Selector<T>>(items: Seq<T>, selector: S)
    requires
        forall|i: int| 0 <= i < items.len() ==> !selector.hits(#[trigger] items[i]),
    ensures
        kept(items, selector) == items,
    decreases items.len(),
{
    reveal(Seq::filter);
    if items.len() > 0 {
        lemma_kept_all(items.drop_last(), selector);
        assert(items.drop_last().push(items.last()) =~= items);
    }
}

/// Keeping does not disturb an order that the items stood in.
pub proof fn lemma_kept_in_order<T, S: Selector<T>>(
    items: Seq<T>,
    selector: S,
    rank: spec_fn(T) -> int,
)
    requires
        forall|i: int, j: int|
            0 <= i < j < items.len() ==> rank(#[trigger] items[i]) < rank(#[trigger] items[j]),
    ensures
        forall|i: int, j: int|
            0 <= i < j < kept(items, selector).len() ==> rank(
                #[trigger] kept(items, selector)[i],
            ) < rank(#[trigger] kept(items, selector)[j]),
    decreases items.len(),
{
    reveal(Seq::filter);
    if items.len() > 0 {
        let front = items.drop_last();
        lemma_kept_in_order(front, selector, rank);
        lemma_kept_members(front, selector);
        let out = kept(items, selector);
        assert forall|i: int, j: int| 0 <= i < j < out.len() implies rank(#[trigger] out[i])
            < rank(#[trigger] out[j]) by {
            if j == kept(front, selector).len() {
                let early = kept(front, selector)[i];
                assert(kept(front, selector).contains(early));
                assert(front.contains(early));
                let at = choose|at: int| 0 <= at < front.len() && front[at] == early;
                assert(items[at] == early);
                assert(out[j] == items[items.len() - 1]);
            }
        }
    }
}

/// Keeping does not bring in an item twice.
pub proof fn lemma_kept_distinct<T, S: Selector<T>>(items: Seq<T>, selector: S)
    requires
        items.no_duplicates(),
    ensures
        kept(items, selector).no_duplicates(),
    decreases items.len(),
{
    reveal(Seq::filter);
    if items.len() > 0 {
        let front = items.drop_last();
        lemma_kept_distinct(front, selector);
        lemma_kept_members(front, selector);
        let inner = kept(front, selector);
        let out = kept(items, selector);
        assert forall|i: int, j: int| 0 <= i < out.len() && 0 <= j < out.len() && i != j implies out[i]
            != out[j] by {
            if i == inner.len() || j == inner.len() {
                let early = if i == inner.len() {
                    j
                } else {
                    i
                };
                assert(inner.contains(inner[early]));
                let at = choose|at: int| 0 <= at < front.len() && front[at] == inner[early];
                assert(items[at] == inner[early]);
                assert(items[at] != items[items.len() - 1]);
            }
        }
    }
}

/// Takes the items that `selector` hits out of `items`.
pub fn retain<T, S: Selector<T>>(items: &mut Vec<T>, selector: &S)
    ensures
        final(items)@ == kept(old(items)@, *selector),
{
    let ghost before = items@;
    let ghost mut seen: int = 0;
    let mut at: usize = 0;
    proof {
        lemma_kept_empty::<T, S>(*selector);
        assert(before.take(0) =~= Seq::<T>::empty());
        assert(before.skip(0) =~= before);
    }
    while at < items.len()
        invariant
            0 <= seen <= before.len(),
            at == kept(before.take(seen), *selector).len(),
            items@ == kept(before.take(seen), *selector) + before.skip(seen),
        decreases items.len() - at,
    {
        proof {
            lemma_kept_step(before, *selector, seen);
            assert(items@[at as int] == before.skip(seen)[0]);
        }
        if selector.strikes(&items[at]) {
            let _ = items.remove(at);
            proof {
                assert(items@ =~= kept(before.take(seen + 1), *selector) + before.skip(seen + 1));
                seen = seen + 1;
            }
        } else {
            proof {
                assert(items@ =~= kept(before.take(seen + 1), *selector) + before.skip(seen + 1));
                seen = seen + 1;
            }
            at += 1;
        }
    }
    proof {
        assert(before.skip(seen).len() == 0);
        assert(before.take(seen) =~= before);
        assert(items@ =~= kept(before, *selector));
    }
}

} // verus!

//! Facts on sequences, their filters and what they hold.

use vstd::multiset::Multiset;
use vstd::prelude::*;
use vstd::seq_lib::{to_multiset_build, to_multiset_len};

verus! {

/// The predicate that holds where `keep` does not.
pub open spec fn negation<T>(keep: spec_fn(T) -> bool) -> spec_fn(T) -> bool {
    |item: T| !keep(item)
}

/// A sequence without items holds nothing.
pub proof fn lemma_empty_holds_nothing<T>(items: Seq<T>)
    requires
        items.len() == 0,
    ensures
        items.to_multiset() == Multiset::<T>::empty(),
{
    to_multiset_len(items);
    vstd::multiset::lemma_multiset_empty_len(items.to_multiset());
    assert(items.to_multiset() =~= Multiset::<T>::empty());
}

/// Regrouping of what a level and the levels after it hold.
pub proof fn lemma_regroup<T>(
    merged: Multiset<T>,
    run: Multiset<T>,
    kept: Multiset<T>,
    left: Multiset<T>,
    tail: Multiset<T>,
)
    requires
        merged.add(left) == tail,
    ensures
        merged.add(run).add(kept.add(left)) == kept.add(run.add(tail)),
{
    broadcast use vstd::multiset::group_multiset_axioms;

    assert(merged.add(run).add(kept.add(left)) =~= kept.add(run.add(merged.add(left))));
}

/// A predicate and its negation part a sequence in two: each item goes to
/// one side, as many times as it occurs.
pub proof fn lemma_filter_partition<T>(items: Seq<T>, keep: spec_fn(T) -> bool)
    ensures
        items.filter(keep).to_multiset().add(items.filter(negation(keep)).to_multiset())
            == items.to_multiset(),
        items.filter(keep).len() + items.filter(negation(keep)).len() == items.len(),
    decreases items.len(),
{
    broadcast use vstd::multiset::group_multiset_axioms;

    reveal(Seq::filter);
    if items.len() == 0 {
        lemma_empty_holds_nothing(items);
        assert(items.filter(keep).to_multiset().add(items.filter(negation(keep)).to_multiset())
            =~= items.to_multiset());
    } else {
        let front = items.drop_last();
        let last = items.last();
        lemma_filter_partition(front, keep);
        assert(front.push(last) =~= items);
        to_multiset_build(front, last);
        to_multiset_build(front.filter(keep), last);
        to_multiset_build(front.filter(negation(keep)), last);
        assert(items.filter(keep).to_multiset().add(items.filter(negation(keep)).to_multiset())
            =~= items.to_multiset());
    }
}

/// Filtering a sequence whose items all pass keeps it whole.
pub proof fn lemma_filter_all<T>(items: Seq<T>, keep: spec_fn(T) -> bool)
    requires
        forall|i: int| 0 <= i < items.len() ==> keep(#[trigger] items[i]),
    ensures
        items.filter(keep) == items,
    decreases items.len(),
{
    reveal(Seq::filter);
    if items.len() > 0 {
        lemma_filter_all(items.drop_last(), keep);
        assert(items.drop_last().push(items.last()) =~= items);
    }
}

/// Filtering a sequence of which no item passes leaves nothing.
pub proof fn lemma_filter_none<T>(items: Seq<T>, keep: spec_fn(T) -> bool)
    requires
        forall|i: int| 0 <= i < items.len() ==> !keep(#[trigger] items[i]),
    ensures
        items.filter(keep) == Seq::<T>::empty(),
    decreases items.len(),
{
    reveal(Seq::filter);
    if items.len() > 0 {
        lemma_filter_none(items.drop_last(), keep);
    } else {
        assert(items =~= Seq::empty());
    }
}

} // verus!

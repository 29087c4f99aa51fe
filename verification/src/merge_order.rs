//! The order in which the merge policy reads splits: most recent first.
//!
//! Splits are ordered by the end of their time range, latest first, and
//! among splits that end together by their number of documents, smallest
//! first. A split without time range comes before every split that has one.
//! The sort is stable: splits that the order does not tell apart keep the
//! order they came in.

use vstd::prelude::*;
use crate::seq_laws::lemma_filter_none;
use crate::split_metadata::SplitMetadata;

verus! {

/// Whether `a` is strictly before `b` in the order of the merge policy.
pub open spec fn precedes(a: SplitMetadata, b: SplitMetadata) -> bool {
    match (a.time_range, b.time_range) {
        (None, None) => a.num_docs < b.num_docs,
        (None, Some(_)) => true,
        (Some(_), None) => false,
        (Some(range_a), Some(range_b)) => range_a.end > range_b.end || (range_a.end == range_b.end
            && a.num_docs < b.num_docs),
    }
}

/// Whether the order does not tell `a` and `b` apart.
pub open spec fn ties(a: SplitMetadata, b: SplitMetadata) -> bool {
    !precedes(a, b) && !precedes(b, a)
}

/// Whether no split of `splits` stands after a split that it precedes.
pub open spec fn is_ordered(splits: Seq<SplitMetadata>) -> bool {
    forall|i: int, j: int| 0 <= i < j < splits.len() ==> !precedes(splits[j], splits[i])
}

/// `sorted` with `split` put in after the last split that it does not
/// precede.
pub open spec fn stable_insert(sorted: Seq<SplitMetadata>, split: SplitMetadata) -> Seq<
    SplitMetadata,
>
    decreases sorted.len(),
{
    if sorted.len() == 0 {
        seq![split]
    } else if precedes(split, sorted.last()) {
        stable_insert(sorted.drop_last(), split).push(sorted.last())
    } else {
        sorted.push(split)
    }
}

/// The splits of `splits`, most recent first, ties in the order in which they came.
pub open spec fn most_recent_first(splits: Seq<SplitMetadata>) -> Seq<SplitMetadata>
    decreases splits.len(),
{
    if splits.len() == 0 {
        Seq::empty()
    } else {
        stable_insert(most_recent_first(splits.drop_last()), splits.last())
    }
}

/// Whether `a` is strictly before `b` in the order of the merge policy.
pub fn comes_before(a: &SplitMetadata, b: &SplitMetadata) -> (before: bool)
    ensures
        before == precedes(*a, *b),
{
    match (&a.time_range, &b.time_range) {
        (None, None) => a.num_docs < b.num_docs,
        (None, Some(_)) => true,
        (Some(_), None) => false,
        (Some(range_a), Some(range_b)) => range_a.end > range_b.end || (range_a.end == range_b.end
            && a.num_docs < b.num_docs),
    }
}

/// Where `stable_insert` puts a split: behind the splits it does not
/// precede, in front of a run of splits that it precedes.
proof fn lemma_stable_insert_at(sorted: Seq<SplitMetadata>, split: SplitMetadata, pos: int)
    requires
        0 <= pos <= sorted.len(),
        forall|j: int| pos <= j < sorted.len() ==> precedes(split, #[trigger] sorted[j]),
        pos == 0 || !precedes(split, sorted[pos - 1]),
    ensures
        stable_insert(sorted, split) == sorted.insert(pos, split),
    decreases sorted.len(),
{
    if sorted.len() == 0 {
        assert(sorted.insert(0, split) =~= seq![split]);
    } else if pos == sorted.len() {
        assert(sorted.insert(pos, split) =~= sorted.push(split));
    } else {
        let front = sorted.drop_last();
        lemma_stable_insert_at(front, split, pos);
        assert(front.insert(pos, split).push(sorted.last()) =~= sorted.insert(pos, split));
    }
}

/// Inserting a split adds it to the splits held, and nothing else.
pub proof fn lemma_stable_insert_permutes(sorted: Seq<SplitMetadata>, split: SplitMetadata)
    ensures
        stable_insert(sorted, split).to_multiset() == sorted.to_multiset().insert(split),
        stable_insert(sorted, split).len() == sorted.len() + 1,
    decreases sorted.len(),
{
    broadcast use vstd::seq_lib::to_multiset_build;

    if sorted.len() == 0 {
        assert(seq![split] =~= sorted.push(split));
    } else if precedes(split, sorted.last()) {
        let front = sorted.drop_last();
        lemma_stable_insert_permutes(front, split);
        assert(front.push(sorted.last()) =~= sorted);
        assert(front.to_multiset().insert(split).insert(sorted.last()) =~= front.to_multiset().insert(
            sorted.last(),
        ).insert(split));
    }
}

/// Sorting keeps the splits: each one as many times as it came in.
pub proof fn lemma_most_recent_first_permutes(splits: Seq<SplitMetadata>)
    ensures
        most_recent_first(splits).to_multiset() == splits.to_multiset(),
        most_recent_first(splits).len() == splits.len(),
    decreases splits.len(),
{
    broadcast use vstd::seq_lib::to_multiset_build;

    if splits.len() == 0 {
        assert(splits =~= Seq::empty());
    } else {
        let front = splits.drop_last();
        lemma_most_recent_first_permutes(front);
        lemma_stable_insert_permutes(most_recent_first(front), splits.last());
        assert(front.push(splits.last()) =~= splits);
    }
}

/// Every split of the sorted sequence is a split of the sequence sorted.
pub proof fn lemma_most_recent_first_contains(splits: Seq<SplitMetadata>, i: int)
    requires
        0 <= i < most_recent_first(splits).len(),
    ensures
        splits.contains(most_recent_first(splits)[i]),
{
    lemma_most_recent_first_permutes(splits);
    let sorted = most_recent_first(splits);
    assert(sorted.contains(sorted[i]));
    vstd::seq_lib::to_multiset_contains(sorted, sorted[i]);
    vstd::seq_lib::to_multiset_contains(splits, sorted[i]);
}

/// Where `stable_insert` puts `split` in `sorted`.
pub open spec fn insert_position(sorted: Seq<SplitMetadata>, split: SplitMetadata) -> int
    decreases sorted.len(),
{
    if sorted.len() == 0 {
        0
    } else if precedes(split, sorted.last()) {
        insert_position(sorted.drop_last(), split)
    } else {
        sorted.len() as int
    }
}

/// `stable_insert` puts a split behind the last split that it does not
/// precede.
pub proof fn lemma_insert_position(sorted: Seq<SplitMetadata>, split: SplitMetadata)
    ensures
        0 <= insert_position(sorted, split) <= sorted.len(),
        stable_insert(sorted, split) == sorted.insert(insert_position(sorted, split), split),
        forall|j: int|
            insert_position(sorted, split) <= j < sorted.len() ==> precedes(
                split,
                #[trigger] sorted[j],
            ),
        insert_position(sorted, split) == 0 || !precedes(
            split,
            sorted[insert_position(sorted, split) - 1],
        ),
    decreases sorted.len(),
{
    let pos = insert_position(sorted, split);
    if sorted.len() > 0 && precedes(split, sorted.last()) {
        let front = sorted.drop_last();
        lemma_insert_position(front, split);
        assert forall|j: int| pos <= j < sorted.len() implies precedes(
            split,
            #[trigger] sorted[j],
        ) by {
            if j < front.len() {
                assert(sorted[j] == front[j]);
            }
        }
        if pos > 0 {
            assert(sorted[pos - 1] == front[pos - 1]);
        }
    }
    lemma_stable_insert_at(sorted, split, pos);
}

/// The order is a strict weak order: no split precedes itself, and a split
/// that precedes another precedes, or is preceded by, any third.
pub proof fn lemma_precedes_is_strict_weak(a: SplitMetadata, b: SplitMetadata, c: SplitMetadata)
    ensures
        !precedes(a, a),
        precedes(a, b) ==> !precedes(b, a),
        precedes(a, b) ==> precedes(a, c) || precedes(c, b),
        precedes(a, b) && precedes(b, c) ==> precedes(a, c),
        ties(a, b) && ties(b, c) ==> ties(a, c),
{
}

/// Inserting a split into an ordered sequence keeps it ordered.
pub proof fn lemma_stable_insert_keeps_order(sorted: Seq<SplitMetadata>, split: SplitMetadata)
    requires
        is_ordered(sorted),
    ensures
        is_ordered(stable_insert(sorted, split)),
{
    lemma_insert_position(sorted, split);
    let pos = insert_position(sorted, split);
    let next = sorted.insert(pos, split);
    assert forall|i: int, j: int| 0 <= i < j < next.len() implies !precedes(next[j], next[i]) by {
        if i == pos {
            assert(next[j] == sorted[j - 1]);
            lemma_precedes_is_strict_weak(split, sorted[j - 1], split);
        } else if j == pos {
            assert(next[i] == sorted[i]);
            if i < pos - 1 {
                lemma_precedes_is_strict_weak(split, sorted[i], sorted[pos - 1]);
            }
        } else {
            let from_i = if i < pos {
                i
            } else {
                i - 1
            };
            let from_j = if j < pos {
                j
            } else {
                j - 1
            };
            assert(next[i] == sorted[from_i]);
            assert(next[j] == sorted[from_j]);
        }
    }
}

/// The sorted sequence is ordered: no split stands after a split that it
/// precedes.
pub proof fn lemma_most_recent_first_is_ordered(splits: Seq<SplitMetadata>)
    ensures
        is_ordered(most_recent_first(splits)),
    decreases splits.len(),
{
    if splits.len() > 0 {
        lemma_most_recent_first_is_ordered(splits.drop_last());
        lemma_stable_insert_keeps_order(most_recent_first(splits.drop_last()), splits.last());
    }
}

/// The predicate that holds of the splits that the order does not tell
/// apart from `pivot`.
pub open spec fn tied_with(pivot: SplitMetadata) -> spec_fn(SplitMetadata) -> bool {
    |split: SplitMetadata| ties(pivot, split)
}

/// Inserting a split puts it behind the splits that the order does not tell
/// apart from it.
pub proof fn lemma_stable_insert_keeps_ties(
    sorted: Seq<SplitMetadata>,
    split: SplitMetadata,
    pivot: SplitMetadata,
)
    ensures
        stable_insert(sorted, split).filter(tied_with(pivot)) == if ties(pivot, split) {
            sorted.filter(tied_with(pivot)).push(split)
        } else {
            sorted.filter(tied_with(pivot))
        },
{
    lemma_insert_position(sorted, split);
    let pos = insert_position(sorted, split);
    let front = sorted.subrange(0, pos);
    let back = sorted.subrange(pos, sorted.len() as int);
    let tied = tied_with(pivot);
    assert(sorted =~= front + back);
    assert(sorted.insert(pos, split) =~= front.push(split) + back);
    Seq::filter_distributes_over_add(front, back, tied);
    Seq::filter_distributes_over_add(front.push(split), back, tied);
    front.lemma_filter_push(split, tied);
    if ties(pivot, split) {
        assert forall|j: int| 0 <= j < back.len() implies !tied(#[trigger] back[j]) by {
            assert(back[j] == sorted[pos + j]);
            lemma_precedes_is_strict_weak(split, pivot, back[j]);
            lemma_precedes_is_strict_weak(pivot, split, back[j]);
        }
        lemma_filter_none(back, tied);
        assert(front.filter(tied) + Seq::<SplitMetadata>::empty() =~= front.filter(tied));
        assert(front.filter(tied).push(split) + Seq::<SplitMetadata>::empty() =~= front.filter(
            tied,
        ).push(split));
    }
}

/// The sort is stable: the splits that the order does not tell apart from
/// `pivot` stand in the sorted sequence in the order in which they came.
pub proof fn lemma_most_recent_first_is_stable(splits: Seq<SplitMetadata>, pivot: SplitMetadata)
    ensures
        most_recent_first(splits).filter(tied_with(pivot)) == splits.filter(tied_with(pivot)),
    decreases splits.len(),
{
    if splits.len() == 0 {
        assert(splits =~= Seq::empty());
    } else {
        let front = splits.drop_last();
        lemma_most_recent_first_is_stable(front, pivot);
        lemma_stable_insert_keeps_ties(most_recent_first(front), splits.last(), pivot);
        front.lemma_filter_push(splits.last(), tied_with(pivot));
        assert(front.push(splits.last()) =~= splits);
    }
}

/// Sorts `splits` most recent first, keeping ties in the order in which they came.
#[verifier::rlimit(40)]
pub fn sort_most_recent_first(splits: &mut Vec<SplitMetadata>)
    ensures
        final(splits)@ == most_recent_first(old(splits)@),
{
    let ghost given = splits@;
    let len = splits.len();
    let mut i: usize = 0;
    proof {
        assert(given.subrange(0, 0) =~= Seq::empty());
        assert(splits@.subrange(0, 0) =~= Seq::empty());
    }
    while i < len
        invariant
            len == given.len(),
            splits@.len() == len,
            0 <= i <= len,
            splits@.subrange(0, i as int) == most_recent_first(given.subrange(0, i as int)),
            forall|k: int| i <= k < len ==> splits@[k] == given[k],
        decreases len - i,
    {
        let ghost sorted = splits@.subrange(0, i as int);
        let split = splits.remove(i);
        let mut pos: usize = i;
        while pos > 0 && comes_before(&split, &splits[pos - 1])
            invariant
                0 <= pos <= i,
                i < len,
                splits@.len() == len - 1,
                splits@.subrange(0, i as int) == sorted,
                forall|j: int| pos <= j < i ==> precedes(split, #[trigger] sorted[j]),
            decreases pos,
        {
            assert(splits@[pos - 1] == sorted[pos - 1]);
            pos -= 1;
        }
        assert(pos == 0 || !precedes(split, sorted[pos - 1])) by {
            if pos > 0 {
                assert(splits@[pos - 1] == sorted[pos - 1]);
            }
        }
        assert(splits@.subrange(0, i as int) =~= sorted);
        splits.insert(pos, split);
        proof {
            lemma_stable_insert_at(sorted, split, pos as int);
            let next = given.subrange(0, i as int + 1);
            assert(next.drop_last() =~= given.subrange(0, i as int));
            assert(next.last() == split);
            assert(splits@.subrange(0, i as int + 1) =~= sorted.insert(pos as int, split));
        }
        i += 1;
    }
    proof {
        assert(splits@.subrange(0, len as int) =~= splits@);
        assert(given.subrange(0, len as int) =~= given);
    }
}

} // verus!

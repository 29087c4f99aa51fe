//! The merge policy: which published splits are compacted together.
//!
//! The policy sets mature splits aside, reads the others most recent
//! first, groups them in levels of growing size, and picks in each level at
//! most one run of neighbouring splits to merge.

use core::ops::Range;
use vstd::prelude::*;
use crate::merge_order::{
    lemma_most_recent_first_contains, lemma_most_recent_first_permutes, most_recent_first,
    sort_most_recent_first,
};
use crate::seq_laws::negation;
use crate::split_id::{is_split_id, new_split_id};
use crate::split_metadata::SplitMetadata;

verus! {

/// A set of splits to merge into one, and the identifier of the split that
/// the merge will produce.
#[derive(Debug)]
pub struct MergeOperation {
    pub merge_split_id: String,
    pub splits: Vec<SplitMetadata>,
}

impl MergeOperation {
    /// The operation that merges `splits` into a split with a fresh
    /// identifier.
    pub fn new_merge_operation(splits: Vec<SplitMetadata>) -> (operation: MergeOperation)
        ensures
            operation.splits == splits,
            is_split_id(operation.merge_split_id@),
    {
        MergeOperation { merge_split_id: new_split_id(), splits }
    }

    /// The splits that the operation merges.
    pub fn splits_as_slice(&self) -> (splits: &[SplitMetadata])
        ensures
            splits@ == self.splits@,
    {
        self.splits.as_slice()
    }
}

/// The splits of each operation of `operations`.
pub open spec fn merged_splits(operations: Seq<MergeOperation>) -> Seq<Seq<SplitMetadata>> {
    operations.map_values(|operation: MergeOperation| operation.splits@)
}

/// Sum of the numbers of documents of `splits`.
pub open spec fn total_num_docs(splits: Seq<SplitMetadata>) -> int
    decreases splits.len(),
{
    if splits.len() == 0 {
        0
    } else {
        total_num_docs(splits.drop_last()) + splits.last().num_docs
    }
}

/// Decides which splits are merged together.
///
/// The merge planner calls the policy whenever a split is published.
pub trait MergePolicy: Send + Sync + core::fmt::Debug {
    /// Whether the policy holds `split` for mature: a mature split takes
    /// part in no merge any more.
    spec fn holds_mature(&self, split: SplitMetadata) -> bool;

    /// Takes out of `splits` the splits to merge and returns them, one
    /// operation per merge. The operations and what is left of `splits` part
    /// the splits given: each goes to one side, as many times as it was
    /// given.
    fn operations(&self, splits: &mut Vec<SplitMetadata>) -> (operations: Vec<MergeOperation>)
        ensures
            merged_splits(operations@).flatten().to_multiset().add(final(splits)@.to_multiset())
                == old(splits)@.to_multiset(),
            merged_splits(operations@).flatten().len() + final(splits)@.len() == old(
                splits,
            )@.len(),
    ;

    /// Whether `split` is mature.
    fn is_mature(&self, split: &SplitMetadata) -> (mature: bool)
        ensures
            mature == self.holds_mature(*split),
    ;
}

/// What the policy makes of a run of splits proposed for a merge.
#[derive(Clone, Copy, Debug, PartialEq, Eq, Structural)]
pub enum MergeCandidateSize {
    /// The run is too small to be worth a merge.
    TooSmall,
    /// The run can be merged as it is, and can still grow.
    ValidSplit,
    /// The run must not grow: it has reached the largest number of splits
    /// of a merge, or its documents already fill a mature split.
    OneMoreSplitWouldBeTooBig,
}

/// Merge policy for a steady stream of splits of several tenants, ordered
/// by time.
#[derive(Clone, Copy, Debug)]
pub struct StableMultitenantWithTimestampMergePolicy {
    /// Upper end of the first level, unless its first split is larger.
    pub min_level_num_docs: usize,
    /// Whether splits are merged at all.
    pub merge_enabled: bool,
    /// Number of splits from which a run is worth a merge.
    pub merge_factor: usize,
    /// Largest number of splits of a merge.
    pub max_merge_factor: usize,
    /// Number of documents from which a split is mature and merged no more.
    pub split_num_docs_target: usize,
}

impl Default for StableMultitenantWithTimestampMergePolicy {
    fn default() -> (policy: StableMultitenantWithTimestampMergePolicy)
        ensures
            policy.min_level_num_docs == 100_000,
            policy.merge_enabled,
            policy.merge_factor == 10,
            policy.max_merge_factor == 12,
            policy.split_num_docs_target == 10_000_000,
    {
        StableMultitenantWithTimestampMergePolicy {
            min_level_num_docs: 100_000,
            merge_enabled: true,
            merge_factor: 10,
            max_merge_factor: 12,
            split_num_docs_target: 10_000_000,
        }
    }
}

/// The items of `items` whose flag in `flags` is `wanted`, in order.
pub open spec fn pick<T>(items: Seq<T>, flags: Seq<bool>, wanted: bool) -> Seq<T>
    recommends
        items.len() == flags.len(),
    decreases items.len(),
{
    if items.len() == 0 {
        Seq::empty()
    } else if flags.last() == wanted {
        pick(items.drop_last(), flags.drop_last(), wanted).push(items.last())
    } else {
        pick(items.drop_last(), flags.drop_last(), wanted)
    }
}

/// Whether `keep` says of each item of `items` what a call of `predicate`
/// on it returns.
pub open spec fn decides<T, Pred: Fn(&T) -> bool>(
    predicate: Pred,
    items: Seq<T>,
    keep: spec_fn(T) -> bool,
) -> bool {
    forall|i: int, outcome: bool|
        0 <= i < items.len() && call_ensures(predicate, (&#[trigger] items[i],), outcome)
            ==> outcome == keep(items[i])
}

/// Picking by flags that agree with a predicate is filtering by it.
proof fn lemma_pick_is_filter<T>(items: Seq<T>, flags: Seq<bool>, keep: spec_fn(T) -> bool)
    requires
        items.len() == flags.len(),
        forall|i: int| 0 <= i < items.len() ==> flags[i] == keep(#[trigger] items[i]),
    ensures
        pick(items, flags, true) == items.filter(keep),
        pick(items, flags, false) == items.filter(negation(keep)),
    decreases items.len(),
{
    reveal(Seq::filter);
    if items.len() > 0 {
        lemma_pick_is_filter(items.drop_last(), flags.drop_last(), keep);
        assert(flags.last() == keep(items.last()));
    }
}

/// Picking from one more item.
proof fn lemma_pick_push<T>(items: Seq<T>, flags: Seq<bool>, item: T, flag: bool, wanted: bool)
    requires
        items.len() == flags.len(),
    ensures
        pick(items.push(item), flags.push(flag), wanted) == if flag == wanted {
            pick(items, flags, wanted).push(item)
        } else {
            pick(items, flags, wanted)
        },
{
    assert(items.push(item).drop_last() =~= items);
    assert(flags.push(flag).drop_last() =~= flags);
}

/// Takes out of `items` those for which `predicate` returns `true`, and
/// returns them. Both parts keep the order of `items`.
#[verifier::rlimit(40)]
pub fn remove_matching_items<T, Pred: Fn(&T) -> bool>(
    items: &mut Vec<T>,
    predicate: Pred,
) -> (matching_items: Vec<T>)
    requires
        forall|i: int|
            0 <= i < old(items)@.len() ==> call_requires(predicate, (&#[trigger] old(items)@[i],)),
    ensures
        matching_items@.len() + final(items)@.len() == old(items)@.len(),
        forall|i: int|
            0 <= i < matching_items@.len() ==> call_ensures(
                predicate,
                (&#[trigger] matching_items@[i],),
                true,
            ),
        forall|i: int|
            0 <= i < final(items)@.len() ==> call_ensures(
                predicate,
                (&#[trigger] final(items)@[i],),
                false,
            ),
        forall|keep: spec_fn(T) -> bool|
            decides(predicate, old(items)@, keep) ==> matching_items@ == #[trigger] old(
                items,
            )@.filter(keep),
        forall|keep: spec_fn(T) -> bool|
            decides(predicate, old(items)@, keep) ==> final(items)@ == #[trigger] old(
                items,
            )@.filter(negation(keep)),
{
    let ghost given = items@;
    let ghost mut flags: Seq<bool> = Seq::empty();
    let ghost mut done: int = 0;
    let mut matching_items: Vec<T> = Vec::new();
    let mut i: usize = 0;
    proof {
        assert(given.subrange(0, 0) =~= Seq::empty());
        assert(items@ =~= Seq::<T>::empty() + given.subrange(0, given.len() as int));
    }
    while i < items.len()
        invariant
            0 <= done <= given.len(),
            flags.len() == done,
            forall|j: int|
                0 <= j < given.len() ==> call_requires(predicate, (&#[trigger] given[j],)),
            forall|j: int|
                0 <= j < done ==> call_ensures(predicate, (&#[trigger] given[j],), flags[j]),
            matching_items@ == pick(given.subrange(0, done), flags, true),
            i == pick(given.subrange(0, done), flags, false).len(),
            items@ == pick(given.subrange(0, done), flags, false) + given.subrange(
                done,
                given.len() as int,
            ),
            forall|j: int|
                0 <= j < matching_items@.len() ==> call_ensures(
                    predicate,
                    (&#[trigger] matching_items@[j],),
                    true,
                ),
            forall|j: int| 0 <= j < i ==> call_ensures(predicate, (&#[trigger] items@[j],), false),
            matching_items@.len() + i == done,
        decreases given.len() - done,
    {
        let ghost kept = pick(given.subrange(0, done), flags, false);
        let ghost rest = given.subrange(done, given.len() as int);
        assert(items@[i as int] == rest[0]);
        assert(rest[0] == given[done]);
        let matches = predicate(&items[i]);
        proof {
            lemma_pick_push(given.subrange(0, done), flags, given[done], matches, true);
            lemma_pick_push(given.subrange(0, done), flags, given[done], matches, false);
            assert(given.subrange(0, done).push(given[done]) =~= given.subrange(
                0,
                done + 1,
            ));
        }
        if matches {
            let matching_item = items.remove(i);
            matching_items.push(matching_item);
            proof {
                assert(items@ =~= kept + given.subrange(done + 1, given.len() as int));
            }
        } else {
            proof {
                assert(items@ =~= kept.push(given[done]) + given.subrange(
                    done + 1,
                    given.len() as int,
                ));
            }
            i += 1;
        }
        proof {
            flags = flags.push(matches);
            done = done + 1;
        }
    }
    proof {
        assert(done == given.len()) by {
            assert(items@.len() == i + (given.len() - done));
        }
        assert(given.subrange(0, done) =~= given);
        assert(items@ =~= pick(given, flags, false));
        assert forall|keep: spec_fn(T) -> bool| #[trigger]
            decides(predicate, given, keep) implies (matching_items@ == given.filter(keep)
            && items@ == given.filter(negation(keep))) by {
            assert forall|j: int| 0 <= j < given.len() implies flags[j] == keep(
                #[trigger] given[j],
            ) by {
                assert(call_ensures(predicate, (&given[j],), flags[j]));
            }
            lemma_pick_is_filter(given, flags, keep);
        }
    }
    matching_items
}

/// Whether the ranges of `levels` follow one another from `from` to `to`.
pub open spec fn is_chain(levels: Seq<(int, int)>, from: int, to: int) -> bool {
    &&& levels.len() > 0
    &&& levels[0].0 == from
    &&& levels.last().1 == to
    &&& forall|k: int| 0 <= k < levels.len() ==> (#[trigger] levels[k]).0 <= levels[k].1
    &&& forall|k: int| 0 <= k < levels.len() - 1 ==> (#[trigger] levels[k]).1 == levels[k + 1].0
}

/// The bounds of each range of `levels`.
pub open spec fn level_bounds(levels: Seq<Range<usize>>) -> Seq<(int, int)> {
    levels.map_values(|level: Range<usize>| (level.start as int, level.end as int))
}

impl StableMultitenantWithTimestampMergePolicy {
    /// Whether `split` is mature: merging is off, or the split has reached
    /// the target number of documents.
    pub open spec fn mature(self, split: SplitMetadata) -> bool {
        !self.merge_enabled || split.num_docs >= self.split_num_docs_target
    }

    /// The predicate that holds of the mature splits.
    pub open spec fn mature_pred(self) -> spec_fn(SplitMetadata) -> bool {
        |split: SplitMetadata| self.mature(split)
    }

    /// What the policy makes of the run `window`.
    pub open spec fn candidate_size(self, window: Seq<SplitMetadata>) -> MergeCandidateSize {
        if window.len() <= 1 {
            MergeCandidateSize::TooSmall
        } else if window.len() >= self.max_merge_factor {
            MergeCandidateSize::OneMoreSplitWouldBeTooBig
        } else if total_num_docs(window) >= self.split_num_docs_target {
            MergeCandidateSize::OneMoreSplitWouldBeTooBig
        } else if window.len() < self.merge_factor {
            MergeCandidateSize::TooSmall
        } else {
            MergeCandidateSize::ValidSplit
        }
    }

    /// Number of documents below which a split belongs to the first level.
    pub open spec fn first_level_cap(self, splits: Seq<SplitMetadata>) -> int
        recommends
            splits.len() > 0,
    {
        if 3 * splits[0].num_docs >= self.min_level_num_docs {
            3 * splits[0].num_docs
        } else {
            self.min_level_num_docs as int
        }
    }

    /// The levels of `splits[level_start..]`, when the splits from
    /// `level_start` up to `ord` are known to belong to one level that holds
    /// splits of fewer than `cap` documents.
    pub open spec fn levels_scan(
        self,
        splits: Seq<SplitMetadata>,
        ord: int,
        level_start: int,
        cap: int,
    ) -> Seq<(int, int)>
        decreases splits.len() - ord,
    {
        if ord >= splits.len() {
            seq![(level_start, splits.len() as int)]
        } else if splits[ord].num_docs >= cap {
            seq![(level_start, ord)] + self.levels_scan(
                splits,
                ord + 1,
                ord,
                3 * splits[ord].num_docs,
            )
        } else {
            self.levels_scan(splits, ord + 1, level_start, cap)
        }
    }

    /// The levels of `splits`, as index ranges, first level first. A split
    /// opens a new level when it has at least as many documents as the
    /// level before it admits; the new level admits splits of less than
    /// three times the documents of the split that opens it.
    pub open spec fn split_levels(self, splits: Seq<SplitMetadata>) -> Seq<(int, int)> {
        if splits.len() == 0 {
            Seq::empty()
        } else {
            self.levels_scan(splits, 0, 0, self.first_level_cap(splits))
        }
    }

    /// Start of the run that ends at `end`, grown leftwards from `start`
    /// down to `level_start` at most, one split at a time, until it must not
    /// grow.
    pub open spec fn grow_window(
        self,
        splits: Seq<SplitMetadata>,
        level_start: int,
        start: int,
        end: int,
    ) -> int
        decreases start - level_start,
    {
        if start <= level_start || self.candidate_size(splits.subrange(start, end))
            == MergeCandidateSize::OneMoreSplitWouldBeTooBig {
            start
        } else {
            self.grow_window(splits, level_start, start - 1, end)
        }
    }

    /// The run picked in the level `splits[level_start..level_end]`, if any:
    /// the longest run at the end of the level that no shorter run forbids
    /// to grow, unless it is too small.
    pub open spec fn level_candidate(
        self,
        splits: Seq<SplitMetadata>,
        level_start: int,
        level_end: int,
    ) -> Option<(int, int)> {
        let start = self.grow_window(splits, level_start, level_end, level_end);
        if self.candidate_size(splits.subrange(start, level_end)) == MergeCandidateSize::TooSmall {
            None
        } else {
            Some((start, level_end))
        }
    }

    /// The runs to merge picked in the levels of `levels` from the `k`-th
    /// on, the run of the last level first.
    pub open spec fn planned_merges(
        self,
        sorted: Seq<SplitMetadata>,
        levels: Seq<(int, int)>,
        k: int,
    ) -> Seq<Seq<SplitMetadata>>
        decreases levels.len() - k,
    {
        if k >= levels.len() || k < 0 {
            Seq::empty()
        } else {
            let later = self.planned_merges(sorted, levels, k + 1);
            match self.level_candidate(sorted, levels[k].0, levels[k].1) {
                Some((start, end)) => later.push(sorted.subrange(start, end)),
                None => later,
            }
        }
    }

    /// The splits of the levels of `levels` from the `k`-th on that no run
    /// to merge holds, in the order of `sorted`.
    pub open spec fn unmerged(
        self,
        sorted: Seq<SplitMetadata>,
        levels: Seq<(int, int)>,
        k: int,
    ) -> Seq<SplitMetadata>
        decreases levels.len() - k,
    {
        if k >= levels.len() || k < 0 {
            Seq::empty()
        } else {
            let kept = match self.level_candidate(sorted, levels[k].0, levels[k].1) {
                Some((start, end)) => sorted.subrange(levels[k].0, start),
                None => sorted.subrange(levels[k].0, levels[k].1),
            };
            kept + self.unmerged(sorted, levels, k + 1)
        }
    }

    /// The splits of `splits` that take part in merging, in the order in
    /// which the policy reads them.
    pub open spec fn merge_candidates(self, splits: Seq<SplitMetadata>) -> Seq<SplitMetadata> {
        most_recent_first(splits.filter(negation(self.mature_pred())))
    }

    /// The runs of splits that the policy merges when it is given `splits`.
    pub open spec fn planned_operations(self, splits: Seq<SplitMetadata>) -> Seq<
        Seq<SplitMetadata>,
    > {
        if !self.merge_enabled || splits.len() < 2 {
            Seq::empty()
        } else {
            let sorted = self.merge_candidates(splits);
            self.planned_merges(sorted, self.split_levels(sorted), 0)
        }
    }

    /// The splits that the policy leaves when it is given `splits`: those
    /// that it reads and does not merge, in the order in which it reads them,
    /// then the mature ones in the order of `splits`.
    pub open spec fn remaining_splits(self, splits: Seq<SplitMetadata>) -> Seq<SplitMetadata> {
        if !self.merge_enabled || splits.len() < 2 {
            splits
        } else {
            let sorted = self.merge_candidates(splits);
            self.unmerged(sorted, self.split_levels(sorted), 0) + splits.filter(
                self.mature_pred(),
            )
        }
    }

    /// Levels follow one another from the split they are scanned from to
    /// the last split.
    pub proof fn lemma_levels_scan_chain(
        self,
        splits: Seq<SplitMetadata>,
        ord: int,
        level_start: int,
        cap: int,
    )
        requires
            0 <= level_start <= ord <= splits.len(),
        ensures
            is_chain(
                self.levels_scan(splits, ord, level_start, cap),
                level_start,
                splits.len() as int,
            ),
            self.levels_scan(splits, ord, level_start, cap)[0].1 >= ord,
        decreases splits.len() - ord,
    {
        if ord >= splits.len() {
        } else if splits[ord].num_docs >= cap {
            let rest = self.levels_scan(splits, ord + 1, ord, 3 * splits[ord].num_docs);
            self.lemma_levels_scan_chain(splits, ord + 1, ord, 3 * splits[ord].num_docs);
            let levels = seq![(level_start, ord)] + rest;
            assert(levels.last() == rest.last());
            assert forall|k: int| 0 <= k < levels.len() implies (#[trigger] levels[k]).0
                <= levels[k].1 by {
                if k > 0 {
                    assert(levels[k] == rest[k - 1]);
                }
            }
            assert forall|k: int| 0 <= k < levels.len() - 1 implies (#[trigger] levels[k]).1
                == levels[k + 1].0 by {
                assert(levels[k + 1] == rest[k]);
                if k > 0 {
                    assert(levels[k] == rest[k - 1]);
                }
            }
        } else {
            self.lemma_levels_scan_chain(splits, ord + 1, level_start, cap);
        }
    }

    /// The levels of a sequence of splits follow one another and cover the
    /// sequence from its first split to its last.
    pub proof fn lemma_split_levels_cover(self, splits: Seq<SplitMetadata>)
        requires
            splits.len() > 0,
        ensures
            is_chain(self.split_levels(splits), 0, splits.len() as int),
    {
        self.lemma_levels_scan_chain(splits, 0, 0, self.first_level_cap(splits));
    }

    /// A run grown within a level starts within the level.
    pub proof fn lemma_grow_window_bounds(
        self,
        splits: Seq<SplitMetadata>,
        level_start: int,
        start: int,
        end: int,
    )
        requires
            level_start <= start <= end,
        ensures
            level_start <= self.grow_window(splits, level_start, start, end) <= start,
        decreases start - level_start,
    {
        if start <= level_start || self.candidate_size(splits.subrange(start, end))
            == MergeCandidateSize::OneMoreSplitWouldBeTooBig {
        } else {
            self.lemma_grow_window_bounds(splits, level_start, start - 1, end);
        }
    }

    /// The run picked in a level depends on the splits of the level alone.
    pub proof fn lemma_grow_window_local(
        self,
        a: Seq<SplitMetadata>,
        b: Seq<SplitMetadata>,
        level_start: int,
        start: int,
        end: int,
    )
        requires
            0 <= level_start <= start <= end,
            end <= a.len(),
            end <= b.len(),
            a.subrange(level_start, end) == b.subrange(level_start, end),
        ensures
            self.grow_window(a, level_start, start, end) == self.grow_window(
                b,
                level_start,
                start,
                end,
            ),
        decreases start - level_start,
    {
        assert(a.subrange(start, end) =~= a.subrange(level_start, end).subrange(
            start - level_start,
            end - level_start,
        ));
        assert(b.subrange(start, end) =~= b.subrange(level_start, end).subrange(
            start - level_start,
            end - level_start,
        ));
        if start <= level_start || self.candidate_size(a.subrange(start, end))
            == MergeCandidateSize::OneMoreSplitWouldBeTooBig {
        } else {
            self.lemma_grow_window_local(a, b, level_start, start - 1, end);
        }
    }

    /// The run picked in a level depends on the splits of the level alone.
    pub proof fn lemma_level_candidate_local(
        self,
        a: Seq<SplitMetadata>,
        b: Seq<SplitMetadata>,
        level_start: int,
        level_end: int,
    )
        requires
            0 <= level_start <= level_end,
            level_end <= a.len(),
            level_end <= b.len(),
            a.subrange(level_start, level_end) == b.subrange(level_start, level_end),
        ensures
            self.level_candidate(a, level_start, level_end) == self.level_candidate(
                b,
                level_start,
                level_end,
            ),
    {
        self.lemma_grow_window_local(a, b, level_start, level_end, level_end);
        self.lemma_grow_window_bounds(a, level_start, level_end, level_end);
        let start = self.grow_window(a, level_start, level_end, level_end);
        assert(a.subrange(start, level_end) =~= a.subrange(level_start, level_end).subrange(
            start - level_start,
            level_end - level_start,
        ));
        assert(b.subrange(start, level_end) =~= b.subrange(level_start, level_end).subrange(
            start - level_start,
            level_end - level_start,
        ));
    }

    /// Whether `split` is mature.
    pub fn is_mature_for_merge(&self, split: &SplitMetadata) -> (mature: bool)
        ensures
            mature == self.mature(*split),
    {
        if !self.merge_enabled {
            return true;
        }
        split.num_docs >= self.split_num_docs_target
    }

    /// What the policy makes of the run `splits`.
    pub fn merge_candidate_size(&self, splits: &[SplitMetadata]) -> (size: MergeCandidateSize)
        ensures
            size == self.candidate_size(splits@),
    {
        if splits.len() <= 1 {
            return MergeCandidateSize::TooSmall;
        }
        if splits.len() >= self.max_merge_factor {
            return MergeCandidateSize::OneMoreSplitWouldBeTooBig;
        }
        let mut num_docs_in_merge: u128 = 0;
        let mut i: usize = 0;
        proof {
            assert(splits@.subrange(0, 0) =~= Seq::empty());
        }
        while i < splits.len()
            invariant
                0 <= i <= splits@.len(),
                num_docs_in_merge == total_num_docs(splits@.subrange(0, i as int)),
                num_docs_in_merge <= i * 0xffff_ffff_ffff_ffff,
            decreases splits@.len() - i,
        {
            proof {
                let next = splits@.subrange(0, i as int + 1);
                assert(next.drop_last() =~= splits@.subrange(0, i as int));
                assert(next.last() == splits@[i as int]);
            }
            num_docs_in_merge = num_docs_in_merge + splits[i].num_docs as u128;
            i += 1;
        }
        proof {
            assert(splits@.subrange(0, splits@.len() as int) =~= splits@);
        }
        if num_docs_in_merge >= self.split_num_docs_target as u128 {
            return MergeCandidateSize::OneMoreSplitWouldBeTooBig;
        }
        if splits.len() < self.merge_factor {
            return MergeCandidateSize::TooSmall;
        }
        MergeCandidateSize::ValidSplit
    }

    /// Picks in the level `level_range` of `splits` the run to merge, if
    /// there is one.
    pub fn merge_candidate_from_level(
        &self,
        splits: &[SplitMetadata],
        level_range: Range<usize>,
    ) -> (candidate: Option<Range<usize>>)
        requires
            level_range.start <= level_range.end <= splits@.len(),
        ensures
            match candidate {
                Some(range) => self.level_candidate(
                    splits@,
                    level_range.start as int,
                    level_range.end as int,
                ) == Some((range.start as int, range.end as int)),
                None => self.level_candidate(
                    splits@,
                    level_range.start as int,
                    level_range.end as int,
                ).is_none(),
            },
    {
        let merge_candidate_end = level_range.end;
        let mut merge_candidate_start = merge_candidate_end;
        while merge_candidate_start > level_range.start
            invariant
                level_range.start <= merge_candidate_start <= merge_candidate_end,
                merge_candidate_end == level_range.end,
                merge_candidate_end <= splits@.len(),
                self.grow_window(
                    splits@,
                    level_range.start as int,
                    merge_candidate_start as int,
                    merge_candidate_end as int,
                ) == self.grow_window(
                    splits@,
                    level_range.start as int,
                    merge_candidate_end as int,
                    merge_candidate_end as int,
                ),
            ensures
                level_range.start <= merge_candidate_start <= merge_candidate_end,
                merge_candidate_start as int == self.grow_window(
                    splits@,
                    level_range.start as int,
                    merge_candidate_end as int,
                    merge_candidate_end as int,
                ),
            decreases merge_candidate_start - level_range.start,
        {
            let size = self.merge_candidate_size(
                &splits[merge_candidate_start..merge_candidate_end],
            );
            if size == MergeCandidateSize::OneMoreSplitWouldBeTooBig {
                break ;
            }
            merge_candidate_start -= 1;
        }
        let size = self.merge_candidate_size(&splits[merge_candidate_start..merge_candidate_end]);
        if size == MergeCandidateSize::TooSmall {
            return None;
        }
        Some(merge_candidate_start..merge_candidate_end)
    }

    /// Groups `splits` in levels: index ranges that follow one another and
    /// cover all of `splits`.
    pub fn build_split_levels(&self, splits: &[SplitMetadata]) -> (levels: Vec<Range<usize>>)
        requires
            forall|i: int|
                0 <= i < splits@.len() ==> (#[trigger] splits@[i]).num_docs
                    < self.split_num_docs_target,
        ensures
            level_bounds(levels@) == self.split_levels(splits@),
            splits@.len() > 0 ==> is_chain(level_bounds(levels@), 0, splits@.len() as int),
    {
        proof {
            if splits@.len() > 0 {
                self.lemma_split_levels_cover(splits@);
            }
        }
        let mut split_levels: Vec<Range<usize>> = Vec::new();
        if splits.is_empty() {
            assert(level_bounds(split_levels@) =~= Seq::empty());
            return split_levels;
        }
        let mut current_level_start_ord: usize = 0;
        let first_num_docs = splits[0].num_docs;
        let mut current_level_max_docs: usize = match first_num_docs.checked_mul(3) {
            Some(tripled) => if tripled >= self.min_level_num_docs {
                tripled
            } else {
                self.min_level_num_docs
            },
            None => usize::MAX,
        };
        let ghost mut cap: int = self.first_level_cap(splits@);
        let mut split_ord: usize = 0;
        proof {
            assert(level_bounds(split_levels@) =~= Seq::empty());
        }
        while split_ord < splits.len()
            invariant
                0 <= split_ord <= splits@.len(),
                0 <= current_level_start_ord <= split_ord,
                forall|i: int|
                    0 <= i < splits@.len() ==> (#[trigger] splits@[i]).num_docs
                        < self.split_num_docs_target,
                current_level_max_docs == if cap <= usize::MAX {
                    cap
                } else {
                    usize::MAX as int
                },
                level_bounds(split_levels@) + self.levels_scan(
                    splits@,
                    split_ord as int,
                    current_level_start_ord as int,
                    cap,
                ) == self.split_levels(splits@),
            decreases splits@.len() - split_ord,
        {
            let num_docs = splits[split_ord].num_docs;
            if num_docs >= current_level_max_docs {
                let ghost before = level_bounds(split_levels@);
                let ghost rest = self.levels_scan(
                    splits@,
                    split_ord as int + 1,
                    split_ord as int,
                    3 * num_docs,
                );
                split_levels.push(current_level_start_ord..split_ord);
                proof {
                    assert(level_bounds(split_levels@) =~= before.push(
                        (current_level_start_ord as int, split_ord as int),
                    ));
                    assert(before + (seq![(current_level_start_ord as int, split_ord as int)]
                        + rest) =~= before.push((current_level_start_ord as int, split_ord as int))
                        + rest);
                    cap = 3 * num_docs;
                }
                current_level_start_ord = split_ord;
                current_level_max_docs = match num_docs.checked_mul(3) {
                    Some(tripled) => tripled,
                    None => usize::MAX,
                };
            }
            split_ord += 1;
        }
        let ghost before = level_bounds(split_levels@);
        split_levels.push(current_level_start_ord..splits.len());
        proof {
            assert(level_bounds(split_levels@) =~= before.push(
                (current_level_start_ord as int, splits@.len() as int),
            ));
            assert(before + seq![(current_level_start_ord as int, splits@.len() as int)]
                =~= before.push((current_level_start_ord as int, splits@.len() as int)));
        }
        split_levels
    }

    /// What taking the run of the `k`-th level out of the splits at hand
    /// leaves, once the levels after it have been dealt with.
    proof fn lemma_take_level_run(
        self,
        sorted: Seq<SplitMetadata>,
        levels: Seq<(int, int)>,
        k: int,
        current: Seq<SplitMetadata>,
    )
        requires
            is_chain(levels, 0, sorted.len() as int),
            0 <= k < levels.len(),
            current == sorted.subrange(0, levels[k].1) + self.unmerged(sorted, levels, k + 1),
        ensures
            0 <= levels[k].0 <= levels[k].1 <= sorted.len(),
            levels[k].1 <= current.len(),
            levels[k].1 == level_boundary(levels, k + 1, sorted.len() as int),
            self.level_candidate(current, levels[k].0, levels[k].1) == self.level_candidate(
                sorted,
                levels[k].0,
                levels[k].1,
            ),
            match self.level_candidate(sorted, levels[k].0, levels[k].1) {
                Some((start, end)) => {
                    &&& levels[k].0 <= start <= end
                    &&& end == levels[k].1
                    &&& current.subrange(start, end) == sorted.subrange(start, end)
                    &&& current.subrange(0, start) + current.subrange(end, current.len() as int)
                        == sorted.subrange(0, levels[k].0) + self.unmerged(sorted, levels, k)
                },
                None => current == sorted.subrange(0, levels[k].0) + self.unmerged(
                    sorted,
                    levels,
                    k,
                ),
            },
    {
        let (a, b) = levels[k];
        let later = self.unmerged(sorted, levels, k + 1);
        lemma_chain_bounds(levels, 0, sorted.len() as int, k);
        assert(current.subrange(a, b) =~= sorted.subrange(a, b));
        self.lemma_level_candidate_local(current, sorted, a, b);
        self.lemma_grow_window_bounds(sorted, a, b, b);
        match self.level_candidate(sorted, a, b) {
            Some((start, end)) => {
                assert(current.subrange(start, end) =~= sorted.subrange(start, end));
                assert(current.subrange(0, start) + current.subrange(end, current.len() as int)
                    =~= sorted.subrange(0, a) + (sorted.subrange(a, start) + later));
            },
            None => {
                assert(current =~= sorted.subrange(0, a) + (sorted.subrange(a, b) + later));
            },
        }
    }

    /// Plans the merges of `splits`: takes the splits to merge out of
    /// `splits`, one operation per run, and leaves the others.
    #[verifier::rlimit(40)]
    pub fn merge_operations(&self, splits: &mut Vec<SplitMetadata>) -> (operations: Vec<
        MergeOperation,
    >)
        ensures
            merged_splits(operations@) == self.planned_operations(old(splits)@),
            final(splits)@ == self.remaining_splits(old(splits)@),
            forall|i: int|
                0 <= i < operations@.len() ==> is_split_id(
                    (#[trigger] operations@[i]).merge_split_id@,
                ),
    {
        let mut merge_operations: Vec<MergeOperation> = Vec::new();
        if !self.merge_enabled || splits.len() < 2 {
            assert(merged_splits(merge_operations@) =~= Seq::empty());
            return merge_operations;
        }
        let ghost given = splits@;
        let is_mature = |split: &SplitMetadata| -> (mature: bool)
            ensures
                mature == self.mature(*split),
            { self.is_mature_for_merge(split) };
        let mut splits_not_for_merge = remove_matching_items(splits, is_mature);
        proof {
            assert(decides(is_mature, given, self.mature_pred()));
        }
        assert(splits_not_for_merge@ == given.filter(self.mature_pred()));
        assert(splits@ == given.filter(negation(self.mature_pred())));
        let ghost young = splits@;
        sort_most_recent_first(splits);
        let ghost sorted = splits@;
        proof {
            lemma_most_recent_first_permutes(young);
            assert forall|i: int| 0 <= i < sorted.len() implies (#[trigger] sorted[i]).num_docs
                < self.split_num_docs_target by {
                lemma_most_recent_first_contains(young, i);
                let j = choose|j: int| 0 <= j < young.len() && young[j] == sorted[i];
                given.lemma_filter_pred(negation(self.mature_pred()), j);
            }
        }
        let split_levels = self.build_split_levels(splits.as_slice());
        let ghost levels = self.split_levels(sorted);
        let mut k: usize = split_levels.len();
        proof {
            assert(level_bounds(split_levels@).len() == split_levels@.len());
            if sorted.len() == 0 {
                assert(levels =~= Seq::empty());
            }
            assert(merged_splits(merge_operations@) =~= Seq::empty());
            assert(splits@ =~= sorted.subrange(0, sorted.len() as int) + Seq::empty());
        }
        while k > 0
            invariant
                0 <= k <= levels.len(),
                levels.len() == split_levels@.len(),
                level_bounds(split_levels@) == levels,
                levels.len() > 0 ==> is_chain(levels, 0, sorted.len() as int),
                splits@ == sorted.subrange(0, level_boundary(levels, k as int, sorted.len() as int))
                    + self.unmerged(sorted, levels, k as int),
                merged_splits(merge_operations@) == self.planned_merges(sorted, levels, k as int),
                forall|i: int|
                    0 <= i < merge_operations@.len() ==> is_split_id(
                        (#[trigger] merge_operations@[i]).merge_split_id@,
                    ),
            decreases k,
        {
            let ghost before = merged_splits(merge_operations@);
            let ghost current = splits@;
            k -= 1;
            let level_start = split_levels[k].start;
            let level_end = split_levels[k].end;
            proof {
                assert(level_bounds(split_levels@)[k as int] == (
                    level_start as int,
                    level_end as int,
                ));
                lemma_chain_bounds(levels, 0, sorted.len() as int, k as int);
                self.lemma_take_level_run(sorted, levels, k as int, current);
            }
            let candidate = self.merge_candidate_from_level(
                splits.as_slice(),
                level_start..level_end,
            );
            match candidate {
                Some(merge_range) => {
                    let mut kept_after = splits.split_off(merge_range.end);
                    let splits_in_merge = splits.split_off(merge_range.start);
                    splits.append(&mut kept_after);
                    let merge_operation = MergeOperation::new_merge_operation(splits_in_merge);
                    proof {
                        let start = merge_range.start as int;
                        let end = merge_range.end as int;
                        assert(merge_operation.splits@ =~= current.subrange(start, end));
                        assert(splits@ =~= current.subrange(0, start) + current.subrange(
                            end,
                            current.len() as int,
                        ));
                    }
                    merge_operations.push(merge_operation);
                    proof {
                        assert(merged_splits(merge_operations@) =~= before.push(
                            merge_operation.splits@,
                        ));
                    }
                },
                None => {},
            }
        }
        proof {
            assert(sorted.subrange(0, 0) =~= Seq::empty());
            assert(splits@ =~= self.unmerged(sorted, levels, 0));
        }
        splits.append(&mut splits_not_for_merge);
        merge_operations
    }
}

/// Where the levels from the `k`-th on start: at the start of the `k`-th
/// level, or at `end` when there is none.
pub open spec fn level_boundary(levels: Seq<(int, int)>, k: int, end: int) -> int {
    if 0 <= k < levels.len() {
        levels[k].0
    } else {
        end
    }
}

impl MergePolicy for StableMultitenantWithTimestampMergePolicy {
    open spec fn holds_mature(&self, split: SplitMetadata) -> bool {
        self.mature(split)
    }

    /// Plans the merges of `splits`. The operations hold the runs that the
    /// policy picks, last level first, and no mature split; `splits` keeps
    /// the other splits it was given, the mature ones last and in their
    /// order.
    fn operations(&self, splits: &mut Vec<SplitMetadata>) -> (operations: Vec<MergeOperation>)
        ensures
            merged_splits(operations@) == self.planned_operations(old(splits)@),
            final(splits)@ == self.remaining_splits(old(splits)@),
            forall|i: int|
                0 <= i < operations@.len() ==> is_split_id(
                    (#[trigger] operations@[i]).merge_split_id@,
                ),
            forall|i: int, j: int|
                0 <= i < operations@.len() && 0 <= j < operations@[i].splits@.len()
                    ==> !self.mature(#[trigger] operations@[i].splits@[j]),
            final(splits)@.filter(self.mature_pred()) == old(splits)@.filter(self.mature_pred()),
    {
        let ghost given = splits@;
        let operations = self.merge_operations(splits);
        proof {
            self.lemma_plan_keeps_every_split(given);
            self.lemma_mature_splits_pass_through(given);
            assert forall|i: int, j: int|
                0 <= i < operations@.len() && 0 <= j < operations@[i].splits@.len()
                    implies !self.mature(#[trigger] operations@[i].splits@[j]) by {
                assert(merged_splits(operations@)[i] == operations@[i].splits@);
                self.lemma_plan_merges_no_mature_split(given, i, j);
            }
        }
        operations
    }

    fn is_mature(&self, split: &SplitMetadata) -> (mature: bool)
    {
        self.is_mature_for_merge(split)
    }
}

/// Every range of a chain lies within the bounds of the chain.
pub proof fn lemma_chain_bounds(levels: Seq<(int, int)>, from: int, to: int, k: int)
    requires
        is_chain(levels, from, to),
        0 <= k < levels.len(),
    ensures
        from <= levels[k].0 <= levels[k].1 <= to,
    decreases levels.len() - k,
{
    if k > 0 {
        lemma_chain_start(levels, from, to, k);
    }
    if k < levels.len() - 1 {
        lemma_chain_bounds(levels, from, to, k + 1);
    }
}

/// Every range of a chain starts at or after the start of the chain.
proof fn lemma_chain_start(levels: Seq<(int, int)>, from: int, to: int, k: int)
    requires
        is_chain(levels, from, to),
        0 <= k < levels.len(),
    ensures
        from <= levels[k].0,
    decreases k,
{
    if k > 0 {
        lemma_chain_start(levels, from, to, k - 1);
        assert(levels[k - 1].0 <= levels[k - 1].1);
    }
}

} // verus!

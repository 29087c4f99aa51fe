//! What holds of every plan of the merge policy.

use vstd::multiset::Multiset;
use vstd::prelude::*;
use vstd::seq_lib::{lemma_multiset_commutative, to_multiset_contains, to_multiset_len};
use crate::merge_order::{
    lemma_most_recent_first_contains, lemma_most_recent_first_permutes, most_recent_first,
};
use crate::merge_policy::{
    is_chain, lemma_chain_bounds, total_num_docs, MergeCandidateSize,
    StableMultitenantWithTimestampMergePolicy,
};
use crate::seq_laws::{
    lemma_empty_holds_nothing, lemma_filter_all, lemma_filter_none, lemma_filter_partition,
    lemma_regroup, negation,
};
use crate::split_metadata::SplitMetadata;

verus! {

impl StableMultitenantWithTimestampMergePolicy {
    /// The runs to merge and the splits left over of the levels from the
    /// `k`-th on hold the splits of these levels, each as many times as it
    /// occurs there.
    #[verifier::rlimit(40)]
    pub proof fn lemma_levels_partition(
        self,
        sorted: Seq<SplitMetadata>,
        levels: Seq<(int, int)>,
        k: int,
    )
        requires
            is_chain(levels, 0, sorted.len() as int),
            0 <= k <= levels.len(),
        ensures
            self.planned_merges(sorted, levels, k).flatten().to_multiset().add(
                self.unmerged(sorted, levels, k).to_multiset(),
            ) == sorted.subrange(
                if k < levels.len() {
                    levels[k].0
                } else {
                    sorted.len() as int
                },
                sorted.len() as int,
            ).to_multiset(),
        decreases levels.len() - k,
    {
        let n = sorted.len() as int;
        let nothing = Seq::<SplitMetadata>::empty();
        if k >= levels.len() {
            assert(sorted.subrange(n, n) =~= nothing);
            assert(self.planned_merges(sorted, levels, k).flatten() =~= nothing);
            assert(self.unmerged(sorted, levels, k) =~= nothing);
            lemma_empty_holds_nothing(nothing);
            let none = Multiset::<SplitMetadata>::empty();
            assert(none.add(none) =~= none) by {
                broadcast use vstd::multiset::group_multiset_axioms;

            }
        } else {
            self.lemma_levels_partition(sorted, levels, k + 1);
            lemma_chain_bounds(levels, 0, n, k);
            let (a, b) = levels[k];
            assert(b == if k + 1 < levels.len() {
                levels[k + 1].0
            } else {
                n
            });
            let later = self.planned_merges(sorted, levels, k + 1);
            let left = self.unmerged(sorted, levels, k + 1);
            let tail = sorted.subrange(b, n);
            self.lemma_grow_window_bounds(sorted, a, b, b);
            let start = match self.level_candidate(sorted, a, b) {
                Some((start, end)) => start,
                None => b,
            };
            let run = sorted.subrange(start, b);
            let kept = sorted.subrange(a, start);
            let merged = self.planned_merges(sorted, levels, k).flatten();
            assert(merged == later.flatten() + run) by {
                if self.level_candidate(sorted, a, b).is_some() {
                    later.lemma_flatten_push(run);
                } else {
                    assert(run =~= nothing);
                    assert(later.flatten() + run =~= later.flatten());
                }
            }
            assert(self.unmerged(sorted, levels, k) == kept + left);
            assert(sorted.subrange(a, n) =~= kept + (run + tail));
            lemma_multiset_commutative(later.flatten(), run);
            lemma_multiset_commutative(kept, left);
            lemma_multiset_commutative(kept, run + tail);
            lemma_multiset_commutative(run, tail);
            lemma_regroup(
                later.flatten().to_multiset(),
                run.to_multiset(),
                kept.to_multiset(),
                left.to_multiset(),
                tail.to_multiset(),
            );
        }
    }

    /// A plan parts the splits it is given: each split goes to one merge or
    /// remains, as many times as it was given. In particular the number of
    /// splits is kept.
    #[verifier::rlimit(40)]
    pub proof fn lemma_plan_keeps_every_split(self, splits: Seq<SplitMetadata>)
        ensures
            self.planned_operations(splits).flatten().to_multiset().add(
                self.remaining_splits(splits).to_multiset(),
            ) == splits.to_multiset(),
            self.planned_operations(splits).flatten().len() + self.remaining_splits(splits).len()
                == splits.len(),
    {
        broadcast use vstd::multiset::group_multiset_axioms;

        let merged = self.planned_operations(splits).flatten();
        let remaining = self.remaining_splits(splits);
        if !self.merge_enabled || splits.len() < 2 {
            assert(merged =~= Seq::empty());
            lemma_empty_holds_nothing(merged);
            assert(merged.to_multiset().add(remaining.to_multiset()) =~= splits.to_multiset());
        } else {
            let young = splits.filter(negation(self.mature_pred()));
            let grown = splits.filter(self.mature_pred());
            let sorted = self.merge_candidates(splits);
            let levels = self.split_levels(sorted);
            let left = self.unmerged(sorted, levels, 0);
            lemma_filter_partition(splits, self.mature_pred());
            lemma_most_recent_first_permutes(young);
            lemma_multiset_commutative(left, grown);
            if sorted.len() == 0 {
                assert(levels =~= Seq::empty());
                assert(merged =~= Seq::empty());
                lemma_empty_holds_nothing(merged);
                lemma_empty_holds_nothing(sorted);
                assert(left =~= Seq::empty());
                assert(merged.to_multiset().add(remaining.to_multiset()) =~= splits.to_multiset());
            } else {
                self.lemma_split_levels_cover(sorted);
                self.lemma_levels_partition(sorted, levels, 0);
                assert(sorted.subrange(0, sorted.len() as int) =~= sorted);
                assert(merged.to_multiset().add(remaining.to_multiset()) =~= splits.to_multiset());
            }
        }
        to_multiset_len(merged);
        to_multiset_len(remaining);
        to_multiset_len(splits);
    }

    /// Each run to merge is a run of neighbours of the sorted sequence.
    pub proof fn lemma_planned_merges_are_runs(
        self,
        sorted: Seq<SplitMetadata>,
        levels: Seq<(int, int)>,
        k: int,
        i: int,
    ) -> (run: (int, int))
        requires
            is_chain(levels, 0, sorted.len() as int),
            0 <= k <= levels.len(),
            0 <= i < self.planned_merges(sorted, levels, k).len(),
        ensures
            0 <= run.0 <= run.1 <= sorted.len(),
            self.planned_merges(sorted, levels, k)[i] == sorted.subrange(run.0, run.1),
        decreases levels.len() - k,
    {
        lemma_chain_bounds(levels, 0, sorted.len() as int, k);
        let (a, b) = levels[k];
        let later = self.planned_merges(sorted, levels, k + 1);
        self.lemma_grow_window_bounds(sorted, a, b, b);
        if i < later.len() {
            self.lemma_planned_merges_are_runs(sorted, levels, k + 1, i)
        } else {
            self.level_candidate(sorted, a, b).unwrap()
        }
    }

    /// No merge takes a mature split: each split of each operation has
    /// fewer documents than the target.
    pub proof fn lemma_plan_merges_no_mature_split(
        self,
        splits: Seq<SplitMetadata>,
        i: int,
        j: int,
    )
        requires
            0 <= i < self.planned_operations(splits).len(),
            0 <= j < self.planned_operations(splits)[i].len(),
        ensures
            !self.mature(self.planned_operations(splits)[i][j]),
            self.planned_operations(splits)[i][j].num_docs < self.split_num_docs_target,
    {
        let young = splits.filter(negation(self.mature_pred()));
        let sorted = self.merge_candidates(splits);
        let levels = self.split_levels(sorted);
        lemma_most_recent_first_permutes(young);
        if sorted.len() == 0 {
            assert(levels =~= Seq::empty());
        } else {
            self.lemma_split_levels_cover(sorted);
            let run = self.lemma_planned_merges_are_runs(sorted, levels, 0, i);
            let split = sorted[run.0 + j];
            lemma_most_recent_first_contains(young, run.0 + j);
            let at = choose|at: int| 0 <= at < young.len() && young[at] == split;
            splits.lemma_filter_pred(negation(self.mature_pred()), at);
        }
    }

    /// Mature splits pass through a plan untouched: those that remain are
    /// those that were given, in the order in which they were given.
    pub proof fn lemma_mature_splits_pass_through(self, splits: Seq<SplitMetadata>)
        ensures
            self.remaining_splits(splits).filter(self.mature_pred()) == splits.filter(
                self.mature_pred(),
            ),
    {
        broadcast use vstd::multiset::group_multiset_axioms;

        if self.merge_enabled && splits.len() >= 2 {
            let young = splits.filter(negation(self.mature_pred()));
            let grown = splits.filter(self.mature_pred());
            let sorted = self.merge_candidates(splits);
            let levels = self.split_levels(sorted);
            let left = self.unmerged(sorted, levels, 0);
            lemma_most_recent_first_permutes(young);
            if sorted.len() == 0 {
                assert(levels =~= Seq::empty());
            } else {
                self.lemma_split_levels_cover(sorted);
                self.lemma_levels_partition(sorted, levels, 0);
                assert(sorted.subrange(0, sorted.len() as int) =~= sorted);
            }
            assert forall|i: int| 0 <= i < left.len() implies !(self.mature_pred())(
                #[trigger] left[i],
            ) by {
                let split = left[i];
                assert(left.contains(split));
                to_multiset_contains(left, split);
                to_multiset_contains(sorted, split);
                to_multiset_contains(young, split);
                let at = choose|at: int| 0 <= at < young.len() && young[at] == split;
                splits.lemma_filter_pred(negation(self.mature_pred()), at);
            }
            assert forall|i: int| 0 <= i < grown.len() implies (self.mature_pred())(
                #[trigger] grown[i],
            ) by {
                splits.lemma_filter_pred(self.mature_pred(), i);
            }
            lemma_filter_none(left, self.mature_pred());
            lemma_filter_all(grown, self.mature_pred());
            Seq::filter_distributes_over_add(left, grown, self.mature_pred());
            assert(Seq::<SplitMetadata>::empty() + grown =~= grown);
        }
    }
}

/// Whether each split of `splits` holds `num_docs` documents.
pub open spec fn all_of_size(splits: Seq<SplitMetadata>, num_docs: int) -> bool {
    forall|i: int| 0 <= i < splits.len() ==> (#[trigger] splits[i]).num_docs == num_docs
}

/// Splits of one size hold together as many documents as one of them
/// times their number.
pub proof fn lemma_total_of_same_size(splits: Seq<SplitMetadata>, num_docs: int)
    requires
        all_of_size(splits, num_docs),
    ensures
        total_num_docs(splits) == splits.len() * num_docs,
    decreases splits.len(),
{
    if splits.len() > 0 {
        let front = splits.drop_last();
        assert(all_of_size(front, num_docs)) by {
            assert forall|i: int| 0 <= i < front.len() implies (#[trigger] front[i]).num_docs
                == num_docs by {
                assert(front[i] == splits[i]);
            }
        }
        lemma_total_of_same_size(front, num_docs);
        assert(splits.len() * num_docs == front.len() * num_docs + num_docs)
            by (nonlinear_arith)
            requires
                splits.len() == front.len() + 1,
        ;
    }
}

/// Sorting splits of one size leaves splits of that size.
pub proof fn lemma_sorted_of_same_size(splits: Seq<SplitMetadata>, num_docs: int)
    requires
        all_of_size(splits, num_docs),
    ensures
        all_of_size(most_recent_first(splits), num_docs),
        most_recent_first(splits).len() == splits.len(),
{
    lemma_most_recent_first_permutes(splits);
    let sorted = most_recent_first(splits);
    assert forall|i: int| 0 <= i < sorted.len() implies (#[trigger] sorted[i]).num_docs
        == num_docs by {
        lemma_most_recent_first_contains(splits, i);
    }
}

impl StableMultitenantWithTimestampMergePolicy {
    /// Splits that all have fewer documents than a level admits make one
    /// level.
    proof fn lemma_single_level(self, splits: Seq<SplitMetadata>, ord: int, cap: int)
        requires
            0 <= ord <= splits.len(),
            forall|i: int| ord <= i < splits.len() ==> (#[trigger] splits[i]).num_docs < cap,
        ensures
            self.levels_scan(splits, ord, 0, cap) == seq![(0int, splits.len() as int)],
        decreases splits.len() - ord,
    {
        if ord < splits.len() {
            self.lemma_single_level(splits, ord + 1, cap);
        }
    }

    /// A run that nothing forbids to grow takes the whole level.
    proof fn lemma_run_takes_level(self, splits: Seq<SplitMetadata>, start: int, end: int)
        requires
            0 <= start <= end,
            forall|from: int|
                0 < from <= start ==> self.candidate_size(#[trigger] splits.subrange(from, end))
                    != MergeCandidateSize::OneMoreSplitWouldBeTooBig,
        ensures
            self.grow_window(splits, 0, start, end) == 0,
        decreases start,
    {
        if start > 0 {
            self.lemma_run_takes_level(splits, start - 1, end);
        }
    }

    /// As many splits of one size as a merge asks for are merged together,
    /// all of them in one operation, and none remains.
    ///
    /// This holds where merging is on and a merge takes two splits at
    /// least and no fewer than the most it may take; where the splits are not
    /// mature, and one fewer of them would not fill a mature split; and where
    /// the first level admits them.
    pub proof fn lemma_merge_factor_splits_make_one_merge(
        self,
        splits: Seq<SplitMetadata>,
        num_docs: int,
    )
        requires
            self.merge_enabled,
            2 <= self.merge_factor <= self.max_merge_factor,
            splits.len() == self.merge_factor,
            all_of_size(splits, num_docs),
            num_docs < self.split_num_docs_target,
            (self.merge_factor - 1) * num_docs < self.split_num_docs_target,
            num_docs > 0 || self.min_level_num_docs > 0,
        ensures
            self.planned_operations(splits) == seq![most_recent_first(splits)],
            self.remaining_splits(splits) == Seq::<SplitMetadata>::empty(),
    {
        let n = splits.len() as int;
        let mature = self.mature_pred();
        assert forall|i: int| 0 <= i < n implies negation(mature)(#[trigger] splits[i]) by {}
        assert forall|i: int| 0 <= i < n implies !mature(#[trigger] splits[i]) by {}
        lemma_filter_all(splits, negation(mature));
        lemma_filter_none(splits, mature);
        let sorted = self.merge_candidates(splits);
        assert(sorted == most_recent_first(splits));
        lemma_sorted_of_same_size(splits, num_docs);
        let cap = self.first_level_cap(sorted);
        assert(sorted[0].num_docs == num_docs);
        self.lemma_single_level(sorted, 0, cap);
        let levels = self.split_levels(sorted);
        assert(levels == seq![(0int, n)]);
        assert forall|from: int| 0 < from <= n implies self.candidate_size(
            #[trigger] sorted.subrange(from, n),
        ) != MergeCandidateSize::OneMoreSplitWouldBeTooBig by {
            let run = sorted.subrange(from, n);
            assert(all_of_size(run, num_docs)) by {
                assert forall|i: int| 0 <= i < run.len() implies (#[trigger] run[i]).num_docs
                    == num_docs by {
                    assert(run[i] == sorted[from + i]);
                }
            }
            lemma_total_of_same_size(run, num_docs);
            assert(run.len() * num_docs <= (self.merge_factor - 1) * num_docs)
                by (nonlinear_arith)
                requires
                    0 <= run.len() <= self.merge_factor - 1,
                    0 <= num_docs,
            ;
        }
        self.lemma_run_takes_level(sorted, n, n);
        assert(sorted.subrange(0, n) =~= sorted);
        assert(self.candidate_size(sorted) != MergeCandidateSize::TooSmall);
        assert(self.level_candidate(sorted, 0, n) == Some((0int, n)));
        assert(self.planned_merges(sorted, levels, 1) =~= Seq::empty());
        assert(self.planned_merges(sorted, levels, 0) =~= seq![sorted]);
        assert(self.unmerged(sorted, levels, 1) =~= Seq::empty());
        assert(sorted.subrange(0, 0) =~= Seq::empty());
        assert(self.unmerged(sorted, levels, 0) =~= Seq::empty());
        assert(self.remaining_splits(splits) =~= Seq::empty());
    }

    /// Where every run of neighbours is too small, no level has a run to
    /// merge: nothing is merged, and the splits remain as they are sorted.
    proof fn lemma_small_runs_make_no_merge(
        self,
        sorted: Seq<SplitMetadata>,
        levels: Seq<(int, int)>,
        k: int,
    )
        requires
            is_chain(levels, 0, sorted.len() as int),
            0 <= k <= levels.len(),
            forall|from: int, to: int|
                0 <= from <= to <= sorted.len() ==> self.candidate_size(
                    #[trigger] sorted.subrange(from, to),
                ) == MergeCandidateSize::TooSmall,
        ensures
            self.planned_merges(sorted, levels, k) == Seq::<Seq<SplitMetadata>>::empty(),
            self.unmerged(sorted, levels, k) == sorted.subrange(
                if k < levels.len() {
                    levels[k].0
                } else {
                    sorted.len() as int
                },
                sorted.len() as int,
            ),
        decreases levels.len() - k,
    {
        let n = sorted.len() as int;
        if k >= levels.len() {
            assert(sorted.subrange(n, n) =~= Seq::empty());
        } else {
            self.lemma_small_runs_make_no_merge(sorted, levels, k + 1);
            lemma_chain_bounds(levels, 0, n, k);
            let (a, b) = levels[k];
            self.lemma_grow_window_bounds(sorted, a, b, b);
            let start = self.grow_window(sorted, a, b, b);
            assert(self.candidate_size(sorted.subrange(start, b)) == MergeCandidateSize::TooSmall);
            assert(self.level_candidate(sorted, a, b).is_none());
            assert(sorted.subrange(a, b) + sorted.subrange(b, n) =~= sorted.subrange(a, n));
        }
    }

    /// One split fewer of one size than a merge asks for are not merged:
    /// all of them remain.
    ///
    /// This holds where a merge takes no fewer splits than the most it may
    /// take, and where the splits are mature or do not fill a mature split
    /// together.
    pub proof fn lemma_too_few_splits_make_no_merge(
        self,
        splits: Seq<SplitMetadata>,
        num_docs: int,
    )
        requires
            self.merge_factor <= self.max_merge_factor,
            splits.len() == self.merge_factor - 1,
            all_of_size(splits, num_docs),
            num_docs >= self.split_num_docs_target || (self.merge_factor - 1) * num_docs
                < self.split_num_docs_target,
        ensures
            self.planned_operations(splits) == Seq::<Seq<SplitMetadata>>::empty(),
            self.remaining_splits(splits).to_multiset() == splits.to_multiset(),
            self.remaining_splits(splits).len() == splits.len(),
    {
        let n = splits.len() as int;
        let mature = self.mature_pred();
        if !self.merge_enabled || n < 2 {
        } else if num_docs >= self.split_num_docs_target {
            assert forall|i: int| 0 <= i < n implies mature(#[trigger] splits[i]) by {}
            assert forall|i: int| 0 <= i < n implies !negation(mature)(#[trigger] splits[i]) by {}
            lemma_filter_all(splits, mature);
            lemma_filter_none(splits, negation(mature));
            let sorted = self.merge_candidates(splits);
            assert(sorted =~= Seq::empty());
            assert(self.split_levels(sorted) =~= Seq::empty());
            assert(self.remaining_splits(splits) =~= splits);
        } else {
            assert forall|i: int| 0 <= i < n implies negation(mature)(#[trigger] splits[i]) by {}
            assert forall|i: int| 0 <= i < n implies !mature(#[trigger] splits[i]) by {}
            lemma_filter_all(splits, negation(mature));
            lemma_filter_none(splits, mature);
            let sorted = self.merge_candidates(splits);
            lemma_sorted_of_same_size(splits, num_docs);
            lemma_most_recent_first_permutes(splits);
            let levels = self.split_levels(sorted);
            self.lemma_split_levels_cover(sorted);
            assert forall|from: int, to: int| 0 <= from <= to <= sorted.len() implies
                self.candidate_size(#[trigger] sorted.subrange(from, to))
                == MergeCandidateSize::TooSmall by {
                let run = sorted.subrange(from, to);
                assert(all_of_size(run, num_docs)) by {
                    assert forall|i: int| 0 <= i < run.len() implies (#[trigger] run[i]).num_docs
                        == num_docs by {
                        assert(run[i] == sorted[from + i]);
                    }
                }
                lemma_total_of_same_size(run, num_docs);
                assert(run.len() * num_docs <= (self.merge_factor - 1) * num_docs)
                    by (nonlinear_arith)
                    requires
                        0 <= run.len() <= self.merge_factor - 1,
                        0 <= num_docs,
                ;
            }
            self.lemma_small_runs_make_no_merge(sorted, levels, 0);
            assert(sorted.subrange(0, sorted.len() as int) =~= sorted);
            assert(self.remaining_splits(splits) =~= sorted);
        }
    }
}

impl StableMultitenantWithTimestampMergePolicy {
    /// Whether `levels` are tiers of `splits`, the first of which admits
    /// splits of fewer than `cap` documents: the splits of a level that
    /// follow its first have fewer documents than the level admits, and a
    /// level after the first is opened by a split that the level before does
    /// not admit, and holds that split at least.
    pub open spec fn is_tiered(
        self,
        splits: Seq<SplitMetadata>,
        levels: Seq<(int, int)>,
        cap: int,
    ) -> bool {
        &&& forall|i: int| levels[0].0 < i < levels[0].1 ==> (#[trigger] splits[i]).num_docs < cap
        &&& forall|k: int, i: int|
            1 <= k < levels.len() && levels[k].0 < i < levels[k].1 ==> (
            #[trigger] splits[i]).num_docs < 3 * splits[(#[trigger] levels[k]).0].num_docs
        &&& levels.len() > 1 ==> splits[levels[1].0].num_docs >= cap
        &&& forall|k: int|
            2 <= k < levels.len() ==> splits[(#[trigger] levels[k]).0].num_docs
                >= 3 * splits[levels[k - 1].0].num_docs
        &&& forall|k: int|
            1 <= k < levels.len() ==> 0 <= (#[trigger] levels[k]).0 < levels[k].1 <= splits.len()
    }

    /// The levels scanned from a split on are tiers.
    proof fn lemma_levels_scan_tiered(
        self,
        splits: Seq<SplitMetadata>,
        ord: int,
        level_start: int,
        cap: int,
    )
        requires
            0 <= level_start <= ord <= splits.len(),
            forall|i: int| level_start < i < ord ==> (#[trigger] splits[i]).num_docs < cap,
        ensures
            self.is_tiered(splits, self.levels_scan(splits, ord, level_start, cap), cap),
        decreases splits.len() - ord,
    {
        let levels = self.levels_scan(splits, ord, level_start, cap);
        self.lemma_levels_scan_chain(splits, ord, level_start, cap);
        if ord >= splits.len() {
        } else if splits[ord].num_docs >= cap {
            let next_cap = 3 * splits[ord].num_docs;
            let rest = self.levels_scan(splits, ord + 1, ord, next_cap);
            self.lemma_levels_scan_tiered(splits, ord + 1, ord, next_cap);
            self.lemma_levels_scan_chain(splits, ord + 1, ord, next_cap);
            assert(levels == seq![(level_start, ord)] + rest);
            assert(levels[0] == (level_start, ord));
            assert forall|k: int| 1 <= k < levels.len() implies #[trigger] levels[k] == rest[k
                - 1] by {}
            assert(levels[1] == rest[0]);
            assert forall|k: int, i: int|
                1 <= k < levels.len() && levels[k].0 < i < levels[k].1 implies (
            #[trigger] splits[i]).num_docs < 3 * splits[(#[trigger] levels[k]).0].num_docs by {
                assert(levels[k] == rest[k - 1]);
            }
            assert forall|k: int| 2 <= k < levels.len() implies splits[(
            #[trigger] levels[k]).0].num_docs >= 3 * splits[levels[k - 1].0].num_docs by {
                assert(levels[k] == rest[k - 1]);
                assert(levels[k - 1] == rest[k - 2]);
            }
            assert forall|k: int| 1 <= k < levels.len() implies 0 <= (#[trigger] levels[k]).0
                < levels[k].1 <= splits.len() by {
                assert(levels[k] == rest[k - 1]);
                if k == 1 {
                } else {
                    assert(0 <= rest[k - 1].0 < rest[k - 1].1 <= splits.len());
                }
            }
        } else {
            self.lemma_levels_scan_tiered(splits, ord + 1, level_start, cap);
        }
    }

    /// Levels are tiers that grow at least threefold: within a level, the
    /// splits that follow the first have fewer documents than the level
    /// admits; and each level after the first is opened by a split that the
    /// level before does not admit, so that it admits three times as many
    /// documents at least.
    pub proof fn lemma_levels_are_tiered(self, splits: Seq<SplitMetadata>)
        requires
            splits.len() > 0,
        ensures
            self.is_tiered(splits, self.split_levels(splits), self.first_level_cap(splits)),
    {
        self.lemma_levels_scan_tiered(splits, 0, 0, self.first_level_cap(splits));
    }

    /// The run picked in a level is the longest run at the end of the level
    /// that nothing forbids to grow: it starts where the level starts or
    /// where it must not grow any further, and no shorter run at the end of
    /// the level had to stop.
    pub proof fn lemma_run_is_longest(
        self,
        splits: Seq<SplitMetadata>,
        level_start: int,
        start: int,
        end: int,
    )
        requires
            level_start <= start <= end,
        ensures
            level_start <= self.grow_window(splits, level_start, start, end) <= start,
            self.grow_window(splits, level_start, start, end) == level_start
                || self.candidate_size(
                splits.subrange(self.grow_window(splits, level_start, start, end), end),
            ) == MergeCandidateSize::OneMoreSplitWouldBeTooBig,
            forall|from: int|
                self.grow_window(splits, level_start, start, end) < from <= start
                    ==> self.candidate_size(#[trigger] splits.subrange(from, end))
                    != MergeCandidateSize::OneMoreSplitWouldBeTooBig,
        decreases start - level_start,
    {
        if start <= level_start || self.candidate_size(splits.subrange(start, end))
            == MergeCandidateSize::OneMoreSplitWouldBeTooBig {
        } else {
            self.lemma_run_is_longest(splits, level_start, start - 1, end);
        }
    }
}

} // verus!

//! How many splits an index can hold at most once the merge policy has had
//! its way, for a given number of documents.
//!
//! The bound walks a ladder of synthetic levels. Each level is counted as
//! holding one split less than a merge takes, of the smallest size the level
//! admits; the documents that do not fill a level are counted as splits of
//! that smallest size.

use vstd::prelude::*;
use crate::merge_policy::StableMultitenantWithTimestampMergePolicy;

verus! {

/// The numbers of `levels` as mathematical integers.
pub open spec fn as_ints(levels: Seq<usize>) -> Seq<int> {
    levels.map_values(|level: usize| level as int)
}

/// Whether each number of `els` is at most the one that follows it.
pub open spec fn neighbours_ordered(els: Seq<usize>) -> bool {
    forall|i: int| 0 <= i < els.len() - 1 ==> #[trigger] els[i] <= els[i + 1]
}

/// Whether `els` is sorted in ascending order.
pub fn is_sorted(els: &[usize]) -> (sorted: bool)
    ensures
        sorted == neighbours_ordered(els@),
{
    if els.len() < 2 {
        return true;
    }
    let mut i: usize = 0;
    while i < els.len() - 1
        invariant
            els@.len() >= 2,
            0 <= i <= els@.len() - 1,
            forall|j: int| 0 <= j < i ==> #[trigger] els@[j] <= els@[j + 1],
        decreases els@.len() - i,
    {
        if els[i] > els[i + 1] {
            return false;
        }
        i += 1;
    }
    true
}

impl StableMultitenantWithTimestampMergePolicy {
    /// Whether the settings of the policy allow to bound the number of
    /// splits: levels have a size, a merge takes several splits, and a
    /// mature split is larger than the first level.
    pub open spec fn bounds_number_of_splits(self) -> bool {
        &&& self.min_level_num_docs > 0
        &&& self.merge_factor > 1
        &&& self.max_merge_factor >= self.merge_factor
        &&& self.split_num_docs_target > self.min_level_num_docs
    }

    /// The starts of the levels from the one that starts at `level_start`
    /// on, each `growth_factor` times the one before, up to the target
    /// number of documents, which ends the ladder.
    pub open spec fn grown_levels(self, growth_factor: int, level_start: int) -> Seq<int>
        decreases
                (if level_start < self.split_num_docs_target {
                    self.split_num_docs_target - level_start
                } else {
                    0
                }),
        when growth_factor >= 2 && level_start >= 1
    {
        if level_start < self.split_num_docs_target {
            proof {
                assert(level_start * growth_factor > level_start) by (nonlinear_arith)
                    requires
                        growth_factor >= 2,
                        level_start >= 1,
                ;
            }
            seq![level_start] + self.grown_levels(growth_factor, level_start * growth_factor)
        } else {
            seq![self.split_num_docs_target as int]
        }
    }

    /// The ladder of levels for `growth_factor`: the numbers of documents
    /// at which the levels start. The first level starts at one document,
    /// the second where the first level of the policy ends.
    pub open spec fn case_levels(self, growth_factor: int) -> Seq<int> {
        seq![1int] + self.grown_levels(growth_factor, self.min_level_num_docs as int)
    }

    /// The most splits that `num_docs` documents can make, counting from
    /// the level `from` of `levels`. With `sorted`, a level is full once it
    /// holds one split less than a merge takes, all of the size at which the
    /// level starts; without, once it holds one split of that size and
    /// splits of one document for the others.
    pub open spec fn max_num_splits_from(
        self,
        num_docs: int,
        levels: Seq<int>,
        from: int,
        sorted: bool,
    ) -> int
        decreases levels.len() - from,
    {
        if num_docs == 0 || from < 0 || from >= levels.len() {
            0
        } else if num_docs < levels[from] {
            0
        } else {
            let head = levels[from];
            let saturation = if sorted {
                head * (self.merge_factor - 1)
            } else {
                head + (self.merge_factor - 2)
            };
            if from == levels.len() - 1 || num_docs <= saturation {
                (num_docs + head - 1) / head
            } else {
                self.merge_factor - 1 + self.max_num_splits_from(
                    num_docs - saturation,
                    levels,
                    from + 1,
                    sorted,
                )
            }
        }
    }

    /// The ladder from `level_start` on is made of positive numbers in
    /// ascending order, starts at `level_start` or at the target, and ends
    /// at the target.
    pub proof fn lemma_grown_levels(self, growth_factor: int, level_start: int)
        requires
            growth_factor >= 2,
            level_start >= 1,
            self.split_num_docs_target >= 1,
        ensures
            self.grown_levels(growth_factor, level_start).len() >= 1,
            self.grown_levels(growth_factor, level_start)[0] == if level_start
                < self.split_num_docs_target {
                level_start
            } else {
                self.split_num_docs_target as int
            },
            self.grown_levels(growth_factor, level_start).last() == self.split_num_docs_target,
            forall|i: int|
                0 <= i < self.grown_levels(growth_factor, level_start).len() ==> 1 <= (
                #[trigger] self.grown_levels(growth_factor, level_start)[i])
                    <= self.split_num_docs_target,
            forall|i: int|
                0 <= i < self.grown_levels(growth_factor, level_start).len() - 1 ==> (
                #[trigger] self.grown_levels(growth_factor, level_start)[i]) * growth_factor
                    == self.grown_levels(growth_factor, level_start)[i + 1] || (i
                    == self.grown_levels(growth_factor, level_start).len() - 2
                    && self.grown_levels(growth_factor, level_start)[i] * growth_factor
                    >= self.split_num_docs_target),
            forall|i: int|
                0 <= i < self.grown_levels(growth_factor, level_start).len() - 1 ==> (
                #[trigger] self.grown_levels(growth_factor, level_start)[i])
                    <= self.grown_levels(growth_factor, level_start)[i + 1],
        decreases
                (if level_start < self.split_num_docs_target {
                    self.split_num_docs_target - level_start
                } else {
                    0
                }),
    {
        if level_start < self.split_num_docs_target {
            let next = level_start * growth_factor;
            assert(next > level_start) by (nonlinear_arith)
                requires
                    next == level_start * growth_factor,
                    growth_factor >= 2,
                    level_start >= 1,
            ;
            self.lemma_grown_levels(growth_factor, next);
            let rest = self.grown_levels(growth_factor, next);
            let levels = self.grown_levels(growth_factor, level_start);
            assert(levels == seq![level_start] + rest);
            assert(levels.last() == rest.last());
            assert forall|i: int| 0 <= i < levels.len() implies 1 <= (#[trigger] levels[i])
                <= self.split_num_docs_target by {
                if i > 0 {
                    assert(levels[i] == rest[i - 1]);
                }
            }
            assert forall|i: int| 0 <= i < levels.len() - 1 implies (#[trigger] levels[i])
                * growth_factor == levels[i + 1] || (i == levels.len() - 2 && levels[i]
                * growth_factor >= self.split_num_docs_target) by {
                assert(levels[i + 1] == rest[i]);
                if i > 0 {
                    assert(levels[i] == rest[i - 1]);
                }
            }
            assert forall|i: int| 0 <= i < levels.len() - 1 implies (#[trigger] levels[i])
                <= levels[i + 1] by {
                assert(levels[i + 1] == rest[i]);
                if i > 0 {
                    assert(levels[i] == rest[i - 1]);
                }
            }
        }
    }

    /// The ladder of levels for `growth_factor`, as numbers of documents:
    /// one, then the size of the first level and its multiples by powers of
    /// `growth_factor` as long as they stay below the target number of
    /// documents, then the target.
    pub fn case_levels_given_growth_factor(&self, growth_factor: usize) -> (levels: Vec<usize>)
        requires
            self.bounds_number_of_splits(),
            growth_factor > 1,
        ensures
            as_ints(levels@) == self.case_levels(growth_factor as int),
            neighbours_ordered(levels@),
            forall|i: int| 0 <= i < levels@.len() ==> #[trigger] levels@[i] >= 1,
            levels@.len() >= 2,
    {
        let mut levels_start_num_docs: Vec<usize> = Vec::new();
        levels_start_num_docs.push(1);
        let mut level_end_doc: usize = self.min_level_num_docs;
        let mut beyond_reach = false;
        let ghost mut end: int = self.min_level_num_docs as int;
        proof {
            assert(as_ints(levels_start_num_docs@) =~= seq![1int]);
        }
        while !beyond_reach && level_end_doc < self.split_num_docs_target
            invariant
                growth_factor > 1,
                end >= 1,
                !beyond_reach ==> level_end_doc == end,
                beyond_reach ==> end >= self.split_num_docs_target,
                levels_start_num_docs@.len() >= 1,
                as_ints(levels_start_num_docs@) + self.grown_levels(growth_factor as int, end)
                    == self.case_levels(growth_factor as int),
            decreases
                    (if beyond_reach || level_end_doc >= self.split_num_docs_target {
                        0
                    } else {
                        self.split_num_docs_target - level_end_doc
                    }),
        {
            let ghost before = as_ints(levels_start_num_docs@);
            levels_start_num_docs.push(level_end_doc);
            proof {
                let next = end * growth_factor;
                assert(next > end) by (nonlinear_arith)
                    requires
                        next == end * growth_factor,
                        growth_factor >= 2,
                        end >= 1,
                ;
                assert(as_ints(levels_start_num_docs@) =~= before.push(end));
                assert(before + (seq![end] + self.grown_levels(growth_factor as int, next))
                    =~= before.push(end) + self.grown_levels(growth_factor as int, next));
            }
            match level_end_doc.checked_mul(growth_factor) {
                Some(next) => {
                    level_end_doc = next;
                },
                None => {
                    beyond_reach = true;
                },
            }
            proof {
                end = end * growth_factor;
            }
        }
        let ghost before = as_ints(levels_start_num_docs@);
        levels_start_num_docs.push(self.split_num_docs_target);
        proof {
            assert(as_ints(levels_start_num_docs@) =~= before.push(
                self.split_num_docs_target as int,
            ));
            assert(before + seq![self.split_num_docs_target as int] =~= before.push(
                self.split_num_docs_target as int,
            ));
            self.lemma_grown_levels(growth_factor as int, self.min_level_num_docs as int);
            let ladder = self.case_levels(growth_factor as int);
            let grown = self.grown_levels(growth_factor as int, self.min_level_num_docs as int);
            let levels = levels_start_num_docs@;
            assert(as_ints(levels).len() == levels.len());
            assert forall|i: int| 0 <= i < levels.len() implies #[trigger] levels[i] >= 1 by {
                assert(as_ints(levels)[i] == levels[i] as int);
                if i > 0 {
                    assert(ladder[i] == grown[i - 1]);
                }
            }
            assert forall|i: int| 0 <= i < levels.len() - 1 implies #[trigger] levels[i]
                <= levels[i + 1] by {
                assert(as_ints(levels)[i] == levels[i] as int);
                assert(as_ints(levels)[i + 1] == levels[i + 1] as int);
                assert(ladder[i + 1] == grown[i]);
                if i > 0 {
                    assert(ladder[i] == grown[i - 1]);
                }
            }
        }
        levels_start_num_docs
    }

    /// The most splits that `num_docs` documents can make on the ladder
    /// `levels`.
    pub fn max_num_splits_knowning_levels(
        &self,
        num_docs: u64,
        levels: &[usize],
        sorted: bool,
    ) -> (max_num_splits: usize)
        requires
            neighbours_ordered(levels@),
            self.merge_factor > 1,
            num_docs > 0 ==> levels@.len() > 0,
            forall|i: int| 0 <= i < levels@.len() ==> #[trigger] levels@[i] >= 1,
            num_docs <= usize::MAX,
        ensures
            max_num_splits == self.max_num_splits_from(
                num_docs as int,
                as_ints(levels@),
                0,
                sorted,
            ),
            max_num_splits <= num_docs,
    {
        let ghost ladder = as_ints(levels@);
        let mut remaining: u128 = num_docs as u128;
        let mut counted: u128 = 0;
        let mut from: usize = 0;
        while from < levels.len()
            invariant
                ladder == as_ints(levels@),
                self.merge_factor > 1,
                num_docs <= usize::MAX,
                forall|i: int| 0 <= i < levels@.len() ==> #[trigger] levels@[i] >= 1,
                0 <= from <= levels@.len(),
                counted + remaining <= num_docs,
                from == levels@.len() ==> remaining == 0,
                counted + self.max_num_splits_from(remaining as int, ladder, from as int, sorted)
                    == self.max_num_splits_from(num_docs as int, ladder, 0, sorted),
            decreases levels@.len() - from,
        {
            if remaining == 0 {
                return counted as usize;
            }
            let head: u128 = levels[from] as u128;
            assert(ladder[from as int] == head);
            if remaining < head {
                return counted as usize;
            }
            let per_level: u128 = (self.merge_factor - 1) as u128;
            let saturation: u128 = if sorted {
                assert(head * per_level <= 0xffff_ffff_ffff_ffff * 0xffff_ffff_ffff_ffff)
                    by (nonlinear_arith)
                    requires
                        0 <= head <= 0xffff_ffff_ffff_ffff,
                        0 <= per_level <= 0xffff_ffff_ffff_ffff,
                ;
                head * per_level
            } else {
                head + (per_level - 1)
            };
            assert(saturation >= per_level) by (nonlinear_arith)
                requires
                    saturation == if sorted {
                        head * per_level
                    } else {
                        head + (per_level - 1)
                    },
                    head >= 1,
                    per_level >= 1,
            ;
            if from == levels.len() - 1 || remaining <= saturation {
                let last: u128 = (remaining + head - 1) / head;
                assert(last <= remaining) by (nonlinear_arith)
                    requires
                        last == (remaining + head - 1) / (head as int),
                        head >= 1,
                        remaining >= 1,
                ;
                return (counted + last) as usize;
            }
            remaining = remaining - saturation;
            counted = counted + per_level;
            from += 1;
        }
        counted as usize
    }

    /// The most splits that an index of `num_docs` documents holds once
    /// every merge that the policy asks for is done, when splits arrive in
    /// the best order: levels grow by the merge factor.
    pub fn max_num_splits_ideal_case(&self, num_docs: u64) -> (max_num_splits: usize)
        requires
            self.bounds_number_of_splits(),
            num_docs <= usize::MAX,
        ensures
            max_num_splits == self.max_num_splits_from(
                num_docs as int,
                self.case_levels(self.merge_factor as int),
                0,
                true,
            ),
            max_num_splits <= num_docs,
    {
        let levels = self.case_levels_given_growth_factor(self.merge_factor);
        self.max_num_splits_knowning_levels(num_docs, levels.as_slice(), true)
    }

    /// The most splits that an index of `num_docs` documents holds once
    /// every merge that the policy asks for is done, when splits arrive in
    /// the worst order: levels grow threefold.
    pub fn max_num_splits_worst_case(&self, num_docs: u64) -> (max_num_splits: usize)
        requires
            self.bounds_number_of_splits(),
            num_docs <= usize::MAX,
        ensures
            max_num_splits == self.max_num_splits_from(
                num_docs as int,
                self.case_levels(3),
                0,
                false,
            ),
            max_num_splits <= num_docs,
    {
        let levels = self.case_levels_given_growth_factor(3);
        self.max_num_splits_knowning_levels(num_docs, levels.as_slice(), false)
    }
}

} // verus!

use quickwit_indexing::merge_bounds::is_sorted;
use quickwit_indexing::merge_order::{comes_before, sort_most_recent_first};
use quickwit_indexing::merge_policy::{remove_matching_items, MergeCandidateSize};
use quickwit_indexing::{
    MergeOperation, MergePolicy, SplitMetadata, StableMultitenantWithTimestampMergePolicy,
    TimeRange,
};

fn create_splits_with_timestamps(num_docs_vec: Vec<(usize, TimeRange)>) -> Vec<SplitMetadata> {
    num_docs_vec
        .into_iter()
        .enumerate()
        .map(|(split_ord, (num_docs, time_range))| SplitMetadata {
            split_id: format!("split_{:02}", split_ord),
            num_docs,
            time_range: Some(time_range),
            ..Default::default()
        })
        .collect()
}

fn create_splits(num_docs_vec: Vec<usize>) -> Vec<SplitMetadata> {
    let num_docs_with_timestamp = num_docs_vec
        .into_iter()
        // The same time range for all: the stable sort keeps their order.
        .map(|num_docs| (num_docs, TimeRange::new(1630563067, 1630564067)))
        .collect();
    create_splits_with_timestamps(num_docs_with_timestamp)
}

fn sorted_split_ids(merge_op: &MergeOperation) -> Vec<String> {
    let mut split_ids: Vec<String> = merge_op
        .splits_as_slice()
        .iter()
        .map(|split| split.split_id().to_string())
        .collect();
    split_ids.sort();
    split_ids
}

#[test]
fn test_split_is_mature() {
    let merge_policy = StableMultitenantWithTimestampMergePolicy::default();
    // Split under max_merge_docs is not mature.
    let mut split = create_splits(vec![9_000_000]).into_iter().next().unwrap();
    assert!(!merge_policy.is_mature(&split));
    // All splits are mature when merge is disabled.
    let merge_policy_with_disabled_merge = StableMultitenantWithTimestampMergePolicy {
        merge_enabled: false,
        ..Default::default()
    };
    assert!(merge_policy_with_disabled_merge.is_mature(&split));
    // Split under max_merge_docs is not mature.
    assert!(!merge_policy.is_mature(&split));
    // Split with docs > max_merge_docs is mature.
    split.num_docs = merge_policy.split_num_docs_target + 1;
    assert!(merge_policy.is_mature(&split));
}

#[test]
fn test_build_split_levels() {
    let merge_policy = StableMultitenantWithTimestampMergePolicy::default();
    let splits = Vec::new();
    let split_groups = merge_policy.build_split_levels(&splits);
    assert!(split_groups.is_empty());
}

#[test]
fn test_stable_multitenant_merge_policy_build_split_simple() {
    let merge_policy = StableMultitenantWithTimestampMergePolicy::default();
    let splits = create_splits(vec![100_000, 100_000, 100_000, 800_000, 900_000]);
    let split_groups = merge_policy.build_split_levels(&splits);
    assert_eq!(&split_groups, &[0..3, 3..5]);
}

#[test]
fn test_stable_multitenant_merge_policy_build_split_perfect_world() {
    let merge_policy = StableMultitenantWithTimestampMergePolicy::default();
    let splits = create_splits(vec![
        100_000, 100_000, 100_000, 100_000, 100_000, 100_000, 100_000, 100_000, 800_000,
        1_600_000,
    ]);
    let split_groups = merge_policy.build_split_levels(&splits);
    assert_eq!(&split_groups, &[0..8, 8..10]);
}

#[test]
fn test_stable_multitenant_merge_policy_build_split_decreasing() {
    let merge_policy = StableMultitenantWithTimestampMergePolicy::default();
    let splits = create_splits(vec![
        100_000, 100_000, 100_000, 100_000, 100_000, 100_000, 100_000, 100_000, 800_000,
        100_000, 1_600_000,
    ]);
    let split_groups = merge_policy.build_split_levels(&splits);
    assert_eq!(&split_groups, &[0..8, 8..11]);
}

#[test]
fn test_stable_multitenant_merge_policy_not_enough_splits() {
    let merge_policy = StableMultitenantWithTimestampMergePolicy::default();
    let mut splits = create_splits(vec![100; 7]);
    assert_eq!(splits.len(), 7);
    assert!(merge_policy.operations(&mut splits).is_empty());
}

#[test]
fn test_stable_multitenant_merge_policy_just_enough_splits_for_a_merge() {
    let merge_policy = StableMultitenantWithTimestampMergePolicy::default();
    let mut splits = create_splits(vec![100; 10]);
    let mut merge_ops = merge_policy.operations(&mut splits);
    assert!(splits.is_empty());
    assert_eq!(merge_ops.len(), 1);
    let merge_op = merge_ops.pop().unwrap();
    let merge_segment_ids = sorted_split_ids(&merge_op);
    assert_eq!(
        merge_segment_ids,
        &[
            "split_00", "split_01", "split_02", "split_03", "split_04", "split_05", "split_06",
            "split_07", "split_08", "split_09"
        ]
    );
}

#[test]
fn test_stable_multitenant_merge_policy_many_splits_on_same_level() {
    let merge_policy = StableMultitenantWithTimestampMergePolicy::default();
    let mut splits = create_splits(vec![100; 13]);
    let mut merge_ops = merge_policy.operations(&mut splits);
    assert_eq!(splits.len(), 1);
    assert_eq!(splits[0].split_id(), "split_00");
    assert_eq!(merge_ops.len(), 1);
    let merge_op = merge_ops.pop().unwrap();
    let merge_split_ids = sorted_split_ids(&merge_op);
    assert_eq!(
        merge_split_ids,
        &[
            "split_01", "split_02", "split_03", "split_04", "split_05", "split_06", "split_07",
            "split_08", "split_09", "split_10", "split_11", "split_12"
        ]
    );
}

#[test]
fn test_stable_multitenant_merge_policy_splits_below_min_level() {
    let merge_policy = StableMultitenantWithTimestampMergePolicy::default();
    let mut splits = create_splits(vec![
        100, 1000, 10_000, 10_000, 10_000, 10_000, 10_000, 40_000, 40_000, 40_000,
    ]);
    let mut merge_ops = merge_policy.operations(&mut splits);
    assert_eq!(splits.len(), 0);
    assert_eq!(merge_ops.len(), 1);
    let merge_op = merge_ops.pop().unwrap();
    let merge_split_ids = sorted_split_ids(&merge_op);
    assert_eq!(
        merge_split_ids,
        &[
            "split_00", "split_01", "split_02", "split_03", "split_04", "split_05", "split_06",
            "split_07", "split_08", "split_09"
        ]
    );
}

#[test]
fn test_stable_multitenant_merge_policy_splits_above_min_level() {
    let merge_policy = StableMultitenantWithTimestampMergePolicy::default();
    let mut splits = create_splits(vec![
        100_000, 1_000_000, 1_000_000, 1_000_000, 1_000_000, 1_000_000, 1_000_000, 1_000_000,
    ]);
    let merge_ops = merge_policy.operations(&mut splits);
    assert_eq!(splits.len(), 8);
    assert_eq!(merge_ops.len(), 0);
}

#[test]
fn test_stable_multitenant_merge_policy_above_max_merge_docs_is_ignored() {
    let merge_policy = StableMultitenantWithTimestampMergePolicy::default();
    let mut splits = create_splits(vec![
        100_000, 100_000, 100_000, 100_000, 100_000,
        10_000_000, // this split should not interfere with the merging of other splits
        100_000, 100_000, 100_000, 100_000, 100_000,
    ]);
    let merge_ops = merge_policy.operations(&mut splits);
    assert_eq!(splits.len(), 1);
    assert_eq!(splits[0].num_docs, 10_000_000);
    assert_eq!(merge_ops.len(), 1);
}

#[test]
fn test_merge_policy_splits_too_large_are_ignored() {
    let merge_policy = StableMultitenantWithTimestampMergePolicy::default();
    let mut splits = create_splits(vec![9_999_999, 10_000_000]);
    let merge_ops = merge_policy.operations(&mut splits);
    assert_eq!(splits.len(), 2);
    assert_eq!(splits[0].num_docs, 9_999_999);
    assert_eq!(splits[1].num_docs, 10_000_000);
    assert!(merge_ops.is_empty());
}

#[test]
fn test_merge_policy_splits_entire_level_reach_merge_max_doc() {
    let merge_policy = StableMultitenantWithTimestampMergePolicy::default();
    let mut splits = create_splits(vec![5_000_000, 5_000_000]);
    let merge_ops = merge_policy.operations(&mut splits);
    assert!(splits.is_empty());
    assert_eq!(merge_ops.len(), 1);
    assert_eq!(merge_ops[0].splits_as_slice().len(), 2);
}

#[test]
fn test_merge_policy_last_merge_can_have_a_lower_merge_factor() {
    let merge_policy = StableMultitenantWithTimestampMergePolicy::default();
    let mut splits = create_splits(vec![9_999_997, 9_999_998, 9_999_999]);
    let merge_ops = merge_policy.operations(&mut splits);
    assert_eq!(splits.len(), 1);
    assert_eq!(splits[0].num_docs, 9_999_997);
    assert_eq!(merge_ops.len(), 1);
    assert_eq!(merge_ops[0].splits_as_slice().len(), 2);
}

#[test]
fn test_merge_policy_no_merge_with_only_one_split() {
    let merge_policy = StableMultitenantWithTimestampMergePolicy::default();
    let mut splits = create_splits(vec![9_999_999]);
    let merge_ops = merge_policy.operations(&mut splits);
    assert_eq!(splits.len(), 1);
    assert_eq!(splits[0].num_docs, 9_999_999);
    assert!(merge_ops.is_empty());
}

#[test]
fn test_stable_multitenant_merge_policy_max_num_splits_worst_case() {
    let merge_policy = StableMultitenantWithTimestampMergePolicy::default();
    assert_eq!(merge_policy.max_num_splits_worst_case(99), 9);
    assert_eq!(merge_policy.max_num_splits_worst_case(1_000_000), 27);
    assert_eq!(merge_policy.max_num_splits_worst_case(2_000_000), 36);
    assert_eq!(merge_policy.max_num_splits_worst_case(3_000_000), 36);
    assert_eq!(merge_policy.max_num_splits_worst_case(4_000_000), 36);
    assert_eq!(merge_policy.max_num_splits_worst_case(5_000_000), 45);
    assert_eq!(merge_policy.max_num_splits_worst_case(7_000_000), 45);
    assert_eq!(merge_policy.max_num_splits_worst_case(10_000_000), 45);
    assert_eq!(merge_policy.max_num_splits_worst_case(20_000_000), 54);
    assert_eq!(merge_policy.max_num_splits_worst_case(100_000_000), 63);
    assert_eq!(merge_policy.max_num_splits_worst_case(1_000_000_000), 153);
}

#[test]
fn test_stable_multitenant_merge_policy_max_num_splits_ideal_case() {
    let merge_policy = StableMultitenantWithTimestampMergePolicy::default();
    assert_eq!(merge_policy.max_num_splits_ideal_case(1_000_000), 18);
    assert_eq!(merge_policy.max_num_splits_ideal_case(99), 9);
    assert_eq!(merge_policy.max_num_splits_ideal_case(2_000_000), 20);
    assert_eq!(merge_policy.max_num_splits_ideal_case(3_000_000), 21);
    assert_eq!(merge_policy.max_num_splits_ideal_case(4_000_000), 22);
    assert_eq!(merge_policy.max_num_splits_ideal_case(5_000_000), 23);
    assert_eq!(merge_policy.max_num_splits_ideal_case(7_000_000), 25);
    assert_eq!(merge_policy.max_num_splits_ideal_case(10_000_000), 27);
    assert_eq!(merge_policy.max_num_splits_ideal_case(100_000_000), 37);
    assert_eq!(merge_policy.max_num_splits_ideal_case(1_000_000_000), 127);
}

#[test]
fn test_stable_multitenant_merge_policy_merge_not_enabled() {
    let merge_policy = StableMultitenantWithTimestampMergePolicy {
        merge_enabled: false,
        ..Default::default()
    };
    let mut splits = create_splits(vec![100; 10]);
    let merge_ops = merge_policy.operations(&mut splits);
    assert_eq!(splits.len(), 10);
    assert_eq!(merge_ops.len(), 0);
}

#[test]
fn test_operations_keep_the_number_of_splits() {
    let merge_policy = StableMultitenantWithTimestampMergePolicy::default();
    let num_docs: Vec<usize> = vec![
        100, 20_000_000, 100, 100, 5_000_000, 100, 100, 100, 100, 7_000_000, 100, 100, 100, 100,
        100, 100, 12_000_000, 100, 100, 300_000, 300_000, 400_000, 900_000, 2_000_000,
    ];
    let mut splits = create_splits(num_docs.clone());
    let merge_ops = merge_policy.operations(&mut splits);
    let num_merged: usize = merge_ops.iter().map(|op| op.splits_as_slice().len()).sum();
    assert_eq!(num_merged + splits.len(), num_docs.len());
    let mut split_ids: Vec<String> = splits.iter().map(|split| split.split_id.clone()).collect();
    for merge_op in &merge_ops {
        for split in merge_op.splits_as_slice() {
            assert!(split.num_docs < merge_policy.split_num_docs_target);
            split_ids.push(split.split_id.clone());
        }
    }
    split_ids.sort();
    let expected: Vec<String> = (0..num_docs.len()).map(|ord| format!("split_{:02}", ord)).collect();
    assert_eq!(split_ids, expected);
}

#[test]
fn test_mature_splits_pass_through_in_order() {
    let merge_policy = StableMultitenantWithTimestampMergePolicy::default();
    let mut splits = create_splits(vec![
        100, 20_000_000, 100, 100, 100, 100, 10_000_000, 100, 100, 100, 100, 100, 30_000_000,
    ]);
    let merge_ops = merge_policy.operations(&mut splits);
    assert_eq!(merge_ops.len(), 1);
    assert_eq!(merge_ops[0].splits_as_slice().len(), 10);
    let left: Vec<&str> = splits.iter().map(|split| split.split_id()).collect();
    assert_eq!(left, vec!["split_01", "split_06", "split_12"]);
    for split in &splits {
        assert!(merge_policy.is_mature(split));
    }
}

#[test]
fn test_merge_operation_has_a_fresh_split_id() {
    let splits = create_splits(vec![100, 200]);
    let first = MergeOperation::new_merge_operation(splits);
    let second = MergeOperation::new_merge_operation(Vec::new());
    assert_eq!(first.merge_split_id.len(), 26);
    assert_eq!(second.merge_split_id.len(), 26);
    assert_ne!(first.merge_split_id, second.merge_split_id);
    assert_eq!(first.splits_as_slice().len(), 2);
    assert_eq!(first.splits_as_slice()[1].num_docs, 200);
    assert!(second.splits_as_slice().is_empty());
}

#[test]
fn test_sort_is_most_recent_first_and_stable() {
    let mut splits = create_splits_with_timestamps(vec![
        (500, TimeRange::new(0, 10)),
        (100, TimeRange::new(0, 30)),
        (300, TimeRange::new(5, 20)),
        (100, TimeRange::new(7, 30)),
        (50, TimeRange::new(0, 20)),
        (100, TimeRange::new(9, 30)),
    ]);
    splits.push(SplitMetadata {
        split_id: "no_time_range".to_string(),
        num_docs: 1_000,
        ..Default::default()
    });
    sort_most_recent_first(&mut splits);
    let order: Vec<&str> = splits.iter().map(|split| split.split_id()).collect();
    assert_eq!(
        order,
        vec![
            "no_time_range", "split_01", "split_03", "split_05", "split_04", "split_02",
            "split_00"
        ]
    );
    assert!(comes_before(&splits[0], &splits[1]));
    assert!(!comes_before(&splits[1], &splits[2]));
    assert!(!comes_before(&splits[2], &splits[1]));
    assert!(comes_before(&splits[4], &splits[5]));
}

#[test]
fn test_merge_operations_runs_are_read_most_recent_first() {
    let merge_policy = StableMultitenantWithTimestampMergePolicy {
        merge_factor: 2,
        max_merge_factor: 3,
        ..Default::default()
    };
    let mut splits = create_splits_with_timestamps(vec![
        (100, TimeRange::new(0, 10)),
        (100, TimeRange::new(0, 40)),
        (100, TimeRange::new(0, 20)),
        (100, TimeRange::new(0, 30)),
    ]);
    let merge_ops = merge_policy.merge_operations(&mut splits);
    assert_eq!(merge_ops.len(), 1);
    // The three oldest splits make the run: it grows from the end of the level.
    let merged: Vec<&str> =
        merge_ops[0].splits_as_slice().iter().map(|split| split.split_id()).collect();
    assert_eq!(merged, vec!["split_03", "split_02", "split_00"]);
    assert_eq!(splits.len(), 1);
    assert_eq!(splits[0].split_id(), "split_01");
}

#[test]
fn test_merge_candidate_size() {
    let merge_policy = StableMultitenantWithTimestampMergePolicy::default();
    assert_eq!(merge_policy.merge_candidate_size(&[]), MergeCandidateSize::TooSmall);
    assert_eq!(
        merge_policy.merge_candidate_size(&create_splits(vec![100])),
        MergeCandidateSize::TooSmall
    );
    assert_eq!(
        merge_policy.merge_candidate_size(&create_splits(vec![100; 9])),
        MergeCandidateSize::TooSmall
    );
    assert_eq!(
        merge_policy.merge_candidate_size(&create_splits(vec![100; 10])),
        MergeCandidateSize::ValidSplit
    );
    assert_eq!(
        merge_policy.merge_candidate_size(&create_splits(vec![100; 11])),
        MergeCandidateSize::ValidSplit
    );
    assert_eq!(
        merge_policy.merge_candidate_size(&create_splits(vec![100; 12])),
        MergeCandidateSize::OneMoreSplitWouldBeTooBig
    );
    assert_eq!(
        merge_policy.merge_candidate_size(&create_splits(vec![4_000_000, 6_000_000])),
        MergeCandidateSize::OneMoreSplitWouldBeTooBig
    );
    assert_eq!(
        merge_policy.merge_candidate_size(&create_splits(vec![4_000_000, 5_999_999])),
        MergeCandidateSize::TooSmall
    );
}

#[test]
fn test_merge_candidate_from_level() {
    let merge_policy = StableMultitenantWithTimestampMergePolicy::default();
    let splits = create_splits(vec![100; 20]);
    assert_eq!(merge_policy.merge_candidate_from_level(&splits, 0..20), Some(8..20));
    assert_eq!(merge_policy.merge_candidate_from_level(&splits, 5..16), Some(5..16));
    assert_eq!(merge_policy.merge_candidate_from_level(&splits, 5..14), None);
    assert_eq!(merge_policy.merge_candidate_from_level(&splits, 3..3), None);
}

#[test]
fn test_case_levels_given_growth_factor() {
    let merge_policy = StableMultitenantWithTimestampMergePolicy::default();
    assert_eq!(
        merge_policy.case_levels_given_growth_factor(10),
        vec![1, 100_000, 1_000_000, 10_000_000]
    );
    assert_eq!(
        merge_policy.case_levels_given_growth_factor(3),
        vec![1, 100_000, 300_000, 900_000, 2_700_000, 8_100_000, 10_000_000]
    );
    let levels = merge_policy.case_levels_given_growth_factor(3);
    assert_eq!(merge_policy.max_num_splits_knowning_levels(0, &levels, false), 0);
    assert_eq!(merge_policy.max_num_splits_knowning_levels(1, &levels, false), 1);
    assert_eq!(merge_policy.max_num_splits_knowning_levels(9, &levels, false), 9);
    assert_eq!(merge_policy.max_num_splits_knowning_levels(10, &levels, false), 9);
    assert_eq!(merge_policy.max_num_splits_knowning_levels(10, &levels, true), 9);
    assert_eq!(merge_policy.max_num_splits_knowning_levels(5, &[10, 20], true), 0);
}

#[test]
fn test_is_sorted() {
    assert!(is_sorted(&[]));
    assert!(is_sorted(&[3]));
    assert!(is_sorted(&[1, 1, 2, 10]));
    assert!(!is_sorted(&[1, 3, 2]));
    assert!(!is_sorted(&[2, 1]));
}

#[test]
fn test_remove_matching_items() {
    let mut items = vec![1, 2, 3, 4, 5, 6, 7];
    let even = remove_matching_items(&mut items, |item: &i32| item % 2 == 0);
    assert_eq!(even, vec![2, 4, 6]);
    assert_eq!(items, vec![1, 3, 5, 7]);
    let none = remove_matching_items(&mut items, |item: &i32| *item > 10);
    assert!(none.is_empty());
    assert_eq!(items, vec![1, 3, 5, 7]);
    let all = remove_matching_items(&mut items, |_item: &i32| true);
    assert_eq!(all, vec![1, 3, 5, 7]);
    assert!(items.is_empty());
}

#[test]
fn test_one_split_fewer_than_the_merge_factor_makes_no_merge() {
    let merge_policy = StableMultitenantWithTimestampMergePolicy::default();
    let mut splits = create_splits(vec![100; 9]);
    let merge_ops = merge_policy.operations(&mut splits);
    assert!(merge_ops.is_empty());
    assert_eq!(splits.len(), 9);
    let merge_policy = StableMultitenantWithTimestampMergePolicy {
        merge_factor: 3,
        max_merge_factor: 3,
        ..Default::default()
    };
    let mut splits = create_splits(vec![4_000_000; 2]);
    assert!(merge_policy.operations(&mut splits).is_empty());
    assert_eq!(splits.len(), 2);
    let mut splits = create_splits(vec![4_000_000; 3]);
    let merge_ops = merge_policy.operations(&mut splits);
    assert_eq!(merge_ops.len(), 1);
    assert_eq!(merge_ops[0].splits_as_slice().len(), 3);
    assert!(splits.is_empty());
}

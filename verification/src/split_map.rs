//! The splits of a workbench, one per partition.
//!
//! They are kept in a hash map of the standard library that hashes with
//! FNV, which is fast on the short keys that partition identifiers are.

use core::hash::BuildHasherDefault;
use fnv::FnvHasher;
use std::collections::HashMap;
use vstd::prelude::*;
use crate::models::IndexedSplit;

verus! {

/// `fnv::FnvHasher`: the state of an FNV hash.
#[verifier::external_type_specification]
#[verifier::external_body]
pub struct ExFnvHasher(FnvHasher);

/// `core::hash::BuildHasherDefault`: builds hashers from their default.
#[verifier::external_type_specification]
#[verifier::external_body]
#[verifier::reject_recursive_types(H)]
pub struct ExBuildHasherDefault<H>(BuildHasherDefault<H>);

/// What a map of splits holds: the split of each partition that has one.
pub type SplitsByPartition = Map<u64, IndexedSplit>;

/// Splits by partition identifier.
pub type SplitMap = HashMap<u64, IndexedSplit, BuildHasherDefault<FnvHasher>>;

/// Calls `HashMap::with_capacity_and_hasher` with the default FNV hasher.
///
/// The map comes back empty, whatever the capacity.
#[verifier::external_body]
pub(crate) fn new_split_map(capacity: usize) -> (splits: SplitMap)
    ensures
        splits@ == SplitsByPartition::empty(),
{
    HashMap::with_capacity_and_hasher(capacity, BuildHasherDefault::<FnvHasher>::default())
}

/// Calls `HashMap::remove` on a map that hashes with FNV.
///
/// The FNV hasher gives equal keys equal hashes, so the map finds the split
/// of `partition_id` if it holds one, takes it out and hands it back; the
/// other splits stay.
#[verifier::external_body]
pub(crate) fn take_split(splits: &mut SplitMap, partition_id: u64) -> (split: Option<IndexedSplit>)
    ensures
        final(splits)@ == old(splits)@.remove(partition_id),
        old(splits)@.contains_key(partition_id) ==> split == Some(old(splits)@[partition_id]),
        !old(splits)@.contains_key(partition_id) ==> split.is_none(),
{
    splits.remove(&partition_id)
}

/// Calls `HashMap::insert` on a map that hashes with FNV.
///
/// The split becomes the split of `partition_id`, in place of the one that
/// the map held for it, if any; the other splits stay.
#[verifier::external_body]
pub(crate) fn put_split(splits: &mut SplitMap, partition_id: u64, split: IndexedSplit)
    ensures
        final(splits)@ == old(splits)@.insert(partition_id, split),
{
    splits.insert(partition_id, split);
}

/// Whether `values` lists the splits of `splits`: as many as `splits`
/// holds, each split of `splits` among them, and nothing else.
pub open spec fn is_listing_of(values: Seq<IndexedSplit>, splits: Map<u64, IndexedSplit>) -> bool {
    &&& values.len() == splits.dom().len()
    &&& forall|partition_id: u64| #[trigger]
        splits.contains_key(partition_id) ==> values.contains(splits[partition_id])
    &&& forall|i: int|
        0 <= i < values.len() ==> exists|partition_id: u64|
            splits.contains_key(partition_id) && splits[partition_id] == #[trigger] values[i]
}

/// Calls `HashMap::into_values` and collects the splits.
///
/// Each split of the map comes out once; the order is that of the table of
/// the map, of which nothing is said.
#[verifier::external_body]
pub(crate) fn into_splits(splits: SplitMap) -> (values: Vec<IndexedSplit>)
    ensures
        is_listing_of(values@, splits@),
{
    splits.into_values().collect()
}

} // verus!

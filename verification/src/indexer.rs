//! The indexer: counts the documents of a source, routes the valid ones to
//! the split of their partition, and decides when the splits at hand are
//! committed.
//!
//! The indexer does no work outside of its own state. It is told what the
//! document mapper made of each document and whether its publish lock is
//! dead, and it answers with what is to be done: to which split a document
//! is to be added, which timer is to be set, what is to be sent on or
//! published.

use std::time::Instant;
use vstd::prelude::*;
use crate::checkpoint::{
    IncompatibleCheckpointDelta, IndexCheckpointDelta, SourceCheckpointDelta,
};
use crate::clock::now;
use crate::doc_processing::{
    json_num_bytes, num_missing_fields_of, num_parse_errors_of, num_valid_docs_of, prepared,
    prepared_docs, record_timestamp, timestamp_is_readable, total_num_bytes,
    DocParsingError, FieldValue, IndexerCounters, ParsedDocument, PrepareDocumentOutcome,
};
use crate::indexing_settings::{IndexSettings, IndexingSettings};
use crate::models::{
    ActorExitStatus, IndexedSplit, IndexingPipelineId, NewPublishLock, PublishLock,
    QueueCapacity, RawDocBatch, SplitAttrs,
};
use crate::split_id::{is_split_id, new_split_id, new_workbench_id};
use crate::split_map::{
    into_splits, is_listing_of, new_split_map, put_split, take_split, SplitMap,
    SplitsByPartition,
};
use crate::split_metadata::TimeRange;

verus! {

/// Number of partitions that a workbench makes room for when it is created.
pub const WORKBENCH_CAPACITY: usize = 250;

/// Number of batches that the mailbox of the indexer holds before the
/// source waits.
pub const INDEXER_QUEUE_CAPACITY: usize = 10;

/// Asks the indexer to commit the workbench `workbench_id`, if it is still
/// the one at hand.
#[derive(Clone, Copy, Debug, PartialEq, Eq, Structural)]
pub struct CommitTimeout {
    pub workbench_id: u128,
}

/// A commit timeout to set: `message` is to come back to the indexer once
/// `delay_secs` seconds have passed.
#[derive(Clone, Copy, Debug, PartialEq, Eq, Structural)]
pub struct ScheduledCommitTimeout {
    pub delay_secs: u64,
    pub message: CommitTimeout,
}

/// Why a workbench is committed.
#[derive(Clone, Copy, Debug, PartialEq, Eq, Structural)]
pub enum CommitTrigger {
    /// Its commit timeout has expired.
    Timeout,
    /// The source has no more documents.
    NoMoreDocs,
    /// It holds as many documents as a split should.
    NumDocsLimit,
}

/// The splits of a workbench, on their way to the packager.
#[derive(Debug)]
pub struct IndexedSplitBatch {
    pub splits: Vec<IndexedSplit>,
    pub checkpoint_delta: Option<IndexCheckpointDelta>,
    pub publish_lock: PublishLock,
    pub date_of_birth: Instant,
}

/// What a commit asks for.
#[derive(Debug)]
pub enum Commit {
    /// Nothing: there is nothing to commit.
    Nothing,
    /// No document was valid, and the source has advanced: the checkpoint
    /// is to be published with no split, so that the documents are not read
    /// again. The lock is to be acquired first; where it is dead, nothing is
    /// published, and that is no failure.
    PublishCheckpoint { checkpoint_delta: IndexCheckpointDelta, publish_lock: PublishLock },
    /// The splits are to be sent to the packager.
    SendToPackager { batch: IndexedSplitBatch, commit_trigger: CommitTrigger },
}

/// The split to which a valid document is to be added.
#[derive(Debug)]
pub struct DocumentRoute {
    /// Identifier of the split.
    pub split_id: String,
    /// Partition of the document, and of the split.
    pub partition_id: u64,
    /// Whether the document is the first of its split.
    pub opens_split: bool,
}

/// What is to be done once a batch has been processed.
#[derive(Debug)]
pub struct BatchOutcome {
    /// The timer to set and the splits to add the documents to.
    pub receipt: BatchReceipt,
    /// What to commit, where the batch has filled the workbench.
    pub commit: Commit,
}

/// What the indexer is set up with.
#[derive(Debug)]
pub struct IndexerState {
    pub pipeline_id: IndexingPipelineId,
    pub indexing_settings: IndexingSettings,
    pub publish_lock: PublishLock,
    pub has_timestamp_field: bool,
    pub index_settings: IndexSettings,
}

/// The splits in the making, with the offsets of the source that they
/// cover. A workbench lives from the first batch after a commit to the next
/// commit.
#[derive(Debug)]
pub struct IndexingWorkbench {
    pub workbench_id: u128,
    pub indexed_splits: SplitMap,
    pub checkpoint_delta: IndexCheckpointDelta,
    pub publish_lock: PublishLock,
    pub date_of_birth: Instant,
}

/// The indexer of a pipeline.
#[derive(Debug)]
pub struct Indexer {
    pub indexer_state: IndexerState,
    pub indexing_workbench_opt: Option<IndexingWorkbench>,
    pub counters: IndexerCounters,
}

/// What is counted of a split: its documents, their size and the hull of
/// their timestamps.
pub struct SplitTally {
    pub num_docs: nat,
    pub num_bytes: nat,
    pub time_range: Option<TimeRange>,
}

/// What is counted of `split`.
pub open spec fn tally_of(split: IndexedSplit) -> SplitTally {
    SplitTally {
        num_docs: split.split_attrs.num_docs as nat,
        num_bytes: split.split_attrs.uncompressed_docs_size_in_bytes as nat,
        time_range: split.split_attrs.time_range,
    }
}

/// What is counted of each split of `splits`.
pub open spec fn tallies(splits: Map<u64, IndexedSplit>) -> Map<u64, SplitTally> {
    splits.map_values(|split: IndexedSplit| tally_of(split))
}

/// `time_range` widened so that it covers `timestamp_opt`, if there is one.
pub open spec fn widened(time_range: Option<TimeRange>, timestamp_opt: Option<i64>) -> Option<
    TimeRange,
> {
    match timestamp_opt {
        Some(timestamp) => Some(
            match time_range {
                Some(range) => range.hull(timestamp),
                None => TimeRange { start: timestamp, end: timestamp },
            },
        ),
        None => time_range,
    }
}

/// What is counted of the splits once a document of `num_bytes` bytes has
/// been added to the split of `partition`: the split counts one document
/// more, and is opened where the partition had none.
pub open spec fn tallies_after_doc(
    counted: Map<u64, SplitTally>,
    partition: u64,
    timestamp_opt: Option<i64>,
    num_bytes: nat,
) -> Map<u64, SplitTally> {
    let before = if counted.contains_key(partition) {
        counted[partition]
    } else {
        SplitTally { num_docs: 0, num_bytes: 0, time_range: None }
    };
    counted.insert(
        partition,
        SplitTally {
            num_docs: before.num_docs + 1,
            num_bytes: before.num_bytes + num_bytes,
            time_range: widened(before.time_range, timestamp_opt),
        },
    )
}

/// What is counted of the splits once a document of `num_bytes` bytes of
/// which the indexer makes `outcome` has been taken in: a valid document is
/// added to the split of its partition, any other to none.
pub open spec fn tallies_after_outcome(
    counted: Map<u64, SplitTally>,
    outcome: PrepareDocumentOutcome,
    num_bytes: nat,
) -> Map<u64, SplitTally> {
    match outcome {
        PrepareDocumentOutcome::Document { timestamp_opt, partition } => tallies_after_doc(
            counted,
            partition,
            timestamp_opt,
            num_bytes,
        ),
        _ => counted,
    }
}

/// What is counted of the splits once the documents `docs`, of which the
/// indexer makes `outcomes`, have been taken in: each valid document is
/// added to the split of its partition, the others to none.
pub open spec fn tallies_after(
    counted: Map<u64, SplitTally>,
    docs: Seq<String>,
    outcomes: Seq<PrepareDocumentOutcome>,
) -> Map<u64, SplitTally>
    recommends
        docs.len() == outcomes.len(),
    decreases docs.len(),
{
    if docs.len() == 0 {
        counted
    } else {
        tallies_after_outcome(
            tallies_after(counted, docs.drop_last(), outcomes.drop_last()),
            outcomes.last(),
            json_num_bytes(docs.last()@),
        )
    }
}

/// Whether `counters` are what they can be: no more documents at hand than
/// valid documents, and no more batches than splits.
pub open spec fn counters_are_sound(counters: IndexerCounters) -> bool {
    &&& counters.num_docs_in_workbench <= counters.num_valid_docs
    &&& counters.num_split_batches_emitted <= counters.num_splits_emitted
    &&& counters.num_splits_emitted <= counters.num_valid_docs
}

/// Whether `split` can be the split of `partition_id` in a workbench of
/// the pipeline `pipeline_id`: it is bound to both, and holds documents that
/// `counters` have counted.
pub open spec fn split_is_sound(
    split: IndexedSplit,
    partition_id: u64,
    pipeline_id: IndexingPipelineId,
    counters: IndexerCounters,
) -> bool {
    &&& split.split_attrs.partition_id == partition_id
    &&& split.split_attrs.pipeline_id == pipeline_id
    &&& is_split_id(split.split_attrs.split_id@)
    &&& 1 <= split.split_attrs.num_docs <= counters.num_valid_docs
    &&& split.split_attrs.uncompressed_docs_size_in_bytes <= counters.overall_num_bytes
}

/// Whether the splits `splits` can be those of a workbench of the pipeline
/// `pipeline_id`.
pub open spec fn splits_are_sound(
    splits: Map<u64, IndexedSplit>,
    pipeline_id: IndexingPipelineId,
    counters: IndexerCounters,
) -> bool {
    &&& splits.dom().finite()
    &&& counters.num_splits_emitted + splits.dom().len() <= counters.num_valid_docs
    &&& forall|partition_id: u64| #[trigger]
        splits.contains_key(partition_id) ==> split_is_sound(
            splits[partition_id],
            partition_id,
            pipeline_id,
            counters,
        )
}

/// Whether `workbench_opt` and `counters` can be those of an indexer set
/// up with `state`: the workbench is bound to the lock and the source of
/// the indexer, and holds splits of its pipeline only.
pub open spec fn is_consistent(
    state: IndexerState,
    workbench_opt: Option<IndexingWorkbench>,
    counters: IndexerCounters,
) -> bool {
    &&& counters_are_sound(counters)
    &&& match workbench_opt {
        Some(workbench) => {
            &&& workbench.publish_lock == state.publish_lock
            &&& workbench.checkpoint_delta.source_id == state.pipeline_id.source_id
            &&& splits_are_sound(workbench.indexed_splits@, state.pipeline_id, counters)
        },
        None => true,
    }
}

/// Whether the counter of the documents at hand is in step with the
/// workbench: it is zero where no split is in the making.
pub open spec fn counts_docs_at_hand(
    workbench_opt: Option<IndexingWorkbench>,
    counters: IndexerCounters,
) -> bool {
    match workbench_opt {
        Some(workbench) => workbench.indexed_splits@.dom().len() == 0
            ==> counters.num_docs_in_workbench == 0,
        None => counters.num_docs_in_workbench == 0,
    }
}

/// What the indexer answers to a batch, before it looks at whether the
/// workbench is full.
#[derive(Debug)]
pub struct BatchReceipt {
    /// The timer to set, where the batch has opened a workbench.
    pub commit_timeout: Option<ScheduledCommitTimeout>,
    /// For each document of the batch, in order, the split to add it to, or
    /// `None` where the document is not valid. Empty where the batch was
    /// dropped.
    pub routes: Vec<Option<DocumentRoute>>,
}

/// Whether the workbenches `after` and `before` have the same identifier.
pub open spec fn same_workbench_id(
    after: Option<IndexingWorkbench>,
    before: Option<IndexingWorkbench>,
) -> bool {
    after.is_some() && before.is_some() && after.unwrap().workbench_id
        == before.unwrap().workbench_id
}

/// The splits in the making: those of the workbench, or none.
pub open spec fn splits_at_hand(workbench_opt: Option<IndexingWorkbench>) -> Map<
    u64,
    IndexedSplit,
> {
    match workbench_opt {
        Some(workbench) => workbench.indexed_splits@,
        None => Map::empty(),
    }
}

/// The offsets that the workbench covers, or none.
pub open spec fn delta_at_hand(workbench_opt: Option<IndexingWorkbench>) -> SourceCheckpointDelta {
    match workbench_opt {
        Some(workbench) => workbench.checkpoint_delta.source_delta,
        None => SourceCheckpointDelta { range: None },
    }
}

/// Whether `route` is where a document of which the indexer makes
/// `outcome` goes, given what is counted of the splits before the document
/// and the splits once the batch is taken in: none for a document that is not
/// valid, else the split of the partition of the document, which the
/// document opens where the partition had none.
pub open spec fn is_route_of(
    route: Option<DocumentRoute>,
    outcome: PrepareDocumentOutcome,
    counted_before: Map<u64, SplitTally>,
    splits: Map<u64, IndexedSplit>,
) -> bool {
    match outcome {
        PrepareDocumentOutcome::Document { timestamp_opt, partition } => {
            &&& route.is_some()
            &&& route.unwrap().partition_id == partition
            &&& splits.contains_key(partition)
            &&& route.unwrap().split_id == splits[partition].split_attrs.split_id
            &&& route.unwrap().opens_split == !counted_before.contains_key(partition)
        },
        _ => route.is_none(),
    }
}

/// Whether `after` are the counters `before` once the documents `docs`, of
/// which the indexer makes `outcomes`, have been counted: each document adds
/// to the counter of its outcome, and its size to the bytes received.
pub open spec fn has_counted(
    after: IndexerCounters,
    before: IndexerCounters,
    docs: Seq<String>,
    outcomes: Seq<PrepareDocumentOutcome>,
) -> bool {
    &&& has_counted_docs(after, before, docs, outcomes)
    &&& after.num_docs_in_workbench == before.num_docs_in_workbench + num_valid_docs_of(outcomes)
    &&& after.num_splits_emitted == before.num_splits_emitted
    &&& after.num_split_batches_emitted == before.num_split_batches_emitted
}

/// Whether `after` counts the documents that `before` counts and the
/// documents `docs`, of which the indexer makes `outcomes`: each document
/// adds to the counter of its outcome, and its size to the bytes received.
pub open spec fn has_counted_docs(
    after: IndexerCounters,
    before: IndexerCounters,
    docs: Seq<String>,
    outcomes: Seq<PrepareDocumentOutcome>,
) -> bool {
    &&& after.num_parse_errors == before.num_parse_errors + num_parse_errors_of(outcomes)
    &&& after.num_missing_fields == before.num_missing_fields + num_missing_fields_of(outcomes)
    &&& after.num_valid_docs == before.num_valid_docs + num_valid_docs_of(outcomes)
    &&& after.overall_num_bytes == before.overall_num_bytes + total_num_bytes(docs)
}

/// The documents of the start of a batch are no larger than those of the
/// whole batch, and no more.
pub proof fn lemma_prefix_counts(docs: Seq<String>, outcomes: Seq<PrepareDocumentOutcome>, i: int)
    requires
        0 <= i <= docs.len(),
        docs.len() == outcomes.len(),
    ensures
        total_num_bytes(docs.subrange(0, i)) <= total_num_bytes(docs),
        i < docs.len() ==> total_num_bytes(docs.subrange(0, i)) + json_num_bytes(docs[i]@)
            <= total_num_bytes(docs),
        num_valid_docs_of(outcomes.subrange(0, i)) <= i,
        num_parse_errors_of(outcomes.subrange(0, i)) <= i,
        num_missing_fields_of(outcomes.subrange(0, i)) <= i,
        num_valid_docs_of(outcomes.subrange(0, i)) + num_parse_errors_of(outcomes.subrange(0, i))
            + num_missing_fields_of(outcomes.subrange(0, i)) == i,
    decreases docs.len() - i,
{
    crate::doc_processing::lemma_each_doc_counted_once(outcomes.subrange(0, i));
    if i < docs.len() {
        lemma_prefix_counts(docs, outcomes, i + 1);
        assert(docs.subrange(0, i + 1).drop_last() =~= docs.subrange(0, i));
        assert(docs.subrange(0, i + 1).last() == docs[i]);
    } else {
        assert(docs.subrange(0, i) =~= docs);
    }
}

/// Whether `workbench_after`, `counters_after` and `receipt` are what an
/// indexer set up with `state` makes of a batch that it takes in with
/// `workbench_before` and `counters_before`.
///
/// There is a workbench afterwards, the one there was or a new one, for
/// which a timer is asked. Where the publish lock is dead, that is all: the
/// batch is dropped. Else the workbench covers the offsets of the batch as
/// well, each document is counted, and the valid ones are added to the split
/// of their partition, which keeps its identifier where it was there before.
pub open spec fn is_batch_taken_in(
    state: IndexerState,
    workbench_before: Option<IndexingWorkbench>,
    counters_before: IndexerCounters,
    batch: RawDocBatch,
    parsed_docs: Seq<Result<ParsedDocument, DocParsingError>>,
    publish_lock_is_dead: bool,
    workbench_after: Option<IndexingWorkbench>,
    counters_after: IndexerCounters,
    receipt: BatchReceipt,
) -> bool {
    let outcomes = prepared_docs(state.has_timestamp_field, parsed_docs);
    let counted_before = tallies(splits_at_hand(workbench_before));
    let splits = splits_at_hand(workbench_after);
    let routes = receipt.routes@;
    &&& workbench_after.is_some()
    &&& workbench_before.is_some() ==> same_workbench_id(workbench_after, workbench_before)
    &&& receipt.commit_timeout == if workbench_before.is_none() {
        Some(
            ScheduledCommitTimeout {
                delay_secs: state.indexing_settings.commit_timeout_secs as u64,
                message: CommitTimeout { workbench_id: workbench_after.unwrap().workbench_id },
            },
        )
    } else {
        None
    }
    &&& if publish_lock_is_dead {
        &&& counters_after == counters_before
        &&& splits == splits_at_hand(workbench_before)
        &&& delta_at_hand(workbench_after) == delta_at_hand(workbench_before)
        &&& routes.len() == 0
    } else {
        &&& delta_at_hand(workbench_after) == delta_at_hand(workbench_before).extended(
            batch.checkpoint_delta,
        )
        &&& has_counted(counters_after, counters_before, batch.docs@, outcomes)
        &&& tallies(splits) == tallies_after(counted_before, batch.docs@, outcomes)
        &&& forall|partition_id: u64| #[trigger]
            splits_at_hand(workbench_before).contains_key(partition_id) ==> splits.contains_key(
                partition_id,
            ) && same_split(splits[partition_id], splits_at_hand(workbench_before)[partition_id])
        &&& routes.len() == batch.docs@.len()
        &&& forall|i: int|
            0 <= i < routes.len() ==> is_route_of(
                #[trigger] routes[i],
                outcomes[i],
                tallies_after(counted_before, batch.docs@.subrange(0, i), outcomes.subrange(0, i)),
                splits,
            )
    }
}

/// Whether `counters_after` and `commit` are what the commit of
/// `workbench_before` makes of `counters_before`.
///
/// Without a workbench there is nothing to commit. A workbench without
/// splits leaves the counters alone; where it has covered offsets, its
/// checkpoint is to be published, so that the documents that were not valid
/// are not read again. The splits of any other workbench are sent on, with
/// its checkpoint and its lock: the splits and the batch are counted, and
/// the count of the documents at hand starts again from zero.
pub open spec fn is_committed(
    workbench_before: Option<IndexingWorkbench>,
    counters_before: IndexerCounters,
    commit_trigger: CommitTrigger,
    counters_after: IndexerCounters,
    commit: Commit,
) -> bool {
    match workbench_before {
        None => commit is Nothing && counters_after == counters_before,
        Some(workbench) => if workbench.indexed_splits@.dom().len() == 0 {
            &&& counters_after == counters_before
            &&& if workbench.checkpoint_delta.source_delta.range.is_some() {
                commit == (Commit::PublishCheckpoint {
                    checkpoint_delta: workbench.checkpoint_delta,
                    publish_lock: workbench.publish_lock,
                })
            } else {
                commit is Nothing
            }
        } else {
            &&& commit is SendToPackager
            &&& commit->commit_trigger == commit_trigger
            &&& is_listing_of(commit->batch.splits@, workbench.indexed_splits@)
            &&& commit->batch.checkpoint_delta == Some(workbench.checkpoint_delta)
            &&& commit->batch.publish_lock == workbench.publish_lock
            &&& commit->batch.date_of_birth == workbench.date_of_birth
            &&& counters_after == (IndexerCounters {
                num_docs_in_workbench: 0,
                num_splits_emitted: (counters_before.num_splits_emitted
                    + workbench.indexed_splits@.dom().len()) as u64,
                num_split_batches_emitted: (counters_before.num_split_batches_emitted + 1) as u64,
                ..counters_before
            })
        },
    }
}

/// Whether `commit` asks for something to be published: splits, or a
/// checkpoint.
pub open spec fn publishes(commit: Commit) -> bool {
    !(commit is Nothing)
}

/// What is published is never empty: it holds splits, or else a checkpoint
/// that covers offsets.
pub open spec fn is_worth_publishing(commit: Commit) -> bool {
    match commit {
        Commit::Nothing => true,
        Commit::PublishCheckpoint { checkpoint_delta, .. } =>
            checkpoint_delta.source_delta.range.is_some(),
        Commit::SendToPackager { batch, .. } => batch.splits@.len() > 0,
    }
}

impl IndexerState {
    /// Classifies a document from what the document mapper made of it.
    pub fn prepare_document(&self, parsed: &Result<ParsedDocument, DocParsingError>) -> (outcome:
        PrepareDocumentOutcome)
        requires
            timestamp_is_readable(self.has_timestamp_field, *parsed),
        ensures
            outcome == prepared(self.has_timestamp_field, *parsed),
    {
        let document = match parsed {
            Ok(document) => *document,
            Err(doc_parsing_error) => {
                return match doc_parsing_error {
                    DocParsingError::RequiredFastField(_) => PrepareDocumentOutcome::MissingField,
                    _ => PrepareDocumentOutcome::ParsingError,
                };
            },
        };
        if !self.has_timestamp_field {
            return PrepareDocumentOutcome::Document {
                timestamp_opt: None,
                partition: document.partition,
            };
        }
        let timestamp_opt = match document.timestamp_value {
            Some(FieldValue::Date { timestamp_secs }) => Some(timestamp_secs),
            Some(FieldValue::I64(timestamp)) => Some(timestamp),
            _ => None,
        };
        PrepareDocumentOutcome::Document { timestamp_opt, partition: document.partition }
    }

    /// A split for the partition `partition_id`, with a fresh identifier
    /// and no document yet.
    pub fn create_indexed_split(&self, partition_id: u64) -> (split: IndexedSplit)
        ensures
            split.split_attrs.partition_id == partition_id,
            split.split_attrs.pipeline_id == self.pipeline_id,
            is_split_id(split.split_attrs.split_id@),
            split.split_attrs.num_docs == 0,
            split.split_attrs.uncompressed_docs_size_in_bytes == 0,
            split.split_attrs.time_range.is_none(),
    {
        IndexedSplit {
            split_attrs: SplitAttrs {
                split_id: new_split_id(),
                partition_id,
                pipeline_id: self.pipeline_id.duplicate(),
                num_docs: 0,
                uncompressed_docs_size_in_bytes: 0,
                time_range: None,
            },
        }
    }

    /// A workbench with a fresh identifier: no split, no offset covered,
    /// bound to the lock of the indexer.
    pub fn create_workbench(&self) -> (workbench: IndexingWorkbench)
        ensures
            workbench.indexed_splits@ == SplitsByPartition::empty(),
            workbench.checkpoint_delta.source_id == self.pipeline_id.source_id,
            workbench.checkpoint_delta.source_delta.range.is_none(),
            workbench.publish_lock == self.publish_lock,
    {
        IndexingWorkbench {
            workbench_id: new_workbench_id(),
            indexed_splits: new_split_map(WORKBENCH_CAPACITY),
            checkpoint_delta: IndexCheckpointDelta::new(self.pipeline_id.source_id.clone()),
            publish_lock: self.publish_lock.duplicate(),
            date_of_birth: now(),
        }
    }

    /// Makes sure that there is a workbench. Where one is created, returns
    /// the timer to set: its message is to come back once the commit timeout
    /// of the index has passed.
    pub fn get_or_create_workbench(
        &self,
        indexing_workbench_opt: &mut Option<IndexingWorkbench>,
    ) -> (commit_timeout: Option<ScheduledCommitTimeout>)
        ensures
            final(indexing_workbench_opt).is_some(),
            old(indexing_workbench_opt).is_some() ==> commit_timeout.is_none(),
            old(indexing_workbench_opt).is_some() ==> *final(indexing_workbench_opt) == *old(indexing_workbench_opt),
            old(indexing_workbench_opt).is_none() ==> {
                let workbench = final(indexing_workbench_opt).unwrap();
                &&& commit_timeout == Some(
                    ScheduledCommitTimeout {
                        delay_secs: self.indexing_settings.commit_timeout_secs as u64,
                        message: CommitTimeout { workbench_id: workbench.workbench_id },
                    },
                )
                &&& workbench.indexed_splits@ == SplitsByPartition::empty()
                &&& workbench.checkpoint_delta.source_id == self.pipeline_id.source_id
                &&& workbench.checkpoint_delta.source_delta.range.is_none()
                &&& workbench.publish_lock == self.publish_lock
            },
    {
        if indexing_workbench_opt.is_none() {
            let indexing_workbench = self.create_workbench();
            let commit_timeout_message = CommitTimeout {
                workbench_id: indexing_workbench.workbench_id,
            };
            *indexing_workbench_opt = Some(indexing_workbench);
            return Some(
                ScheduledCommitTimeout {
                    delay_secs: self.indexing_settings.commit_timeout_secs as u64,
                    message: commit_timeout_message,
                },
            );
        }
        None
    }

    /// Takes in one document of `doc_json_num_bytes` bytes of which the
    /// indexer makes `outcome`: counts it, and adds it to the split of its
    /// partition where it is valid. Returns the split that the document is
    /// to be added to, if it is valid.
    #[verifier::rlimit(40)]
    pub fn process_document(
        &self,
        doc_json_num_bytes: u64,
        outcome: PrepareDocumentOutcome,
        indexed_splits: &mut SplitMap,
        counters: &mut IndexerCounters,
    ) -> (route: Option<DocumentRoute>)
        requires
            counters_are_sound(*old(counters)),
            splits_are_sound(old(indexed_splits)@, self.pipeline_id, *old(counters)),
            old(counters).processed() + 1 <= u64::MAX,
            old(counters).overall_num_bytes + doc_json_num_bytes <= u64::MAX,
        ensures
            counters_are_sound(*final(counters)),
            splits_are_sound(final(indexed_splits)@, self.pipeline_id, *final(counters)),
            *final(counters) == counted_doc(*old(counters), doc_json_num_bytes, outcome),
            tallies(final(indexed_splits)@) == tallies_after_outcome(
                tallies(old(indexed_splits)@),
                outcome,
                doc_json_num_bytes as nat,
            ),
            forall|partition_id: u64| #[trigger]
                old(indexed_splits)@.contains_key(partition_id) ==> final(indexed_splits)@.contains_key(
                    partition_id,
                ) && same_split(
                    final(indexed_splits)@[partition_id],
                    old(indexed_splits)@[partition_id],
                ),
            is_route_of(route, outcome, tallies(old(indexed_splits)@), final(indexed_splits)@),
            !(outcome is Document) ==> final(indexed_splits)@ == old(indexed_splits)@,
    {
        let ghost before = indexed_splits@;
        let ghost counted_before = *counters;
        counters.overall_num_bytes += doc_json_num_bytes;
        match outcome {
            PrepareDocumentOutcome::ParsingError => {
                counters.num_parse_errors += 1;
                None
            },
            PrepareDocumentOutcome::MissingField => {
                counters.num_missing_fields += 1;
                None
            },
            PrepareDocumentOutcome::Document { timestamp_opt, partition } => {
                let (mut indexed_split, opens_split) = match take_split(indexed_splits, partition) {
                    Some(indexed_split) => (indexed_split, false),
                    None => (self.create_indexed_split(partition), true),
                };
                let ghost taken = indexed_split;
                indexed_split.split_attrs.uncompressed_docs_size_in_bytes += doc_json_num_bytes;
                counters.num_docs_in_workbench += 1;
                counters.num_valid_docs += 1;
                indexed_split.split_attrs.num_docs += 1;
                if let Some(timestamp) = timestamp_opt {
                    record_timestamp(timestamp, &mut indexed_split.split_attrs.time_range);
                }
                let split_id = indexed_split.split_attrs.split_id.clone();
                put_split(indexed_splits, partition, indexed_split);
                proof {
                    assert(indexed_splits@ =~= before.insert(partition, indexed_split));
                    assert(indexed_splits@.dom() =~= before.dom().insert(partition));
                    assert(tallies(indexed_splits@) =~= tallies_after_doc(
                        tallies(before),
                        partition,
                        timestamp_opt,
                        doc_json_num_bytes as nat,
                    ));
                    assert forall|partition_id: u64| #[trigger]
                        indexed_splits@.contains_key(partition_id) implies split_is_sound(
                        indexed_splits@[partition_id],
                        partition_id,
                        self.pipeline_id,
                        *counters,
                    ) by {
                        if partition_id != partition {
                            assert(split_is_sound(
                                before[partition_id],
                                partition_id,
                                self.pipeline_id,
                                counted_before,
                            ));
                        } else if before.contains_key(partition) {
                            assert(split_is_sound(
                                before[partition],
                                partition,
                                self.pipeline_id,
                                counted_before,
                            ));
                        }
                    }
                }
                Some(DocumentRoute { split_id, partition_id: partition, opens_split })
            },
        }
    }

    /// Takes in a batch: the documents `batch.docs`, of which the document
    /// mapper has made `parsed_docs`, and the offsets that they cover.
    ///
    /// A workbench is opened where there is none. Then, where the publish
    /// lock is dead, the batch is dropped: nothing is counted, no offset
    /// covered. Else the offsets of the batch are added to those of the
    /// workbench, which fails where they do not follow them; and each
    /// document is counted, the valid ones added to the split of their
    /// partition.
    #[verifier::rlimit(40)]
    pub fn process_batch(
        &self,
        batch: RawDocBatch,
        parsed_docs: Vec<Result<ParsedDocument, DocParsingError>>,
        publish_lock_is_dead: bool,
        indexing_workbench_opt: &mut Option<IndexingWorkbench>,
        counters: &mut IndexerCounters,
    ) -> (result: Result<BatchReceipt, IncompatibleCheckpointDelta>)
        requires
            is_consistent(*self, *old(indexing_workbench_opt), *old(counters)),
            batch.docs@.len() == parsed_docs@.len(),
            forall|i: int|
                0 <= i < parsed_docs@.len() ==> timestamp_is_readable(
                    self.has_timestamp_field,
                    #[trigger] parsed_docs@[i],
                ),
            old(counters).has_room_for(batch.docs@),
        ensures
            is_consistent(*self, *final(indexing_workbench_opt), *final(counters)),
            final(indexing_workbench_opt).is_some(),
            old(indexing_workbench_opt).is_some() ==> same_workbench_id(
                *final(indexing_workbench_opt),
                *old(indexing_workbench_opt),
            ),
            result.is_err() <==> !publish_lock_is_dead && !delta_at_hand(
                *old(indexing_workbench_opt),
            ).accepts(batch.checkpoint_delta),
            result.is_err() ==> {
                &&& result == Err::<BatchReceipt, IncompatibleCheckpointDelta>(
                    IncompatibleCheckpointDelta {
                        current_position: delta_at_hand(
                            *old(indexing_workbench_opt),
                        ).range.unwrap().to,
                        delta_position_from: batch.checkpoint_delta.range.unwrap().from,
                    },
                )
                &&& *final(counters) == *old(counters)
                &&& *final(indexing_workbench_opt) == *old(indexing_workbench_opt)
            },
            result.is_ok() ==> is_batch_taken_in(
                *self,
                *old(indexing_workbench_opt),
                *old(counters),
                batch,
                parsed_docs@,
                publish_lock_is_dead,
                *final(indexing_workbench_opt),
                *final(counters),
                result.unwrap(),
            ),
    {
        let ghost workbench_before = *indexing_workbench_opt;
        let ghost counters_before = *counters;
        let ghost splits_before = splits_at_hand(workbench_before);
        let ghost outcomes = prepared_docs(self.has_timestamp_field, parsed_docs@);
        let ghost docs = batch.docs@;
        let commit_timeout = self.get_or_create_workbench(indexing_workbench_opt);
        if publish_lock_is_dead {
            return Ok(BatchReceipt { commit_timeout, routes: Vec::new() });
        }
        let mut workbench = indexing_workbench_opt.take().unwrap();
        assert(workbench.indexed_splits@ == splits_before);
        match workbench.checkpoint_delta.source_delta.extend(batch.checkpoint_delta) {
            Ok(()) => {},
            Err(incompatible) => {
                *indexing_workbench_opt = Some(workbench);
                proof {
                    assert(workbench_before.is_some());
                    assert(workbench == workbench_before.unwrap());
                }
                return Err(incompatible);
            },
        }
        let ghost checkpoint_delta = workbench.checkpoint_delta;
        let ghost workbench_id = workbench.workbench_id;
        let mut routes: Vec<Option<DocumentRoute>> = Vec::new();
        let num_docs = batch.docs.len();
        let mut i: usize = 0;
        proof {
            assert(docs.subrange(0, 0) =~= Seq::empty());
            assert(outcomes.subrange(0, 0) =~= Seq::empty());
        }
        while i < num_docs
            invariant
                0 <= i <= num_docs,
                num_docs == docs.len(),
                docs == batch.docs@,
                docs.len() == parsed_docs@.len(),
                outcomes == prepared_docs(self.has_timestamp_field, parsed_docs@),
                forall|j: int|
                    0 <= j < parsed_docs@.len() ==> timestamp_is_readable(
                        self.has_timestamp_field,
                        #[trigger] parsed_docs@[j],
                    ),
                counters_before.has_room_for(docs),
                counters_are_sound(*counters),
                workbench.publish_lock == self.publish_lock,
                workbench.checkpoint_delta == checkpoint_delta,
                workbench.workbench_id == workbench_id,
                splits_are_sound(workbench.indexed_splits@, self.pipeline_id, *counters),
                has_counted(
                    *counters,
                    counters_before,
                    docs.subrange(0, i as int),
                    outcomes.subrange(0, i as int),
                ),
                tallies(workbench.indexed_splits@) == tallies_after(
                    tallies(splits_before),
                    docs.subrange(0, i as int),
                    outcomes.subrange(0, i as int),
                ),
                forall|partition_id: u64| #[trigger]
                    splits_before.contains_key(partition_id)
                        ==> workbench.indexed_splits@.contains_key(partition_id) && same_split(
                        workbench.indexed_splits@[partition_id],
                        splits_before[partition_id],
                    ),
                routes@.len() == i,
                forall|j: int|
                    0 <= j < i ==> is_route_of(
                        #[trigger] routes@[j],
                        outcomes[j],
                        tallies_after(
                            tallies(splits_before),
                            docs.subrange(0, j),
                            outcomes.subrange(0, j),
                        ),
                        workbench.indexed_splits@,
                    ),
            decreases num_docs - i,
        {
            let ghost splits_then = workbench.indexed_splits@;
            let ghost routes_then = routes@;
            proof {
                lemma_prefix_counts(docs, outcomes, i as int);
                assert(docs.subrange(0, i as int + 1).drop_last() =~= docs.subrange(0, i as int));
                assert(outcomes.subrange(0, i as int + 1).drop_last() =~= outcomes.subrange(
                    0,
                    i as int,
                ));
                assert(docs.subrange(0, i as int + 1).last() == docs[i as int]);
                assert(outcomes.subrange(0, i as int + 1).last() == outcomes[i as int]);
            }
            let doc_json_num_bytes = batch.docs[i].as_str().as_bytes().len() as u64;
            assert(doc_json_num_bytes == json_num_bytes(docs[i as int]@));
            let prepared_doc = self.prepare_document(&parsed_docs[i]);
            assert(prepared_doc == outcomes[i as int]);
            let route = self.process_document(
                doc_json_num_bytes,
                prepared_doc,
                &mut workbench.indexed_splits,
                counters,
            );
            routes.push(route);
            proof {
                assert forall|j: int| 0 <= j < i + 1 implies is_route_of(
                    #[trigger] routes@[j],
                    outcomes[j],
                    tallies_after(
                        tallies(splits_before),
                        docs.subrange(0, j),
                        outcomes.subrange(0, j),
                    ),
                    workbench.indexed_splits@,
                ) by {
                    if j < i {
                        assert(routes@[j] == routes_then[j]);
                        assert(is_route_of(
                            routes_then[j],
                            outcomes[j],
                            tallies_after(
                                tallies(splits_before),
                                docs.subrange(0, j),
                                outcomes.subrange(0, j),
                            ),
                            splits_then,
                        ));
                        if let PrepareDocumentOutcome::Document { timestamp_opt, partition } =
                            outcomes[j] {
                            assert(splits_then.contains_key(partition));
                            assert(same_split(
                                workbench.indexed_splits@[partition],
                                splits_then[partition],
                            ));
                        }
                    } else if let PrepareDocumentOutcome::Document { timestamp_opt, partition } =
                        outcomes[j] {
                        assert(tallies(splits_then).contains_key(partition)
                            == splits_then.contains_key(partition));
                    }
                }
            }
            i += 1;
        }
        proof {
            assert(docs.subrange(0, num_docs as int) =~= docs);
            assert(outcomes.subrange(0, num_docs as int) =~= outcomes);
        }
        *indexing_workbench_opt = Some(workbench);
        Ok(BatchReceipt { commit_timeout, routes })
    }
}

/// `counters` once a document of `num_bytes` bytes of which the indexer
/// makes `outcome` has been counted. The size of the document is counted
/// whatever the outcome.
pub open spec fn counted_doc(
    counters: IndexerCounters,
    num_bytes: u64,
    outcome: PrepareDocumentOutcome,
) -> IndexerCounters {
    let sized = IndexerCounters {
        overall_num_bytes: (counters.overall_num_bytes + num_bytes) as u64,
        ..counters
    };
    match outcome {
        PrepareDocumentOutcome::ParsingError => IndexerCounters {
            num_parse_errors: (counters.num_parse_errors + 1) as u64,
            ..sized
        },
        PrepareDocumentOutcome::MissingField => IndexerCounters {
            num_missing_fields: (counters.num_missing_fields + 1) as u64,
            ..sized
        },
        PrepareDocumentOutcome::Document { .. } => IndexerCounters {
            num_valid_docs: (counters.num_valid_docs + 1) as u64,
            num_docs_in_workbench: (counters.num_docs_in_workbench + 1) as u64,
            ..sized
        },
    }
}

/// Whether `after` is the split `before` with, at most, more documents:
/// it has the identifier, the partition and the pipeline of `before`.
pub open spec fn same_split(after: IndexedSplit, before: IndexedSplit) -> bool {
    &&& after.split_attrs.split_id == before.split_attrs.split_id
    &&& after.split_attrs.partition_id == before.split_attrs.partition_id
    &&& after.split_attrs.pipeline_id == before.split_attrs.pipeline_id
}

/// Whether `after` and `outcome` are what the indexer `before` makes of a
/// batch, given the workbench and the counters that taking the batch in
/// leaves: where the workbench then holds as many documents as a split
/// should, it is committed; else it stays, and nothing is committed.
pub open spec fn is_taken_in_then_committed(
    before: Indexer,
    batch: RawDocBatch,
    parsed_docs: Seq<Result<ParsedDocument, DocParsingError>>,
    publish_lock_is_dead: bool,
    after: Indexer,
    outcome: BatchOutcome,
    workbench_opt: Option<IndexingWorkbench>,
    counters: IndexerCounters,
) -> bool {
    &&& is_batch_taken_in(
        before.indexer_state,
        before.indexing_workbench_opt,
        before.counters,
        batch,
        parsed_docs,
        publish_lock_is_dead,
        workbench_opt,
        counters,
        outcome.receipt,
    )
    &&& if counters.num_docs_in_workbench
        >= before.indexer_state.indexing_settings.split_num_docs_target {
        &&& after.indexing_workbench_opt.is_none()
        &&& is_committed(
            workbench_opt,
            counters,
            CommitTrigger::NumDocsLimit,
            after.counters,
            outcome.commit,
        )
    } else {
        &&& after.indexing_workbench_opt == workbench_opt
        &&& after.counters == counters
        &&& outcome.commit is Nothing
    }
}

/// Whether `after` and `outcome` are what the indexer `before` makes of a
/// batch: the batch is taken in, and the workbench committed where the batch
/// has filled it.
pub open spec fn is_batch_processed(
    before: Indexer,
    batch: RawDocBatch,
    parsed_docs: Seq<Result<ParsedDocument, DocParsingError>>,
    publish_lock_is_dead: bool,
    after: Indexer,
    outcome: BatchOutcome,
) -> bool {
    exists|workbench_opt: Option<IndexingWorkbench>, counters: IndexerCounters|
        #[trigger] is_taken_in_then_committed(
            before,
            batch,
            parsed_docs,
            publish_lock_is_dead,
            after,
            outcome,
            workbench_opt,
            counters,
        )
}

impl Indexer {
    /// Whether the indexer is in a state that its operations lead to.
    pub open spec fn well_formed(self) -> bool {
        is_consistent(self.indexer_state, self.indexing_workbench_opt, self.counters)
    }

    /// Whether the counter of the documents at hand is in step with the
    /// workbench.
    pub open spec fn in_step(self) -> bool {
        counts_docs_at_hand(self.indexing_workbench_opt, self.counters)
    }

    /// The indexer of the pipeline `pipeline_id`, for an index with the
    /// settings `indexing_settings`: nothing counted, no workbench, and a
    /// publish lock of its own.
    pub fn new(pipeline_id: IndexingPipelineId, indexing_settings: IndexingSettings) -> (indexer:
        Indexer)
        ensures
            indexer.well_formed(),
            indexer.in_step(),
            indexer.indexer_state.pipeline_id == pipeline_id,
            indexer.indexer_state.indexing_settings == indexing_settings,
            indexer.indexer_state.has_timestamp_field
                == indexing_settings.timestamp_field.is_some(),
            indexer.indexer_state.index_settings == IndexSettings::of(indexing_settings),
            indexer.indexer_state.publish_lock.id@.len() == 0,
            indexer.indexing_workbench_opt.is_none(),
            indexer.counters == (IndexerCounters {
                num_parse_errors: 0,
                num_missing_fields: 0,
                num_valid_docs: 0,
                num_splits_emitted: 0,
                num_split_batches_emitted: 0,
                overall_num_bytes: 0,
                num_docs_in_workbench: 0,
            }),
    {
        let has_timestamp_field = indexing_settings.timestamp_field.is_some();
        let index_settings = IndexSettings::from_indexing_settings(&indexing_settings);
        let publish_lock = PublishLock::default();
        Indexer {
            indexer_state: IndexerState {
                pipeline_id,
                indexing_settings,
                publish_lock,
                has_timestamp_field,
                index_settings,
            },
            indexing_workbench_opt: None,
            counters: IndexerCounters::default(),
        }
    }

    /// What the indexer has counted so far.
    pub fn observable_state(&self) -> (counters: IndexerCounters)
        ensures
            counters == self.counters,
    {
        self.counters
    }

    /// The mailbox of the indexer is bounded, so that the source waits for
    /// the indexer.
    pub fn queue_capacity(&self) -> (capacity: QueueCapacity)
        ensures
            capacity == QueueCapacity::Bounded(INDEXER_QUEUE_CAPACITY),
    {
        QueueCapacity::Bounded(INDEXER_QUEUE_CAPACITY)
    }

    /// Name of the actor.
    pub fn name(&self) -> (name: String)
        ensures
            name@ == "Indexer"@,
    {
        "Indexer".to_string()
    }

    /// Commits the workbench: takes it away, and says what is to be sent on
    /// or published.
    pub fn send_to_packager(&mut self, commit_trigger: CommitTrigger) -> (commit: Commit)
        requires
            old(self).well_formed(),
        ensures
            final(self).well_formed(),
            final(self).in_step() || !old(self).in_step(),
            final(self).indexer_state == old(self).indexer_state,
            final(self).indexing_workbench_opt.is_none(),
            is_committed(
                old(self).indexing_workbench_opt,
                old(self).counters,
                commit_trigger,
                final(self).counters,
                commit,
            ),
            is_worth_publishing(commit),
            old(self).in_step() ==> final(self).counters.num_docs_in_workbench == 0,
    {
        let IndexingWorkbench {
            workbench_id: _,
            indexed_splits,
            checkpoint_delta,
            publish_lock,
            date_of_birth,
        } = match self.indexing_workbench_opt.take() {
            Some(indexing_workbench) => indexing_workbench,
            None => {
                return Commit::Nothing;
            },
        };
        let ghost splits_before = indexed_splits@;
        let splits: Vec<IndexedSplit> = into_splits(indexed_splits);
        if splits.is_empty() {
            if checkpoint_delta.is_empty() {
                return Commit::Nothing;
            }
            return Commit::PublishCheckpoint { checkpoint_delta, publish_lock };
        }
        let num_splits = splits.len() as u64;
        self.counters.num_docs_in_workbench = 0;
        self.counters.num_splits_emitted += num_splits;
        self.counters.num_split_batches_emitted += 1;
        Commit::SendToPackager {
            batch: IndexedSplitBatch {
                splits,
                checkpoint_delta: Some(checkpoint_delta),
                publish_lock,
                date_of_birth,
            },
            commit_trigger,
        }
    }

    /// Takes in a batch, and commits the workbench where the batch has
    /// filled it: where it holds as many documents as a split should.
    ///
    /// Fails, and changes nothing but for opening a workbench where there
    /// was none, if and only if the publish lock is alive and the offsets of
    /// the batch do not follow those of the workbench.
    pub fn process_batch(
        &mut self,
        batch: RawDocBatch,
        parsed_docs: Vec<Result<ParsedDocument, DocParsingError>>,
        publish_lock_is_dead: bool,
    ) -> (result: Result<BatchOutcome, IncompatibleCheckpointDelta>)
        requires
            old(self).well_formed(),
            batch.docs@.len() == parsed_docs@.len(),
            forall|i: int|
                0 <= i < parsed_docs@.len() ==> timestamp_is_readable(
                    old(self).indexer_state.has_timestamp_field,
                    #[trigger] parsed_docs@[i],
                ),
            old(self).counters.has_room_for(batch.docs@),
        ensures
            final(self).well_formed(),
            final(self).in_step() || !old(self).in_step(),
            final(self).indexer_state == old(self).indexer_state,
            result.is_err() <==> !publish_lock_is_dead && !delta_at_hand(
                old(self).indexing_workbench_opt,
            ).accepts(batch.checkpoint_delta),
            result.is_err() ==> {
                &&& result == Err::<BatchOutcome, IncompatibleCheckpointDelta>(
                    IncompatibleCheckpointDelta {
                        current_position: delta_at_hand(
                            old(self).indexing_workbench_opt,
                        ).range.unwrap().to,
                        delta_position_from: batch.checkpoint_delta.range.unwrap().from,
                    },
                )
                &&& final(self).counters == old(self).counters
                &&& final(self).indexing_workbench_opt == old(self).indexing_workbench_opt
            },
            result.is_ok() ==> is_worth_publishing(result.unwrap().commit),
            result.is_ok() ==> is_batch_processed(
                *old(self),
                batch,
                parsed_docs@,
                publish_lock_is_dead,
                *final(self),
                result.unwrap(),
            ),
            result.is_ok() && publish_lock_is_dead ==> has_counted_docs(
                final(self).counters,
                old(self).counters,
                Seq::empty(),
                Seq::empty(),
            ),
            result.is_ok() && !publish_lock_is_dead ==> has_counted_docs(
                final(self).counters,
                old(self).counters,
                batch.docs@,
                prepared_docs(old(self).indexer_state.has_timestamp_field, parsed_docs@),
            ),
            result.is_ok() && !publish_lock_is_dead ==> final(self).counters.processed()
                == old(self).counters.processed() + batch.docs@.len(),
    {
        let receipt = match self.indexer_state.process_batch(
            batch,
            parsed_docs,
            publish_lock_is_dead,
            &mut self.indexing_workbench_opt,
            &mut self.counters,
        ) {
            Ok(receipt) => receipt,
            Err(incompatible) => {
                return Err(incompatible);
            },
        };
        let ghost workbench_opt = self.indexing_workbench_opt;
        let ghost counters = self.counters;
        proof {
            if old(self).in_step() {
                lemma_taking_in_keeps_in_step(
                old(self).indexer_state,
                old(self).indexing_workbench_opt,
                old(self).counters,
                batch,
                parsed_docs@,
                publish_lock_is_dead,
                workbench_opt,
                counters,
                receipt,
            );
            }
        }
        let commit = if self.counters.num_docs_in_workbench
            >= self.indexer_state.indexing_settings.split_num_docs_target as u64 {
            self.send_to_packager(CommitTrigger::NumDocsLimit)
        } else {
            Commit::Nothing
        };
        let outcome = BatchOutcome { receipt, commit };
        proof {
            crate::doc_processing::lemma_each_doc_counted_once(
                prepared_docs(old(self).indexer_state.has_timestamp_field, parsed_docs@),
            );
            assert(is_taken_in_then_committed(
                *old(self),
                batch,
                parsed_docs@,
                publish_lock_is_dead,
                *self,
                outcome,
                workbench_opt,
                counters,
            ));
        }
        Ok(outcome)
    }

    /// Commits the workbench if it is the one that `commit_timeout` was set
    /// for. A timer of an earlier workbench is ignored.
    pub fn handle_commit_timeout(&mut self, commit_timeout: CommitTimeout) -> (commit: Commit)
        requires
            old(self).well_formed(),
        ensures
            final(self).well_formed(),
            final(self).in_step() || !old(self).in_step(),
            final(self).indexer_state == old(self).indexer_state,
            is_worth_publishing(commit),
            match old(self).indexing_workbench_opt {
                Some(workbench) if workbench.workbench_id == commit_timeout.workbench_id => {
                    &&& final(self).indexing_workbench_opt.is_none()
                    &&& old(self).in_step() ==> final(self).counters.num_docs_in_workbench == 0
                    &&& is_committed(
                        old(self).indexing_workbench_opt,
                        old(self).counters,
                        CommitTrigger::Timeout,
                        final(self).counters,
                        commit,
                    )
                },
                _ => commit is Nothing && *final(self) == *old(self),
            },
    {
        if let Some(indexing_workbench) = &self.indexing_workbench_opt {
            if indexing_workbench.workbench_id != commit_timeout.workbench_id {
                return Commit::Nothing;
            }
        }
        self.send_to_packager(CommitTrigger::Timeout)
    }

    /// Takes in a batch. See `process_batch`.
    pub fn handle_raw_doc_batch(
        &mut self,
        batch: RawDocBatch,
        parsed_docs: Vec<Result<ParsedDocument, DocParsingError>>,
        publish_lock_is_dead: bool,
    ) -> (result: Result<BatchOutcome, IncompatibleCheckpointDelta>)
        requires
            old(self).well_formed(),
            batch.docs@.len() == parsed_docs@.len(),
            forall|i: int|
                0 <= i < parsed_docs@.len() ==> timestamp_is_readable(
                    old(self).indexer_state.has_timestamp_field,
                    #[trigger] parsed_docs@[i],
                ),
            old(self).counters.has_room_for(batch.docs@),
        ensures
            final(self).well_formed(),
            final(self).in_step() || !old(self).in_step(),
            final(self).indexer_state == old(self).indexer_state,
            result.is_err() <==> !publish_lock_is_dead && !delta_at_hand(
                old(self).indexing_workbench_opt,
            ).accepts(batch.checkpoint_delta),
            result.is_err() ==> {
                &&& result == Err::<BatchOutcome, IncompatibleCheckpointDelta>(
                    IncompatibleCheckpointDelta {
                        current_position: delta_at_hand(
                            old(self).indexing_workbench_opt,
                        ).range.unwrap().to,
                        delta_position_from: batch.checkpoint_delta.range.unwrap().from,
                    },
                )
                &&& final(self).counters == old(self).counters
                &&& final(self).indexing_workbench_opt == old(self).indexing_workbench_opt
            },
            result.is_ok() ==> is_worth_publishing(result.unwrap().commit),
            result.is_ok() ==> is_batch_processed(
                *old(self),
                batch,
                parsed_docs@,
                publish_lock_is_dead,
                *final(self),
                result.unwrap(),
            ),
            result.is_ok() && publish_lock_is_dead ==> has_counted_docs(
                final(self).counters,
                old(self).counters,
                Seq::empty(),
                Seq::empty(),
            ),
            result.is_ok() && !publish_lock_is_dead ==> has_counted_docs(
                final(self).counters,
                old(self).counters,
                batch.docs@,
                prepared_docs(old(self).indexer_state.has_timestamp_field, parsed_docs@),
            ),
            result.is_ok() && !publish_lock_is_dead ==> final(self).counters.processed()
                == old(self).counters.processed() + batch.docs@.len(),
    {
        self.process_batch(batch, parsed_docs, publish_lock_is_dead)
    }

    /// Puts the indexer under another publish lock. The workbench at hand
    /// is dropped, with the splits in the making and the offsets covered:
    /// they belonged to the generation of the lock before. Nothing is
    /// counted anew.
    pub fn handle_new_publish_lock(&mut self, message: NewPublishLock)
        requires
            old(self).well_formed(),
        ensures
            final(self).well_formed(),
            final(self).indexing_workbench_opt.is_none(),
            final(self).indexer_state.publish_lock == message.0,
            final(self).indexer_state.pipeline_id == old(self).indexer_state.pipeline_id,
            final(self).indexer_state.indexing_settings == old(self).indexer_state.indexing_settings,
            final(self).indexer_state.has_timestamp_field == old(self).indexer_state.has_timestamp_field,
            final(self).indexer_state.index_settings == old(self).indexer_state.index_settings,
            final(self).counters == old(self).counters,
            final(self).in_step() <==> old(self).counters.num_docs_in_workbench == 0,
    {
        let NewPublishLock(publish_lock) = message;
        self.indexing_workbench_opt = None;
        self.indexer_state.publish_lock = publish_lock;
    }

    /// Ends the indexer. After a success or on request, the workbench is
    /// committed: there are no more documents. After anything else it is
    /// dropped, and nothing is sent on or published.
    pub fn finalize(&mut self, exit_status: &ActorExitStatus) -> (commit: Commit)
        requires
            old(self).well_formed(),
        ensures
            final(self).well_formed(),
            final(self).indexer_state == old(self).indexer_state,
            final(self).indexing_workbench_opt.is_none(),
            is_worth_publishing(commit),
            match *exit_status {
                ActorExitStatus::Quit | ActorExitStatus::Success => {
                    &&& is_committed(
                        old(self).indexing_workbench_opt,
                        old(self).counters,
                        CommitTrigger::NoMoreDocs,
                        final(self).counters,
                        commit,
                    )
                    &&& old(self).in_step() ==> final(self).counters.num_docs_in_workbench == 0
                },
                _ => commit is Nothing && final(self).counters == old(self).counters,
            },
    {
        match exit_status {
            ActorExitStatus::DownstreamClosed
            | ActorExitStatus::Killed
            | ActorExitStatus::Failure
            | ActorExitStatus::Panicked => {
                self.indexing_workbench_opt = None;
                Commit::Nothing
            },
            ActorExitStatus::Quit | ActorExitStatus::Success => self.send_to_packager(
                CommitTrigger::NoMoreDocs,
            ),
        }
    }
}

/// Taking in a batch keeps the count of the documents at hand in step with
/// the workbench.
pub proof fn lemma_taking_in_keeps_in_step(
    state: IndexerState,
    workbench_before: Option<IndexingWorkbench>,
    counters_before: IndexerCounters,
    batch: RawDocBatch,
    parsed_docs: Seq<Result<ParsedDocument, DocParsingError>>,
    publish_lock_is_dead: bool,
    workbench_after: Option<IndexingWorkbench>,
    counters_after: IndexerCounters,
    receipt: BatchReceipt,
)
    requires
        batch.docs@.len() == parsed_docs.len(),
        is_batch_taken_in(
            state,
            workbench_before,
            counters_before,
            batch,
            parsed_docs,
            publish_lock_is_dead,
            workbench_after,
            counters_after,
            receipt,
        ),
        counts_docs_at_hand(workbench_before, counters_before),
        splits_at_hand(workbench_before).dom().finite(),
        splits_at_hand(workbench_after).dom().finite(),
    ensures
        counts_docs_at_hand(workbench_after, counters_after),
{
    let outcomes = prepared_docs(state.has_timestamp_field, parsed_docs);
    if !publish_lock_is_dead {
        lemma_valid_docs_open_splits(
            tallies(splits_at_hand(workbench_before)),
            batch.docs@,
            outcomes,
        );
        let before = splits_at_hand(workbench_before);
        let after = splits_at_hand(workbench_after);
        assert(tallies(before).dom() =~= before.dom());
        assert(tallies(after).dom() =~= after.dom());
        if after.dom().len() == 0 {
            assert(after.dom() =~= Set::empty());
            assert(before.dom() =~= Set::empty()) by {
                assert forall|partition_id: u64| !before.dom().contains(partition_id) by {
                    if before.contains_key(partition_id) {
                        assert(after.contains_key(partition_id));
                    }
                }
            }
        }
    }
}

/// A valid document leaves a split behind: what is counted of the splits
/// after a batch covers what was counted before, and is empty only if no
/// document of the batch was valid.
pub proof fn lemma_valid_docs_open_splits(
    counted: Map<u64, SplitTally>,
    docs: Seq<String>,
    outcomes: Seq<PrepareDocumentOutcome>,
)
    requires
        docs.len() == outcomes.len(),
    ensures
        counted.dom().subset_of(tallies_after(counted, docs, outcomes).dom()),
        tallies_after(counted, docs, outcomes).dom() =~= Set::<u64>::empty()
            ==> num_valid_docs_of(outcomes) == 0,
    decreases docs.len(),
{
    if docs.len() > 0 {
        lemma_valid_docs_open_splits(counted, docs.drop_last(), outcomes.drop_last());
        let before = tallies_after(counted, docs.drop_last(), outcomes.drop_last());
        if let PrepareDocumentOutcome::Document { timestamp_opt, partition } = outcomes.last() {
            assert(tallies_after(counted, docs, outcomes).dom().contains(partition));
        }
    }
}

/// Every document of a batch that is taken in is counted once, as valid or
/// as not valid, and its size is counted whatever it is: the documents
/// received are the valid ones, those that did not parse and those that lack
/// a field.
pub proof fn lemma_every_doc_is_counted(
    after: IndexerCounters,
    before: IndexerCounters,
    docs: Seq<String>,
    outcomes: Seq<PrepareDocumentOutcome>,
)
    requires
        docs.len() == outcomes.len(),
        has_counted(after, before, docs, outcomes),
    ensures
        after.processed() == before.processed() + docs.len(),
        after.processed() == after.num_valid_docs + after.num_parse_errors
            + after.num_missing_fields,
        after.overall_num_bytes == before.overall_num_bytes + total_num_bytes(docs),
{
    crate::doc_processing::lemma_each_doc_counted_once(outcomes);
}

/// What a batch adds to the counters depends on the batch alone: taken in
/// again after a generation has failed, it adds the same.
pub proof fn lemma_same_batch_same_counts(
    first_after: IndexerCounters,
    first_before: IndexerCounters,
    second_after: IndexerCounters,
    second_before: IndexerCounters,
    docs: Seq<String>,
    outcomes: Seq<PrepareDocumentOutcome>,
)
    requires
        has_counted(first_after, first_before, docs, outcomes),
        has_counted(second_after, second_before, docs, outcomes),
    ensures
        first_after.num_parse_errors - first_before.num_parse_errors
            == second_after.num_parse_errors - second_before.num_parse_errors,
        first_after.num_missing_fields - first_before.num_missing_fields
            == second_after.num_missing_fields - second_before.num_missing_fields,
        first_after.num_valid_docs - first_before.num_valid_docs == second_after.num_valid_docs
            - second_before.num_valid_docs,
        first_after.num_docs_in_workbench - first_before.num_docs_in_workbench
            == second_after.num_docs_in_workbench - second_before.num_docs_in_workbench,
        first_after.overall_num_bytes - first_before.overall_num_bytes
            == second_after.overall_num_bytes - second_before.overall_num_bytes,
        first_after.num_splits_emitted - first_before.num_splits_emitted
            == second_after.num_splits_emitted - second_before.num_splits_emitted,
        first_after.num_split_batches_emitted - first_before.num_split_batches_emitted
            == second_after.num_split_batches_emitted - second_before.num_split_batches_emitted,
        first_before == second_before ==> first_after == second_after,
{
}

/// Two indexers that have counted the same and hold workbenches of which
/// the same is counted make the same of a batch: they count the same, and
/// the same is counted of their workbenches afterwards. Only the identifiers
/// that they draw can differ.
pub proof fn lemma_same_batch_same_workbench(
    state: IndexerState,
    counters_before: IndexerCounters,
    batch: RawDocBatch,
    parsed_docs: Seq<Result<ParsedDocument, DocParsingError>>,
    publish_lock_is_dead: bool,
    first_before: Option<IndexingWorkbench>,
    first_after: Option<IndexingWorkbench>,
    first_counters: IndexerCounters,
    first_receipt: BatchReceipt,
    second_before: Option<IndexingWorkbench>,
    second_after: Option<IndexingWorkbench>,
    second_counters: IndexerCounters,
    second_receipt: BatchReceipt,
)
    requires
        tallies(splits_at_hand(first_before)) == tallies(splits_at_hand(second_before)),
        delta_at_hand(first_before) == delta_at_hand(second_before),
        is_batch_taken_in(
            state,
            first_before,
            counters_before,
            batch,
            parsed_docs,
            publish_lock_is_dead,
            first_after,
            first_counters,
            first_receipt,
        ),
        is_batch_taken_in(
            state,
            second_before,
            counters_before,
            batch,
            parsed_docs,
            publish_lock_is_dead,
            second_after,
            second_counters,
            second_receipt,
        ),
    ensures
        first_counters == second_counters,
        tallies(splits_at_hand(first_after)) == tallies(splits_at_hand(second_after)),
        delta_at_hand(first_after) == delta_at_hand(second_after),
        splits_at_hand(first_after).dom() == splits_at_hand(second_after).dom(),
{
    assert(tallies(splits_at_hand(first_after)).dom() =~= splits_at_hand(first_after).dom());
    assert(tallies(splits_at_hand(second_after)).dom() =~= splits_at_hand(second_after).dom());
}

/// Two commits of workbenches that hold splits for the same partitions
/// count the same.
pub proof fn lemma_same_workbench_same_commit_counts(
    counters_before: IndexerCounters,
    commit_trigger: CommitTrigger,
    first_before: Option<IndexingWorkbench>,
    first_counters: IndexerCounters,
    first_commit: Commit,
    second_before: Option<IndexingWorkbench>,
    second_counters: IndexerCounters,
    second_commit: Commit,
)
    requires
        first_before.is_some() == second_before.is_some(),
        splits_at_hand(first_before).dom() == splits_at_hand(second_before).dom(),
        is_committed(first_before, counters_before, commit_trigger, first_counters, first_commit),
        is_committed(
            second_before,
            counters_before,
            commit_trigger,
            second_counters,
            second_commit,
        ),
    ensures
        first_counters == second_counters,
        first_commit is SendToPackager == second_commit is SendToPackager,
{
}

/// After a commit no document is at hand, as long as the counter of the
/// documents at hand was in step with the workbench.
pub proof fn lemma_commit_leaves_no_doc_at_hand(
    workbench_before: Option<IndexingWorkbench>,
    counters_before: IndexerCounters,
    commit_trigger: CommitTrigger,
    counters_after: IndexerCounters,
    commit: Commit,
)
    requires
        counts_docs_at_hand(workbench_before, counters_before),
        is_committed(workbench_before, counters_before, commit_trigger, counters_after, commit),
    ensures
        counters_after.num_docs_in_workbench == 0,
{
}

/// What a commit asks to publish is never empty: it holds splits, or else
/// a checkpoint that covers offsets.
pub proof fn lemma_commit_is_worth_publishing(
    workbench_before: Option<IndexingWorkbench>,
    counters_before: IndexerCounters,
    commit_trigger: CommitTrigger,
    counters_after: IndexerCounters,
    commit: Commit,
)
    requires
        is_committed(workbench_before, counters_before, commit_trigger, counters_after, commit),
        splits_at_hand(workbench_before).dom().finite(),
    ensures
        is_worth_publishing(commit),
{
    if let Some(workbench) = workbench_before {
        if workbench.indexed_splits@.dom().len() != 0 {
            assert(commit->batch.splits@.len() == workbench.indexed_splits@.dom().len());
        }
    }
}

} // verus!

//! The values that the actors of an indexing pipeline hand to one another.

use vstd::prelude::*;
use crate::checkpoint::SourceCheckpointDelta;
use crate::split_metadata::TimeRange;

verus! {

/// Identifies one indexing pipeline: the index it feeds, the source it
/// reads, the node it runs on and its rank among the pipelines of that
/// source on that node.
#[derive(Clone, Debug)]
pub struct IndexingPipelineId {
    pub index_id: String,
    pub source_id: String,
    pub node_id: String,
    pub pipeline_ord: usize,
}

impl IndexingPipelineId {
    /// A copy of the identifier.
    pub fn duplicate(&self) -> (copy: IndexingPipelineId)
        ensures
            copy == *self,
    {
        IndexingPipelineId {
            index_id: self.index_id.clone(),
            source_id: self.source_id.clone(),
            node_id: self.node_id.clone(),
            pipeline_ord: self.pipeline_ord,
        }
    }
}

/// A batch of documents read from a source, as JSON texts, and the offsets
/// of the source that they cover.
#[derive(Debug)]
pub struct RawDocBatch {
    pub docs: Vec<String>,
    pub checkpoint_delta: SourceCheckpointDelta,
}

/// A permission to publish, granted for one generation of a source. The
/// lock is alive until it is killed, and dead ever after; whether it is dead
/// is for its holder to observe.
#[derive(Clone, Debug)]
pub struct PublishLock {
    pub id: String,
}

impl PublishLock {
    /// The lock named `id`.
    pub fn new(id: String) -> (lock: PublishLock)
        ensures
            lock.id == id,
    {
        PublishLock { id }
    }

    /// A copy of the lock: the same permission.
    pub fn duplicate(&self) -> (copy: PublishLock)
        ensures
            copy == *self,
    {
        PublishLock { id: self.id.clone() }
    }
}

impl Default for PublishLock {
    fn default() -> (lock: PublishLock)
        ensures
            lock.id@.len() == 0,
    {
        PublishLock { id: String::new() }
    }
}

/// Tells the indexer to publish under another lock from now on.
#[derive(Debug)]
pub struct NewPublishLock(pub PublishLock);

/// What is recorded of a split while it is built.
#[derive(Debug)]
pub struct SplitAttrs {
    /// Identifier of the split.
    pub split_id: String,
    /// Partition of the documents of the split.
    pub partition_id: u64,
    /// Pipeline that builds the split.
    pub pipeline_id: IndexingPipelineId,
    /// Number of documents added so far.
    pub num_docs: u64,
    /// Size of the JSON texts of these documents, in bytes.
    pub uncompressed_docs_size_in_bytes: u64,
    /// Hull of the timestamps of these documents.
    pub time_range: Option<TimeRange>,
}

/// A split in the making, bound to one partition.
#[derive(Debug)]
pub struct IndexedSplit {
    pub split_attrs: SplitAttrs,
}

impl IndexedSplit {
    /// Identifier of the split.
    pub fn split_id(&self) -> (id: &str)
        ensures
            id@ == self.split_attrs.split_id@,
    {
        self.split_attrs.split_id.as_str()
    }
}

/// How an actor ended.
#[derive(Clone, Copy, Debug, PartialEq, Eq, Structural)]
pub enum ActorExitStatus {
    /// The actor did all of its work.
    Success,
    /// The actor was asked to quit, and did.
    Quit,
    /// The actor that it sends to is gone.
    DownstreamClosed,
    /// The kill switch was tripped.
    Killed,
    /// A handler failed.
    Failure,
    /// A handler panicked.
    Panicked,
}

/// Number of messages that the mailbox of an actor holds before senders
/// wait.
#[derive(Clone, Copy, Debug, PartialEq, Eq, Structural)]
pub enum QueueCapacity {
    Bounded(usize),
    Unbounded,
}

} // verus!

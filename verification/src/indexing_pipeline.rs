//! The supervisor of an indexing pipeline: which actors it spawns and in
//! what order, what it makes of their health, when it spawns them again, and
//! what it reports.
//!
//! The supervisor spawns and kills nothing itself. It is told what happened
//! (a spawn failed, the actors are in such health), and answers with what is
//! to be done.

use vstd::arithmetic::power2::{lemma2_to64, lemma_pow2_strictly_increases, pow2};
use vstd::prelude::*;
use crate::doc_processing::IndexerCounters;
use crate::indexing_settings::IndexingSettings;
use crate::merge_policy::StableMultitenantWithTimestampMergePolicy;
use crate::metastore_wire::MetastoreError;
use crate::models::{IndexingPipelineId, QueueCapacity};

verus! {

/// Longest wait before a pipeline is spawned again, in seconds.
pub const MAX_RETRY_DELAY_SECS: u64 = 600;

/// Seconds between two looks of the supervisor at its actors.
pub const HEARTBEAT_SECS: u64 = 1;

/// Seconds between two readings of the counters of the actors.
pub const OBSERVE_INTERVAL_SECS: u64 = 1;

/// Health of an actor, or of a pipeline.
#[derive(Clone, Copy, Debug, PartialEq, Eq, Structural)]
pub enum Health {
    /// At work, and making progress.
    Healthy,
    /// Failed, or stuck.
    FailureOrUnhealthy,
    /// Done with all of its work.
    Success,
}

/// Asks the supervisor to look at the health of its actors.
#[derive(Clone, Copy, Debug, PartialEq, Eq, Structural)]
pub struct Supervise;

/// Asks the supervisor to spawn the pipeline; `retry_count` spawns have
/// failed in a row before.
#[derive(Clone, Copy, Debug, PartialEq, Eq, Structural)]
pub struct Spawn {
    pub retry_count: usize,
}

impl Default for Spawn {
    fn default() -> (spawn: Spawn)
        ensures
            spawn.retry_count == 0,
    {
        Spawn { retry_count: 0 }
    }
}

/// The actors of a pipeline.
#[derive(Clone, Copy, Debug, PartialEq, Eq, Structural)]
pub enum PipelineActor {
    Source,
    Indexer,
    Packager,
    Uploader,
    Sequencer,
    Publisher,
    GarbageCollector,
    MergePlanner,
    MergeSplitDownloader,
    MergeExecutor,
    MergePackager,
    MergeUploader,
    MergeSequencer,
    MergePublisher,
}

/// The actors to whose mailbox `actor` holds on from the moment it is
/// spawned.
pub open spec fn sends_to(actor: PipelineActor) -> Seq<PipelineActor> {
    match actor {
        PipelineActor::Source => seq![PipelineActor::Indexer],
        PipelineActor::Indexer => seq![PipelineActor::Packager],
        PipelineActor::Packager => seq![PipelineActor::Uploader],
        PipelineActor::Uploader => seq![PipelineActor::Sequencer],
        PipelineActor::Sequencer => seq![PipelineActor::Publisher],
        PipelineActor::Publisher => seq![
            PipelineActor::MergePlanner,
            PipelineActor::GarbageCollector,
            PipelineActor::Source,
        ],
        PipelineActor::GarbageCollector => seq![],
        PipelineActor::MergePlanner => seq![PipelineActor::MergeSplitDownloader],
        PipelineActor::MergeSplitDownloader => seq![PipelineActor::MergeExecutor],
        PipelineActor::MergeExecutor => seq![PipelineActor::MergePackager],
        PipelineActor::MergePackager => seq![PipelineActor::MergeUploader],
        PipelineActor::MergeUploader => seq![PipelineActor::MergeSequencer],
        PipelineActor::MergeSequencer => seq![PipelineActor::MergePublisher],
        PipelineActor::MergePublisher => seq![
            PipelineActor::MergePlanner,
            PipelineActor::GarbageCollector,
        ],
    }
}

/// Whether the mailbox of `actor` is made before any actor is spawned. The
/// merge planner and the source are sent to by actors that are spawned
/// before them: their mailboxes are made ahead, and handed to them when they
/// are spawned.
pub open spec fn has_mailbox_made_ahead(actor: PipelineActor) -> bool {
    actor == PipelineActor::MergePlanner || actor == PipelineActor::Source
}

/// The mailbox to make for `actor` before any actor is spawned, if one is
/// to be made: one without bound, for the merge planner and for the source.
pub fn mailbox_made_ahead(actor: PipelineActor) -> (capacity: Option<QueueCapacity>)
    ensures
        capacity.is_some() == has_mailbox_made_ahead(actor),
        capacity.is_some() ==> capacity == Some(QueueCapacity::Unbounded),
{
    match actor {
        PipelineActor::MergePlanner | PipelineActor::Source => Some(QueueCapacity::Unbounded),
        _ => None,
    }
}

/// The order in which the actors are spawned: an actor comes after those it
/// sends to, but for the two whose mailbox is made ahead.
pub open spec fn spawn_order() -> Seq<PipelineActor> {
    seq![
        PipelineActor::GarbageCollector,
        PipelineActor::MergePublisher,
        PipelineActor::MergeSequencer,
        PipelineActor::MergeUploader,
        PipelineActor::MergePackager,
        PipelineActor::MergeExecutor,
        PipelineActor::MergeSplitDownloader,
        PipelineActor::MergePlanner,
        PipelineActor::Publisher,
        PipelineActor::Sequencer,
        PipelineActor::Uploader,
        PipelineActor::Packager,
        PipelineActor::Indexer,
        PipelineActor::Source,
    ]
}

/// The order in which the actors are spawned.
pub fn spawn_sequence() -> (sequence: Vec<PipelineActor>)
    ensures
        sequence@ == spawn_order(),
{
    let mut sequence: Vec<PipelineActor> = Vec::new();
    sequence.push(PipelineActor::GarbageCollector);
    sequence.push(PipelineActor::MergePublisher);
    sequence.push(PipelineActor::MergeSequencer);
    sequence.push(PipelineActor::MergeUploader);
    sequence.push(PipelineActor::MergePackager);
    sequence.push(PipelineActor::MergeExecutor);
    sequence.push(PipelineActor::MergeSplitDownloader);
    sequence.push(PipelineActor::MergePlanner);
    sequence.push(PipelineActor::Publisher);
    sequence.push(PipelineActor::Sequencer);
    sequence.push(PipelineActor::Uploader);
    sequence.push(PipelineActor::Packager);
    sequence.push(PipelineActor::Indexer);
    sequence.push(PipelineActor::Source);
    assert(sequence@ =~= spawn_order());
    sequence
}

/// Every actor is spawned once, and finds the mailboxes it sends to: each
/// is made ahead, or belongs to an actor spawned before.
pub proof fn lemma_spawn_order_is_leaves_first()
    ensures
        spawn_order().len() == 14,
        spawn_order().no_duplicates(),
        forall|i: int, j: int|
            0 <= i < spawn_order().len() && 0 <= j < sends_to(spawn_order()[i]).len() ==> {
                let target = #[trigger] sends_to(spawn_order()[i])[j];
                has_mailbox_made_ahead(target) || exists|k: int|
                    0 <= k < i && spawn_order()[k] == target
            },
{
    let order = spawn_order();
    assert forall|i: int, j: int|
        0 <= i < order.len() && 0 <= j < sends_to(order[i]).len() implies {
        let target = #[trigger] sends_to(order[i])[j];
        has_mailbox_made_ahead(target) || exists|k: int| 0 <= k < i && order[k] == target
    } by {
        let target = sends_to(order[i])[j];
        if !has_mailbox_made_ahead(target) {
            let k = if i == 1 || i == 8 {
                0int
            } else {
                i - 1
            };
            assert(0 <= k < i && order[k] == target);
        }
    }
}

/// The handles of the actors of a pipeline, one per actor. What a handle is
/// is for the caller to say.
#[derive(Debug)]
pub struct IndexingPipelineHandle<H> {
    pub source: H,
    pub indexer: H,
    pub packager: H,
    pub uploader: H,
    pub sequencer: H,
    pub publisher: H,
    pub garbage_collector: H,
    pub merge_planner: H,
    pub merge_split_downloader: H,
    pub merge_executor: H,
    pub merge_packager: H,
    pub merge_uploader: H,
    pub merge_sequencer: H,
    pub merge_publisher: H,
}

/// The actors that the supervisor watches, in the order in which it reads
/// their health.
pub open spec fn supervised_actors() -> Seq<PipelineActor> {
    seq![
        PipelineActor::Source,
        PipelineActor::Indexer,
        PipelineActor::Packager,
        PipelineActor::Uploader,
        PipelineActor::Sequencer,
        PipelineActor::Publisher,
        PipelineActor::GarbageCollector,
        PipelineActor::MergePlanner,
        PipelineActor::MergeSplitDownloader,
        PipelineActor::MergeExecutor,
        PipelineActor::MergePackager,
        PipelineActor::MergeUploader,
        PipelineActor::MergeSequencer,
        PipelineActor::MergePublisher,
    ]
}

/// The actors that the supervisor kills one by one when it ends a
/// generation. The sequencers are not among them: they go with the kill
/// switch.
pub open spec fn killed_actors() -> Seq<PipelineActor> {
    seq![
        PipelineActor::Source,
        PipelineActor::Indexer,
        PipelineActor::Packager,
        PipelineActor::Uploader,
        PipelineActor::Publisher,
        PipelineActor::GarbageCollector,
        PipelineActor::MergePlanner,
        PipelineActor::MergeSplitDownloader,
        PipelineActor::MergeExecutor,
        PipelineActor::MergePackager,
        PipelineActor::MergeUploader,
        PipelineActor::MergePublisher,
    ]
}

impl<H> IndexingPipelineHandle<H> {
    /// The handle of `actor`.
    pub open spec fn handle_of(self, actor: PipelineActor) -> H {
        match actor {
            PipelineActor::Source => self.source,
            PipelineActor::Indexer => self.indexer,
            PipelineActor::Packager => self.packager,
            PipelineActor::Uploader => self.uploader,
            PipelineActor::Sequencer => self.sequencer,
            PipelineActor::Publisher => self.publisher,
            PipelineActor::GarbageCollector => self.garbage_collector,
            PipelineActor::MergePlanner => self.merge_planner,
            PipelineActor::MergeSplitDownloader => self.merge_split_downloader,
            PipelineActor::MergeExecutor => self.merge_executor,
            PipelineActor::MergePackager => self.merge_packager,
            PipelineActor::MergeUploader => self.merge_uploader,
            PipelineActor::MergeSequencer => self.merge_sequencer,
            PipelineActor::MergePublisher => self.merge_publisher,
        }
    }

    /// The handles of `actors`, in order.
    pub open spec fn handles_of(self, actors: Seq<PipelineActor>) -> Seq<H> {
        actors.map_values(|actor: PipelineActor| self.handle_of(actor))
    }
}

/// Health of a pipeline whose actors are in the health `healths`: failing
/// as soon as one actor is, done once all are, healthy otherwise.
pub open spec fn consolidated(healths: Seq<Health>) -> Health {
    if exists|i: int| 0 <= i < healths.len() && healths[i] == Health::FailureOrUnhealthy {
        Health::FailureOrUnhealthy
    } else if exists|i: int| 0 <= i < healths.len() && healths[i] == Health::Healthy {
        Health::Healthy
    } else {
        Health::Success
    }
}

/// Health of a pipeline whose actors are in the health `healths`.
pub fn consolidate_health(healths: &[Health]) -> (health: Health)
    ensures
        health == consolidated(healths@),
{
    let mut num_healthy: usize = 0;
    let mut num_failure_or_unhealthy: usize = 0;
    let mut i: usize = 0;
    while i < healths.len()
        invariant
            0 <= i <= healths@.len(),
            num_healthy <= i,
            num_failure_or_unhealthy <= i,
            num_failure_or_unhealthy > 0 <==> exists|j: int|
                0 <= j < i && healths@[j] == Health::FailureOrUnhealthy,
            num_healthy > 0 <==> exists|j: int| 0 <= j < i && healths@[j] == Health::Healthy,
        decreases healths@.len() - i,
    {
        match healths[i] {
            Health::Healthy => {
                num_healthy += 1;
            },
            Health::FailureOrUnhealthy => {
                num_failure_or_unhealthy += 1;
            },
            Health::Success => {},
        }
        i += 1;
    }
    if num_failure_or_unhealthy > 0 {
        return Health::FailureOrUnhealthy;
    }
    if num_healthy == 0 {
        return Health::Success;
    }
    Health::Healthy
}

/// Seconds to wait before the spawn that follows `retry_count` failed
/// spawns: two to the power of their number plus one, and ten minutes at
/// most.
pub open spec fn retry_delay_secs(retry_count: nat) -> nat {
    if pow2(retry_count + 1) < 600 {
        pow2(retry_count + 1)
    } else {
        600
    }
}

/// The wait before a retry never shrinks as retries add up, and never
/// exceeds ten minutes.
pub proof fn lemma_retry_delay_is_monotonic(fewer: nat, more: nat)
    requires
        fewer <= more,
    ensures
        retry_delay_secs(fewer) <= retry_delay_secs(more),
        retry_delay_secs(more) <= 600,
{
    if fewer < more {
        lemma_pow2_strictly_increases(fewer + 1, more + 1);
    }
}

/// What the uploader has counted.
#[derive(Clone, Copy, Debug, PartialEq, Eq, Structural)]
pub struct UploaderCounters {
    pub num_staged_splits: u64,
    pub num_uploaded_splits: u64,
}

/// What the publisher has counted.
#[derive(Clone, Copy, Debug, PartialEq, Eq, Structural)]
pub struct PublisherCounters {
    pub num_published_splits: u64,
}

/// What a pipeline reports of itself: the work of its actors over all of
/// its generations.
#[derive(Clone, Copy, Debug, PartialEq, Eq, Structural)]
pub struct IndexingStatistics {
    /// Number of documents received, valid or not.
    pub num_docs: u64,
    /// Number of documents that were not valid.
    pub num_invalid_docs: u64,
    /// Number of splits that the indexer has sent on.
    pub num_local_splits: u64,
    /// Number of splits staged.
    pub num_staged_splits: u64,
    /// Number of splits uploaded.
    pub num_uploaded_splits: u64,
    /// Number of splits published.
    pub num_published_splits: u64,
    /// Size of the documents received, in bytes.
    pub total_bytes_processed: u64,
    /// Number of times the actors were spawned with success.
    pub generation: usize,
    /// Number of times the spawn of the actors was attempted.
    pub num_spawn_attempts: usize,
}

impl IndexingStatistics {
    /// Whether the counters of the actors can be added to the statistics
    /// without leaving the range of their type.
    pub open spec fn has_room_for(
        self,
        indexer_counters: IndexerCounters,
        uploader_counters: UploaderCounters,
        publisher_counters: PublisherCounters,
    ) -> bool {
        &&& self.num_docs + indexer_counters.processed() <= u64::MAX
        &&& self.num_invalid_docs + indexer_counters.invalid() <= u64::MAX
        &&& self.num_local_splits + indexer_counters.num_splits_emitted <= u64::MAX
        &&& self.total_bytes_processed + indexer_counters.overall_num_bytes <= u64::MAX
        &&& self.num_staged_splits + uploader_counters.num_staged_splits <= u64::MAX
        &&& self.num_uploaded_splits + uploader_counters.num_uploaded_splits <= u64::MAX
        &&& self.num_published_splits + publisher_counters.num_published_splits <= u64::MAX
    }

    /// The statistics with the counters of the actors added.
    pub open spec fn with_actor_counters(
        self,
        indexer_counters: IndexerCounters,
        uploader_counters: UploaderCounters,
        publisher_counters: PublisherCounters,
    ) -> IndexingStatistics {
        IndexingStatistics {
            num_docs: (self.num_docs + indexer_counters.processed()) as u64,
            num_invalid_docs: (self.num_invalid_docs + indexer_counters.invalid()) as u64,
            num_local_splits: (self.num_local_splits + indexer_counters.num_splits_emitted) as u64,
            total_bytes_processed: (self.total_bytes_processed
                + indexer_counters.overall_num_bytes) as u64,
            num_staged_splits: (self.num_staged_splits
                + uploader_counters.num_staged_splits) as u64,
            num_uploaded_splits: (self.num_uploaded_splits
                + uploader_counters.num_uploaded_splits) as u64,
            num_published_splits: (self.num_published_splits
                + publisher_counters.num_published_splits) as u64,
            ..self
        }
    }

    /// Adds the counters of the actors of a generation to the statistics.
    pub fn add_actor_counters(
        self,
        indexer_counters: &IndexerCounters,
        uploader_counters: &UploaderCounters,
        publisher_counters: &PublisherCounters,
    ) -> (statistics: IndexingStatistics)
        requires
            self.has_room_for(*indexer_counters, *uploader_counters, *publisher_counters),
        ensures
            statistics == self.with_actor_counters(
                *indexer_counters,
                *uploader_counters,
                *publisher_counters,
            ),
    {
        let mut statistics = self;
        statistics.num_docs += indexer_counters.num_processed_docs();
        statistics.num_invalid_docs += indexer_counters.num_invalid_docs();
        statistics.num_local_splits += indexer_counters.num_splits_emitted;
        statistics.total_bytes_processed += indexer_counters.overall_num_bytes;
        statistics.num_staged_splits += uploader_counters.num_staged_splits;
        statistics.num_uploaded_splits += uploader_counters.num_uploaded_splits;
        statistics.num_published_splits += publisher_counters.num_published_splits;
        statistics
    }

    /// The statistics with the generation set to `generation`.
    pub fn set_generation(self, generation: usize) -> (statistics: IndexingStatistics)
        ensures
            statistics == (IndexingStatistics { generation, ..self }),
    {
        let mut statistics = self;
        statistics.generation = generation;
        statistics
    }

    /// The statistics with the number of spawn attempts set to
    /// `num_spawn_attempts`.
    pub fn set_num_spawn_attempts(self, num_spawn_attempts: usize) -> (statistics:
        IndexingStatistics)
        ensures
            statistics == (IndexingStatistics { num_spawn_attempts, ..self }),
    {
        let mut statistics = self;
        statistics.num_spawn_attempts = num_spawn_attempts;
        statistics
    }
}

impl Default for IndexingStatistics {
    fn default() -> (statistics: IndexingStatistics)
        ensures
            statistics == (IndexingStatistics {
                num_docs: 0,
                num_invalid_docs: 0,
                num_local_splits: 0,
                num_staged_splits: 0,
                num_uploaded_splits: 0,
                num_published_splits: 0,
                total_bytes_processed: 0,
                generation: 0,
                num_spawn_attempts: 0,
            }),
    {
        IndexingStatistics {
            num_docs: 0,
            num_invalid_docs: 0,
            num_local_splits: 0,
            num_staged_splits: 0,
            num_uploaded_splits: 0,
            num_published_splits: 0,
            total_bytes_processed: 0,
            generation: 0,
            num_spawn_attempts: 0,
        }
    }
}

/// Why the spawn of a pipeline failed.
#[derive(Clone, Debug)]
pub enum SpawnError {
    /// The metastore refused a request.
    Metastore(MetastoreError),
    /// Anything else.
    Other,
}

/// What is to be done after a failed spawn.
#[derive(Clone, Copy, Debug, PartialEq, Eq, Structural)]
pub enum SpawnFailureAction {
    /// The pipeline is to end, with success: its index is gone, and no
    /// later spawn can do better.
    ExitWithSuccess,
    /// The spawn is to be tried again: `message` is to come back to the
    /// supervisor after `delay_secs` seconds.
    Retry { delay_secs: u64, message: Spawn },
}

/// What is to be done after a look at the health of the actors.
#[derive(Debug)]
pub enum SuperviseAction<H> {
    /// Nothing but to look again after `delay_secs` seconds.
    LookAgain { delay_secs: u64 },
    /// The pipeline is failing: the kill switch of the generation is to be
    /// tripped, the actors of `to_kill` killed, and `message` is to come
    /// back to the supervisor after `delay_secs` seconds, for the pipeline to
    /// be spawned anew; then to look again after `look_again_delay_secs`
    /// seconds.
    KillAndRespawn {
        to_kill: Vec<H>,
        delay_secs: u64,
        message: Spawn,
        look_again_delay_secs: u64,
    },
    /// The pipeline is done: the supervisor is to end with success. Merges
    /// that are still on their way are not waited for.
    ExitWithSuccess,
}

/// What a pipeline is set up with, as far as its supervisor reads it.
#[derive(Debug)]
pub struct IndexingPipelineParams {
    pub pipeline_id: IndexingPipelineId,
    pub indexing_settings: IndexingSettings,
    pub split_store_max_num_bytes: usize,
    pub split_store_max_num_splits: usize,
}

/// The supervisor of a pipeline.
#[derive(Debug)]
pub struct IndexingPipeline<H> {
    pub params: IndexingPipelineParams,
    pub previous_generations_statistics: IndexingStatistics,
    pub statistics: IndexingStatistics,
    pub handles: Option<IndexingPipelineHandle<H>>,
}

impl<H> IndexingPipeline<H> {
    /// The supervisor of a pipeline that has not been spawned yet.
    pub fn new(params: IndexingPipelineParams) -> (pipeline: IndexingPipeline<H>)
        ensures
            pipeline.params == params,
            pipeline.handles.is_none(),
            pipeline.statistics == pipeline.previous_generations_statistics,
            pipeline.statistics.generation == 0,
            pipeline.statistics.num_spawn_attempts == 0,
            pipeline.statistics.num_docs == 0,
            pipeline.statistics.num_invalid_docs == 0,
            pipeline.statistics.num_local_splits == 0,
            pipeline.statistics.num_staged_splits == 0,
            pipeline.statistics.num_uploaded_splits == 0,
            pipeline.statistics.num_published_splits == 0,
            pipeline.statistics.total_bytes_processed == 0,
    {
        IndexingPipeline {
            params,
            previous_generations_statistics: IndexingStatistics::default(),
            handles: None,
            statistics: IndexingStatistics::default(),
        }
    }

    /// What the pipeline reports of itself.
    pub fn observable_state(&self) -> (statistics: IndexingStatistics)
        ensures
            statistics == self.statistics,
    {
        self.statistics
    }

    /// Name of the actor.
    pub fn name(&self) -> (name: String)
        ensures
            name@ == "IndexingPipeline"@,
    {
        "IndexingPipeline".to_string()
    }

    /// Number of times the actors were spawned with success.
    pub fn generation(&self) -> (generation: usize)
        ensures
            generation == self.statistics.generation,
    {
        self.statistics.generation
    }

    /// The handles of the actors that the supervisor watches, in the order
    /// in which it reads their health; none before the pipeline is spawned.
    pub fn supervisables(&self) -> (supervisables: Vec<&H>)
        ensures
            match self.handles {
                Some(handles) => supervisables@.len() == 14 && forall|i: int|
                    0 <= i < 14 ==> *(#[trigger] supervisables@[i]) == handles.handle_of(
                        supervised_actors()[i],
                    ),
                None => supervisables@.len() == 0,
            },
    {
        let mut supervisables: Vec<&H> = Vec::new();
        if let Some(handles) = &self.handles {
            supervisables.push(&handles.source);
            supervisables.push(&handles.indexer);
            supervisables.push(&handles.packager);
            supervisables.push(&handles.uploader);
            supervisables.push(&handles.sequencer);
            supervisables.push(&handles.publisher);
            supervisables.push(&handles.garbage_collector);
            supervisables.push(&handles.merge_planner);
            supervisables.push(&handles.merge_split_downloader);
            supervisables.push(&handles.merge_executor);
            supervisables.push(&handles.merge_packager);
            supervisables.push(&handles.merge_uploader);
            supervisables.push(&handles.merge_sequencer);
            supervisables.push(&handles.merge_publisher);
        }
        supervisables
    }

    /// Health of the pipeline, from the health of each of the actors that
    /// the supervisor watches.
    pub fn healthcheck(&self, healths: &[Health]) -> (health: Health)
        ensures
            health == consolidated(healths@),
    {
        consolidate_health(healths)
    }

    /// The merge policy of the pipeline: that of the settings of the index.
    pub fn merge_policy(&self) -> (policy: StableMultitenantWithTimestampMergePolicy)
        ensures
            policy.merge_enabled == self.params.indexing_settings.merge_enabled,
            policy.merge_factor == self.params.indexing_settings.merge_policy.merge_factor,
            policy.max_merge_factor == self.params.indexing_settings.merge_policy.max_merge_factor,
            policy.split_num_docs_target == self.params.indexing_settings.split_num_docs_target,
            policy.min_level_num_docs == 100_000,
    {
        StableMultitenantWithTimestampMergePolicy {
            merge_enabled: self.params.indexing_settings.merge_enabled,
            merge_factor: self.params.indexing_settings.merge_policy.merge_factor,
            max_merge_factor: self.params.indexing_settings.merge_policy.max_merge_factor,
            split_num_docs_target: self.params.indexing_settings.split_num_docs_target,
            min_level_num_docs: 100_000,
        }
    }

    /// Seconds to wait before the spawn that follows `retry_count` failed
    /// spawns.
    pub fn wait_duration_before_retry(retry_count: usize) -> (delay_secs: u64)
        ensures
            delay_secs == retry_delay_secs(retry_count as nat),
            delay_secs <= MAX_RETRY_DELAY_SECS,
    {
        proof {
            lemma2_to64();
            if retry_count >= 9 {
                if retry_count > 9 {
                    lemma_pow2_strictly_increases(10, (retry_count + 1) as nat);
                }
            }
        }
        if retry_count >= 9 {
            return MAX_RETRY_DELAY_SECS;
        }
        let mut delay_secs: u64 = 2;
        let mut power: usize = 1;
        while power < retry_count + 1
            invariant
                1 <= power <= retry_count + 1,
                retry_count < 9,
                delay_secs == pow2(power as nat),
                delay_secs <= 512,
            decreases retry_count + 1 - power,
        {
            proof {
                lemma2_to64();
                vstd::arithmetic::power2::lemma_pow2_unfold((power + 1) as nat);
            }
            delay_secs = delay_secs * 2;
            power += 1;
        }
        delay_secs
    }

    /// Takes a request to spawn the pipeline. Returns whether the pipeline
    /// is to be spawned: it is not where it is spawned already. Where it is,
    /// the attempt is counted.
    pub fn begin_spawn(&mut self, spawn: Spawn) -> (proceed: bool)
        requires
            spawn.retry_count < usize::MAX,
            old(self).statistics.num_spawn_attempts < usize::MAX,
        ensures
            proceed == old(self).handles.is_none(),
            !proceed ==> *final(self) == *old(self),
            proceed ==> {
                &&& final(self).handles.is_none()
                &&& final(self).params == old(self).params
                &&& final(self).previous_generations_statistics == (IndexingStatistics {
                    num_spawn_attempts: (1 + spawn.retry_count) as usize,
                    ..old(self).previous_generations_statistics
                })
                &&& final(self).statistics == (IndexingStatistics {
                    num_spawn_attempts: (old(self).statistics.num_spawn_attempts + 1) as usize,
                    ..old(self).statistics
                })
            },
    {
        if self.handles.is_some() {
            return false;
        }
        self.previous_generations_statistics.num_spawn_attempts = 1 + spawn.retry_count;
        self.statistics.num_spawn_attempts += 1;
        true
    }

    /// Takes the handles of the actors that were spawned: a generation
    /// starts. What was reported so far becomes the report of the generations
    /// before.
    pub fn spawn_succeeded(&mut self, handles: IndexingPipelineHandle<H>)
        requires
            old(self).statistics.generation < usize::MAX,
        ensures
            final(self).params == old(self).params,
            final(self).handles == Some(handles),
            final(self).previous_generations_statistics == old(self).statistics,
            final(self).statistics == (IndexingStatistics {
                generation: (old(self).statistics.generation + 1) as usize,
                ..old(self).statistics
            }),
    {
        self.previous_generations_statistics = self.statistics;
        self.statistics.generation += 1;
        self.handles = Some(handles);
    }

    /// Says what is to be done after the spawn asked for by `spawn` has
    /// failed with `error`: to give up where the index does not exist, else
    /// to try again after a wait that doubles with each failure.
    pub fn spawn_failed(&self, spawn: Spawn, error: &SpawnError) -> (action: SpawnFailureAction)
        requires
            spawn.retry_count < usize::MAX,
        ensures
            action == (match *error {
                SpawnError::Metastore(MetastoreError::IndexDoesNotExist { .. }) =>
                    SpawnFailureAction::ExitWithSuccess,
                _ => SpawnFailureAction::Retry {
                    delay_secs: retry_delay_secs(spawn.retry_count as nat) as u64,
                    message: Spawn { retry_count: (spawn.retry_count + 1) as usize },
                },
            }),
    {
        if let SpawnError::Metastore(MetastoreError::IndexDoesNotExist { .. }) = error {
            return SpawnFailureAction::ExitWithSuccess;
        }
        let delay_secs = Self::wait_duration_before_retry(spawn.retry_count);
        SpawnFailureAction::Retry {
            delay_secs,
            message: Spawn { retry_count: spawn.retry_count + 1 },
        }
    }

    /// Ends the generation: gives up the handles of the actors, and returns
    /// those of the actors to kill. The kill switch is for the caller to
    /// trip.
    pub fn terminate(&mut self) -> (to_kill: Vec<H>)
        ensures
            final(self).handles.is_none(),
            final(self).params == old(self).params,
            final(self).statistics == old(self).statistics,
            final(self).previous_generations_statistics
                == old(self).previous_generations_statistics,
            to_kill@ == match old(self).handles {
                Some(handles) => handles.handles_of(killed_actors()),
                None => Seq::<H>::empty(),
            },
    {
        let mut to_kill: Vec<H> = Vec::new();
        if let Some(handles) = self.handles.take() {
            let ghost given = handles;
            to_kill.push(handles.source);
            to_kill.push(handles.indexer);
            to_kill.push(handles.packager);
            to_kill.push(handles.uploader);
            to_kill.push(handles.publisher);
            to_kill.push(handles.garbage_collector);
            to_kill.push(handles.merge_planner);
            to_kill.push(handles.merge_split_downloader);
            to_kill.push(handles.merge_executor);
            to_kill.push(handles.merge_packager);
            to_kill.push(handles.merge_uploader);
            to_kill.push(handles.merge_publisher);
            assert(to_kill@ =~= given.handles_of(killed_actors()));
        }
        to_kill
    }

    /// Looks at the health of the actors: `healths` holds the health of
    /// each actor that the supervisor watches. Before the pipeline is
    /// spawned there is nothing to look at.
    pub fn handle_supervise(&mut self, healths: &[Health]) -> (action: SuperviseAction<H>)
        ensures
            final(self).params == old(self).params,
            final(self).statistics == old(self).statistics,
            final(self).previous_generations_statistics
                == old(self).previous_generations_statistics,
            match old(self).handles {
                None => {
                    &&& action is LookAgain
                    &&& action->LookAgain_delay_secs == HEARTBEAT_SECS
                    &&& final(self).handles.is_none()
                },
                Some(handles) => match consolidated(healths@) {
                    Health::Healthy => {
                        &&& action is LookAgain
                        &&& action->LookAgain_delay_secs == HEARTBEAT_SECS
                        &&& final(self).handles == old(self).handles
                    },
                    Health::FailureOrUnhealthy => {
                        &&& final(self).handles.is_none()
                        &&& action is KillAndRespawn
                        &&& action->to_kill@ == handles.handles_of(killed_actors())
                        &&& action->KillAndRespawn_delay_secs == retry_delay_secs(0)
                        &&& action->KillAndRespawn_delay_secs == 2
                        &&& action->message == (Spawn { retry_count: 0 })
                        &&& action->look_again_delay_secs == HEARTBEAT_SECS
                    },
                    Health::Success => {
                        &&& action is ExitWithSuccess
                        &&& final(self).handles == old(self).handles
                    },
                },
            },
    {
        if self.handles.is_some() {
            match self.healthcheck(healths) {
                Health::Healthy => {},
                Health::FailureOrUnhealthy => {
                    let to_kill = self.terminate();
                    let message = Spawn { retry_count: 0 };
                    let delay_secs = Self::wait_duration_before_retry(message.retry_count);
                    proof {
                        lemma2_to64();
                    }
                    return SuperviseAction::KillAndRespawn {
                        to_kill,
                        delay_secs,
                        message,
                        look_again_delay_secs: HEARTBEAT_SECS,
                    };
                },
                Health::Success => {
                    return SuperviseAction::ExitWithSuccess;
                },
            }
        }
        SuperviseAction::LookAgain { delay_secs: HEARTBEAT_SECS }
    }

    /// Takes a reading of the counters of the indexer, the uploader and the
    /// publisher: the report is that of the generations before with these
    /// counters added. Before the pipeline is spawned the reading is ignored.
    /// Returns the seconds after which the counters are to be read again.
    pub fn handle_observe(
        &mut self,
        indexer_counters: &IndexerCounters,
        uploader_counters: &UploaderCounters,
        publisher_counters: &PublisherCounters,
    ) -> (observe_again_delay_secs: u64)
        requires
            old(self).handles.is_some() ==> old(self).previous_generations_statistics.has_room_for(
                *indexer_counters,
                *uploader_counters,
                *publisher_counters,
            ),
        ensures
            observe_again_delay_secs == OBSERVE_INTERVAL_SECS,
            final(self).params == old(self).params,
            final(self).handles == old(self).handles,
            final(self).previous_generations_statistics
                == old(self).previous_generations_statistics,
            final(self).statistics == (if old(self).handles.is_some() {
                IndexingStatistics {
                    generation: old(self).statistics.generation,
                    num_spawn_attempts: old(self).statistics.num_spawn_attempts,
                    ..old(self).previous_generations_statistics.with_actor_counters(
                        *indexer_counters,
                        *uploader_counters,
                        *publisher_counters,
                    )
                }
            } else {
                old(self).statistics
            }),
    {
        if self.handles.is_some() {
            self.statistics = self.previous_generations_statistics.add_actor_counters(
                indexer_counters,
                uploader_counters,
                publisher_counters,
            ).set_generation(self.statistics.generation).set_num_spawn_attempts(
                self.statistics.num_spawn_attempts,
            );
        }
        OBSERVE_INTERVAL_SECS
    }
}

} // verus!

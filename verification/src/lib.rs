//! Core decisions of a search-index ingestion pipeline: how documents are
//! counted and routed into splits, when a workbench is committed, how the
//! pipeline supervisor reacts to the health of its actors, and which
//! published splits are merged together.
//!
//! Every function carries a contract that is checked statically. Work that
//! reaches outside the process (parsing, index writing, publication, timers)
//! is left to the caller, which feeds its outcomes back as plain values.

pub mod checkpoint;
pub mod clock;
pub mod doc_processing;
pub mod indexer;
pub mod indexing_pipeline;
pub mod indexing_settings;
pub mod merge_bounds;
pub mod merge_laws;
pub mod merge_order;
pub mod merge_policy;
pub mod metastore_wire;
pub mod models;
pub mod seq_laws;
pub mod split_id;
pub mod split_map;
pub mod split_metadata;

pub use merge_policy::{MergeOperation, MergePolicy, StableMultitenantWithTimestampMergePolicy};
pub use split_id::new_split_id;
pub use split_metadata::{SplitMetadata, TimeRange};

//! Description of a split, as far as indexing and merging read it.

use vstd::prelude::*;

verus! {

/// An inclusive range of timestamps, in seconds.
#[derive(Clone, Copy, Debug, PartialEq, Eq, Structural)]
pub struct TimeRange {
    pub start: i64,
    pub end: i64,
}

impl TimeRange {
    /// The range `start..=end`.
    pub fn new(start: i64, end: i64) -> (range: TimeRange)
        ensures
            range.start == start,
            range.end == end,
    {
        TimeRange { start, end }
    }

    /// The range that holds `timestamp` alone.
    pub fn singleton(timestamp: i64) -> (range: TimeRange)
        ensures
            range.start == timestamp,
            range.end == timestamp,
    {
        TimeRange { start: timestamp, end: timestamp }
    }

    /// Whether `timestamp` lies within the range, bounds included.
    pub open spec fn covers(self, timestamp: i64) -> bool {
        self.start <= timestamp <= self.end
    }

    /// The smallest range that covers `self` and `timestamp`.
    pub open spec fn hull(self, timestamp: i64) -> TimeRange {
        TimeRange {
            start: if timestamp < self.start { timestamp } else { self.start },
            end: if timestamp > self.end { timestamp } else { self.end },
        }
    }

    /// Lower bound, included.
    pub fn start(&self) -> (start: i64)
        ensures
            start == self.start,
    {
        self.start
    }

    /// Upper bound, included.
    pub fn end(&self) -> (end: i64)
        ensures
            end == self.end,
    {
        self.end
    }
}

/// What is known of a split once it is staged or published.
#[derive(Debug)]
pub struct SplitMetadata {
    /// Identifier of the split, unique within its index.
    pub split_id: String,
    /// Number of documents held by the split.
    pub num_docs: usize,
    /// Size of the documents of the split before compression, in bytes.
    pub uncompressed_docs_size_in_bytes: u64,
    /// Hull of the timestamps of the documents, when the index has a
    /// timestamp field.
    pub time_range: Option<TimeRange>,
    /// Tags attached to the split.
    pub tags: Vec<String>,
}

impl SplitMetadata {
    /// A split with the given identifier and no document.
    pub fn new(split_id: String) -> (split: SplitMetadata)
        ensures
            split.split_id == split_id,
            split.num_docs == 0,
            split.uncompressed_docs_size_in_bytes == 0,
            split.time_range.is_none(),
            split.tags@.len() == 0,
    {
        SplitMetadata {
            split_id,
            num_docs: 0,
            uncompressed_docs_size_in_bytes: 0,
            time_range: None,
            tags: Vec::new(),
        }
    }

    /// Identifier of the split.
    pub fn split_id(&self) -> (id: &str)
        ensures
            id@ == self.split_id@,
    {
        self.split_id.as_str()
    }
}

impl Default for SplitMetadata {
    fn default() -> (split: SplitMetadata)
        ensures
            split.split_id@.len() == 0,
            split.num_docs == 0,
            split.uncompressed_docs_size_in_bytes == 0,
            split.time_range.is_none(),
            split.tags@.len() == 0,
    {
        SplitMetadata {
            split_id: String::new(),
            num_docs: 0,
            uncompressed_docs_size_in_bytes: 0,
            time_range: None,
            tags: Vec::new(),
        }
    }
}

} // verus!

//! Progress of a source, as ranges of offsets.
//!
//! A checkpoint delta says that the offsets from `from` up to, not
//! including, `to` have been read. Deltas are chained: a delta extends
//! another only where it starts at the offset at which the other ends, so
//! that no offset is skipped or read twice.

use core::ops::Range;
use vstd::prelude::*;

verus! {

/// A half-open range of offsets of a source: `from` is read, `to` is not.
#[derive(Clone, Copy, Debug, PartialEq, Eq, Structural)]
pub struct OffsetRange {
    pub from: u64,
    pub to: u64,
}

/// The offsets read from a source since some earlier point, or none.
#[derive(Clone, Copy, Debug, PartialEq, Eq, Structural)]
pub struct SourceCheckpointDelta {
    /// The offsets covered; `None` while nothing was recorded.
    pub range: Option<OffsetRange>,
}

/// A delta that does not start where the checkpoint ends.
#[derive(Clone, Copy, Debug, PartialEq, Eq, Structural)]
pub struct IncompatibleCheckpointDelta {
    /// Offset at which the checkpoint ends.
    pub current_position: u64,
    /// Offset at which the refused delta starts.
    pub delta_position_from: u64,
}

impl SourceCheckpointDelta {
    /// Whether the delta covers no range.
    pub open spec fn is_empty_spec(self) -> bool {
        self.range.is_none()
    }

    /// Whether the delta runs forward: it ends at or after its start.
    pub open spec fn is_forward(self) -> bool {
        match self.range {
            Some(range) => range.from <= range.to,
            None => true,
        }
    }

    /// Whether `delta` can extend `self`: one of them is empty, or `delta`
    /// starts at the offset at which `self` ends.
    pub open spec fn accepts(self, delta: SourceCheckpointDelta) -> bool {
        match (self.range, delta.range) {
            (Some(current), Some(next)) => next.from == current.to,
            _ => true,
        }
    }

    /// `self` extended by `delta`: from the start of `self` to the end of
    /// `delta`.
    pub open spec fn extended(self, delta: SourceCheckpointDelta) -> SourceCheckpointDelta {
        match (self.range, delta.range) {
            (Some(current), Some(next)) => SourceCheckpointDelta {
                range: Some(OffsetRange { from: current.from, to: next.to }),
            },
            (None, _) => delta,
            (_, None) => self,
        }
    }

    /// The delta that covers nothing.
    pub fn empty() -> (delta: SourceCheckpointDelta)
        ensures
            delta.range.is_none(),
    {
        SourceCheckpointDelta { range: None }
    }

    /// The delta that covers the offsets of `range`.
    pub fn from_range(range: Range<u64>) -> (delta: SourceCheckpointDelta)
        ensures
            delta.range == Some(OffsetRange { from: range.start, to: range.end }),
    {
        SourceCheckpointDelta { range: Some(OffsetRange { from: range.start, to: range.end }) }
    }

    /// Whether the delta covers no range.
    pub fn is_empty(&self) -> (empty: bool)
        ensures
            empty == self.is_empty_spec(),
    {
        self.range.is_none()
    }

    /// Extends the delta by `delta`. Fails, and leaves the delta as it is,
    /// if and only if both cover a range and `delta` does not start where
    /// `self` ends.
    pub fn extend(&mut self, delta: SourceCheckpointDelta) -> (result: Result<
        (),
        IncompatibleCheckpointDelta,
    >)
        ensures
            result.is_ok() <==> old(self).accepts(delta),
            result.is_ok() ==> *final(self) == old(self).extended(delta),
            result.is_err() ==> *final(self) == *old(self) && result == Err::<
                (),
                IncompatibleCheckpointDelta,
            >(
                IncompatibleCheckpointDelta {
                    current_position: old(self).range.unwrap().to,
                    delta_position_from: delta.range.unwrap().from,
                },
            ),
    {
        match (self.range, delta.range) {
            (Some(current), Some(next)) => {
                if next.from != current.to {
                    return Err(
                        IncompatibleCheckpointDelta {
                            current_position: current.to,
                            delta_position_from: next.from,
                        },
                    );
                }
                self.range = Some(OffsetRange { from: current.from, to: next.to });
            },
            (None, _) => {
                self.range = delta.range;
            },
            (_, None) => {},
        }
        Ok(())
    }
}

impl Default for SourceCheckpointDelta {
    fn default() -> (delta: SourceCheckpointDelta)
        ensures
            delta.range.is_none(),
    {
        SourceCheckpointDelta { range: None }
    }
}

impl From<Range<u64>> for SourceCheckpointDelta {
    fn from(range: Range<u64>) -> (delta: SourceCheckpointDelta) {
        SourceCheckpointDelta::from_range(range)
    }
}

impl vstd::std_specs::convert::FromSpecImpl<Range<u64>> for SourceCheckpointDelta {
    open spec fn obeys_from_spec() -> bool {
        true
    }

    open spec fn from_spec(range: Range<u64>) -> SourceCheckpointDelta {
        SourceCheckpointDelta { range: Some(OffsetRange { from: range.start, to: range.end }) }
    }
}

/// A checkpoint that is extended by deltas that run forward never moves
/// back, and keeps its start: the offsets covered stay covered, in one
/// piece.
pub proof fn lemma_extend_advances(current: SourceCheckpointDelta, delta: SourceCheckpointDelta)
    requires
        current.is_forward(),
        delta.is_forward(),
        current.accepts(delta),
    ensures
        current.extended(delta).is_forward(),
        current.range.is_some() ==> {
            &&& current.extended(delta).range.is_some()
            &&& current.extended(delta).range.unwrap().from == current.range.unwrap().from
            &&& current.extended(delta).range.unwrap().to >= current.range.unwrap().to
        },
        delta.range.is_some() ==> {
            &&& current.extended(delta).range.is_some()
            &&& current.extended(delta).range.unwrap().to == delta.range.unwrap().to
        },
{
}

/// The offsets read from the source `source_id` of an index.
#[derive(Debug)]
pub struct IndexCheckpointDelta {
    pub source_id: String,
    pub source_delta: SourceCheckpointDelta,
}

impl IndexCheckpointDelta {
    /// The delta of the source `source_id` that covers nothing yet.
    pub fn new(source_id: String) -> (delta: IndexCheckpointDelta)
        ensures
            delta.source_id == source_id,
            delta.source_delta.range.is_none(),
    {
        IndexCheckpointDelta { source_id, source_delta: SourceCheckpointDelta::empty() }
    }

    /// Whether the delta covers no range.
    pub fn is_empty(&self) -> (empty: bool)
        ensures
            empty == self.source_delta.is_empty_spec(),
    {
        self.source_delta.is_empty()
    }
}

} // verus!

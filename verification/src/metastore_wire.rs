//! What the wire of a remote metastore carries, as far as it can be said
//! without reading the payloads: the rich values travel as JSON texts, the
//! identifiers and the time bounds as plain fields.

use core::ops::Range;
use vstd::prelude::*;

verus! {

/// Why a metastore refused a request.
#[derive(Clone, Debug)]
pub enum MetastoreError {
    /// The metastore could not be reached.
    ConnectionError { message: String },
    /// The index is not, or no longer, in the metastore.
    IndexDoesNotExist { index_id: String },
    /// A value received as JSON could not be read.
    JsonDeserializeError { name: String, message: String },
    /// A value could not be written as JSON.
    JsonSerializeError { name: String, message: String },
}

/// The values that travel as JSON.
#[derive(Clone, Copy, Debug, PartialEq, Eq, Structural)]
pub enum WirePayload {
    IndexMetadata,
    IndexesMetadatas,
    Splits,
    SplitState,
    TagFilterAst,
    SplitMetadata,
    IndexCheckpointDelta,
    SourceConfig,
}

impl WirePayload {
    /// The name under which errors speak of the payload.
    pub open spec fn name_spec(self) -> Seq<char> {
        match self {
            WirePayload::IndexMetadata => "IndexMetadata"@,
            WirePayload::IndexesMetadatas => "Vec<IndexMetadata>"@,
            WirePayload::Splits => "Vec<Split>"@,
            WirePayload::SplitState => "SplitState"@,
            WirePayload::TagFilterAst => "TagFilterAst"@,
            WirePayload::SplitMetadata => "SplitMetadata"@,
            WirePayload::IndexCheckpointDelta => "IndexCheckpointDelta"@,
            WirePayload::SourceConfig => "SourceConfig"@,
        }
    }

    /// The name under which errors speak of the payload.
    pub fn name(&self) -> (name: &'static str)
        ensures
            name@ == self.name_spec(),
    {
        match self {
            WirePayload::IndexMetadata => "IndexMetadata",
            WirePayload::IndexesMetadatas => "Vec<IndexMetadata>",
            WirePayload::Splits => "Vec<Split>",
            WirePayload::SplitState => "SplitState",
            WirePayload::TagFilterAst => "TagFilterAst",
            WirePayload::SplitMetadata => "SplitMetadata",
            WirePayload::IndexCheckpointDelta => "IndexCheckpointDelta",
            WirePayload::SourceConfig => "SourceConfig",
        }
    }

    /// The error for a payload received that could not be read: `message`
    /// says why.
    pub fn deserialize_error(&self, message: String) -> (error: MetastoreError)
        ensures
            error is JsonDeserializeError,
            error->JsonDeserializeError_name@ == self.name_spec(),
            error->JsonDeserializeError_message == message,
    {
        MetastoreError::JsonDeserializeError { name: self.name().to_string(), message }
    }

    /// The error for a payload to send that could not be written: `message`
    /// says why.
    pub fn serialize_error(&self, message: String) -> (error: MetastoreError)
        ensures
            error is JsonSerializeError,
            error->JsonSerializeError_name@ == self.name_spec(),
            error->JsonSerializeError_message == message,
    {
        MetastoreError::JsonSerializeError { name: self.name().to_string(), message }
    }
}

/// The time range that the bounds of a request ask for: none where no
/// bound is given; else from the start given, or from the earliest time, up
/// to the end given, or to the latest time.
pub open spec fn time_range_of(start_timestamp_opt: Option<i64>, end_timestamp_opt: Option<i64>)
    -> Option<Range<i64>> {
    match (start_timestamp_opt, end_timestamp_opt) {
        (None, None) => None,
        (start, end) => Some(
            Range {
                start: match start {
                    Some(start_timestamp) => start_timestamp,
                    None => i64::MIN,
                },
                end: match end {
                    Some(end_timestamp) => end_timestamp,
                    None => i64::MAX,
                },
            },
        ),
    }
}

/// The time range that the optional bounds of a request ask for.
pub fn extract_time_range(
    start_timestamp_opt: Option<i64>,
    end_timestamp_opt: Option<i64>,
) -> (range: Option<Range<i64>>)
    ensures
        range == time_range_of(start_timestamp_opt, end_timestamp_opt),
{
    match (start_timestamp_opt, end_timestamp_opt) {
        (Some(start_timestamp), Some(end_timestamp)) => Some(start_timestamp..end_timestamp),
        (None, Some(end_timestamp)) => Some(i64::MIN..end_timestamp),
        (Some(start_timestamp), None) => Some(start_timestamp..i64::MAX),
        (None, None) => None,
    }
}

} // verus!

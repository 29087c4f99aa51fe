//! What the indexer makes of one document: how the result of parsing it is
//! classified, and what it adds to the counters.

use vstd::prelude::*;
use vstd::utf8::encode_utf8;
use crate::split_metadata::TimeRange;

verus! {

/// Why the document mapper refused a document.
#[derive(Clone, Debug)]
pub enum DocParsingError {
    /// The document has a field that the schema does not know.
    NoSuchFieldInSchema(String),
    /// The text is not a JSON object.
    NotJson(String),
    /// A field holds a value that its type does not admit.
    ValueError(String, String),
    /// A field that takes one value holds several.
    MultiValuesNotSupported(String),
    /// A fast field that every document must have is missing.
    RequiredFastField(String),
}

/// The value of the timestamp field of a parsed document, as far as the
/// indexer reads it.
#[derive(Clone, Copy, Debug, PartialEq, Eq, Structural)]
pub enum FieldValue {
    /// A date, in seconds since the Unix epoch.
    Date { timestamp_secs: i64 },
    /// A signed integer.
    I64(i64),
    /// A value of another type.
    Other,
}

/// What the document mapper makes of a document that it accepts.
#[derive(Clone, Copy, Debug, PartialEq, Eq, Structural)]
pub struct ParsedDocument {
    /// Partition that the document belongs to.
    pub partition: u64,
    /// First value of the timestamp field of the document, where the index
    /// has such a field and the document a value for it.
    pub timestamp_value: Option<FieldValue>,
}

/// What the indexer makes of a document.
#[derive(Clone, Copy, Debug, PartialEq, Eq, Structural)]
pub enum PrepareDocumentOutcome {
    /// The document is not valid JSON, or breaks a rule of the schema.
    ParsingError,
    /// The document lacks a field that it must have.
    MissingField,
    /// The document is valid.
    Document { timestamp_opt: Option<i64>, partition: u64 },
}

/// The timestamp that `value` stands for, in seconds: a date or an integer
/// is one, nothing else is.
pub open spec fn timestamp_of(value: Option<FieldValue>) -> Option<i64> {
    match value {
        Some(FieldValue::Date { timestamp_secs }) => Some(timestamp_secs),
        Some(FieldValue::I64(timestamp)) => Some(timestamp),
        _ => None,
    }
}

/// What the indexer makes of a document, given what the document mapper
/// made of it: a missing required fast field is a missing field, any other
/// refusal a parsing error, and an accepted document is valid. Its timestamp
/// is read only where the index has a timestamp field.
pub open spec fn prepared(
    has_timestamp_field: bool,
    parsed: Result<ParsedDocument, DocParsingError>,
) -> PrepareDocumentOutcome {
    match parsed {
        Err(DocParsingError::RequiredFastField(_)) => PrepareDocumentOutcome::MissingField,
        Err(_) => PrepareDocumentOutcome::ParsingError,
        Ok(document) => PrepareDocumentOutcome::Document {
            timestamp_opt: if has_timestamp_field {
                timestamp_of(document.timestamp_value)
            } else {
                None
            },
            partition: document.partition,
        },
    }
}

/// Whether the indexer can read the timestamp of `parsed` where it needs
/// one: a document accepted into an index with a timestamp field has a
/// timestamp.
pub open spec fn timestamp_is_readable(
    has_timestamp_field: bool,
    parsed: Result<ParsedDocument, DocParsingError>,
) -> bool {
    has_timestamp_field ==> match parsed {
        Ok(document) => timestamp_of(document.timestamp_value).is_some(),
        Err(_) => true,
    }
}

/// What the indexer makes of each document of `parsed_docs`.
pub open spec fn prepared_docs(
    has_timestamp_field: bool,
    parsed_docs: Seq<Result<ParsedDocument, DocParsingError>>,
) -> Seq<PrepareDocumentOutcome> {
    parsed_docs.map_values(
        |parsed: Result<ParsedDocument, DocParsingError>| prepared(has_timestamp_field, parsed),
    )
}

/// Size of the JSON text `doc`, in bytes of UTF-8.
pub open spec fn json_num_bytes(doc: Seq<char>) -> nat {
    encode_utf8(doc).len()
}

/// Size of the JSON texts `docs` together, in bytes.
pub open spec fn total_num_bytes(docs: Seq<String>) -> nat
    decreases docs.len(),
{
    if docs.len() == 0 {
        0
    } else {
        total_num_bytes(docs.drop_last()) + json_num_bytes(docs.last()@)
    }
}

/// Number of the outcomes of `outcomes` that are parsing errors.
pub open spec fn num_parse_errors_of(outcomes: Seq<PrepareDocumentOutcome>) -> nat
    decreases outcomes.len(),
{
    if outcomes.len() == 0 {
        0
    } else {
        num_parse_errors_of(outcomes.drop_last()) + if outcomes.last()
            is ParsingError {
            1nat
        } else {
            0nat
        }
    }
}

/// Number of the outcomes of `outcomes` that are missing fields.
pub open spec fn num_missing_fields_of(outcomes: Seq<PrepareDocumentOutcome>) -> nat
    decreases outcomes.len(),
{
    if outcomes.len() == 0 {
        0
    } else {
        num_missing_fields_of(outcomes.drop_last()) + if outcomes.last()
            is MissingField {
            1nat
        } else {
            0nat
        }
    }
}

/// Number of the outcomes of `outcomes` that are valid documents.
pub open spec fn num_valid_docs_of(outcomes: Seq<PrepareDocumentOutcome>) -> nat
    decreases outcomes.len(),
{
    if outcomes.len() == 0 {
        0
    } else {
        num_valid_docs_of(outcomes.drop_last()) + if outcomes.last() is Document {
            1nat
        } else {
            0nat
        }
    }
}

/// Each document is counted once: as a parsing error, as a missing field
/// or as a valid document.
pub proof fn lemma_each_doc_counted_once(outcomes: Seq<PrepareDocumentOutcome>)
    ensures
        num_parse_errors_of(outcomes) + num_missing_fields_of(outcomes) + num_valid_docs_of(
            outcomes,
        ) == outcomes.len(),
    decreases outcomes.len(),
{
    if outcomes.len() > 0 {
        lemma_each_doc_counted_once(outcomes.drop_last());
    }
}

/// Widens `time_range` so that it covers `timestamp`.
pub fn record_timestamp(timestamp: i64, time_range: &mut Option<TimeRange>)
    ensures
        *final(time_range) == Some(
            match *old(time_range) {
                Some(range) => range.hull(timestamp),
                None => TimeRange { start: timestamp, end: timestamp },
            },
        ),
{
    let new_timestamp_range = match *time_range {
        Some(range) => TimeRange::new(
            if timestamp < range.start {
                timestamp
            } else {
                range.start
            },
            if timestamp > range.end {
                timestamp
            } else {
                range.end
            },
        ),
        None => TimeRange::new(timestamp, timestamp),
    };
    *time_range = Some(new_timestamp_range);
}

/// What the indexer has seen and done since it started.
#[derive(Clone, Copy, Debug, PartialEq, Eq, Structural)]
pub struct IndexerCounters {
    /// Number of documents that did not parse.
    pub num_parse_errors: u64,
    /// Number of documents that lack a required field.
    pub num_missing_fields: u64,
    /// Number of valid documents.
    pub num_valid_docs: u64,
    /// Number of splits sent on.
    pub num_splits_emitted: u64,
    /// Number of batches of splits sent on.
    pub num_split_batches_emitted: u64,
    /// Size of the documents received, valid or not, in bytes.
    pub overall_num_bytes: u64,
    /// Number of valid documents received since the last commit.
    pub num_docs_in_workbench: u64,
}

impl IndexerCounters {
    /// Number of documents received, valid or not.
    pub open spec fn processed(self) -> int {
        self.num_valid_docs + self.num_parse_errors + self.num_missing_fields
    }

    /// Number of documents received that were not valid.
    pub open spec fn invalid(self) -> int {
        self.num_parse_errors + self.num_missing_fields
    }

    /// Whether the counters can take the documents `docs` without leaving
    /// the range of their type.
    pub open spec fn has_room_for(self, docs: Seq<String>) -> bool {
        &&& self.processed() + docs.len() <= u64::MAX
        &&& self.overall_num_bytes + total_num_bytes(docs) <= u64::MAX
    }

    /// Number of documents received, valid or not.
    pub fn num_processed_docs(&self) -> (num_docs: u64)
        requires
            self.processed() <= u64::MAX,
        ensures
            num_docs == self.processed(),
    {
        self.num_valid_docs + self.num_parse_errors + self.num_missing_fields
    }

    /// Number of documents received that were not valid: they did not
    /// parse, or lack a required field.
    pub fn num_invalid_docs(&self) -> (num_docs: u64)
        requires
            self.invalid() <= u64::MAX,
        ensures
            num_docs == self.invalid(),
    {
        self.num_parse_errors + self.num_missing_fields
    }
}

impl Default for IndexerCounters {
    fn default() -> (counters: IndexerCounters)
        ensures
            counters == (IndexerCounters {
                num_parse_errors: 0,
                num_missing_fields: 0,
                num_valid_docs: 0,
                num_splits_emitted: 0,
                num_split_batches_emitted: 0,
                overall_num_bytes: 0,
                num_docs_in_workbench: 0,
            }),
    {
        IndexerCounters {
            num_parse_errors: 0,
            num_missing_fields: 0,
            num_valid_docs: 0,
            num_splits_emitted: 0,
            num_split_batches_emitted: 0,
            overall_num_bytes: 0,
            num_docs_in_workbench: 0,
        }
    }
}

} // verus!

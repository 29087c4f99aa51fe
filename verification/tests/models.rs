use quickwit_indexing::indexing_pipeline::{
    IndexingStatistics, PublisherCounters, UploaderCounters,
};
use quickwit_indexing::indexing_settings::{
    IndexSettings, IndexSortByField, IndexingSettings, MergePolicySettings, SortOrder,
};
use quickwit_indexing::doc_processing::IndexerCounters;
use quickwit_indexing::metastore_wire::{extract_time_range, MetastoreError, WirePayload};
use quickwit_indexing::models::{IndexingPipelineId, PublishLock};
use quickwit_indexing::{SplitMetadata, TimeRange};

#[test]
fn test_extract_time_range() {
    assert_eq!(extract_time_range(None, None), None);
    assert_eq!(extract_time_range(Some(10), Some(20)), Some(10..20));
    assert_eq!(extract_time_range(None, Some(20)), Some(i64::MIN..20));
    assert_eq!(extract_time_range(Some(10), None), Some(10..i64::MAX));
    assert_eq!(extract_time_range(Some(20), Some(10)), Some(20..10));
}

#[test]
fn test_wire_errors_name_their_payload() {
    let names = [
        (WirePayload::IndexMetadata, "IndexMetadata"),
        (WirePayload::IndexesMetadatas, "Vec<IndexMetadata>"),
        (WirePayload::Splits, "Vec<Split>"),
        (WirePayload::SplitState, "SplitState"),
        (WirePayload::TagFilterAst, "TagFilterAst"),
        (WirePayload::SplitMetadata, "SplitMetadata"),
        (WirePayload::IndexCheckpointDelta, "IndexCheckpointDelta"),
        (WirePayload::SourceConfig, "SourceConfig"),
    ];
    for (payload, expected_name) in names {
        assert_eq!(payload.name(), expected_name);
        match payload.deserialize_error("expected value at line 1".to_string()) {
            MetastoreError::JsonDeserializeError { name, message } => {
                assert_eq!(name, expected_name);
                assert_eq!(message, "expected value at line 1");
            }
            other => panic!("expected a deserialize error, got {:?}", other),
        }
        match payload.serialize_error("key must be a string".to_string()) {
            MetastoreError::JsonSerializeError { name, message } => {
                assert_eq!(name, expected_name);
                assert_eq!(message, "key must be a string");
            }
            other => panic!("expected a serialize error, got {:?}", other),
        }
    }
}

#[test]
fn test_time_range() {
    let range = TimeRange::new(3, 7);
    assert_eq!(range.start(), 3);
    assert_eq!(range.end(), 7);
    assert_eq!(TimeRange::singleton(-4), TimeRange::new(-4, -4));
    assert_eq!(TimeRange::singleton(-4), TimeRange { start: -4, end: -4 });
}

#[test]
fn test_split_metadata() {
    let split = SplitMetadata::new("01D39ZY06FGSCTVN4T2V9PKHFZ".to_string());
    assert_eq!(split.split_id(), "01D39ZY06FGSCTVN4T2V9PKHFZ");
    assert_eq!(split.num_docs, 0);
    assert_eq!(split.uncompressed_docs_size_in_bytes, 0);
    assert_eq!(split.time_range, None);
    assert!(split.tags.is_empty());
    let split = SplitMetadata::default();
    assert_eq!(split.split_id(), "");
    assert_eq!(split.num_docs, 0);
    assert_eq!(split.time_range, None);
}

#[test]
fn test_duplicates() {
    let pipeline_id = IndexingPipelineId {
        index_id: "test-index".to_string(),
        source_id: "test-source".to_string(),
        node_id: "test-node".to_string(),
        pipeline_ord: 3,
    };
    let copy = pipeline_id.duplicate();
    assert_eq!(copy.index_id, "test-index");
    assert_eq!(copy.source_id, "test-source");
    assert_eq!(copy.node_id, "test-node");
    assert_eq!(copy.pipeline_ord, 3);
    let lock = PublishLock::new("foo-publish-lock".to_string());
    assert_eq!(lock.duplicate().id, "foo-publish-lock");
    assert_eq!(PublishLock::default().id, "");
    let index_settings = IndexSettings {
        sort_by_field: Some(IndexSortByField {
            field: "timestamp".to_string(),
            order: SortOrder::Asc,
        }),
        docstore_blocksize: 16_384,
        docstore_compression_level: 3,
    };
    let copy = index_settings.duplicate();
    assert_eq!(copy.sort_by_field.as_ref().unwrap().field, "timestamp");
    assert_eq!(copy.sort_by_field.as_ref().unwrap().order, SortOrder::Asc);
    assert_eq!(copy.docstore_blocksize, 16_384);
    assert_eq!(copy.docstore_compression_level, 3);
}

#[test]
fn test_sort_order_defaults_to_descending() {
    let indexing_settings = IndexingSettings {
        timestamp_field: None,
        sort_field: Some("timestamp".to_string()),
        sort_order: None,
        commit_timeout_secs: 60,
        docstore_blocksize: 1_000_000,
        docstore_compression_level: 8,
        split_num_docs_target: 10_000_000,
        merge_enabled: true,
        merge_policy: MergePolicySettings::default(),
    };
    let index_settings = IndexSettings::from_indexing_settings(&indexing_settings);
    let sort_by_field = index_settings.sort_by_field.unwrap();
    assert_eq!(sort_by_field.field, "timestamp");
    assert_eq!(sort_by_field.order, SortOrder::Desc);
    assert_eq!(MergePolicySettings::default().merge_factor, 10);
    assert_eq!(MergePolicySettings::default().max_merge_factor, 12);
}

#[test]
fn test_indexing_statistics() {
    let statistics = IndexingStatistics::default()
        .add_actor_counters(
            &IndexerCounters {
                num_parse_errors: 1,
                num_missing_fields: 2,
                num_valid_docs: 3,
                num_splits_emitted: 4,
                num_split_batches_emitted: 5,
                overall_num_bytes: 6,
                num_docs_in_workbench: 7,
            },
            &UploaderCounters { num_staged_splits: 8, num_uploaded_splits: 9 },
            &PublisherCounters { num_published_splits: 10 },
        )
        .set_generation(11)
        .set_num_spawn_attempts(12);
    assert_eq!(
        statistics,
        IndexingStatistics {
            num_docs: 6,
            num_invalid_docs: 3,
            num_local_splits: 4,
            num_staged_splits: 8,
            num_uploaded_splits: 9,
            num_published_splits: 10,
            total_bytes_processed: 6,
            generation: 11,
            num_spawn_attempts: 12,
        }
    );
}

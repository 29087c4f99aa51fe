use quickwit_indexing::checkpoint::{
    IncompatibleCheckpointDelta, OffsetRange, SourceCheckpointDelta,
};
use quickwit_indexing::doc_processing::{
    record_timestamp, DocParsingError, FieldValue, IndexerCounters, ParsedDocument,
    PrepareDocumentOutcome,
};
use quickwit_indexing::indexer::{Commit, CommitTimeout, CommitTrigger, Indexer};
use quickwit_indexing::indexing_settings::{
    IndexSettings, IndexingSettings, MergePolicySettings, SortBy, SortOrder,
};
use quickwit_indexing::models::{
    ActorExitStatus, IndexingPipelineId, NewPublishLock, PublishLock, QueueCapacity, RawDocBatch,
};
use quickwit_indexing::TimeRange;

fn pipeline_id_for_test() -> IndexingPipelineId {
    IndexingPipelineId {
        index_id: "test-index".to_string(),
        source_id: "test-source".to_string(),
        node_id: "test-node".to_string(),
        pipeline_ord: 0,
    }
}

fn indexing_settings_for_test() -> IndexingSettings {
    IndexingSettings {
        timestamp_field: Some("timestamp".to_string()),
        sort_field: None,
        sort_order: None,
        commit_timeout_secs: 60,
        docstore_blocksize: 1_000_000,
        docstore_compression_level: 8,
        split_num_docs_target: 10_000_000,
        merge_enabled: true,
        merge_policy: MergePolicySettings::default(),
    }
}

fn valid_doc(partition: u64, timestamp: i64) -> Result<ParsedDocument, DocParsingError> {
    Ok(ParsedDocument { partition, timestamp_value: Some(FieldValue::I64(timestamp)) })
}

fn missing_timestamp() -> Result<ParsedDocument, DocParsingError> {
    Err(DocParsingError::RequiredFastField("timestamp".to_string()))
}

fn not_json() -> Result<ParsedDocument, DocParsingError> {
    Err(DocParsingError::NotJson("EOF while parsing an object".to_string()))
}

const HAPPY_DOC: &str = r#"{"body": "happy", "timestamp": 1628837062, "response_date": "2021-12-19T16:39:57+00:00", "response_time": 12, "response_payload": "YWJj"}"#;

#[test]
fn test_record_timestamp() {
    let mut time_range = None;
    record_timestamp(1628664679, &mut time_range);
    assert_eq!(time_range, Some(TimeRange::new(1628664679, 1628664679)));
    record_timestamp(1628664112, &mut time_range);
    assert_eq!(time_range, Some(TimeRange::new(1628664112, 1628664679)));
    record_timestamp(1628665112, &mut time_range);
    assert_eq!(time_range, Some(TimeRange::new(1628664112, 1628665112)))
}

#[test]
fn test_indexer_simple() {
    let mut indexing_settings = indexing_settings_for_test();
    indexing_settings.split_num_docs_target = 3;
    indexing_settings.sort_field = Some("timestamp".to_string());
    indexing_settings.sort_order = Some(SortOrder::Desc);
    indexing_settings.timestamp_field = Some("timestamp".to_string());
    let mut indexer = Indexer::new(pipeline_id_for_test(), indexing_settings);
    let outcome = indexer
        .process_batch(
            RawDocBatch {
                docs: vec![
                    r#"{"body": "happy", "response_date": "2021-12-19T16:39:57+00:00", "response_time": 12, "response_payload": "YWJj"}"#.to_string(), // missing timestamp
                    r#"{"body": "happy", "timestamp": 1628837062, "response_date": "2021-12-19T16:39:59+00:00", "response_time": 2, "response_payload": "YWJj"}"#.to_string(), // ok
                    r#"{"body": "happy2", "timestamp": 1628837062, "response_date": "2021-12-19T16:40:57+00:00", "response_time": 13, "response_payload": "YWJj"}"#.to_string(), // ok
                    "{".to_string(), // invalid json
                ],
                checkpoint_delta: SourceCheckpointDelta::from(0..4),
            },
            vec![
                missing_timestamp(),
                valid_doc(0, 1628837062),
                valid_doc(0, 1628837062),
                not_json(),
            ],
            false,
        )
        .unwrap();
    assert!(matches!(outcome.commit, Commit::Nothing));
    assert!(outcome.receipt.commit_timeout.is_some());
    assert_eq!(outcome.receipt.routes.len(), 4);
    assert!(outcome.receipt.routes[0].is_none());
    assert!(outcome.receipt.routes[3].is_none());
    let first_route = outcome.receipt.routes[1].as_ref().unwrap();
    let second_route = outcome.receipt.routes[2].as_ref().unwrap();
    assert!(first_route.opens_split);
    assert!(!second_route.opens_split);
    assert_eq!(first_route.split_id, second_route.split_id);
    assert_eq!(
        indexer.observable_state(),
        IndexerCounters {
            num_parse_errors: 1,
            num_missing_fields: 1,
            num_valid_docs: 2,
            num_splits_emitted: 0,
            num_split_batches_emitted: 0,
            num_docs_in_workbench: 2, //< we have not reached the commit limit yet.
            overall_num_bytes: 387
        }
    );
    let outcome = indexer
        .process_batch(
            RawDocBatch {
                docs: vec![r#"{"body": "happy3", "timestamp": 1628837062, "response_date": "2021-12-19T16:39:57+00:00", "response_time": 12, "response_payload": "YWJj"}"#.to_string()],
                checkpoint_delta: SourceCheckpointDelta::from(4..5),
            },
            vec![valid_doc(0, 1628837062)],
            false,
        )
        .unwrap();
    assert_eq!(
        indexer.observable_state(),
        IndexerCounters {
            num_parse_errors: 1,
            num_missing_fields: 1,
            num_valid_docs: 3,
            num_splits_emitted: 1,
            num_split_batches_emitted: 1,
            num_docs_in_workbench: 0, //< the num docs in split counter has been reset.
            overall_num_bytes: 525
        }
    );
    assert!(outcome.receipt.commit_timeout.is_none());
    let batch = match outcome.commit {
        Commit::SendToPackager { batch, commit_trigger } => {
            assert_eq!(commit_trigger, CommitTrigger::NumDocsLimit);
            batch
        }
        other => panic!("expected splits for the packager, got {:?}", other),
    };
    assert_eq!(batch.splits.len(), 1);
    assert_eq!(batch.splits[0].split_attrs.num_docs, 3);
    assert_eq!(batch.splits[0].split_attrs.uncompressed_docs_size_in_bytes, 136 + 138 + 138);
    assert_eq!(batch.splits[0].split_id(), first_route.split_id);
    assert_eq!(
        batch.splits[0].split_attrs.time_range,
        Some(TimeRange::new(1628837062, 1628837062))
    );
    assert_eq!(
        batch.checkpoint_delta.as_ref().unwrap().source_delta,
        SourceCheckpointDelta::from(0..5)
    );
    assert_eq!(batch.checkpoint_delta.as_ref().unwrap().source_id, "test-source");
    let sort_by_field = indexer.indexer_state.index_settings.sort_by_field.as_ref();
    assert!(sort_by_field.is_some());
    assert_eq!(sort_by_field.unwrap().field, "timestamp");
    assert_eq!(sort_by_field.unwrap().order, SortOrder::Desc);
}

#[test]
fn test_indexer_timeout() {
    let mut indexer = Indexer::new(pipeline_id_for_test(), indexing_settings_for_test());
    let outcome = indexer
        .handle_raw_doc_batch(
            RawDocBatch {
                docs: vec![HAPPY_DOC.to_string()],
                checkpoint_delta: SourceCheckpointDelta::from(0..1),
            },
            vec![valid_doc(0, 1628837062)],
            false,
        )
        .unwrap();
    assert_eq!(
        indexer.observable_state(),
        IndexerCounters {
            num_parse_errors: 0,
            num_missing_fields: 0,
            num_valid_docs: 1,
            num_splits_emitted: 0,
            num_split_batches_emitted: 0,
            num_docs_in_workbench: 1,
            overall_num_bytes: 137
        }
    );
    // The commit timeout of the index has passed: the timer comes back.
    let scheduled = outcome.receipt.commit_timeout.unwrap();
    assert_eq!(scheduled.delay_secs, 60);
    let commit_timeout = scheduled.message;
    let commit = indexer.handle_commit_timeout(commit_timeout);
    assert_eq!(
        indexer.observable_state(),
        IndexerCounters {
            num_parse_errors: 0,
            num_missing_fields: 0,
            num_valid_docs: 1,
            num_splits_emitted: 1,
            num_split_batches_emitted: 1,
            num_docs_in_workbench: 0,
            overall_num_bytes: 137
        }
    );
    match commit {
        Commit::SendToPackager { batch, commit_trigger } => {
            assert_eq!(commit_trigger, CommitTrigger::Timeout);
            assert_eq!(batch.splits.len(), 1);
            assert_eq!(batch.splits[0].split_attrs.num_docs, 1);
        }
        other => panic!("expected splits for the packager, got {:?}", other),
    }
    // The timer does not fire twice.
    assert!(matches!(indexer.handle_commit_timeout(commit_timeout), Commit::Nothing));
}

#[test]
fn test_indexer_ignores_the_timer_of_an_earlier_workbench() {
    let mut indexer = Indexer::new(pipeline_id_for_test(), indexing_settings_for_test());
    let outcome = indexer
        .process_batch(
            RawDocBatch {
                docs: vec![HAPPY_DOC.to_string()],
                checkpoint_delta: SourceCheckpointDelta::from(0..1),
            },
            vec![valid_doc(0, 1628837062)],
            false,
        )
        .unwrap();
    let workbench_id = outcome.receipt.commit_timeout.unwrap().message.workbench_id;
    let stale = CommitTimeout { workbench_id: workbench_id.wrapping_add(1) };
    assert!(matches!(indexer.handle_commit_timeout(stale), Commit::Nothing));
    assert_eq!(indexer.observable_state().num_docs_in_workbench, 1);
    assert!(indexer.indexing_workbench_opt.is_some());
    let commit = indexer.handle_commit_timeout(CommitTimeout { workbench_id });
    assert!(matches!(commit, Commit::SendToPackager { .. }));
    assert!(indexer.indexing_workbench_opt.is_none());
}

#[test]
fn test_indexer_eof() {
    let mut indexer = Indexer::new(pipeline_id_for_test(), indexing_settings_for_test());
    indexer
        .process_batch(
            RawDocBatch {
                docs: vec![HAPPY_DOC.to_string()],
                checkpoint_delta: SourceCheckpointDelta::from(0..1),
            },
            vec![valid_doc(0, 1628837062)],
            false,
        )
        .unwrap();
    let commit = indexer.finalize(&ActorExitStatus::Success);
    assert_eq!(
        indexer.observable_state(),
        IndexerCounters {
            num_parse_errors: 0,
            num_missing_fields: 0,
            num_valid_docs: 1,
            num_splits_emitted: 1,
            num_split_batches_emitted: 1,
            num_docs_in_workbench: 0,
            overall_num_bytes: 137
        }
    );
    match commit {
        Commit::SendToPackager { batch, commit_trigger } => {
            assert_eq!(commit_trigger, CommitTrigger::NoMoreDocs);
            assert_eq!(batch.splits.len(), 1);
            assert_eq!(batch.splits[0].split_attrs.num_docs, 1);
        }
        other => panic!("expected splits for the packager, got {:?}", other),
    }
}

#[test]
fn test_indexer_drops_the_workbench_when_killed() {
    for exit_status in [
        ActorExitStatus::Killed,
        ActorExitStatus::Failure,
        ActorExitStatus::Panicked,
        ActorExitStatus::DownstreamClosed,
    ] {
        let mut indexer = Indexer::new(pipeline_id_for_test(), indexing_settings_for_test());
        indexer
            .process_batch(
                RawDocBatch {
                    docs: vec![HAPPY_DOC.to_string()],
                    checkpoint_delta: SourceCheckpointDelta::from(0..1),
                },
                vec![valid_doc(0, 1628837062)],
                false,
            )
            .unwrap();
        assert!(matches!(indexer.finalize(&exit_status), Commit::Nothing));
        assert!(indexer.indexing_workbench_opt.is_none());
        assert_eq!(indexer.observable_state().num_splits_emitted, 0);
        assert_eq!(indexer.observable_state().num_valid_docs, 1);
    }
}

#[test]
fn test_indexer_partitioning() {
    let mut indexing_settings = indexing_settings_for_test();
    indexing_settings.timestamp_field = None;
    let mut indexer = Indexer::new(pipeline_id_for_test(), indexing_settings);
    let tenant_1 = 0x1111;
    let tenant_2 = 0x2222;
    let outcome = indexer
        .process_batch(
            RawDocBatch {
                docs: vec![
                    r#"{"tenant": "tenant_1", "body": "first doc for tenant 1"}"#.to_string(),
                    r#"{"tenant": "tenant_2", "body": "first doc for tenant 2"}"#.to_string(),
                    r#"{"tenant": "tenant_1", "body": "second doc for tenant 1"}"#.to_string(),
                ],
                checkpoint_delta: SourceCheckpointDelta::from(0..2),
            },
            vec![
                Ok(ParsedDocument { partition: tenant_1, timestamp_value: None }),
                Ok(ParsedDocument { partition: tenant_2, timestamp_value: None }),
                Ok(ParsedDocument { partition: tenant_1, timestamp_value: None }),
            ],
            false,
        )
        .unwrap();
    assert_eq!(
        indexer.observable_state(),
        IndexerCounters {
            num_parse_errors: 0,
            num_missing_fields: 0,
            num_valid_docs: 3,
            num_docs_in_workbench: 3,
            num_splits_emitted: 0,
            num_split_batches_emitted: 0,
            overall_num_bytes: 169
        }
    );
    let routes: Vec<_> = outcome.receipt.routes.iter().map(|route| route.as_ref().unwrap()).collect();
    assert_eq!(routes[0].partition_id, tenant_1);
    assert_eq!(routes[1].partition_id, tenant_2);
    assert_eq!(routes[2].partition_id, tenant_1);
    assert!(routes[0].opens_split && routes[1].opens_split && !routes[2].opens_split);
    assert_eq!(routes[0].split_id, routes[2].split_id);
    assert_ne!(routes[0].split_id, routes[1].split_id);
    let commit = indexer.finalize(&ActorExitStatus::Success);
    assert_eq!(
        indexer.observable_state(),
        IndexerCounters {
            num_parse_errors: 0,
            num_missing_fields: 0,
            num_valid_docs: 3,
            num_docs_in_workbench: 0,
            num_splits_emitted: 2,
            num_split_batches_emitted: 1,
            overall_num_bytes: 169
        }
    );
    match commit {
        Commit::SendToPackager { mut batch, .. } => {
            assert_eq!(batch.splits.len(), 2);
            batch.splits.sort_by_key(|split| split.split_attrs.partition_id);
            assert_eq!(batch.splits[0].split_attrs.partition_id, tenant_1);
            assert_eq!(batch.splits[0].split_attrs.num_docs, 2);
            assert_eq!(batch.splits[0].split_attrs.uncompressed_docs_size_in_bytes, 56 + 57);
            assert_eq!(batch.splits[0].split_attrs.time_range, None);
            assert_eq!(batch.splits[0].split_id(), routes[0].split_id);
            assert_eq!(batch.splits[1].split_attrs.partition_id, tenant_2);
            assert_eq!(batch.splits[1].split_attrs.num_docs, 1);
            assert_eq!(batch.splits[1].split_attrs.uncompressed_docs_size_in_bytes, 56);
            assert_eq!(batch.splits[1].split_id(), routes[1].split_id);
            for split in &batch.splits {
                assert_eq!(split.split_attrs.pipeline_id.index_id, "test-index");
                assert_eq!(split.split_attrs.pipeline_id.source_id, "test-source");
                assert_eq!(split.split_id().len(), 26);
            }
        }
        other => panic!("expected splits for the packager, got {:?}", other),
    }
}

#[test]
fn test_indexer_propagates_publish_lock() {
    let mut indexing_settings = indexing_settings_for_test();
    indexing_settings.split_num_docs_target = 1;
    let mut indexer = Indexer::new(pipeline_id_for_test(), indexing_settings);
    let mut packager_messages = Vec::new();
    for id in ["foo-publish-lock", "bar-publish-lock"] {
        let publish_lock = PublishLock::new(id.to_string());
        indexer.handle_new_publish_lock(NewPublishLock(publish_lock));
        let outcome = indexer
            .handle_raw_doc_batch(
                RawDocBatch {
                    docs: vec![r#"{"body": "happy", "timestamp": 1628837062, "response_date": "2021-12-19T16:39:59+00:00", "response_time": 2, "response_payload": "YWJj"}"#.to_string()],
                    checkpoint_delta: SourceCheckpointDelta::from(0..1),
                },
                vec![valid_doc(0, 1628837062)],
                false,
            )
            .unwrap();
        if let Commit::SendToPackager { batch, .. } = outcome.commit {
            packager_messages.push(batch);
        }
    }
    assert!(matches!(indexer.finalize(&ActorExitStatus::Success), Commit::Nothing));
    assert_eq!(packager_messages.len(), 2);
    assert_eq!(packager_messages[0].splits.len(), 1);
    assert_eq!(packager_messages[0].publish_lock.id, "foo-publish-lock");
    assert_eq!(packager_messages[1].splits.len(), 1);
    assert_eq!(packager_messages[1].publish_lock.id, "bar-publish-lock");
}

#[test]
fn test_indexer_ignores_messages_when_publish_lock_is_dead() {
    let mut indexing_settings = indexing_settings_for_test();
    indexing_settings.split_num_docs_target = 1;
    let mut indexer = Indexer::new(pipeline_id_for_test(), indexing_settings);
    let publish_lock = PublishLock::new("foo-publish-lock".to_string());
    indexer.handle_new_publish_lock(NewPublishLock(publish_lock));
    let outcome = indexer
        .handle_raw_doc_batch(
            RawDocBatch {
                docs: vec![r#"{"body": "happy", "timestamp": 1628837062, "response_date": "2021-12-19T16:39:59+00:00", "response_time": 2, "response_payload": "YWJj"}"#.to_string()],
                checkpoint_delta: SourceCheckpointDelta::from(0..1),
            },
            vec![valid_doc(0, 1628837062)],
            true,
        )
        .unwrap();
    assert!(matches!(outcome.commit, Commit::Nothing));
    assert!(outcome.receipt.routes.is_empty());
    assert_eq!(indexer.observable_state(), IndexerCounters::default());
    // Neither splits for the packager nor a checkpoint to publish.
    assert!(matches!(indexer.finalize(&ActorExitStatus::Success), Commit::Nothing));
    assert_eq!(indexer.observable_state(), IndexerCounters::default());
}

#[test]
fn test_indexer_acquires_publish_lock() {
    let mut indexer = Indexer::new(pipeline_id_for_test(), indexing_settings_for_test());
    let publish_lock = PublishLock::new("foo-publish-lock".to_string());
    indexer.handle_new_publish_lock(NewPublishLock(publish_lock.clone()));
    let outcome = indexer
        .handle_raw_doc_batch(
            RawDocBatch {
                docs: vec![
                    "{".to_string(), // Bad JSON
                ],
                checkpoint_delta: SourceCheckpointDelta::from(0..1),
            },
            vec![not_json()],
            false,
        )
        .unwrap();
    assert!(matches!(outcome.commit, Commit::Nothing));
    // No split goes to the packager: the lock is to be acquired, and the
    // checkpoint published under it.
    match indexer.finalize(&ActorExitStatus::Success) {
        Commit::PublishCheckpoint { checkpoint_delta, publish_lock } => {
            assert_eq!(publish_lock.id, "foo-publish-lock");
            assert_eq!(checkpoint_delta.source_id, "test-source");
            assert_eq!(
                checkpoint_delta.source_delta.range,
                Some(OffsetRange { from: 0, to: 1 })
            );
        }
        other => panic!("expected a checkpoint to publish, got {:?}", other),
    }
    assert_eq!(
        indexer.observable_state(),
        IndexerCounters {
            num_parse_errors: 1,
            num_missing_fields: 0,
            num_valid_docs: 0,
            num_splits_emitted: 0,
            num_split_batches_emitted: 0,
            num_docs_in_workbench: 0,
            overall_num_bytes: 1
        }
    );
}

#[test]
fn test_indexer_refuses_a_batch_that_leaves_a_gap() {
    let mut indexer = Indexer::new(pipeline_id_for_test(), indexing_settings_for_test());
    indexer
        .process_batch(
            RawDocBatch {
                docs: vec![HAPPY_DOC.to_string()],
                checkpoint_delta: SourceCheckpointDelta::from(0..1),
            },
            vec![valid_doc(0, 1628837062)],
            false,
        )
        .unwrap();
    let counters = indexer.observable_state();
    let result = indexer.process_batch(
        RawDocBatch {
            docs: vec![HAPPY_DOC.to_string()],
            checkpoint_delta: SourceCheckpointDelta::from(2..3),
        },
        vec![valid_doc(0, 1628837063)],
        false,
    );
    assert_eq!(
        result.err(),
        Some(IncompatibleCheckpointDelta { current_position: 1, delta_position_from: 2 })
    );
    assert_eq!(indexer.observable_state(), counters);
    let workbench = indexer.indexing_workbench_opt.as_ref().unwrap();
    assert_eq!(workbench.checkpoint_delta.source_delta, SourceCheckpointDelta::from(0..1));
    assert_eq!(workbench.indexed_splits.len(), 1);
    assert_eq!(workbench.indexed_splits[&0].split_attrs.num_docs, 1);
}

#[test]
fn test_indexer_new_publish_lock_drops_the_workbench() {
    let mut indexer = Indexer::new(pipeline_id_for_test(), indexing_settings_for_test());
    indexer
        .process_batch(
            RawDocBatch {
                docs: vec![HAPPY_DOC.to_string(), "{".to_string()],
                checkpoint_delta: SourceCheckpointDelta::from(0..2),
            },
            vec![valid_doc(0, 1628837062), not_json()],
            false,
        )
        .unwrap();
    let counters = indexer.observable_state();
    assert_eq!(counters.num_docs_in_workbench, 1);
    indexer.handle_new_publish_lock(NewPublishLock(PublishLock::new("next".to_string())));
    assert!(indexer.indexing_workbench_opt.is_none());
    assert_eq!(indexer.indexer_state.publish_lock.id, "next");
    // Nothing is counted anew, and nothing is published of the workbench.
    assert_eq!(indexer.observable_state(), counters);
    assert!(matches!(indexer.finalize(&ActorExitStatus::Quit), Commit::Nothing));
    // The next workbench starts from the offsets of the next batch.
    let outcome = indexer
        .process_batch(
            RawDocBatch {
                docs: vec![HAPPY_DOC.to_string()],
                checkpoint_delta: SourceCheckpointDelta::from(0..1),
            },
            vec![valid_doc(0, 1628837062)],
            false,
        )
        .unwrap();
    assert!(outcome.receipt.commit_timeout.is_some());
    assert_eq!(
        indexer.indexing_workbench_opt.as_ref().unwrap().publish_lock.id,
        "next"
    );
}

#[test]
fn test_indexer_counts_every_document() {
    let mut indexing_settings = indexing_settings_for_test();
    indexing_settings.split_num_docs_target = 1_000;
    let mut indexer = Indexer::new(pipeline_id_for_test(), indexing_settings);
    let docs = vec![
        "{\"timestamp\": 3}".to_string(),
        "".to_string(),
        "{\"body\": \"h\u{e9}llo\"}".to_string(),
        "{\"timestamp\": -7}".to_string(),
        "[]".to_string(),
    ];
    let num_bytes: u64 = docs.iter().map(|doc| doc.len() as u64).sum();
    assert_eq!(num_bytes, 16 + 0 + 18 + 17 + 2);
    indexer
        .process_batch(
            RawDocBatch { docs, checkpoint_delta: SourceCheckpointDelta::from(10..15) },
            vec![
                valid_doc(1, 3),
                not_json(),
                missing_timestamp(),
                Ok(ParsedDocument {
                    partition: 1,
                    timestamp_value: Some(FieldValue::Date { timestamp_secs: -7 }),
                }),
                Err(DocParsingError::ValueError("body".to_string(), "not a text".to_string())),
            ],
            false,
        )
        .unwrap();
    let counters = indexer.observable_state();
    assert_eq!(counters.overall_num_bytes, num_bytes);
    assert_eq!(counters.num_processed_docs(), 5);
    assert_eq!(counters.num_invalid_docs(), 3);
    assert_eq!(
        counters.num_processed_docs(),
        counters.num_valid_docs + counters.num_parse_errors + counters.num_missing_fields
    );
    assert_eq!(counters.num_parse_errors, 2);
    assert_eq!(counters.num_missing_fields, 1);
    assert_eq!(counters.num_valid_docs, 2);
    let workbench = indexer.indexing_workbench_opt.as_ref().unwrap();
    assert_eq!(workbench.indexed_splits[&1].split_attrs.time_range, Some(TimeRange::new(-7, 3)));
    assert_eq!(workbench.indexed_splits[&1].split_attrs.uncompressed_docs_size_in_bytes, 33);
}

#[test]
fn test_indexer_same_batch_same_counts() {
    let batch = || RawDocBatch {
        docs: vec![HAPPY_DOC.to_string(), "{".to_string(), "{}".to_string()],
        checkpoint_delta: SourceCheckpointDelta::from(0..3),
    };
    let parsed_docs = || vec![valid_doc(0, 1628837062), not_json(), missing_timestamp()];
    let mut first = Indexer::new(pipeline_id_for_test(), indexing_settings_for_test());
    first.process_batch(batch(), parsed_docs(), false).unwrap();
    // The generation fails before anything is published; the next one reads
    // the batch again.
    assert!(matches!(first.finalize(&ActorExitStatus::Killed), Commit::Nothing));
    let mut second = Indexer::new(pipeline_id_for_test(), indexing_settings_for_test());
    second.process_batch(batch(), parsed_docs(), false).unwrap();
    assert_eq!(first.observable_state(), second.observable_state());
    assert_eq!(second.observable_state().overall_num_bytes, 140);
}

#[test]
fn test_prepare_document() {
    let with_timestamp = Indexer::new(pipeline_id_for_test(), indexing_settings_for_test());
    let state = &with_timestamp.indexer_state;
    assert!(state.has_timestamp_field);
    assert_eq!(state.prepare_document(&not_json()), PrepareDocumentOutcome::ParsingError);
    assert_eq!(
        state.prepare_document(&Err(DocParsingError::NoSuchFieldInSchema("x".to_string()))),
        PrepareDocumentOutcome::ParsingError
    );
    assert_eq!(
        state.prepare_document(&Err(DocParsingError::MultiValuesNotSupported("x".to_string()))),
        PrepareDocumentOutcome::ParsingError
    );
    assert_eq!(state.prepare_document(&missing_timestamp()), PrepareDocumentOutcome::MissingField);
    assert_eq!(
        state.prepare_document(&valid_doc(7, 42)),
        PrepareDocumentOutcome::Document { timestamp_opt: Some(42), partition: 7 }
    );
    assert_eq!(
        state.prepare_document(&Ok(ParsedDocument {
            partition: 7,
            timestamp_value: Some(FieldValue::Date { timestamp_secs: 1628837062 }),
        })),
        PrepareDocumentOutcome::Document { timestamp_opt: Some(1628837062), partition: 7 }
    );
    let mut indexing_settings = indexing_settings_for_test();
    indexing_settings.timestamp_field = None;
    let without_timestamp = Indexer::new(pipeline_id_for_test(), indexing_settings);
    assert_eq!(
        without_timestamp.indexer_state.prepare_document(&valid_doc(7, 42)),
        PrepareDocumentOutcome::Document { timestamp_opt: None, partition: 7 }
    );
}

#[test]
fn test_indexer_settings() {
    let mut indexing_settings = indexing_settings_for_test();
    assert!(matches!(indexing_settings.sort_by(), SortBy::DocId));
    let index_settings = IndexSettings::from_indexing_settings(&indexing_settings);
    assert!(index_settings.sort_by_field.is_none());
    assert_eq!(index_settings.docstore_blocksize, 1_000_000);
    assert_eq!(index_settings.docstore_compression_level, 8);
    indexing_settings.sort_field = Some("response_time".to_string());
    indexing_settings.sort_order = Some(SortOrder::Asc);
    match indexing_settings.sort_by() {
        SortBy::FastField { field_name, order } => {
            assert_eq!(field_name, "response_time");
            assert_eq!(order, SortOrder::Asc);
        }
        other => panic!("expected a sort by fast field, got {:?}", other),
    }
    let indexer = Indexer::new(pipeline_id_for_test(), indexing_settings);
    let sort_by_field = indexer.indexer_state.index_settings.sort_by_field.as_ref().unwrap();
    assert_eq!(sort_by_field.field, "response_time");
    assert_eq!(sort_by_field.order, SortOrder::Asc);
    assert_eq!(indexer.queue_capacity(), QueueCapacity::Bounded(10));
    assert_eq!(indexer.name(), "Indexer");
    assert_eq!(indexer.indexer_state.publish_lock.id, "");
}

#[test]
fn test_indexer_publishes_nothing_empty() {
    let mut indexer = Indexer::new(pipeline_id_for_test(), indexing_settings_for_test());
    // A batch without documents that covers no offset opens a workbench,
    // and leaves nothing to publish.
    let outcome = indexer
        .process_batch(
            RawDocBatch { docs: Vec::new(), checkpoint_delta: SourceCheckpointDelta::empty() },
            Vec::new(),
            false,
        )
        .unwrap();
    assert!(outcome.receipt.commit_timeout.is_some());
    assert!(outcome.receipt.routes.is_empty());
    assert!(indexer.indexing_workbench_opt.is_some());
    assert!(matches!(indexer.finalize(&ActorExitStatus::Quit), Commit::Nothing));
    assert!(indexer.indexing_workbench_opt.is_none());
    assert_eq!(indexer.observable_state(), IndexerCounters::default());
    // Without a workbench there is nothing to commit either.
    assert!(matches!(indexer.send_to_packager(CommitTrigger::Timeout), Commit::Nothing));
}

#[test]
fn test_indexer_keeps_count_of_dropped_workbench() {
    let mut indexer = Indexer::new(pipeline_id_for_test(), indexing_settings_for_test());
    indexer
        .process_batch(
            RawDocBatch {
                docs: vec![HAPPY_DOC.to_string()],
                checkpoint_delta: SourceCheckpointDelta::from(0..1),
            },
            vec![valid_doc(0, 1628837062)],
            false,
        )
        .unwrap();
    indexer.handle_new_publish_lock(NewPublishLock(PublishLock::new("next".to_string())));
    let outcome = indexer
        .process_batch(
            RawDocBatch {
                docs: vec!["{".to_string()],
                checkpoint_delta: SourceCheckpointDelta::from(0..1),
            },
            vec![not_json()],
            false,
        )
        .unwrap();
    let commit_timeout = outcome.receipt.commit_timeout.unwrap().message;
    // The document of the workbench that was dropped is still counted as at
    // hand: the commit finds no split, and resets nothing.
    match indexer.handle_commit_timeout(commit_timeout) {
        Commit::PublishCheckpoint { checkpoint_delta, publish_lock } => {
            assert_eq!(publish_lock.id, "next");
            assert_eq!(checkpoint_delta.source_delta, SourceCheckpointDelta::from(0..1));
        }
        other => panic!("expected a checkpoint to publish, got {:?}", other),
    }
    assert_eq!(indexer.observable_state().num_docs_in_workbench, 1);
    assert_eq!(indexer.observable_state().num_splits_emitted, 0);
}

#[test]
fn test_indexer_commits_at_the_target_number_of_docs() {
    let mut indexing_settings = indexing_settings_for_test();
    indexing_settings.split_num_docs_target = 2;
    let mut indexer = Indexer::new(pipeline_id_for_test(), indexing_settings);
    let mut num_batches_emitted = 0;
    for offset in 0..5u64 {
        let outcome = indexer
            .process_batch(
                RawDocBatch {
                    docs: vec![HAPPY_DOC.to_string()],
                    checkpoint_delta: SourceCheckpointDelta::from(offset..offset + 1),
                },
                vec![valid_doc(offset % 2, 1628837062 + offset as i64)],
                false,
            )
            .unwrap();
        let counters = indexer.observable_state();
        match outcome.commit {
            Commit::SendToPackager { batch, .. } => {
                num_batches_emitted += 1;
                assert_eq!(offset % 2, 1);
                assert_eq!(batch.splits.len(), 2);
                assert_eq!(counters.num_docs_in_workbench, 0);
                assert_eq!(
                    batch.checkpoint_delta.unwrap().source_delta,
                    SourceCheckpointDelta::from(offset - 1..offset + 1)
                );
            }
            Commit::Nothing => {
                assert_eq!(offset % 2, 0);
                assert_eq!(counters.num_docs_in_workbench, 1);
            }
            other => panic!("expected splits or nothing, got {:?}", other),
        }
        assert_eq!(counters.num_split_batches_emitted, num_batches_emitted);
        assert_eq!(counters.num_splits_emitted, 2 * num_batches_emitted);
        assert_eq!(counters.num_valid_docs, offset + 1);
    }
}

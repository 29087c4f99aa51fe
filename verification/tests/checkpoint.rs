use quickwit_indexing::checkpoint::{
    IncompatibleCheckpointDelta, IndexCheckpointDelta, OffsetRange, SourceCheckpointDelta,
};

#[test]
fn test_checkpoint_delta_extends_where_it_follows() {
    let mut delta = SourceCheckpointDelta::from(0..4);
    assert_eq!(delta.extend(SourceCheckpointDelta::from(4..5)), Ok(()));
    assert_eq!(delta, SourceCheckpointDelta::from(0..5));
    assert_eq!(delta.extend(SourceCheckpointDelta::from(5..5)), Ok(()));
    assert_eq!(delta.range, Some(OffsetRange { from: 0, to: 5 }));
}

#[test]
fn test_checkpoint_delta_refuses_a_gap() {
    let mut delta = SourceCheckpointDelta::from(0..4);
    assert_eq!(
        delta.extend(SourceCheckpointDelta::from(5..6)),
        Err(IncompatibleCheckpointDelta { current_position: 4, delta_position_from: 5 })
    );
    assert_eq!(delta, SourceCheckpointDelta::from(0..4));
}

#[test]
fn test_checkpoint_delta_refuses_an_overlap() {
    let mut delta = SourceCheckpointDelta::from(0..4);
    assert_eq!(
        delta.extend(SourceCheckpointDelta::from(3..6)),
        Err(IncompatibleCheckpointDelta { current_position: 4, delta_position_from: 3 })
    );
    assert_eq!(delta, SourceCheckpointDelta::from(0..4));
}

#[test]
fn test_empty_checkpoint_delta_takes_any_delta() {
    let mut delta = SourceCheckpointDelta::default();
    assert!(delta.is_empty());
    assert_eq!(delta.extend(SourceCheckpointDelta::empty()), Ok(()));
    assert!(delta.is_empty());
    assert_eq!(delta.extend(SourceCheckpointDelta::from_range(17..42)), Ok(()));
    assert!(!delta.is_empty());
    assert_eq!(delta, SourceCheckpointDelta::from(17..42));
    assert_eq!(delta.extend(SourceCheckpointDelta::empty()), Ok(()));
    assert_eq!(delta, SourceCheckpointDelta::from(17..42));
}

#[test]
fn test_index_checkpoint_delta() {
    let mut delta = IndexCheckpointDelta::new("test-source".to_string());
    assert_eq!(delta.source_id, "test-source");
    assert!(delta.is_empty());
    delta.source_delta.extend(SourceCheckpointDelta::from(0..1)).unwrap();
    assert!(!delta.is_empty());
}

use adam::memory::{
    evidence_column, evidence_from_column, require_updated, resolve_conflict_between, stored_instant,
    timestamp_column,
    ConflictResolution, MemoryError, MemoryId,
};

#[test]
fn evidence_is_stored_as_a_json_list() {
    let evidence = vec!["exit code 101".to_string(), "say \"hi\"".to_string()];
    let json = evidence_column(&evidence).unwrap();
    assert_eq!(json, r#"["exit code 101","say \"hi\""]"#);
    assert_eq!(evidence_from_column(&json).unwrap(), evidence);
    assert_eq!(evidence_column(&vec![]).unwrap(), "[]");
}

#[test]
fn unreadable_evidence_is_a_serialization_error() {
    assert!(matches!(evidence_from_column("not json"), Err(MemoryError::Serialization(_))));
    assert!(matches!(evidence_from_column("{\"a\":1}"), Err(MemoryError::Serialization(_))));
}

#[test]
fn an_update_touching_no_row_means_not_found() {
    let id = MemoryId(7);
    assert!(matches!(require_updated(0, id), Err(MemoryError::NotFound(MemoryId(7)))));
    assert!(require_updated(1, id).is_ok());
}

#[test]
fn the_more_confident_memory_wins_and_ties_favor_the_first() {
    let (a, b) = (MemoryId(1), MemoryId(2));
    assert_eq!(
        resolve_conflict_between(a, b, true, true, true).unwrap(),
        ConflictResolution { winner: a, loser: b }
    );
    assert_eq!(
        resolve_conflict_between(a, b, true, true, false).unwrap(),
        ConflictResolution { winner: b, loser: a }
    );
    assert!(matches!(
        resolve_conflict_between(a, b, false, false, true),
        Err(MemoryError::NotFound(MemoryId(1)))
    ));
    assert!(matches!(
        resolve_conflict_between(a, b, true, false, true),
        Err(MemoryError::NotFound(MemoryId(2)))
    ));
}

#[test]
fn control_characters_and_backslashes_are_escaped() {
    let evidence = vec!["line\nbreak\ttab".to_string(), "back\\slash\u{1}\u{7f}é".to_string()];
    let json = evidence_column(&evidence).unwrap();
    assert_eq!(json, "[\"line\\nbreak\\ttab\",\"back\\\\slash\\u0001\u{7f}é\"]");
    assert_eq!(evidence_from_column(&json).unwrap(), evidence);
}

#[test]
fn stored_timestamps_name_their_instant() {
    assert_eq!(stored_instant("1970-01-01T00:00:00+00:00"), Some((0, 0)));
    assert_eq!(stored_instant("2024-01-02T03:04:05.5+01:00"), Some((1704161045, 500_000_000)));
    assert_eq!(stored_instant("yesterday"), None);
}

#[test]
fn timestamps_are_written_as_rfc3339_and_read_back() {
    let text = timestamp_column(1704161045, 500_000_000).unwrap();
    assert_eq!(text, "2024-01-02T02:04:05.500+00:00");
    assert_eq!(stored_instant(&text), Some((1704161045, 500_000_000)));
    assert_eq!(timestamp_column(0, 0).unwrap(), "1970-01-01T00:00:00+00:00");
    assert_eq!(timestamp_column(0, 2_000_000_000), None);
}

use issuer::merge::{
    marker_age, merge_lock_step, LockStep, MarkerState, MergeAction, MergeError, MergeEvent, MergePhase, MergeRun,
    SnapshotSource,
};
use issuer::outbox::{capture, decimal_text, new_record_file_name, record_file_name};
use issuer::record::DeltaSyncPayload;
use issuer::replication::{sort_names, Replicator};
use issuer::value::FieldValue;

fn names(v: &[&str]) -> Vec<String> {
    v.iter().map(|s| s.to_string()).collect()
}

fn payload(origin: &str) -> DeltaSyncPayload {
    DeltaSyncPayload {
        timestamp: 1,
        pc_name: origin.to_string(),
        action: "update".to_string(),
        table: "issues".to_string(),
        target_id: 1,
        changes: Some(vec![]),
    }
}

#[test]
fn stale_marker_is_evicted() {
    let marker = MarkerState::Present { age_ms: marker_age(1_000_090_000, 1_000_000_000) };
    assert!(merge_lock_step(0, &marker) == LockStep::EvictThenCreate);
}

#[test]
fn fresh_marker_waits_then_busy() {
    let marker = MarkerState::Present { age_ms: 30_000 };
    for attempt in 0..10 {
        assert!(merge_lock_step(attempt, &marker) == LockStep::Wait);
    }
    assert!(merge_lock_step(10, &marker) == LockStep::Busy);
    assert!(merge_lock_step(10, &MarkerState::Absent) == LockStep::Busy);
    assert!(merge_lock_step(3, &MarkerState::Absent) == LockStep::Create);
    assert!(merge_lock_step(0, &MarkerState::Present { age_ms: 60_000 }) == LockStep::Wait);
    assert!(merge_lock_step(0, &MarkerState::Present { age_ms: 60_001 }) == LockStep::EvictThenCreate);
    assert_eq!(marker_age(5, 9), 0);
}

#[test]
fn record_names_follow_the_pattern() {
    assert_eq!(decimal_text(0), "0");
    assert_eq!(decimal_text(1_700_000_000_123), "1700000000123");
    assert_eq!(decimal_text(-42), "-42");
    assert_eq!(decimal_text(i64::MIN), "-9223372036854775808");
    assert_eq!(record_file_name(1700000000123, "PC-7", "0a1b2c3d-ffff"), "1700000000123_PC-7_0a1b2c3d.json");
    let fresh = new_record_file_name(1700000000123, "PC-7");
    assert!(fresh.starts_with("1700000000123_PC-7_"));
    assert!(fresh.ends_with(".json"));
    let suffix = &fresh["1700000000123_PC-7_".len()..fresh.len() - 5];
    assert_eq!(suffix.len(), 8);
    assert!(suffix.chars().all(|c| c.is_ascii_hexdigit() && !c.is_ascii_uppercase()));
    assert_ne!(fresh, new_record_file_name(1700000000123, "PC-7"));
}

#[test]
fn capture_builds_record() {
    let (name, rec) = capture(12, "PC1", "comments", 3, "update", vec![("body".to_string(), FieldValue::Text("hi".to_string()))]);
    assert!(name.starts_with("12_PC1_") && name.ends_with(".json"));
    assert_eq!(rec.timestamp, 12);
    assert_eq!(rec.pc_name, "PC1");
    assert_eq!(rec.table, "comments");
    assert_eq!(rec.target_id, 3);
    assert_eq!(rec.action, "update");
    assert_eq!(rec.changes.unwrap().len(), 1);
}

#[test]
fn pending_records_sorted_and_deduplicated() {
    let mut rep = Replicator::new("PC1".to_string());
    let listing = names(&["20_PC2_b.json", "10_PC2_a.json", "15_PC1_c.json", "10_PC2_a.json"]);
    assert_eq!(rep.pending(&listing), names(&["10_PC2_a.json", "15_PC1_c.json", "20_PC2_b.json"]));
    assert!(rep.consume(&"10_PC2_a.json".to_string(), Some(&payload("PC2"))));
    assert!(!rep.consume(&"15_PC1_c.json".to_string(), Some(&payload("PC1"))));
    assert!(!rep.consume(&"20_PC2_b.json".to_string(), None));
    assert!(rep.was_applied("20_PC2_b.json"));
    assert!(rep.pending(&listing).is_empty());
    let more = names(&["30_PC10_d.json", "10_PC2_a.json"]);
    assert_eq!(rep.pending(&more), names(&["30_PC10_d.json"]));
    assert!(rep.consume(&"30_PC10_d.json".to_string(), Some(&payload("PC10"))));
    assert_eq!(sort_names(&names(&["b", "a", "b"])), names(&["a", "b"]));
}

#[test]
fn one_notification_per_cycle() {
    let mut rep = Replicator::new("PC1".to_string());
    assert!(!rep.end_cycle());
    rep.note_outcome(false);
    rep.note_outcome(true);
    rep.note_outcome(false);
    assert!(rep.end_cycle());
    assert!(!rep.end_cycle());
    assert_eq!(rep.origin(), "PC1");
}

#[test]
fn merge_runs_to_completion() {
    let listing = names(&["2_B_x.json", "1_A_y.json"]);
    let (mut run, first) = MergeRun::start(&listing);
    assert!(matches!(first, MergeAction::AcquireLock));
    assert!(run.on_event(MergeEvent::Published(true)).is_none());
    match run.on_event(MergeEvent::LockAcquired { master_exists: true, local_exists: true }) {
        Some(MergeAction::CopySnapshot(source)) => assert!(source == SnapshotSource::Master),
        _ => panic!("expected a snapshot copy"),
    }
    match run.on_event(MergeEvent::SnapshotCopied(true)) {
        Some(MergeAction::Replay(order)) => assert_eq!(order, names(&["1_A_y.json", "2_B_x.json"])),
        _ => panic!("expected a replay"),
    }
    assert!(matches!(
        run.on_event(MergeEvent::Replayed(names(&["1_A_y.json", "9_Z_z.json"]))),
        Some(MergeAction::Publish)
    ));
    match run.on_event(MergeEvent::Published(true)) {
        Some(MergeAction::Collect(gone)) => assert_eq!(gone, names(&["1_A_y.json"])),
        _ => panic!("expected collection"),
    }
    assert!(matches!(run.on_event(MergeEvent::Collected), Some(MergeAction::ReleaseLock)));
    assert!(matches!(run.on_event(MergeEvent::Released), Some(MergeAction::Finish(None))));
    assert!(run.phase() == MergePhase::Done);
}

#[test]
fn merge_failures_release_lock_and_keep_records() {
    let listing = names(&["1_A_y.json"]);
    let (mut run, _) = MergeRun::start(&listing);
    assert!(matches!(run.on_event(MergeEvent::LockBusy), Some(MergeAction::Finish(Some(MergeError::LockBusy)))));

    let (mut run, _) = MergeRun::start(&listing);
    match run.on_event(MergeEvent::LockAcquired { master_exists: false, local_exists: true }) {
        Some(MergeAction::CopySnapshot(source)) => assert!(source == SnapshotSource::Local),
        _ => panic!("expected a snapshot copy"),
    }
    run.on_event(MergeEvent::SnapshotCopied(true));
    run.on_event(MergeEvent::Replayed(listing.clone()));
    assert!(matches!(run.on_event(MergeEvent::Published(false)), Some(MergeAction::ReleaseLock)));
    assert!(matches!(run.on_event(MergeEvent::Released), Some(MergeAction::Finish(Some(MergeError::PublishFailed)))));

    let (mut run, _) = MergeRun::start(&listing);
    assert!(matches!(
        run.on_event(MergeEvent::LockAcquired { master_exists: false, local_exists: false }),
        Some(MergeAction::ReleaseLock)
    ));
    assert!(matches!(run.on_event(MergeEvent::Released), Some(MergeAction::Finish(Some(MergeError::NoStore)))));

    let (mut run, _) = MergeRun::start(&listing);
    run.on_event(MergeEvent::LockAcquired { master_exists: true, local_exists: false });
    assert!(matches!(run.on_event(MergeEvent::SnapshotCopied(false)), Some(MergeAction::ReleaseLock)));
    assert!(matches!(run.on_event(MergeEvent::Released), Some(MergeAction::Finish(Some(MergeError::SnapshotFailed)))));

    let (mut run, _) = MergeRun::start(&listing);
    run.on_event(MergeEvent::LockAcquired { master_exists: true, local_exists: false });
    run.on_event(MergeEvent::SnapshotCopied(true));
    assert!(matches!(run.on_event(MergeEvent::ReplayFailed), Some(MergeAction::ReleaseLock)));
    assert!(matches!(run.on_event(MergeEvent::Released), Some(MergeAction::Finish(Some(MergeError::ReplayFailed)))));
}

#[test]
fn empty_outbox_needs_no_lock() {
    let (run, action) = MergeRun::start(&Vec::new());
    assert!(matches!(action, MergeAction::Finish(None)));
    assert!(run.phase() == MergePhase::Done);
}

fn keyed_insert(origin: &str, title: &str, author: &str, stamp: &str) -> DeltaSyncPayload {
    let fields = vec![
        ("id".to_string(), FieldValue::Int(5)),
        ("title".to_string(), FieldValue::Text(title.to_string())),
        ("created_by".to_string(), FieldValue::Text(author.to_string())),
        ("updated_at".to_string(), FieldValue::Text(stamp.to_string())),
    ];
    DeltaSyncPayload {
        timestamp: 1,
        pc_name: origin.to_string(),
        action: "insert".to_string(),
        table: "issues".to_string(),
        target_id: 5,
        changes: Some(fields),
    }
}

#[test]
fn merge_of_colliding_inserts_keeps_both() {
    let records = vec![
        ("1704067201000_B_22222222.json".to_string(), keyed_insert("B", "Typo", "bob", "2024-01-01T00:00:01Z")),
        ("1704067200000_A_11111111.json".to_string(), keyed_insert("A", "Bug", "alice", "2024-01-01T00:00:00Z")),
        ("1704067202000_C_33333333.json".to_string(), {
            let mut bad = keyed_insert("C", "x", "carol", "t");
            bad.changes = None;
            bad
        }),
    ];
    let listing: Vec<String> = records.iter().map(|(n, _)| n.clone()).collect();
    let (mut run, _) = MergeRun::start(&listing);
    run.on_event(MergeEvent::LockAcquired { master_exists: true, local_exists: true });
    let order = match run.on_event(MergeEvent::SnapshotCopied(true)) {
        Some(MergeAction::Replay(order)) => order,
        _ => panic!("expected a replay"),
    };
    let mut snapshot = issuer::store::Store::new();
    for name in &order {
        let (_, rec) = records.iter().find(|(n, _)| n == name).unwrap();
        issuer::applier::apply_delta(&mut snapshot, rec, &"now".to_string());
    }
    let ids: Vec<i64> = snapshot.rows.iter().map(|r| r.id).collect();
    assert_eq!(ids, vec![5, 6]);
    let title_of = |id: i64| {
        snapshot.rows.iter().find(|r| r.id == id).unwrap().fields.iter().rev().find(|(k, _)| k == "title").map(|(_, v)| v)
    };
    assert_eq!(title_of(5), Some(&FieldValue::Text("Bug".to_string())));
    assert_eq!(title_of(6), Some(&FieldValue::Text("Typo".to_string())));
    assert!(matches!(run.on_event(MergeEvent::Replayed(order.clone())), Some(MergeAction::Publish)));
    match run.on_event(MergeEvent::Published(true)) {
        Some(MergeAction::Collect(gone)) => assert_eq!(gone, order),
        _ => panic!("expected collection"),
    }
}

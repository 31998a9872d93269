use issuer::applier::apply_delta;
use issuer::entities::{labels_map, reactions_by_target, ReactionEntry};
use issuer::outbox::capture;
use issuer::payloads;
use issuer::relaunch::{local_copy_needed, ExeStamps};
use issuer::store::Store;
use issuer::value::FieldValue;

fn entry(reaction: &str, users: &str) -> ReactionEntry {
    ReactionEntry::new(reaction.to_string(), 1, 0, users)
}

#[test]
fn labels_grouped_by_issue() {
    let rows = vec![
        (2, "bug".to_string()),
        (1, "ui".to_string()),
        (2, "help".to_string()),
        (1, "x".to_string()),
    ];
    let grouped = labels_map(rows);
    assert_eq!(
        grouped,
        vec![(2, vec!["bug".to_string(), "help".to_string()]), (1, vec!["ui".to_string(), "x".to_string()])]
    );
    assert!(labels_map(Vec::new()).is_empty());
}

#[test]
fn reactions_grouped_by_comment() {
    let rows = vec![(7, entry("+1", "a")), (9, entry("heart", "b")), (7, entry("eyes", "c,d"))];
    let summaries = reactions_by_target(rows);
    assert_eq!(summaries.len(), 2);
    assert_eq!(summaries[0].target_id, 7);
    assert_eq!(summaries[0].reactions.len(), 2);
    assert_eq!(summaries[0].reactions[1].reaction, "eyes");
    assert_eq!(summaries[0].reactions[1].users, vec!["c".to_string(), "d".to_string()]);
    assert_eq!(summaries[1].target_id, 9);
}

#[test]
fn local_copy_decision() {
    assert!(local_copy_needed(false, Some("9.9.9"), "1.0.0", None));
    assert!(!local_copy_needed(true, Some(" 1.2.0\n"), "1.1.9", None));
    assert!(!local_copy_needed(true, Some("1.2"), "1.2.0", None));
    assert!(local_copy_needed(true, Some("1.1"), "1.2", None));
    assert!(local_copy_needed(true, Some("  "), "1.2", None));
    let same = ExeStamps { running_len: 10, local_len: 10, running_modified: 5, local_modified: 6 };
    assert!(!local_copy_needed(true, None, "1.2", Some(same)));
    let newer = ExeStamps { running_len: 10, local_len: 10, running_modified: 7, local_modified: 6 };
    assert!(local_copy_needed(true, Some("1.1"), "1.2", Some(newer)));
    let resized = ExeStamps { running_len: 11, local_len: 10, running_modified: 5, local_modified: 6 };
    assert!(local_copy_needed(true, None, "1.2", Some(resized)));
}

#[test]
fn captured_issue_round_trips_into_peer() {
    let now = "2024-05-01T10:00:00+09:00".to_string();
    let fields = payloads::issue_created(3, &"Crash".to_string(), &"".to_string(), &"carol".to_string(), &"dave".to_string(), &now);
    assert_eq!(fields.len(), 10);
    assert_eq!(fields[3], ("status".to_string(), FieldValue::Text("OPEN".to_string())));
    assert_eq!(fields[8], ("milestone_id".to_string(), FieldValue::Null));
    let (_, record) = capture(1, "PC9", "issues", 3, "insert", fields);
    let mut peer = Store::new();
    assert!(apply_delta(&mut peer, &record, &now));
    assert_eq!(peer.rows.len(), 1);
    assert_eq!(peer.rows[0].id, 3);

    let deletion = payloads::soft_deleted(&"2024-05-02T00:00:00+09:00".to_string());
    let (_, record) = capture(2, "PC9", "issues", 3, "update", deletion);
    assert!(apply_delta(&mut peer, &record, &now));
    let flag = peer.rows[0].fields.iter().rev().find(|(k, _)| k == "is_deleted").map(|(_, v)| v);
    assert_eq!(flag, Some(&FieldValue::Int(1)));
}

#[test]
fn payload_shapes() {
    let now = "t".to_string();
    let f = payloads::issue_updated(&"a".to_string(), &"b".to_string(), &"CLOSED".to_string(), &"".to_string(), Some(4), &now);
    assert_eq!(f[4], ("milestone_id".to_string(), FieldValue::Int(4)));
    let f = payloads::milestone_created(8, &"M".to_string(), &"".to_string(), &None, &Some("2024-06-01".to_string()), &now);
    assert_eq!(f[3], ("start_date".to_string(), FieldValue::Null));
    assert_eq!(f[4], ("due_date".to_string(), FieldValue::Text("2024-06-01".to_string())));
    assert_eq!(f[5], ("status".to_string(), FieldValue::Text("planned".to_string())));
    let f = payloads::reaction_toggled(true, &"bob".to_string(), &"+1".to_string());
    assert_eq!(f[0], ("deleted".to_string(), FieldValue::Bool(true)));
    let f = payloads::labels_set(&vec!["bug".to_string()]);
    assert_eq!(f, vec![("labels".to_string(), FieldValue::List(vec![Some("bug".to_string())]))]);
    assert_eq!(payloads::comment_updated(&"x".to_string(), &now).len(), 2);
    assert_eq!(payloads::milestone_unlinked(&now)[0], ("milestone_id".to_string(), FieldValue::Null));
    assert_eq!(payloads::comment_created(1, 2, &"b".to_string(), &"u".to_string(), &now)[1], ("issue_id".to_string(), FieldValue::Int(2)));
    assert_eq!(payloads::milestone_updated(&"M".to_string(), &"".to_string(), &None, &None, &"done".to_string(), &now).len(), 6);
}

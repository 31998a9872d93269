use issuer::applier::{apply_delta, plan_delta, ApplyFacts};
use issuer::record::DeltaSyncPayload;
use issuer::store::{Store, StoreOp};
use issuer::value::FieldValue;

fn text(s: &str) -> FieldValue {
    FieldValue::Text(s.to_string())
}

fn record(origin: &str, action: &str, table: &str, target: i32, fields: Vec<(&str, FieldValue)>) -> DeltaSyncPayload {
    DeltaSyncPayload {
        timestamp: 1_700_000_000_000,
        pc_name: origin.to_string(),
        action: action.to_string(),
        table: table.to_string(),
        target_id: target,
        changes: Some(fields.into_iter().map(|(k, v)| (k.to_string(), v)).collect()),
    }
}

fn issue_insert(origin: &str, id: i32, title: &str, author: &str, stamp: &str) -> DeltaSyncPayload {
    record(
        origin,
        "insert",
        "issues",
        id,
        vec![
            ("id", FieldValue::Int(id as i64)),
            ("title", text(title)),
            ("created_by", text(author)),
            ("updated_at", text(stamp)),
        ],
    )
}

fn field<'a>(store: &'a Store, table: &str, id: i64, key: &str) -> Option<&'a FieldValue> {
    let row = store.rows.iter().find(|r| r.table == table && r.id == id)?;
    row.fields.iter().rev().find(|(k, _)| k == key).map(|(_, v)| v)
}

fn title(store: &Store, id: i64) -> Option<String> {
    match field(store, "issues", id, "title") {
        Some(FieldValue::Text(s)) => Some(s.clone()),
        _ => None,
    }
}

fn now() -> String {
    "2024-01-02T00:00:00Z".to_string()
}

fn snapshot(store: &Store) -> String {
    let mut out = String::new();
    for r in &store.rows {
        let mut columns = std::collections::BTreeMap::new();
        for (k, v) in &r.fields {
            columns.insert(k.clone(), format!("{:?}", v));
        }
        out.push_str(&format!("row {} {} {:?};", r.table, r.id, columns));
    }
    for r in &store.reactions {
        out.push_str(&format!("reaction {} {} {} {} {};", r.table, r.parent, r.actor, r.label, r.created_at));
    }
    for l in &store.labels {
        out.push_str(&format!("label {};", l));
    }
    for l in &store.links {
        out.push_str(&format!("link {} {};", l.issue_id, l.label));
    }
    out
}

#[test]
fn concurrent_inserts_keep_both_issues() {
    let a = issue_insert("A", 5, "Bug", "alice", "2024-01-01T00:00:00Z");
    let b = issue_insert("B", 5, "Typo", "bob", "2024-01-01T00:00:01Z");
    for order in [[&a, &b], [&b, &a]] {
        let mut store = Store::new();
        assert!(apply_delta(&mut store, order[0], &now()));
        assert!(apply_delta(&mut store, order[1], &now()));
        assert_eq!(store.rows.len(), 2);
        let first_title = title(&store, 5).unwrap();
        let other = store.rows.iter().find(|r| r.id != 5).unwrap().id;
        assert_eq!(other, 6);
        let other_title = title(&store, other).unwrap();
        let mut titles = vec![first_title, other_title];
        titles.sort();
        assert_eq!(titles, vec!["Bug".to_string(), "Typo".to_string()]);
        assert_eq!(field(&store, "issues", other, "id"), Some(&FieldValue::Int(other)));
    }
    let mut store = Store::new();
    apply_delta(&mut store, &a, &now());
    apply_delta(&mut store, &b, &now());
    assert_eq!(title(&store, 5).as_deref(), Some("Bug"));
    assert_eq!(title(&store, 6).as_deref(), Some("Typo"));
}

#[test]
fn same_author_insert_replaces_in_place() {
    let mut store = Store::new();
    apply_delta(&mut store, &issue_insert("A", 3, "Draft", "alice", "2024-01-01T00:00:00Z"), &now());
    apply_delta(&mut store, &issue_insert("A", 3, "Final", "alice", "2024-01-01T00:00:02Z"), &now());
    assert_eq!(store.rows.len(), 1);
    assert_eq!(title(&store, 3).as_deref(), Some("Final"));
}

#[test]
fn replayed_insert_changes_nothing() {
    let rec = issue_insert("A", 9, "Bug", "alice", "2024-01-01T00:00:00Z");
    let mut store = Store::new();
    apply_delta(&mut store, &rec, &now());
    let once = snapshot(&store);
    apply_delta(&mut store, &rec, &now());
    assert_eq!(snapshot(&store), once);
}

#[test]
fn replayed_toggle_and_set_change_nothing() {
    let add = record(
        "B",
        "toggle",
        "issue_reactions",
        5,
        vec![("deleted", FieldValue::Bool(false)), ("reacted_by", text("bob")), ("reaction", text("+1"))],
    );
    let set = record(
        "B",
        "set",
        "issue_labels",
        5,
        vec![("labels", FieldValue::List(vec![Some("bug".to_string()), None, Some("ui".to_string())]))],
    );
    let mut store = Store::new();
    assert!(apply_delta(&mut store, &add, &now()));
    assert!(apply_delta(&mut store, &set, &now()));
    let once = snapshot(&store);
    apply_delta(&mut store, &add, &"2030-01-01T00:00:00Z".to_string());
    apply_delta(&mut store, &set, &now());
    assert_eq!(snapshot(&store), once);
    assert_eq!(store.reactions.len(), 1);
    assert_eq!(store.reactions[0].created_at, now());
    assert_eq!(store.labels, vec!["bug".to_string(), "ui".to_string()]);
    assert_eq!(store.links.len(), 2);
}

#[test]
fn toggle_removes_reaction() {
    let mut store = Store::new();
    let add = record(
        "B",
        "toggle",
        "comment_reactions",
        7,
        vec![("deleted", FieldValue::Bool(false)), ("reacted_by", text("bob")), ("reaction", text("heart"))],
    );
    let remove = record(
        "B",
        "toggle",
        "comment_reactions",
        7,
        vec![("deleted", FieldValue::Bool(true)), ("reacted_by", text("bob")), ("reaction", text("heart"))],
    );
    apply_delta(&mut store, &add, &now());
    assert_eq!(store.reactions.len(), 1);
    assert!(apply_delta(&mut store, &remove, &now()));
    assert!(store.reactions.is_empty());
    assert!(apply_delta(&mut store, &remove, &now()));
    assert!(store.reactions.is_empty());
}

#[test]
fn set_replaces_whole_label_set() {
    let mut store = Store::new();
    let first = record("A", "set", "issue_labels", 1, vec![("labels", FieldValue::List(vec![Some("bug".to_string())]))]);
    let second = record("B", "set", "issue_labels", 1, vec![("labels", FieldValue::List(vec![Some("ui".to_string())]))]);
    apply_delta(&mut store, &first, &now());
    apply_delta(&mut store, &second, &now());
    let linked: Vec<&str> = store.links.iter().filter(|l| l.issue_id == 1).map(|l| l.label.as_str()).collect();
    assert_eq!(linked, vec!["ui"]);
    assert_eq!(store.labels, vec!["bug".to_string(), "ui".to_string()]);
}

fn issue_update(stamp: &str, title: &str) -> DeltaSyncPayload {
    record("B", "update", "issues", 5, vec![("title", text(title)), ("updated_at", text(stamp))])
}

#[test]
fn later_update_wins_in_either_order() {
    let base = issue_insert("A", 5, "Bug", "alice", "2024-01-01T00:00:00Z");
    let r1 = issue_update("2024-01-01T00:00:01Z", "First");
    let r2 = issue_update("2024-01-01T00:00:02Z", "Second");

    let mut only_r2 = Store::new();
    apply_delta(&mut only_r2, &base, &now());
    assert!(apply_delta(&mut only_r2, &r2, &now()));

    let mut forward = Store::new();
    apply_delta(&mut forward, &base, &now());
    assert!(apply_delta(&mut forward, &r1, &now()));
    assert!(apply_delta(&mut forward, &r2, &now()));

    let mut backward = Store::new();
    apply_delta(&mut backward, &base, &now());
    assert!(apply_delta(&mut backward, &r2, &now()));
    assert!(!apply_delta(&mut backward, &r1, &now()));

    assert_eq!(title(&forward, 5).as_deref(), Some("Second"));
    assert_eq!(title(&backward, 5).as_deref(), Some("Second"));
    assert_eq!(snapshot(&backward), snapshot(&only_r2));
    assert_eq!(field(&forward, "issues", 5, "updated_at"), Some(&text("2024-01-01T00:00:02Z")));
}

#[test]
fn stale_update_is_discarded() {
    let mut store = Store::new();
    apply_delta(&mut store, &issue_insert("A", 5, "Bug", "alice", "2024-03-01T00:00:00Z"), &now());
    let before = snapshot(&store);
    assert!(!apply_delta(&mut store, &issue_update("2024-02-01T00:00:00Z", "Old"), &now()));
    assert_eq!(snapshot(&store), before);
    assert!(apply_delta(&mut store, &issue_update("2024-03-01T00:00:00Z", "Same stamp"), &now()));
    assert_eq!(title(&store, 5).as_deref(), Some("Same stamp"));
}

#[test]
fn soft_delete_update_patches_flag() {
    let mut store = Store::new();
    apply_delta(&mut store, &issue_insert("A", 5, "Bug", "alice", "2024-01-01T00:00:00Z"), &now());
    let del = record(
        "B",
        "update",
        "issues",
        5,
        vec![("is_deleted", FieldValue::Int(1)), ("updated_at", text("2024-01-05T00:00:00Z"))],
    );
    assert!(apply_delta(&mut store, &del, &now()));
    assert_eq!(field(&store, "issues", 5, "is_deleted"), Some(&FieldValue::Int(1)));
    assert_eq!(title(&store, 5).as_deref(), Some("Bug"));
}

#[test]
fn update_setting_id_moves_row() {
    let mut store = Store::new();
    apply_delta(&mut store, &issue_insert("A", 5, "Bug", "alice", "2024-01-01T00:00:00Z"), &now());
    apply_delta(&mut store, &issue_insert("A", 9, "Other", "alice", "2024-01-01T00:00:00Z"), &now());
    let onto_taken = record("B", "update", "issues", 5, vec![("id", FieldValue::Int(9)), ("title", text("X"))]);
    assert!(apply_delta(&mut store, &onto_taken, &now()));
    assert_eq!(title(&store, 5).as_deref(), Some("Bug"));
    assert_eq!(title(&store, 9).as_deref(), Some("Other"));
    let not_integer = record("B", "update", "issues", 5, vec![("id", text("seven")), ("title", text("X"))]);
    assert!(apply_delta(&mut store, &not_integer, &now()));
    assert_eq!(title(&store, 5).as_deref(), Some("Bug"));
    let moving = record("B", "update", "issues", 5, vec![("id", FieldValue::Int(77)), ("title", text("Moved"))]);
    assert!(apply_delta(&mut store, &moving, &now()));
    assert_eq!(title(&store, 5), None);
    assert_eq!(title(&store, 77).as_deref(), Some("Moved"));
    assert_eq!(field(&store, "issues", 77, "id"), Some(&FieldValue::Int(77)));
}

#[test]
fn update_of_missing_row_changes_nothing() {
    let mut store = Store::new();
    assert!(apply_delta(&mut store, &issue_update("2024-01-01T00:00:00Z", "x"), &now()));
    assert!(store.rows.is_empty());
}

#[test]
fn malformed_records_mutate_nothing() {
    let mut store = Store::new();
    let mut not_object = issue_insert("A", 1, "x", "alice", "t");
    not_object.changes = None;
    assert!(!apply_delta(&mut store, &not_object, &now()));
    let odd_flag = record(
        "A",
        "toggle",
        "issue_reactions",
        1,
        vec![("deleted", text("yes")), ("reacted_by", text("a")), ("reaction", text("+1"))],
    );
    assert!(!apply_delta(&mut store, &odd_flag, &now()));
    let no_actor = record("A", "toggle", "issue_reactions", 1, vec![("deleted", FieldValue::Bool(false)), ("reaction", text("+1"))]);
    assert!(!apply_delta(&mut store, &no_actor, &now()));
    let other_table = record(
        "A",
        "toggle",
        "issues",
        1,
        vec![("deleted", FieldValue::Bool(false)), ("reacted_by", text("a")), ("reaction", text("+1"))],
    );
    assert!(!apply_delta(&mut store, &other_table, &now()));
    let no_labels = record("A", "set", "issue_labels", 1, vec![("labels", text("bug"))]);
    assert!(!apply_delta(&mut store, &no_labels, &now()));
    let wrong_set_table = record("A", "set", "labels", 1, vec![("labels", FieldValue::List(vec![]))]);
    assert!(!apply_delta(&mut store, &wrong_set_table, &now()));
    let unknown = record("A", "delete", "issues", 1, vec![]);
    assert!(!apply_delta(&mut store, &unknown, &now()));
    assert!(store.rows.is_empty() && store.reactions.is_empty() && store.labels.is_empty() && store.links.is_empty());
}

#[test]
fn insert_without_id_takes_next_id() {
    let mut store = Store::new();
    apply_delta(&mut store, &issue_insert("A", 4, "Four", "alice", "t"), &now());
    let rec = record("A", "insert", "issues", 0, vec![("title", text("Auto"))]);
    assert!(apply_delta(&mut store, &rec, &now()));
    assert_eq!(title(&store, 5).as_deref(), Some("Auto"));
}

#[test]
fn collision_rekeys_past_largest_id() {
    let facts = ApplyFacts {
        existing_created_by: Some("carol".to_string()),
        max_id: Some(i32::MAX as i64),
        local_updated_at: None,
    };
    let (ops, changed) = plan_delta(&issue_insert("B", 5, "Typo", "bob", "t"), &facts);
    assert!(changed);
    assert_eq!(ops.len(), 1);
    match &ops[0] {
        StoreOp::Upsert { id, .. } => assert_eq!(*id, Some(i32::MAX as i64 + 1)),
        _ => panic!("expected an upsert"),
    }
    let full = ApplyFacts { existing_created_by: Some("carol".to_string()), max_id: Some(i64::MAX), local_updated_at: None };
    let (ops, changed) = plan_delta(&issue_insert("B", 5, "Typo", "bob", "t"), &full);
    assert!(!changed);
    assert!(ops.is_empty());
    let facts = ApplyFacts { existing_created_by: Some("carol".to_string()), max_id: Some(41), local_updated_at: None };
    let (ops, _) = plan_delta(&issue_insert("B", 5, "Typo", "bob", "t"), &facts);
    match &ops[0] {
        StoreOp::Upsert { id, fields, .. } => {
            assert_eq!(*id, Some(42));
            assert_eq!(fields.iter().rev().find(|(k, _)| k == "id").map(|(_, v)| v), Some(&FieldValue::Int(42)));
        }
        _ => panic!("expected an upsert"),
    }
}

#[test]
fn plan_for_update_patches_target() {
    let facts = ApplyFacts { existing_created_by: None, max_id: Some(5), local_updated_at: Some("2024-01-01".to_string()) };
    let (ops, changed) = plan_delta(&issue_update("2024-01-02", "t"), &facts);
    assert!(changed);
    match &ops[0] {
        StoreOp::Patch { table, id, fields } => {
            assert_eq!(table, "issues");
            assert_eq!(*id, 5);
            assert_eq!(fields.len(), 2);
        }
        _ => panic!("expected a patch"),
    }
    let newer = ApplyFacts { existing_created_by: None, max_id: Some(5), local_updated_at: Some("2024-01-03".to_string()) };
    let (ops, changed) = plan_delta(&issue_update("2024-01-02", "t"), &newer);
    assert!(!changed);
    assert!(ops.is_empty());
}

#[test]
fn columns_once_last_wins() {
    let fields = vec![
        ("id".to_string(), FieldValue::Int(5)),
        ("title".to_string(), text("a")),
        ("body".to_string(), text("b")),
        ("title".to_string(), text("c")),
        ("id".to_string(), FieldValue::Int(6)),
    ];
    let cols = issuer::value::distinct_columns(&fields);
    assert_eq!(
        cols,
        vec![("id".to_string(), FieldValue::Int(6)), ("title".to_string(), text("c")), ("body".to_string(), text("b"))]
    );
}

#[test]
fn replayed_update_changes_nothing() {
    let mut store = Store::new();
    apply_delta(&mut store, &issue_insert("A", 5, "Bug", "alice", "2024-01-01T00:00:00Z"), &now());
    let upd = issue_update("2024-01-02T00:00:00Z", "Fixed");
    assert!(apply_delta(&mut store, &upd, &now()));
    let once = snapshot(&store);
    assert!(apply_delta(&mut store, &upd, &now()));
    assert_eq!(snapshot(&store), once);
}

#[test]
fn updates_overwrite_columns_in_place() {
    let mut store = Store::new();
    apply_delta(&mut store, &issue_insert("A", 5, "Bug", "alice", "2024-01-01T00:00:00Z"), &now());
    assert_eq!(store.rows[0].fields.len(), 4);
    apply_delta(&mut store, &issue_update("2024-01-02T00:00:00Z", "One"), &now());
    apply_delta(&mut store, &issue_update("2024-01-03T00:00:00Z", "Two"), &now());
    assert_eq!(store.rows[0].fields.len(), 4);
    assert_eq!(title(&store, 5).as_deref(), Some("Two"));
}

#[test]
fn toggle_without_flag_adds_reaction() {
    let mut store = Store::new();
    let add = record("B", "toggle", "issue_reactions", 3, vec![("reacted_by", text("bob")), ("reaction", text("+1"))]);
    assert!(apply_delta(&mut store, &add, &now()));
    assert!(apply_delta(&mut store, &add, &now()));
    assert_eq!(store.reactions.len(), 1);
    assert_eq!(store.reactions[0].actor, "bob");
}

//! The field maps that local mutations capture, per table and action.

use vstd::prelude::*;
use crate::value::{FieldValue, ValueV, entries_view, opt_text_view};

verus! {

pub open spec fn opt_int(o: Option<i32>) -> ValueV {
    match o {
        Some(i) => ValueV::Int(i as int),
        None => ValueV::Null,
    }
}

pub open spec fn opt_text(o: Option<String>) -> ValueV {
    match o {
        Some(s) => ValueV::Text(s@),
        None => ValueV::Null,
    }
}

fn put(fields: &mut Vec<(String, FieldValue)>, key: &str, value: FieldValue)
    ensures
        entries_view(final(fields)@) == entries_view(old(fields)@).push((key@, value@)),
{
    let ghost before = fields@;
    let ghost vv = value@;
    fields.push((String::from_str(key), value));
    assert(entries_view(fields@) =~= entries_view(before).push((key@, vv)));
}

fn text_value(s: &String) -> (r: FieldValue)
    ensures
        r@ == ValueV::Text(s@),
{
    FieldValue::Text(s.clone())
}

fn opt_int_value(o: Option<i32>) -> (r: FieldValue)
    ensures
        r@ == opt_int(o),
{
    match o {
        Some(i) => FieldValue::Int(i as i64),
        None => FieldValue::Null,
    }
}

fn opt_text_value(o: &Option<String>) -> (r: FieldValue)
    ensures
        r@ == opt_text(*o),
{
    match o {
        Some(s) => FieldValue::Text(s.clone()),
        None => FieldValue::Null,
    }
}

/// The fields of a newly created issue.
pub fn issue_created(id: i32, title: &String, body: &String, created_by: &String, assignee: &String, now: &String) -> (r: Vec<(String, FieldValue)>)
    ensures
        entries_view(r@) == seq![
            ("id"@, ValueV::Int(id as int)),
            ("title"@, ValueV::Text(title@)),
            ("body"@, ValueV::Text(body@)),
            ("status"@, ValueV::Text("OPEN"@)),
            ("created_by"@, ValueV::Text(created_by@)),
            ("assignee"@, ValueV::Text(assignee@)),
            ("created_at"@, ValueV::Text(now@)),
            ("updated_at"@, ValueV::Text(now@)),
            ("milestone_id"@, ValueV::Null),
            ("is_deleted"@, ValueV::Int(0)),
        ],
{
    let mut f: Vec<(String, FieldValue)> = Vec::new();
    put(&mut f, "id", FieldValue::Int(id as i64));
    put(&mut f, "title", text_value(title));
    put(&mut f, "body", text_value(body));
    put(&mut f, "status", FieldValue::Text(String::from_str("OPEN")));
    put(&mut f, "created_by", text_value(created_by));
    put(&mut f, "assignee", text_value(assignee));
    put(&mut f, "created_at", text_value(now));
    put(&mut f, "updated_at", text_value(now));
    put(&mut f, "milestone_id", FieldValue::Null);
    put(&mut f, "is_deleted", FieldValue::Int(0));
    assert(entries_view(f@) =~= seq![
        ("id"@, ValueV::Int(id as int)),
        ("title"@, ValueV::Text(title@)),
        ("body"@, ValueV::Text(body@)),
        ("status"@, ValueV::Text("OPEN"@)),
        ("created_by"@, ValueV::Text(created_by@)),
        ("assignee"@, ValueV::Text(assignee@)),
        ("created_at"@, ValueV::Text(now@)),
        ("updated_at"@, ValueV::Text(now@)),
        ("milestone_id"@, ValueV::Null),
        ("is_deleted"@, ValueV::Int(0)),
    ]);
    f
}

/// The fields of an edited issue.
pub fn issue_updated(title: &String, body: &String, status: &String, assignee: &String, milestone_id: Option<i32>, now: &String) -> (r: Vec<(String, FieldValue)>)
    ensures
        entries_view(r@) == seq![
            ("title"@, ValueV::Text(title@)),
            ("body"@, ValueV::Text(body@)),
            ("status"@, ValueV::Text(status@)),
            ("assignee"@, ValueV::Text(assignee@)),
            ("milestone_id"@, opt_int(milestone_id)),
            ("updated_at"@, ValueV::Text(now@)),
        ],
{
    let mut f: Vec<(String, FieldValue)> = Vec::new();
    put(&mut f, "title", text_value(title));
    put(&mut f, "body", text_value(body));
    put(&mut f, "status", text_value(status));
    put(&mut f, "assignee", text_value(assignee));
    put(&mut f, "milestone_id", opt_int_value(milestone_id));
    put(&mut f, "updated_at", text_value(now));
    assert(entries_view(f@) =~= seq![
        ("title"@, ValueV::Text(title@)),
        ("body"@, ValueV::Text(body@)),
        ("status"@, ValueV::Text(status@)),
        ("assignee"@, ValueV::Text(assignee@)),
        ("milestone_id"@, opt_int(milestone_id)),
        ("updated_at"@, ValueV::Text(now@)),
    ]);
    f
}

/// The fields of a soft deletion, which replicates as an ordinary update.
pub fn soft_deleted(now: &String) -> (r: Vec<(String, FieldValue)>)
    ensures
        entries_view(r@) == seq![("is_deleted"@, ValueV::Int(1)), ("updated_at"@, ValueV::Text(now@))],
{
    let mut f: Vec<(String, FieldValue)> = Vec::new();
    put(&mut f, "is_deleted", FieldValue::Int(1));
    put(&mut f, "updated_at", text_value(now));
    assert(entries_view(f@) =~= seq![("is_deleted"@, ValueV::Int(1)), ("updated_at"@, ValueV::Text(now@))]);
    f
}

/// The fields of an issue taken off a deleted milestone.
pub fn milestone_unlinked(now: &String) -> (r: Vec<(String, FieldValue)>)
    ensures
        entries_view(r@) == seq![("milestone_id"@, ValueV::Null), ("updated_at"@, ValueV::Text(now@))],
{
    let mut f: Vec<(String, FieldValue)> = Vec::new();
    put(&mut f, "milestone_id", FieldValue::Null);
    put(&mut f, "updated_at", text_value(now));
    assert(entries_view(f@) =~= seq![("milestone_id"@, ValueV::Null), ("updated_at"@, ValueV::Text(now@))]);
    f
}

/// The fields of a newly created comment.
pub fn comment_created(id: i32, issue_id: i32, body: &String, created_by: &String, now: &String) -> (r: Vec<(String, FieldValue)>)
    ensures
        entries_view(r@) == seq![
            ("id"@, ValueV::Int(id as int)),
            ("issue_id"@, ValueV::Int(issue_id as int)),
            ("body"@, ValueV::Text(body@)),
            ("created_by"@, ValueV::Text(created_by@)),
            ("created_at"@, ValueV::Text(now@)),
            ("updated_at"@, ValueV::Text(now@)),
            ("is_deleted"@, ValueV::Int(0)),
        ],
{
    let mut f: Vec<(String, FieldValue)> = Vec::new();
    put(&mut f, "id", FieldValue::Int(id as i64));
    put(&mut f, "issue_id", FieldValue::Int(issue_id as i64));
    put(&mut f, "body", text_value(body));
    put(&mut f, "created_by", text_value(created_by));
    put(&mut f, "created_at", text_value(now));
    put(&mut f, "updated_at", text_value(now));
    put(&mut f, "is_deleted", FieldValue::Int(0));
    assert(entries_view(f@) =~= seq![
        ("id"@, ValueV::Int(id as int)),
        ("issue_id"@, ValueV::Int(issue_id as int)),
        ("body"@, ValueV::Text(body@)),
        ("created_by"@, ValueV::Text(created_by@)),
        ("created_at"@, ValueV::Text(now@)),
        ("updated_at"@, ValueV::Text(now@)),
        ("is_deleted"@, ValueV::Int(0)),
    ]);
    f
}

/// The fields of an edited comment.
pub fn comment_updated(body: &String, now: &String) -> (r: Vec<(String, FieldValue)>)
    ensures
        entries_view(r@) == seq![("body"@, ValueV::Text(body@)), ("updated_at"@, ValueV::Text(now@))],
{
    let mut f: Vec<(String, FieldValue)> = Vec::new();
    put(&mut f, "body", text_value(body));
    put(&mut f, "updated_at", text_value(now));
    assert(entries_view(f@) =~= seq![("body"@, ValueV::Text(body@)), ("updated_at"@, ValueV::Text(now@))]);
    f
}

/// The fields of a newly created milestone.
pub fn milestone_created(
    id: i32,
    title: &String,
    description: &String,
    start_date: &Option<String>,
    due_date: &Option<String>,
    now: &String,
) -> (r: Vec<(String, FieldValue)>)
    ensures
        entries_view(r@) == seq![
            ("id"@, ValueV::Int(id as int)),
            ("title"@, ValueV::Text(title@)),
            ("description"@, ValueV::Text(description@)),
            ("start_date"@, opt_text(*start_date)),
            ("due_date"@, opt_text(*due_date)),
            ("status"@, ValueV::Text("planned"@)),
            ("created_at"@, ValueV::Text(now@)),
            ("updated_at"@, ValueV::Text(now@)),
            ("is_deleted"@, ValueV::Int(0)),
        ],
{
    let mut f: Vec<(String, FieldValue)> = Vec::new();
    put(&mut f, "id", FieldValue::Int(id as i64));
    put(&mut f, "title", text_value(title));
    put(&mut f, "description", text_value(description));
    put(&mut f, "start_date", opt_text_value(start_date));
    put(&mut f, "due_date", opt_text_value(due_date));
    put(&mut f, "status", FieldValue::Text(String::from_str("planned")));
    put(&mut f, "created_at", text_value(now));
    put(&mut f, "updated_at", text_value(now));
    put(&mut f, "is_deleted", FieldValue::Int(0));
    assert(entries_view(f@) =~= seq![
        ("id"@, ValueV::Int(id as int)),
        ("title"@, ValueV::Text(title@)),
        ("description"@, ValueV::Text(description@)),
        ("start_date"@, opt_text(*start_date)),
        ("due_date"@, opt_text(*due_date)),
        ("status"@, ValueV::Text("planned"@)),
        ("created_at"@, ValueV::Text(now@)),
        ("updated_at"@, ValueV::Text(now@)),
        ("is_deleted"@, ValueV::Int(0)),
    ]);
    f
}

/// The fields of an edited milestone.
pub fn milestone_updated(
    title: &String,
    description: &String,
    start_date: &Option<String>,
    due_date: &Option<String>,
    status: &String,
    now: &String,
) -> (r: Vec<(String, FieldValue)>)
    ensures
        entries_view(r@) == seq![
            ("title"@, ValueV::Text(title@)),
            ("description"@, ValueV::Text(description@)),
            ("start_date"@, opt_text(*start_date)),
            ("due_date"@, opt_text(*due_date)),
            ("status"@, ValueV::Text(status@)),
            ("updated_at"@, ValueV::Text(now@)),
        ],
{
    let mut f: Vec<(String, FieldValue)> = Vec::new();
    put(&mut f, "title", text_value(title));
    put(&mut f, "description", text_value(description));
    put(&mut f, "start_date", opt_text_value(start_date));
    put(&mut f, "due_date", opt_text_value(due_date));
    put(&mut f, "status", text_value(status));
    put(&mut f, "updated_at", text_value(now));
    assert(entries_view(f@) =~= seq![
        ("title"@, ValueV::Text(title@)),
        ("description"@, ValueV::Text(description@)),
        ("start_date"@, opt_text(*start_date)),
        ("due_date"@, opt_text(*due_date)),
        ("status"@, ValueV::Text(status@)),
        ("updated_at"@, ValueV::Text(now@)),
    ]);
    f
}

/// The fields of a reaction toggle: whether it was removed, by whom, which.
pub fn reaction_toggled(deleted: bool, reacted_by: &String, reaction: &String) -> (r: Vec<(String, FieldValue)>)
    ensures
        entries_view(r@) == seq![
            ("deleted"@, ValueV::Bool(deleted)),
            ("reacted_by"@, ValueV::Text(reacted_by@)),
            ("reaction"@, ValueV::Text(reaction@)),
        ],
{
    let mut f: Vec<(String, FieldValue)> = Vec::new();
    put(&mut f, "deleted", FieldValue::Bool(deleted));
    put(&mut f, "reacted_by", text_value(reacted_by));
    put(&mut f, "reaction", text_value(reaction));
    assert(entries_view(f@) =~= seq![
        ("deleted"@, ValueV::Bool(deleted)),
        ("reacted_by"@, ValueV::Text(reacted_by@)),
        ("reaction"@, ValueV::Text(reaction@)),
    ]);
    f
}

/// Each label name as a string element of a list.
pub open spec fn label_items(labels: Seq<String>) -> Seq<Option<Seq<char>>> {
    labels.map_values(|l: String| Some(l@))
}

/// The fields of a label-set replacement.
pub fn labels_set(labels: &Vec<String>) -> (r: Vec<(String, FieldValue)>)
    ensures
        entries_view(r@) == seq![("labels"@, ValueV::List(label_items(labels@)))],
{
    let mut items: Vec<Option<String>> = Vec::new();
    let mut i: usize = 0;
    while i < labels.len()
        invariant
            i <= labels@.len(),
            items@.map_values(|o: Option<String>| opt_text_view(o)) == label_items(labels@.subrange(0, i as int)),
        decreases labels.len() - i,
    {
        let ghost before = items@;
        items.push(Some(labels[i].clone()));
        assert(items@.map_values(|o: Option<String>| opt_text_view(o)) =~= before.map_values(
            |o: Option<String>| opt_text_view(o),
        ).push(Some(labels@[i as int]@)));
        assert(label_items(labels@.subrange(0, i + 1)) =~= label_items(labels@.subrange(0, i as int)).push(
            Some(labels@[i as int]@),
        ));
        i = i + 1;
    }
    assert(labels@.subrange(0, i as int) == labels@);
    let mut f: Vec<(String, FieldValue)> = Vec::new();
    let ghost iv = ValueV::List(label_items(labels@));
    let value = FieldValue::List(items);
    assert(value@ == iv);
    put(&mut f, "labels", value);
    assert(entries_view(f@) =~= seq![("labels"@, iv)]);
    f
}

} // verus!

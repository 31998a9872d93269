//! The delta applier: the conflict-resolution policy that turns a change
//! record and what the working copy holds into operations on it.

use vstd::prelude::*;
use crate::value::{
    FieldValue, ValueV, entries_map, entries_view, text_field, bool_field, list_field,
    opt_text_view, text_lt, text_eq, text_gt, get_text, get_bool, get_list, find_entry,
    copy_entries, distinct_columns,
};
use crate::store::{Store, StoreV, StoreOp, OpV, ops_view, first_row, max_id, run_ops};
use crate::record::{DeltaSyncPayload, RecordV};

verus! {

/// What the applier reads from the working copy before it decides.
pub struct ApplyFacts {
    /// `created_by` of the target row, where the row exists and the value is text.
    pub existing_created_by: Option<String>,
    /// The largest id of the record's table, if it has a row.
    pub max_id: Option<i64>,
    /// `updated_at` of the target row, where the row exists and the value is text.
    pub local_updated_at: Option<String>,
}

pub struct FactsV {
    pub existing_created_by: Option<Seq<char>>,
    pub max_id: Option<int>,
    pub local_updated_at: Option<Seq<char>>,
}

impl View for ApplyFacts {
    type V = FactsV;

    open spec fn view(&self) -> FactsV {
        FactsV {
            existing_created_by: opt_text_view(self.existing_created_by),
            max_id: match self.max_id {
                Some(m) => Some(m as int),
                None => None,
            },
            local_updated_at: opt_text_view(self.local_updated_at),
        }
    }
}

/// The text under `k` in the target row of `p`, if any.
pub open spec fn target_text(s: StoreV, p: RecordV, k: Seq<char>) -> Option<Seq<char>> {
    match first_row(s.rows, p.table, p.target_id) {
        Some(i) => text_field(s.rows[i].fields, k),
        None => None,
    }
}

/// What the working copy `s` tells the applier about record `p`.
pub open spec fn facts_of(s: StoreV, p: RecordV) -> FactsV {
    FactsV {
        existing_created_by: target_text(s, p, "created_by"@),
        max_id: max_id(s.rows, p.table),
        local_updated_at: target_text(s, p, "updated_at"@),
    }
}

/// The id that a colliding insert is moved to: one past the table's largest
/// id; none where the largest id is the largest that a row can have.
pub open spec fn reassigned_id(f: FactsV) -> Option<int> {
    match f.max_id {
        None => Some(1),
        Some(m) => if m < i64::MAX {
            Some(m + 1)
        } else {
            None
        },
    }
}

/// An insert collides where the target row exists with a text author that
/// differs from the incoming text author.
pub open spec fn collides(m: Map<Seq<char>, ValueV>, f: FactsV) -> bool {
    &&& f.existing_created_by is Some
    &&& text_field(m, "created_by"@) is Some
    &&& f.existing_created_by != text_field(m, "created_by"@)
}

/// The id under which an insert lands, if one is left for it.
pub open spec fn effective_id(m: Map<Seq<char>, ValueV>, f: FactsV, target: int) -> Option<int> {
    if collides(m, f) {
        reassigned_id(f)
    } else {
        Some(target)
    }
}

/// A toggle's flag: `true` removes the reaction; an absent `deleted` adds
/// it; a `deleted` that is not a boolean makes the record malformed.
pub open spec fn toggle_flag(m: Map<Seq<char>, ValueV>) -> Option<bool> {
    if m.contains_key("deleted"@) {
        bool_field(m, "deleted"@)
    } else {
        Some(false)
    }
}

/// An update loses where the local `updated_at` sorts strictly after the
/// incoming one.
pub open spec fn lww_loss(m: Map<Seq<char>, ValueV>, f: FactsV) -> bool {
    &&& text_field(m, "updated_at"@) is Some
    &&& f.local_updated_at is Some
    &&& text_lt(text_field(m, "updated_at"@).unwrap(), f.local_updated_at.unwrap())
}

pub open spec fn is_reaction_table(t: Seq<char>) -> bool {
    t == "issue_reactions"@ || t == "comment_reactions"@
}

/// One label assignment for each string of the list, in order.
pub open spec fn link_ops(issue: int, labels: Seq<Option<Seq<char>>>) -> Seq<OpV>
    decreases labels.len(),
{
    if labels.len() == 0 {
        seq![]
    } else {
        let rest = link_ops(issue, labels.drop_last());
        match labels.last() {
            Some(name) => rest.push(OpV::LinkLabel { issue_id: issue, label: name }),
            None => rest,
        }
    }
}

/// The operations that record `p` asks for, given facts `f`, and whether
/// it mutates anything.
pub open spec fn plan_spec(p: RecordV, f: FactsV) -> (Seq<OpV>, bool) {
    match p.changes {
        None => (seq![], false),
        Some(ch) => {
            let m = entries_map(ch);
            if p.action == "insert"@ {
                if m.contains_key("id"@) {
                    match effective_id(m, f, p.target_id) {
                        Some(eff) => (
                            seq![OpV::Upsert { table: p.table, id: Some(eff), fields: m.insert("id"@, ValueV::Int(eff)) }],
                            true,
                        ),
                        None => (seq![], false),
                    }
                } else {
                    (seq![OpV::Upsert { table: p.table, id: None, fields: m }], true)
                }
            } else if p.action == "update"@ {
                if lww_loss(m, f) {
                    (seq![], false)
                } else {
                    (seq![OpV::Patch { table: p.table, id: p.target_id, fields: ch }], true)
                }
            } else if p.action == "toggle"@ {
                match toggle_flag(m) {
                    None => (seq![], false),
                    Some(deleted) => {
                        if is_reaction_table(p.table) && text_field(m, "reacted_by"@) is Some
                            && text_field(m, "reaction"@) is Some {
                            let actor = text_field(m, "reacted_by"@).unwrap();
                            let label = text_field(m, "reaction"@).unwrap();
                            if deleted {
                                (seq![OpV::RemoveReaction { table: p.table, parent: p.target_id, actor, label }], true)
                            } else {
                                (seq![OpV::AddReaction { table: p.table, parent: p.target_id, actor, label }], true)
                            }
                        } else {
                            (seq![], false)
                        }
                    },
                }
            } else if p.action == "set"@ && p.table == "issue_labels"@ {
                match list_field(m, "labels"@) {
                    None => (seq![], false),
                    Some(l) => (seq![OpV::ClearLabels { issue_id: p.target_id }] + link_ops(p.target_id, l), true),
                }
            } else {
                (seq![], false)
            }
        },
    }
}

/// The working copy after applying record `p` at time `now`, and whether a
/// mutation was performed.
pub open spec fn apply_spec(s: StoreV, p: RecordV, now: Seq<char>) -> (StoreV, bool) {
    let plan = plan_spec(p, facts_of(s, p));
    (run_ops(s, plan.0, now), plan.1)
}

fn text_copy(o: Option<&String>) -> (r: Option<String>)
    ensures
        opt_text_view(r) == match o {
            Some(s) => Some(s@),
            None => None::<Seq<char>>,
        },
{
    match o {
        Some(s) => Some(s.clone()),
        None => None,
    }
}

impl Store {
    /// Reads what the applier needs to decide on record `p`.
    pub fn facts_for(&self, p: &DeltaSyncPayload) -> (r: ApplyFacts)
        ensures
            r@ == facts_of(self@, p@),
    {
        let target = p.target_id as i64;
        let max = self.max_table_id(p.table.as_str());
        match self.find_row(p.table.as_str(), target) {
            None => ApplyFacts { existing_created_by: None, max_id: max, local_updated_at: None },
            Some(k) => {
                proof {
                    reveal_strlit("created_by");
                    reveal_strlit("updated_at");
                }
                assert(self@.rows[k as int] == self.rows@[k as int]@);
                let fields = &self.rows[k].fields;
                let created = text_copy(get_text(fields, "created_by"));
                let updated = text_copy(get_text(fields, "updated_at"));
                ApplyFacts { existing_created_by: created, max_id: max, local_updated_at: updated }
            },
        }
    }
}

/// The operations that record `p` asks for, given facts `f`, and whether it
/// mutates anything.
pub fn plan_delta(p: &DeltaSyncPayload, f: &ApplyFacts) -> (r: (Vec<StoreOp>, bool))
    ensures
        ops_view(r.0@) == plan_spec(p@, f@).0,
        r.1 == plan_spec(p@, f@).1,
{
    let ch = match &p.changes {
        None => {
            let empty: Vec<StoreOp> = Vec::new();
            assert(ops_view(empty@) =~= seq![]);
            return (empty, false);
        },
        Some(c) => c,
    };
    let ghost m = entries_map(entries_view(ch@));
    let target = p.target_id as i64;
    let mut ops: Vec<StoreOp> = Vec::new();
    if text_eq(p.action.as_str(), "insert") {
        if find_entry(ch, "id").is_some() {
            let collide = match (&f.existing_created_by, get_text(ch, "created_by")) {
                (Some(e), Some(i)) => !text_eq(e.as_str(), i.as_str()),
                _ => false,
            };
            let eff: i64 = if collide {
                match f.max_id {
                    None => 1,
                    Some(mx) => {
                        if mx < i64::MAX {
                            mx + 1
                        } else {
                            assert(ops_view(ops@) =~= plan_spec(p@, f@).0);
                            return (ops, false);
                        }
                    },
                }
            } else {
                p.target_id as i64
            };
            assert(effective_id(m, f@, p@.target_id) == Some(eff as int));
            let mut keyed = copy_entries(ch);
            let ghost before = keyed@;
            keyed.push((String::from_str("id"), FieldValue::Int(eff)));
            assert(entries_view(keyed@).drop_last() =~= entries_view(before));
            let fields = distinct_columns(&keyed);
            assert(entries_map(entries_view(fields@)) =~= m.insert("id"@, ValueV::Int(eff as int)));
            ops.push(StoreOp::Upsert { table: p.table.clone(), id: Some(eff), fields });
        } else {
            ops.push(StoreOp::Upsert { table: p.table.clone(), id: None, fields: copy_entries(ch) });
        }
        assert(ops_view(ops@) =~= plan_spec(p@, f@).0);
        (ops, true)
    } else if text_eq(p.action.as_str(), "update") {
        let loss = match (get_text(ch, "updated_at"), &f.local_updated_at) {
            (Some(incoming), Some(local)) => text_gt(local.as_str(), incoming.as_str()),
            _ => false,
        };
        if loss {
            assert(ops_view(ops@) =~= plan_spec(p@, f@).0);
            return (ops, false);
        }
        ops.push(StoreOp::Patch { table: p.table.clone(), id: target, fields: copy_entries(ch) });
        assert(ops_view(ops@) =~= plan_spec(p@, f@).0);
        (ops, true)
    } else if text_eq(p.action.as_str(), "toggle") {
        let flag = if find_entry(ch, "deleted").is_some() {
            get_bool(ch, "deleted")
        } else {
            Some(false)
        };
        let deleted = match flag {
            None => {
                assert(ops_view(ops@) =~= plan_spec(p@, f@).0);
                return (ops, false);
            },
            Some(d) => d,
        };
        let reaction_table = text_eq(p.table.as_str(), "issue_reactions") || text_eq(
            p.table.as_str(),
            "comment_reactions",
        );
        match (get_text(ch, "reacted_by"), get_text(ch, "reaction")) {
            (Some(actor), Some(label)) => {
                if !reaction_table {
                    assert(ops_view(ops@) =~= plan_spec(p@, f@).0);
                    return (ops, false);
                }
                if deleted {
                    ops.push(
                        StoreOp::RemoveReaction {
                            table: p.table.clone(),
                            parent: target,
                            actor: actor.clone(),
                            label: label.clone(),
                        },
                    );
                } else {
                    ops.push(
                        StoreOp::AddReaction {
                            table: p.table.clone(),
                            parent: target,
                            actor: actor.clone(),
                            label: label.clone(),
                        },
                    );
                }
                assert(ops_view(ops@) =~= plan_spec(p@, f@).0);
                (ops, true)
            },
            _ => {
                assert(ops_view(ops@) =~= plan_spec(p@, f@).0);
                (ops, false)
            },
        }
    } else if text_eq(p.action.as_str(), "set") && text_eq(p.table.as_str(), "issue_labels") {
        match get_list(ch, "labels") {
            None => {
                assert(ops_view(ops@) =~= plan_spec(p@, f@).0);
                (ops, false)
            },
            Some(l) => {
                let ghost lv = l@.map_values(|o: Option<String>| opt_text_view(o));
                ops.push(StoreOp::ClearLabels { issue_id: target });
                let mut i: usize = 0;
                while i < l.len()
                    invariant
                        i <= l@.len(),
                        lv == l@.map_values(|o: Option<String>| opt_text_view(o)),
                        ops_view(ops@) == seq![OpV::ClearLabels { issue_id: target as int }] + link_ops(
                            target as int,
                            lv.subrange(0, i as int),
                        ),
                    decreases l.len() - i,
                {
                    assert(lv.subrange(0, i + 1).drop_last() == lv.subrange(0, i as int));
                    assert(lv[i as int] == opt_text_view(l@[i as int]));
                    match &l[i] {
                        Some(name) => {
                            let ghost before = ops@;
                            ops.push(StoreOp::LinkLabel { issue_id: target, label: name.clone() });
                            assert(ops_view(ops@) =~= ops_view(before).push(
                                OpV::LinkLabel { issue_id: target as int, label: name@ },
                            ));
                        },
                        None => {},
                    }
                    i = i + 1;
                }
                assert(lv.subrange(0, i as int) == lv);
                (ops, true)
            },
        }
    } else {
        assert(ops_view(ops@) =~= plan_spec(p@, f@).0);
        (ops, false)
    }
}

/// Applies one change record to the working copy; `now` stamps a reaction
/// that the record adds. Returns whether a mutation was performed.
pub fn apply_delta(store: &mut Store, payload: &DeltaSyncPayload, now: &String) -> (r: bool)
    ensures
        (final(store)@, r) == apply_spec(old(store)@, payload@, now@),
{
    let facts = store.facts_for(payload);
    let (ops, changed) = plan_delta(payload, &facts);
    store.execute_all(&ops, now);
    changed
}

} // verus!

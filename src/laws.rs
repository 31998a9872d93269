//! Properties of the conflict-resolution policy, over the working-copy model.

use vstd::prelude::*;
use crate::value::{ValueV, entries_map, text_field, bool_field, list_field, text_lt,
    lemma_text_lt_transitive, lemma_text_lt_irreflexive};
use crate::store::{patched_id, StoreV, RowV, ReactionV, OpV, first_row, max_id, exec_op, run_ops, patched,
    same_reaction, without_reaction, without_issue, lemma_first_row_found};
use crate::record::RecordV;
use crate::applier::{
    facts_of, target_text, plan_spec, apply_spec, effective_id, collides, lww_loss, link_ops, toggle_flag,
    is_reaction_table,
};

verus! {

proof fn lemma_run_one(s: StoreV, op: OpV, now: Seq<char>)
    ensures
        run_ops(s, seq![op], now) == exec_op(s, op, now),
{
    assert(seq![op].drop_last() =~= Seq::<OpV>::empty());
    assert(run_ops(s, Seq::<OpV>::empty(), now) == s);
    assert(seq![op].last() == op);
}

proof fn lemma_run_append(s: StoreV, a: Seq<OpV>, b: Seq<OpV>, now: Seq<char>)
    ensures
        run_ops(s, a + b, now) == run_ops(run_ops(s, a, now), b, now),
    decreases b.len(),
{
    if b.len() == 0 {
        assert(a + b =~= a);
    } else {
        assert((a + b).drop_last() =~= a + b.drop_last());
        assert((a + b).last() == b.last());
        lemma_run_append(s, a, b.drop_last(), now);
    }
}

/// `first_row` reads only the table and id of each row.
proof fn lemma_first_row_same_keys(r1: Seq<RowV>, r2: Seq<RowV>, t: Seq<char>, id: int)
    requires
        r1.len() == r2.len(),
        forall|i: int| 0 <= i < r1.len() ==> r1[i].table == r2[i].table && r1[i].id == r2[i].id,
    ensures
        first_row(r1, t, id) == first_row(r2, t, id),
    decreases r1.len(),
{
    if r1.len() > 0 {
        lemma_first_row_same_keys(r1.drop_last(), r2.drop_last(), t, id);
    }
}

/// `max_id` reads only the table and id of each row.
proof fn lemma_max_id_same_keys(r1: Seq<RowV>, r2: Seq<RowV>, t: Seq<char>)
    requires
        r1.len() == r2.len(),
        forall|i: int| 0 <= i < r1.len() ==> r1[i].table == r2[i].table && r1[i].id == r2[i].id,
    ensures
        max_id(r1, t) == max_id(r2, t),
    decreases r1.len(),
{
    if r1.len() > 0 {
        lemma_max_id_same_keys(r1.drop_last(), r2.drop_last(), t);
    }
}

proof fn lemma_first_row_update(rows: Seq<RowV>, k: int, row: RowV, t: Seq<char>, id: int)
    requires
        0 <= k < rows.len(),
        row.table == rows[k].table,
        row.id == rows[k].id,
    ensures
        first_row(rows.update(k, row), t, id) == first_row(rows, t, id),
        max_id(rows.update(k, row), t) == max_id(rows, t),
{
    lemma_first_row_same_keys(rows.update(k, row), rows, t, id);
    lemma_max_id_same_keys(rows.update(k, row), rows, t);
}

proof fn lemma_first_row_push(rows: Seq<RowV>, row: RowV, t: Seq<char>, id: int)
    ensures
        first_row(rows.push(row), t, id) == match first_row(rows, t, id) {
            Some(i) => Some(i),
            None => if row.table == t && row.id == id {
                Some(rows.len() as int)
            } else {
                None
            },
        },
        max_id(rows.push(row), t) == if row.table == t {
            match max_id(rows, t) {
                None => Some(row.id),
                Some(x) => Some(if row.id > x { row.id } else { x }),
            }
        } else {
            max_id(rows, t)
        },
{
    assert(rows.push(row).drop_last() =~= rows);
}

/// A row of table `t` with id `id` makes `first_row` find one.
proof fn lemma_first_row_exists(rows: Seq<RowV>, i: int, t: Seq<char>, id: int)
    requires
        0 <= i < rows.len(),
        rows[i].table == t,
        rows[i].id == id,
    ensures
        first_row(rows, t, id) is Some,
    decreases rows.len(),
{
    if i < rows.len() - 1 {
        lemma_first_row_exists(rows.drop_last(), i, t, id);
    }
}

/// Every id of table `t` is at most `max_id`.
proof fn lemma_max_id_bound(rows: Seq<RowV>, t: Seq<char>, i: int)
    requires
        0 <= i < rows.len(),
        rows[i].table == t,
    ensures
        max_id(rows, t) is Some,
        rows[i].id <= max_id(rows, t).unwrap(),
    decreases rows.len(),
{
    if i < rows.len() - 1 {
        lemma_max_id_bound(rows.drop_last(), t, i);
    }
}

/// No row of table `t` has an id above `max_id`.
proof fn lemma_above_max_absent(rows: Seq<RowV>, t: Seq<char>, id: int)
    requires
        max_id(rows, t) is None || max_id(rows, t).unwrap() < id,
    ensures
        first_row(rows, t, id) is None,
{
    if first_row(rows, t, id) is Some {
        lemma_first_row_found(rows, t, id);
        lemma_max_id_bound(rows, t, first_row(rows, t, id).unwrap());
    }
}

proof fn lemma_keys()
    ensures
        "id"@ != "created_by"@,
        "id"@ != "updated_at"@,
        "insert"@ != "update"@,
        "insert"@ != "toggle"@,
        "insert"@ != "set"@,
        "update"@ != "toggle"@,
        "update"@ != "set"@,
        "toggle"@ != "set"@,
        "id"@ == seq!['i', 'd'],
{
    reveal_strlit("id");
    reveal_strlit("created_by");
    reveal_strlit("updated_at");
    reveal_strlit("insert");
    reveal_strlit("update");
    reveal_strlit("toggle");
    reveal_strlit("set");
    assert("id"@.len() != "created_by"@.len());
    assert("id"@.len() != "updated_at"@.len());
    assert("insert"@[2] != "update"@[2]);
    assert("insert"@.len() != "toggle"@.len() || "insert"@[0] != "toggle"@[0]);
    assert("insert"@.len() != "set"@.len());
    assert("update"@[0] != "toggle"@[0]);
    assert("update"@.len() != "set"@.len());
    assert("toggle"@.len() != "set"@.len());
}

/// A record that inserts a row under its own id.
pub open spec fn is_keyed_insert(p: RecordV) -> bool {
    &&& p.action == "insert"@
    &&& p.changes is Some
    &&& entries_map(p.changes.unwrap()).contains_key("id"@)
}

/// Replaying an insert that carries its id and does not collide with the
/// row already under that id leaves the working copy as one application did.
pub proof fn lemma_insert_idempotent(s: StoreV, p: RecordV, now: Seq<char>)
    requires
        is_keyed_insert(p),
        !collides(entries_map(p.changes.unwrap()), facts_of(s, p)),
    ensures
        apply_spec(apply_spec(s, p, now).0, p, now).0 == apply_spec(s, p, now).0,
{
    lemma_keys();
    let m = entries_map(p.changes.unwrap());
    let t = p.table;
    let id = p.target_id;
    let fields = m.insert("id"@, ValueV::Int(id));
    let row = RowV { table: t, id, fields };
    let op = OpV::Upsert { table: t, id: Some(id), fields };
    assert(effective_id(m, facts_of(s, p), id) == Some(id));
    assert(plan_spec(p, facts_of(s, p)).0 == seq![op]);
    lemma_run_one(s, op, now);
    let s1 = exec_op(s, op, now);
    let k = match first_row(s.rows, t, id) {
        Some(k) => {
            lemma_first_row_found(s.rows, t, id);
            lemma_first_row_update(s.rows, k, row, t, id);
            k
        },
        None => {
            lemma_first_row_push(s.rows, row, t, id);
            s.rows.len() as int
        },
    };
    assert(first_row(s1.rows, t, id) == Some(k));
    assert(s1.rows[k] == row);
    assert(text_field(fields, "created_by"@) == text_field(m, "created_by"@));
    assert(facts_of(s1, p).existing_created_by == text_field(m, "created_by"@));
    assert(!collides(m, facts_of(s1, p)));
    assert(plan_spec(p, facts_of(s1, p)).0 == seq![op]);
    lemma_run_one(s1, op, now);
    assert(s1.rows.update(k, row) =~= s1.rows);
}

proof fn lemma_without_reaction_clean(rs: Seq<ReactionV>, t: Seq<char>, parent: int, actor: Seq<char>, label: Seq<char>)
    ensures
        forall|j: int| 0 <= j < without_reaction(rs, t, parent, actor, label).len() ==> !same_reaction(
            #[trigger] without_reaction(rs, t, parent, actor, label)[j],
            t,
            parent,
            actor,
            label,
        ),
    decreases rs.len(),
{
    if rs.len() > 0 {
        lemma_without_reaction_clean(rs.drop_last(), t, parent, actor, label);
        let rest = without_reaction(rs.drop_last(), t, parent, actor, label);
        if !same_reaction(rs.last(), t, parent, actor, label) {
            assert forall|j: int| 0 <= j < rest.push(rs.last()).len() implies !same_reaction(
                #[trigger] rest.push(rs.last())[j],
                t,
                parent,
                actor,
                label,
            ) by {
                if j < rest.len() {
                    assert(rest.push(rs.last())[j] == rest[j]);
                }
            }
        }
    }
}

proof fn lemma_without_reaction_noop(rs: Seq<ReactionV>, t: Seq<char>, parent: int, actor: Seq<char>, label: Seq<char>)
    requires
        forall|j: int| 0 <= j < rs.len() ==> !same_reaction(#[trigger] rs[j], t, parent, actor, label),
    ensures
        without_reaction(rs, t, parent, actor, label) == rs,
    decreases rs.len(),
{
    if rs.len() > 0 {
        lemma_without_reaction_noop(rs.drop_last(), t, parent, actor, label);
        assert(rs.drop_last().push(rs.last()) =~= rs);
    }
}

/// Replaying a reaction toggle leaves the working copy as one application did.
pub proof fn lemma_toggle_idempotent(s: StoreV, p: RecordV, now: Seq<char>)
    requires
        p.action == "toggle"@,
    ensures
        apply_spec(apply_spec(s, p, now).0, p, now).0 == apply_spec(s, p, now).0,
{
    lemma_keys();
    let s1 = apply_spec(s, p, now).0;
    let plan = plan_spec(p, facts_of(s, p));
    assert(plan_spec(p, facts_of(s1, p)) == plan);
    if plan.0.len() == 0 {
        assert(s1 == s);
    } else {
        let op = plan.0[0];
        assert(plan.0 == seq![op]);
        lemma_run_one(s, op, now);
        lemma_run_one(s1, op, now);
        match op {
            OpV::RemoveReaction { table, parent, actor, label } => {
                lemma_without_reaction_clean(s.reactions, table, parent, actor, label);
                lemma_without_reaction_noop(s1.reactions, table, parent, actor, label);
            },
            OpV::AddReaction { table, parent, actor, label } => {
                if !(exists|j: int| 0 <= j < s.reactions.len() && same_reaction(#[trigger] s.reactions[j], table, parent, actor, label)) {
                    let j = s.reactions.len() as int;
                    assert(same_reaction(s1.reactions[j], table, parent, actor, label));
                }
            },
            _ => {},
        }
    }
}

/// The label names after creating each string of `l` that is missing.
pub open spec fn add_labels(labels: Seq<Seq<char>>, l: Seq<Option<Seq<char>>>) -> Seq<Seq<char>>
    decreases l.len(),
{
    if l.len() == 0 {
        labels
    } else {
        let b = add_labels(labels, l.drop_last());
        match l.last() {
            Some(n) => if b.contains(n) {
                b
            } else {
                b.push(n)
            },
            None => b,
        }
    }
}

/// The label assignments after assigning each string of `l` to `issue`.
pub open spec fn add_links(links: Seq<(int, Seq<char>)>, issue: int, l: Seq<Option<Seq<char>>>) -> Seq<(int, Seq<char>)>
    decreases l.len(),
{
    if l.len() == 0 {
        links
    } else {
        let b = add_links(links, issue, l.drop_last());
        match l.last() {
            Some(n) => if b.contains((issue, n)) {
                b
            } else {
                b.push((issue, n))
            },
            None => b,
        }
    }
}

proof fn lemma_run_links(s: StoreV, issue: int, l: Seq<Option<Seq<char>>>, now: Seq<char>)
    ensures
        run_ops(s, link_ops(issue, l), now) == (StoreV {
            labels: add_labels(s.labels, l),
            links: add_links(s.links, issue, l),
            ..s
        }),
    decreases l.len(),
{
    if l.len() > 0 {
        lemma_run_links(s, issue, l.drop_last(), now);
        match l.last() {
            Some(n) => {
                let ops = link_ops(issue, l);
                assert(ops.drop_last() == link_ops(issue, l.drop_last()));
            },
            None => {},
        }
    }
}

proof fn lemma_add_labels_covers(labels: Seq<Seq<char>>, l: Seq<Option<Seq<char>>>)
    ensures
        forall|j: int| 0 <= j < l.len() && (#[trigger] l[j]) is Some ==> add_labels(labels, l).contains(l[j].unwrap()),
        forall|x: Seq<char>| labels.contains(x) ==> #[trigger] add_labels(labels, l).contains(x),
    decreases l.len(),
{
    if l.len() > 0 {
        lemma_add_labels_covers(labels, l.drop_last());
        let b = add_labels(labels, l.drop_last());
        assert forall|x: Seq<char>| b.contains(x) implies #[trigger] add_labels(labels, l).contains(x) by {
            let i = choose|i: int| 0 <= i < b.len() && b[i] == x;
            match l.last() {
                Some(n) => if !b.contains(n) {
                    assert(b.push(n)[i] == x);
                },
                None => {},
            }
        }
        match l.last() {
            Some(n) => if !b.contains(n) {
                assert(b.push(n)[b.len() as int] == n);
            },
            None => {},
        }
        assert forall|j: int| 0 <= j < l.len() && (#[trigger] l[j]) is Some implies add_labels(labels, l).contains(l[j].unwrap()) by {
            if j < l.len() - 1 {
                assert(l.drop_last()[j] == l[j]);
            }
        }
    }
}

proof fn lemma_add_labels_present(labels: Seq<Seq<char>>, l: Seq<Option<Seq<char>>>)
    requires
        forall|j: int| 0 <= j < l.len() && (#[trigger] l[j]) is Some ==> labels.contains(l[j].unwrap()),
    ensures
        add_labels(labels, l) == labels,
    decreases l.len(),
{
    if l.len() > 0 {
        assert forall|j: int| 0 <= j < l.drop_last().len() && (#[trigger] l.drop_last()[j]) is Some implies labels.contains(l.drop_last()[j].unwrap()) by {
            assert(l.drop_last()[j] == l[j]);
        }
        lemma_add_labels_present(labels, l.drop_last());
        assert(l[l.len() - 1] == l.last());
    }
}

proof fn lemma_without_issue_add_links(links: Seq<(int, Seq<char>)>, issue: int, l: Seq<Option<Seq<char>>>)
    ensures
        without_issue(add_links(links, issue, l), issue) == without_issue(links, issue),
    decreases l.len(),
{
    if l.len() > 0 {
        lemma_without_issue_add_links(links, issue, l.drop_last());
        let b = add_links(links, issue, l.drop_last());
        match l.last() {
            Some(n) => if !b.contains((issue, n)) {
                assert(b.push((issue, n)).drop_last() == b);
            },
            None => {},
        }
    }
}

proof fn lemma_without_issue_idempotent(links: Seq<(int, Seq<char>)>, issue: int)
    ensures
        without_issue(without_issue(links, issue), issue) == without_issue(links, issue),
    decreases links.len(),
{
    if links.len() > 0 {
        lemma_without_issue_idempotent(links.drop_last(), issue);
        let rest = without_issue(links.drop_last(), issue);
        if links.last().0 != issue {
            assert(rest.push(links.last()).drop_last() == rest);
        }
    }
}

/// Replaying a label-set replacement leaves the working copy as one
/// application did.
pub proof fn lemma_set_idempotent(s: StoreV, p: RecordV, now: Seq<char>)
    requires
        p.action == "set"@,
    ensures
        apply_spec(apply_spec(s, p, now).0, p, now).0 == apply_spec(s, p, now).0,
{
    lemma_keys();
    let s1 = apply_spec(s, p, now).0;
    let plan = plan_spec(p, facts_of(s, p));
    assert(plan_spec(p, facts_of(s1, p)) == plan);
    if plan.0.len() > 0 {
        let m = entries_map(p.changes.unwrap());
        let l = list_field(m, "labels"@).unwrap();
        let issue = p.target_id;
        let clear = OpV::ClearLabels { issue_id: issue };
        assert(plan.0 == seq![clear] + link_ops(issue, l));
        lemma_run_append(s, seq![clear], link_ops(issue, l), now);
        lemma_run_one(s, clear, now);
        let c0 = exec_op(s, clear, now);
        lemma_run_links(c0, issue, l, now);
        lemma_run_append(s1, seq![clear], link_ops(issue, l), now);
        lemma_run_one(s1, clear, now);
        let c1 = exec_op(s1, clear, now);
        lemma_without_issue_add_links(c0.links, issue, l);
        lemma_without_issue_idempotent(s.links, issue);
        assert(c1.links == c0.links);
        lemma_run_links(c1, issue, l, now);
        lemma_add_labels_covers(s.labels, l);
        lemma_add_labels_present(s1.labels, l);
    }
}

proof fn lemma_patched_get(m: Map<Seq<char>, ValueV>, p: Seq<(Seq<char>, ValueV)>, k: Seq<char>)
    ensures
        patched(m, p).contains_key(k) == (entries_map(p).contains_key(k) || m.contains_key(k)),
        entries_map(p).contains_key(k) ==> patched(m, p)[k] == entries_map(p)[k],
        !entries_map(p).contains_key(k) ==> patched(m, p)[k] == m[k],
    decreases p.len(),
{
    if p.len() > 0 {
        lemma_patched_get(m, p.drop_last(), k);
    }
}

proof fn lemma_patched_absorb(m: Map<Seq<char>, ValueV>, first: Seq<(Seq<char>, ValueV)>, second: Seq<(Seq<char>, ValueV)>)
    requires
        forall|k: Seq<char>| entries_map(first).contains_key(k) ==> #[trigger] entries_map(second).contains_key(k),
    ensures
        patched(patched(m, first), second) == patched(m, second),
{
    assert forall|k: Seq<char>| #[trigger] patched(patched(m, first), second).contains_key(k) == patched(m, second).contains_key(k)
        && (patched(m, second).contains_key(k) ==> patched(patched(m, first), second)[k] == patched(m, second)[k]) by {
        lemma_patched_get(m, first, k);
        lemma_patched_get(patched(m, first), second, k);
        lemma_patched_get(m, second, k);
    }
    assert(patched(patched(m, first), second) =~= patched(m, second));
}

/// A record that leaves the `id` of its target row as it is.
pub open spec fn keeps_id(p: RecordV) -> bool {
    let m = entries_map(p.changes.unwrap());
    !m.contains_key("id"@) || m["id"@] == ValueV::Int(p.target_id)
}

/// An update record whose `updated_at` is the text `t` and which leaves its
/// row's id as it is.
pub open spec fn is_stamped_update(p: RecordV, t: Seq<char>) -> bool {
    &&& p.action == "update"@
    &&& p.changes is Some
    &&& text_field(entries_map(p.changes.unwrap()), "updated_at"@) == Some(t)
    &&& keeps_id(p)
}

proof fn lemma_asymmetric(a: Seq<char>, b: Seq<char>)
    requires
        text_lt(a, b),
    ensures
        !text_lt(b, a),
{
    if text_lt(b, a) {
        lemma_text_lt_transitive(a, b, a);
        lemma_text_lt_irreflexive(a);
    }
}

/// After an update stamped `t` is applied to an existing row, that row's
/// `updated_at` is `t`.
proof fn lemma_update_applied(s: StoreV, r: RecordV, t: Seq<char>, now: Seq<char>)
    requires
        is_stamped_update(r, t),
        first_row(s.rows, r.table, r.target_id) is Some,
        !lww_loss(entries_map(r.changes.unwrap()), facts_of(s, r)),
    ensures
        ({
            let k = first_row(s.rows, r.table, r.target_id).unwrap();
            let row = s.rows[k];
            let row2 = RowV { fields: patched(row.fields, r.changes.unwrap()), ..row };
            &&& apply_spec(s, r, now).0 == StoreV { rows: s.rows.update(k, row2), ..s }
            &&& apply_spec(s, r, now).1
            &&& first_row(s.rows.update(k, row2), r.table, r.target_id) == Some(k)
            &&& target_text(apply_spec(s, r, now).0, r, "updated_at"@) == Some(t)
        }),
{
    lemma_keys();
    let k = first_row(s.rows, r.table, r.target_id).unwrap();
    lemma_first_row_found(s.rows, r.table, r.target_id);
    let row = s.rows[k];
    let row2 = RowV { fields: patched(row.fields, r.changes.unwrap()), ..row };
    let op = OpV::Patch { table: r.table, id: r.target_id, fields: r.changes.unwrap() };
    assert(plan_spec(r, facts_of(s, r)).0 == seq![op]);
    assert(patched_id(r.changes.unwrap(), r.target_id) == Some(r.target_id));
    lemma_run_one(s, op, now);
    lemma_first_row_update(s.rows, k, row2, r.table, r.target_id);
    lemma_patched_get(row.fields, r.changes.unwrap(), "updated_at"@);
}

/// An update applied after a later-stamped update of the same row changes
/// nothing.
pub proof fn lemma_lww_earlier_after_later(s: StoreV, r1: RecordV, r2: RecordV, t1: Seq<char>, t2: Seq<char>, now: Seq<char>)
    requires
        is_stamped_update(r1, t1),
        is_stamped_update(r2, t2),
        r1.table == r2.table,
        r1.target_id == r2.target_id,
        text_lt(t1, t2),
    ensures
        apply_spec(apply_spec(s, r2, now).0, r1, now).0 == apply_spec(s, r2, now).0,
{
    lemma_keys();
    let s2 = apply_spec(s, r2, now).0;
    let m1 = entries_map(r1.changes.unwrap());
    let m2 = entries_map(r2.changes.unwrap());
    let t = r1.table;
    let id = r1.target_id;
    if first_row(s.rows, t, id) is None {
        let op2 = OpV::Patch { table: t, id, fields: r2.changes.unwrap() };
        if !lww_loss(m2, facts_of(s, r2)) {
            lemma_run_one(s, op2, now);
        }
        assert(s2 == s);
        let op1 = OpV::Patch { table: t, id, fields: r1.changes.unwrap() };
        if !lww_loss(m1, facts_of(s, r1)) {
            lemma_run_one(s, op1, now);
        }
    } else if lww_loss(m2, facts_of(s, r2)) {
        assert(s2 == s);
        let local = facts_of(s, r2).local_updated_at.unwrap();
        lemma_text_lt_transitive(t1, t2, local);
        assert(facts_of(s, r1) == facts_of(s, r2));
        assert(lww_loss(m1, facts_of(s, r1)));
    } else {
        lemma_update_applied(s, r2, t2, now);
        assert(facts_of(s2, r1).local_updated_at == Some(t2));
        assert(lww_loss(m1, facts_of(s2, r1)));
    }
}

/// Two updates of one row, the first stamped earlier and patching no column
/// that the later one leaves out, give in either order the working copy that
/// the later one alone gives.
pub proof fn lemma_lww_order_independent(s: StoreV, r1: RecordV, r2: RecordV, t1: Seq<char>, t2: Seq<char>, now: Seq<char>)
    requires
        is_stamped_update(r1, t1),
        is_stamped_update(r2, t2),
        r1.table == r2.table,
        r1.target_id == r2.target_id,
        text_lt(t1, t2),
        forall|k: Seq<char>| entries_map(r1.changes.unwrap()).contains_key(k) ==> #[trigger] entries_map(r2.changes.unwrap()).contains_key(k),
    ensures
        apply_spec(apply_spec(s, r1, now).0, r2, now).0 == apply_spec(s, r2, now).0,
        apply_spec(apply_spec(s, r2, now).0, r1, now).0 == apply_spec(s, r2, now).0,
{
    lemma_keys();
    lemma_lww_earlier_after_later(s, r1, r2, t1, t2, now);
    let s1 = apply_spec(s, r1, now).0;
    let m1 = entries_map(r1.changes.unwrap());
    let m2 = entries_map(r2.changes.unwrap());
    let t = r1.table;
    let id = r1.target_id;
    let op1 = OpV::Patch { table: t, id, fields: r1.changes.unwrap() };
    if first_row(s.rows, t, id) is None {
        if !lww_loss(m1, facts_of(s, r1)) {
            lemma_run_one(s, op1, now);
        }
        assert(s1 == s);
    } else if lww_loss(m1, facts_of(s, r1)) {
        assert(s1 == s);
    } else {
        lemma_update_applied(s, r1, t1, now);
        let k = first_row(s.rows, t, id).unwrap();
        lemma_first_row_found(s.rows, t, id);
        lemma_asymmetric(t1, t2);
        assert(facts_of(s1, r2).local_updated_at == Some(t1));
        assert(!lww_loss(m2, facts_of(s1, r2)));
        assert(first_row(s1.rows, t, id) == Some(k));
        lemma_update_applied(s1, r2, t2, now);
        if lww_loss(m2, facts_of(s, r2)) {
            let local = facts_of(s, r2).local_updated_at.unwrap();
            lemma_text_lt_transitive(t1, t2, local);
            assert(facts_of(s, r1) == facts_of(s, r2));
        }
        lemma_update_applied(s, r2, t2, now);
        lemma_patched_absorb(s.rows[k].fields, r1.changes.unwrap(), r2.changes.unwrap());
        assert(s1.rows.update(k, RowV { fields: patched(s1.rows[k].fields, r2.changes.unwrap()), ..s1.rows[k] })
            =~= s.rows.update(k, RowV { fields: patched(s.rows[k].fields, r2.changes.unwrap()), ..s.rows[k] }));
    }
}

/// The row that a keyed insert writes.
pub open spec fn inserted_row(s: StoreV, p: RecordV) -> RowV {
    let m = entries_map(p.changes.unwrap());
    let e = effective_id(m, facts_of(s, p), p.target_id).unwrap();
    RowV { table: p.table, id: e, fields: m.insert("id"@, ValueV::Int(e)) }
}

proof fn lemma_keyed_insert_step(s: StoreV, p: RecordV, now: Seq<char>)
    requires
        is_keyed_insert(p),
        effective_id(entries_map(p.changes.unwrap()), facts_of(s, p), p.target_id) is Some,
    ensures
        ({
            let row = inserted_row(s, p);
            let s1 = apply_spec(s, p, now).0;
            &&& s1.reactions == s.reactions
            &&& match first_row(s.rows, p.table, row.id) {
                Some(k) => 0 <= k < s.rows.len() && s.rows[k].table == row.table && s.rows[k].id == row.id
                    && s1.rows == s.rows.update(k, row),
                None => s1.rows == s.rows.push(row),
            }
        }),
{
    lemma_keys();
    let row = inserted_row(s, p);
    let op = OpV::Upsert { table: p.table, id: Some(row.id), fields: row.fields };
    assert(plan_spec(p, facts_of(s, p)).0 == seq![op]);
    lemma_run_one(s, op, now);
    if first_row(s.rows, p.table, row.id) is Some {
        lemma_first_row_found(s.rows, p.table, row.id);
    }
}

/// Rows `i` and `j` are distinct rows of `first`'s table, with distinct ids,
/// holding the fields of `first` and of `second` under their own ids.
pub open spec fn holds_both(rows: Seq<RowV>, first: RecordV, second: RecordV, i: int, j: int) -> bool {
    &&& 0 <= i < rows.len()
    &&& 0 <= j < rows.len()
    &&& i != j
    &&& rows[i].table == first.table
    &&& rows[j].table == first.table
    &&& rows[i].id != rows[j].id
    &&& rows[i].fields == entries_map(first.changes.unwrap()).insert("id"@, ValueV::Int(rows[i].id))
    &&& rows[j].fields == entries_map(second.changes.unwrap()).insert("id"@, ValueV::Int(rows[j].id))
}

/// Two inserts of one table under one id by different authors leave two
/// rows with distinct ids, each holding its own record's fields, where the
/// ids that reassignment hands out stay below the largest row id. Where the
/// table had no row under that id, the first keeps it and the second lands
/// one past the largest id that the first left.
pub proof fn lemma_collision_safety(s: StoreV, first: RecordV, second: RecordV, a: Seq<char>, b: Seq<char>, now: Seq<char>)
    requires
        is_keyed_insert(first),
        is_keyed_insert(second),
        first.table == second.table,
        first.target_id == second.target_id,
        text_field(entries_map(first.changes.unwrap()), "created_by"@) == Some(a),
        text_field(entries_map(second.changes.unwrap()), "created_by"@) == Some(b),
        a != b,
        i32::MIN <= first.target_id <= i32::MAX,
        max_id(s.rows, first.table) is Some ==> max_id(s.rows, first.table).unwrap() + 2 <= i64::MAX,
    ensures
        exists|i: int, j: int| #[trigger] holds_both(apply_spec(apply_spec(s, first, now).0, second, now).0.rows, first, second, i, j),
        first_row(s.rows, first.table, first.target_id) is None ==> exists|i: int, j: int|
            #[trigger] holds_both(apply_spec(apply_spec(s, first, now).0, second, now).0.rows, first, second, i, j)
            && apply_spec(apply_spec(s, first, now).0, second, now).0.rows[i].id == first.target_id
            && apply_spec(apply_spec(s, first, now).0, second, now).0.rows[j].id
                == max_id(apply_spec(s, first, now).0.rows, first.table).unwrap() + 1,
{
    lemma_keys();
    let t = first.table;
    let id = first.target_id;
    let m1 = entries_map(first.changes.unwrap());
    let m2 = entries_map(second.changes.unwrap());
    let s1 = apply_spec(s, first, now).0;
    let s2 = apply_spec(s1, second, now).0;
    let r1 = inserted_row(s, first);
    let e1 = r1.id;
    if collides(m1, facts_of(s, first)) {
        let k0 = first_row(s.rows, t, id).unwrap();
        lemma_first_row_found(s.rows, t, id);
        lemma_max_id_bound(s.rows, t, k0);
        assert(effective_id(m1, facts_of(s, first), id) == Some(max_id(s.rows, t).unwrap() + 1));
        assert(e1 == max_id(s.rows, t).unwrap() + 1);
        lemma_above_max_absent(s.rows, t, e1);
    } else {
        assert(e1 == id);
    }
    lemma_keyed_insert_step(s, first, now);
    let k1 = match first_row(s.rows, t, e1) {
        Some(k) => {
            lemma_first_row_update(s.rows, k, r1, t, e1);
            lemma_first_row_update(s.rows, k, r1, t, id);
            k
        },
        None => {
            lemma_first_row_push(s.rows, r1, t, e1);
            lemma_first_row_push(s.rows, r1, t, id);
            s.rows.len() as int
        },
    };
    assert(s1.rows[k1] == r1);
    assert(first_row(s1.rows, t, e1) == Some(k1));
    lemma_max_id_bound(s1.rows, t, k1);
    // the largest id of the table after the first insert stays below the limit
    assert(max_id(s1.rows, t).unwrap() + 1 <= i64::MAX);
    let r2 = inserted_row(s1, second);
    let e2 = r2.id;
    if collides(m2, facts_of(s1, second)) {
        assert(effective_id(m2, facts_of(s1, second), id) == Some(max_id(s1.rows, t).unwrap() + 1));
    }
    lemma_keyed_insert_step(s1, second, now);
    if first_row(s.rows, t, id) is None {
        assert(facts_of(s, first).existing_created_by is None);
        assert(e1 == id);
        assert(first_row(s1.rows, t, id) == Some(k1));
        assert(facts_of(s1, second).existing_created_by == Some(a));
        assert(collides(m2, facts_of(s1, second)));
    }
    if collides(m2, facts_of(s1, second)) {
        let k = first_row(s1.rows, t, id).unwrap();
        lemma_first_row_found(s1.rows, t, id);
        lemma_max_id_bound(s1.rows, t, k);
        assert(e2 == max_id(s1.rows, t).unwrap() + 1);
        lemma_above_max_absent(s1.rows, t, e2);
        assert(s2.rows == s1.rows.push(r2));
        let j = s1.rows.len() as int;
        assert(s2.rows[k1] == r1);
        assert(s2.rows[j] == r2);
        assert(holds_both(s2.rows, first, second, k1, j));
    } else {
        assert(e2 == id);
        if e1 == id {
            // the first insert kept the target id, so the second one collides with it
            assert(facts_of(s1, second).existing_created_by == text_field(r1.fields, "created_by"@));
            assert(text_field(r1.fields, "created_by"@) == Some(a));
            assert(false);
        }
        match first_row(s1.rows, t, id) {
            Some(k2) => {
                lemma_first_row_found(s1.rows, t, id);
                assert(k2 != k1);
                assert(s2.rows[k1] == r1);
                assert(s2.rows[k2] == r2);
                assert(holds_both(s2.rows, first, second, k1, k2));
            },
            None => {
                let j = s1.rows.len() as int;
                assert(s2.rows[k1] == r1);
                assert(s2.rows[j] == r2);
                assert(holds_both(s2.rows, first, second, k1, j));
            },
        }
    }
}

/// A keyed insert lands wherever an id is left for it: afterwards the row
/// of its table under its effective id holds the record's fields.
pub proof fn lemma_insert_reflected(s: StoreV, p: RecordV, now: Seq<char>)
    requires
        is_keyed_insert(p),
        effective_id(entries_map(p.changes.unwrap()), facts_of(s, p), p.target_id) is Some,
    ensures
        ({
            let s1 = apply_spec(s, p, now).0;
            let row = inserted_row(s, p);
            &&& first_row(s1.rows, p.table, row.id) is Some
            &&& s1.rows[first_row(s1.rows, p.table, row.id).unwrap()] == row
        }),
{
    let row = inserted_row(s, p);
    lemma_keyed_insert_step(s, p, now);
    match first_row(s.rows, p.table, row.id) {
        Some(k) => lemma_first_row_update(s.rows, k, row, p.table, row.id),
        None => lemma_first_row_push(s.rows, row, p.table, row.id),
    }
}

/// An update of an existing row that keeps the row's id either lands,
/// every column it carries then holding the record's value, or loses to a local
/// `updated_at` that sorts strictly after its own.
pub proof fn lemma_update_reflected(s: StoreV, p: RecordV, now: Seq<char>)
    requires
        p.action == "update"@,
        p.changes is Some,
        keeps_id(p),
        first_row(s.rows, p.table, p.target_id) is Some,
    ensures
        ({
            let m = entries_map(p.changes.unwrap());
            let s1 = apply_spec(s, p, now).0;
            let k = first_row(s1.rows, p.table, p.target_id);
            ||| lww_loss(m, facts_of(s, p)) && s1 == s
            ||| k is Some && forall|c: Seq<char>| #[trigger] m.contains_key(c) ==> s1.rows[k.unwrap()].fields.contains_key(c)
                && s1.rows[k.unwrap()].fields[c] == m[c]
        }),
{
    lemma_keys();
    let m = entries_map(p.changes.unwrap());
    if !lww_loss(m, facts_of(s, p)) {
        let k = first_row(s.rows, p.table, p.target_id).unwrap();
        lemma_first_row_found(s.rows, p.table, p.target_id);
        let row = s.rows[k];
        let row2 = RowV { fields: patched(row.fields, p.changes.unwrap()), ..row };
        let op = OpV::Patch { table: p.table, id: p.target_id, fields: p.changes.unwrap() };
        assert(plan_spec(p, facts_of(s, p)).0 == seq![op]);
        lemma_run_one(s, op, now);
        lemma_first_row_update(s.rows, k, row2, p.table, p.target_id);
        assert(patched_id(p.changes.unwrap(), p.target_id) == Some(p.target_id));
        assert forall|c: Seq<char>| #[trigger] m.contains_key(c) implies row2.fields.contains_key(c)
            && row2.fields[c] == m[c] by {
            lemma_patched_get(row.fields, p.changes.unwrap(), c);
        }
    }
}

/// A reaction toggle lands: afterwards the actor's reaction of the label is
/// present where the record adds it and absent where it removes it.
pub proof fn lemma_toggle_reflected(s: StoreV, p: RecordV, now: Seq<char>, actor: Seq<char>, label: Seq<char>, deleted: bool)
    requires
        p.action == "toggle"@,
        p.changes is Some,
        is_reaction_table(p.table),
        toggle_flag(entries_map(p.changes.unwrap())) == Some(deleted),
        text_field(entries_map(p.changes.unwrap()), "reacted_by"@) == Some(actor),
        text_field(entries_map(p.changes.unwrap()), "reaction"@) == Some(label),
    ensures
        ({
            let rs = apply_spec(s, p, now).0.reactions;
            deleted == !exists|j: int| 0 <= j < rs.len() && same_reaction(#[trigger] rs[j], p.table, p.target_id, actor, label)
        }),
{
    lemma_keys();
    let op = if deleted {
        OpV::RemoveReaction { table: p.table, parent: p.target_id, actor, label }
    } else {
        OpV::AddReaction { table: p.table, parent: p.target_id, actor, label }
    };
    assert(plan_spec(p, facts_of(s, p)).0 == seq![op]);
    lemma_run_one(s, op, now);
    let rs = apply_spec(s, p, now).0.reactions;
    if deleted {
        lemma_without_reaction_clean(s.reactions, p.table, p.target_id, actor, label);
    } else if !(exists|j: int| 0 <= j < s.reactions.len() && same_reaction(#[trigger] s.reactions[j], p.table, p.target_id, actor, label)) {
        assert(same_reaction(rs[s.reactions.len() as int], p.table, p.target_id, actor, label));
    }
}


/// Replaying an update leaves the working copy as one application did.
pub proof fn lemma_update_idempotent(s: StoreV, p: RecordV, now: Seq<char>)
    requires
        p.action == "update"@,
    ensures
        apply_spec(apply_spec(s, p, now).0, p, now).0 == apply_spec(s, p, now).0,
{
    lemma_keys();
    let s1 = apply_spec(s, p, now).0;
    if p.changes is Some {
        let m = entries_map(p.changes.unwrap());
        let t = p.table;
        let id = p.target_id;
        let op = OpV::Patch { table: t, id, fields: p.changes.unwrap() };
        if lww_loss(m, facts_of(s, p)) {
            assert(s1 == s);
        } else if first_row(s.rows, t, id) is None {
            lemma_run_one(s, op, now);
            assert(s1 == s);
        } else {
            let k = first_row(s.rows, t, id).unwrap();
            lemma_first_row_found(s.rows, t, id);
            lemma_run_one(s, op, now);
            let row = s.rows[k];
            match patched_id(p.changes.unwrap(), id) {
                None => {
                    assert(s1 == s);
                },
                Some(n) => {
                    if n != id && first_row(s.rows, t, n) is Some {
                        assert(s1 == s);
                    } else if n == id {
                        let row2 = RowV { table: t, id, fields: patched(row.fields, p.changes.unwrap()) };
                        assert(row2 == RowV { fields: patched(row.fields, p.changes.unwrap()), ..row });
                        lemma_first_row_update(s.rows, k, row2, t, id);
                        assert(s1.rows == s.rows.update(k, row2));
                        lemma_patched_get(row.fields, p.changes.unwrap(), "updated_at"@);
                        if text_field(m, "updated_at"@) is Some {
                            lemma_text_lt_irreflexive(text_field(m, "updated_at"@).unwrap());
                            assert(facts_of(s1, p).local_updated_at == text_field(m, "updated_at"@));
                        }
                        assert(!lww_loss(m, facts_of(s1, p)));
                        lemma_run_one(s1, op, now);
                        lemma_patched_absorb(row.fields, p.changes.unwrap(), p.changes.unwrap());
                        assert(s1.rows.update(k, RowV { table: t, id, fields: patched(row2.fields, p.changes.unwrap()) }) =~= s1.rows);
                    } else {
                        // the row moved to `n`; a second application finds it taken
                        let row2 = RowV { table: t, id: n, fields: patched(row.fields, p.changes.unwrap()) };
                        assert(s1.rows == s.rows.update(k, row2));
                        lemma_first_row_exists(s1.rows, k, t, n);
                        if plan_spec(p, facts_of(s1, p)).0.len() > 0 {
                            lemma_run_one(s1, op, now);
                            if first_row(s1.rows, t, id) is Some {
                                assert(exec_op(s1, op, now) == s1);
                            }
                        }
                    }
                },
            }
        }
    }
}


proof fn lemma_add_links_covers(links: Seq<(int, Seq<char>)>, issue: int, l: Seq<Option<Seq<char>>>)
    ensures
        forall|j: int| 0 <= j < l.len() && (#[trigger] l[j]) is Some ==> add_links(links, issue, l).contains((issue, l[j].unwrap())),
    decreases l.len(),
{
    if l.len() > 0 {
        lemma_add_links_covers(links, issue, l.drop_last());
        let b = add_links(links, issue, l.drop_last());
        assert forall|j: int| 0 <= j < l.len() && (#[trigger] l[j]) is Some implies add_links(links, issue, l).contains((issue, l[j].unwrap())) by {
            if j < l.len() - 1 {
                assert(l.drop_last()[j] == l[j]);
                let x = choose|x: int| 0 <= x < b.len() && b[x] == (issue, l[j].unwrap());
                match l.last() {
                    Some(n) => if !b.contains((issue, n)) {
                        assert(b.push((issue, n))[x] == b[x]);
                    },
                    None => {},
                }
            } else {
                assert(l[j] == l.last());
                let n = l[j].unwrap();
                if !b.contains((issue, n)) {
                    assert(b.push((issue, n))[b.len() as int] == (issue, n));
                }
            }
        }
    }
}

/// A record that the applier can act on: a keyed insert with an id left
/// for it, an update of an existing row that keeps its id, a toggle of a
/// reaction naming actor and label, or a label-set replacement with a list.
pub open spec fn actionable(s: StoreV, p: RecordV) -> bool {
    let m = entries_map(p.changes.unwrap());
    &&& p.changes is Some
    &&& {
        ||| is_keyed_insert(p) && effective_id(m, facts_of(s, p), p.target_id) is Some
        ||| p.action == "update"@ && keeps_id(p) && first_row(s.rows, p.table, p.target_id) is Some
        ||| p.action == "toggle"@ && is_reaction_table(p.table) && text_field(m, "reacted_by"@) is Some
            && text_field(m, "reaction"@) is Some && toggle_flag(m) is Some
        ||| p.action == "set"@ && p.table == "issue_labels"@ && list_field(m, "labels"@) is Some
    }
}

/// Record `p`, applied to `s`, stands in `s1`: the inserted row under its
/// id; every updated column with the record's value; the toggled reaction
/// present or absent as asked; every listed label assigned.
pub open spec fn lands(s1: StoreV, s: StoreV, p: RecordV) -> bool {
    let m = entries_map(p.changes.unwrap());
    if p.action == "insert"@ {
        let row = inserted_row(s, p);
        first_row(s1.rows, p.table, row.id) is Some && s1.rows[first_row(s1.rows, p.table, row.id).unwrap()] == row
    } else if p.action == "update"@ {
        let k = first_row(s1.rows, p.table, p.target_id);
        k is Some && forall|c: Seq<char>| #[trigger] m.contains_key(c) ==> s1.rows[k.unwrap()].fields.contains_key(c)
            && s1.rows[k.unwrap()].fields[c] == m[c]
    } else if p.action == "toggle"@ {
        let actor = text_field(m, "reacted_by"@).unwrap();
        let label = text_field(m, "reaction"@).unwrap();
        toggle_flag(m) == Some(!exists|j: int| 0 <= j < s1.reactions.len() && same_reaction(#[trigger] s1.reactions[j], p.table, p.target_id, actor, label))
    } else {
        let l = list_field(m, "labels"@).unwrap();
        forall|j: int| 0 <= j < l.len() && (#[trigger] l[j]) is Some ==> s1.links.contains((p.target_id, l[j].unwrap()))
    }
}

/// No record the applier can act on vanishes: applied, it stands in the
/// working copy, unless it is an update that loses to a local `updated_at`
/// sorting strictly after its own.
pub proof fn lemma_no_loss(s: StoreV, p: RecordV, now: Seq<char>)
    requires
        actionable(s, p),
    ensures
        lands(apply_spec(s, p, now).0, s, p) || lww_loss(entries_map(p.changes.unwrap()), facts_of(s, p)),
{
    lemma_keys();
    let m = entries_map(p.changes.unwrap());
    if p.action == "insert"@ {
        lemma_insert_reflected(s, p, now);
    } else if p.action == "update"@ {
        lemma_update_reflected(s, p, now);
    } else if p.action == "toggle"@ {
        let actor = text_field(m, "reacted_by"@).unwrap();
        let label = text_field(m, "reaction"@).unwrap();
        lemma_toggle_reflected(s, p, now, actor, label, toggle_flag(m).unwrap());
    } else {
        let l = list_field(m, "labels"@).unwrap();
        let issue = p.target_id;
        let clear = OpV::ClearLabels { issue_id: issue };
        assert(plan_spec(p, facts_of(s, p)).0 == seq![clear] + link_ops(issue, l));
        lemma_run_append(s, seq![clear], link_ops(issue, l), now);
        lemma_run_one(s, clear, now);
        let c0 = exec_op(s, clear, now);
        lemma_run_links(c0, issue, l, now);
        lemma_add_links_covers(c0.links, issue, l);
    }
}

} // verus!

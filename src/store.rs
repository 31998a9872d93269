//! The local working copy as the synchronization engine sees it: entity rows
//! keyed by table and id, reactions, labels and label assignments; and the
//! operations that a change record turns into.
//!
//! `Store` holds a working copy in memory and gives each operation its
//! meaning. A working copy kept in a relational database carries out the
//! same operations as statements; the applier decides them alike for both.

use vstd::prelude::*;
use crate::value::{
    FieldValue, ValueV, entries_map, entries_view, entry_view, copy_entries, text_eq, find_entry,
    lemma_entries_map_overwrite,
};

verus! {

/// A row of an entity table (issues, comments, milestones).
pub struct Row {
    pub table: String,
    pub id: i64,
    pub fields: Vec<(String, FieldValue)>,
}

pub struct RowV {
    pub table: Seq<char>,
    pub id: int,
    pub fields: Map<Seq<char>, ValueV>,
}

impl View for Row {
    type V = RowV;

    open spec fn view(&self) -> RowV {
        RowV { table: self.table@, id: self.id as int, fields: entries_map(entries_view(self.fields@)) }
    }
}

/// One actor's reaction of one label to a parent entity.
pub struct Reaction {
    pub table: String,
    pub parent: i64,
    pub actor: String,
    pub label: String,
    pub created_at: String,
}

pub struct ReactionV {
    pub table: Seq<char>,
    pub parent: int,
    pub actor: Seq<char>,
    pub label: Seq<char>,
    pub created_at: Seq<char>,
}

impl View for Reaction {
    type V = ReactionV;

    open spec fn view(&self) -> ReactionV {
        ReactionV {
            table: self.table@,
            parent: self.parent as int,
            actor: self.actor@,
            label: self.label@,
            created_at: self.created_at@,
        }
    }
}

/// The assignment of a label, by name, to an issue.
pub struct LabelLink {
    pub issue_id: i64,
    pub label: String,
}

impl View for LabelLink {
    type V = (int, Seq<char>);

    open spec fn view(&self) -> (int, Seq<char>) {
        (self.issue_id as int, self.label@)
    }
}

/// The working copy.
pub struct Store {
    pub rows: Vec<Row>,
    pub reactions: Vec<Reaction>,
    pub labels: Vec<String>,
    pub links: Vec<LabelLink>,
}

pub struct StoreV {
    pub rows: Seq<RowV>,
    pub reactions: Seq<ReactionV>,
    pub labels: Seq<Seq<char>>,
    pub links: Seq<(int, Seq<char>)>,
}

impl View for Store {
    type V = StoreV;

    open spec fn view(&self) -> StoreV {
        StoreV {
            rows: self.rows@.map_values(|r: Row| r@),
            reactions: self.reactions@.map_values(|r: Reaction| r@),
            labels: self.labels@.map_values(|l: String| l@),
            links: self.links@.map_values(|l: LabelLink| l@),
        }
    }
}

/// One change to the working copy.
pub enum StoreOp {
    /// Insert a row, replacing the row of the same table and id; with no id
    /// the row gets the next id of its table.
    Upsert { table: String, id: Option<i64>, fields: Vec<(String, FieldValue)> },
    /// Set the given columns of a row, if it exists; a new `id` moves the
    /// row, unless another row of the table has that id.
    Patch { table: String, id: i64, fields: Vec<(String, FieldValue)> },
    /// Remove an actor's reaction of a label, if present.
    RemoveReaction { table: String, parent: i64, actor: String, label: String },
    /// Add an actor's reaction of a label, unless present.
    AddReaction { table: String, parent: i64, actor: String, label: String },
    /// Remove every label assignment of an issue.
    ClearLabels { issue_id: i64 },
    /// Create the label if missing and assign it to the issue, unless assigned.
    LinkLabel { issue_id: i64, label: String },
}

pub enum OpV {
    Upsert { table: Seq<char>, id: Option<int>, fields: Map<Seq<char>, ValueV> },
    Patch { table: Seq<char>, id: int, fields: Seq<(Seq<char>, ValueV)> },
    RemoveReaction { table: Seq<char>, parent: int, actor: Seq<char>, label: Seq<char> },
    AddReaction { table: Seq<char>, parent: int, actor: Seq<char>, label: Seq<char> },
    ClearLabels { issue_id: int },
    LinkLabel { issue_id: int, label: Seq<char> },
}

impl View for StoreOp {
    type V = OpV;

    open spec fn view(&self) -> OpV {
        match self {
            StoreOp::Upsert { table, id, fields } => OpV::Upsert {
                table: table@,
                id: match id {
                    Some(i) => Some(*i as int),
                    None => None,
                },
                fields: entries_map(entries_view(fields@)),
            },
            StoreOp::Patch { table, id, fields } => OpV::Patch {
                table: table@,
                id: *id as int,
                fields: entries_view(fields@),
            },
            StoreOp::RemoveReaction { table, parent, actor, label } => OpV::RemoveReaction {
                table: table@,
                parent: *parent as int,
                actor: actor@,
                label: label@,
            },
            StoreOp::AddReaction { table, parent, actor, label } => OpV::AddReaction {
                table: table@,
                parent: *parent as int,
                actor: actor@,
                label: label@,
            },
            StoreOp::ClearLabels { issue_id } => OpV::ClearLabels { issue_id: *issue_id as int },
            StoreOp::LinkLabel { issue_id, label } => OpV::LinkLabel {
                issue_id: *issue_id as int,
                label: label@,
            },
        }
    }
}

pub open spec fn ops_view(ops: Seq<StoreOp>) -> Seq<OpV> {
    ops.map_values(|o: StoreOp| o@)
}

/// The first row of table `t` with id `id`.
pub open spec fn first_row(rows: Seq<RowV>, t: Seq<char>, id: int) -> Option<int>
    decreases rows.len(),
{
    if rows.len() == 0 {
        None
    } else {
        match first_row(rows.drop_last(), t, id) {
            Some(i) => Some(i),
            None => if rows.last().table == t && rows.last().id == id {
                Some(rows.len() - 1)
            } else {
                None
            },
        }
    }
}

/// The largest id in table `t`, if the table has a row.
pub open spec fn max_id(rows: Seq<RowV>, t: Seq<char>) -> Option<int>
    decreases rows.len(),
{
    if rows.len() == 0 {
        None
    } else {
        let m = max_id(rows.drop_last(), t);
        let r = rows.last();
        if r.table == t {
            match m {
                None => Some(r.id),
                Some(x) => Some(if r.id > x { r.id } else { x }),
            }
        } else {
            m
        }
    }
}

/// A field map with a patch laid over it, column by column.
pub open spec fn patched(m: Map<Seq<char>, ValueV>, p: Seq<(Seq<char>, ValueV)>) -> Map<Seq<char>, ValueV>
    decreases p.len(),
{
    if p.len() == 0 {
        m
    } else {
        patched(m, p.drop_last()).insert(p.last().0, p.last().1)
    }
}

/// The id a row has after patch `p`: the integer that `p` sets its `id`
/// column to, or `id` where `p` leaves that column alone; none where `p`
/// sets it to something other than an integer.
pub open spec fn patched_id(p: Seq<(Seq<char>, ValueV)>, id: int) -> Option<int> {
    let m = entries_map(p);
    if m.contains_key("id"@) {
        match m["id"@] {
            ValueV::Int(n) => Some(n),
            _ => None,
        }
    } else {
        Some(id)
    }
}

pub open spec fn same_reaction(r: ReactionV, t: Seq<char>, parent: int, actor: Seq<char>, label: Seq<char>) -> bool {
    r.table == t && r.parent == parent && r.actor == actor && r.label == label
}

/// The reactions without those matching the key.
pub open spec fn without_reaction(
    rs: Seq<ReactionV>,
    t: Seq<char>,
    parent: int,
    actor: Seq<char>,
    label: Seq<char>,
) -> Seq<ReactionV>
    decreases rs.len(),
{
    if rs.len() == 0 {
        rs
    } else {
        let rest = without_reaction(rs.drop_last(), t, parent, actor, label);
        if same_reaction(rs.last(), t, parent, actor, label) {
            rest
        } else {
            rest.push(rs.last())
        }
    }
}

/// The label assignments of every issue but `issue`.
pub open spec fn without_issue(links: Seq<(int, Seq<char>)>, issue: int) -> Seq<(int, Seq<char>)>
    decreases links.len(),
{
    if links.len() == 0 {
        links
    } else {
        let rest = without_issue(links.drop_last(), issue);
        if links.last().0 == issue {
            rest
        } else {
            rest.push(links.last())
        }
    }
}

/// The working copy after one operation; `now` stamps a new reaction.
pub open spec fn exec_op(s: StoreV, op: OpV, now: Seq<char>) -> StoreV {
    match op {
        OpV::Upsert { table, id, fields } => match id {
            Some(i) => {
                let row = RowV { table, id: i, fields };
                match first_row(s.rows, table, i) {
                    Some(k) => StoreV { rows: s.rows.update(k, row), ..s },
                    None => StoreV { rows: s.rows.push(row), ..s },
                }
            },
            None => match max_id(s.rows, table) {
                None => StoreV { rows: s.rows.push(RowV { table, id: 1, fields }), ..s },
                Some(m) => if m < i64::MAX {
                    StoreV { rows: s.rows.push(RowV { table, id: m + 1, fields }), ..s }
                } else {
                    s
                },
            },
        },
        OpV::Patch { table, id, fields } => match first_row(s.rows, table, id) {
            Some(k) => match patched_id(fields, id) {
                Some(n) => if n != id && first_row(s.rows, table, n) is Some {
                    s
                } else {
                    StoreV {
                        rows: s.rows.update(k, RowV { table, id: n, fields: patched(s.rows[k].fields, fields) }),
                        ..s
                    }
                },
                None => s,
            },
            None => s,
        },
        OpV::RemoveReaction { table, parent, actor, label } => StoreV {
            reactions: without_reaction(s.reactions, table, parent, actor, label),
            ..s
        },
        OpV::AddReaction { table, parent, actor, label } => {
            if exists|j: int| 0 <= j < s.reactions.len() && same_reaction(#[trigger] s.reactions[j], table, parent, actor, label) {
                s
            } else {
                StoreV {
                    reactions: s.reactions.push(
                        ReactionV { table, parent, actor, label, created_at: now },
                    ),
                    ..s
                }
            }
        },
        OpV::ClearLabels { issue_id } => StoreV { links: without_issue(s.links, issue_id), ..s },
        OpV::LinkLabel { issue_id, label } => StoreV {
            labels: if s.labels.contains(label) {
                s.labels
            } else {
                s.labels.push(label)
            },
            links: if s.links.contains((issue_id, label)) {
                s.links
            } else {
                s.links.push((issue_id, label))
            },
            ..s
        },
    }
}

/// The working copy after a sequence of operations, in order.
pub open spec fn run_ops(s: StoreV, ops: Seq<OpV>, now: Seq<char>) -> StoreV
    decreases ops.len(),
{
    if ops.len() == 0 {
        s
    } else {
        exec_op(run_ops(s, ops.drop_last(), now), ops.last(), now)
    }
}

pub proof fn lemma_first_row_found(rows: Seq<RowV>, t: Seq<char>, id: int)
    requires
        first_row(rows, t, id) is Some,
    ensures
        0 <= first_row(rows, t, id).unwrap() < rows.len(),
        rows[first_row(rows, t, id).unwrap()].table == t,
        rows[first_row(rows, t, id).unwrap()].id == id,
    decreases rows.len(),
{
    if first_row(rows.drop_last(), t, id) is Some {
        lemma_first_row_found(rows.drop_last(), t, id);
    }
}

proof fn lemma_first_row_extend(rows: Seq<RowV>, n: int, t: Seq<char>, id: int)
    requires
        0 <= n <= rows.len(),
        first_row(rows.subrange(0, n), t, id) is Some,
    ensures
        first_row(rows, t, id) == first_row(rows.subrange(0, n), t, id),
    decreases rows.len() - n,
{
    if n < rows.len() {
        assert(rows.subrange(0, n + 1).drop_last() == rows.subrange(0, n));
        lemma_first_row_extend(rows, n + 1, t, id);
    } else {
        assert(rows.subrange(0, n) == rows);
    }
}

proof fn lemma_max_id_step(rows: Seq<RowV>, i: int, t: Seq<char>)
    requires
        0 <= i < rows.len(),
    ensures
        max_id(rows.subrange(0, i + 1), t) == ({
            let m = max_id(rows.subrange(0, i), t);
            let r = rows[i];
            if r.table == t {
                match m {
                    None => Some(r.id),
                    Some(x) => Some(if r.id > x { r.id } else { x }),
                }
            } else {
                m
            }
        }),
{
    assert(rows.subrange(0, i + 1).drop_last() == rows.subrange(0, i));
}

proof fn lemma_without_reaction_step(rs: Seq<ReactionV>, i: int, t: Seq<char>, parent: int, actor: Seq<char>, label: Seq<char>)
    requires
        0 <= i < rs.len(),
    ensures
        without_reaction(rs.subrange(0, i + 1), t, parent, actor, label) == if same_reaction(rs[i], t, parent, actor, label) {
            without_reaction(rs.subrange(0, i), t, parent, actor, label)
        } else {
            without_reaction(rs.subrange(0, i), t, parent, actor, label).push(rs[i])
        },
{
    assert(rs.subrange(0, i + 1).drop_last() == rs.subrange(0, i));
}

proof fn lemma_without_issue_step(links: Seq<(int, Seq<char>)>, i: int, issue: int)
    requires
        0 <= i < links.len(),
    ensures
        without_issue(links.subrange(0, i + 1), issue) == if links[i].0 == issue {
            without_issue(links.subrange(0, i), issue)
        } else {
            without_issue(links.subrange(0, i), issue).push(links[i])
        },
{
    assert(links.subrange(0, i + 1).drop_last() == links.subrange(0, i));
}

fn copy_reaction(r: &Reaction) -> (c: Reaction)
    ensures
        c@ == r@,
{
    Reaction {
        table: r.table.clone(),
        parent: r.parent,
        actor: r.actor.clone(),
        label: r.label.clone(),
        created_at: r.created_at.clone(),
    }
}

impl Store {
    /// An empty working copy.
    pub fn new() -> (s: Store)
        ensures
            s@.rows.len() == 0,
            s@.reactions.len() == 0,
            s@.labels.len() == 0,
            s@.links.len() == 0,
    {
        Store { rows: Vec::new(), reactions: Vec::new(), labels: Vec::new(), links: Vec::new() }
    }

    /// The index of the first row of `table` with id `id`.
    pub fn find_row(&self, table: &str, id: i64) -> (r: Option<usize>)
        ensures
            match r {
                Some(i) => {
                    &&& first_row(self@.rows, table@, id as int) == Some(i as int)
                    &&& i < self.rows@.len()
                },
                None => first_row(self@.rows, table@, id as int) is None,
            },
    {
        let ghost rows = self@.rows;
        let mut i: usize = 0;
        while i < self.rows.len()
            invariant
                i <= self.rows@.len(),
                rows == self@.rows,
                rows.len() == self.rows@.len(),
                first_row(rows.subrange(0, i as int), table@, id as int) is None,
            decreases self.rows.len() - i,
        {
            assert(rows.subrange(0, i + 1).drop_last() == rows.subrange(0, i as int));
            assert(rows[i as int] == self.rows@[i as int]@);
            if self.rows[i].id == id && text_eq(self.rows[i].table.as_str(), table) {
                proof {
                    lemma_first_row_extend(rows, i + 1, table@, id as int);
                }
                assert(rows.len() == self.rows@.len());
                return Some(i);
            }
            i = i + 1;
        }
        assert(rows.subrange(0, i as int) == rows);
        None
    }

    /// The largest id of `table`, if it has a row.
    pub fn max_table_id(&self, table: &str) -> (r: Option<i64>)
        ensures
            match r {
                Some(m) => max_id(self@.rows, table@) == Some(m as int),
                None => max_id(self@.rows, table@) is None,
            },
    {
        let ghost rows = self@.rows;
        let mut best: Option<i64> = None;
        let mut i: usize = 0;
        while i < self.rows.len()
            invariant
                i <= self.rows@.len(),
                rows == self@.rows,
                rows.len() == self.rows@.len(),
                match best {
                    Some(m) => max_id(rows.subrange(0, i as int), table@) == Some(m as int),
                    None => max_id(rows.subrange(0, i as int), table@) is None,
                },
            decreases self.rows.len() - i,
        {
            proof {
                lemma_max_id_step(rows, i as int, table@);
            }
            assert(rows[i as int] == self.rows@[i as int]@);
            if text_eq(self.rows[i].table.as_str(), table) {
                let id = self.rows[i].id;
                best = match best {
                    None => Some(id),
                    Some(x) => Some(if id > x { id } else { x }),
                };
            }
            i = i + 1;
        }
        assert(rows.subrange(0, i as int) == rows);
        best
    }

    fn upsert(&mut self, table: &String, id: Option<i64>, fields: &Vec<(String, FieldValue)>)
        ensures
            final(self)@ == exec_op(
                old(self)@,
                OpV::Upsert {
                    table: table@,
                    id: match id {
                        Some(i) => Some(i as int),
                        None => None,
                    },
                    fields: entries_map(entries_view(fields@)),
                },
                seq![],
            ),
    {
        let ghost s0 = self@;
        let row_id = match id {
            Some(i) => i,
            None => match self.max_table_id(table.as_str()) {
                None => 1,
                Some(m) => {
                    if m < i64::MAX {
                        m + 1
                    } else {
                        return;
                    }
                },
            },
        };
        let row = Row { table: table.clone(), id: row_id, fields: copy_entries(fields) };
        let found = match id {
            Some(i) => self.find_row(table.as_str(), i),
            None => None,
        };
        match found {
            Some(k) => {
                self.rows.set(k, row);
                assert(self@.rows =~= s0.rows.update(k as int, row@));
            },
            None => {
                self.rows.push(row);
                assert(self@.rows =~= s0.rows.push(row@));
            },
        }
        assert(self@.reactions == s0.reactions);
        assert(self@.labels == s0.labels);
        assert(self@.links == s0.links);
    }

    fn patch(&mut self, table: &String, id: i64, fields: &Vec<(String, FieldValue)>)
        ensures
            final(self)@ == exec_op(
                old(self)@,
                OpV::Patch { table: table@, id: id as int, fields: entries_view(fields@) },
                seq![],
            ),
    {
        let ghost s0 = self@;
        let ghost p = entries_view(fields@);
        match self.find_row(table.as_str(), id) {
            None => {},
            Some(k) => {
                proof {
                    lemma_first_row_found(s0.rows, table@, id as int);
                }
                let new_id: i64 = match find_entry(fields, "id") {
                    Some(j) => match &fields[j].1 {
                        FieldValue::Int(n) => *n,
                        _ => {
                            return;
                        },
                    },
                    None => id,
                };
                assert(patched_id(p, id as int) == Some(new_id as int));
                if new_id != id {
                    if self.find_row(table.as_str(), new_id).is_some() {
                        return;
                    }
                }
                let mut row = Row {
                    table: self.rows[k].table.clone(),
                    id: new_id,
                    fields: copy_entries(&self.rows[k].fields),
                };
                let ghost m0 = s0.rows[k as int].fields;
                assert(row@.fields == m0);
                let mut i: usize = 0;
                while i < fields.len()
                    invariant
                        i <= fields@.len(),
                        p == entries_view(fields@),
                        p.len() == fields@.len(),
                        row@.table == table@,
                        row@.id == new_id as int,
                        row@.fields == patched(m0, p.subrange(0, i as int)),
                    decreases fields.len() - i,
                {
                    assert(p.subrange(0, i + 1).drop_last() == p.subrange(0, i as int));
                    assert(p[i as int] == entry_view(fields@[i as int]));
                    let e = (fields[i].0.clone(), crate::value::copy_value(&fields[i].1));
                    let ghost before = row.fields@;
                    let ghost ev = entry_view(e);
                    assert(ev == p[i as int]);
                    match find_entry(&row.fields, fields[i].0.as_str()) {
                        Some(j) => {
                            row.fields.set(j, e);
                            assert(entries_view(row.fields@) =~= entries_view(before).update(j as int, ev));
                            proof {
                                lemma_entries_map_overwrite(entries_view(before), j as int, ev);
                            }
                        },
                        None => {
                            row.fields.push(e);
                            assert(row.fields@.drop_last() == before);
                            assert(entries_view(row.fields@).drop_last() =~= entries_view(before));
                            assert(entries_view(row.fields@).last() == p[i as int]);
                        },
                    }
                    i = i + 1;
                }
                assert(p.subrange(0, i as int) == p);
                self.rows.set(k, row);
                assert(self@.rows =~= s0.rows.update(
                    k as int,
                    RowV { table: table@, id: new_id as int, fields: patched(m0, p) },
                ));
            },
        }
    }

    fn remove_reaction(&mut self, table: &String, parent: i64, actor: &String, label: &String)
        ensures
            final(self)@ == (StoreV {
                reactions: without_reaction(old(self)@.reactions, table@, parent as int, actor@, label@),
                ..old(self)@
            }),
    {
        let ghost s0 = self@;
        let ghost rs = s0.reactions;
        let mut kept: Vec<Reaction> = Vec::new();
        let mut i: usize = 0;
        while i < self.reactions.len()
            invariant
                i <= self.reactions@.len(),
                self@ == s0,
                rs == self@.reactions,
                rs.len() == self.reactions@.len(),
                kept@.map_values(|r: Reaction| r@) == without_reaction(
                    rs.subrange(0, i as int),
                    table@,
                    parent as int,
                    actor@,
                    label@,
                ),
            decreases self.reactions.len() - i,
        {
            proof {
                lemma_without_reaction_step(rs, i as int, table@, parent as int, actor@, label@);
            }
            let r = &self.reactions[i];
            assert(rs[i as int] == r@);
            if !(r.parent == parent && text_eq(r.table.as_str(), table.as_str()) && text_eq(
                r.actor.as_str(),
                actor.as_str(),
            ) && text_eq(r.label.as_str(), label.as_str())) {
                let c = copy_reaction(r);
                let ghost before = kept@;
                kept.push(c);
                assert(kept@.map_values(|r: Reaction| r@) =~= before.map_values(|r: Reaction| r@).push(c@));
            }
            i = i + 1;
        }
        assert(rs.subrange(0, i as int) == rs);
        self.reactions = kept;
    }

    fn add_reaction(&mut self, table: &String, parent: i64, actor: &String, label: &String, now: &String)
        ensures
            final(self)@ == exec_op(
                old(self)@,
                OpV::AddReaction { table: table@, parent: parent as int, actor: actor@, label: label@ },
                now@,
            ),
    {
        let ghost s0 = self@;
        let mut i: usize = 0;
        while i < self.reactions.len()
            invariant
                i <= self.reactions@.len(),
                self@ == s0,
                forall|j: int| 0 <= j < i ==> !same_reaction(#[trigger] s0.reactions[j], table@, parent as int, actor@, label@),
            decreases self.reactions.len() - i,
        {
            let r = &self.reactions[i];
            assert(s0.reactions[i as int] == r@);
            if r.parent == parent && text_eq(r.table.as_str(), table.as_str()) && text_eq(
                r.actor.as_str(),
                actor.as_str(),
            ) && text_eq(r.label.as_str(), label.as_str()) {
                return;
            }
            i = i + 1;
        }
        let c = Reaction {
            table: table.clone(),
            parent,
            actor: actor.clone(),
            label: label.clone(),
            created_at: now.clone(),
        };
        self.reactions.push(c);
        assert(self@.reactions =~= s0.reactions.push(c@));
    }

    fn clear_labels(&mut self, issue_id: i64)
        ensures
            final(self)@ == (StoreV { links: without_issue(old(self)@.links, issue_id as int), ..old(self)@ }),
    {
        let ghost s0 = self@;
        let ghost ls = s0.links;
        let mut kept: Vec<LabelLink> = Vec::new();
        let mut i: usize = 0;
        while i < self.links.len()
            invariant
                i <= self.links@.len(),
                self@ == s0,
                ls == self@.links,
                ls.len() == self.links@.len(),
                kept@.map_values(|l: LabelLink| l@) == without_issue(ls.subrange(0, i as int), issue_id as int),
            decreases self.links.len() - i,
        {
            proof {
                lemma_without_issue_step(ls, i as int, issue_id as int);
            }
            assert(ls[i as int] == self.links@[i as int]@);
            if self.links[i].issue_id != issue_id {
                let c = LabelLink { issue_id: self.links[i].issue_id, label: self.links[i].label.clone() };
                let ghost before = kept@;
                kept.push(c);
                assert(kept@.map_values(|l: LabelLink| l@) =~= before.map_values(|l: LabelLink| l@).push(c@));
            }
            i = i + 1;
        }
        assert(ls.subrange(0, i as int) == ls);
        self.links = kept;
    }

    fn link_label(&mut self, issue_id: i64, label: &String)
        ensures
            final(self)@ == exec_op(old(self)@, OpV::LinkLabel { issue_id: issue_id as int, label: label@ }, seq![]),
    {
        let ghost s0 = self@;
        let mut has_label = false;
        let mut i: usize = 0;
        while i < self.labels.len()
            invariant
                i <= self.labels@.len(),
                self@ == s0,
                has_label ==> s0.labels.contains(label@),
                !has_label ==> forall|j: int| 0 <= j < i ==> s0.labels[j] != label@,
            decreases self.labels.len() - i,
        {
            assert(s0.labels[i as int] == self.labels@[i as int]@);
            if text_eq(self.labels[i].as_str(), label.as_str()) {
                has_label = true;
            }
            i = i + 1;
        }
        let mut has_link = false;
        let mut j: usize = 0;
        while j < self.links.len()
            invariant
                j <= self.links@.len(),
                self@ == s0,
                has_link ==> s0.links.contains((issue_id as int, label@)),
                !has_link ==> forall|x: int| 0 <= x < j ==> s0.links[x] != (issue_id as int, label@),
            decreases self.links.len() - j,
        {
            assert(s0.links[j as int] == self.links@[j as int]@);
            if self.links[j].issue_id == issue_id && text_eq(self.links[j].label.as_str(), label.as_str()) {
                has_link = true;
                assert(s0.links[j as int] == (issue_id as int, label@));
            }
            j = j + 1;
        }
        if !has_label {
            self.labels.push(label.clone());
            assert(self@.labels =~= s0.labels.push(label@));
        }
        if !has_link {
            let ghost mid = self@;
            self.links.push(LabelLink { issue_id, label: label.clone() });
            assert(self@.links =~= mid.links.push((issue_id as int, label@)));
        }
    }

    /// Performs one operation on the working copy; `now` stamps a new reaction.
    pub fn execute(&mut self, op: &StoreOp, now: &String)
        ensures
            final(self)@ == exec_op(old(self)@, op@, now@),
    {
        match op {
            StoreOp::Upsert { table, id, fields } => self.upsert(table, *id, fields),
            StoreOp::Patch { table, id, fields } => self.patch(table, *id, fields),
            StoreOp::RemoveReaction { table, parent, actor, label } => self.remove_reaction(table, *parent, actor, label),
            StoreOp::AddReaction { table, parent, actor, label } => self.add_reaction(table, *parent, actor, label, now),
            StoreOp::ClearLabels { issue_id } => self.clear_labels(*issue_id),
            StoreOp::LinkLabel { issue_id, label } => self.link_label(*issue_id, label),
        }
    }

    /// Performs the operations in order.
    pub fn execute_all(&mut self, ops: &Vec<StoreOp>, now: &String)
        ensures
            final(self)@ == run_ops(old(self)@, ops_view(ops@), now@),
    {
        let ghost s0 = self@;
        let mut i: usize = 0;
        while i < ops.len()
            invariant
                i <= ops@.len(),
                self@ == run_ops(s0, ops_view(ops@.subrange(0, i as int)), now@),
            decreases ops.len() - i,
        {
            assert(ops_view(ops@.subrange(0, i + 1)).drop_last() =~= ops_view(ops@.subrange(0, i as int)));
            self.execute(&ops[i], now);
            i = i + 1;
        }
        assert(ops@.subrange(0, i as int) == ops@);
    }
}

} // verus!

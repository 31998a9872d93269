//! The entities of the store as the presentation layer reads them, and the
//! small computations on them.

use vstd::prelude::*;
use crate::replication::texts;
use crate::text::{split_on, split_text, trimmed, trim_text};
use crate::value::text_eq;
use crate::group::{group_by_key, grouped, rows_view, groups_view};

verus! {

pub struct Issue {
    pub id: Option<i32>,
    pub title: String,
    pub body: String,
    pub status: String,
    pub created_by: String,
    pub assignee: String,
    pub created_at: String,
    pub updated_at: String,
    pub milestone_id: Option<i32>,
}

pub struct Comment {
    pub id: Option<i32>,
    pub issue_id: i32,
    pub body: String,
    pub created_by: String,
    pub created_at: String,
    pub updated_at: String,
}

pub struct Label {
    pub id: i32,
    pub name: String,
}

pub struct Milestone {
    pub id: Option<i32>,
    pub title: String,
    pub description: String,
    pub start_date: Option<String>,
    pub due_date: Option<String>,
    pub status: String,
    pub created_at: String,
    pub updated_at: String,
}

/// How far the issues of a milestone are closed.
pub struct MilestoneProgress {
    pub milestone_id: i32,
    pub total: i32,
    pub closed: i32,
    pub percent: i32,
}

impl MilestoneProgress {
    /// The progress of a milestone with `total` issues, `closed` of them
    /// closed: the whole percentage closed, rounded down; 0 without issues.
    pub fn new(milestone_id: i32, total: i32, closed: i32) -> (r: MilestoneProgress)
        requires
            0 <= closed <= total,
        ensures
            r.milestone_id == milestone_id,
            r.total == total,
            r.closed == closed,
            r.percent == if total > 0 { (closed * 100) / (total as int) } else { 0 },
    {
        let percent: i32 = if total > 0 {
            let p: i64 = (closed as i64 * 100) / (total as i64);
            proof {
                let c = closed as int;
                let t = total as int;
                assert(p == (c * 100) / t);
                assert(0 <= (c * 100) / t <= 100) by (nonlinear_arith)
                    requires
                        0 <= c <= t,
                        t > 0,
                ;
            }
            p as i32
        } else {
            0
        };
        MilestoneProgress { milestone_id, total, closed, percent }
    }
}

/// The reactions of one label to one entity.
pub struct ReactionEntry {
    pub reaction: String,
    pub count: i32,
    /// Whether the current user is among those who reacted.
    pub reacted: bool,
    pub users: Vec<String>,
}

/// The reactions to one entity.
pub struct ReactionSummary {
    pub target_id: i32,
    pub reactions: Vec<ReactionEntry>,
}

pub struct ReactionEntryV {
    pub reaction: Seq<char>,
    pub count: int,
    pub reacted: bool,
    pub users: Seq<Seq<char>>,
}

impl View for ReactionEntry {
    type V = ReactionEntryV;

    open spec fn view(&self) -> ReactionEntryV {
        ReactionEntryV {
            reaction: self.reaction@,
            count: self.count as int,
            reacted: self.reacted,
            users: texts(self.users@),
        }
    }
}

pub open spec fn summaries_view(s: Seq<ReactionSummary>) -> Seq<(int, Seq<ReactionEntryV>)> {
    s.map_values(|x: ReactionSummary| (x.target_id as int, x.reactions@.map_values(|e: ReactionEntry| e@)))
}

/// The reactions of each entity, from rows of (entity id, entry): one
/// summary per entity in order of its first row.
pub fn reactions_by_target(rows: Vec<(i32, ReactionEntry)>) -> (r: Vec<ReactionSummary>)
    ensures
        summaries_view(r@) == grouped(rows_view(rows@)),
{
    let groups = group_by_key(rows);
    let ghost gv = groups_view(groups@);
    let mut rest = groups;
    let mut out: Vec<ReactionSummary> = Vec::new();
    let total: usize = rest.len();
    let mut taken: usize = 0;
    while rest.len() > 0
        invariant
            taken + rest@.len() == total,
            gv.len() == total,
            groups_view(rest@) == gv.subrange(taken as int, total as int),
            summaries_view(out@) == gv.subrange(0, taken as int),
        decreases rest.len(),
    {
        let ghost old_rest = rest@;
        let (target_id, reactions) = rest.remove(0);
        proof {
            assert(groups_view(old_rest)[0] == gv[taken as int]);
            assert(rest@ =~= old_rest.subrange(1, old_rest.len() as int));
            assert(groups_view(rest@) =~= groups_view(old_rest).subrange(1, old_rest.len() as int));
            assert(groups_view(rest@) =~= gv.subrange(taken + 1, total as int));
        }
        let ghost before = summaries_view(out@);
        let item = ReactionSummary { target_id, reactions };
        out.push(item);
        assert(summaries_view(out@) =~= before.push(gv[taken as int]));
        assert(gv.subrange(0, taken + 1) =~= gv.subrange(0, taken as int).push(gv[taken as int]));
        taken = taken + 1;
    }
    assert(gv.subrange(0, total as int) == gv);
    out
}

/// The labels of each issue, from rows of (issue id, label name): one entry
/// per issue in order of its first row.
pub fn labels_map(rows: Vec<(i32, String)>) -> (r: Vec<(i32, Vec<String>)>)
    ensures
        groups_view(r@) == grouped(rows_view(rows@)),
{
    group_by_key(rows)
}

/// The users of a comma-joined list; none for an empty list.
pub open spec fn users_of(joined: Seq<char>) -> Seq<Seq<char>> {
    if joined.len() == 0 {
        seq![]
    } else {
        split_on(joined, ',')
    }
}

impl ReactionEntry {
    /// The entry of label `reaction` reacted `count` times, `mine` of them by
    /// the current user, by the comma-joined `users`.
    pub fn new(reaction: String, count: i32, mine: i32, users: &str) -> (r: ReactionEntry)
        ensures
            r.reaction == reaction,
            r.count == count,
            r.reacted == (mine > 0),
            texts(r.users@) == users_of(users@),
    {
        let list = if users.unicode_len() == 0 {
            let empty: Vec<String> = Vec::new();
            assert(texts(empty@) =~= seq![]);
            empty
        } else {
            split_text(users, ',')
        };
        ReactionEntry { reaction, count, reacted: mine > 0, users: list }
    }
}

/// Label names trimmed, without empty ones, each once, in first-seen order.
pub open spec fn normalized_labels(ls: Seq<Seq<char>>) -> Seq<Seq<char>>
    decreases ls.len(),
{
    if ls.len() == 0 {
        seq![]
    } else {
        let r = normalized_labels(ls.drop_last());
        let t = trimmed(ls.last());
        if t.len() == 0 || r.contains(t) {
            r
        } else {
            r.push(t)
        }
    }
}

/// The label names that an assignment keeps: trimmed, without empty ones,
/// each once.
pub fn normalize_labels(labels: &Vec<String>) -> (r: Vec<String>)
    ensures
        texts(r@) == normalized_labels(texts(labels@)),
{
    let mut out: Vec<String> = Vec::new();
    let mut i: usize = 0;
    while i < labels.len()
        invariant
            i <= labels@.len(),
            texts(out@) == normalized_labels(texts(labels@.subrange(0, i as int))),
        decreases labels.len() - i,
    {
        assert(texts(labels@.subrange(0, i + 1)).drop_last() =~= texts(labels@.subrange(0, i as int)));
        assert(texts(labels@.subrange(0, i + 1)).last() == labels@[i as int]@);
        let t = trim_text(labels[i].as_str());
        if t.unicode_len() > 0 {
            let mut seen = false;
            let mut j: usize = 0;
            while j < out.len()
                invariant
                    j <= out@.len(),
                    seen ==> texts(out@).contains(t@),
                    !seen ==> forall|k: int| 0 <= k < j ==> texts(out@)[k] != t@,
                decreases out.len() - j,
            {
                if text_eq(out[j].as_str(), t.as_str()) {
                    seen = true;
                    assert(texts(out@)[j as int] == t@);
                }
                j = j + 1;
            }
            if !seen {
                let ghost before = texts(out@);
                out.push(t);
                assert(texts(out@) =~= before.push(t@));
            }
        }
        i = i + 1;
    }
    assert(labels@.subrange(0, i as int) == labels@);
    out
}

} // verus!

//! The decisions of the replication loop: which outbox records to replay,
//! in which order, and when to tell the presentation layer.

use vstd::prelude::*;
use crate::value::{text_lt, text_eq, text_gt, lemma_text_lt_transitive};
use crate::record::DeltaSyncPayload;

verus! {

/// Strictly increasing in the order of `str`.
pub open spec fn strictly_sorted(s: Seq<Seq<char>>) -> bool {
    forall|i: int, j: int| 0 <= i < j < s.len() ==> text_lt(#[trigger] s[i], #[trigger] s[j])
}

pub open spec fn texts(v: Seq<String>) -> Seq<Seq<char>> {
    v.map_values(|s: String| s@)
}

pub proof fn lemma_text_lt_total(a: Seq<char>, b: Seq<char>)
    requires
        a != b,
    ensures
        text_lt(a, b) || text_lt(b, a),
    decreases a.len(),
{
    if a.len() > 0 && b.len() > 0 && a[0] == b[0] {
        if a.drop_first() == b.drop_first() {
            assert(a =~= seq![a[0]] + a.drop_first());
            assert(b =~= seq![b[0]] + b.drop_first());
            assert(a == b);
        }
        lemma_text_lt_total(a.drop_first(), b.drop_first());
    } else if a.len() == 0 && b.len() == 0 {
        assert(a =~= b);
    }
}

/// Inserts `x` into a strictly sorted vector, unless it is there already.
fn insert_sorted(v: &mut Vec<String>, x: String)
    requires
        strictly_sorted(texts(old(v)@)),
    ensures
        strictly_sorted(texts(final(v)@)),
        forall|t: Seq<char>| texts(final(v)@).contains(t) <==> (texts(old(v)@).contains(t) || t == x@),
{
    let ghost s0 = texts(v@);
    let mut i: usize = 0;
    let mut stop = false;
    while i < v.len() && !stop
        invariant
            i <= v@.len(),
            v@ == old(v)@,
            s0 == texts(v@),
            s0.len() == v@.len(),
            forall|j: int| 0 <= j < i ==> text_lt(#[trigger] s0[j], x@),
            stop ==> i < v@.len() && !text_lt(s0[i as int], x@),
        decreases v@.len() - i + (if stop { 0int } else { 1int }),
    {
        assert(s0[i as int] == v@[i as int]@);
        if !text_gt(x.as_str(), v[i].as_str()) {
            stop = true;
        } else {
            i = i + 1;
        }
    }
    if i < v.len() {
        assert(s0[i as int] == v@[i as int]@);
        if text_eq(v[i].as_str(), x.as_str()) {
            assert forall|t: Seq<char>| s0.contains(t) || t == x@ implies s0.contains(t) by {
                if t == x@ {
                    assert(s0[i as int] == t);
                }
            }
            return;
        }
        proof {
            lemma_text_lt_total(x@, s0[i as int]);
        }
    }
    let ghost xv = x@;
    v.insert(i, x);
    let ghost s1 = texts(v@);
    assert(s1 =~= s0.insert(i as int, xv));
    assert forall|a: int, b: int| 0 <= a < b < s1.len() implies text_lt(#[trigger] s1[a], #[trigger] s1[b]) by {
        if b < i {
        } else if a < i && b == i {
        } else if a < i && b > i {
            assert(s1[b] == s0[b - 1]);
            if b - 1 > i as int {
                lemma_text_lt_transitive(s0[a], s0[i as int], s0[b - 1]);
            }
        } else if a == i {
            assert(s1[b] == s0[b - 1]);
            if b - 1 > i as int {
                lemma_text_lt_transitive(xv, s0[i as int], s0[b - 1]);
            }
        } else {
            assert(s1[a] == s0[a - 1] && s1[b] == s0[b - 1]);
        }
    }
    assert forall|t: Seq<char>| s1.contains(t) <==> (s0.contains(t) || t == xv) by {
        if s1.contains(t) {
            let k = choose|k: int| 0 <= k < s1.len() && s1[k] == t;
            if k < i {
                assert(s0[k] == t);
            } else if k > i {
                assert(s0[k - 1] == t);
            }
        }
        if s0.contains(t) {
            let k = choose|k: int| 0 <= k < s0.len() && s0[k] == t;
            if k < i {
                assert(s1[k] == t);
            } else {
                assert(s1[k + 1] == t);
            }
        }
        if t == xv {
            assert(s1[i as int] == t);
        }
    }
}

/// The names of a listing in name order, each once.
pub fn sort_names(names: &Vec<String>) -> (r: Vec<String>)
    ensures
        strictly_sorted(texts(r@)),
        forall|t: Seq<char>| texts(r@).contains(t) <==> texts(names@).contains(t),
{
    let mut out: Vec<String> = Vec::new();
    let mut i: usize = 0;
    while i < names.len()
        invariant
            i <= names@.len(),
            strictly_sorted(texts(out@)),
            forall|t: Seq<char>| #![trigger texts(out@).contains(t)] texts(out@).contains(t) <==> texts(
                names@.subrange(0, i as int),
            ).contains(t),
        decreases names.len() - i,
    {
        let ghost before = texts(out@);
        let ghost pre = texts(names@.subrange(0, i as int));
        let ghost post = texts(names@.subrange(0, i + 1));
        assert(post =~= pre.push(names@[i as int]@));
        insert_sorted(&mut out, names[i].clone());
        assert forall|t: Seq<char>| texts(out@).contains(t) <==> post.contains(t) by {
            assert(before.contains(t) == pre.contains(t));
            if post.contains(t) {
                let k = choose|k: int| 0 <= k < post.len() && post[k] == t;
                if k < pre.len() {
                    assert(pre[k] == t);
                }
            }
            if pre.contains(t) {
                let k = choose|k: int| 0 <= k < pre.len() && pre[k] == t;
                assert(post[k] == t);
            }
            if t == names@[i as int]@ {
                assert(post[i as int] == t);
            }
        }
        i = i + 1;
    }
    assert(names@.subrange(0, i as int) == names@);
    assert forall|t: Seq<char>| texts(out@).contains(t) <==> texts(names@).contains(t) by {
        assert(texts(out@).contains(t) == texts(names@.subrange(0, i as int)).contains(t));
    }
    out
}

/// The replication loop's memory: this process's own origin and the record
/// names it has already consumed, and whether the current cycle has applied
/// a record.
pub struct Replicator {
    origin: String,
    applied: Vec<String>,
    changed: bool,
}

impl Replicator {
    pub closed spec fn applied_names(&self) -> Set<Seq<char>> {
        texts(self.applied@).to_set()
    }

    pub closed spec fn own_origin(&self) -> Seq<char> {
        self.origin@
    }

    pub closed spec fn cycle_changed(&self) -> bool {
        self.changed
    }

    /// A loop for the process whose records carry `origin`; nothing applied yet.
    pub fn new(origin: String) -> (r: Replicator)
        ensures
            r.own_origin() == origin@,
            r.applied_names() == Set::<Seq<char>>::empty(),
            !r.cycle_changed(),
    {
        let r = Replicator { origin, applied: Vec::new(), changed: false };
        assert(texts(r.applied@).to_set() =~= Set::<Seq<char>>::empty());
        r
    }

    /// The origin of this process's own records.
    pub fn origin(&self) -> (r: &String)
        ensures
            r@ == self.own_origin(),
    {
        &self.origin
    }

    /// Whether the record file `name` was already consumed.
    pub fn was_applied(&self, name: &str) -> (r: bool)
        ensures
            r == self.applied_names().contains(name@),
    {
        let ghost s = texts(self.applied@);
        let mut i: usize = 0;
        while i < self.applied.len()
            invariant
                i <= self.applied@.len(),
                s == texts(self.applied@),
                s.len() == self.applied@.len(),
                forall|j: int| 0 <= j < i ==> s[j] != name@,
            decreases self.applied.len() - i,
        {
            assert(s[i as int] == self.applied@[i as int]@);
            if text_eq(self.applied[i].as_str(), name) {
                assert(s.contains(name@));
                return true;
            }
            i = i + 1;
        }
        false
    }

    /// The record files of this cycle to consume, in name order: each name
    /// of the listing not consumed before, once.
    pub fn pending(&self, names: &Vec<String>) -> (r: Vec<String>)
        ensures
            strictly_sorted(texts(r@)),
            forall|t: Seq<char>| texts(r@).contains(t) <==> (texts(names@).contains(t)
                && !self.applied_names().contains(t)),
    {
        let mut out: Vec<String> = Vec::new();
        let mut i: usize = 0;
        while i < names.len()
            invariant
                i <= names@.len(),
                strictly_sorted(texts(out@)),
                forall|t: Seq<char>| #![trigger texts(out@).contains(t)] texts(out@).contains(t) <==> (texts(
                    names@.subrange(0, i as int),
                ).contains(t) && !self.applied_names().contains(t)),
            decreases names.len() - i,
        {
            let ghost before = texts(out@);
            let ghost pre = texts(names@.subrange(0, i as int));
            let ghost post = texts(names@.subrange(0, i + 1));
            assert(post =~= pre.push(names@[i as int]@));
            assert forall|t: Seq<char>| post.contains(t) <==> (pre.contains(t) || t == names@[i as int]@) by {
                if post.contains(t) {
                    let k = choose|k: int| 0 <= k < post.len() && post[k] == t;
                    if k < pre.len() {
                        assert(pre[k] == t);
                    }
                }
                if pre.contains(t) {
                    let k = choose|k: int| 0 <= k < pre.len() && pre[k] == t;
                    assert(post[k] == t);
                }
                if t == names@[i as int]@ {
                    assert(post[i as int] == t);
                }
            }
            let fresh = !self.was_applied(names[i].as_str());
            if fresh {
                insert_sorted(&mut out, names[i].clone());
            }
            assert forall|t: Seq<char>| texts(out@).contains(t) <==> (post.contains(t)
                && !self.applied_names().contains(t)) by {
                assert(before.contains(t) == (pre.contains(t) && !self.applied_names().contains(t)));
                assert(post.contains(t) == (pre.contains(t) || t == names@[i as int]@));
                if fresh {
                    assert(texts(out@).contains(t) == (before.contains(t) || t == names@[i as int]@));
                } else {
                    assert(texts(out@) == before);
                }
            }
            i = i + 1;
        }
        assert(names@.subrange(0, i as int) == names@);
        assert forall|t: Seq<char>| texts(out@).contains(t) <==> (texts(names@).contains(t)
            && !self.applied_names().contains(t)) by {
            assert(texts(out@).contains(t) == (texts(names@.subrange(0, i as int)).contains(t)
                && !self.applied_names().contains(t)));
        }
        out
    }

    /// Consumes the record file `name`, read as `record` where it could be
    /// decoded, and says whether to replay it: a decoded record of another
    /// origin. The name counts as consumed either way.
    pub fn consume(&mut self, name: &String, record: Option<&DeltaSyncPayload>) -> (r: bool)
        ensures
            final(self).applied_names() == old(self).applied_names().insert(name@),
            final(self).own_origin() == old(self).own_origin(),
            final(self).cycle_changed() == old(self).cycle_changed(),
            r == match record {
                Some(p) => p.pc_name@ != old(self).own_origin(),
                None => false,
            },
    {
        let ghost before = texts(self.applied@);
        self.applied.push(name.clone());
        assert(texts(self.applied@) =~= before.push(name@));
        assert(texts(self.applied@).to_set() =~= before.to_set().insert(name@)) by {
            assert forall|t: Seq<char>| texts(self.applied@).to_set().contains(t) <==> before.to_set().insert(name@).contains(t) by {
                if texts(self.applied@).contains(t) {
                    let k = choose|k: int| 0 <= k < texts(self.applied@).len() && texts(self.applied@)[k] == t;
                    if k < before.len() {
                        assert(before[k] == t);
                    }
                }
                if before.contains(t) {
                    let k = choose|k: int| 0 <= k < before.len() && before[k] == t;
                    assert(texts(self.applied@)[k] == t);
                }
                if t == name@ {
                    assert(texts(self.applied@)[before.len() as int] == t);
                }
            }
        }
        match record {
            Some(p) => !text_eq(p.pc_name.as_str(), self.origin.as_str()),
            None => false,
        }
    }

    /// Notes the outcome of replaying one record.
    pub fn note_outcome(&mut self, mutated: bool)
        ensures
            final(self).applied_names() == old(self).applied_names(),
            final(self).own_origin() == old(self).own_origin(),
            final(self).cycle_changed() == (old(self).cycle_changed() || mutated),
    {
        self.changed = self.changed || mutated;
    }

    /// Ends a cycle: whether to send one "data changed" notification, which
    /// is owed where at least one record of the cycle was applied.
    pub fn end_cycle(&mut self) -> (notify: bool)
        ensures
            notify == old(self).cycle_changed(),
            !final(self).cycle_changed(),
            final(self).applied_names() == old(self).applied_names(),
            final(self).own_origin() == old(self).own_origin(),
    {
        let notify = self.changed;
        self.changed = false;
        notify
    }
}

} // verus!

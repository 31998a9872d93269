//! Grouping rows by the entity they belong to.

use vstd::prelude::*;

verus! {

/// The first group of key `k`.
pub open spec fn group_index<V>(g: Seq<(int, Seq<V>)>, k: int) -> Option<int>
    decreases g.len(),
{
    if g.len() == 0 {
        None
    } else {
        match group_index(g.drop_last(), k) {
            Some(i) => Some(i),
            None => if g.last().0 == k {
                Some(g.len() - 1)
            } else {
                None
            },
        }
    }
}

/// Rows grouped by key: one group per key in order of first appearance,
/// each holding its rows' values in order.
pub open spec fn grouped<V>(rows: Seq<(int, V)>) -> Seq<(int, Seq<V>)>
    decreases rows.len(),
{
    if rows.len() == 0 {
        seq![]
    } else {
        let g = grouped(rows.drop_last());
        let k = rows.last().0;
        let v = rows.last().1;
        match group_index(g, k) {
            Some(i) => g.update(i, (k, g[i].1.push(v))),
            None => g.push((k, seq![v])),
        }
    }
}

pub open spec fn rows_view<T: View>(rows: Seq<(i32, T)>) -> Seq<(int, T::V)> {
    rows.map_values(|r: (i32, T)| (r.0 as int, r.1@))
}

pub open spec fn groups_view<T: View>(g: Seq<(i32, Vec<T>)>) -> Seq<(int, Seq<T::V>)> {
    g.map_values(|e: (i32, Vec<T>)| (e.0 as int, e.1@.map_values(|t: T| t@)))
}

proof fn lemma_group_index_found<V>(g: Seq<(int, Seq<V>)>, k: int)
    requires
        group_index(g, k) is Some,
    ensures
        0 <= group_index(g, k).unwrap() < g.len(),
        g[group_index(g, k).unwrap()].0 == k,
    decreases g.len(),
{
    if group_index(g.drop_last(), k) is Some {
        lemma_group_index_found(g.drop_last(), k);
    }
}

proof fn lemma_group_index_extend<V>(g: Seq<(int, Seq<V>)>, n: int, k: int)
    requires
        0 <= n <= g.len(),
        group_index(g.subrange(0, n), k) is Some,
    ensures
        group_index(g, k) == group_index(g.subrange(0, n), k),
    decreases g.len() - n,
{
    if n < g.len() {
        assert(g.subrange(0, n + 1).drop_last() == g.subrange(0, n));
        lemma_group_index_extend(g, n + 1, k);
    } else {
        assert(g.subrange(0, n) == g);
    }
}

fn find_group<T: View>(g: &Vec<(i32, Vec<T>)>, k: i32) -> (r: Option<usize>)
    ensures
        match r {
            Some(i) => i < g@.len() && group_index(groups_view(g@), k as int) == Some(i as int),
            None => group_index(groups_view(g@), k as int) is None,
        },
{
    let ghost gv = groups_view(g@);
    let mut i: usize = 0;
    while i < g.len()
        invariant
            i <= g@.len(),
            gv == groups_view(g@),
            gv.len() == g@.len(),
            group_index(gv.subrange(0, i as int), k as int) is None,
        decreases g.len() - i,
    {
        assert(gv.subrange(0, i + 1).drop_last() == gv.subrange(0, i as int));
        if g[i].0 == k {
            proof {
                lemma_group_index_extend(gv, i + 1, k as int);
            }
            return Some(i);
        }
        i = i + 1;
    }
    assert(gv.subrange(0, i as int) == gv);
    None
}

/// Groups rows by key, in order of each key's first row.
pub fn group_by_key<T: View>(rows: Vec<(i32, T)>) -> (r: Vec<(i32, Vec<T>)>)
    ensures
        groups_view(r@) == grouped(rows_view(rows@)),
{
    let ghost all = rows_view(rows@);
    let total: usize = rows.len();
    let ghost n = rows@.len();
    let mut rest = rows;
    assert(all.subrange(0, 0) =~= Seq::<(int, T::V)>::empty());
    assert(all.subrange(0, n as int) == all);
    let mut out: Vec<(i32, Vec<T>)> = Vec::new();
    let mut taken: usize = 0;
    while rest.len() > 0
        invariant
            taken + rest@.len() == n,
            n == total,
            rows_view(rest@) == all.subrange(taken as int, n as int),
            all.len() == n,
            groups_view(out@) == grouped(all.subrange(0, taken as int)),
        decreases rest.len(),
    {
        let ghost before = groups_view(out@);
        let ghost old_rest = rest@;
        let (k, v) = rest.remove(0);
        proof {
            assert(rows_view(old_rest)[0] == (k as int, v@));
            assert(all[taken as int] == rows_view(old_rest)[0]);
            assert(rest@ =~= old_rest.subrange(1, old_rest.len() as int));
            assert(rows_view(rest@) =~= rows_view(old_rest).subrange(1, old_rest.len() as int));
            assert(rows_view(rest@) =~= all.subrange(taken + 1, n as int));
            assert(all.subrange(0, taken + 1).drop_last() == all.subrange(0, taken as int));
            assert(all.subrange(0, taken + 1).last() == (k as int, v@));
        }
        let ghost vv = v@;
        match find_group(&out, k) {
            Some(i) => {
                proof {
                    lemma_group_index_found(before, k as int);
                }
                let ghost old_out = out@;
                let (gk, mut grp) = out.remove(i);
                let ghost old_grp = grp@;
                grp.push(v);
                assert(grp@.map_values(|t: T| t@) =~= old_grp.map_values(|t: T| t@).push(vv));
                out.insert(i, (gk, grp));
                assert(out@ =~= old_out.update(i as int, (gk, grp)));
                assert(groups_view(out@) =~= before.update(i as int, (k as int, before[i as int].1.push(vv))));
            },
            None => {
                let mut grp: Vec<T> = Vec::new();
                grp.push(v);
                assert(grp@.map_values(|t: T| t@) =~= seq![vv]);
                let ghost mid = out@;
                out.push((k, grp));
                assert(groups_view(out@) =~= before.push((k as int, seq![vv])));
            },
        }
        taken = taken + 1;
    }
    assert(all.subrange(0, n as int) == all);
    out
}

} // verus!

//! Field values carried by change records and held by store rows.

use vstd::prelude::*;

verus! {

/// A typed scalar of a change record's field map, as it stands on the wire.
#[derive(Debug, PartialEq)]
pub enum FieldValue {
    Null,
    Bool(bool),
    Int(i64),
    Text(String),
    /// An array; each element is `Some` where it is a string.
    List(Vec<Option<String>>),
    /// Any other JSON value, kept as its JSON text.
    Raw(String),
}

/// The mathematical form of a `FieldValue`.
pub enum ValueV {
    Null,
    Bool(bool),
    Int(int),
    Text(Seq<char>),
    List(Seq<Option<Seq<char>>>),
    Raw(Seq<char>),
}

pub open spec fn opt_text_view(o: Option<String>) -> Option<Seq<char>> {
    match o {
        Some(s) => Some(s@),
        None => None,
    }
}

impl View for FieldValue {
    type V = ValueV;

    open spec fn view(&self) -> ValueV {
        match self {
            FieldValue::Null => ValueV::Null,
            FieldValue::Bool(b) => ValueV::Bool(*b),
            FieldValue::Int(i) => ValueV::Int(*i as int),
            FieldValue::Text(s) => ValueV::Text(s@),
            FieldValue::List(v) => ValueV::List(v@.map_values(|o: Option<String>| opt_text_view(o))),
            FieldValue::Raw(s) => ValueV::Raw(s@),
        }
    }
}

/// The field map that a sequence of entries stands for: a later entry for a
/// key overrides an earlier one.
pub open spec fn entries_map(s: Seq<(Seq<char>, ValueV)>) -> Map<Seq<char>, ValueV>
    decreases s.len(),
{
    if s.len() == 0 {
        Map::empty()
    } else {
        entries_map(s.drop_last()).insert(s.last().0, s.last().1)
    }
}

pub open spec fn entry_view(e: (String, FieldValue)) -> (Seq<char>, ValueV) {
    (e.0@, e.1@)
}

/// The view of a vector of entries, one pair per entry.
pub open spec fn entries_view(v: Seq<(String, FieldValue)>) -> Seq<(Seq<char>, ValueV)> {
    v.map_values(|e: (String, FieldValue)| entry_view(e))
}

/// The text held under `k`, if the value there is a string.
pub open spec fn text_field(m: Map<Seq<char>, ValueV>, k: Seq<char>) -> Option<Seq<char>> {
    if m.contains_key(k) {
        match m[k] {
            ValueV::Text(s) => Some(s),
            _ => None,
        }
    } else {
        None
    }
}

/// The boolean held under `k`, if the value there is a boolean.
pub open spec fn bool_field(m: Map<Seq<char>, ValueV>, k: Seq<char>) -> Option<bool> {
    if m.contains_key(k) {
        match m[k] {
            ValueV::Bool(b) => Some(b),
            _ => None,
        }
    } else {
        None
    }
}

/// The list held under `k`, if the value there is an array.
pub open spec fn list_field(m: Map<Seq<char>, ValueV>, k: Seq<char>) -> Option<Seq<Option<Seq<char>>>> {
    if m.contains_key(k) {
        match m[k] {
            ValueV::List(l) => Some(l),
            _ => None,
        }
    } else {
        None
    }
}

/// Strict lexicographic order of texts by code point, the order of `str`'s `<`.
pub open spec fn text_lt(a: Seq<char>, b: Seq<char>) -> bool
    decreases a.len(),
{
    if a.len() == 0 {
        b.len() > 0
    } else if b.len() == 0 {
        false
    } else if a[0] != b[0] {
        (a[0] as int) < (b[0] as int)
    } else {
        text_lt(a.drop_first(), b.drop_first())
    }
}

pub proof fn lemma_text_lt_transitive(a: Seq<char>, b: Seq<char>, c: Seq<char>)
    requires
        text_lt(a, b),
        text_lt(b, c),
    ensures
        text_lt(a, c),
    decreases a.len(),
{
    if a.len() > 0 && b.len() > 0 && c.len() > 0 && a[0] == b[0] && b[0] == c[0] {
        lemma_text_lt_transitive(a.drop_first(), b.drop_first(), c.drop_first());
    }
}

pub proof fn lemma_text_lt_irreflexive(a: Seq<char>)
    ensures
        !text_lt(a, a),
    decreases a.len(),
{
    if a.len() > 0 {
        lemma_text_lt_irreflexive(a.drop_first());
    }
}

/// Whether two texts are equal.
pub fn text_eq(a: &str, b: &str) -> (r: bool)
    ensures
        r == (a@ == b@),
{
    let n = a.unicode_len();
    let m = b.unicode_len();
    if n != m {
        return false;
    }
    let mut i: usize = 0;
    while i < n
        invariant
            n == a@.len(),
            m == b@.len(),
            n == m,
            i <= n,
            a@.subrange(0, i as int) == b@.subrange(0, i as int),
        decreases n - i,
    {
        if a.get_char(i) != b.get_char(i) {
            return false;
        }
        assert(a@.subrange(0, i + 1) == a@.subrange(0, i as int).push(a@[i as int]));
        assert(b@.subrange(0, i + 1) == b@.subrange(0, i as int).push(b@[i as int]));
        i = i + 1;
    }
    assert(a@ == a@.subrange(0, n as int));
    assert(b@ == b@.subrange(0, n as int));
    true
}

/// Whether `a` sorts strictly after `b`.
pub fn text_gt(a: &str, b: &str) -> (r: bool)
    ensures
        r == text_lt(b@, a@),
{
    let n = a.unicode_len();
    let m = b.unicode_len();
    let mut i: usize = 0;
    assert(a@.subrange(0, n as int) == a@);
    assert(b@.subrange(0, m as int) == b@);
    while i < n && i < m
        invariant
            n == a@.len(),
            m == b@.len(),
            i <= n,
            i <= m,
            a@.subrange(0, i as int) == b@.subrange(0, i as int),
            text_lt(b@, a@) == text_lt(b@.subrange(i as int, m as int), a@.subrange(i as int, n as int)),
        decreases n - i,
    {
        let ca = a.get_char(i);
        let cb = b.get_char(i);
        let ghost sa = a@.subrange(i as int, n as int);
        let ghost sb = b@.subrange(i as int, m as int);
        assert(sa[0] == ca && sb[0] == cb);
        if ca != cb {
            return (cb as u32) < (ca as u32);
        }
        assert(sa.drop_first() == a@.subrange(i + 1, n as int));
        assert(sb.drop_first() == b@.subrange(i + 1, m as int));
        assert(a@.subrange(0, i + 1) == a@.subrange(0, i as int).push(a@[i as int]));
        assert(b@.subrange(0, i + 1) == b@.subrange(0, i as int).push(b@[i as int]));
        i = i + 1;
    }
    i < n
}

/// A copy of a field value with the same view.
pub fn copy_value(v: &FieldValue) -> (r: FieldValue)
    ensures
        r@ == v@,
{
    match v {
        FieldValue::Null => FieldValue::Null,
        FieldValue::Bool(b) => FieldValue::Bool(*b),
        FieldValue::Int(i) => FieldValue::Int(*i),
        FieldValue::Text(s) => FieldValue::Text(s.clone()),
        FieldValue::Raw(s) => FieldValue::Raw(s.clone()),
        FieldValue::List(items) => {
            let mut out: Vec<Option<String>> = Vec::new();
            let mut i: usize = 0;
            while i < items.len()
                invariant
                    i <= items.len(),
                    out@.len() == i,
                    forall|j: int| 0 <= j < i ==> opt_text_view(#[trigger] out@[j]) == opt_text_view(items@[j]),
                decreases items.len() - i,
            {
                let o = match &items[i] {
                    Some(s) => Some(s.clone()),
                    None => None,
                };
                out.push(o);
                i = i + 1;
            }
            let r = FieldValue::List(out);
            assert(out@.map_values(|o: Option<String>| opt_text_view(o)) =~= items@.map_values(
                |o: Option<String>| opt_text_view(o),
            ));
            r
        }
    }
}

/// A copy of a vector of entries with the same view.
pub fn copy_entries(v: &Vec<(String, FieldValue)>) -> (r: Vec<(String, FieldValue)>)
    ensures
        entries_view(r@) == entries_view(v@),
{
    let mut out: Vec<(String, FieldValue)> = Vec::new();
    let mut i: usize = 0;
    while i < v.len()
        invariant
            i <= v.len(),
            entries_view(out@) == entries_view(v@.subrange(0, i as int)),
        decreases v.len() - i,
    {
        let k = v[i].0.clone();
        let val = copy_value(&v[i].1);
        let ghost before = out@;
        out.push((k, val));
        assert(out@ == before.push((k, val)));
        assert(entry_view((k, val)) == entry_view(v@[i as int]));
        assert(v@.subrange(0, i + 1) == v@.subrange(0, i as int).push(v@[i as int]));
        assert(entries_view(before.push((k, val))) =~= entries_view(before).push(entry_view((k, val))));
        assert(entries_view(v@.subrange(0, i as int).push(v@[i as int])) =~= entries_view(
            v@.subrange(0, i as int),
        ).push(entry_view(v@[i as int])));
        i = i + 1;
    }
    assert(v@.subrange(0, v.len() as int) == v@);
    out
}

proof fn lemma_entries_map_last(s: Seq<(Seq<char>, ValueV)>, i: int, k: Seq<char>)
    requires
        0 <= i < s.len(),
        s[i].0 == k,
        forall|j: int| i < j < s.len() ==> s[j].0 != k,
    ensures
        entries_map(s).contains_key(k),
        entries_map(s)[k] == s[i].1,
    decreases s.len(),
{
    if i < s.len() - 1 {
        lemma_entries_map_last(s.drop_last(), i, k);
    }
}

proof fn lemma_entries_map_absent(s: Seq<(Seq<char>, ValueV)>, k: Seq<char>)
    requires
        forall|j: int| 0 <= j < s.len() ==> s[j].0 != k,
    ensures
        !entries_map(s).contains_key(k),
    decreases s.len(),
{
    if s.len() > 0 {
        lemma_entries_map_absent(s.drop_last(), k);
    }
}

/// Overwriting the deciding entry of a key sets that key.
pub proof fn lemma_entries_map_overwrite(s: Seq<(Seq<char>, ValueV)>, j: int, e: (Seq<char>, ValueV))
    requires
        0 <= j < s.len(),
        s[j].0 == e.0,
        forall|x: int| j < x < s.len() ==> s[x].0 != e.0,
    ensures
        entries_map(s.update(j, e)) == entries_map(s).insert(e.0, e.1),
    decreases s.len(),
{
    let t = s.update(j, e);
    if j == s.len() - 1 {
        assert(t.drop_last() == s.drop_last());
        assert(entries_map(t) =~= entries_map(s).insert(e.0, e.1));
    } else {
        assert(t.drop_last() == s.drop_last().update(j, e));
        lemma_entries_map_overwrite(s.drop_last(), j, e);
        assert(s.last().0 != e.0);
        assert(entries_map(t) =~= entries_map(s).insert(e.0, e.1));
    }
}

/// The index of the entry that decides the value under `k`: the last one
/// with that key.
pub fn find_entry(v: &Vec<(String, FieldValue)>, k: &str) -> (r: Option<usize>)
    ensures
        match r {
            Some(i) => {
                &&& i < v@.len()
                &&& v@[i as int].0@ == k@
                &&& entries_map(entries_view(v@)).contains_key(k@)
                &&& entries_map(entries_view(v@))[k@] == v@[i as int].1@
                &&& forall|j: int| i < j < v@.len() ==> v@[j].0@ != k@
            },
            None => !entries_map(entries_view(v@)).contains_key(k@),
        },
{
    let ghost s = entries_view(v@);
    let mut i: usize = v.len();
    while i > 0
        invariant
            i <= v@.len(),
            s == entries_view(v@),
            forall|j: int| i <= j < s.len() ==> s[j].0 != k@,
        decreases i,
    {
        if text_eq(v[i - 1].0.as_str(), k) {
            proof {
                lemma_entries_map_last(s, i - 1, k@);
                assert forall|j: int| i - 1 < j < v@.len() implies v@[j].0@ != k@ by {
                    assert(s[j] == entry_view(v@[j]));
                }
            }
            return Some(i - 1);
        }
        i = i - 1;
    }
    proof {
        lemma_entries_map_absent(s, k@);
    }
    None
}

/// The text under `k`, if the value there is a string.
pub fn get_text<'a>(v: &'a Vec<(String, FieldValue)>, k: &str) -> (r: Option<&'a String>)
    ensures
        match r {
            Some(s) => text_field(entries_map(entries_view(v@)), k@) == Some(s@),
            None => text_field(entries_map(entries_view(v@)), k@) is None,
        },
{
    match find_entry(v, k) {
        Some(i) => match &v[i].1 {
            FieldValue::Text(s) => Some(s),
            _ => None,
        },
        None => None,
    }
}

/// The boolean under `k`, if the value there is a boolean.
pub fn get_bool(v: &Vec<(String, FieldValue)>, k: &str) -> (r: Option<bool>)
    ensures
        r == bool_field(entries_map(entries_view(v@)), k@),
{
    match find_entry(v, k) {
        Some(i) => match &v[i].1 {
            FieldValue::Bool(b) => Some(*b),
            _ => None,
        },
        None => None,
    }
}

/// The array under `k`, if the value there is an array.
pub fn get_list<'a>(v: &'a Vec<(String, FieldValue)>, k: &str) -> (r: Option<&'a Vec<Option<String>>>)
    ensures
        match r {
            Some(l) => list_field(entries_map(entries_view(v@)), k@) == Some(
                l@.map_values(|o: Option<String>| opt_text_view(o)),
            ),
            None => list_field(entries_map(entries_view(v@)), k@) is None,
        },
{
    match find_entry(v, k) {
        Some(i) => match &v[i].1 {
            FieldValue::List(l) => Some(l),
            _ => None,
        },
        None => None,
    }
}

/// No two entries share a key.
pub open spec fn distinct_keys(s: Seq<(Seq<char>, ValueV)>) -> bool {
    forall|i: int, j: int| 0 <= i < j < s.len() ==> #[trigger] s[i].0 != #[trigger] s[j].0
}

proof fn lemma_entries_map_distinct(s: Seq<(Seq<char>, ValueV)>)
    requires
        distinct_keys(s),
    ensures
        forall|k: Seq<char>| #[trigger] entries_map(s).contains_key(k) <==> exists|i: int| 0 <= i < s.len() && s[i].0 == k,
        forall|i: int| 0 <= i < s.len() ==> #[trigger] entries_map(s)[s[i].0] == s[i].1,
    decreases s.len(),
{
    if s.len() > 0 {
        let t = s.drop_last();
        assert(distinct_keys(t));
        lemma_entries_map_distinct(t);
        assert forall|k: Seq<char>| #[trigger] entries_map(s).contains_key(k) <==> exists|i: int| 0 <= i < s.len() && s[i].0 == k by {
            if entries_map(t).contains_key(k) {
                let i = choose|i: int| 0 <= i < t.len() && t[i].0 == k;
                assert(s[i].0 == k);
            }
            if exists|i: int| 0 <= i < s.len() && s[i].0 == k {
                let i = choose|i: int| 0 <= i < s.len() && s[i].0 == k;
                if i < s.len() - 1 {
                    assert(t[i].0 == k);
                }
            }
        }
        assert forall|i: int| 0 <= i < s.len() implies #[trigger] entries_map(s)[s[i].0] == s[i].1 by {
            if i < s.len() - 1 {
                assert(t[i] == s[i]);
                assert(s[i].0 != s[s.len() - 1].0);
                assert(entries_map(t)[t[i].0] == t[i].1);
            } else {
                assert(s[i] == s.last());
            }
        }
    }
}

/// The columns that a list of entries sets, each once, the last entry for
/// a key deciding its value.
pub fn distinct_columns(fields: &Vec<(String, FieldValue)>) -> (r: Vec<(String, FieldValue)>)
    ensures
        distinct_keys(entries_view(r@)),
        entries_map(entries_view(r@)) == entries_map(entries_view(fields@)),
{
    let mut out: Vec<(String, FieldValue)> = Vec::new();
    let mut i: usize = 0;
    assert(entries_map(entries_view(out@)) =~= entries_map(entries_view(fields@.subrange(0, 0)))) by {
        assert(entries_view(fields@.subrange(0, 0)) =~= Seq::<(Seq<char>, ValueV)>::empty());
    }
    while i < fields.len()
        invariant
            i <= fields@.len(),
            distinct_keys(entries_view(out@)),
            entries_map(entries_view(out@)) == entries_map(entries_view(fields@.subrange(0, i as int))),
        decreases fields.len() - i,
    {
        let ghost before = entries_view(out@);
        let ghost prefix = entries_view(fields@.subrange(0, i + 1));
        assert(prefix.drop_last() =~= entries_view(fields@.subrange(0, i as int)));
        assert(prefix.last() == entry_view(fields@[i as int]));
        let key = &fields[i].0;
        {
            let value = copy_value(&fields[i].1);
            let ghost e = (key@, value@);
            let mut j: usize = 0;
            let mut at: Option<usize> = None;
            while j < out.len() && at.is_none()
                invariant
                    j <= out@.len(),
                    before == entries_view(out@),
                    at is None ==> forall|x: int| 0 <= x < j ==> before[x].0 != key@,
                    at matches Some(x) ==> x < out@.len() && before[x as int].0 == key@,
                decreases out@.len() - j + (if at is None { 1int } else { 0int }),
            {
                if text_eq(out[j].0.as_str(), key.as_str()) {
                    at = Some(j);
                } else {
                    j = j + 1;
                }
            }
            proof {
                lemma_entries_map_distinct(before);
            }
            match at {
                Some(x) => {
                    out.set(x, (key.clone(), value));
                    let ghost after = entries_view(out@);
                    assert(after =~= before.update(x as int, e));
                    assert(distinct_keys(after)) by {
                        assert forall|a: int, b: int| 0 <= a < b < after.len() implies #[trigger] after[a].0 != #[trigger] after[b].0 by {
                            assert(before[a].0 == after[a].0 && before[b].0 == after[b].0);
                        }
                    }
                    proof {
                        lemma_entries_map_distinct(after);
                        assert forall|k: Seq<char>| #[trigger] entries_map(after).contains_key(k) == entries_map(before).insert(key@, value@).contains_key(k)
                            && (entries_map(after).contains_key(k) ==> entries_map(after)[k] == entries_map(before).insert(key@, value@)[k]) by {
                            if entries_map(after).contains_key(k) {
                                let a = choose|a: int| 0 <= a < after.len() && after[a].0 == k;
                                assert(entries_map(after)[after[a].0] == after[a].1);
                                if a != x {
                                    assert(before[a] == after[a]);
                                    assert(entries_map(before)[before[a].0] == before[a].1);
                                }
                            }
                            if entries_map(before).contains_key(k) {
                                let a = choose|a: int| 0 <= a < before.len() && before[a].0 == k;
                                assert(after[a].0 == k);
                            }
                            if k == key@ {
                                assert(after[x as int].0 == k);
                            }
                        }
                    }
                    assert(entries_map(after) =~= entries_map(before).insert(key@, value@));
                },
                None => {
                    out.push((key.clone(), value));
                    let ghost after = entries_view(out@);
                    assert(after =~= before.push(e));
                    assert(after.drop_last() == before);
                },
            }
            assert(entries_map(entries_view(out@)) =~= entries_map(prefix));
        }
        i = i + 1;
    }
    assert(fields@.subrange(0, i as int) == fields@);
    out
}

} // verus!

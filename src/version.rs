//! Dotted version numbers, compared component by component.

use vstd::prelude::*;

verus! {

/// The texts between the dots of `s`; one empty text for an empty `s`.
pub open spec fn split_dots(s: Seq<char>) -> Seq<Seq<char>>
    decreases s.len(),
{
    if s.len() == 0 {
        seq![seq![]]
    } else {
        let pre = split_dots(s.drop_last());
        if s.last() == '.' {
            pre.push(seq![])
        } else {
            pre.update(pre.len() - 1, pre.last().push(s.last()))
        }
    }
}

pub open spec fn is_digit(c: char) -> bool {
    '0' <= c && c <= '9'
}

/// The value of a text of decimal digits.
pub open spec fn digits_value(s: Seq<char>) -> nat
    decreases s.len(),
{
    if s.len() == 0 {
        0
    } else {
        digits_value(s.drop_last()) * 10 + (s.last() as nat - '0' as nat) as nat
    }
}

/// What `u64`'s `parse` makes of a text, with 0 where it fails: an optional
/// `+`, then one or more digits of a value that fits.
pub open spec fn segment_value(s: Seq<char>) -> nat {
    let body = unsigned_part(s);
    if body.len() > 0 && all_digits(body) && digits_value(body) <= u64::MAX {
        digits_value(body)
    } else {
        0
    }
}

/// A text without its leading `+`, if it has one.
pub open spec fn unsigned_part(s: Seq<char>) -> Seq<char> {
    if s.len() > 0 && s[0] == '+' {
        s.drop_first()
    } else {
        s
    }
}

pub open spec fn all_digits(s: Seq<char>) -> bool {
    forall|i: int| 0 <= i < s.len() ==> is_digit(#[trigger] s[i])
}

pub open spec fn parsed_version(s: Seq<char>) -> Seq<u64> {
    split_dots(s).map_values(|seg: Seq<char>| segment_value(seg) as u64)
}

proof fn lemma_digits_value_monotone(s: Seq<char>, n: int)
    requires
        0 <= n <= s.len(),
        forall|i: int| 0 <= i < s.len() ==> is_digit(#[trigger] s[i]),
    ensures
        digits_value(s.subrange(0, n)) <= digits_value(s),
    decreases s.len() - n,
{
    if n < s.len() {
        lemma_digits_value_monotone(s, n + 1);
        assert(s.subrange(0, n + 1).drop_last() == s.subrange(0, n));
    } else {
        assert(s.subrange(0, n) == s);
    }
}

/// The value of one dot-separated component, 0 where it does not parse.
fn parse_segment(s: &str) -> (r: u64)
    ensures
        r as nat == segment_value(s@),
{
    let n = s.unicode_len();
    let mut start: usize = 0;
    if n > 0 && s.get_char(0) == '+' {
        start = 1;
    }
    let ghost body = unsigned_part(s@);
    assert(body == s@.subrange(start as int, n as int));
    if start >= n {
        return 0;
    }
    let mut v: u64 = 0;
    let mut i: usize = start;
    while i < n
        invariant
            start <= i <= n,
            n == s@.len(),
            body == s@.subrange(start as int, n as int),
            body == unsigned_part(s@),
            forall|j: int| start <= j < i ==> is_digit(#[trigger] s@[j]),
            v as nat == digits_value(s@.subrange(start as int, i as int)),
        decreases n - i,
    {
        let c = s.get_char(i);
        if !('0' <= c && c <= '9') {
            assert(body[i - start] == c);
            assert(!is_digit(body[i - start]));
            assert(!all_digits(body));
            return 0;
        }
        let d: u64 = (c as u32 - '0' as u32) as u64;
        assert(s@.subrange(start as int, i + 1).drop_last() == s@.subrange(start as int, i as int));
        assert(digits_value(s@.subrange(start as int, i + 1)) == digits_value(s@.subrange(start as int, i as int)) * 10 + d);
        if v > (u64::MAX - d) / 10 {
            proof {
                assert(v * 10 + d > u64::MAX) by (nonlinear_arith)
                    requires
                        v > (u64::MAX - d) / 10,
                        d <= 9,
                ;
                if all_digits(body) {
                    lemma_digits_value_monotone(body, i + 1 - start);
                    assert(body.subrange(0, i + 1 - start) == s@.subrange(start as int, i + 1));
                    assert(digits_value(body) > u64::MAX);
                }
                assert(segment_value(s@) == 0);
            }
            return 0;
        }
        v = v * 10 + d;
        i = i + 1;
    }
    assert(s@.subrange(start as int, n as int) == body);
    v
}

/// The components of a dotted version, each 0 where it does not parse.
pub fn parse_version(s: &str) -> (r: Vec<u64>)
    ensures
        r@ == parsed_version(s@),
{
    let n = s.unicode_len();
    let mut out: Vec<u64> = Vec::new();
    let ghost mut done: Seq<Seq<char>> = seq![];
    let mut start: usize = 0;
    let mut i: usize = 0;
    assert(s@.subrange(0, 0) =~= Seq::<char>::empty());
    assert(done.push(s@.subrange(0, 0)) =~= seq![Seq::<char>::empty()]);
    while i < n
        invariant
            start <= i <= n,
            n == s@.len(),
            split_dots(s@.subrange(0, i as int)) == done.push(s@.subrange(start as int, i as int)),
            out@ == done.map_values(|seg: Seq<char>| segment_value(seg) as u64),
        decreases n - i,
    {
        let c = s.get_char(i);
        let ghost cur = s@.subrange(start as int, i as int);
        assert(s@.subrange(0, i + 1).drop_last() == s@.subrange(0, i as int));
        assert(s@.subrange(0, i + 1).last() == c);
        if c == '.' {
            let v = parse_segment(s.substring_char(start, i));
            out.push(v);
            proof {
                assert(out@ =~= done.push(cur).map_values(|seg: Seq<char>| segment_value(seg) as u64));
                done = done.push(cur);
            }
            start = i + 1;
            assert(s@.subrange(start as int, i + 1) =~= Seq::<char>::empty());
        } else {
            assert(s@.subrange(start as int, i + 1) =~= cur.push(c));
            assert(done.push(cur).update(done.len() as int, cur.push(c)) =~= done.push(cur.push(c)));
        }
        i = i + 1;
    }
    let v = parse_segment(s.substring_char(start, n));
    out.push(v);
    assert(s@.subrange(0, n as int) == s@);
    assert(out@ =~= split_dots(s@).map_values(|seg: Seq<char>| segment_value(seg) as u64));
    out
}

/// Component `i` of a version, 0 past its end.
pub open spec fn component(v: Seq<u64>, i: int) -> u64 {
    if 0 <= i < v.len() { v[i] } else { 0 }
}

/// Whether `a` is the same as or later than `b` from component `i` on.
pub open spec fn ge_from(a: Seq<u64>, b: Seq<u64>, i: int) -> bool
    decreases (if a.len() > b.len() { a.len() } else { b.len() }) - i,
{
    if i < 0 || (i >= a.len() && i >= b.len()) {
        true
    } else if component(a, i) > component(b, i) {
        true
    } else if component(a, i) < component(b, i) {
        false
    } else {
        ge_from(a, b, i + 1)
    }
}

/// Whether version `a` is the same as or later than version `b`, missing
/// components counting as 0.
pub fn version_ge(a: &str, b: &str) -> (r: bool)
    ensures
        r == ge_from(parsed_version(a@), parsed_version(b@), 0),
{
    let va = parse_version(a);
    let vb = parse_version(b);
    let n = if va.len() > vb.len() { va.len() } else { vb.len() };
    let mut i: usize = 0;
    while i < n
        invariant
            i <= n,
            n == (if va@.len() > vb@.len() { va@.len() } else { vb@.len() }),
            ge_from(va@, vb@, 0) == ge_from(va@, vb@, i as int),
            va@ == parsed_version(a@),
            vb@ == parsed_version(b@),
        decreases n - i,
    {
        let x: u64 = if i < va.len() { va[i] } else { 0 };
        let y: u64 = if i < vb.len() { vb[i] } else { 0 };
        assert(x == component(va@, i as int) && y == component(vb@, i as int));
        assert(ge_from(va@, vb@, i as int) == if x > y { true } else if x < y { false } else { ge_from(va@, vb@, i + 1) });
        if x > y {
            return true;
        } else if x < y {
            return false;
        }
        i = i + 1;
    }
    true
}

} // verus!

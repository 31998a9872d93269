//! Outbox record file names: `<timestamp-ms>_<origin>_<8 hex digits>.json`.

use vstd::prelude::*;
use crate::record::DeltaSyncPayload;
use crate::value::{FieldValue, entries_view};

verus! {

pub open spec fn digit_char(d: nat) -> char {
    if d == 0 { '0' } else if d == 1 { '1' } else if d == 2 { '2' } else if d == 3 { '3' }
    else if d == 4 { '4' } else if d == 5 { '5' } else if d == 6 { '6' } else if d == 7 { '7' }
    else if d == 8 { '8' } else { '9' }
}

/// The decimal digits of `n`, most significant first.
pub open spec fn digits_of(n: nat) -> Seq<char>
    decreases n,
{
    if n < 10 {
        seq![digit_char(n)]
    } else {
        digits_of(n / 10).push(digit_char(n % 10))
    }
}

/// `n` written in decimal, with a leading minus sign when negative.
pub open spec fn decimal(n: int) -> Seq<char> {
    if n < 0 {
        seq!['-'] + digits_of((-n) as nat)
    } else {
        digits_of(n as nat)
    }
}

pub open spec fn is_lower_hex(c: char) -> bool {
    ('0' <= c && c <= '9') || ('a' <= c && c <= 'f')
}

/// The file name of a record made at `timestamp` by `origin`, with random
/// suffix `suffix`.
pub open spec fn record_name(timestamp: int, origin: Seq<char>, suffix: Seq<char>) -> Seq<char> {
    decimal(timestamp) + seq!['_'] + origin + seq!['_'] + suffix + seq!['.', 'j', 's', 'o', 'n']
}

fn digit_text(d: u64) -> (r: &'static str)
    requires
        d < 10,
    ensures
        r@ == seq![digit_char(d as nat)],
{
    proof {
        reveal_strlit("0");
        reveal_strlit("1");
        reveal_strlit("2");
        reveal_strlit("3");
        reveal_strlit("4");
        reveal_strlit("5");
        reveal_strlit("6");
        reveal_strlit("7");
        reveal_strlit("8");
        reveal_strlit("9");
    }
    if d == 0 { "0" } else if d == 1 { "1" } else if d == 2 { "2" } else if d == 3 { "3" }
    else if d == 4 { "4" } else if d == 5 { "5" } else if d == 6 { "6" } else if d == 7 { "7" }
    else if d == 8 { "8" } else { "9" }
}

fn append_digits(out: &mut String, n: u64)
    ensures
        final(out)@ == old(out)@ + digits_of(n as nat),
    decreases n,
{
    if n >= 10 {
        append_digits(out, n / 10);
    }
    out.append(digit_text(n % 10));
    assert(old(out)@ + digits_of(n as nat) =~= if n >= 10 {
        old(out)@ + digits_of((n / 10) as nat) + seq![digit_char((n % 10) as nat)]
    } else {
        old(out)@ + seq![digit_char((n % 10) as nat)]
    });
}

/// `n` written in decimal.
pub fn decimal_text(n: i64) -> (r: String)
    ensures
        r@ == decimal(n as int),
{
    let mut out = String::new();
    if n < 0 {
        out.append("-");
        proof {
            reveal_strlit("-");
        }
        let magnitude: u64 = ((-(n + 1)) as u64) + 1;
        append_digits(&mut out, magnitude);
    } else {
        append_digits(&mut out, n as u64);
    }
    out
}

/// The file name of a record made at `timestamp` by `origin`; the first
/// eight characters of `random` are the suffix.
pub fn record_file_name(timestamp: i64, origin: &str, random: &str) -> (r: String)
    requires
        random@.len() >= 8,
    ensures
        r@ == record_name(timestamp as int, origin@, random@.subrange(0, 8)),
{
    proof {
        reveal_strlit("_");
        reveal_strlit(".json");
    }
    let mut name = decimal_text(timestamp);
    name.append("_");
    name.append(origin);
    name.append("_");
    name.append(random.substring_char(0, 8));
    name.append(".json");
    name
}

/// Relies on `uuid::Uuid::new_v4` and its `Display`, which writes the
/// hyphenated lower-case form: 36 characters, the first eight hex digits.
#[verifier::external_body]
fn random_uuid_text() -> (r: String)
    ensures
        r@.len() == 36,
        forall|i: int| 0 <= i < 8 ==> is_lower_hex(#[trigger] r@[i]),
{
    uuid::Uuid::new_v4().to_string()
}

/// A fresh file name for a record made at `timestamp` by `origin`: its
/// suffix is eight random lower-case hex digits.
pub fn new_record_file_name(timestamp: i64, origin: &str) -> (r: String)
    ensures
        exists|suffix: Seq<char>|
            suffix.len() == 8 && (forall|i: int| 0 <= i < 8 ==> is_lower_hex(#[trigger] suffix[i])) && r@
                == record_name(timestamp as int, origin@, suffix),
{
    let random = random_uuid_text();
    let r = record_file_name(timestamp, origin, random.as_str());
    let ghost suffix = random@.subrange(0, 8);
    assert forall|i: int| 0 <= i < 8 implies is_lower_hex(#[trigger] suffix[i]) by {
        assert(suffix[i] == random@[i]);
    }
    r
}

/// Delta capture: the record of a mutation committed at `timestamp` by
/// `origin`, and the fresh name of the outbox file that holds it.
pub fn capture(
    timestamp: i64,
    origin: &str,
    table: &str,
    target_id: i32,
    action: &str,
    changes: Vec<(String, FieldValue)>,
) -> (r: (String, DeltaSyncPayload))
    ensures
        r.1.timestamp == timestamp,
        r.1.pc_name@ == origin@,
        r.1.table@ == table@,
        r.1.target_id == target_id,
        r.1.action@ == action@,
        r.1.changes matches Some(c) && entries_view(c@) == entries_view(changes@),
        exists|suffix: Seq<char>|
            suffix.len() == 8 && (forall|i: int| 0 <= i < 8 ==> is_lower_hex(#[trigger] suffix[i])) && r.0@
                == record_name(timestamp as int, origin@, suffix),
{
    let name = new_record_file_name(timestamp, origin);
    let payload = DeltaSyncPayload {
        timestamp,
        pc_name: String::from_str(origin),
        action: String::from_str(action),
        table: String::from_str(table),
        target_id,
        changes: Some(changes),
    };
    (name, payload)
}

} // verus!

//! Change records: one committed local mutation, as peers receive it.

use vstd::prelude::*;
use crate::value::{FieldValue, ValueV, entries_view};

verus! {

/// One change record of the outbox.
pub struct DeltaSyncPayload {
    /// Wall-clock milliseconds at creation.
    pub timestamp: i64,
    /// The identity of the machine that produced the record.
    pub pc_name: String,
    /// `insert`, `update`, `toggle` or `set`.
    pub action: String,
    pub table: String,
    pub target_id: i32,
    /// The changed columns, in wire order; `None` where the record's changes
    /// are not an object.
    pub changes: Option<Vec<(String, FieldValue)>>,
}

pub struct RecordV {
    pub timestamp: int,
    pub origin: Seq<char>,
    pub action: Seq<char>,
    pub table: Seq<char>,
    pub target_id: int,
    pub changes: Option<Seq<(Seq<char>, ValueV)>>,
}

impl View for DeltaSyncPayload {
    type V = RecordV;

    open spec fn view(&self) -> RecordV {
        RecordV {
            timestamp: self.timestamp as int,
            origin: self.pc_name@,
            action: self.action@,
            table: self.table@,
            target_id: self.target_id as int,
            changes: match self.changes {
                Some(c) => Some(entries_view(c@)),
                None => None,
            },
        }
    }
}

} // verus!

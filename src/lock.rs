//! The edit-presence marker: which user holds the shared store for editing,
//! and when a marker was abandoned.

use vstd::prelude::*;
use crate::value::text_eq;

verus! {

/// The content of a presence marker.
pub struct LockData {
    pub user: String,
    pub locked_at: String,
    pub updated_at: String,
}

/// How this process may use the shared store.
pub enum LockStatus {
    Edit,
    /// Another user holds the marker.
    ReadOnly(String),
    /// The holder's marker was abandoned.
    Zombie(String),
}

/// The lock state as the presentation layer shows it.
pub struct LockInfo {
    /// `edit`, `readonly` or `zombie`.
    pub mode: String,
    pub locked_by: Option<String>,
    pub current_user: String,
    pub display_name: String,
}

impl LockInfo {
    /// The view of `status` for `current_user`, shown as `display_name`.
    pub fn from_status(status: &LockStatus, current_user: String, display_name: String) -> (r: LockInfo)
        ensures
            r.current_user == current_user,
            r.display_name == display_name,
            r.mode@ == match status {
                LockStatus::Edit => "edit"@,
                LockStatus::ReadOnly(_) => "readonly"@,
                LockStatus::Zombie(_) => "zombie"@,
            },
            r.locked_by == match status {
                LockStatus::Edit => None,
                LockStatus::ReadOnly(u) => Some(*u),
                LockStatus::Zombie(u) => Some(*u),
            },
    {
        match status {
            LockStatus::Edit => LockInfo {
                mode: String::from_str("edit"),
                locked_by: None,
                current_user,
                display_name,
            },
            LockStatus::ReadOnly(u) => LockInfo {
                mode: String::from_str("readonly"),
                locked_by: Some(u.clone()),
                current_user,
                display_name,
            },
            LockStatus::Zombie(u) => LockInfo {
                mode: String::from_str("zombie"),
                locked_by: Some(u.clone()),
                current_user,
                display_name,
            },
        }
    }
}

/// The instant, in milliseconds since the epoch, that an RFC 3339 text
/// denotes, if it is one.
pub uninterp spec fn rfc3339_millis(s: Seq<char>) -> Option<int>;

/// Relies on `chrono::DateTime::parse_from_rfc3339` to read an RFC 3339
/// text, and on `timestamp_millis` for its instant.
#[verifier::external_body]
fn parse_rfc3339_millis(s: &str) -> (r: Option<i64>)
    ensures
        match r {
            Some(m) => rfc3339_millis(s@) == Some(m as int),
            None => rfc3339_millis(s@) is None,
        },
{
    match chrono::DateTime::parse_from_rfc3339(s) {
        Ok(t) => Some(t.timestamp_millis()),
        Err(_) => None,
    }
}

/// A marker untouched for longer than this was abandoned.
pub const ZOMBIE_AFTER_MS: i64 = 3600000;

/// The stamp of the holder's last activity: `updated_at`, else `locked_at`.
pub open spec fn activity_stamp(d: LockData) -> Seq<char> {
    if d.updated_at@.len() > 0 {
        d.updated_at@
    } else {
        d.locked_at@
    }
}

/// A marker is abandoned where its last activity lies more than an hour
/// before `now_ms`, or where its stamp cannot be read.
pub open spec fn abandoned(d: LockData, now_ms: int) -> bool {
    match rfc3339_millis(activity_stamp(d)) {
        Some(t) => now_ms - t > ZOMBIE_AFTER_MS,
        None => true,
    }
}

/// Whether the marker was abandoned, seen at `now_ms`.
pub fn is_zombie_lock(data: &LockData, now_ms: i64) -> (r: bool)
    ensures
        r == abandoned(*data, now_ms as int),
{
    let stamp = if data.updated_at.unicode_len() > 0 {
        &data.updated_at
    } else {
        &data.locked_at
    };
    match parse_rfc3339_millis(stamp.as_str()) {
        Some(t) => (now_ms as i128) - (t as i128) > ZOMBIE_AFTER_MS as i128,
        None => true,
    }
}

/// The marker file as found at start-up.
pub enum MarkerFile {
    Missing,
    /// Present but not readable as a marker.
    Unreadable,
    Holds(LockData),
}

/// What to write to the marker file.
#[derive(PartialEq, Eq, Structural)]
pub enum MarkerUpkeep {
    /// Write a fresh marker for the current user.
    WriteNew,
    /// Refresh the current user's marker.
    Refresh,
    Leave,
}

/// The status of a process started by `current_user` at `now_ms`, and what
/// to write to the marker.
pub fn startup_status(marker: MarkerFile, current_user: &str, now_ms: i64) -> (r: (LockStatus, MarkerUpkeep))
    ensures
        match marker {
            MarkerFile::Missing => r.0 is Edit && r.1 == MarkerUpkeep::WriteNew,
            MarkerFile::Unreadable => r.0 matches LockStatus::ReadOnly(u) && u@ == "Unknown"@ && r.1 == MarkerUpkeep::Leave,
            MarkerFile::Holds(d) => if abandoned(d, now_ms as int) {
                r.0 matches LockStatus::Zombie(u) && u@ == d.user@ && r.1 == MarkerUpkeep::Leave
            } else if d.user@ == current_user@ {
                r.0 is Edit && r.1 == MarkerUpkeep::Refresh
            } else {
                r.0 matches LockStatus::ReadOnly(u) && u@ == d.user@ && r.1 == MarkerUpkeep::Leave
            },
        },
{
    match marker {
        MarkerFile::Missing => (LockStatus::Edit, MarkerUpkeep::WriteNew),
        MarkerFile::Unreadable => (LockStatus::ReadOnly(String::from_str("Unknown")), MarkerUpkeep::Leave),
        MarkerFile::Holds(d) => {
            if is_zombie_lock(&d, now_ms) {
                (LockStatus::Zombie(d.user), MarkerUpkeep::Leave)
            } else if text_eq(d.user.as_str(), current_user) {
                (LockStatus::Edit, MarkerUpkeep::Refresh)
            } else {
                (LockStatus::ReadOnly(d.user), MarkerUpkeep::Leave)
            }
        },
    }
}

impl LockData {
    /// A fresh marker of `user` made at `now`.
    pub fn fresh(user: String, now: String) -> (r: LockData)
        ensures
            r.user == user,
            r.locked_at@ == now@,
            r.updated_at@ == now@,
    {
        LockData { user, locked_at: now.clone(), updated_at: now }
    }
}

} // verus!

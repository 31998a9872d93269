//! Whether the local copy of the program must be refreshed before the
//! program relaunches from it.

use vstd::prelude::*;
use crate::text::{trimmed, trim_text};
use crate::version::{ge_from, parsed_version, version_ge};

verus! {

/// Size and modification time of the running program and of its local copy.
pub struct ExeStamps {
    pub running_len: u64,
    pub local_len: u64,
    pub running_modified: u64,
    pub local_modified: u64,
}

/// The local copy is current where its recorded version is the same as or
/// later than the running one; failing that, where it has the running
/// program's size and is not older.
pub open spec fn copy_needed(
    local_exists: bool,
    local_version: Option<Seq<char>>,
    current_version: Seq<char>,
    stamps: Option<ExeStamps>,
) -> bool {
    if !local_exists {
        true
    } else {
        let current_by_version = match local_version {
            Some(v) => trimmed(v).len() > 0 && ge_from(parsed_version(trimmed(v)), parsed_version(current_version), 0),
            None => false,
        };
        if current_by_version {
            false
        } else {
            match stamps {
                Some(s) => !(s.running_len == s.local_len && s.running_modified <= s.local_modified),
                None => true,
            }
        }
    }
}

/// Whether to copy the running program over its local copy: `local_version`
/// is the text of the local copy's version file, where it could be read.
pub fn local_copy_needed(
    local_exists: bool,
    local_version: Option<&str>,
    current_version: &str,
    stamps: Option<ExeStamps>,
) -> (r: bool)
    ensures
        r == copy_needed(local_exists, match local_version {
            Some(v) => Some(v@),
            None => None,
        }, current_version@, stamps),
{
    if !local_exists {
        return true;
    }
    let current_by_version = match local_version {
        Some(v) => {
            let t = trim_text(v);
            t.unicode_len() > 0 && version_ge(t.as_str(), current_version)
        },
        None => false,
    };
    if current_by_version {
        return false;
    }
    match stamps {
        Some(s) => !(s.running_len == s.local_len && s.running_modified <= s.local_modified),
        None => true,
    }
}

} // verus!

//! Where the store, the outbox and the lock marker live.

use vstd::prelude::*;

verus! {

/// The separator that `join_path` puts between a directory and a name.
pub open spec fn is_separator(c: char) -> bool {
    c == '/' || c == '\\'
}

/// `name` placed inside the directory `dir`.
pub open spec fn joined(dir: Seq<char>, name: Seq<char>) -> Seq<char> {
    if dir.len() == 0 {
        name
    } else if is_separator(dir.last()) {
        dir + name
    } else {
        dir + seq!['/'] + name
    }
}

/// Joins a file or directory name onto a directory path.
pub fn join_path(dir: &str, name: &str) -> (r: String)
    ensures
        r@ == joined(dir@, name@),
{
    let n = dir.unicode_len();
    let mut r = String::from_str(dir);
    if n > 0 {
        let last = dir.get_char(n - 1);
        if last != '/' && last != '\\' {
            r.append("/");
            proof {
                reveal_strlit("/");
            }
        }
    }
    r.append(name);
    r
}

/// The shared outbox directory's name inside the authoritative location.
pub const SYNC_DIR_NAME: &'static str = ".sync_temp";

/// The store file's name, in the authoritative location and locally.
pub const DB_FILE_NAME: &'static str = "data.db";

/// The private snapshot that a consolidation replays onto.
pub const MERGE_SNAPSHOT_NAME: &'static str = "temp_merge.db";

/// The merge lock marker's name inside the authoritative location.
pub const MERGE_LOCK_NAME: &'static str = "merge.lock";

/// The per-user settings file's name in the local directory.
pub const SETTINGS_FILE_NAME: &'static str = "settings.json";

/// The application's directory under the platform's local data directory.
pub const APP_DIR_NAME: &'static str = "Issuer";

/// Where the process keeps its files.
#[derive(Clone)]
pub struct AppConfig {
    /// The shared, authoritative location.
    pub original_dir: String,
    /// This user's local directory.
    pub local_dir: String,
    /// The store file this process works on.
    pub db_path: String,
    /// Whether this process runs from a local copy of the program.
    pub is_local_relaunch: bool,
}

impl AppConfig {
    /// The configuration of a process started from `exe_dir`: the shared
    /// location is `original_dir` where given, else `exe_dir`; the local
    /// directory sits under `data_local_dir`; a process relaunched locally
    /// works on the local store.
    pub fn new(exe_dir: &str, original_dir: Option<&str>, data_local_dir: &str, is_local_relaunch: bool) -> (r: AppConfig)
        ensures
            r.original_dir@ == match original_dir {
                Some(d) => d@,
                None => exe_dir@,
            },
            r.local_dir@ == joined(data_local_dir@, APP_DIR_NAME@),
            r.db_path@ == joined(if is_local_relaunch { r.local_dir@ } else { r.original_dir@ }, DB_FILE_NAME@),
            r.is_local_relaunch == is_local_relaunch,
    {
        let original = match original_dir {
            Some(d) => String::from_str(d),
            None => String::from_str(exe_dir),
        };
        let local = join_path(data_local_dir, APP_DIR_NAME);
        let db_path = if is_local_relaunch {
            join_path(local.as_str(), DB_FILE_NAME)
        } else {
            join_path(original.as_str(), DB_FILE_NAME)
        };
        AppConfig { original_dir: original, local_dir: local, db_path, is_local_relaunch }
    }
}

/// The outbox directory.
pub fn get_sync_dir(config: &AppConfig) -> (r: String)
    ensures
        r@ == joined(config.original_dir@, SYNC_DIR_NAME@),
{
    join_path(config.original_dir.as_str(), SYNC_DIR_NAME)
}

/// The per-user settings file.
pub fn settings_path(config: &AppConfig) -> (r: String)
    ensures
        r@ == joined(config.local_dir@, SETTINGS_FILE_NAME@),
{
    join_path(config.local_dir.as_str(), SETTINGS_FILE_NAME)
}

/// The authoritative store file.
pub fn master_db_path(config: &AppConfig) -> (r: String)
    ensures
        r@ == joined(config.original_dir@, DB_FILE_NAME@),
{
    join_path(config.original_dir.as_str(), DB_FILE_NAME)
}

/// The local working copy's file.
pub fn local_db_path(config: &AppConfig) -> (r: String)
    ensures
        r@ == joined(config.local_dir@, DB_FILE_NAME@),
{
    join_path(config.local_dir.as_str(), DB_FILE_NAME)
}

/// The private snapshot of a consolidation.
pub fn merge_snapshot_path(config: &AppConfig) -> (r: String)
    ensures
        r@ == joined(config.local_dir@, MERGE_SNAPSHOT_NAME@),
{
    join_path(config.local_dir.as_str(), MERGE_SNAPSHOT_NAME)
}

/// The merge lock marker.
pub fn merge_lock_path(config: &AppConfig) -> (r: String)
    ensures
        r@ == joined(config.original_dir@, MERGE_LOCK_NAME@),
{
    join_path(config.original_dir.as_str(), MERGE_LOCK_NAME)
}

} // verus!

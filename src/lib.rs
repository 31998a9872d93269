//! Multi-writer synchronization engine for a local-first issue store that
//! lives in a shared directory.
//!
//! Each process captures its own mutations as change records in a shared
//! outbox (`outbox`, `payloads`), replays its peers' records into its working
//! copy (`replication`, `applier`, `store`) and, at shutdown, folds every
//! outstanding record into the authoritative store under a file lock
//! (`merge`). `laws` proves what the conflict policy guarantees. The other
//! modules hold the smaller computations of the application around it.

pub mod config;
pub mod value;
pub mod store;
pub mod record;
pub mod applier;
pub mod laws;
pub mod outbox;
pub mod replication;
pub mod merge;
pub mod version;
pub mod mail;
pub mod text;
pub mod entities;
pub mod themes;
pub mod settings;
pub mod lock;
pub mod group;
pub mod relaunch;
pub mod payloads;
pub mod attachments;

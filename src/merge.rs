//! Consolidation: the merge lock's acquisition rule and the merge
//! coordinator's protocol, as decisions that the caller carries out.

use vstd::prelude::*;
use crate::replication::{strictly_sorted, texts, sort_names};

verus! {

/// How many times acquisition looks at the lock marker before giving up.
pub const LOCK_ATTEMPTS: u32 = 10;

/// The pause between two looks at the lock marker.
pub const LOCK_RETRY_DELAY_MS: u64 = 500;

/// A marker older than this was left by a crashed holder.
pub const LOCK_STALE_AFTER_MS: u64 = 60000;

/// The lock marker as one look at the shared location finds it.
pub enum MarkerState {
    Absent,
    /// Present, last modified `age_ms` milliseconds ago.
    Present { age_ms: u64 },
}

/// What to do on one attempt to take the merge lock.
#[derive(PartialEq, Eq, Structural)]
pub enum LockStep {
    /// Create the marker, failing if it exists.
    Create,
    /// Delete the abandoned marker, then create it.
    EvictThenCreate,
    /// Pause `LOCK_RETRY_DELAY_MS` and look again.
    Wait,
    /// Give up: the lock is busy.
    Busy,
}

/// The step of attempt number `attempt` (from 0) given the marker's state.
pub fn merge_lock_step(attempt: u32, marker: &MarkerState) -> (r: LockStep)
    ensures
        attempt >= LOCK_ATTEMPTS ==> r == LockStep::Busy,
        attempt < LOCK_ATTEMPTS ==> r == match marker {
            MarkerState::Absent => LockStep::Create,
            MarkerState::Present { age_ms } => if *age_ms > LOCK_STALE_AFTER_MS {
                LockStep::EvictThenCreate
            } else {
                LockStep::Wait
            },
        },
{
    if attempt >= LOCK_ATTEMPTS {
        return LockStep::Busy;
    }
    match marker {
        MarkerState::Absent => LockStep::Create,
        MarkerState::Present { age_ms } => {
            if *age_ms > LOCK_STALE_AFTER_MS {
                LockStep::EvictThenCreate
            } else {
                LockStep::Wait
            }
        },
    }
}

/// The age of a marker modified at `modified_ms`, seen at `now_ms`; a
/// modification time in the future counts as age zero.
pub fn marker_age(now_ms: u64, modified_ms: u64) -> (r: u64)
    ensures
        r == if now_ms >= modified_ms { now_ms - modified_ms } else { 0 },
{
    if now_ms >= modified_ms {
        now_ms - modified_ms
    } else {
        0
    }
}

/// Where a consolidation takes its snapshot from.
#[derive(PartialEq, Eq, Structural)]
pub enum SnapshotSource {
    /// The authoritative store.
    Master,
    /// The local working copy, which becomes the first authoritative store.
    Local,
}

/// Why a consolidation did not complete.
#[derive(Clone, Copy, PartialEq, Eq, Structural)]
pub enum MergeError {
    LockBusy,
    /// Neither the authoritative store nor a local copy exists.
    NoStore,
    SnapshotFailed,
    ReplayFailed,
    PublishFailed,
}

impl MergeError {
    /// A message for the one who asked for the consolidation.
    pub fn message(&self) -> (r: &'static str) {
        match self {
            MergeError::LockBusy => "merge lock busy",
            MergeError::NoStore => "Neither master nor local DB exists to create temp_merge.db",
            MergeError::SnapshotFailed => "Failed to copy the store to the merge snapshot",
            MergeError::ReplayFailed => "Failed to replay records onto the merge snapshot",
            MergeError::PublishFailed => "Failed to overwrite master DB",
        }
    }
}

/// The phases of one consolidation.
#[derive(Clone, Copy, PartialEq, Eq, Structural)]
pub enum MergePhase {
    Locking,
    Snapshotting,
    Replaying,
    Publishing,
    Collecting,
    Releasing,
    Done,
}

/// What the coordinator asks its caller to do next.
pub enum MergeAction {
    AcquireLock,
    /// Copy the store to the private snapshot path.
    CopySnapshot(SnapshotSource),
    /// Replay these records, in this order, onto the snapshot.
    Replay(Vec<String>),
    /// Replace the authoritative store with the snapshot, atomically.
    Publish,
    /// Delete these record files and the snapshot.
    Collect(Vec<String>),
    ReleaseLock,
    /// The consolidation is over: `None` where it completed.
    Finish(Option<MergeError>),
}

/// What the caller reports back.
pub enum MergeEvent {
    LockAcquired { master_exists: bool, local_exists: bool },
    LockBusy,
    SnapshotCopied(bool),
    /// The records that were read, replayed where they decode.
    Replayed(Vec<String>),
    ReplayFailed,
    Published(bool),
    Collected,
    Released,
}

/// Whether the action writes the authoritative store.
pub open spec fn writes_authoritative(a: MergeAction) -> bool {
    a is Publish
}

/// One consolidation in progress.
pub struct MergeRun {
    phase: MergePhase,
    records: Vec<String>,
    attempted: Vec<String>,
    error: Option<MergeError>,
}

impl MergeRun {
    pub closed spec fn phase_of(&self) -> MergePhase {
        self.phase
    }

    /// The current phase.
    pub fn phase(&self) -> (r: MergePhase)
        ensures
            r == self.phase_of(),
    {
        self.phase
    }

    /// The outbox records that this consolidation covers.
    pub closed spec fn record_names(&self) -> Seq<Seq<char>> {
        texts(self.records@)
    }

    /// The records that the replay reached, among those covered.
    pub closed spec fn attempted_names(&self) -> Seq<Seq<char>> {
        texts(self.attempted@)
    }

    pub closed spec fn error_of(&self) -> Option<MergeError> {
        self.error
    }

    pub closed spec fn wf(&self) -> bool {
        &&& strictly_sorted(texts(self.records@))
        &&& forall|t: Seq<char>| texts(self.attempted@).contains(t) ==> texts(self.records@).contains(t)
        &&& (self.phase == MergePhase::Replaying || self.phase == MergePhase::Snapshotting
            || self.phase == MergePhase::Locking) ==> self.attempted@.len() == 0
    }

    /// Starts a consolidation of the outbox listing `names`; with nothing
    /// to consolidate it is over at once and takes no lock.
    pub fn start(names: &Vec<String>) -> (r: (MergeRun, MergeAction))
        ensures
            r.0.wf(),
            strictly_sorted(r.0.record_names()),
            forall|t: Seq<char>| r.0.record_names().contains(t) <==> texts(names@).contains(t),
            names@.len() == 0 ==> r.0.phase_of() == MergePhase::Done && r.1 == MergeAction::Finish(None),
            names@.len() > 0 ==> r.0.phase_of() == MergePhase::Locking && r.1 == MergeAction::AcquireLock,
    {
        let records = sort_names(names);
        let attempted: Vec<String> = Vec::new();
        if names.len() == 0 {
            (MergeRun { phase: MergePhase::Done, records, attempted, error: None }, MergeAction::Finish(None))
        } else {
            (MergeRun { phase: MergePhase::Locking, records, attempted, error: None }, MergeAction::AcquireLock)
        }
    }
}

fn contains_name(v: &Vec<String>, x: &str) -> (r: bool)
    ensures
        r == texts(v@).contains(x@),
{
    let mut i: usize = 0;
    while i < v.len()
        invariant
            i <= v@.len(),
            forall|j: int| 0 <= j < i ==> texts(v@)[j] != x@,
        decreases v.len() - i,
    {
        if crate::value::text_eq(v[i].as_str(), x) {
            assert(texts(v@)[i as int] == x@);
            return true;
        }
        i = i + 1;
    }
    false
}

/// The names of `list` that `known` holds, in `list`'s order.
pub open spec fn known_only(list: Seq<Seq<char>>, known: Seq<Seq<char>>) -> Seq<Seq<char>>
    decreases list.len(),
{
    if list.len() == 0 {
        list
    } else {
        let rest = known_only(list.drop_last(), known);
        if known.contains(list.last()) {
            rest.push(list.last())
        } else {
            rest
        }
    }
}

proof fn lemma_known_only_within(list: Seq<Seq<char>>, known: Seq<Seq<char>>)
    ensures
        forall|t: Seq<char>| known_only(list, known).contains(t) ==> known.contains(t),
    decreases list.len(),
{
    if list.len() > 0 {
        lemma_known_only_within(list.drop_last(), known);
        let rest = known_only(list.drop_last(), known);
        assert forall|t: Seq<char>| known_only(list, known).contains(t) implies known.contains(t) by {
            let k = choose|k: int| 0 <= k < known_only(list, known).len() && known_only(list, known)[k] == t;
            if k < rest.len() {
                assert(rest[k] == t);
            }
        }
    }
}

fn keep_known(list: &Vec<String>, known: &Vec<String>) -> (r: Vec<String>)
    ensures
        texts(r@) == known_only(texts(list@), texts(known@)),
{
    let mut out: Vec<String> = Vec::new();
    let mut i: usize = 0;
    while i < list.len()
        invariant
            i <= list@.len(),
            texts(out@) == known_only(texts(list@.subrange(0, i as int)), texts(known@)),
        decreases list.len() - i,
    {
        assert(texts(list@.subrange(0, i + 1)).drop_last() =~= texts(list@.subrange(0, i as int)));
        assert(texts(list@.subrange(0, i + 1)).last() == list@[i as int]@);
        if contains_name(known, list[i].as_str()) {
            let ghost before = out@;
            out.push(list[i].clone());
            assert(texts(out@) =~= texts(before).push(list@[i as int]@));
        }
        i = i + 1;
    }
    assert(list@.subrange(0, i as int) == list@);
    out
}

impl MergeRun {
    /// Takes the caller's report and says what to do next; `None` for a
    /// report that does not fit the current phase, which changes nothing.
    /// Only a completed replay leads to publishing; only a published
    /// snapshot leads to deleting records, and then only those that the
    /// replay reached; every failure after the lock is taken leads to
    /// releasing it.
    pub fn on_event(&mut self, ev: MergeEvent) -> (r: Option<MergeAction>)
        requires
            old(self).wf(),
        ensures
            final(self).wf(),
            final(self).record_names() == old(self).record_names(),
            r is None ==> final(self).phase_of() == old(self).phase_of() && final(self).error_of() == old(self).error_of(),
            match r {
                Some(a) => writes_authoritative(a) ==> old(self).phase_of() == MergePhase::Replaying && ev is Replayed,
                None => true,
            },
            match r {
                Some(MergeAction::Collect(names)) => {
                    &&& old(self).phase_of() == MergePhase::Publishing
                    &&& ev == MergeEvent::Published(true)
                    &&& texts(names@) == old(self).attempted_names()
                    &&& forall|t: Seq<char>| texts(names@).contains(t) ==> old(self).record_names().contains(t)
                },
                _ => true,
            },
            match (old(self).phase_of(), ev) {
                (MergePhase::Locking, MergeEvent::LockAcquired { master_exists, local_exists }) => if master_exists {
                    final(self).phase_of() == MergePhase::Snapshotting && r == Some(MergeAction::CopySnapshot(SnapshotSource::Master))
                } else if local_exists {
                    final(self).phase_of() == MergePhase::Snapshotting && r == Some(MergeAction::CopySnapshot(SnapshotSource::Local))
                } else {
                    final(self).phase_of() == MergePhase::Releasing && r == Some(MergeAction::ReleaseLock)
                        && final(self).error_of() == Some(MergeError::NoStore)
                },
                (MergePhase::Locking, MergeEvent::LockBusy) => final(self).phase_of() == MergePhase::Done
                    && r == Some(MergeAction::Finish(Some(MergeError::LockBusy))),
                (MergePhase::Snapshotting, MergeEvent::SnapshotCopied(ok)) => if ok {
                    final(self).phase_of() == MergePhase::Replaying && match r {
                        Some(MergeAction::Replay(names)) => texts(names@) == old(self).record_names(),
                        _ => false,
                    }
                } else {
                    final(self).phase_of() == MergePhase::Releasing && r == Some(MergeAction::ReleaseLock)
                        && final(self).error_of() == Some(MergeError::SnapshotFailed)
                },
                (MergePhase::Replaying, MergeEvent::Replayed(done)) => final(self).phase_of() == MergePhase::Publishing
                    && r == Some(MergeAction::Publish)
                    && final(self).attempted_names() == known_only(texts(done@), old(self).record_names()),
                (MergePhase::Replaying, MergeEvent::ReplayFailed) => final(self).phase_of() == MergePhase::Releasing
                    && r == Some(MergeAction::ReleaseLock) && final(self).error_of() == Some(MergeError::ReplayFailed),
                (MergePhase::Publishing, MergeEvent::Published(ok)) => if ok {
                    final(self).phase_of() == MergePhase::Collecting && match r {
                        Some(MergeAction::Collect(names)) => texts(names@) == old(self).attempted_names(),
                        _ => false,
                    }
                } else {
                    final(self).phase_of() == MergePhase::Releasing && r == Some(MergeAction::ReleaseLock)
                        && final(self).error_of() == Some(MergeError::PublishFailed)
                },
                (MergePhase::Collecting, MergeEvent::Collected) => final(self).phase_of() == MergePhase::Releasing
                    && r == Some(MergeAction::ReleaseLock) && final(self).error_of() == old(self).error_of(),
                (MergePhase::Releasing, MergeEvent::Released) => final(self).phase_of() == MergePhase::Done
                    && r == Some(MergeAction::Finish(old(self).error_of())),
                _ => r is None,
            },
    {
        match (&self.phase, ev) {
            (MergePhase::Locking, MergeEvent::LockAcquired { master_exists, local_exists }) => {
                if master_exists {
                    self.phase = MergePhase::Snapshotting;
                    Some(MergeAction::CopySnapshot(SnapshotSource::Master))
                } else if local_exists {
                    self.phase = MergePhase::Snapshotting;
                    Some(MergeAction::CopySnapshot(SnapshotSource::Local))
                } else {
                    self.phase = MergePhase::Releasing;
                    self.error = Some(MergeError::NoStore);
                    Some(MergeAction::ReleaseLock)
                }
            },
            (MergePhase::Locking, MergeEvent::LockBusy) => {
                self.phase = MergePhase::Done;
                self.error = Some(MergeError::LockBusy);
                Some(MergeAction::Finish(Some(MergeError::LockBusy)))
            },
            (MergePhase::Snapshotting, MergeEvent::SnapshotCopied(ok)) => {
                if ok {
                    self.phase = MergePhase::Replaying;
                    let mut names: Vec<String> = Vec::new();
                    let mut i: usize = 0;
                    while i < self.records.len()
                        invariant
                            i <= self.records@.len(),
                            texts(names@) == texts(self.records@.subrange(0, i as int)),
                        decreases self.records.len() - i,
                    {
                        let ghost before = names@;
                        names.push(self.records[i].clone());
                        assert(texts(names@) =~= texts(before).push(self.records@[i as int]@));
                        assert(texts(self.records@.subrange(0, i + 1)) =~= texts(self.records@.subrange(0, i as int)).push(
                            self.records@[i as int]@,
                        ));
                        i = i + 1;
                    }
                    assert(self.records@.subrange(0, i as int) == self.records@);
                    Some(MergeAction::Replay(names))
                } else {
                    self.phase = MergePhase::Releasing;
                    self.error = Some(MergeError::SnapshotFailed);
                    Some(MergeAction::ReleaseLock)
                }
            },
            (MergePhase::Replaying, MergeEvent::Replayed(done)) => {
                self.attempted = keep_known(&done, &self.records);
                proof {
                    lemma_known_only_within(texts(done@), texts(self.records@));
                }
                self.phase = MergePhase::Publishing;
                Some(MergeAction::Publish)
            },
            (MergePhase::Replaying, MergeEvent::ReplayFailed) => {
                self.phase = MergePhase::Releasing;
                self.error = Some(MergeError::ReplayFailed);
                Some(MergeAction::ReleaseLock)
            },
            (MergePhase::Publishing, MergeEvent::Published(ok)) => {
                if ok {
                    self.phase = MergePhase::Collecting;
                    let names = keep_known(&self.attempted, &self.records);
                    proof {
                        lemma_known_only_within(texts(self.attempted@), texts(self.records@));
                        lemma_known_only_all(texts(self.attempted@), texts(self.records@));
                    }
                    Some(MergeAction::Collect(names))
                } else {
                    self.phase = MergePhase::Releasing;
                    self.error = Some(MergeError::PublishFailed);
                    Some(MergeAction::ReleaseLock)
                }
            },
            (MergePhase::Collecting, MergeEvent::Collected) => {
                self.phase = MergePhase::Releasing;
                Some(MergeAction::ReleaseLock)
            },
            (MergePhase::Releasing, MergeEvent::Released) => {
                self.phase = MergePhase::Done;
                Some(MergeAction::Finish(self.error))
            },
            _ => None,
        }
    }
}

proof fn lemma_known_only_all(list: Seq<Seq<char>>, known: Seq<Seq<char>>)
    requires
        forall|t: Seq<char>| list.contains(t) ==> known.contains(t),
    ensures
        known_only(list, known) == list,
    decreases list.len(),
{
    if list.len() > 0 {
        assert forall|t: Seq<char>| list.drop_last().contains(t) implies known.contains(t) by {
            let k = choose|k: int| 0 <= k < list.drop_last().len() && list.drop_last()[k] == t;
            assert(list[k] == t);
        }
        lemma_known_only_all(list.drop_last(), known);
        assert(list[list.len() - 1] == list.last());
        assert(list.drop_last().push(list.last()) =~= list);
    }
}

} // verus!

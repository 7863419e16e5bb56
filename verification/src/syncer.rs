//! Bringing the local pool state in line with stored events and snapshots.
use vstd::prelude::*;
use vstd::std_specs::convert::FromSpecImpl;
use vstd::string::*;

use crate::event::{EventModel, EventStore, EventStoreError, InMemoryEventStore};
use crate::repository::{
    lists, InMemoryPoolRepository, InMemorySnapshotStore, PoolRepository, SnapshotStore,
};
use crate::state::{PoolSnapshot, SnapshotModel, StateError};
use crate::types::{PoolIdModel, PoolIdentifier};

verus! {

/// What a synchronisation reached: the last block it accounted for.
#[derive(Clone, Copy, Debug)]
pub struct SyncMetrics {
    pub last_synced_block: u64,
}

/// Errors of synchronisation.
#[derive(Debug)]
pub enum SyncError {
    Rpc(String),
    Storage(String),
    Unknown(String),
}

/// The message of a synchronisation error.
pub open spec fn sync_error_text(e: SyncError) -> Seq<char> {
    match e {
        SyncError::Rpc(m) => "RPC 交互失败: "@ + m@,
        SyncError::Storage(m) => "持久化失败: "@ + m@,
        SyncError::Unknown(m) => "未知错误: "@ + m@,
    }
}

impl SyncError {
    /// The error's message.
    pub fn message(&self) -> (r: String)
        ensures
            r@ == sync_error_text(*self),
    {
        match self {
            SyncError::Rpc(m) => String::from_str("RPC 交互失败: ").concat(m.as_str()),
            SyncError::Storage(m) => String::from_str("持久化失败: ").concat(m.as_str()),
            SyncError::Unknown(m) => String::from_str("未知错误: ").concat(m.as_str()),
        }
    }
}

/// An event store failure is a storage failure.
pub open spec fn sync_error_of_store(e: EventStoreError) -> SyncError {
    match e {
        EventStoreError::Storage(m) => SyncError::Storage(m),
    }
}

impl From<EventStoreError> for SyncError {
    fn from(e: EventStoreError) -> (r: SyncError) {
        match e {
            EventStoreError::Storage(m) => SyncError::Storage(m),
        }
    }
}

impl FromSpecImpl<EventStoreError> for SyncError {
    open spec fn obeys_from_spec() -> bool {
        true
    }

    open spec fn from_spec(e: EventStoreError) -> SyncError {
        sync_error_of_store(e)
    }
}

/// A state failure reported as a synchronisation failure.
pub fn sync_error_from_state(e: StateError) -> (r: SyncError)
    ensures
        match e {
            StateError::Storage(m) => r == SyncError::Storage(m),
            StateError::Io(m) => r == SyncError::Storage(m),
            StateError::Invalid(m) => r == SyncError::Unknown(m),
            _ => r matches SyncError::Unknown(t) && t@ == crate::state::state_error_text(e),
        },
{
    match e {
        StateError::Storage(m) => SyncError::Storage(m),
        StateError::Io(m) => SyncError::Storage(m),
        StateError::Invalid(m) => SyncError::Unknown(m),
        other => SyncError::Unknown(other.message()),
    }
}

/// Incremental and full synchronisation of pool state.
pub trait StateSyncer {
    /// Applies what happened on chain since the last synchronisation.
    fn incremental_sync(&mut self) -> Result<SyncMetrics, SyncError>;

    /// Rebuilds the state of a pool from what is stored.
    fn full_resync(&mut self, pool: &PoolIdentifier) -> Result<(), SyncError>;
}

/// A synchroniser that does nothing.
#[derive(Clone, Copy, Debug)]
pub struct NullStateSyncer;

impl StateSyncer for NullStateSyncer {
    /// Reports block 0.
    fn incremental_sync(&mut self) -> (r: Result<SyncMetrics, SyncError>)
        ensures
            r matches Ok(m) && m.last_synced_block == 0,
    {
        Ok(SyncMetrics { last_synced_block: 0 })
    }

    fn full_resync(&mut self, pool: &PoolIdentifier) -> (r: Result<(), SyncError>)
        ensures
            r is Ok,
    {
        Ok(())
    }
}

/// The last block an event store accounts for: that of its latest event, or
/// the earlier mark when it holds none.
pub open spec fn synced_block(events: Seq<EventModel>, previous: u64) -> u64 {
    if events.len() == 0 {
        previous
    } else {
        events.last().block_number
    }
}

/// The snapshots of a store, or none without a store.
pub open spec fn stored_snapshots(store: Option<InMemorySnapshotStore>) -> Map<
    PoolIdModel,
    SnapshotModel,
> {
    match store {
        Some(s) => s@,
        None => Map::empty(),
    }
}

/// A synchroniser over an event store, the pool repository and, if one is
/// attached, a snapshot store.
#[derive(Debug)]
pub struct BasicStateSyncer {
    pub event_store: InMemoryEventStore,
    pub pool_repository: InMemoryPoolRepository,
    pub snapshot_store: Option<InMemorySnapshotStore>,
    pub last_synced_block: u64,
}

impl BasicStateSyncer {
    pub fn new(
        event_store: InMemoryEventStore,
        pool_repository: InMemoryPoolRepository,
        snapshot_store: Option<InMemorySnapshotStore>,
    ) -> (r: BasicStateSyncer)
        ensures
            r.event_store == event_store,
            r.pool_repository == pool_repository,
            r.snapshot_store == snapshot_store,
            r.last_synced_block == 0,
    {
        BasicStateSyncer { event_store, pool_repository, snapshot_store, last_synced_block: 0 }
    }

    fn load_snapshots(&self) -> (r: Result<Vec<PoolSnapshot>, SyncError>)
        ensures
            r matches Ok(l) && lists(stored_snapshots(self.snapshot_store), l@),
    {
        match &self.snapshot_store {
            Some(store) => match store.list() {
                Ok(l) => Ok(l),
                Err(e) => Err(sync_error_from_state(e)),
            },
            None => {
                let l: Vec<PoolSnapshot> = Vec::new();
                Ok(l)
            },
        }
    }
}

impl StateSyncer for BasicStateSyncer {
    /// Moves the mark to the block of the latest stored event.
    fn incremental_sync(&mut self) -> (r: Result<SyncMetrics, SyncError>)
        ensures
            final(self).last_synced_block == synced_block(
                old(self).event_store.events(),
                old(self).last_synced_block,
            ),
            r matches Ok(m) && m.last_synced_block == final(self).last_synced_block,
            final(self).event_store == old(self).event_store,
            final(self).pool_repository == old(self).pool_repository,
            final(self).snapshot_store == old(self).snapshot_store,
    {
        let last = match self.event_store.last_block() {
            Ok(b) => b,
            Err(e) => {
                return Err(SyncError::from(e));
            },
        };
        if let Some(block) = last {
            self.last_synced_block = block;
        }
        Ok(SyncMetrics { last_synced_block: self.last_synced_block })
    }

    /// Writes every snapshot of the snapshot store into the repository.
    fn full_resync(&mut self, pool: &PoolIdentifier) -> (r: Result<(), SyncError>)
        ensures
            r is Ok,
            final(self).pool_repository@ == old(self).pool_repository@.union_prefer_right(
                stored_snapshots(old(self).snapshot_store),
            ),
            final(self).event_store == old(self).event_store,
            final(self).snapshot_store == old(self).snapshot_store,
            final(self).last_synced_block == old(self).last_synced_block,
    {
        let snapshots = self.load_snapshots()?;
        let ghost before = self.pool_repository@;
        let ghost stored = stored_snapshots(self.snapshot_store);
        let ghost l = snapshots@;
        let n = snapshots.len();
        let mut i: usize = 0;
        while i < n
            invariant
                n == l.len(),
                i <= n,
                lists(stored, l),
                snapshots@ == l,
                self.event_store == old(self).event_store,
                self.snapshot_store == old(self).snapshot_store,
                self.last_synced_block == old(self).last_synced_block,
                before == old(self).pool_repository@,
                stored == stored_snapshots(old(self).snapshot_store),
                forall|k: PoolIdModel| #[trigger]
                    self.pool_repository@.contains_key(k) <==> (before.contains_key(k) || exists|
                        j: int,
                    | 0 <= j < i && #[trigger] l[j]@.id == k),
                forall|j: int| 0 <= j < i ==> self.pool_repository@[#[trigger] l[j]@.id] == l[j]@,
                forall|k: PoolIdModel|
                    before.contains_key(k) && !(exists|j: int| 0 <= j < i && #[trigger] l[j]@.id == k)
                        ==> #[trigger] self.pool_repository@[k] == before[k],
            decreases n - i,
        {
            let snapshot = snapshots[i].clone();
            proof {
                assert(l[i as int].wf());
            }
            let _ = self.pool_repository.upsert(snapshot);
            proof {
                let id = l[i as int]@.id;
                assert forall|k: PoolIdModel| #[trigger]
                    self.pool_repository@.contains_key(k) <==> (before.contains_key(k) || exists|
                        j: int,
                    | 0 <= j < i + 1 && #[trigger] l[j]@.id == k) by {
                    if k == id {
                        assert(l[i as int]@.id == k);
                    }
                }
                assert forall|j: int| 0 <= j < i + 1 implies self.pool_repository@[#[trigger] l[j]@.id]
                    == l[j]@ by {
                    if j < i {
                        assert(l[j]@.id != l[i as int]@.id);
                    }
                }
                assert forall|k: PoolIdModel|
                    before.contains_key(k) && !(exists|j: int| 0 <= j < i + 1 && #[trigger] l[j]@.id
                        == k) implies #[trigger] self.pool_repository@[k] == before[k] by {
                    assert(l[i as int]@.id != k);
                }
            }
            i = i + 1;
        }
        proof {
            let target = before.union_prefer_right(stored);
            assert forall|k: PoolIdModel| #[trigger]
                self.pool_repository@.contains_key(k) <==> target.contains_key(k) by {
                if stored.contains_key(k) {
                    let j = choose|j: int| 0 <= j < l.len() && #[trigger] l[j]@.id == k;
                    assert(l[j]@.id == k);
                }
                if exists|j: int| 0 <= j < n && #[trigger] l[j]@.id == k {
                    let j = choose|j: int| 0 <= j < n && #[trigger] l[j]@.id == k;
                    assert(stored.contains_key(l[j]@.id));
                }
            }
            assert forall|k: PoolIdModel| #[trigger]
                self.pool_repository@.contains_key(k) implies self.pool_repository@[k]
                == target[k] by {
                if stored.contains_key(k) {
                    let j = choose|j: int| 0 <= j < l.len() && #[trigger] l[j]@.id == k;
                    assert(self.pool_repository@[l[j]@.id] == l[j]@);
                    assert(stored[l[j]@.id] == l[j]@);
                } else {
                    if exists|j: int| 0 <= j < n && #[trigger] l[j]@.id == k {
                        let j = choose|j: int| 0 <= j < n && #[trigger] l[j]@.id == k;
                        assert(stored.contains_key(l[j]@.id));
                    }
                }
            }
            assert(self.pool_repository@ =~= target);
        }
        Ok(())
    }
}

/// A full resynchronisation repeated changes nothing more: writing the
/// stored snapshots a second time leaves the repository as the first left it.
pub proof fn lemma_resync_idempotent(
    repository: Map<PoolIdModel, SnapshotModel>,
    stored: Map<PoolIdModel, SnapshotModel>,
)
    ensures
        repository.union_prefer_right(stored).union_prefer_right(stored)
            == repository.union_prefer_right(stored),
{
    assert(repository.union_prefer_right(stored).union_prefer_right(stored)
        =~= repository.union_prefer_right(stored));
}

/// An incremental synchronisation repeated on the same events reaches the
/// same block.
pub proof fn lemma_incremental_sync_idempotent(events: Seq<EventModel>, previous: u64)
    ensures
        synced_block(events, synced_block(events, previous)) == synced_block(events, previous),
{
}

} // verus!

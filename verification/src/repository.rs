//! Stores of pool snapshots keyed by pool identifier: the pool repository
//! that the handlers and calculators share, and the snapshot store.
use vstd::prelude::*;

use crate::assoc::AssocList;
use crate::state::{PoolSnapshot, SnapshotModel, StateError};
use crate::types::{PoolIdModel, PoolIdentifier};

verus! {

/// The stored snapshots after `s` is written: it replaces the one of its pool.
pub open spec fn after_write(m: Map<PoolIdModel, SnapshotModel>, s: SnapshotModel) -> Map<
    PoolIdModel,
    SnapshotModel,
> {
    m.insert(s.id, s)
}

/// What a read of pool `id` gives.
pub open spec fn lookup(m: Map<PoolIdModel, SnapshotModel>, id: PoolIdModel) -> Option<SnapshotModel> {
    if m.contains_key(id) {
        Some(m[id])
    } else {
        None
    }
}

pub open spec fn snapshot_option(r: Option<PoolSnapshot>) -> Option<SnapshotModel> {
    match r {
        Some(s) => Some(s@),
        None => None,
    }
}

/// A listing of the stored snapshots: each once, in some order.
pub open spec fn lists(m: Map<PoolIdModel, SnapshotModel>, l: Seq<PoolSnapshot>) -> bool {
    &&& forall|i: int| 0 <= i < l.len() ==> m.contains_key(#[trigger] l[i]@.id) && m[l[i]@.id] == l[i]@
    &&& forall|i: int, j: int| 0 <= i < j < l.len() ==> #[trigger] l[i]@.id != #[trigger] l[j]@.id
    &&& forall|k: PoolIdModel| m.contains_key(k) ==> exists|i: int| 0 <= i < l.len() && #[trigger] l[i]@.id == k
    &&& forall|i: int| 0 <= i < l.len() ==> (#[trigger] l[i]).wf()
}

/// Snapshots keyed by the identifier of their pool.
#[derive(Debug)]
pub struct SnapshotTable {
    entries: AssocList<PoolIdentifier, PoolSnapshot>,
}

impl SnapshotTable {
    #[verifier::type_invariant]
    spec fn inv(self) -> bool {
        &&& self.entries.wf()
        &&& forall|k: PoolIdModel| #[trigger]
            self.entries.map().contains_key(k) ==> self.entries.map()[k]@.id == k
                && self.entries.map()[k].wf()
    }

    /// The stored snapshots by pool.
    pub closed spec fn view(&self) -> Map<PoolIdModel, SnapshotModel> {
        self.entries.map().map_values(|s: PoolSnapshot| s@)
    }

    pub fn new() -> (r: SnapshotTable)
        ensures
            r.view() == Map::<PoolIdModel, SnapshotModel>::empty(),
    {
        let r = SnapshotTable { entries: AssocList::new() };
        assert(r.view() =~= Map::<PoolIdModel, SnapshotModel>::empty());
        r
    }

    /// Stores `snapshot`, replacing the one of the same pool.
    pub fn put(&mut self, snapshot: PoolSnapshot)
        requires
            snapshot.wf(),
        ensures
            final(self).view() == after_write(old(self).view(), snapshot@),
    {
        proof {
            use_type_invariant(&*self);
        }
        let id = snapshot.id.clone();
        let mut entries: AssocList<PoolIdentifier, PoolSnapshot> = AssocList::new();
        std::mem::swap(&mut entries, &mut self.entries);
        entries.insert(id, snapshot);
        self.entries = entries;
        assert(self.view() =~= after_write(old(self).view(), snapshot@));
    }

    /// A copy of the snapshot of pool `id`, if one is stored.
    pub fn get(&self, id: &PoolIdentifier) -> (r: Option<PoolSnapshot>)
        ensures
            snapshot_option(r) == lookup(self.view(), id@),
            r matches Some(s) ==> s.wf(),
    {
        proof {
            use_type_invariant(self);
        }
        match self.entries.get(id) {
            Some(s) => Some(s.clone()),
            None => None,
        }
    }

    /// Drops the snapshot of pool `id`, if any.
    pub fn delete(&mut self, id: &PoolIdentifier)
        ensures
            final(self).view() == old(self).view().remove(id@),
    {
        proof {
            use_type_invariant(&*self);
        }
        let mut entries: AssocList<PoolIdentifier, PoolSnapshot> = AssocList::new();
        std::mem::swap(&mut entries, &mut self.entries);
        entries.remove(id);
        self.entries = entries;
        assert(self.view() =~= old(self).view().remove(id@));
    }

    /// Copies of all stored snapshots, each once.
    pub fn all(&self) -> (r: Vec<PoolSnapshot>)
        ensures
            lists(self.view(), r@),
    {
        proof {
            use_type_invariant(self);
            self.entries.lemma_key_seq();
        }
        let mut out: Vec<PoolSnapshot> = Vec::new();
        let mut i: usize = 0;
        while i < self.entries.len()
            invariant
                self.entries.wf(),
                forall|k: PoolIdModel| #[trigger]
                    self.entries.map().contains_key(k) ==> self.entries.map()[k]@.id == k
                        && self.entries.map()[k].wf(),
                i <= self.entries.keys@.len(),
                out@.len() == i,
                forall|j: int| 0 <= j < i ==> (#[trigger] out@[j])@ == self.entries.vals@[j]@ && out@[j].wf(),
                forall|j: int| 0 <= j < i ==> (#[trigger] out@[j])@.id == self.entries.keys@[j]@,
            decreases self.entries.keys@.len() - i,
        {
            let ghost k = self.entries.keys@[i as int]@;
            proof {
                self.entries.lemma_index_unique(k, i as int);
                assert(self.entries.map().contains_key(k));
                assert(self.entries.map()[k] == self.entries.vals@[i as int]);
            }
            let s = self.entries.value_at(i);
            let c = s.clone();
            assert(c@.id == k && c.wf());
            out.push(c);
            i = i + 1;
        }
        proof {
            let m = self.view();
            assert forall|j: int| 0 <= j < out@.len() implies m.contains_key(#[trigger] out@[j]@.id) && m[out@[j]@.id] == out@[j]@ by {
                self.entries.lemma_index_unique(self.entries.keys@[j]@, j);
            }
            assert forall|a: int, b: int| 0 <= a < b < out@.len() implies #[trigger] out@[a]@.id != #[trigger] out@[b]@.id by {
                assert(self.entries.key_seq()[a] == self.entries.keys@[a]@);
                assert(self.entries.key_seq()[b] == self.entries.keys@[b]@);
            }
            assert forall|k: PoolIdModel| m.contains_key(k) implies exists|j: int| 0 <= j < out@.len() && #[trigger] out@[j]@.id == k by {
                let j = self.entries.index_of(k);
                assert(self.entries.key_seq()[j] == k);
                assert(out@[j]@.id == k);
            }
        }
        out
    }
}

/// Reads and writes of pool snapshots.
pub trait PoolRepository {
    fn upsert(&mut self, snapshot: PoolSnapshot) -> Result<(), StateError>
        requires
            snapshot.wf(),
    ;

    fn get(&self, id: &PoolIdentifier) -> Result<Option<PoolSnapshot>, StateError>;

    fn remove(&mut self, id: &PoolIdentifier) -> Result<(), StateError>;

    fn list(&self) -> Result<Vec<PoolSnapshot>, StateError>;
}

/// The pool repository held in memory.
#[derive(Debug)]
pub struct InMemoryPoolRepository {
    table: SnapshotTable,
}

impl View for InMemoryPoolRepository {
    type V = Map<PoolIdModel, SnapshotModel>;

    closed spec fn view(&self) -> Map<PoolIdModel, SnapshotModel> {
        self.table.view()
    }
}

impl InMemoryPoolRepository {
    pub fn new() -> (r: InMemoryPoolRepository)
        ensures
            r@ == Map::<PoolIdModel, SnapshotModel>::empty(),
    {
        InMemoryPoolRepository { table: SnapshotTable::new() }
    }
}

impl PoolRepository for InMemoryPoolRepository {
    /// Stores the snapshot under its pool, replacing an earlier one.
    fn upsert(&mut self, snapshot: PoolSnapshot) -> (r: Result<(), StateError>)
        ensures
            r is Ok,
            final(self)@ == after_write(old(self)@, snapshot@),
    {
        self.table.put(snapshot);
        Ok(())
    }

    /// The snapshot stored for the pool, if any.
    fn get(&self, id: &PoolIdentifier) -> (r: Result<Option<PoolSnapshot>, StateError>)
        ensures
            r matches Ok(v) && snapshot_option(v) == lookup(self@, id@) && (v matches Some(s) ==> s.wf()),
    {
        Ok(self.table.get(id))
    }

    fn remove(&mut self, id: &PoolIdentifier) -> (r: Result<(), StateError>)
        ensures
            r is Ok,
            final(self)@ == old(self)@.remove(id@),
    {
        self.table.delete(id);
        Ok(())
    }

    /// Every stored snapshot once, in no promised order.
    fn list(&self) -> (r: Result<Vec<PoolSnapshot>, StateError>)
        ensures
            r matches Ok(l) && lists(self@, l@),
    {
        Ok(self.table.all())
    }
}

/// Saves and restores pool snapshots.
pub trait SnapshotStore {
    fn save(&mut self, snapshot: &PoolSnapshot) -> Result<(), StateError>
        requires
            snapshot.wf(),
    ;

    fn load(&self, id: &PoolIdentifier) -> Result<Option<PoolSnapshot>, StateError>;

    fn remove(&mut self, id: &PoolIdentifier) -> Result<(), StateError>;

    fn list(&self) -> Result<Vec<PoolSnapshot>, StateError>;
}

/// A snapshot store held in memory.
#[derive(Debug)]
pub struct InMemorySnapshotStore {
    table: SnapshotTable,
}

impl View for InMemorySnapshotStore {
    type V = Map<PoolIdModel, SnapshotModel>;

    closed spec fn view(&self) -> Map<PoolIdModel, SnapshotModel> {
        self.table.view()
    }
}

impl InMemorySnapshotStore {
    pub fn new() -> (r: InMemorySnapshotStore)
        ensures
            r@ == Map::<PoolIdModel, SnapshotModel>::empty(),
    {
        InMemorySnapshotStore { table: SnapshotTable::new() }
    }
}

impl SnapshotStore for InMemorySnapshotStore {
    /// Keeps a copy of the snapshot under its pool.
    fn save(&mut self, snapshot: &PoolSnapshot) -> (r: Result<(), StateError>)
        ensures
            r is Ok,
            final(self)@ == after_write(old(self)@, snapshot@),
    {
        self.table.put(snapshot.clone());
        Ok(())
    }

    fn load(&self, id: &PoolIdentifier) -> (r: Result<Option<PoolSnapshot>, StateError>)
        ensures
            r matches Ok(v) && snapshot_option(v) == lookup(self@, id@) && (v matches Some(s) ==> s.wf()),
    {
        Ok(self.table.get(id))
    }

    fn remove(&mut self, id: &PoolIdentifier) -> (r: Result<(), StateError>)
        ensures
            r is Ok,
            final(self)@ == old(self)@.remove(id@),
    {
        self.table.delete(id);
        Ok(())
    }

    fn list(&self) -> (r: Result<Vec<PoolSnapshot>, StateError>)
        ensures
            r matches Ok(l) && lists(self@, l@),
    {
        Ok(self.table.all())
    }
}

/// A read of a pool gives back the snapshot last written for it; reads of
/// other pools are untouched by the write.
pub proof fn lemma_read_after_write(m: Map<PoolIdModel, SnapshotModel>, s: SnapshotModel, id: PoolIdModel)
    ensures
        lookup(after_write(m, s), s.id) == Some(s),
        id != s.id ==> lookup(after_write(m, s), id) == lookup(m, id),
{
}

/// After a pool is removed a read of it gives nothing; other pools stay.
pub proof fn lemma_read_after_remove(m: Map<PoolIdModel, SnapshotModel>, removed: PoolIdModel, id: PoolIdModel)
    ensures
        lookup(m.remove(removed), removed) is None,
        id != removed ==> lookup(m.remove(removed), id) == lookup(m, id),
{
}

/// Writing the same snapshot twice stores what writing it once does.
pub proof fn lemma_write_idempotent(m: Map<PoolIdModel, SnapshotModel>, s: SnapshotModel)
    ensures
        after_write(after_write(m, s), s) == after_write(m, s),
{
    assert(after_write(after_write(m, s), s) =~= after_write(m, s));
}


/// The pool repository and, when one is attached, the snapshot store that
/// receive what the event handlers write.
#[derive(Debug)]
pub struct PoolStores {
    pub repository: InMemoryPoolRepository,
    pub snapshot_store: Option<InMemorySnapshotStore>,
}

impl PoolStores {
    /// The stores' contents: the repository's, and the snapshot store's if
    /// one is attached.
    pub open spec fn contents(&self) -> (Map<PoolIdModel, SnapshotModel>, Option<Map<PoolIdModel, SnapshotModel>>) {
        (
            self.repository@,
            match self.snapshot_store {
                Some(st) => Some(st@),
                None => None,
            },
        )
    }

    pub fn new(snapshot_store: Option<InMemorySnapshotStore>) -> (r: PoolStores)
        ensures
            r.repository@ == Map::<PoolIdModel, SnapshotModel>::empty(),
            r.snapshot_store == snapshot_store,
    {
        PoolStores { repository: InMemoryPoolRepository::new(), snapshot_store }
    }

    /// Writes a snapshot to the repository and, if attached, the store.
    pub fn persist(&mut self, snapshot: PoolSnapshot) -> (r: Result<(), StateError>)
        requires
            snapshot.wf(),
        ensures
            r is Ok,
            final(self).contents() == persisted(old(self).contents(), snapshot@),
    {
        let copy = snapshot.clone();
        let _ = self.repository.upsert(copy);
        match &mut self.snapshot_store {
            Some(store) => {
                let _ = store.save(&snapshot);
            },
            None => {},
        }
        Ok(())
    }
}

/// The stores' contents after a snapshot is written to both.
pub open spec fn persisted(
    c: (Map<PoolIdModel, SnapshotModel>, Option<Map<PoolIdModel, SnapshotModel>>),
    s: SnapshotModel,
) -> (Map<PoolIdModel, SnapshotModel>, Option<Map<PoolIdModel, SnapshotModel>>) {
    (
        after_write(c.0, s),
        match c.1 {
            Some(m) => Some(after_write(m, s)),
            None => None,
        },
    )
}

} // verus!

//! The shared table: a bucket store behind a reader/writer lock, usable from
//! many threads at once.
//!
//! The lock's invariant is the store's well-formedness, so every state any
//! thread can ever observe satisfies the placement and uniqueness invariants
//! — Verus checks this at every release.  Lookups and snapshots take shared
//! access and run in parallel; mutations take exclusive access, so each
//! operation is one critical section and the table is linearizable.  Growth
//! happens inside the insert's critical section and excludes everything
//! else for its duration.

use vstd::prelude::*;
use vstd::rwlock::RwLock;
use vstd::rwlock::RwLockPredicate;

use crate::errors::TableError;
use crate::inner::InnerTable;
use crate::inner::INIT_SIZE;
use crate::kv::Entry;
use crate::kv::KeyVal;

verus! {

/// The lock predicate: only well-formed bucket stores may be stored.
pub struct WellFormed {}

impl RwLockPredicate<InnerTable> for WellFormed {
    open spec fn inv(self, t: InnerTable) -> bool {
        t.wf()
    }
}

/// A concurrently usable cuckoo hash table with string keys and values.
pub struct CuckooHashTable {
    table: RwLock<InnerTable, WellFormed>,
}

impl CuckooHashTable {
    /// The lock is configured to hold exactly the well-formed stores.
    pub closed spec fn wf(self) -> bool {
        self.table.pred() == (WellFormed {  })
    }

    /// An empty table with the given number of slots.
    pub fn with_capacity(capacity: usize) -> (t: Self)
        requires
            capacity > 0,
        ensures
            t.wf(),
    {
        CuckooHashTable {
            table: RwLock::new(InnerTable::with_capacity(capacity), Ghost(WellFormed {  })),
        }
    }

    /// An empty table at the default initial capacity.
    pub fn new() -> (t: Self)
        ensures
            t.wf(),
    {
        Self::with_capacity(INIT_SIZE)
    }

    /// Insert under exclusive access: direct placement, else relocation,
    /// else growth; the one observable failure is the growth bound.
    pub fn insert(&self, key: String, value: String) -> (r: Result<(), TableError>)
        requires
            self.wf(),
    {
        let keyval = KeyVal { key, value };
        let (mut t, handle) = self.table.acquire_write();
        let r = t.insert(&keyval);
        handle.release_write(t);
        r
    }

    /// Look a key up under shared access.
    pub fn lookup(&self, key: &String) -> (r: Option<String>)
        requires
            self.wf(),
    {
        let handle = self.table.acquire_read();
        let r = handle.borrow().lookup(key);
        handle.release_read();
        r
    }

    /// Remove a key under exclusive access, returning its value if present.
    pub fn remove(&self, key: &String) -> (r: Option<String>)
        requires
            self.wf(),
    {
        let (mut t, handle) = self.table.acquire_write();
        let r = t.remove(key);
        handle.release_write(t);
        r
    }

    /// Snapshot of all live entries, consistent at the instant captured.
    pub fn get_vec(&self) -> (r: Vec<Entry>)
        requires
            self.wf(),
    {
        let handle = self.table.acquire_read();
        let r = handle.borrow().get_vec();
        handle.release_read();
        r
    }

    /// The capacity at the instant observed; positive, and only ever grown.
    pub fn get_capacity(&self) -> (c: usize)
        requires
            self.wf(),
        ensures
            c > 0,
    {
        let handle = self.table.acquire_read();
        let c = handle.borrow().get_capacity();
        proof {
            assert(handle.view().wf());
        }
        handle.release_read();
        c
    }
}

impl Default for CuckooHashTable {
    /// An empty table at the default initial capacity.
    fn default() -> (t: Self)
        ensures
            t.wf(),
    {
        Self::new()
    }
}

} // verus!

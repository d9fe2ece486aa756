//! The shared transposition table: a map from 64-bit position hashes to
//! prior search results, shared by every worker of one search and
//! serialized through a single reader-writer lock. A write always
//! overwrites whatever was stored under the hash before. Entries are
//! hints, not truths: a reader must validate the stored move against the
//! position it actually has.

use std::collections::HashMap;
use std::sync::Arc;
use vstd::prelude::*;
use vstd::rwlock::{RwLock, RwLockPredicate};
use crate::board::Mv;

verus! {

/// One cached search result: the best move found, its score (relative to
/// the side to move), and the ply it was stored at.
#[derive(Clone, Copy, Debug)]
pub struct TTEntry {
    pub mov: Mv,
    pub score: i32,
    pub depth: u8,
}

/// The lock invariant of the table: any map of entries is acceptable,
/// since readers treat entries as unvalidated hints.
pub struct TtPred {}

impl RwLockPredicate<HashMap<u64, TTEntry>> for TtPred {
    open spec fn inv(self, v: HashMap<u64, TTEntry>) -> bool {
        true
    }
}

/// A handle to a shared transposition table. Cloning the handle with
/// [`TranspositionTable::share`] yields a handle to the same table.
pub struct TranspositionTable {
    pub inner: Arc<RwLock<HashMap<u64, TTEntry>, TtPred>>,
}

impl TranspositionTable {
    /// A fresh, empty table.
    pub fn new() -> TranspositionTable {
        TranspositionTable { inner: Arc::new(RwLock::new(HashMap::new(), Ghost(TtPred {  }))) }
    }

    /// Relies on `std::sync::Arc::clone`: the clone is a second owner of
    /// the very same allocation, so the handles are equal as values.
    #[verifier::external_body]
    pub fn share(&self) -> (r: TranspositionTable)
        ensures
            r.inner == self.inner,
    {
        TranspositionTable { inner: Arc::clone(&self.inner) }
    }

    /// Look up the entry stored under `hash`, if any, holding the read
    /// lock for the duration of the lookup.
    pub fn probe(&self, hash: u64) -> Option<TTEntry> {
        let handle = self.inner.acquire_read();
        let r = match handle.borrow().get(&hash) {
            Some(e) => Some(*e),
            None => None,
        };
        handle.release_read();
        r
    }

    /// Store an entry under `hash`, overwriting any previous one, holding
    /// the write lock for the duration of the store.
    pub fn insert(&self, hash: u64, depth: u8, mov: Mv, score: i32) {
        let (mut map, handle) = self.inner.acquire_write();
        map.insert(hash, TTEntry { mov, score, depth });
        handle.release_write(map);
    }
}

} // verus!

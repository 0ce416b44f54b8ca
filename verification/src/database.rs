//! The shared in-memory store.
//!
//! The store is a process-wide handle, cloned into every connection
//! task; its three tables are concurrent maps from the `dashmap` crate.
//! Because any task may write between any two operations, no operation
//! here can promise anything about a later one: the store is a trusted
//! external collaborator, and every decision the command layer makes
//! about a store result is taken by a verified function that receives
//! that result as an argument.

use vstd::prelude::*;

use crate::resp::frame::RespFrame;

verus! {

#[verifier::external_type_specification]
#[verifier::external_body]
#[verifier::reject_recursive_types(K)]
#[verifier::reject_recursive_types(V)]
#[verifier::reject_recursive_types(S)]
pub struct ExDashMap<K, V, S>(dashmap::DashMap<K, V, S>);

#[verifier::external_type_specification]
#[verifier::external_body]
#[verifier::reject_recursive_types(K)]
#[verifier::reject_recursive_types(S)]
pub struct ExDashSet<K, S>(dashmap::DashSet<K, S>);

/// The three tables: top-level values, hashes, and sets.
pub struct Backend {
    pub map: dashmap::DashMap<Vec<u8>, RespFrame>,
    pub hmap: dashmap::DashMap<Vec<u8>, dashmap::DashMap<Vec<u8>, RespFrame>>,
    pub hset: dashmap::DashMap<Vec<u8>, dashmap::DashSet<Vec<u8>>>,
}

/// A cheaply clonable handle to the shared store.
pub struct Database(pub std::sync::Arc<Backend>);

impl Clone for Database {
    /// Relies on `Arc::clone`: both handles reach the same tables.
    #[verifier::external_body]
    fn clone(&self) -> Self {
        Database(std::sync::Arc::clone(&self.0))
    }
}

impl Default for Database {
    fn default() -> Self {
        Database::new()
    }
}

impl Database {
    /// Relies on `dashmap::DashMap::new` to build the empty tables.
    #[verifier::external_body]
    pub fn new() -> (r: Database) {
        Database(
            std::sync::Arc::new(
                Backend {
                    map: dashmap::DashMap::new(),
                    hmap: dashmap::DashMap::new(),
                    hset: dashmap::DashMap::new(),
                },
            ),
        )
    }

    /// Relies on `dashmap::DashMap::get`; the stored value is cloned
    /// out of the shared table.
    #[verifier::external_body]
    pub fn get(&self, key: &[u8]) -> Option<RespFrame> {
        self.0.map.get(key).map(|v| v.value().clone())
    }

    /// Relies on `dashmap::DashMap::insert`: last writer wins.
    #[verifier::external_body]
    pub fn set(&self, key: Vec<u8>, value: RespFrame) {
        self.0.map.insert(key, value);
    }

    /// Relies on `dashmap::DashMap::get` on the outer and inner tables.
    #[verifier::external_body]
    pub fn hget(&self, key: &[u8], field: &[u8]) -> Option<RespFrame> {
        self.0.hmap.get(key).and_then(|m| m.get(field).map(|v| v.value().clone()))
    }

    /// Relies on `dashmap::Entry::or_default` and
    /// `dashmap::DashMap::insert` on the inner table.
    #[verifier::external_body]
    pub fn hset(&self, key: Vec<u8>, field: Vec<u8>, value: RespFrame) {
        let m = self.0.hmap.entry(key).or_default();
        m.insert(field, value);
    }

    /// Relies on `dashmap::DashMap::get` and `dashmap::DashMap::iter`:
    /// the hash's entries, cloned out in the table's own (unspecified)
    /// order.
    #[verifier::external_body]
    pub fn hgetall(&self, key: &[u8]) -> Option<Vec<(Vec<u8>, RespFrame)>> {
        self.0.hmap.get(key).map(
            |m| m.iter().map(|e| (e.key().clone(), e.value().clone())).collect(),
        )
    }

    /// Relies on `dashmap::Entry::or_default` and
    /// `dashmap::DashSet::insert`.
    #[verifier::external_body]
    pub fn sadd(&self, key: Vec<u8>, member: Vec<u8>) {
        let s = self.0.hset.entry(key).or_default();
        s.insert(member);
    }

    /// Relies on `dashmap::DashMap::get` and `dashmap::DashSet::iter`:
    /// the set's members, cloned out in the table's own (unspecified)
    /// order.
    #[verifier::external_body]
    pub fn sall(&self, key: &[u8]) -> Option<Vec<Vec<u8>>> {
        self.0.hset.get(key).map(|s| s.iter().map(|m| m.key().clone()).collect())
    }
}

} // verus!

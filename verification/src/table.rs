//! The durable byte table that backs the stores.
//!
//! Documents and vectors are kept in stable B-tree maps from string keys to
//! byte strings.  The map itself comes from an outside crate; this module
//! declares what the library relies on about it: its contents as a map
//! ([`table_entries`]), and the fixed order in which it hands entries out
//! ([`table_entry_order`]), which for a B-tree is ascending key order — a
//! function of the contents alone.

use ic_stable_structures::{StableBTreeMap, VectorMemory};
use vstd::prelude::*;

verus! {

/// A durable map from string keys to byte strings, in stable memory.
#[verifier::external_body]
pub struct DocTable {
    inner: StableBTreeMap<String, Vec<u8>, VectorMemory>,
}

/// What a table holds: its keys and the byte string stored under each.
pub uninterp spec fn table_entries(t: DocTable) -> Map<Seq<char>, Seq<u8>>;

/// The empty contents of a fresh table.
pub open spec fn empty_table() -> Map<Seq<char>, Seq<u8>> {
    Map::empty()
}

/// The order in which a table walks its entries: for a B-tree map this is
/// ascending key order, so it is determined by the contents alone.
pub uninterp spec fn table_entry_order(m: Map<Seq<char>, Seq<u8>>) -> Seq<Seq<char>>;

/// Whether a walk order lists exactly the keys of a map: every listed key
/// is held, no key is listed twice, and every held key is listed.  Each
/// scan's `ensures` states this of the store's walk order, so callers can
/// conclude that scans are complete and free of duplicates.
pub open spec fn lists_keys_once(ord: Seq<Seq<char>>, dom: Set<Seq<char>>) -> bool {
    &&& forall|i: int| 0 <= i < ord.len() ==> dom.contains(#[trigger] ord[i])
    &&& forall|i: int, j: int| 0 <= i < j < ord.len() ==> ord[i] != ord[j]
    &&& forall|k: Seq<char>| #[trigger] dom.contains(k) ==> ord.contains(k)
}

impl DocTable {
    /// Relies on `StableBTreeMap::new`: a map over fresh memory is empty.
    #[verifier::external_body]
    pub fn new() -> (r: DocTable)
        ensures
            table_entries(r) == empty_table(),
    {
        DocTable { inner: StableBTreeMap::new(VectorMemory::default()) }
    }

    /// Relies on `StableBTreeMap::len`: the number of entries in the map.
    #[verifier::external_body]
    pub fn len(&self) -> (r: u64)
        ensures
            r as int == table_entries(*self).dom().len(),
    {
        self.inner.len()
    }

    /// Relies on `StableBTreeMap::get`: the value stored under the key, if
    /// any.
    #[verifier::external_body]
    pub fn get(&self, key: &String) -> (r: Option<Vec<u8>>)
        ensures
            match r {
                Some(v) => table_entries(*self).contains_key(key@) && v@ == table_entries(
                    *self,
                )[key@],
                None => !table_entries(*self).contains_key(key@),
            },
    {
        self.inner.get(key)
    }

    /// Relies on `StableBTreeMap::contains_key`.
    #[verifier::external_body]
    pub fn contains(&self, key: &String) -> (r: bool)
        ensures
            r == table_entries(*self).contains_key(key@),
    {
        self.inner.contains_key(key)
    }

    /// Relies on `StableBTreeMap::insert`: an upsert; the last write under a
    /// key wins.
    #[verifier::external_body]
    pub fn insert(&mut self, key: String, value: Vec<u8>)
        ensures
            table_entries(*final(self)) == table_entries(*old(self)).insert(key@, value@),
            table_entries(*old(self)).dom().finite() ==> table_entries(*final(self)).dom().finite(),
    {
        self.inner.insert(key, value);
    }

    /// Relies on `StableBTreeMap::remove`: takes the entry out and tells
    /// whether one was there.
    #[verifier::external_body]
    pub fn remove(&mut self, key: &String) -> (r: bool)
        ensures
            r == table_entries(*old(self)).contains_key(key@),
            table_entries(*final(self)) == table_entries(*old(self)).remove(key@),
            table_entries(*old(self)).dom().finite() ==> table_entries(*final(self)).dom().finite(),
    {
        self.inner.remove(key).is_some()
    }

    /// Relies on `StableBTreeMap::iter`: walks every entry exactly once, in
    /// ascending key order — the same order whenever the contents are the
    /// same.
    #[verifier::external_body]
    pub fn entries(&self) -> (r: Vec<(String, Vec<u8>)>)
        ensures
            r@.len() == table_entry_order(table_entries(*self)).len(),
            forall|i: int|
                0 <= i < r@.len() ==> (#[trigger] r@[i]).0@ == table_entry_order(
                    table_entries(*self),
                )[i] && table_entries(*self).contains_key(r@[i].0@) && r@[i].1@ == table_entries(
                    *self,
                )[r@[i].0@],
            forall|i: int, j: int| 0 <= i < j < r@.len() ==> (#[trigger] r@[i]).0@ != (
            #[trigger] r@[j]).0@,
            forall|k: Seq<char>|
                table_entries(*self).contains_key(k) ==> exists|i: int|
                    0 <= i < r@.len() && (#[trigger] r@[i]).0@ == k,
    {
        self.inner.iter().map(|e| e.into_pair()).collect()
    }
}

} // verus!

//! An embedded, restart-durable document store with an attached
//! fixed-dimension vector index, and an adapter that composes the two into
//! CRUD operations for a small set of domain entities (agents, memories,
//! rooms, entities, cache records).

pub mod adapter;
pub mod auth;
pub mod bridge;
pub mod character;
pub mod codec;
pub mod config;
pub mod errors;
pub mod ident;
pub mod keys;
pub mod laws;
pub mod records;
pub mod respond;
pub mod sort;
pub mod store;
pub mod table;
pub mod value;
pub mod vector;

use vstd::prelude::*;

verus! {

/// The key under which a document is stored: the collection name and the id,
/// joined by a colon.
pub open spec fn key_of(collection: Seq<char>, id: Seq<char>) -> Seq<char> {
    collection + seq![':'] + id
}

/// Build the storage key `"<collection>:<id>"` for a document.
pub fn make_key(collection: &str, id: &str) -> (r: String)
    ensures
        r@ == key_of(collection@, id@),
{
    let mut k = collection.to_owned();
    k.append(":");
    k.append(id);
    proof {
        reveal_strlit(":");
        assert(k@ =~= key_of(collection@, id@));
    }
    k
}

} // verus!

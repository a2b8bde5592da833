//! The database adapter: entity-aware CRUD for agents, memories, rooms,
//! entities and cache records, built from the collection store and the
//! vector index.
//!
//! The adapter is a handle built once and passed by reference; `init` and
//! `close` bracket a session.  Documents live in fixed collections; memory
//! records carry their "table" in `metadata.type`.  What the host alone can
//! supply — the clock and fresh ids — comes in as plain arguments.

use vstd::prelude::*;

use crate::errors::{StorageError, StorageResult};
use crate::key_of;
use crate::sort::{rank_m, rank_models, sort_desc_r, sort_ranked_desc};
use crate::store::{in_collection, Cond, IcpMemoryStorage};
use crate::value::{doc_get, doc_set, fields_get, fields_set, lemma_list_models,
    lemma_list_models_push, list_models, val_model, ValModel, Value};
use crate::vector::{res_models, take_at_most, IcpVectorStorage, MAX_DIM};

verus! {

/// The `createdAt` stamp a document sorts under: its `createdAt` field when
/// that is an integer, and zero otherwise.
pub open spec fn created_at(m: ValModel) -> int {
    match doc_get(m, "createdAt"@) {
        Some(ValModel::Int(t)) => t,
        _ => 0,
    }
}

/// Read a document's sort stamp.
pub fn created_at_of(v: &Value) -> (r: i64)
    ensures
        r as int == created_at(v@),
{
    match v.get("createdAt") {
        Some(t) => match t.as_int() {
            Some(i) => i,
            None => 0,
        },
        None => 0,
    }
}

/// Whether field `f` of `m` holds exactly the text `s`.
pub open spec fn field_text(m: ValModel, f: Seq<char>, s: Seq<char>) -> bool {
    match doc_get(m, f) {
        Some(ValModel::Text(t)) => t == s,
        _ => false,
    }
}

/// Whether an optional equality filter passes: no filter, or the field holds
/// exactly the given text.
pub open spec fn opt_field(m: ValModel, f: Seq<char>, o: Option<&str>) -> bool {
    match o {
        Some(s) => field_text(m, f, s@),
        None => true,
    }
}

/// The table rule inside the `memories` collection: the document's
/// `metadata.type` is exactly the table name; a document without a
/// `metadata` field, or whose `type` is missing or not text, does not
/// match.
pub open spec fn table_is(m: ValModel, t: Seq<char>) -> bool {
    match doc_get(m, "metadata"@) {
        Some(md) => match doc_get(md, "type"@) {
            Some(ValModel::Text(x)) => x == t,
            _ => false,
        },
        None => false,
    }
}

/// The scan filter of a memory query: the table rule plus the optional
/// equality filters.
pub open spec fn mem_filter(
    m: ValModel,
    table: Seq<char>,
    eo: Option<&str>,
    ao: Option<&str>,
    ro: Option<&str>,
    wo: Option<&str>,
) -> bool {
    table_is(m, table) && opt_field(m, "entityId"@, eo) && opt_field(m, "agentId"@, ao)
        && opt_field(m, "roomId"@, ro) && opt_field(m, "worldId"@, wo)
}

/// Stamp each document with its sort key.
pub open spec fn by_created(ms: Seq<ValModel>) -> Seq<(int, ValModel)> {
    ms.map_values(|m: ValModel| (created_at(m), m))
}

/// Drop the sort keys again.
pub open spec fn vals_of(s: Seq<(int, ValModel)>) -> Seq<ValModel> {
    s.map_values(|p: (int, ValModel)| p.1)
}

/// First drop `offset` documents, then keep at most `count`.
pub open spec fn page(s: Seq<ValModel>, offset: Option<usize>, count: Option<usize>) -> Seq<
    ValModel,
> {
    let o: int = match offset {
        Some(o) => o as int,
        None => 0,
    };
    let after: Seq<ValModel> = if o <= s.len() {
        s.skip(o)
    } else {
        Seq::empty()
    };
    match count {
        Some(c) => if after.len() <= c {
            after
        } else {
            after.subrange(0, c as int)
        },
        None => after,
    }
}

/// Two filters that agree pointwise select the same documents.
pub proof fn lemma_filter_congruent<A>(s: Seq<A>, p: spec_fn(A) -> bool, q: spec_fn(A) -> bool)
    requires
        forall|x: A| #[trigger] p(x) == q(x),
    ensures
        s.filter(p) == s.filter(q),
    decreases s.len(),
{
    reveal(Seq::filter);
    if s.len() > 0 {
        lemma_filter_congruent(s.drop_last(), p, q);
    }
}

/// The adapter: entity CRUD over one document store and one vector index,
/// bound to one agent.
pub struct IcpDatabaseAdapter {
    mem: IcpMemoryStorage,
    vec: IcpVectorStorage,
    agent_id: String,
    embedding_dimension: usize,
    ready: bool,
}

impl IcpDatabaseAdapter {
    /// The documents held, by storage key.
    pub closed spec fn docs(self) -> Map<Seq<char>, ValModel> {
        self.mem.docs()
    }

    /// The documents of one collection, in scan order.
    pub closed spec fn docs_in(self, c: Seq<char>) -> Seq<ValModel> {
        self.mem.docs_in(c)
    }

    /// The vectors held, by id.
    pub closed spec fn vectors(self) -> Map<Seq<char>, Seq<i32>> {
        self.vec.vectors()
    }

    /// The keys the document store walks, in order.
    pub closed spec fn mem_order(self) -> Seq<Seq<char>> {
        self.mem.key_order()
    }

    /// The ids the vector index walks, in order.
    pub closed spec fn vec_order(self) -> Seq<Seq<char>> {
        self.vec.id_order()
    }

    /// The vector index's configured dimension.
    pub closed spec fn dimension(self) -> int {
        self.vec.dimension()
    }

    /// The dimension the adapter will configure the index with.
    pub closed spec fn embedding_dim(self) -> int {
        self.embedding_dimension as int
    }

    /// The id of the agent the adapter is bound to.
    pub closed spec fn agent(self) -> Seq<char> {
        self.agent_id@
    }

    /// Whether `init` has run and `close` has not.
    pub closed spec fn is_ready_spec(self) -> bool {
        self.ready
    }

    /// Internal consistency of both stores.
    pub closed spec fn wf(self) -> bool {
        &&& self.mem.wf()
        &&& self.vec.wf()
        &&& self.embedding_dimension <= MAX_DIM
    }

    /// A fresh adapter over empty stores, not yet ready.
    pub fn new(agent_id: String) -> (r: IcpDatabaseAdapter)
        ensures
            r.wf(),
            r.docs() == crate::store::no_docs(),
            r.vectors() == crate::vector::no_vectors(),
            r.agent() == agent_id@,
            r.embedding_dim() == 384,
            !r.is_ready_spec(),
    {
        IcpDatabaseAdapter {
            mem: IcpMemoryStorage::new(),
            vec: IcpVectorStorage::new(),
            agent_id,
            embedding_dimension: 384,
            ready: false,
        }
    }

    /// Initialize: attach the store, configure the index to the bound
    /// dimension, and become ready.  Idempotent; stored documents are kept.
    pub fn init(&mut self) -> (r: StorageResult<()>)
        requires
            old(self).wf(),
        ensures
            final(self).wf(),
            r is Ok,
            final(self).is_ready_spec(),
            final(self).docs() == old(self).docs(),
            final(self).vectors() == old(self).vectors(),
            final(self).dimension() == old(self).embedding_dim(),
            final(self).embedding_dim() == old(self).embedding_dim(),
            final(self).agent() == old(self).agent(),
    {
        let r = self.mem.init();
        match r {
            Ok(_) => {},
            Err(e) => {
                return Err(e);
            },
        }
        match self.vec.init(self.embedding_dimension) {
            Ok(_) => {},
            Err(e) => {
                return Err(e);
            },
        }
        self.ready = true;
        Ok(())
    }

    /// Whether the adapter is ready.
    pub fn is_ready(&self) -> (r: bool)
        ensures
            r == self.is_ready_spec(),
    {
        self.ready
    }

    /// Close the session: the adapter is no longer ready, and all durable
    /// state — documents and vector records alike — is kept; only
    /// non-durable session state goes.
    pub fn close(&mut self) -> (r: StorageResult<()>)
        requires
            old(self).wf(),
        ensures
            final(self).wf(),
            r is Ok,
            !final(self).is_ready_spec(),
            final(self).docs() == old(self).docs(),
            final(self).vectors() == old(self).vectors(),
            final(self).dimension() == old(self).dimension(),
            final(self).agent() == old(self).agent(),
            final(self).embedding_dim() == old(self).embedding_dim(),
    {
        match self.mem.close() {
            Ok(_) => {},
            Err(e) => {
                return Err(e);
            },
        }
        self.ready = false;
        Ok(())
    }

    /// Rebind the embedding dimension; reconfigures the index only when it
    /// actually changes.
    pub fn ensure_embedding_dimension(&mut self, dimension: usize) -> (r: StorageResult<()>)
        requires
            old(self).wf(),
            dimension <= MAX_DIM,
        ensures
            final(self).wf(),
            r is Ok,
            final(self).embedding_dim() == dimension,
            final(self).docs() == old(self).docs(),
            final(self).vectors() == old(self).vectors(),
            final(self).agent() == old(self).agent(),
            final(self).dimension() == if old(self).embedding_dim() != dimension {
                dimension as int
            } else {
                old(self).dimension()
            },
    {
        if self.embedding_dimension != dimension {
            self.embedding_dimension = dimension;
            match self.vec.init(dimension) {
                Ok(_) => {},
                Err(e) => {
                    return Err(e);
                },
            }
        }
        Ok(())
    }

    /// Exact agent lookup.
    pub fn get_agent(&self, agent_id: &str) -> (r: StorageResult<Option<Value>>)
        requires
            self.wf(),
        ensures
            match r {
                Ok(o) => match o {
                    Some(v) => self.docs().contains_key(key_of("agents"@, agent_id@)) && v@
                        == self.docs()[key_of("agents"@, agent_id@)],
                    None => !self.docs().contains_key(key_of("agents"@, agent_id@)),
                },
                Err(_) => false,
            },
    {
        self.mem.get("agents", agent_id)
    }

    /// All stored agents, in scan order.
    pub fn get_agents(&self) -> (r: StorageResult<Vec<Value>>)
        requires
            self.wf(),
        ensures
            match r {
                Ok(vs) => list_models(vs@) == self.docs_in("agents"@),
                Err(_) => false,
            },
            crate::table::lists_keys_once(self.mem_order(), self.docs().dom()),
    {
        self.mem.get_all("agents")
    }

    /// Store an agent under its own `id` field; an agent without one is
    /// refused with `false`, not an error.
    pub fn create_agent(&mut self, agent: Value) -> (r: StorageResult<bool>)
        requires
            old(self).wf(),
        ensures
            final(self).wf(),
            final(self).vectors() == old(self).vectors(),
            match doc_get(agent@, "id"@) {
                Some(ValModel::Text(id)) => r == Ok::<bool, StorageError>(true)
                    && final(self).docs() == old(self).docs().insert(key_of("agents"@, id), agent@),
                _ => r == Ok::<bool, StorageError>(false)
                    && final(self).docs() == old(self).docs(),
            },
    {
        let id: Option<String> = match agent.get("id") {
            Some(v) => match v.as_text() {
                Some(s) => Some(s.clone()),
                None => None,
            },
            None => None,
        };
        match id {
            Some(id) => {
                match self.mem.set("agents", id.as_str(), agent) {
                    Ok(_) => Ok(true),
                    Err(e) => Err(e),
                }
            },
            None => Ok(false),
        }
    }

    /// Delete an agent; tells whether one was stored.
    pub fn delete_agent(&mut self, agent_id: &str) -> (r: StorageResult<bool>)
        requires
            old(self).wf(),
        ensures
            final(self).wf(),
            final(self).vectors() == old(self).vectors(),
            match r {
                Ok(b) => b == old(self).docs().contains_key(key_of("agents"@, agent_id@))
                    && final(self).docs() == old(self).docs().remove(
                    key_of("agents"@, agent_id@),
                ),
                Err(_) => false,
            },
    {
        self.mem.delete("agents", agent_id)
    }

    /// Exact room lookup.
    pub fn get_room(&self, id: &str) -> (r: StorageResult<Option<Value>>)
        requires
            self.wf(),
        ensures
            match r {
                Ok(o) => match o {
                    Some(v) => self.docs().contains_key(key_of("rooms"@, id@)) && v@
                        == self.docs()[key_of("rooms"@, id@)],
                    None => !self.docs().contains_key(key_of("rooms"@, id@)),
                },
                Err(_) => false,
            },
    {
        self.mem.get("rooms", id)
    }

    /// Exact entity lookup.
    pub fn get_entity(&self, id: &str) -> (r: StorageResult<Option<Value>>)
        requires
            self.wf(),
        ensures
            match r {
                Ok(o) => match o {
                    Some(v) => self.docs().contains_key(key_of("entities"@, id@)) && v@
                        == self.docs()[key_of("entities"@, id@)],
                    None => !self.docs().contains_key(key_of("entities"@, id@)),
                },
                Err(_) => false,
            },
    {
        self.mem.get("entities", id)
    }

    /// Exact memory lookup.
    pub fn get_memory_by_id(&self, id: &str) -> (r: StorageResult<Option<Value>>)
        requires
            self.wf(),
        ensures
            match r {
                Ok(o) => match o {
                    Some(v) => self.docs().contains_key(key_of("memories"@, id@)) && v@
                        == self.docs()[key_of("memories"@, id@)],
                    None => !self.docs().contains_key(key_of("memories"@, id@)),
                },
                Err(_) => false,
            },
    {
        self.mem.get("memories", id)
    }

    /// Delete a cache record; tells whether one was stored.
    pub fn delete_cache(&mut self, key: &str) -> (r: StorageResult<bool>)
        requires
            old(self).wf(),
        ensures
            final(self).wf(),
            final(self).vectors() == old(self).vectors(),
            match r {
                Ok(b) => b == old(self).docs().contains_key(key_of("cache"@, key@))
                    && final(self).docs() == old(self).docs().remove(key_of("cache"@, key@)),
                Err(_) => false,
            },
    {
        self.mem.delete("cache", key)
    }

    /// How many documents the `memories` collection holds.
    pub fn memory_count(&self) -> (r: u64)
        requires
            self.wf(),
        ensures
            r as int == self.docs_in("memories"@).len(),
    {
        match self.mem.count("memories", None) {
            Ok(c) => c as u64,
            Err(_) => 0,
        }
    }
}

/// The fields of `base` overwritten, one by one, by the fields of `patch`.
pub open spec fn merge_fields(
    base: Seq<(Seq<char>, ValModel)>,
    patch: Seq<(Seq<char>, ValModel)>,
) -> Seq<(Seq<char>, ValModel)>
    decreases patch.len(),
{
    if patch.len() == 0 {
        base
    } else {
        merge_fields(fields_set(base, patch[0].0, patch[0].1), patch.skip(1))
    }
}

/// A shallow merge: `patch`'s top-level fields overwrite `base`'s, field by
/// field; anything else leaves `base` as it was.
pub open spec fn merged(base: ValModel, patch: ValModel) -> ValModel {
    match base {
        ValModel::Object(bf) => match patch {
            ValModel::Object(pf) => ValModel::Object(merge_fields(bf, pf)),
            _ => base,
        },
        _ => base,
    }
}

/// The id a created document is stored under: its own `id` field when it
/// carries one, else the fresh id the caller supplied.
pub open spec fn chosen_id(m: ValModel, fresh: Seq<char>) -> Seq<char> {
    match doc_get(m, "id"@) {
        Some(ValModel::Text(s)) => s,
        _ => fresh,
    }
}

/// Whether a cache record is past its `expiresAt` stamp.
pub open spec fn expired(m: ValModel, now: int) -> bool {
    match doc_get(m, "expiresAt"@) {
        Some(ValModel::Int(t)) => now > t,
        _ => false,
    }
}

/// The stored rooms among the given ids, in the ids' order.
pub open spec fn rooms_present(docs: Map<Seq<char>, ValModel>, ids: Seq<String>) -> Seq<ValModel>
    decreases ids.len(),
{
    if ids.len() == 0 {
        Seq::empty()
    } else {
        (if docs.contains_key(key_of("rooms"@, ids[0]@)) {
            seq![docs[key_of("rooms"@, ids[0]@)]]
        } else {
            Seq::empty()
        }) + rooms_present(docs, ids.skip(1))
    }
}

/// Apply a shallow patch to a document.
#[verifier::loop_isolation(false)]
pub fn apply_patch(base: Value, patch: &Value) -> (r: Value)
    ensures
        r@ == merged(base@, patch@),
{
    match patch {
        Value::Object(pf) => {
            if !base.is_object() {
                return base;
            }
            let ghost pm = crate::value::field_models(pf@);
            let mut cur = base;
            let n = pf.len();
            let mut i: usize = 0;
            proof {
                crate::value::lemma_field_models(pf@);
                assert(pm.skip(0) =~= pm);
            }
            while i < n
                invariant
                    0 <= i <= n,
                    n == pf@.len(),
                    pm.len() == n,
                    cur@ is Object,
                    merge_fields(cur@->Object_0, pm.skip(i as int)) == merge_fields(
                        base@->Object_0,
                        pm,
                    ),
                decreases n - i,
            {
                let ghost before = cur@;
                let val = pf[i].1.deep_clone();
                cur = cur.with_field(pf[i].0.as_str(), val);
                proof {
                    crate::value::lemma_field_models(pf@);
                    assert(pm[i as int] == (pf@[i as int].0@, val_model(pf@[i as int].1)));
                    assert(pm.skip(i as int)[0] == pm[i as int]);
                    assert(pm.skip(i as int).skip(1) =~= pm.skip(i as int + 1));
                }
                i = i + 1;
            }
            proof {
                assert(pm.skip(n as int) =~= Seq::<(Seq<char>, ValModel)>::empty());
            }
            cur
        },
        _ => base,
    }
}

impl IcpDatabaseAdapter {
    /// Shallow-merge a patch over a stored agent; `false` when no agent is
    /// stored under the id, and nothing changes.
    pub fn update_agent(&mut self, agent_id: &str, agent: Value) -> (r: StorageResult<bool>)
        requires
            old(self).wf(),
        ensures
            final(self).wf(),
            final(self).vectors() == old(self).vectors(),
            match r {
                Ok(b) => if old(self).docs().contains_key(key_of("agents"@, agent_id@)) {
                    b == true && final(self).docs() == old(self).docs().insert(
                        key_of("agents"@, agent_id@),
                        merged(old(self).docs()[key_of("agents"@, agent_id@)], agent@),
                    )
                } else {
                    b == false && final(self).docs() == old(self).docs()
                },
                Err(_) => false,
            },
    {
        let existing = match self.mem.get("agents", agent_id) {
            Ok(o) => o,
            Err(e) => {
                return Err(e);
            },
        };
        match existing {
            Some(ex) => {
                let updated = apply_patch(ex, &agent);
                match self.mem.set("agents", agent_id, updated) {
                    Ok(_) => Ok(true),
                    Err(e) => Err(e),
                }
            },
            None => Ok(false),
        }
    }

    /// Store a room, giving it the caller's fresh id when it carries none.
    pub fn create_room(&mut self, room: Value, fresh_id: &str) -> (r: StorageResult<String>)
        requires
            old(self).wf(),
            room@ is Object,
        ensures
            final(self).wf(),
            final(self).vectors() == old(self).vectors(),
            match r {
                Ok(id) => id@ == chosen_id(room@, fresh_id@) && final(self).docs() == old(self).docs().insert(
                    key_of("rooms"@, id@),
                    doc_set(room@, "id"@, ValModel::Text(id@)),
                ),
                Err(_) => false,
            },
    {
        let id: String = match room.get("id") {
            Some(v) => match v.as_text() {
                Some(t) => t.clone(),
                None => fresh_id.to_owned(),
            },
            None => fresh_id.to_owned(),
        };
        let stored = room.with_field("id", Value::Text(id.clone()));
        match self.mem.set("rooms", id.as_str(), stored) {
            Ok(_) => Ok(id),
            Err(e) => Err(e),
        }
    }

    /// Store an entity, giving it the caller's fresh id when it carries
    /// none.
    pub fn create_entity(&mut self, entity: Value, fresh_id: &str) -> (r: StorageResult<String>)
        requires
            old(self).wf(),
            entity@ is Object,
        ensures
            final(self).wf(),
            final(self).vectors() == old(self).vectors(),
            match r {
                Ok(id) => id@ == chosen_id(entity@, fresh_id@) && final(self).docs() == old(self).docs().insert(
                    key_of("entities"@, id@),
                    doc_set(entity@, "id"@, ValModel::Text(id@)),
                ),
                Err(_) => false,
            },
    {
        let id: String = match entity.get("id") {
            Some(v) => match v.as_text() {
                Some(t) => t.clone(),
                None => fresh_id.to_owned(),
            },
            None => fresh_id.to_owned(),
        };
        let stored = entity.with_field("id", Value::Text(id.clone()));
        match self.mem.set("entities", id.as_str(), stored) {
            Ok(_) => Ok(id),
            Err(e) => Err(e),
        }
    }

    /// Fetch several rooms by id; `None` when none of them is stored.
    #[verifier::loop_isolation(false)]
    pub fn get_rooms_by_ids(&self, room_ids: &Vec<String>) -> (r: StorageResult<
        Option<Vec<Value>>,
    >)
        requires
            self.wf(),
        ensures
            match r {
                Ok(o) => {
                    let sel = rooms_present(self.docs(), room_ids@);
                    match o {
                        Some(vs) => sel.len() > 0 && list_models(vs@) == sel,
                        None => sel.len() == 0,
                    }
                },
                Err(_) => false,
            },
    {
        let ghost all = rooms_present(self.docs(), room_ids@);
        let n = room_ids.len();
        let mut out: Vec<Value> = Vec::new();
        let mut i: usize = 0;
        proof {
            assert(room_ids@.skip(0) =~= room_ids@);
            assert(list_models(out@) + rooms_present(self.docs(), room_ids@.skip(0)) =~= all);
        }
        while i < n
            invariant
                0 <= i <= n,
                n == room_ids@.len(),
                all == list_models(out@) + rooms_present(self.docs(), room_ids@.skip(i as int)),
            decreases n - i,
        {
            let got = match self.mem.get("rooms", room_ids[i].as_str()) {
                Ok(o) => o,
                Err(e) => {
                    return Err(e);
                },
            };
            proof {
                assert(room_ids@.skip(i as int)[0] == room_ids@[i as int]);
                assert(room_ids@.skip(i as int).skip(1) =~= room_ids@.skip(i as int + 1));
            }
            match got {
                Some(v) => {
                    proof {
                        lemma_list_models_push(out@, v);
                        assert(list_models(out@).push(val_model(v)) + rooms_present(
                            self.docs(),
                            room_ids@.skip(i as int + 1),
                        ) =~= list_models(out@) + (seq![val_model(v)] + rooms_present(
                            self.docs(),
                            room_ids@.skip(i as int + 1),
                        )));
                    }
                    out.push(v);
                },
                None => {},
            }
            i = i + 1;
        }
        proof {
            assert(room_ids@.skip(n as int) =~= Seq::<String>::empty());
            assert(rooms_present(self.docs(), room_ids@.skip(n as int))
                =~= Seq::<ValModel>::empty());
            assert(list_models(out@) =~= all);
            lemma_list_models(out@);
        }
        if out.len() == 0 {
            Ok(None)
        } else {
            Ok(Some(out))
        }
    }

    /// Read a cache record, expiring it lazily: a record past its
    /// `expiresAt` is deleted on this read and reported absent; otherwise
    /// the record's `value` field is handed back.
    pub fn get_cache(&mut self, key: &str, now_ms: i64) -> (r: StorageResult<Option<Value>>)
        requires
            old(self).wf(),
        ensures
            final(self).wf(),
            final(self).vectors() == old(self).vectors(),
            ({
                let k = key_of("cache"@, key@);
                match r {
                    Ok(o) => if !old(self).docs().contains_key(k) {
                        o is None && final(self).docs() == old(self).docs()
                    } else if expired(old(self).docs()[k], now_ms as int) {
                        o is None && final(self).docs() == old(self).docs().remove(k)
                    } else {
                        final(self).docs() == old(self).docs() && (match o {
                            Some(v) => doc_get(old(self).docs()[k], "value"@) == Some(v@),
                            None => doc_get(old(self).docs()[k], "value"@) is None,
                        })
                    },
                    Err(_) => false,
                }
            }),
    {
        let cached = match self.mem.get("cache", key) {
            Ok(o) => o,
            Err(e) => {
                return Err(e);
            },
        };
        match cached {
            Some(c) => {
                let is_expired: bool = match c.get("expiresAt") {
                    Some(t) => match t.as_int() {
                        Some(exp) => now_ms > exp,
                        None => false,
                    },
                    None => false,
                };
                if is_expired {
                    match self.mem.delete("cache", key) {
                        Ok(_) => Ok(None),
                        Err(e) => Err(e),
                    }
                } else {
                    match c.get("value") {
                        Some(v) => Ok(Some(v.deep_clone())),
                        None => Ok(None),
                    }
                }
            },
            None => Ok(None),
        }
    }

    /// Store a cache record: the value is kept under a `value` envelope so
    /// any shape round-trips.
    pub fn set_cache(&mut self, key: &str, value: Value) -> (r: StorageResult<bool>)
        requires
            old(self).wf(),
        ensures
            final(self).wf(),
            final(self).vectors() == old(self).vectors(),
            match r {
                Ok(b) => b && final(self).docs() == old(self).docs().insert(
                    key_of("cache"@, key@),
                    ValModel::Object(seq![("value"@, value@)]),
                ),
                Err(_) => false,
            },
    {
        let ghost vm = value@;
        let mut fields: Vec<(String, Value)> = Vec::new();
        fields.push(("value".to_owned(), value));
        let envelope = Value::Object(fields);
        proof {
            crate::value::lemma_field_models(envelope->Object_0@);
            assert(crate::value::field_models(envelope->Object_0@) =~= seq![("value"@, vm)]);
        }
        match self.mem.set("cache", key, envelope) {
            Ok(_) => Ok(true),
            Err(e) => Err(e),
        }
    }

    /// Store a cache record that lapses: the envelope carries the value and
    /// an `expiresAt` stamp for lazy expiry on read.
    pub fn set_cache_with_expiry(&mut self, key: &str, value: Value, expires_at: i64) -> (r:
        StorageResult<bool>)
        requires
            old(self).wf(),
        ensures
            final(self).wf(),
            final(self).vectors() == old(self).vectors(),
            match r {
                Ok(b) => b && final(self).docs() == old(self).docs().insert(
                    key_of("cache"@, key@),
                    ValModel::Object(
                        seq![
                            ("value"@, value@),
                            ("expiresAt"@, ValModel::Int(expires_at as int)),
                        ],
                    ),
                ),
                Err(_) => false,
            },
    {
        let ghost vm = value@;
        let mut fields: Vec<(String, Value)> = Vec::new();
        fields.push(("value".to_owned(), value));
        fields.push(("expiresAt".to_owned(), Value::Int(expires_at)));
        let envelope = Value::Object(fields);
        proof {
            crate::value::lemma_field_models(envelope->Object_0@);
            assert(crate::value::field_models(envelope->Object_0@) =~= seq![
                ("value"@, vm),
                ("expiresAt"@, ValModel::Int(expires_at as int)),
            ]);
        }
        match self.mem.set("cache", key, envelope) {
            Ok(_) => Ok(true),
            Err(e) => Err(e),
        }
    }
}

/// The vector components a stored embedding list yields: its integer
/// entries of component size, in order; anything else is passed over.
pub open spec fn comps_of(ms: Seq<ValModel>) -> Seq<i32>
    decreases ms.len(),
{
    if ms.len() == 0 {
        Seq::empty()
    } else {
        (match ms[0] {
            ValModel::Int(i) => if i32::MIN <= i <= i32::MAX {
                seq![i as i32]
            } else {
                Seq::empty()
            },
            _ => Seq::empty(),
        }) + comps_of(ms.skip(1))
    }
}

/// Where a memory document carries its embedding: its own `embedding` list,
/// or its `content.embedding` list.
pub open spec fn embedding_list(m: ValModel) -> Option<Seq<ValModel>> {
    match doc_get(m, "embedding"@) {
        Some(ValModel::List(es)) => Some(es),
        _ => match doc_get(m, "content"@) {
            Some(c) => match doc_get(c, "embedding"@) {
                Some(ValModel::List(es)) => Some(es),
                _ => None,
            },
            None => None,
        },
    }
}

/// The vector components a memory document yields, possibly none.
pub open spec fn mem_comps(m: ValModel) -> Seq<i32> {
    match embedding_list(m) {
        Some(es) => comps_of(es),
        None => Seq::empty(),
    }
}

/// The document a memory creation stores: the given record with its id,
/// agent, uniqueness, creation stamp and table tag filled in.
pub open spec fn built_memory(
    m: ValModel,
    id: Seq<char>,
    agent: Seq<char>,
    unique: bool,
    table: Seq<char>,
    now: int,
) -> ValModel {
    let with_id = doc_set(m, "id"@, ValModel::Text(id));
    let agent_v = match doc_get(m, "agentId"@) {
        Some(a) => a,
        None => ValModel::Text(agent),
    };
    let with_agent = doc_set(with_id, "agentId"@, agent_v);
    let uniq = unique || doc_get(m, "unique"@) == Some(ValModel::Bool(true));
    let with_unique = doc_set(with_agent, "unique"@, ValModel::Bool(uniq));
    let created = match doc_get(m, "createdAt"@) {
        Some(c) => c,
        None => ValModel::Int(now),
    };
    let with_created = doc_set(with_unique, "createdAt"@, created);
    let md = match doc_get(m, "metadata"@) {
        Some(md) => md,
        None => ValModel::Object(Seq::empty()),
    };
    let md2 = doc_set(md, "type"@, ValModel::Text(table));
    doc_set(with_created, "metadata"@, md2)
}

/// The filter a similarity hit must pass before it is handed out.
pub open spec fn search_filter(
    m: ValModel,
    table: Seq<char>,
    ro: Option<&str>,
    wo: Option<&str>,
    eo: Option<&str>,
    uo: Option<bool>,
) -> bool {
    table_is(m, table) && opt_field(m, "roomId"@, ro) && opt_field(m, "worldId"@, wo) && opt_field(
        m,
        "entityId"@,
        eo,
    ) && (uo == Some(true) ==> doc_get(m, "unique"@) == Some(ValModel::Bool(true)))
}

/// The memories the similarity candidates pick out, in candidate order:
/// each stored document that passes the filter, with the candidate's
/// similarity written onto it.
pub open spec fn picked(
    cands: Seq<(Seq<char>, int)>,
    docs: Map<Seq<char>, ValModel>,
    table: Seq<char>,
    ro: Option<&str>,
    wo: Option<&str>,
    eo: Option<&str>,
    uo: Option<bool>,
) -> Seq<ValModel>
    decreases cands.len(),
{
    if cands.len() == 0 {
        Seq::empty()
    } else {
        (if docs.contains_key(key_of("memories"@, cands[0].0)) && search_filter(
            docs[key_of("memories"@, cands[0].0)],
            table,
            ro,
            wo,
            eo,
            uo,
        ) {
            seq![
                doc_set(
                    docs[key_of("memories"@, cands[0].0)],
                    "similarity"@,
                    ValModel::Int(cands[0].1),
                ),
            ]
        } else {
            Seq::empty()
        }) + picked(cands.skip(1), docs, table, ro, wo, eo, uo)
    }
}

/// At most the first `k` documents of a run.
pub open spec fn first_n(s: Seq<ValModel>, k: int) -> Seq<ValModel> {
    if s.len() <= k {
        s
    } else {
        s.subrange(0, k)
    }
}

impl IcpDatabaseAdapter {
    /// Scan the `memories` collection: the table rule plus the optional
    /// equality filters select the records; they come back sorted by
    /// `createdAt` descending (ties in scan order), with `offset` dropped
    /// from the front and at most `count` kept.
    #[verifier::loop_isolation(false)]
    pub fn get_memories(
        &self,
        entity_id: Option<&str>,
        agent_id: Option<&str>,
        room_id: Option<&str>,
        world_id: Option<&str>,
        table_name: &str,
        count: Option<usize>,
        offset: Option<usize>,
        _unique: Option<bool>,
    ) -> (r: StorageResult<Vec<Value>>)
        requires
            self.wf(),
        ensures
            match r {
                Ok(vs) => list_models(vs@) == page(
                    vals_of(
                        sort_desc_r(
                            by_created(
                                self.docs_in("memories"@).filter(
                                    |m: ValModel|
                                        mem_filter(
                                            m,
                                            table_name@,
                                            entity_id,
                                            agent_id,
                                            room_id,
                                            world_id,
                                        ),
                                ),
                            ),
                        ),
                    ),
                    offset,
                    count,
                ),
                Err(_) => false,
            },
            crate::table::lists_keys_once(self.mem_order(), self.docs().dom()),
    {
        let mut cond = Cond::TableIs(table_name.to_owned());
        proof {
            reveal_with_fuel(Cond::holds, 8);
            assert(forall|m: ValModel| #[trigger] cond.holds(m) == table_is(m, table_name@));
        }
        match world_id {
            Some(w) => {
                cond = Cond::Both(
                    Box::new(Cond::FieldIsText("worldId".to_owned(), w.to_owned())),
                    Box::new(cond),
                );
            },
            None => {},
        }
        proof {
            reveal_with_fuel(Cond::holds, 8);
            assert(forall|m: ValModel| #[trigger] cond.holds(m) == (opt_field(
                m,
                "worldId"@,
                world_id,
            ) && table_is(m, table_name@)));
        }
        match room_id {
            Some(x) => {
                cond = Cond::Both(
                    Box::new(Cond::FieldIsText("roomId".to_owned(), x.to_owned())),
                    Box::new(cond),
                );
            },
            None => {},
        }
        proof {
            reveal_with_fuel(Cond::holds, 8);
            assert(forall|m: ValModel| #[trigger] cond.holds(m) == (opt_field(
                m,
                "roomId"@,
                room_id,
            ) && opt_field(m, "worldId"@, world_id) && table_is(m, table_name@)));
        }
        match agent_id {
            Some(x) => {
                cond = Cond::Both(
                    Box::new(Cond::FieldIsText("agentId".to_owned(), x.to_owned())),
                    Box::new(cond),
                );
            },
            None => {},
        }
        proof {
            reveal_with_fuel(Cond::holds, 8);
            assert(forall|m: ValModel| #[trigger] cond.holds(m) == (opt_field(
                m,
                "agentId"@,
                agent_id,
            ) && opt_field(m, "roomId"@, room_id) && opt_field(m, "worldId"@, world_id)
                && table_is(m, table_name@)));
        }
        match entity_id {
            Some(x) => {
                cond = Cond::Both(
                    Box::new(Cond::FieldIsText("entityId".to_owned(), x.to_owned())),
                    Box::new(cond),
                );
            },
            None => {},
        }
        proof {
            reveal_with_fuel(Cond::holds, 8);
            assert(forall|m: ValModel| #[trigger] cond.holds(m) == mem_filter(
                m,
                table_name@,
                entity_id,
                agent_id,
                room_id,
                world_id,
            ));
        }
        let found = match self.mem.get_where("memories", &cond) {
            Ok(vs) => vs,
            Err(e) => {
                return Err(e);
            },
        };
        let ghost filtered = self.docs_in("memories"@).filter(
            |m: ValModel| mem_filter(m, table_name@, entity_id, agent_id, room_id, world_id),
        );
        proof {
            lemma_filter_congruent(
                self.docs_in("memories"@),
                |m: ValModel| cond.holds(m),
                |m: ValModel| mem_filter(m, table_name@, entity_id, agent_id, room_id, world_id),
            );
            lemma_list_models(found@);
        }
        let n = found.len();
        let mut ranked: Vec<(i64, Value)> = Vec::new();
        let mut i: usize = 0;
        while i < n
            invariant
                0 <= i <= n,
                n == found@.len(),
                ranked@.len() == i,
                forall|j: int|
                    0 <= j < i ==> rank_m(#[trigger] ranked@[j]) == (
                        created_at(list_models(found@)[j]),
                        list_models(found@)[j],
                    ),
            decreases n - i,
        {
            let c = found[i].deep_clone();
            let stamp = created_at_of(&found[i]);
            ranked.push((stamp, c));
            i = i + 1;
        }
        proof {
            assert forall|j: int| 0 <= j < n implies rank_models(ranked@)[j] == by_created(
                list_models(found@),
            )[j] by {
                assert(rank_models(ranked@)[j] == rank_m(ranked@[j]));
            }
            assert(rank_models(ranked@) =~= by_created(list_models(found@)));
        }
        let sorted = sort_ranked_desc(ranked);
        let ghost target = vals_of(sort_desc_r(by_created(filtered)));
        proof {
            assert forall|j: int| 0 <= j < sorted@.len() implies sorted@[j].1@ == target[j] by {
                assert(rank_models(sorted@)[j] == rank_m(sorted@[j]));
                assert(vals_of(rank_models(sorted@))[j] == rank_models(sorted@)[j].1);
            }
            assert(sorted@.len() == target.len()) by {
                assert(rank_models(sorted@).len() == sorted@.len());
            }
        }
        let o: usize = match offset {
            Some(o) => o,
            None => 0,
        };
        let total = sorted.len();
        let limit: usize = match count {
            Some(c) => c,
            None => total,
        };
        let mut out: Vec<Value> = Vec::new();
        let mut idx: usize = o;
        while idx < total && out.len() < limit
            invariant
                o <= idx <= total || (o > total && idx == o),
                total == sorted@.len(),
                out@.len() <= limit,
                idx <= total ==> out@.len() == idx - o,
                o > total ==> out@.len() == 0,
                forall|j: int|
                    0 <= j < out@.len() ==> val_model(#[trigger] out@[j]) == target[o + j],
            decreases total - idx,
        {
            let c = sorted[idx].1.deep_clone();
            out.push(c);
            idx = idx + 1;
        }
        proof {
            lemma_list_models(out@);
            let so: int = match offset {
                Some(o2) => o2 as int,
                None => 0,
            };
            assert(so == o as int);
            if so <= target.len() {
                let after = target.skip(so);
                assert forall|j: int| 0 <= j < out@.len() implies list_models(out@)[j]
                    == after[j] by {
                    assert(list_models(out@)[j] == val_model(out@[j]));
                }
                match count {
                    Some(c) => {
                        if after.len() <= c {
                            assert(out@.len() == after.len());
                            assert(list_models(out@) =~= after);
                        } else {
                            assert(out@.len() == c);
                            assert(list_models(out@) =~= after.subrange(0, c as int));
                        }
                    },
                    None => {
                        assert(out@.len() == after.len());
                        assert(list_models(out@) =~= after);
                    },
                }
            } else {
                assert(out@.len() == 0);
                assert(list_models(out@) =~= Seq::<ValModel>::empty());
            }
            assert(list_models(out@) =~= page(target, offset, count));
        }
        Ok(out)
    }

    /// Store a memory record in a table: the record is completed (id,
    /// agent, uniqueness, `createdAt`, `metadata.type`) and persisted, and
    /// when it carries an embedding of the index's dimension, that vector is
    /// indexed under the same id.  An embedding of another length is
    /// rejected after the document is stored.
    pub fn create_memory(
        &mut self,
        memory: Value,
        table_name: &str,
        unique: bool,
        now_ms: i64,
        fresh_id: &str,
    ) -> (r: StorageResult<String>)
        requires
            old(self).wf(),
            memory@ is Object,
            match doc_get(memory@, "metadata"@) {
                Some(md) => md is Object,
                None => true,
            },
        ensures
            final(self).wf(),
            final(self).agent() == old(self).agent(),
            final(self).dimension() == old(self).dimension(),
            ({
                let idm = chosen_id(memory@, fresh_id@);
                let built = built_memory(
                    memory@,
                    idm,
                    old(self).agent(),
                    unique,
                    table_name@,
                    now_ms as int,
                );
                let comps = mem_comps(memory@);
                &&& final(self).docs() == old(self).docs().insert(key_of("memories"@, idm), built)
                &&& match r {
                    Ok(id) => id@ == idm && (comps.len() == 0 ==> final(self).vectors() == old(self).vectors()) && (comps.len() > 0 ==> comps.len() == old(self).dimension()
                        && final(self).vectors() == old(self).vectors().insert(idm, comps)),
                    Err(e) => comps.len() > 0 && comps.len() != old(self).dimension() && e == (
                    StorageError::DimensionMismatch {
                        expected: old(self).dimension() as usize,
                        actual: comps.len() as usize,
                    }) && final(self).vectors() == old(self).vectors(),
                }
            }),
    {
        let id: String = match memory.get("id") {
            Some(v) => match v.as_text() {
                Some(t) => t.clone(),
                None => fresh_id.to_owned(),
            },
            None => fresh_id.to_owned(),
        };
        let agent_v: Value = match memory.get("agentId") {
            Some(a) => a.deep_clone(),
            None => Value::Text(self.agent_id.clone()),
        };
        let uniq_flag: bool = unique || (match memory.get("unique") {
            Some(u) => match u.as_bool() {
                Some(b) => b,
                None => false,
            },
            None => false,
        });
        let created_v: Value = match memory.get("createdAt") {
            Some(c) => c.deep_clone(),
            None => Value::Int(now_ms),
        };
        let md_v: Value = match memory.get("metadata") {
            Some(md) => md.deep_clone(),
            None => Value::Object(Vec::new()),
        };
        proof {
            crate::value::lemma_field_models(Seq::<(String, Value)>::empty());
            assert(crate::value::field_models(Seq::<(String, Value)>::empty())
                =~= Seq::<(Seq<char>, ValModel)>::empty());
        }
        let md2 = md_v.with_field("type", Value::Text(table_name.to_owned()));
        let stored = memory.deep_clone().with_field("id", Value::Text(id.clone())).with_field(
            "agentId",
            agent_v,
        ).with_field("unique", Value::Bool(uniq_flag)).with_field(
            "createdAt",
            created_v,
        ).with_field("metadata", md2);
        match self.mem.set("memories", id.as_str(), stored) {
            Ok(_) => {},
            Err(e) => {
                return Err(e);
            },
        }
        let comps = self.embedding_components(&memory);
        if comps.len() > 0 {
            match self.vec.add(id.as_str(), &comps) {
                Ok(_) => {},
                Err(e) => {
                    return Err(e);
                },
            }
        }
        Ok(id)
    }

    /// Pull the vector components out of a memory record's embedding.
    #[verifier::loop_isolation(false)]
    fn embedding_components(&self, memory: &Value) -> (r: Vec<i32>)
        ensures
            r@ == mem_comps(memory@),
    {
        let emb: Option<&Vec<Value>> = match memory.get("embedding") {
            Some(v) => v.as_list(),
            None => None,
        };
        let emb2: Option<&Vec<Value>> = match emb {
            Some(l) => Some(l),
            None => match memory.get("content") {
                Some(c) => match c.get("embedding") {
                    Some(v) => v.as_list(),
                    None => None,
                },
                None => None,
            },
        };
        let mut comps: Vec<i32> = Vec::new();
        match emb2 {
            Some(es) => {
                let ghost ems = crate::value::list_models(es@);
                proof {
                    lemma_list_models(es@);
                    assert(ems.skip(0) =~= ems);
                }
                let n = es.len();
                let mut i: usize = 0;
                while i < n
                    invariant
                        0 <= i <= n,
                        n == es@.len(),
                        ems.len() == n,
                        comps_of(ems) == comps@ + comps_of(ems.skip(i as int)),
                    decreases n - i,
                {
                    proof {
                        assert(ems.skip(i as int)[0] == ems[i as int]);
                        assert(ems.skip(i as int).skip(1) =~= ems.skip(i as int + 1));
                        assert(ems[i as int] == val_model(es@[i as int]));
                    }
                    match es[i].as_int() {
                        Some(v) => {
                            if v >= -0x8000_0000i64 && v <= 0x7fff_ffffi64 {
                                proof {
                                    assert(comps@.push(v as i32) + comps_of(
                                        ems.skip(i as int + 1),
                                    ) =~= comps@ + (seq![v as i32] + comps_of(
                                        ems.skip(i as int + 1),
                                    )));
                                }
                                comps.push(v as i32);
                            }
                        },
                        None => {},
                    }
                    i = i + 1;
                }
                proof {
                    assert(ems.skip(n as int) =~= Seq::<ValModel>::empty());
                    assert(comps_of(ems.skip(n as int)) =~= Seq::<i32>::empty());
                    assert(comps@ =~= comps_of(ems));
                }
            },
            None => {},
        }
        comps
    }

    /// Similarity search over memories: the index proposes twice the asked
    /// count of candidates above the threshold; each stored record passing
    /// the filters comes back with its similarity written on, at most
    /// `count` of them.
    #[verifier::loop_isolation(false)]
    pub fn search_memories(
        &self,
        table_name: &str,
        embedding: &Vec<i32>,
        match_threshold: Option<i64>,
        count: Option<usize>,
        room_id: Option<&str>,
        world_id: Option<&str>,
        entity_id: Option<&str>,
        unique: Option<bool>,
    ) -> (r: StorageResult<Vec<Value>>)
        requires
            self.wf(),
            match count {
                Some(c) => c <= usize::MAX / 2,
                None => true,
            },
        ensures
            ({
                let t: int = match match_threshold {
                    Some(t) => t as int,
                    None => 500_000,
                };
                let k: int = match count {
                    Some(c) => c as int,
                    None => 10,
                };
                match r {
                    Ok(vs) => embedding@.len() == self.dimension() && list_models(vs@) == first_n(
                        picked(
                            take_at_most(
                                crate::vector::sort_desc(
                                    crate::vector::hits_of(
                                        self.vec_order(),
                                        self.vectors(),
                                        embedding@,
                                        t,
                                    ),
                                ),
                                2 * k,
                            ),
                            self.docs(),
                            table_name@,
                            room_id,
                            world_id,
                            entity_id,
                            unique,
                        ),
                        k,
                    ) && crate::table::lists_keys_once(self.vec_order(), self.vectors().dom()),
                    Err(e) => embedding@.len() != self.dimension() && e == (
                    StorageError::DimensionMismatch {
                        expected: self.dimension() as usize,
                        actual: embedding.len(),
                    }),
                }
            }),
    {
        let t: i64 = match match_threshold {
            Some(t) => t,
            None => 500_000,
        };
        let k: usize = match count {
            Some(c) => c,
            None => 10,
        };
        let results = match self.vec.search(embedding, 2 * k, t) {
            Ok(rs) => rs,
            Err(e) => {
                return Err(e);
            },
        };
        let ghost cands = res_models(results@);
        let mut cond = Cond::TableIs(table_name.to_owned());
        proof {
            reveal_with_fuel(Cond::holds, 8);
            assert(forall|m: ValModel| #[trigger] cond.holds(m) == table_is(m, table_name@));
        }
        match unique {
            Some(true) => {
                cond = Cond::Both(
                    Box::new(Cond::FieldIsBool("unique".to_owned(), true)),
                    Box::new(cond),
                );
            },
            _ => {},
        }
        proof {
            reveal_with_fuel(Cond::holds, 8);
            assert(forall|m: ValModel| #[trigger] cond.holds(m) == ((unique == Some(true)
                ==> doc_get(m, "unique"@) == Some(ValModel::Bool(true))) && table_is(
                m,
                table_name@,
            )));
        }
        match entity_id {
            Some(x) => {
                cond = Cond::Both(
                    Box::new(Cond::FieldIsText("entityId".to_owned(), x.to_owned())),
                    Box::new(cond),
                );
            },
            None => {},
        }
        match world_id {
            Some(x) => {
                cond = Cond::Both(
                    Box::new(Cond::FieldIsText("worldId".to_owned(), x.to_owned())),
                    Box::new(cond),
                );
            },
            None => {},
        }
        match room_id {
            Some(x) => {
                cond = Cond::Both(
                    Box::new(Cond::FieldIsText("roomId".to_owned(), x.to_owned())),
                    Box::new(cond),
                );
            },
            None => {},
        }
        proof {
            reveal_with_fuel(Cond::holds, 8);
            assert(forall|m: ValModel| #[trigger] cond.holds(m) == search_filter(
                m,
                table_name@,
                room_id,
                world_id,
                entity_id,
                unique,
            ));
        }
        let n = results.len();
        let mut out: Vec<Value> = Vec::new();
        let mut i: usize = 0;
        proof {
            assert(cands.skip(0) =~= cands);
        }
        while i < n
            invariant
                0 <= i <= n,
                n == results@.len(),
                cands.len() == n,
                picked(cands, self.docs(), table_name@, room_id, world_id, entity_id, unique)
                    == list_models(out@) + picked(
                    cands.skip(i as int),
                    self.docs(),
                    table_name@,
                    room_id,
                    world_id,
                    entity_id,
                    unique,
                ),
            decreases n - i,
        {
            proof {
                assert(cands.skip(i as int)[0] == cands[i as int]);
                assert(cands.skip(i as int).skip(1) =~= cands.skip(i as int + 1));
                assert(cands[i as int] == crate::vector::res_m(results@[i as int]));
            }
            let got = match self.mem.get("memories", results[i].id.as_str()) {
                Ok(o) => o,
                Err(e) => {
                    return Err(e);
                },
            };
            match got {
                Some(mem) => {
                    if cond.eval(&mem) {
                        let tagged = mem.with_field("similarity", Value::Int(results[i].similarity));
                        proof {
                            lemma_list_models_push(out@, tagged);
                            assert(list_models(out@).push(val_model(tagged)) + picked(
                                cands.skip(i as int + 1),
                                self.docs(),
                                table_name@,
                                room_id,
                                world_id,
                                entity_id,
                                unique,
                            ) =~= list_models(out@) + (seq![val_model(tagged)] + picked(
                                cands.skip(i as int + 1),
                                self.docs(),
                                table_name@,
                                room_id,
                                world_id,
                                entity_id,
                                unique,
                            )));
                        }
                        out.push(tagged);
                    }
                },
                None => {},
            }
            i = i + 1;
        }
        proof {
            assert(cands.skip(n as int) =~= Seq::<(Seq<char>, int)>::empty());
            assert(picked(
                cands.skip(n as int),
                self.docs(),
                table_name@,
                room_id,
                world_id,
                entity_id,
                unique,
            ) =~= Seq::<ValModel>::empty());
            assert(list_models(out@) =~= picked(
                cands,
                self.docs(),
                table_name@,
                room_id,
                world_id,
                entity_id,
                unique,
            ));
            lemma_list_models(out@);
        }
        let ghost before_trunc = list_models(out@);
        out.truncate(k);
        proof {
            lemma_list_models(out@);
            assert forall|j: int| 0 <= j < out@.len() implies list_models(out@)[j]
                == before_trunc[j] by {
                assert(list_models(out@)[j] == val_model(out@[j]));
            }
            assert(list_models(out@) =~= first_n(before_trunc, k as int));
        }
        Ok(out)
    }

    /// Delete a memory record and its indexed vector, if any.
    pub fn delete_memory(&mut self, memory_id: &str) -> (r: StorageResult<()>)
        requires
            old(self).wf(),
        ensures
            final(self).wf(),
            r is Ok,
            final(self).docs() == old(self).docs().remove(key_of("memories"@, memory_id@)),
            final(self).vectors() == old(self).vectors().remove(memory_id@),
            final(self).agent() == old(self).agent(),
            final(self).dimension() == old(self).dimension(),
    {
        match self.mem.delete("memories", memory_id) {
            Ok(_) => {},
            Err(e) => {
                return Err(e);
            },
        }
        match self.vec.remove(memory_id) {
            Ok(_) => {},
            Err(e) => {
                return Err(e);
            },
        }
        Ok(())
    }

    /// Delete a room and cascade: every participant record referencing it
    /// and every memory record referencing it goes too.
    pub fn delete_room(&mut self, room_id: &str) -> (r: StorageResult<()>)
        requires
            old(self).wf(),
        ensures
            final(self).wf(),
            r is Ok,
            final(self).vectors() == old(self).vectors(),
            forall|k: Seq<char>|
                #![trigger final(self).docs().contains_key(k)]
                #![trigger old(self).docs().contains_key(k)]
                final(self).docs().contains_key(k) == (old(self).docs().contains_key(k) && k
                    != key_of("rooms"@, room_id@) && !(in_collection(k, "participants"@)
                    && field_text(old(self).docs()[k], "roomId"@, room_id@)) && !(in_collection(
                    k,
                    "memories"@,
                ) && field_text(old(self).docs()[k], "roomId"@, room_id@))),
            forall|k: Seq<char>|
                #![trigger final(self).docs().contains_key(k)]
                #![trigger old(self).docs().contains_key(k)]
                final(self).docs().contains_key(k) ==> final(self).docs()[k] == old(self).docs()[k],
    {
        match self.mem.delete("rooms", room_id) {
            Ok(_) => {},
            Err(e) => {
                return Err(e);
            },
        }
        let ghost docs1 = self.mem.docs();
        let cond = Cond::FieldIsText("roomId".to_owned(), room_id.to_owned());
        proof {
            assert(forall|m: ValModel| #[trigger] cond.holds(m) == field_text(
                m,
                "roomId"@,
                room_id@,
            ));
        }
        match self.mem.delete_where("participants", &cond) {
            Ok(_) => {},
            Err(e) => {
                return Err(e);
            },
        }
        let ghost docs2 = self.mem.docs();
        match self.mem.delete_where("memories", &cond) {
            Ok(_) => {},
            Err(e) => {
                return Err(e);
            },
        }
        proof {
            assert forall|k: Seq<char>|
                self.mem.docs().contains_key(k) == (old(self).docs().contains_key(k) && k
                    != key_of("rooms"@, room_id@) && !(in_collection(k, "participants"@)
                    && field_text(old(self).docs()[k], "roomId"@, room_id@)) && !(in_collection(
                    k,
                    "memories"@,
                ) && field_text(old(self).docs()[k], "roomId"@, room_id@))) by {
                if self.mem.docs().contains_key(k) {
                    assert(docs2.contains_key(k));
                    assert(docs1.contains_key(k));
                    assert(self.mem.docs()[k] == old(self).docs()[k]);
                }
                if old(self).docs().contains_key(k) && k != key_of("rooms"@, room_id@) && !(
                in_collection(k, "participants"@) && field_text(
                    old(self).docs()[k],
                    "roomId"@,
                    room_id@,
                )) && !(in_collection(k, "memories"@) && field_text(
                    old(self).docs()[k],
                    "roomId"@,
                    room_id@,
                )) {
                    assert(docs1.contains_key(k) && docs1[k] == old(self).docs()[k]);
                    assert(docs2.contains_key(k) && docs2[k] == old(self).docs()[k]);
                    assert(self.mem.docs().contains_key(k));
                }
            }
        }
        Ok(())
    }
}

/// Whether entry `i` of a collection scan is held under some key of that
/// collection.
pub open spec fn scan_member(a: IcpDatabaseAdapter, c: Seq<char>, i: int) -> bool {
    exists|k: Seq<char>|
        a.docs().contains_key(k) && in_collection(k, c) && #[trigger] a.docs()[k] == a.docs_in(
            c,
        )[i]
}

/// Every document of a collection scan is held under some key of that
/// collection.
pub proof fn lemma_adapter_docs_in_members(a: IcpDatabaseAdapter, c: Seq<char>)
    ensures
        forall|i: int| 0 <= i < a.docs_in(c).len() ==> #[trigger] scan_member(a, c, i),
{
    crate::store::lemma_docs_in_members(a.mem, c);
    assert forall|i: int| 0 <= i < a.docs_in(c).len() implies #[trigger] scan_member(
        a,
        c,
        i,
    ) by {
        assert(a.mem.docs_in(c)[i] == a.docs_in(c)[i]);
        let k = choose|k: Seq<char>|
            a.mem.docs().contains_key(k) && in_collection(k, c) && a.mem.docs()[k]
                == a.mem.docs_in(c)[i];
        assert(a.docs().contains_key(k) && in_collection(k, c) && a.docs()[k] == a.docs_in(c)[i]);
    }
}

/// A collection scan through the adapter holds exactly one document per
/// held key of the collection — sound, free of duplicate keys, and
/// complete — whenever the store's walk lists the held keys exactly once,
/// which the scan operations ensure.
pub proof fn lemma_adapter_docs_in_exact(a: IcpDatabaseAdapter, c: Seq<char>)
    requires
        crate::table::lists_keys_once(a.mem_order(), a.docs().dom()),
    ensures
        a.docs_in(c).len() == crate::store::sel_keys(a.mem_order(), a.docs(), c).len(),
        forall|i: int|
            0 <= i < a.docs_in(c).len() ==> a.docs().contains_key(
                #[trigger] crate::store::sel_keys(a.mem_order(), a.docs(), c)[i],
            ) && in_collection(crate::store::sel_keys(a.mem_order(), a.docs(), c)[i], c)
                && a.docs_in(c)[i] == a.docs()[crate::store::sel_keys(a.mem_order(), a.docs(), c)[i]],
        forall|i: int, j: int|
            0 <= i < j < a.docs_in(c).len() ==> crate::store::sel_keys(
                a.mem_order(),
                a.docs(),
                c,
            )[i] != crate::store::sel_keys(a.mem_order(), a.docs(), c)[j],
        forall|k: Seq<char>|
            #[trigger] a.docs().contains_key(k) && in_collection(k, c) ==> crate::store::sel_keys(
                a.mem_order(),
                a.docs(),
                c,
            ).contains(k),
{
    crate::store::lemma_docs_in_exact(a.mem, c);
}

/// Build and initialize an adapter bound to the given agent id.
pub fn create_database_adapter(agent_id: &str) -> (r: IcpDatabaseAdapter)
    ensures
        r.wf(),
        r.is_ready_spec(),
        r.docs() == crate::store::no_docs(),
        r.vectors() == crate::vector::no_vectors(),
        r.agent() == agent_id@,
        r.dimension() == 384,
{
    let mut adapter = IcpDatabaseAdapter::new(agent_id.to_owned());
    let _ = adapter.init();
    adapter
}

} // verus!

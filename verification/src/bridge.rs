//! A thin facade over the database adapter, matching the runtime's calling
//! shape: a readiness latch of its own, and the common operations forwarded
//! one for one.

use vstd::prelude::*;

use crate::adapter::{built_memory, by_created, chosen_id, field_text, first_n, mem_comps,
    mem_filter, merged, page, picked, vals_of, IcpDatabaseAdapter};
use crate::store::in_collection;
use crate::errors::{StorageError, StorageResult};
use crate::key_of;
use crate::value::{doc_get, doc_set, ValModel, Value};

verus! {

/// The adapter as the runtime sees it.
pub struct IcpElizaAdapter {
    inner: IcpDatabaseAdapter,
    ready: bool,
}

impl IcpElizaAdapter {
    /// The adapter behind the facade.
    pub closed spec fn model(self) -> IcpDatabaseAdapter {
        self.inner
    }

    /// Whether `init` has run and `close` has not.
    pub closed spec fn is_ready_spec(self) -> bool {
        self.ready
    }

    /// Internal consistency.
    pub closed spec fn wf(self) -> bool {
        self.inner.wf()
    }

    /// A fresh facade over a fresh adapter, not yet ready.
    pub fn new(agent_id: String) -> (r: IcpElizaAdapter)
        ensures
            r.wf(),
            !r.is_ready_spec(),
            r.model().docs() == crate::store::no_docs(),
            r.model().agent() == agent_id@,
    {
        IcpElizaAdapter { inner: IcpDatabaseAdapter::new(agent_id), ready: false }
    }

    /// Initialize the adapter and latch readiness.
    pub fn init(&mut self) -> (r: StorageResult<()>)
        requires
            old(self).wf(),
        ensures
            final(self).wf(),
            r is Ok,
            final(self).is_ready_spec(),
            final(self).model().docs() == old(self).model().docs(),
    {
        match self.inner.init() {
            Ok(_) => {},
            Err(e) => {
                return Err(e);
            },
        }
        self.ready = true;
        Ok(())
    }

    /// Close the adapter and drop readiness; durable documents and vector
    /// records are kept.
    pub fn close(&mut self) -> (r: StorageResult<()>)
        requires
            old(self).wf(),
        ensures
            final(self).wf(),
            r is Ok,
            !final(self).is_ready_spec(),
            final(self).model().docs() == old(self).model().docs(),
            final(self).model().vectors() == old(self).model().vectors(),
    {
        match self.inner.close() {
            Ok(_) => {},
            Err(e) => {
                return Err(e);
            },
        }
        self.ready = false;
        Ok(())
    }

    /// Whether the facade is ready.
    pub fn is_ready(&self) -> (r: bool)
        ensures
            r == self.is_ready_spec(),
    {
        self.ready
    }

    /// Exact agent lookup.
    pub fn get_agent(&self, agent_id: &str) -> (r: StorageResult<Option<Value>>)
        requires
            self.wf(),
        ensures
            match r {
                Ok(o) => match o {
                    Some(v) => self.model().docs().contains_key(key_of("agents"@, agent_id@)) && v@
                        == self.model().docs()[key_of("agents"@, agent_id@)],
                    None => !self.model().docs().contains_key(key_of("agents"@, agent_id@)),
                },
                Err(_) => false,
            },
    {
        self.inner.get_agent(agent_id)
    }

    /// Store an agent under its own id field.
    pub fn create_agent(&mut self, agent: Value) -> (r: StorageResult<bool>)
        requires
            old(self).wf(),
        ensures
            final(self).wf(),
            match doc_get(agent@, "id"@) {
                Some(ValModel::Text(id)) => r == Ok::<bool, StorageError>(true)
                    && final(self).model().docs() == old(self).model().docs().insert(
                    key_of("agents"@, id),
                    agent@,
                ),
                _ => r == Ok::<bool, StorageError>(false)
                    && final(self).model().docs() == old(self).model().docs(),
            },
    {
        self.inner.create_agent(agent)
    }

    /// Shallow-merge a patch over a stored agent.
    pub fn update_agent(&mut self, agent_id: &str, agent: Value) -> (r: StorageResult<bool>)
        requires
            old(self).wf(),
        ensures
            final(self).wf(),
            match r {
                Ok(b) => if old(self).model().docs().contains_key(key_of("agents"@, agent_id@)) {
                    b && final(self).model().docs() == old(self).model().docs().insert(
                        key_of("agents"@, agent_id@),
                        merged(old(self).model().docs()[key_of("agents"@, agent_id@)], agent@),
                    )
                } else {
                    !b && final(self).model().docs() == old(self).model().docs()
                },
                Err(_) => false,
            },
    {
        self.inner.update_agent(agent_id, agent)
    }

    /// Delete an agent; tells whether one was stored.
    pub fn delete_agent(&mut self, agent_id: &str) -> (r: StorageResult<bool>)
        requires
            old(self).wf(),
        ensures
            final(self).wf(),
            match r {
                Ok(b) => b == old(self).model().docs().contains_key(key_of("agents"@, agent_id@))
                    && final(self).model().docs() == old(self).model().docs().remove(
                    key_of("agents"@, agent_id@),
                ),
                Err(_) => false,
            },
    {
        self.inner.delete_agent(agent_id)
    }

    /// Exact memory lookup.
    pub fn get_memory_by_id(&self, id: &str) -> (r: StorageResult<Option<Value>>)
        requires
            self.wf(),
        ensures
            match r {
                Ok(o) => match o {
                    Some(v) => self.model().docs().contains_key(key_of("memories"@, id@)) && v@
                        == self.model().docs()[key_of("memories"@, id@)],
                    None => !self.model().docs().contains_key(key_of("memories"@, id@)),
                },
                Err(_) => false,
            },
    {
        self.inner.get_memory_by_id(id)
    }

    /// Delete a memory record and its indexed vector.
    pub fn delete_memory(&mut self, memory_id: &str) -> (r: StorageResult<()>)
        requires
            old(self).wf(),
        ensures
            final(self).wf(),
            r is Ok,
            final(self).model().docs() == old(self).model().docs().remove(
                key_of("memories"@, memory_id@),
            ),
            final(self).model().vectors() == old(self).model().vectors().remove(memory_id@),
    {
        self.inner.delete_memory(memory_id)
    }

    /// Store a room, giving it the caller's fresh id when it carries none.
    pub fn create_room(&mut self, room: Value, fresh_id: &str) -> (r: StorageResult<String>)
        requires
            old(self).wf(),
            room@ is Object,
        ensures
            final(self).wf(),
            match r {
                Ok(id) => id@ == chosen_id(room@, fresh_id@) && final(self).model().docs() == old(
                    self,
                ).model().docs().insert(
                    key_of("rooms"@, id@),
                    doc_set(room@, "id"@, ValModel::Text(id@)),
                ),
                Err(_) => false,
            },
    {
        self.inner.create_room(room, fresh_id)
    }

    /// Exact room lookup.
    pub fn get_room(&self, id: &str) -> (r: StorageResult<Option<Value>>)
        requires
            self.wf(),
        ensures
            match r {
                Ok(o) => match o {
                    Some(v) => self.model().docs().contains_key(key_of("rooms"@, id@)) && v@
                        == self.model().docs()[key_of("rooms"@, id@)],
                    None => !self.model().docs().contains_key(key_of("rooms"@, id@)),
                },
                Err(_) => false,
            },
    {
        self.inner.get_room(id)
    }

    /// Delete a room and cascade: the room's document goes, and so does
    /// every participant record and every memory record referencing it;
    /// everything else, the vector index included, is kept.
    pub fn delete_room(&mut self, room_id: &str) -> (r: StorageResult<()>)
        requires
            old(self).wf(),
        ensures
            final(self).wf(),
            r is Ok,
            final(self).model().vectors() == old(self).model().vectors(),
            forall|k: Seq<char>|
                #![trigger final(self).model().docs().contains_key(k)]
                #![trigger old(self).model().docs().contains_key(k)]
                final(self).model().docs().contains_key(k) == (old(self).model(
                ).docs().contains_key(k) && k != key_of("rooms"@, room_id@) && !(
                in_collection(k, "participants"@) && field_text(
                    old(self).model().docs()[k],
                    "roomId"@,
                    room_id@,
                )) && !(in_collection(k, "memories"@) && field_text(
                    old(self).model().docs()[k],
                    "roomId"@,
                    room_id@,
                ))),
            forall|k: Seq<char>|
                #[trigger] final(self).model().docs().contains_key(k)
                    ==> final(self).model().docs()[k] == old(self).model().docs()[k],
    {
        self.inner.delete_room(room_id)
    }

    /// Store an entity, giving it the caller's fresh id when it carries
    /// none.
    pub fn create_entity(&mut self, entity: Value, fresh_id: &str) -> (r: StorageResult<String>)
        requires
            old(self).wf(),
            entity@ is Object,
        ensures
            final(self).wf(),
            match r {
                Ok(id) => id@ == chosen_id(entity@, fresh_id@) && final(self).model().docs()
                    == old(self).model().docs().insert(
                    key_of("entities"@, id@),
                    doc_set(entity@, "id"@, ValModel::Text(id@)),
                ),
                Err(_) => false,
            },
    {
        self.inner.create_entity(entity, fresh_id)
    }

    /// Exact entity lookup.
    pub fn get_entity(&self, id: &str) -> (r: StorageResult<Option<Value>>)
        requires
            self.wf(),
        ensures
            match r {
                Ok(o) => match o {
                    Some(v) => self.model().docs().contains_key(key_of("entities"@, id@)) && v@
                        == self.model().docs()[key_of("entities"@, id@)],
                    None => !self.model().docs().contains_key(key_of("entities"@, id@)),
                },
                Err(_) => false,
            },
    {
        self.inner.get_entity(id)
    }

    /// Store a cache record under a `value` envelope.
    pub fn set_cache(&mut self, key: &str, value: Value) -> (r: StorageResult<bool>)
        requires
            old(self).wf(),
        ensures
            final(self).wf(),
            match r {
                Ok(b) => b && final(self).model().docs() == old(self).model().docs().insert(
                    key_of("cache"@, key@),
                    ValModel::Object(seq![("value"@, value@)]),
                ),
                Err(_) => false,
            },
    {
        self.inner.set_cache(key, value)
    }

    /// Read a cache record, expiring it lazily.
    pub fn get_cache(&mut self, key: &str, now_ms: i64) -> (r: StorageResult<Option<Value>>)
        requires
            old(self).wf(),
        ensures
            final(self).wf(),
            ({
                let k = key_of("cache"@, key@);
                match r {
                    Ok(o) => if !old(self).model().docs().contains_key(k) {
                        o is None && final(self).model().docs() == old(self).model().docs()
                    } else if crate::adapter::expired(old(self).model().docs()[k], now_ms as int) {
                        o is None && final(self).model().docs() == old(self).model().docs().remove(
                            k,
                        )
                    } else {
                        final(self).model().docs() == old(self).model().docs() && (match o {
                            Some(v) => doc_get(old(self).model().docs()[k], "value"@) == Some(v@),
                            None => doc_get(old(self).model().docs()[k], "value"@) is None,
                        })
                    },
                    Err(_) => false,
                }
            }),
    {
        self.inner.get_cache(key, now_ms)
    }

    /// Delete a cache record; tells whether one was stored.
    pub fn delete_cache(&mut self, key: &str) -> (r: StorageResult<bool>)
        requires
            old(self).wf(),
        ensures
            final(self).wf(),
            match r {
                Ok(b) => b == old(self).model().docs().contains_key(key_of("cache"@, key@))
                    && final(self).model().docs() == old(self).model().docs().remove(
                    key_of("cache"@, key@),
                ),
                Err(_) => false,
            },
    {
        self.inner.delete_cache(key)
    }


    /// Scan the `memories` collection with the adapter's filters, paging
    /// and `createdAt` ordering; this facade never filters on uniqueness.
    pub fn get_memories(
        &self,
        entity_id: Option<&str>,
        agent_id: Option<&str>,
        room_id: Option<&str>,
        world_id: Option<&str>,
        table_name: &str,
        count: Option<usize>,
        offset: Option<usize>,
    ) -> (r: StorageResult<Vec<Value>>)
        requires
            self.wf(),
        ensures
            match r {
                Ok(vs) => crate::value::list_models(vs@) == page(
                    vals_of(
                        crate::sort::sort_desc_r(
                            by_created(
                                self.model().docs_in("memories"@).filter(
                                    |m: ValModel|
                                        mem_filter(
                                            m,
                                            table_name@,
                                            entity_id,
                                            agent_id,
                                            room_id,
                                            world_id,
                                        ),
                                ),
                            ),
                        ),
                    ),
                    offset,
                    count,
                ),
                Err(_) => false,
            },
            crate::table::lists_keys_once(self.model().mem_order(), self.model().docs().dom()),
    {
        self.inner.get_memories(
            entity_id,
            agent_id,
            room_id,
            world_id,
            table_name,
            count,
            offset,
            None,
        )
    }

    /// Similarity search over memories, filtered to a room at most.
    pub fn search_memories(
        &self,
        table_name: &str,
        embedding: &Vec<i32>,
        threshold: Option<i64>,
        count: Option<usize>,
        room_id: Option<&str>,
    ) -> (r: StorageResult<Vec<Value>>)
        requires
            self.wf(),
            match count {
                Some(c) => c <= usize::MAX / 2,
                None => true,
            },
        ensures
            ({
                let t: int = match threshold {
                    Some(t) => t as int,
                    None => 500_000,
                };
                let k: int = match count {
                    Some(c) => c as int,
                    None => 10,
                };
                match r {
                    Ok(vs) => embedding@.len() == self.model().dimension()
                        && crate::value::list_models(vs@) == first_n(
                        picked(
                            crate::vector::take_at_most(
                                crate::vector::sort_desc(
                                    crate::vector::hits_of(
                                        self.model().vec_order(),
                                        self.model().vectors(),
                                        embedding@,
                                        t,
                                    ),
                                ),
                                2 * k,
                            ),
                            self.model().docs(),
                            table_name@,
                            room_id,
                            None,
                            None,
                            None,
                        ),
                        k,
                    ) && crate::table::lists_keys_once(
                        self.model().vec_order(),
                        self.model().vectors().dom(),
                    ),
                    Err(e) => embedding@.len() != self.model().dimension() && e == (
                    StorageError::DimensionMismatch {
                        expected: self.model().dimension() as usize,
                        actual: embedding.len(),
                    }),
                }
            }),
    {
        self.inner.search_memories(
            table_name,
            embedding,
            threshold,
            count,
            room_id,
            None,
            None,
            None,
        )
    }

    /// Store a memory record in a table, indexing its embedding when it
    /// carries one of the configured dimension.
    pub fn create_memory(
        &mut self,
        memory: Value,
        table_name: &str,
        unique: bool,
        now_ms: i64,
        fresh_id: &str,
    ) -> (r: StorageResult<String>)
        requires
            old(self).wf(),
            memory@ is Object,
            match doc_get(memory@, "metadata"@) {
                Some(md) => md is Object,
                None => true,
            },
        ensures
            final(self).wf(),
            ({
                let idm = chosen_id(memory@, fresh_id@);
                let built = built_memory(
                    memory@,
                    idm,
                    old(self).model().agent(),
                    unique,
                    table_name@,
                    now_ms as int,
                );
                let comps = mem_comps(memory@);
                &&& final(self).model().docs() == old(self).model().docs().insert(
                    key_of("memories"@, idm),
                    built,
                )
                &&& match r {
                    Ok(id) => id@ == idm && (comps.len() == 0 ==> final(self).model().vectors()
                        == old(self).model().vectors()) && (comps.len() > 0 ==> comps.len() == old(
                        self,
                    ).model().dimension() && final(self).model().vectors() == old(
                        self,
                    ).model().vectors().insert(idm, comps)),
                    Err(e) => comps.len() > 0 && comps.len() != old(self).model().dimension()
                        && e == (StorageError::DimensionMismatch {
                        expected: old(self).model().dimension() as usize,
                        actual: comps.len() as usize,
                    }) && final(self).model().vectors() == old(self).model().vectors(),
                }
            }),
    {
        self.inner.create_memory(memory, table_name, unique, now_ms, fresh_id)
    }

    /// How many documents the `memories` collection holds.
    pub fn memory_count(&self) -> (r: u64)
        requires
            self.wf(),
        ensures
            r as int == self.model().docs_in("memories"@).len(),
    {
        self.inner.memory_count()
    }
}

} // verus!

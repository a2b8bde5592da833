//! The collection store: a durable key/value map of documents, partitioned
//! by collection.
//!
//! A document lives under the key `"<collection>:<id>"`.  The store's model
//! is a map from keys to document models ([`IcpMemoryStorage::docs`]) kept in
//! step with the bytes on disk: every stored byte string is the encoding of
//! the document the model holds ([`IcpMemoryStorage::wf`]).  Scans hand
//! documents out in the table's walk order ([`IcpMemoryStorage::docs_in`]).

use vstd::prelude::*;

use crate::codec::{decode, enc_val, encode, lemma_codec_round_trip, wf_model};
use crate::errors::{StorageError, StorageResult};
use crate::key_of;
use crate::make_key;
use crate::table::{lists_keys_once, table_entries, table_entry_order, DocTable};
use crate::value::{doc_get, lemma_list_models, lemma_list_models_push, list_models, val_model,
    ValModel, Value};

verus! {

/// Whether storage key `k` lies in collection `c`, that is, starts with
/// `"<c>:"`.
pub open spec fn in_collection(k: Seq<char>, c: Seq<char>) -> bool {
    k.len() > c.len() && k.subrange(0, c.len() as int + 1) == c + seq![':']
}

/// The models of the documents under the given keys that lie in collection
/// `c`, in key order.
pub open spec fn sel_docs(
    ks: Seq<Seq<char>>,
    docs: Map<Seq<char>, ValModel>,
    c: Seq<char>,
) -> Seq<ValModel>
    decreases ks.len(),
{
    if ks.len() == 0 {
        Seq::empty()
    } else {
        (if docs.contains_key(ks[0]) && in_collection(ks[0], c) {
            seq![docs[ks[0]]]
        } else {
            Seq::empty()
        }) + sel_docs(ks.skip(1), docs, c)
    }
}

/// Selecting from one more key appends that key's document, when it lies in
/// the collection.
pub proof fn lemma_sel_docs_snoc(
    ks: Seq<Seq<char>>,
    docs: Map<Seq<char>, ValModel>,
    c: Seq<char>,
    k: Seq<char>,
)
    ensures
        sel_docs(ks.push(k), docs, c) == sel_docs(ks, docs, c) + (if docs.contains_key(k)
            && in_collection(k, c) {
            seq![docs[k]]
        } else {
            Seq::<ValModel>::empty()
        }),
    decreases ks.len(),
{
    let tail: Seq<ValModel> = if docs.contains_key(k) && in_collection(k, c) {
        seq![docs[k]]
    } else {
        Seq::empty()
    };
    if ks.len() == 0 {
        assert(ks.push(k)[0] == k);
        assert(ks.push(k).skip(1) =~= Seq::<Seq<char>>::empty());
        assert(sel_docs(ks.push(k).skip(1), docs, c) =~= Seq::<ValModel>::empty());
        assert(sel_docs(ks.push(k), docs, c) =~= sel_docs(ks, docs, c) + tail);
    } else {
        lemma_sel_docs_snoc(ks.skip(1), docs, c, k);
        assert(ks.push(k).skip(1) =~= ks.skip(1).push(k));
        assert(sel_docs(ks.push(k), docs, c) =~= sel_docs(ks, docs, c) + tail);
    }
}

/// Every selected document is held under some key of the collection.
pub proof fn lemma_sel_docs_members(
    ks: Seq<Seq<char>>,
    docs: Map<Seq<char>, ValModel>,
    c: Seq<char>,
)
    ensures
        forall|i: int|
            0 <= i < sel_docs(ks, docs, c).len() ==> exists|k: Seq<char>|
                docs.contains_key(k) && in_collection(k, c) && docs[k] == #[trigger] sel_docs(
                    ks,
                    docs,
                    c,
                )[i],
    decreases ks.len(),
{
    if ks.len() > 0 {
        lemma_sel_docs_members(ks.skip(1), docs, c);
        assert forall|i: int| 0 <= i < sel_docs(ks, docs, c).len() implies exists|k: Seq<char>|
            docs.contains_key(k) && in_collection(k, c) && docs[k] == #[trigger] sel_docs(
                ks,
                docs,
                c,
            )[i] by {
            let head: Seq<ValModel> = if docs.contains_key(ks[0]) && in_collection(ks[0], c) {
                seq![docs[ks[0]]]
            } else {
                Seq::empty()
            };
            if i >= head.len() {
                assert(sel_docs(ks, docs, c)[i] == sel_docs(ks.skip(1), docs, c)[i - head.len()]);
            } else {
                assert(docs.contains_key(ks[0]) && in_collection(ks[0], c) && docs[ks[0]]
                    == sel_docs(ks, docs, c)[i]);
            }
        }
    }
}

/// Every document of a collection scan is held under some key of that
/// collection.
pub proof fn lemma_docs_in_members(s: IcpMemoryStorage, c: Seq<char>)
    ensures
        forall|i: int|
            0 <= i < s.docs_in(c).len() ==> exists|k: Seq<char>|
                s.docs().contains_key(k) && in_collection(k, c) && s.docs()[k]
                    == #[trigger] s.docs_in(c)[i],
{
    lemma_sel_docs_members(s.key_order(), s.docs(), c);
}

/// The keys a scan of collection `c` selects: the held keys of the
/// collection, in walk order.
pub open spec fn sel_keys(
    ks: Seq<Seq<char>>,
    docs: Map<Seq<char>, ValModel>,
    c: Seq<char>,
) -> Seq<Seq<char>>
    decreases ks.len(),
{
    if ks.len() == 0 {
        Seq::empty()
    } else {
        (if docs.contains_key(ks[0]) && in_collection(ks[0], c) {
            seq![ks[0]]
        } else {
            Seq::empty()
        }) + sel_keys(ks.skip(1), docs, c)
    }
}

/// A scan yields exactly the documents under its selected keys, in order.
pub proof fn lemma_sel_docs_by_keys(
    ks: Seq<Seq<char>>,
    docs: Map<Seq<char>, ValModel>,
    c: Seq<char>,
)
    ensures
        sel_docs(ks, docs, c).len() == sel_keys(ks, docs, c).len(),
        forall|i: int|
            0 <= i < sel_keys(ks, docs, c).len() ==> docs.contains_key(
                #[trigger] sel_keys(ks, docs, c)[i],
            ) && in_collection(sel_keys(ks, docs, c)[i], c) && sel_docs(ks, docs, c)[i] == docs[
                sel_keys(ks, docs, c)[i]
            ],
    decreases ks.len(),
{
    if ks.len() > 0 {
        lemma_sel_docs_by_keys(ks.skip(1), docs, c);
        assert forall|i: int| 0 <= i < sel_keys(ks, docs, c).len() implies docs.contains_key(
            #[trigger] sel_keys(ks, docs, c)[i],
        ) && in_collection(sel_keys(ks, docs, c)[i], c) && sel_docs(ks, docs, c)[i] == docs[
            sel_keys(ks, docs, c)[i]
        ] by {
            if docs.contains_key(ks[0]) && in_collection(ks[0], c) {
                if i > 0 {
                    assert(sel_keys(ks, docs, c)[i] == sel_keys(ks.skip(1), docs, c)[i - 1]);
                    assert(sel_docs(ks, docs, c)[i] == sel_docs(ks.skip(1), docs, c)[i - 1]);
                }
            } else {
                assert(sel_keys(ks, docs, c)[i] == sel_keys(ks.skip(1), docs, c)[i]);
                assert(sel_docs(ks, docs, c)[i] == sel_docs(ks.skip(1), docs, c)[i]);
            }
        }
    }
}

/// Every selected key is one of the walked keys.
pub proof fn lemma_sel_keys_member(
    ks: Seq<Seq<char>>,
    docs: Map<Seq<char>, ValModel>,
    c: Seq<char>,
    i: int,
)
    requires
        0 <= i < sel_keys(ks, docs, c).len(),
    ensures
        ks.contains(sel_keys(ks, docs, c)[i]),
    decreases ks.len(),
{
    if ks.len() > 0 {
        let head: Seq<Seq<char>> = if docs.contains_key(ks[0]) && in_collection(ks[0], c) {
            seq![ks[0]]
        } else {
            Seq::empty()
        };
        if i < head.len() {
            assert(sel_keys(ks, docs, c)[i] == ks[0]);
        } else {
            lemma_sel_keys_member(ks.skip(1), docs, c, i - head.len());
            assert(sel_keys(ks, docs, c)[i] == sel_keys(ks.skip(1), docs, c)[i - head.len()]);
            let j = choose|j: int|
                0 <= j < ks.skip(1).len() && ks.skip(1)[j] == sel_keys(ks, docs, c)[i];
            assert(ks[j + 1] == sel_keys(ks, docs, c)[i]);
        }
    }
}

/// A walk without repeated keys selects each key at most once.
pub proof fn lemma_sel_keys_distinct(
    ks: Seq<Seq<char>>,
    docs: Map<Seq<char>, ValModel>,
    c: Seq<char>,
)
    requires
        forall|i: int, j: int| 0 <= i < j < ks.len() ==> ks[i] != ks[j],
    ensures
        forall|i: int, j: int|
            0 <= i < j < sel_keys(ks, docs, c).len() ==> sel_keys(ks, docs, c)[i] != sel_keys(
                ks,
                docs,
                c,
            )[j],
    decreases ks.len(),
{
    if ks.len() > 0 {
        assert forall|i: int, j: int| 0 <= i < j < ks.skip(1).len() implies ks.skip(1)[i]
            != ks.skip(1)[j] by {
            assert(ks.skip(1)[i] == ks[i + 1] && ks.skip(1)[j] == ks[j + 1]);
        }
        lemma_sel_keys_distinct(ks.skip(1), docs, c);
        assert forall|i: int, j: int|
            0 <= i < j < sel_keys(ks, docs, c).len() implies sel_keys(ks, docs, c)[i] != sel_keys(
            ks,
            docs,
            c,
        )[j] by {
            if docs.contains_key(ks[0]) && in_collection(ks[0], c) {
                assert(sel_keys(ks, docs, c)[0] == ks[0]);
                if i == 0 {
                    assert(sel_keys(ks, docs, c)[j] == sel_keys(ks.skip(1), docs, c)[j - 1]);
                    lemma_sel_keys_member(ks.skip(1), docs, c, j - 1);
                    let l = choose|l: int|
                        0 <= l < ks.skip(1).len() && ks.skip(1)[l] == sel_keys(
                            ks.skip(1),
                            docs,
                            c,
                        )[j - 1];
                    assert(ks[l + 1] == sel_keys(ks, docs, c)[j]);
                } else {
                    assert(sel_keys(ks, docs, c)[i] == sel_keys(ks.skip(1), docs, c)[i - 1]);
                    assert(sel_keys(ks, docs, c)[j] == sel_keys(ks.skip(1), docs, c)[j - 1]);
                }
            } else {
                assert(sel_keys(ks, docs, c)[i] == sel_keys(ks.skip(1), docs, c)[i]);
                assert(sel_keys(ks, docs, c)[j] == sel_keys(ks.skip(1), docs, c)[j]);
            }
        }
    }
}

/// Every held key of the collection that the walk reaches is selected.
pub proof fn lemma_sel_keys_complete(
    ks: Seq<Seq<char>>,
    docs: Map<Seq<char>, ValModel>,
    c: Seq<char>,
    k: Seq<char>,
)
    requires
        ks.contains(k),
        docs.contains_key(k),
        in_collection(k, c),
    ensures
        sel_keys(ks, docs, c).contains(k),
    decreases ks.len(),
{
    if ks.len() > 0 {
        if ks[0] == k {
            assert(sel_keys(ks, docs, c)[0] == k);
        } else {
            let idx = choose|idx: int| 0 <= idx < ks.len() && ks[idx] == k;
            assert(ks.skip(1)[idx - 1] == k);
            lemma_sel_keys_complete(ks.skip(1), docs, c, k);
            let j = choose|j: int|
                0 <= j < sel_keys(ks.skip(1), docs, c).len() && sel_keys(ks.skip(1), docs, c)[j]
                    == k;
            let head: Seq<Seq<char>> = if docs.contains_key(ks[0]) && in_collection(ks[0], c) {
                seq![ks[0]]
            } else {
                Seq::empty()
            };
            assert(sel_keys(ks, docs, c)[j + head.len()] == k);
        }
    }
}

/// A collection scan holds exactly one document per held key of the
/// collection — sound, free of duplicate keys, and complete — whenever the
/// walk lists the held keys exactly once, which every scan's `ensures`
/// states.
pub proof fn lemma_docs_in_exact(s: IcpMemoryStorage, c: Seq<char>)
    requires
        lists_keys_once(s.key_order(), s.docs().dom()),
    ensures
        s.docs_in(c).len() == sel_keys(s.key_order(), s.docs(), c).len(),
        forall|i: int|
            0 <= i < s.docs_in(c).len() ==> s.docs().contains_key(
                #[trigger] sel_keys(s.key_order(), s.docs(), c)[i],
            ) && in_collection(sel_keys(s.key_order(), s.docs(), c)[i], c) && s.docs_in(c)[i]
                == s.docs()[sel_keys(s.key_order(), s.docs(), c)[i]],
        forall|i: int, j: int|
            0 <= i < j < s.docs_in(c).len() ==> sel_keys(s.key_order(), s.docs(), c)[i]
                != sel_keys(s.key_order(), s.docs(), c)[j],
        forall|k: Seq<char>|
            #[trigger] s.docs().contains_key(k) && in_collection(k, c) ==> sel_keys(
                s.key_order(),
                s.docs(),
                c,
            ).contains(k),
{
    lemma_sel_docs_by_keys(s.key_order(), s.docs(), c);
    lemma_sel_keys_distinct(s.key_order(), s.docs(), c);
    assert forall|k: Seq<char>|
        #[trigger] s.docs().contains_key(k) && in_collection(k, c) implies sel_keys(
        s.key_order(),
        s.docs(),
        c,
    ).contains(k) by {
        assert(s.docs().dom().contains(k));
        lemma_sel_keys_complete(s.key_order(), s.docs(), c, k);
    }
}

/// A condition on a document, supplied fresh on every scan and evaluated
/// eagerly during it; the store never keeps one.
#[derive(Debug)]
pub enum Cond {
    /// Holds of every document.
    Always,
    /// Both parts hold.
    Both(Box<Cond>, Box<Cond>),
    /// The named field holds exactly this text.
    FieldIsText(String, String),
    /// The named field holds exactly this boolean.
    FieldIsBool(String, bool),
    /// The table rule used inside the `memories` collection: the
    /// document's `metadata.type` is exactly this text; a document without
    /// a `metadata` field, or whose `type` is missing or not text, does not
    /// match.
    TableIs(String),
}

impl Cond {
    /// What the condition says of a document's model.
    pub open spec fn holds(self, m: ValModel) -> bool
        decreases self,
    {
        match self {
            Cond::Always => true,
            Cond::Both(a, b) => a.holds(m) && b.holds(m),
            Cond::FieldIsText(f, s) => match doc_get(m, f@) {
                Some(ValModel::Text(t)) => t == s@,
                _ => false,
            },
            Cond::FieldIsBool(f, b) => match doc_get(m, f@) {
                Some(ValModel::Bool(x)) => x == b,
                _ => false,
            },
            Cond::TableIs(t) => match doc_get(m, "metadata"@) {
                Some(md) => match doc_get(md, "type"@) {
                    Some(ValModel::Text(x)) => x == t@,
                    _ => false,
                },
                None => false,
            },
        }
    }

    /// Evaluate the condition on a document.
    pub fn eval(&self, doc: &Value) -> (r: bool)
        ensures
            r == self.holds(doc@),
        decreases self,
    {
        match self {
            Cond::Always => true,
            Cond::Both(a, b) => a.eval(doc) && b.eval(doc),
            Cond::FieldIsText(f, s) => match doc.get(f.as_str()) {
                Some(v) => match v.as_text() {
                    Some(t) => *t == *s,
                    None => false,
                },
                None => false,
            },
            Cond::FieldIsBool(f, b) => match doc.get(f.as_str()) {
                Some(v) => match v.as_bool() {
                    Some(x) => x == *b,
                    None => false,
                },
                None => false,
            },
            Cond::TableIs(t) => match doc.get("metadata") {
                Some(md) => match md.get("type") {
                    Some(v) => match v.as_text() {
                        Some(x) => *x == *t,
                        None => false,
                    },
                    None => false,
                },
                None => false,
            },
        }
    }
}

/// The empty document map.
pub open spec fn no_docs() -> Map<Seq<char>, ValModel> {
    Map::empty()
}

/// Durable document storage, partitioned by collection.
pub struct IcpMemoryStorage {
    table: DocTable,
    mirror: Ghost<Map<Seq<char>, ValModel>>,
}

impl IcpMemoryStorage {
    /// The documents held, by storage key.
    pub closed spec fn docs(self) -> Map<Seq<char>, ValModel> {
        self.mirror@
    }

    /// Internal consistency: the table holds, under exactly the model's
    /// keys, the encodings of the model's documents.
    pub closed spec fn wf(self) -> bool {
        &&& table_entries(self.table).dom() == self.mirror@.dom()
        &&& self.mirror@.dom().finite()
        &&& forall|k: Seq<char>|
            #[trigger] self.mirror@.dom().contains(k) ==> table_entries(self.table)[k] == enc_val(
                self.mirror@[k],
            ) && wf_model(self.mirror@[k])
    }

    /// The stored keys, in the order scans walk them.
    pub closed spec fn key_order(self) -> Seq<Seq<char>> {
        table_entry_order(table_entries(self.table))
    }

    /// The documents of collection `c`, in the order scans hand them out.
    pub closed spec fn docs_in(self, c: Seq<char>) -> Seq<ValModel> {
        sel_docs(self.key_order(), self.mirror@, c)
    }

    /// A fresh, empty store.
    pub fn new() -> (r: IcpMemoryStorage)
        ensures
            r.wf(),
            r.docs() == no_docs(),
    {
        let table = DocTable::new();
        IcpMemoryStorage { table, mirror: Ghost(Map::empty()) }
    }

    /// Attach to the store; nothing to do, the state is durable.
    pub fn init(&self) -> (r: StorageResult<()>)
        ensures
            r is Ok,
    {
        Ok(())
    }

    /// Release the store; durable state is kept.
    pub fn close(&self) -> (r: StorageResult<()>)
        ensures
            r is Ok,
    {
        Ok(())
    }

    /// The store is always ready once built.
    pub fn is_ready(&self) -> (r: bool)
        ensures
            r,
    {
        true
    }

    /// Exact lookup; absence is not an error.
    pub fn get(&self, collection: &str, id: &str) -> (r: StorageResult<Option<Value>>)
        requires
            self.wf(),
        ensures
            match r {
                Ok(o) => match o {
                    Some(v) => self.docs().contains_key(key_of(collection@, id@)) && v@
                        == self.docs()[key_of(collection@, id@)],
                    None => !self.docs().contains_key(key_of(collection@, id@)),
                },
                Err(_) => false,
            },
    {
        let key = make_key(collection, id);
        match self.table.get(&key) {
            Some(bytes) => {
                proof {
                    lemma_codec_round_trip(self.mirror@[key@]);
                }
                match decode(&bytes) {
                    Some(v) => Ok(Some(v)),
                    None => Ok(Some(Value::Null)),
                }
            },
            None => Ok(None),
        }
    }

    /// Full scan of one collection, in the store's walk order; the walk
    /// lists every held key exactly once, so the scan is complete.
    #[verifier::loop_isolation(false)]
    pub fn get_all(&self, collection: &str) -> (r: StorageResult<Vec<Value>>)
        requires
            self.wf(),
        ensures
            match r {
                Ok(vs) => list_models(vs@) == self.docs_in(collection@),
                Err(_) => false,
            },
            lists_keys_once(self.key_order(), self.docs().dom()),
    {
        let prefix = make_key(collection, "");
        proof {
            reveal_strlit("");
            assert(prefix@ =~= collection@ + seq![':']);
        }
        let entries = self.table.entries();
        proof {
            self.lemma_walk_lists_keys(entries@);
        }
        let n = entries.len();
        let mut out: Vec<Value> = Vec::new();
        let mut i: usize = 0;
        proof {
            assert(list_models(out@) =~= Seq::<ValModel>::empty());
            assert(self.key_order().subrange(0, 0) =~= Seq::<Seq<char>>::empty());
            assert(sel_docs(self.key_order().subrange(0, 0), self.mirror@, collection@)
                =~= Seq::<ValModel>::empty());
        }
        while i < n
            invariant
                0 <= i <= n,
                n == entries@.len(),
                list_models(out@) == sel_docs(
                    self.key_order().subrange(0, i as int),
                    self.mirror@,
                    collection@,
                ),
            decreases n - i,
        {
            let ghost k = entries@[i as int].0@;
            proof {
                lemma_sel_docs_snoc(
                    self.key_order().subrange(0, i as int),
                    self.mirror@,
                    collection@,
                    k,
                );
                assert(self.key_order().subrange(0, i as int).push(k) =~= self.key_order().subrange(
                    0,
                    i as int + 1,
                ));
            }
            if has_prefix(&entries[i].0, &prefix) {
                proof {
                    assert(in_collection(k, collection@)) by {
                        assert(prefix@ == collection@ + seq![':']);
                        assert(entries@[i as int].0@.subrange(0, prefix@.len() as int) == prefix@);
                    }
                    lemma_codec_round_trip(self.mirror@[k]);
                    lemma_list_models_push(out@, Value::Null);
                }
                let ghost before = out@;
                match decode(&entries[i].1) {
                    Some(v) => {
                        proof {
                            lemma_list_models_push(before, v);
                        }
                        out.push(v);
                    },
                    None => {
                        out.push(Value::Null);
                    },
                }
            } else {
                proof {
                    assert(!in_collection(k, collection@)) by {
                        if in_collection(k, collection@) {
                            assert(k.subrange(0, prefix@.len() as int) == prefix@);
                        }
                    }
                }
            }
            i = i + 1;
        }
        proof {
            assert(self.key_order().subrange(0, n as int) =~= self.key_order());
        }
        Ok(out)
    }

    /// Linear scan of one collection, keeping the documents the condition
    /// holds of; exactly the matching subsequence of a full scan.
    #[verifier::loop_isolation(false)]
    pub fn get_where(&self, collection: &str, cond: &Cond) -> (r: StorageResult<Vec<Value>>)
        requires
            self.wf(),
        ensures
            match r {
                Ok(vs) => list_models(vs@) == self.docs_in(collection@).filter(
                    |m: ValModel| cond.holds(m),
                ),
                Err(_) => false,
            },
            lists_keys_once(self.key_order(), self.docs().dom()),
    {
        let all = match self.get_all(collection) {
            Ok(vs) => vs,
            Err(e) => {
                return Err(e);
            },
        };
        let pred = Ghost(|m: ValModel| cond.holds(m));
        let n = all.len();
        let mut out: Vec<Value> = Vec::new();
        let mut i: usize = 0;
        proof {
            lemma_list_models(all@);
            assert(list_models(out@) =~= Seq::<ValModel>::empty());
            reveal(Seq::filter);
            assert(list_models(all@).subrange(0, 0) =~= Seq::<ValModel>::empty());
            assert(list_models(all@).subrange(0, 0).filter(pred@) =~= Seq::<ValModel>::empty());
        }
        while i < n
            invariant
                0 <= i <= n,
                n == all@.len(),
                list_models(all@).len() == n,
                list_models(out@) == list_models(all@).subrange(0, i as int).filter(pred@),
                pred@ == (|m: ValModel| cond.holds(m)),
            decreases n - i,
        {
            let ghost done = list_models(all@).subrange(0, i as int);
            proof {
                reveal(Seq::filter);
                assert(done.push(list_models(all@)[i as int]) =~= list_models(all@).subrange(
                    0,
                    i as int + 1,
                ));
                assert(done.push(list_models(all@)[i as int]).drop_last() =~= done);
                lemma_list_models(all@);
            }
            if cond.eval(&all[i]) {
                let copy = all[i].deep_clone();
                proof {
                    lemma_list_models_push(out@, copy);
                }
                out.push(copy);
                proof {
                    reveal(Seq::filter);
                    assert(list_models(out@) =~= list_models(all@).subrange(0, i as int + 1).filter(
                        pred@,
                    ));
                }
            } else {
                proof {
                    reveal(Seq::filter);
                    assert(list_models(out@) =~= list_models(all@).subrange(0, i as int + 1).filter(
                        pred@,
                    ));
                }
            }
            i = i + 1;
        }
        proof {
            assert(list_models(all@).subrange(0, n as int) =~= list_models(all@));
        }
        Ok(out)
    }

    /// Upsert: the last write under a key wins.
    pub fn set(&mut self, collection: &str, id: &str, doc: Value) -> (r: StorageResult<()>)
        requires
            old(self).wf(),
        ensures
            final(self).wf(),
            r is Ok,
            final(self).docs() == old(self).docs().insert(key_of(collection@, id@), doc@),
    {
        let ghost doc_m = doc@;
        let key = make_key(collection, id);
        let bytes = encode(&doc);
        self.table.insert(key, bytes);
        proof {
            self.mirror@ = self.mirror@.insert(key_of(collection@, id@), doc_m);
            assert(table_entries(self.table).dom() =~= self.mirror@.dom());
        }
        Ok(())
    }

    /// Delete one document; tells whether something was removed.
    pub fn delete(&mut self, collection: &str, id: &str) -> (r: StorageResult<bool>)
        requires
            old(self).wf(),
        ensures
            final(self).wf(),
            match r {
                Ok(b) => b == old(self).docs().contains_key(key_of(collection@, id@))
                    && final(self).docs() == old(self).docs().remove(key_of(collection@, id@)),
                Err(_) => false,
            },
    {
        let key = make_key(collection, id);
        let removed = self.table.remove(&key);
        proof {
            self.mirror@ = self.mirror@.remove(key_of(collection@, id@));
            assert(table_entries(self.table).dom() =~= self.mirror@.dom());
        }
        Ok(removed)
    }

    /// Delete several documents by id.
    #[verifier::loop_isolation(false)]
    pub fn delete_many(&mut self, collection: &str, ids: &Vec<String>) -> (r: StorageResult<()>)
        requires
            old(self).wf(),
        ensures
            final(self).wf(),
            r is Ok,
            forall|k: Seq<char>|
                final(self).docs().contains_key(k) == (old(self).docs().contains_key(k)
                    && !(exists|j: int|
                    0 <= j < ids@.len() && k == key_of(collection@, (#[trigger] ids@[j])@))),
            forall|k: Seq<char>|
                #[trigger] final(self).docs().contains_key(k) ==> final(self).docs()[k] == old(
                    self,
                ).docs()[k],
    {
        let n = ids.len();
        let mut i: usize = 0;
        while i < n
            invariant
                0 <= i <= n,
                n == ids@.len(),
                self.wf(),
                forall|k: Seq<char>|
                    self.docs().contains_key(k) == (old(self).docs().contains_key(k) && !(
                    exists|j: int|
                        0 <= j < i && k == key_of(collection@, (#[trigger] ids@[j])@))),
                forall|k: Seq<char>|
                    #[trigger] self.docs().contains_key(k) ==> self.docs()[k] == old(
                        self,
                    ).docs()[k],
            decreases n - i,
        {
            let _ = match self.delete(collection, ids[i].as_str()) {
                Ok(b) => b,
                Err(e) => {
                    return Err(e);
                },
            };
            i = i + 1;
        }
        Ok(())
    }

    /// Collect the matching documents' keys, then delete them in a second
    /// pass; never mutates the collection while scanning it.
    #[verifier::loop_isolation(false)]
    pub fn delete_where(&mut self, collection: &str, cond: &Cond) -> (r: StorageResult<()>)
        requires
            old(self).wf(),
        ensures
            final(self).wf(),
            r is Ok,
            forall|k: Seq<char>|
                #![trigger final(self).docs().contains_key(k)]
                #![trigger old(self).docs().contains_key(k)]
                final(self).docs().contains_key(k) == (old(self).docs().contains_key(k) && !(
                in_collection(k, collection@) && cond.holds(old(self).docs()[k]))),
            forall|k: Seq<char>|
                #![trigger final(self).docs().contains_key(k)]
                #![trigger old(self).docs().contains_key(k)]
                final(self).docs().contains_key(k) ==> final(self).docs()[k] == old(
                    self,
                ).docs()[k],
    {
        let prefix = make_key(collection, "");
        proof {
            reveal_strlit("");
            assert(prefix@ =~= collection@ + seq![':']);
        }
        let entries = self.table.entries();
        let n = entries.len();
        let mut doomed: Vec<String> = Vec::new();
        let mut i: usize = 0;
        while i < n
            invariant
                0 <= i <= n,
                n == entries@.len(),
                self.wf(),
                self == old(self),
                forall|j: int|
                    0 <= j < doomed@.len() ==> {
                        let k = (#[trigger] doomed@[j])@;
                        self.docs().contains_key(k) && in_collection(k, collection@) && cond.holds(
                            self.docs()[k],
                        )
                    },
                forall|j: int|
                    0 <= j < i && in_collection((#[trigger] entries@[j]).0@, collection@)
                        && cond.holds(self.docs()[entries@[j].0@]) ==> exists|l: int|
                        0 <= l < doomed@.len() && (#[trigger] doomed@[l])@ == entries@[j].0@,
            decreases n - i,
        {
            let ghost k = entries@[i as int].0@;
            if has_prefix(&entries[i].0, &prefix) {
                proof {
                    assert(in_collection(k, collection@)) by {
                        assert(prefix@ == collection@ + seq![':']);
                        assert(entries@[i as int].0@.subrange(0, prefix@.len() as int) == prefix@);
                    }
                    lemma_codec_round_trip(self.mirror@[k]);
                }
                let doc = match decode(&entries[i].1) {
                    Some(v) => v,
                    None => Value::Null,
                };
                if cond.eval(&doc) {
                    let ghost old_doomed = doomed@;
                    doomed.push(entries[i].0.clone());
                    proof {
                        assert forall|j: int|
                            0 <= j < i + 1 && in_collection(
                                (#[trigger] entries@[j]).0@,
                                collection@,
                            ) && cond.holds(self.docs()[entries@[j].0@]) implies exists|l: int|
                            0 <= l < doomed@.len() && (#[trigger] doomed@[l])@
                            == entries@[j].0@ by {
                            let k2 = entries@[j].0@;
                            if j < i {
                                let l = choose|l: int|
                                    0 <= l < old_doomed.len() && old_doomed[l]@ == k2;
                                assert(doomed@[l]@ == k2);
                            } else {
                                assert(doomed@[doomed@.len() - 1]@ == k2);
                            }
                        }
                    }
                }
            } else {
                proof {
                    assert(!in_collection(k, collection@)) by {
                        if in_collection(k, collection@) {
                            assert(k.subrange(0, prefix@.len() as int) == prefix@);
                        }
                    }
                }
            }
            i = i + 1;
        }
        let m = doomed.len();
        let ghost mid = *self;
        let mut j: usize = 0;
        while j < m
            invariant
                0 <= j <= m,
                m == doomed@.len(),
                self.wf(),
                forall|l: int|
                    0 <= l < doomed@.len() ==> {
                        let k = (#[trigger] doomed@[l])@;
                        mid.docs().contains_key(k) && in_collection(k, collection@) && cond.holds(
                            mid.docs()[k],
                        )
                    },
                forall|k: Seq<char>|
                    self.docs().contains_key(k) == (mid.docs().contains_key(k) && !(exists|l: int|
                        0 <= l < j && (#[trigger] doomed@[l])@ == k)),
                forall|k: Seq<char>|
                    #[trigger] self.docs().contains_key(k) ==> self.docs()[k] == mid.docs()[k],
                forall|l: int|
                    0 <= l < n && in_collection((#[trigger] entries@[l]).0@, collection@)
                        && cond.holds(mid.docs()[entries@[l].0@]) ==> exists|l2: int|
                        0 <= l2 < doomed@.len() && (#[trigger] doomed@[l2])@ == entries@[l].0@,
                forall|k: Seq<char>|
                    #[trigger] mid.docs().contains_key(k) ==> exists|l: int|
                        0 <= l < n && (#[trigger] entries@[l]).0@ == k,
            decreases m - j,
        {
            let key = &doomed[j];
            let _removed = self.table.remove(key);
            proof {
                self.mirror@ = self.mirror@.remove(key@);
                assert(table_entries(self.table).dom() =~= self.mirror@.dom());
            }
            j = j + 1;
        }
        Ok(())
    }

    /// Count the documents of one collection, optionally only those a
    /// condition holds of.
    pub fn count(&self, collection: &str, cond: Option<&Cond>) -> (r: StorageResult<usize>)
        requires
            self.wf(),
        ensures
            match r {
                Ok(c) => c == match cond {
                    Some(q) => self.docs_in(collection@).filter(|m: ValModel| q.holds(m)).len(),
                    None => self.docs_in(collection@).len(),
                },
                Err(_) => false,
            },
            lists_keys_once(self.key_order(), self.docs().dom()),
    {
        match cond {
            Some(q) => {
                let vs = match self.get_where(collection, q) {
                    Ok(vs) => vs,
                    Err(e) => {
                        return Err(e);
                    },
                };
                proof {
                    lemma_list_models(vs@);
                }
                Ok(vs.len())
            },
            None => {
                let vs = match self.get_all(collection) {
                    Ok(vs) => vs,
                    Err(e) => {
                        return Err(e);
                    },
                };
                proof {
                    lemma_list_models(vs@);
                }
                Ok(vs.len())
            },
        }
    }

    /// Remove every document from every collection.
    #[verifier::loop_isolation(false)]
    pub fn clear(&mut self) -> (r: StorageResult<()>)
        requires
            old(self).wf(),
        ensures
            final(self).wf(),
            r is Ok,
            final(self).docs() == no_docs(),
    {
        let entries = self.table.entries();
        let n = entries.len();
        let mut i: usize = 0;
        while i < n
            invariant
                0 <= i <= n,
                n == entries@.len(),
                self.wf(),
                forall|k: Seq<char>|
                    #[trigger] self.docs().contains_key(k) ==> old(self).docs().contains_key(k),
                forall|k: Seq<char>|
                    #[trigger] self.docs().contains_key(k) ==> exists|l: int|
                        i <= l < n && (#[trigger] entries@[l]).0@ == k,
            decreases n - i,
        {
            let ghost prev = self.docs();
            let _removed = self.table.remove(&entries[i].0);
            proof {
                self.mirror@ = self.mirror@.remove(entries@[i as int].0@);
                assert(table_entries(self.table).dom() =~= self.mirror@.dom());
                assert forall|k: Seq<char>| #[trigger] self.docs().contains_key(k) implies old(
                    self,
                ).docs().contains_key(k) && exists|l: int|
                    i + 1 <= l < n && (#[trigger] entries@[l]).0@ == k by {
                    assert(prev.contains_key(k));
                    let l = choose|l: int| i <= l < n && (#[trigger] entries@[l]).0@ == k;
                    assert(k != entries@[i as int].0@);
                    assert(i + 1 <= l < n && entries@[l].0@ == k);
                }
            }
            i = i + 1;
        }
        proof {
            assert forall|k: Seq<char>| !(#[trigger] self.docs().contains_key(k)) by {
                if self.docs().contains_key(k) {
                }
            }
            assert(self.docs() =~= no_docs());
        }
        Ok(())
    }

    /// The walk order lists exactly the held keys, as the entry walk shows.
    proof fn lemma_walk_lists_keys(self, es: Seq<(String, Vec<u8>)>)
        requires
            self.wf(),
            es.len() == table_entry_order(table_entries(self.table)).len(),
            forall|i: int|
                0 <= i < es.len() ==> (#[trigger] es[i]).0@ == table_entry_order(
                    table_entries(self.table),
                )[i] && table_entries(self.table).contains_key(es[i].0@),
            forall|i: int, j: int| 0 <= i < j < es.len() ==> (#[trigger] es[i]).0@ != (
            #[trigger] es[j]).0@,
            forall|k: Seq<char>|
                table_entries(self.table).contains_key(k) ==> exists|i: int|
                    0 <= i < es.len() && (#[trigger] es[i]).0@ == k,
        ensures
            lists_keys_once(self.key_order(), self.docs().dom()),
    {
        let ord = self.key_order();
        assert forall|i: int| 0 <= i < ord.len() implies self.docs().dom().contains(
            #[trigger] ord[i],
        ) by {
            assert(es[i].0@ == ord[i]);
        }
        assert forall|i: int, j: int| 0 <= i < j < ord.len() implies ord[i] != ord[j] by {
            assert(es[i].0@ == ord[i] && es[j].0@ == ord[j]);
        }
        assert forall|k: Seq<char>| #[trigger] self.docs().dom().contains(k) implies ord.contains(
            k,
        ) by {
            let i = choose|i: int| 0 <= i < es.len() && (#[trigger] es[i]).0@ == k;
            assert(ord[i] == k);
        }
    }

    /// How many documents the store holds over all collections.
    pub fn total_len(&self) -> (r: u64)
        requires
            self.wf(),
        ensures
            r as int == self.docs().dom().len(),
    {
        self.table.len()
    }
}

/// Whether `s` starts with `p`, character by character.
#[verifier::loop_isolation(false)]
pub fn has_prefix(s: &String, p: &String) -> (r: bool)
    ensures
        r == (s@.len() >= p@.len() && s@.subrange(0, p@.len() as int) == p@),
{
    let sl = s.as_str().unicode_len();
    let pl = p.as_str().unicode_len();
    if sl < pl {
        return false;
    }
    let mut i: usize = 0;
    while i < pl
        invariant
            0 <= i <= pl,
            pl == p@.len(),
            sl == s@.len(),
            pl <= sl,
            forall|j: int| 0 <= j < i ==> s@[j] == p@[j],
        decreases pl - i,
    {
        if s.as_str().get_char(i) != p.as_str().get_char(i) {
            proof {
                assert(s@.subrange(0, p@.len() as int)[i as int] != p@[i as int]);
            }
            return false;
        }
        i = i + 1;
    }
    proof {
        assert(s@.subrange(0, p@.len() as int) =~= p@);
    }
    true
}

} // verus!

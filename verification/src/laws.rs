//! The general properties the store promises, each proved over the same
//! spec functions its operations' contracts use.

use vstd::prelude::*;

use crate::adapter::{by_created, expired, field_text, mem_filter, merged, page, vals_of,
    IcpDatabaseAdapter};
use crate::key_of;
use crate::sort::sort_desc_r;
use crate::store::{in_collection, Cond, IcpMemoryStorage};
use crate::value::{doc_get, fields_get, fields_set, ValModel};
use crate::table::lists_keys_once;
use crate::vector::{hits_of, insert_desc, lemma_hits_of_complete, sim_s, sort_desc,
    take_at_most};

verus! {

/// Law: storing a document and then looking the same collection and id up
/// yields exactly that document — `set(c, i, d)` makes `get(c, i)` return
/// `Some(d)`.
///
/// `set` ensures the document map becomes `docs.insert(key_of(c, i), d)`;
/// `get` ensures it returns the document held under `key_of(c, i)`.
pub proof fn lemma_set_then_get(
    docs: Map<Seq<char>, ValModel>,
    c: Seq<char>,
    i: Seq<char>,
    d: ValModel,
)
    ensures
        docs.insert(key_of(c, i), d).contains_key(key_of(c, i)),
        docs.insert(key_of(c, i), d)[key_of(c, i)] == d,
{
}

/// Law: a delete reports `true` exactly once per prior store.  After a
/// store the key is held, so the first delete reports `true` and removes
/// it; after that the key is no longer held, so any further delete reports
/// `false` and changes nothing.
///
/// `delete` ensures it returns whether the key was held and leaves the map
/// `docs.remove(key_of(c, i))`.
pub proof fn lemma_delete_idempotent(
    docs: Map<Seq<char>, ValModel>,
    c: Seq<char>,
    i: Seq<char>,
    d: ValModel,
)
    ensures
        docs.insert(key_of(c, i), d).contains_key(key_of(c, i)),
        !docs.insert(key_of(c, i), d).remove(key_of(c, i)).contains_key(key_of(c, i)),
        !docs.contains_key(key_of(c, i)) ==> docs.remove(key_of(c, i)) == docs,
{
    if !docs.contains_key(key_of(c, i)) {
        assert(docs.remove(key_of(c, i)) =~= docs);
    }
}

/// Law: a predicate scan yields exactly the subset of a full scan that the
/// condition holds of, for every condition and every collection: every
/// document it yields satisfies the condition and occurs in the full scan,
/// and every document of the full scan satisfying the condition occurs in
/// it.
///
/// `get_where(c, q)` ensures its result is `docs_in(c).filter(q)` — here
/// [`where_scan`] — and `get_all(c)` ensures its result is `docs_in(c)`.
pub open spec fn where_scan(s: IcpMemoryStorage, c: Seq<char>, q: Cond) -> Seq<ValModel> {
    s.docs_in(c).filter(|m: ValModel| q.holds(m))
}

/// Law: a predicate scan yields exactly the subset of a full scan that the
/// condition holds of; see [`where_scan`].
pub proof fn lemma_get_where_is_filtered_get_all(s: IcpMemoryStorage, c: Seq<char>, q: Cond)
    ensures
        forall|i: int|
            0 <= i < where_scan(s, c, q).len() ==> q.holds(#[trigger] where_scan(s, c, q)[i])
                && s.docs_in(c).contains(where_scan(s, c, q)[i]),
        forall|i: int|
            0 <= i < s.docs_in(c).len() && q.holds(#[trigger] s.docs_in(c)[i]) ==> where_scan(
                s,
                c,
                q,
            ).contains(s.docs_in(c)[i]),
{
    let pred = |m: ValModel| q.holds(m);
    let all = s.docs_in(c);
    broadcast use vstd::seq_lib::group_filter_ensures;

    assert forall|i: int| 0 <= i < all.filter(pred).len() implies pred(
        #[trigger] all.filter(pred)[i],
    ) && all.contains(all.filter(pred)[i]) by {
        all.lemma_filter_pred(pred, i);
        assert(all.filter(pred).contains(all.filter(pred)[i]));
        all.lemma_filter_contains_rev(pred, all.filter(pred)[i]);
    }
    assert forall|i: int| 0 <= i < all.len() && pred(#[trigger] all[i]) implies all.filter(
        pred,
    ).contains(all[i]) by {
        all.lemma_filter_contains(pred, i);
    }
}

/// Every entry inserted into a weakly descending run keeps it weakly
/// descending, and adds no entry below the bound the run already obeys.
pub proof fn lemma_insert_desc_shape(x: (Seq<char>, int), s: Seq<(Seq<char>, int)>, t: int)
    requires
        forall|i: int, j: int| 0 <= i <= j < s.len() ==> (#[trigger] s[i]).1 >= (#[trigger] s[j]).1,
        forall|i: int| 0 <= i < s.len() ==> (#[trigger] s[i]).1 >= t,
        x.1 >= t,
    ensures
        forall|i: int, j: int|
            0 <= i <= j < insert_desc(x, s).len() ==> (#[trigger] insert_desc(x, s)[i]).1 >= (
            #[trigger] insert_desc(x, s)[j]).1,
        forall|i: int| 0 <= i < insert_desc(x, s).len() ==> (#[trigger] insert_desc(x, s)[i]).1 >= t,
        insert_desc(x, s).len() == s.len() + 1,
    decreases s.len(),
{
    if s.len() == 0 {
    } else if x.1 >= s[0].1 {
    } else {
        lemma_insert_desc_shape(x, s.skip(1), t);
        let out = seq![s[0]] + insert_desc(x, s.skip(1));
        assert forall|i: int, j: int| 0 <= i <= j < out.len() implies (#[trigger] out[i]).1 >= (
        #[trigger] out[j]).1 by {
            if i > 0 {
                assert(out[i] == insert_desc(x, s.skip(1))[i - 1]);
            } else if j > 0 {
                assert(out[j] == insert_desc(x, s.skip(1))[j - 1]);
                if insert_desc(x, s.skip(1))[j - 1] != x {
                    assert(exists|l: int|
                        0 <= l < s.skip(1).len() && s.skip(1)[l] == insert_desc(x, s.skip(1))[j
                            - 1]) by {
                        lemma_insert_desc_member(x, s.skip(1), j - 1);
                    }
                }
            }
        }
    }
}

/// Every entry of an insertion's result is the inserted entry or one of the
/// run's own.
pub proof fn lemma_insert_desc_member(x: (Seq<char>, int), s: Seq<(Seq<char>, int)>, i: int)
    requires
        0 <= i < insert_desc(x, s).len(),
    ensures
        insert_desc(x, s)[i] == x || exists|l: int| 0 <= l < s.len() && #[trigger] s[l]
            == insert_desc(x, s)[i],
    decreases s.len(),
{
    if s.len() == 0 {
    } else if x.1 >= s[0].1 {
        if i > 0 {
            assert(s[i - 1] == insert_desc(x, s)[i]);
        }
    } else {
        if i == 0 {
            assert(s[0] == insert_desc(x, s)[0]);
        } else {
            lemma_insert_desc_member(x, s.skip(1), i - 1);
            if insert_desc(x, s.skip(1))[i - 1] != x {
                let l = choose|l: int|
                    0 <= l < s.skip(1).len() && s.skip(1)[l] == insert_desc(x, s.skip(1))[i - 1];
                assert(s[l + 1] == insert_desc(x, s)[i]);
            }
        }
    }
}

/// A sorted run of hits is weakly descending and stays above the bound its
/// entries obey.
pub proof fn lemma_sort_desc_shape(s: Seq<(Seq<char>, int)>, t: int)
    requires
        forall|i: int| 0 <= i < s.len() ==> (#[trigger] s[i]).1 >= t,
    ensures
        forall|i: int, j: int|
            0 <= i <= j < sort_desc(s).len() ==> (#[trigger] sort_desc(s)[i]).1 >= (
            #[trigger] sort_desc(s)[j]).1,
        forall|i: int| 0 <= i < sort_desc(s).len() ==> (#[trigger] sort_desc(s)[i]).1 >= t,
        sort_desc(s).len() == s.len(),
    decreases s.len(),
{
    if s.len() > 0 {
        assert(forall|i: int| 0 <= i < s.skip(1).len() ==> (#[trigger] s.skip(1)[i]).1 >= t);
        lemma_sort_desc_shape(s.skip(1), t);
        lemma_insert_desc_shape(s[0], sort_desc(s.skip(1)), t);
    }
}

/// The hits of a search all reach the threshold.
pub proof fn lemma_hits_reach_threshold(
    ks: Seq<Seq<char>>,
    vecs: Map<Seq<char>, Seq<i32>>,
    q: Seq<i32>,
    t: int,
)
    ensures
        forall|i: int|
            0 <= i < hits_of(ks, vecs, q, t).len() ==> (#[trigger] hits_of(ks, vecs, q, t)[i]).1
                >= t,
    decreases ks.len(),
{
    if ks.len() > 0 {
        lemma_hits_reach_threshold(ks.skip(1), vecs, q, t);
        let head: Seq<(Seq<char>, int)> = if crate::vector::sim_s(q, vecs[ks[0]]) >= t {
            seq![(ks[0], crate::vector::sim_s(q, vecs[ks[0]]))]
        } else {
            Seq::empty()
        };
        assert forall|i: int| 0 <= i < hits_of(ks, vecs, q, t).len() implies (#[trigger] hits_of(
            ks,
            vecs,
            q,
            t,
        )[i]).1 >= t by {
            if i >= head.len() {
                assert(hits_of(ks, vecs, q, t)[i] == hits_of(ks.skip(1), vecs, q, t)[i
                    - head.len()]);
            }
        }
    }
}

/// Law: a similarity search yields at most `k` results, all with
/// similarity at least the threshold, sorted by weakly descending
/// similarity.
///
/// `search(q, k, t)` ensures its results stand for
/// `take_at_most(sort_desc(hits_of(order, vectors, q, t)), k)`.
pub proof fn lemma_search_top_k(
    ks: Seq<Seq<char>>,
    vecs: Map<Seq<char>, Seq<i32>>,
    q: Seq<i32>,
    t: int,
    k: int,
)
    requires
        k >= 0,
    ensures
        take_at_most(sort_desc(hits_of(ks, vecs, q, t)), k).len() <= k,
        forall|i: int|
            0 <= i < take_at_most(sort_desc(hits_of(ks, vecs, q, t)), k).len() ==> (
            #[trigger] take_at_most(sort_desc(hits_of(ks, vecs, q, t)), k)[i]).1 >= t,
        forall|i: int, j: int|
            0 <= i <= j < take_at_most(sort_desc(hits_of(ks, vecs, q, t)), k).len() ==> (
            #[trigger] take_at_most(sort_desc(hits_of(ks, vecs, q, t)), k)[i]).1 >= (
            #[trigger] take_at_most(sort_desc(hits_of(ks, vecs, q, t)), k)[j]).1,
{
    lemma_hits_reach_threshold(ks, vecs, q, t);
    lemma_sort_desc_shape(hits_of(ks, vecs, q, t), t);
    let sorted = sort_desc(hits_of(ks, vecs, q, t));
    let taken = take_at_most(sorted, k);
    assert forall|i: int| 0 <= i < taken.len() implies (#[trigger] taken[i]).1 >= t by {
        assert(taken[i] == sorted[i]);
    }
    assert forall|i: int, j: int| 0 <= i <= j < taken.len() implies (#[trigger] taken[i]).1 >= (
    #[trigger] taken[j]).1 by {
        assert(taken[i] == sorted[i] && taken[j] == sorted[j]);
    }
}

/// Law: after a room's cascade delete, a memory scan filtered to that room
/// is empty.
///
/// `delete_room(r)` ensures no held memory document references `r` any
/// more; `get_memories(roomId = r, …)` ensures its result is the paged,
/// sorted filter of the memory scan, whose filter demands `roomId == r`.
pub proof fn lemma_cascade_delete_scan_empty(
    a: IcpDatabaseAdapter,
    room_id: &str,
    table_name: &str,
    entity_id: Option<&str>,
    agent_id: Option<&str>,
    world_id: Option<&str>,
    count: Option<usize>,
    offset: Option<usize>,
)
    requires
        forall|k: Seq<char>|
            #[trigger] a.docs().contains_key(k) ==> !(in_collection(k, "memories"@) && field_text(
                a.docs()[k],
                "roomId"@,
                room_id@,
            )),
    ensures
        page(
            vals_of(
                sort_desc_r(
                    by_created(
                        a.docs_in("memories"@).filter(
                            |m: ValModel|
                                mem_filter(
                                    m,
                                    table_name@,
                                    entity_id,
                                    agent_id,
                                    Some(room_id),
                                    world_id,
                                ),
                        ),
                    ),
                ),
            ),
            offset,
            count,
        ) == Seq::<ValModel>::empty(),
{
    let pred = |m: ValModel|
        mem_filter(m, table_name@, entity_id, agent_id, Some(room_id), world_id);
    let all = a.docs_in("memories"@);
    crate::adapter::lemma_adapter_docs_in_members(a, "memories"@);
    assert forall|i: int| 0 <= i < all.len() implies !pred(#[trigger] all[i]) by {
        assert(crate::adapter::scan_member(a, "memories"@, i));
        let k = choose|k: Seq<char>|
            a.docs().contains_key(k) && in_collection(k, "memories"@) && #[trigger] a.docs()[k]
                == a.docs_in("memories"@)[i];
        assert(!field_text(a.docs()[k], "roomId"@, room_id@));
    }
    lemma_filter_none(all, pred);
    assert(by_created(all.filter(pred)) =~= Seq::<(int, ValModel)>::empty());
    assert(sort_desc_r(by_created(all.filter(pred))) =~= Seq::<(int, ValModel)>::empty());
    assert(vals_of(sort_desc_r(by_created(all.filter(pred)))) =~= Seq::<ValModel>::empty());
    assert(page(vals_of(sort_desc_r(by_created(all.filter(pred)))), offset, count)
        =~= Seq::<ValModel>::empty());
}

/// A filter that no element satisfies selects nothing.
pub proof fn lemma_filter_none<A>(s: Seq<A>, pred: spec_fn(A) -> bool)
    requires
        forall|i: int| 0 <= i < s.len() ==> !pred(#[trigger] s[i]),
    ensures
        s.filter(pred) == Seq::<A>::empty(),
    decreases s.len(),
{
    reveal(Seq::filter);
    if s.len() > 0 {
        lemma_filter_none(s.drop_last(), pred);
    }
}

/// Law: a cache record read past its expiry is removed, so it stays absent:
/// the first read past `expiresAt` deletes the record and reports it
/// absent, and any later read finds no record at all.
///
/// `get_cache(key)` ensures it removes an expired record and reports
/// `None`, and reports `None` with no change when no record is held.
pub proof fn lemma_cache_expiry_sticks(
    docs: Map<Seq<char>, ValModel>,
    key: Seq<char>,
    now: int,
)
    requires
        docs.contains_key(key_of("cache"@, key)),
        expired(docs[key_of("cache"@, key)], now),
    ensures
        !docs.remove(key_of("cache"@, key)).contains_key(key_of("cache"@, key)),
{
}

/// The field list with one field rewritten yields the new value for that
/// field's name.
pub proof fn lemma_fields_set_get_same(
    fields: Seq<(Seq<char>, ValModel)>,
    key: Seq<char>,
    val: ValModel,
)
    ensures
        fields_get(fields_set(fields, key, val), key) == Some(val),
    decreases fields.len(),
{
    if fields.len() == 0 {
    } else if fields[0].0 == key {
    } else {
        lemma_fields_set_get_same(fields.skip(1), key, val);
        assert((seq![fields[0]] + fields_set(fields.skip(1), key, val)).skip(1) =~= fields_set(
            fields.skip(1),
            key,
            val,
        ));
    }
}

/// The field list with one field rewritten yields every other field's name
/// unchanged.
pub proof fn lemma_fields_set_get_other(
    fields: Seq<(Seq<char>, ValModel)>,
    key: Seq<char>,
    val: ValModel,
    other: Seq<char>,
)
    requires
        other != key,
    ensures
        fields_get(fields_set(fields, key, val), other) == fields_get(fields, other),
    decreases fields.len(),
{
    if fields.len() == 0 {
        let fs2 = fields_set(fields, key, val);
        assert(fs2 == seq![(key, val)]);
        assert(fs2.skip(1) =~= Seq::<(Seq<char>, ValModel)>::empty());
        assert(fields_get(fs2, other) == fields_get(fs2.skip(1), other));
        assert(fields_get(Seq::<(Seq<char>, ValModel)>::empty(), other) is None);
    } else if fields[0].0 == key {
        let fs2 = fields_set(fields, key, val);
        assert(fs2 == seq![(key, val)] + fields.skip(1));
        assert(fs2[0] == (key, val));
        assert(fs2.skip(1) =~= fields.skip(1));
        assert(fields_get(fs2, other) == fields_get(fs2.skip(1), other));
        assert(fields_get(fields, other) == fields_get(fields.skip(1), other));
    } else {
        lemma_fields_set_get_other(fields.skip(1), key, val, other);
        let fs2 = fields_set(fields, key, val);
        assert(fs2 == seq![fields[0]] + fields_set(fields.skip(1), key, val));
        assert(fs2[0] == fields[0]);
        assert(fs2.skip(1) =~= fields_set(fields.skip(1), key, val));
        if fields[0].0 == other {
            assert(fields_get(fs2, other) == Some(fields[0].1));
            assert(fields_get(fields, other) == Some(fields[0].1));
        } else {
            assert(fields_get(fs2, other) == fields_get(fs2.skip(1), other));
            assert(fields_get(fields, other) == fields_get(fields.skip(1), other));
        }
    }
}

/// Law: a shallow merge preserves every field the patch does not name —
/// `updateAgent(id, patch)` leaves all other previously stored top-level
/// fields of the agent unchanged.
///
/// `update_agent` ensures the stored agent becomes `merged(old, patch)`.
pub proof fn lemma_merge_preserves_other_fields(
    base: ValModel,
    patch: ValModel,
    field: Seq<char>,
)
    requires
        patch is Object ==> fields_get(patch->Object_0, field) is None,
    ensures
        doc_get(merged(base, patch), field) == doc_get(base, field),
{
    match base {
        ValModel::Object(bf) => match patch {
            ValModel::Object(pf) => {
                lemma_merge_fields_preserves(bf, pf, field);
            },
            _ => {},
        },
        _ => {},
    }
}

/// Merging a field list over a base preserves every field name the list
/// does not hold.
pub proof fn lemma_merge_fields_preserves(
    base: Seq<(Seq<char>, ValModel)>,
    patch: Seq<(Seq<char>, ValModel)>,
    field: Seq<char>,
)
    requires
        fields_get(patch, field) is None,
    ensures
        fields_get(crate::adapter::merge_fields(base, patch), field) == fields_get(base, field),
    decreases patch.len(),
{
    if patch.len() == 0 {
    } else {
        assert(patch[0].0 != field);
        lemma_fields_set_get_other(base, patch[0].0, patch[0].1, field);
        lemma_merge_fields_preserves(fields_set(base, patch[0].0, patch[0].1), patch.skip(1), field);
    }
}

/// Law: a shallow merge writes every field the patch names — when the
/// patch's field names are distinct, each named top-level field of the
/// stored agent ends up holding the patch's value for it.
///
/// `update_agent` ensures the stored agent becomes `merged(old, patch)`.
pub proof fn lemma_merge_overwrites_named_fields(
    base: ValModel,
    patch: ValModel,
    field: Seq<char>,
    v: ValModel,
)
    requires
        base is Object,
        patch is Object,
        forall|i: int, j: int|
            0 <= i < j < patch->Object_0.len() ==> (#[trigger] patch->Object_0[i]).0 != (
            #[trigger] patch->Object_0[j]).0,
        fields_get(patch->Object_0, field) == Some(v),
    ensures
        doc_get(merged(base, patch), field) == Some(v),
{
    lemma_merge_fields_overwrites(base->Object_0, patch->Object_0, field, v);
}

/// Merging a field list with distinct names over a base makes each named
/// field hold the list's value for it.
pub proof fn lemma_merge_fields_overwrites(
    base: Seq<(Seq<char>, ValModel)>,
    patch: Seq<(Seq<char>, ValModel)>,
    field: Seq<char>,
    v: ValModel,
)
    requires
        forall|i: int, j: int|
            0 <= i < j < patch.len() ==> (#[trigger] patch[i]).0 != (#[trigger] patch[j]).0,
        fields_get(patch, field) == Some(v),
    ensures
        fields_get(crate::adapter::merge_fields(base, patch), field) == Some(v),
    decreases patch.len(),
{
    let rest = patch.skip(1);
    assert forall|i: int, j: int| 0 <= i < j < rest.len() implies (#[trigger] rest[i]).0 != (
    #[trigger] rest[j]).0 by {
        assert(rest[i] == patch[i + 1] && rest[j] == patch[j + 1]);
    }
    if patch[0].0 == field {
        assert(patch[0].1 == v);
        assert forall|j: int| 0 <= j < rest.len() implies (#[trigger] rest[j]).0 != field by {
            assert(rest[j] == patch[j + 1]);
        }
        crate::value::lemma_fields_get_no_match(rest, field);
        lemma_fields_set_get_same(base, field, v);
        lemma_merge_fields_preserves(fields_set(base, field, v), rest, field);
    } else {
        lemma_merge_fields_overwrites(fields_set(base, patch[0].0, patch[0].1), rest, field, v);
    }
}

/// Insertion keeps exactly the run's entries plus the inserted one.
pub proof fn lemma_insert_desc_contains(
    x: (Seq<char>, int),
    s: Seq<(Seq<char>, int)>,
    e: (Seq<char>, int),
)
    ensures
        insert_desc(x, s).contains(e) == (e == x || s.contains(e)),
    decreases s.len(),
{
    let out = insert_desc(x, s);
    if s.len() == 0 {
        if e == x {
            assert(out[0] == e);
        }
        if out.contains(e) {
            let i = choose|i: int| 0 <= i < out.len() && out[i] == e;
            assert(e == x);
        }
    } else if x.1 >= s[0].1 {
        if e == x {
            assert(out[0] == e);
        }
        if s.contains(e) {
            let i = choose|i: int| 0 <= i < s.len() && s[i] == e;
            assert(out[i + 1] == e);
        }
        if out.contains(e) {
            let i = choose|i: int| 0 <= i < out.len() && out[i] == e;
            if i > 0 {
                assert(s[i - 1] == e);
            }
        }
    } else {
        lemma_insert_desc_contains(x, s.skip(1), e);
        let inner = insert_desc(x, s.skip(1));
        if e == x {
            let i = choose|i: int| 0 <= i < inner.len() && inner[i] == e;
            assert(out[i + 1] == e);
        }
        if s.contains(e) {
            let i = choose|i: int| 0 <= i < s.len() && s[i] == e;
            if i == 0 {
                assert(out[0] == e);
            } else {
                assert(s.skip(1)[i - 1] == e);
                let j = choose|j: int| 0 <= j < inner.len() && inner[j] == e;
                assert(out[j + 1] == e);
            }
        }
        if out.contains(e) {
            let i = choose|i: int| 0 <= i < out.len() && out[i] == e;
            if i == 0 {
                assert(s[0] == e);
            } else {
                assert(inner[i - 1] == e);
                if e != x {
                    let j = choose|j: int| 0 <= j < s.skip(1).len() && s.skip(1)[j] == e;
                    assert(s[j + 1] == e);
                }
            }
        }
    }
}

/// Sorting keeps exactly the run's entries.
pub proof fn lemma_sort_desc_contains(s: Seq<(Seq<char>, int)>, e: (Seq<char>, int))
    ensures
        sort_desc(s).contains(e) == s.contains(e),
    decreases s.len(),
{
    if s.len() == 0 {
    } else {
        lemma_sort_desc_contains(s.skip(1), e);
        lemma_insert_desc_contains(s[0], sort_desc(s.skip(1)), e);
        if s.contains(e) && e != s[0] {
            let i = choose|i: int| 0 <= i < s.len() && s[i] == e;
            assert(s.skip(1)[i - 1] == e);
        }
        if s.skip(1).contains(e) {
            let i = choose|i: int| 0 <= i < s.skip(1).len() && s.skip(1)[i] == e;
            assert(s[i + 1] == e);
        }
        if e == s[0] {
            assert(s.contains(e)) by {
                assert(s[0] == e);
            }
        }
    }
}

/// Law: a similarity search is top-k complete over the stored set: when a
/// stored vector clears the threshold but its hit is not among the `k`
/// results, the results are a full `k` and every one of them ranks at
/// least as high.  The walked ids list the stored ids exactly once, as
/// `search`'s own `ensures` states.
pub proof fn lemma_search_top_k_complete(
    ks: Seq<Seq<char>>,
    vecs: Map<Seq<char>, Seq<i32>>,
    q: Seq<i32>,
    t: int,
    k: int,
    kid: Seq<char>,
)
    requires
        k >= 0,
        lists_keys_once(ks, vecs.dom()),
        vecs.dom().contains(kid),
        sim_s(q, vecs[kid]) >= t,
        !take_at_most(sort_desc(hits_of(ks, vecs, q, t)), k).contains((kid, sim_s(q, vecs[kid]))),
    ensures
        take_at_most(sort_desc(hits_of(ks, vecs, q, t)), k).len() == k,
        forall|i: int|
            0 <= i < k ==> (#[trigger] take_at_most(sort_desc(hits_of(ks, vecs, q, t)), k)[i]).1
                >= sim_s(q, vecs[kid]),
{
    let pair = (kid, sim_s(q, vecs[kid]));
    let hits = hits_of(ks, vecs, q, t);
    let sorted = sort_desc(hits);
    let taken = take_at_most(sorted, k);
    assert(ks.contains(kid));
    lemma_hits_of_complete(ks, vecs, q, t, kid);
    lemma_sort_desc_contains(hits, pair);
    let idx = choose|idx: int| 0 <= idx < sorted.len() && sorted[idx] == pair;
    lemma_hits_reach_threshold(ks, vecs, q, t);
    lemma_sort_desc_shape(hits, t);
    if sorted.len() <= k {
        assert(taken[idx] == pair);
        assert(taken.contains(pair));
    }
    if idx < k {
        assert(taken[idx] == pair);
        assert(taken.contains(pair));
    }
    assert forall|i: int| 0 <= i < k implies (#[trigger] taken[i]).1 >= pair.1 by {
        assert(taken[i] == sorted[i]);
        assert(sorted[i].1 >= sorted[idx].1);
    }
}

} // verus!

//! The collection store and the adapter: round trips, deletes, scans,
//! cascades, cache expiry and the shallow merge.

use eliza_store::adapter::IcpDatabaseAdapter;
use eliza_store::codec::{decode, encode};
use eliza_store::store::{Cond, IcpMemoryStorage};
use eliza_store::value::Value;

fn obj(fields: Vec<(&str, Value)>) -> Value {
    Value::Object(fields.into_iter().map(|(k, v)| (k.to_string(), v)).collect())
}

fn text(s: &str) -> Value {
    Value::Text(s.to_string())
}

#[test]
fn codec_round_trips_every_shape() {
    let doc = obj(vec![
        ("id", text("a:1")),
        ("flag", Value::Bool(true)),
        ("missing", Value::Null),
        ("count", Value::Int(-7)),
        ("items", Value::List(vec![Value::Int(1), text("two"), Value::Null])),
        ("nested", obj(vec![("k", text("v"))])),
    ]);
    let bytes = encode(&doc);
    assert_eq!(decode(&bytes), Some(doc));
}

#[test]
fn decode_rejects_truncated_bytes() {
    let doc = obj(vec![("id", text("x"))]);
    let mut bytes = encode(&doc);
    bytes.pop();
    assert_eq!(decode(&bytes), None);
}

#[test]
fn set_then_get_round_trips() {
    let mut store = IcpMemoryStorage::new();
    let doc = obj(vec![("id", text("r1")), ("name", text("lobby"))]);
    store.set("rooms", "r1", doc.deep_clone()).unwrap();
    let got = store.get("rooms", "r1").unwrap();
    assert_eq!(got, Some(doc));
    assert_eq!(store.get("rooms", "other").unwrap(), None);
}

#[test]
fn delete_reports_true_exactly_once() {
    let mut store = IcpMemoryStorage::new();
    store.set("rooms", "r1", obj(vec![("id", text("r1"))])).unwrap();
    assert!(store.delete("rooms", "r1").unwrap());
    assert!(!store.delete("rooms", "r1").unwrap());
    assert!(!store.delete("rooms", "r1").unwrap());
}

#[test]
fn get_where_selects_the_matching_subset() {
    let mut store = IcpMemoryStorage::new();
    store.set("tasks", "1", obj(vec![("kind", text("a"))])).unwrap();
    store.set("tasks", "2", obj(vec![("kind", text("b"))])).unwrap();
    store.set("tasks", "3", obj(vec![("kind", text("a"))])).unwrap();
    store.set("logs", "1", obj(vec![("kind", text("a"))])).unwrap();

    let all = store.get_all("tasks").unwrap();
    assert_eq!(all.len(), 3);

    let cond = Cond::FieldIsText("kind".to_string(), "a".to_string());
    let found = store.get_where("tasks", &cond).unwrap();
    assert_eq!(found.len(), 2);
    let manual: Vec<&Value> = all.iter().filter(|v| cond.eval(v)).collect();
    assert_eq!(found.iter().collect::<Vec<_>>(), manual);
}

#[test]
fn count_and_clear_cover_all_partitions() {
    let mut store = IcpMemoryStorage::new();
    store.set("tasks", "1", obj(vec![("kind", text("a"))])).unwrap();
    store.set("tasks", "2", obj(vec![("kind", text("b"))])).unwrap();
    assert_eq!(store.count("tasks", None).unwrap(), 2);
    let cond = Cond::FieldIsText("kind".to_string(), "b".to_string());
    assert_eq!(store.count("tasks", Some(&cond)).unwrap(), 1);
    store.clear().unwrap();
    assert_eq!(store.count("tasks", None).unwrap(), 0);
}

#[test]
fn create_agent_requires_an_id() {
    let mut adapter = IcpDatabaseAdapter::new("agent-1".to_string());
    adapter.init().unwrap();
    assert!(!adapter.create_agent(obj(vec![("name", text("NoId"))])).unwrap());
    assert!(adapter
        .create_agent(obj(vec![("id", text("a1")), ("name", text("First"))]))
        .unwrap());
    let got = adapter.get_agent("a1").unwrap().unwrap();
    assert_eq!(got.get("name"), Some(&text("First")));
}

#[test]
fn update_agent_merges_shallowly() {
    let mut adapter = IcpDatabaseAdapter::new("agent-1".to_string());
    adapter.init().unwrap();
    adapter
        .create_agent(obj(vec![
            ("id", text("a1")),
            ("name", text("First")),
            ("bio", text("kept")),
        ]))
        .unwrap();

    assert!(adapter
        .update_agent("a1", obj(vec![("name", text("Second"))]))
        .unwrap());
    let got = adapter.get_agent("a1").unwrap().unwrap();
    assert_eq!(got.get("name"), Some(&text("Second")));
    assert_eq!(got.get("bio"), Some(&text("kept")));
    assert_eq!(got.get("id"), Some(&text("a1")));

    assert!(!adapter
        .update_agent("missing", obj(vec![("name", text("x"))]))
        .unwrap());
}

#[test]
fn cache_expires_lazily_and_stays_gone() {
    let mut adapter = IcpDatabaseAdapter::new("agent-1".to_string());
    adapter.init().unwrap();
    adapter
        .set_cache_with_expiry("session", text("stale"), 1_000)
        .unwrap();
    // the first read past the stamp removes the record
    assert_eq!(adapter.get_cache("session", 2_000).unwrap(), None);
    // and it stays absent, even for a read before the stamp
    assert_eq!(adapter.get_cache("session", 0).unwrap(), None);
}

#[test]
fn cache_round_trips_unexpired_values() {
    let mut adapter = IcpDatabaseAdapter::new("agent-1".to_string());
    adapter.init().unwrap();
    adapter.set_cache("greeting", text("hi")).unwrap();
    assert_eq!(adapter.get_cache("greeting", 5_000).unwrap(), Some(text("hi")));
    assert!(adapter.delete_cache("greeting").unwrap());
    assert_eq!(adapter.get_cache("greeting", 5_000).unwrap(), None);
}

#[test]
fn delete_room_cascades_to_participants_and_memories() {
    let mut adapter = IcpDatabaseAdapter::new("agent-1".to_string());
    adapter.init().unwrap();
    adapter
        .create_room(obj(vec![("id", text("r1"))]), "unused")
        .unwrap();
    adapter
        .create_memory(
            obj(vec![("entityId", text("e1")), ("roomId", text("r1"))]),
            "messages",
            false,
            100,
            "m1",
        )
        .unwrap();
    adapter
        .create_memory(
            obj(vec![("entityId", text("e1")), ("roomId", text("r2"))]),
            "messages",
            false,
            101,
            "m2",
        )
        .unwrap();

    adapter.delete_room("r1").unwrap();

    assert_eq!(adapter.get_room("r1").unwrap(), None);
    let in_room = adapter
        .get_memories(None, None, Some("r1"), None, "messages", None, None, None)
        .unwrap();
    assert!(in_room.is_empty());
    let elsewhere = adapter
        .get_memories(None, None, Some("r2"), None, "messages", None, None, None)
        .unwrap();
    assert_eq!(elsewhere.len(), 1);
}

#[test]
fn get_memories_orders_pages_and_filters() {
    let mut adapter = IcpDatabaseAdapter::new("agent-1".to_string());
    adapter.init().unwrap();
    for (id, stamp) in [("m1", 100i64), ("m2", 300), ("m3", 200)] {
        adapter
            .create_memory(
                obj(vec![
                    ("entityId", text("e1")),
                    ("roomId", text("r1")),
                    ("createdAt", Value::Int(stamp)),
                ]),
                "messages",
                false,
                stamp,
                id,
            )
            .unwrap();
    }

    let top2 = adapter
        .get_memories(None, None, Some("r1"), None, "messages", Some(2), None, None)
        .unwrap();
    assert_eq!(top2.len(), 2);
    assert_eq!(top2[0].get("createdAt"), Some(&Value::Int(300)));
    assert_eq!(top2[1].get("createdAt"), Some(&Value::Int(200)));

    let offset = adapter
        .get_memories(None, None, Some("r1"), None, "messages", Some(2), Some(1), None)
        .unwrap();
    assert_eq!(offset[0].get("createdAt"), Some(&Value::Int(200)));
    assert_eq!(offset[1].get("createdAt"), Some(&Value::Int(100)));

    let other_table = adapter
        .get_memories(None, None, Some("r1"), None, "facts", None, None, None)
        .unwrap();
    assert!(other_table.is_empty());
}

#[test]
fn table_rule_demands_a_tagged_document() {
    let mut store = IcpMemoryStorage::new();
    // untagged, tagged without a type, and properly tagged documents
    store
        .set("memories", "m1", obj(vec![("roomId", text("r1"))]))
        .unwrap();
    store
        .set(
            "memories",
            "m2",
            obj(vec![("metadata", obj(vec![("kind", text("x"))]))]),
        )
        .unwrap();
    store
        .set(
            "memories",
            "m3",
            obj(vec![("metadata", obj(vec![("type", text("messages"))]))]),
        )
        .unwrap();

    let cond = Cond::TableIs("messages".to_string());
    let found = store.get_where("memories", &cond).unwrap();
    assert_eq!(found.len(), 1);
    assert!(cond.eval(&found[0]));
}

#[test]
fn close_keeps_documents_and_vector_records() {
    let mut adapter = IcpDatabaseAdapter::new("agent-1".to_string());
    adapter.init().unwrap();
    adapter.ensure_embedding_dimension(2).unwrap();
    adapter
        .create_memory(
            obj(vec![
                ("entityId", text("e1")),
                ("roomId", text("r1")),
                (
                    "embedding",
                    Value::List(vec![Value::Int(1_000_000), Value::Int(0)]),
                ),
            ]),
            "messages",
            false,
            1,
            "m1",
        )
        .unwrap();

    adapter.close().unwrap();
    assert!(!adapter.is_ready());

    // re-initializing re-attaches; both the document and its vector survive
    adapter.init().unwrap();
    assert_eq!(adapter.memory_count(), 1);
    let found = adapter
        .search_memories(
            "messages",
            &vec![1_000_000, 0],
            Some(500_000),
            Some(5),
            None,
            None,
            None,
            None,
        )
        .unwrap();
    assert_eq!(found.len(), 1);
}

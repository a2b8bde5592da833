//! The record shapes, the conversation-history builder, the runtime facade,
//! and the bulk store operations.

use eliza_store::adapter::IcpDatabaseAdapter;
use eliza_store::bridge::IcpElizaAdapter;
use eliza_store::records::{
    build_conversation_history, AgentState, CharacterConfig, Content, DfinityLLMConfig,
    DfinityLLMModel, InferenceMode, Memory, COLLECTIONS,
};
use eliza_store::store::IcpMemoryStorage;
use eliza_store::value::Value;

fn obj(fields: Vec<(&str, Value)>) -> Value {
    Value::Object(fields.into_iter().map(|(k, v)| (k.to_string(), v)).collect())
}

fn text(s: &str) -> Value {
    Value::Text(s.to_string())
}

#[test]
fn conversation_history_tags_roles_and_windows() {
    let mut messages = Vec::new();
    messages.push(Memory::message(
        "visitor".to_string(),
        "r1".to_string(),
        "first",
        "m1".to_string(),
        100,
    ));
    messages.push(Memory::message(
        "agent-1".to_string(),
        "r1".to_string(),
        "second",
        "m2".to_string(),
        200,
    ));
    let mut silent = Memory::message(
        "visitor".to_string(),
        "r1".to_string(),
        "dropped",
        "m3".to_string(),
        300,
    );
    silent.content = Content::default();
    messages.push(silent);
    messages.push(Memory::message(
        "visitor".to_string(),
        "r1".to_string(),
        "fourth",
        "m4".to_string(),
        400,
    ));

    let all = build_conversation_history(&messages, "agent-1", 10);
    assert_eq!(
        all,
        vec![
            ("user".to_string(), "first".to_string()),
            ("assistant".to_string(), "second".to_string()),
            ("user".to_string(), "fourth".to_string()),
        ]
    );

    let last_two = build_conversation_history(&messages, "agent-1", 2);
    assert_eq!(last_two, vec![("user".to_string(), "fourth".to_string())]);
}

#[test]
fn message_memories_carry_their_stamps() {
    let m = Memory::message(
        "e1".to_string(),
        "r1".to_string(),
        "hi",
        "m1".to_string(),
        4_200,
    );
    assert_eq!(m.id.as_deref(), Some("m1"));
    assert_eq!(m.entity_id, "e1");
    assert_eq!(m.room_id, "r1");
    assert_eq!(m.content.text.as_deref(), Some("hi"));
    assert_eq!(m.created_at, Some(4_200));
    assert_eq!(m.unique, Some(true));
    assert!(m.similarity.is_none());
}

#[test]
fn stock_records_have_their_defaults() {
    let character = CharacterConfig::default();
    assert_eq!(character.name, "Eliza");
    assert!(character.system.is_some());
    assert_eq!(character.personality_traits.len(), 4);

    let state = AgentState::new("a1".to_string(), character, 7);
    assert!(state.initialized);
    assert_eq!(state.created_at, 7);
    assert_eq!(state.message_count, 0);
    assert!(!AgentState::default().initialized);

    assert_eq!(InferenceMode::default(), InferenceMode::ElizaClassic);
    assert_eq!(DfinityLLMModel::default(), DfinityLLMModel::Llama3_1_8B);
    assert!(DfinityLLMConfig::default().enabled);

    assert_eq!(COLLECTIONS::memories(), "memories");
    assert_eq!(COLLECTIONS::participants(), "participants");
    assert_eq!(COLLECTIONS::cache(), "cache");
}

#[test]
fn delete_many_removes_each_named_id() {
    let mut store = IcpMemoryStorage::new();
    for id in ["1", "2", "3"] {
        store.set("tasks", id, obj(vec![("id", text(id))])).unwrap();
    }
    store
        .delete_many("tasks", &vec!["1".to_string(), "3".to_string(), "missing".to_string()])
        .unwrap();
    assert_eq!(store.get("tasks", "1").unwrap(), None);
    assert!(store.get("tasks", "2").unwrap().is_some());
    assert_eq!(store.get("tasks", "3").unwrap(), None);
}

#[test]
fn rooms_come_back_by_ids_or_not_at_all() {
    let mut adapter = IcpDatabaseAdapter::new("agent-1".to_string());
    adapter.init().unwrap();
    adapter
        .create_room(obj(vec![("id", text("r1")), ("name", text("one"))]), "unused")
        .unwrap();
    adapter
        .create_room(obj(vec![("id", text("r2")), ("name", text("two"))]), "unused")
        .unwrap();

    let some = adapter
        .get_rooms_by_ids(&vec!["r2".to_string(), "missing".to_string(), "r1".to_string()])
        .unwrap()
        .unwrap();
    assert_eq!(some.len(), 2);
    assert_eq!(some[0].get("name"), Some(&text("two")));
    assert_eq!(some[1].get("name"), Some(&text("one")));

    let none = adapter.get_rooms_by_ids(&vec!["missing".to_string()]).unwrap();
    assert!(none.is_none());
}

#[test]
fn facade_latches_readiness_and_forwards() {
    let mut facade = IcpElizaAdapter::new("agent-1".to_string());
    assert!(!facade.is_ready());
    facade.init().unwrap();
    assert!(facade.is_ready());

    assert!(facade
        .create_agent(obj(vec![("id", text("a1")), ("name", text("First"))]))
        .unwrap());
    assert!(facade
        .update_agent("a1", obj(vec![("name", text("Second"))]))
        .unwrap());
    let got = facade.get_agent("a1").unwrap().unwrap();
    assert_eq!(got.get("name"), Some(&text("Second")));
    assert!(facade.delete_agent("a1").unwrap());

    let id = facade
        .create_room(obj(vec![("topic", text("talk"))]), "fresh-room")
        .unwrap();
    assert_eq!(id, "fresh-room");
    assert!(facade.get_room("fresh-room").unwrap().is_some());
    facade.delete_room("fresh-room").unwrap();
    assert!(facade.get_room("fresh-room").unwrap().is_none());

    let eid = facade
        .create_entity(obj(vec![("kind", text("person"))]), "fresh-entity")
        .unwrap();
    assert!(facade.get_entity(&eid).unwrap().is_some());

    facade.set_cache("k", text("v")).unwrap();
    assert_eq!(facade.get_cache("k", 0).unwrap(), Some(text("v")));
    assert!(facade.delete_cache("k").unwrap());

    assert_eq!(facade.memory_count(), 0);
    facade.close().unwrap();
    assert!(!facade.is_ready());
}

#[test]
fn facade_stores_searches_and_recalls_memories() {
    let mut facade = IcpElizaAdapter::new("agent-1".to_string());
    facade.init().unwrap();

    let id = facade
        .create_memory(
            obj(vec![
                ("entityId", text("e1")),
                ("roomId", text("r1")),
                ("content", obj(vec![("text", text("hi"))])),
            ]),
            "messages",
            false,
            100,
            "m1",
        )
        .unwrap();
    assert_eq!(id, "m1");
    assert_eq!(facade.memory_count(), 1);

    let recalled = facade
        .get_memories(None, None, Some("r1"), None, "messages", None, None)
        .unwrap();
    assert_eq!(recalled.len(), 1);

    let found = facade
        .search_memories("messages", &vec![1_000_000, 0], Some(500_000), Some(5), Some("r1"))
        .unwrap_err();
    // the facade's index still runs at the stock dimension; the short query
    // names both lengths
    assert!(matches!(
        found,
        eliza_store::errors::StorageError::DimensionMismatch { expected: 384, actual: 2 }
    ));

    facade.delete_memory("m1").unwrap();
    assert_eq!(facade.memory_count(), 0);
}

#[test]
fn entities_round_trip_through_the_adapter() {
    let mut adapter = IcpDatabaseAdapter::new("agent-1".to_string());
    adapter.init().unwrap();
    let id = adapter
        .create_entity(obj(vec![("names", Value::List(vec![text("Ada")]))]), "e-1")
        .unwrap();
    assert_eq!(id, "e-1");
    let got = adapter.get_entity("e-1").unwrap().unwrap();
    assert_eq!(got.get("id"), Some(&text("e-1")));
    assert_eq!(adapter.get_entity("absent").unwrap(), None);
}

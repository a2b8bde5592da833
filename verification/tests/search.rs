//! The vector index: dimension enforcement, threshold, top-k order, and the
//! memory search over it.

use eliza_store::adapter::IcpDatabaseAdapter;
use eliza_store::errors::StorageError;
use eliza_store::value::Value;
use eliza_store::vector::{IcpVectorStorage, SIM_SCALE};

fn obj(fields: Vec<(&str, Value)>) -> Value {
    Value::Object(fields.into_iter().map(|(k, v)| (k.to_string(), v)).collect())
}

fn text(s: &str) -> Value {
    Value::Text(s.to_string())
}

#[test]
fn add_rejects_the_wrong_dimension() {
    let mut index = IcpVectorStorage::new();
    index.init(3).unwrap();
    let err = index.add("v1", &vec![1_000_000, 0]).unwrap_err();
    assert_eq!(err, StorageError::DimensionMismatch { expected: 3, actual: 2 });
    assert_eq!(index.size(), 0);
    index.add("v1", &vec![1_000_000, 0, 0]).unwrap();
    assert_eq!(index.size(), 1);
}

#[test]
fn search_rejects_the_wrong_dimension_and_changes_nothing() {
    let mut index = IcpVectorStorage::new();
    index.init(3).unwrap();
    index.add("v1", &vec![1_000_000, 0, 0]).unwrap();
    let err = index.search(&vec![100_000, 200_000], 5, 500_000).unwrap_err();
    assert_eq!(err, StorageError::DimensionMismatch { expected: 3, actual: 2 });
    assert_eq!(index.size(), 1);
}

#[test]
fn search_keeps_the_threshold_sorts_and_truncates() {
    let mut index = IcpVectorStorage::new();
    index.init(2).unwrap();
    // against the query [1, 0]: aligned, diagonal, and orthogonal vectors
    index.add("aligned", &vec![1_000_000, 0]).unwrap();
    index.add("diagonal", &vec![1_000_000, 1_000_000]).unwrap();
    index.add("orthogonal", &vec![0, 1_000_000]).unwrap();

    let hits = index.search(&vec![1_000_000, 0], 5, 500_000).unwrap();
    assert_eq!(hits.len(), 2);
    assert_eq!(hits[0].id, "aligned");
    assert_eq!(hits[0].similarity, SIM_SCALE);
    assert_eq!(hits[0].distance, 0);
    assert_eq!(hits[1].id, "diagonal");
    assert!(hits[1].similarity >= 500_000 && hits[1].similarity < SIM_SCALE);
    assert!(hits[0].similarity >= hits[1].similarity);

    let top1 = index.search(&vec![1_000_000, 0], 1, 500_000).unwrap();
    assert_eq!(top1.len(), 1);
    assert_eq!(top1[0].id, "aligned");

    let none = index.search(&vec![1_000_000, 0], 5, 999_999).unwrap();
    assert_eq!(none.len(), 1);
    assert_eq!(none[0].id, "aligned");
}

#[test]
fn remove_and_clear_empty_the_index() {
    let mut index = IcpVectorStorage::new();
    index.init(2).unwrap();
    index.add("v1", &vec![1, 0]).unwrap();
    index.add("v2", &vec![0, 1]).unwrap();
    index.remove("v1").unwrap();
    assert_eq!(index.size(), 1);
    index.clear().unwrap();
    assert_eq!(index.size(), 0);
}

#[test]
fn create_and_retrieve_memory_with_embedding() {
    let mut adapter = IcpDatabaseAdapter::new("agent-1".to_string());
    adapter.init().unwrap();
    adapter.ensure_embedding_dimension(3).unwrap();

    let id = adapter
        .create_memory(
            obj(vec![
                ("entityId", text("e1")),
                ("roomId", text("r1")),
                (
                    "content",
                    obj(vec![
                        ("text", text("hi")),
                        (
                            "embedding",
                            Value::List(vec![
                                Value::Int(100_000),
                                Value::Int(200_000),
                                Value::Int(300_000),
                            ]),
                        ),
                    ]),
                ),
            ]),
            "messages",
            false,
            4_200,
            "m-fresh",
        )
        .unwrap();
    assert_eq!(id, "m-fresh");

    let stored = adapter.get_memory_by_id(&id).unwrap().unwrap();
    let metadata = stored.get("metadata").unwrap();
    assert_eq!(metadata.get("type"), Some(&text("messages")));
    assert_eq!(stored.get("createdAt"), Some(&Value::Int(4_200)));
    assert_eq!(stored.get("entityId"), Some(&text("e1")));

    // the same embedding finds the record at full similarity
    let found = adapter
        .search_memories(
            "messages",
            &vec![100_000, 200_000, 300_000],
            Some(500_000),
            Some(5),
            None,
            None,
            None,
            None,
        )
        .unwrap();
    assert_eq!(found.len(), 1);
    assert_eq!(found[0].get("id"), Some(&text("m-fresh")));
    assert_eq!(found[0].get("similarity"), Some(&Value::Int(SIM_SCALE)));
}

#[test]
fn create_memory_with_mismatched_embedding_reports_the_dimensions() {
    let mut adapter = IcpDatabaseAdapter::new("agent-1".to_string());
    adapter.init().unwrap();
    adapter.ensure_embedding_dimension(3).unwrap();
    let err = adapter
        .create_memory(
            obj(vec![
                ("entityId", text("e1")),
                ("roomId", text("r1")),
                (
                    "embedding",
                    Value::List(vec![Value::Int(100_000), Value::Int(200_000)]),
                ),
            ]),
            "messages",
            false,
            1,
            "m1",
        )
        .unwrap_err();
    assert_eq!(err, StorageError::DimensionMismatch { expected: 3, actual: 2 });
}

#[test]
fn search_memories_rejects_the_wrong_dimension() {
    let mut adapter = IcpDatabaseAdapter::new("agent-1".to_string());
    adapter.init().unwrap();
    adapter.ensure_embedding_dimension(3).unwrap();
    let err = adapter
        .search_memories(
            "messages",
            &vec![100_000, 200_000],
            Some(500_000),
            Some(5),
            None,
            None,
            None,
            None,
        )
        .unwrap_err();
    assert_eq!(err, StorageError::DimensionMismatch { expected: 3, actual: 2 });
    assert_eq!(adapter.memory_count(), 0);
}

#[test]
fn delete_memory_removes_the_vector_too() {
    let mut adapter = IcpDatabaseAdapter::new("agent-1".to_string());
    adapter.init().unwrap();
    adapter.ensure_embedding_dimension(2).unwrap();
    adapter
        .create_memory(
            obj(vec![
                ("entityId", text("e1")),
                ("roomId", text("r1")),
                (
                    "embedding",
                    Value::List(vec![Value::Int(1_000_000), Value::Int(0)]),
                ),
            ]),
            "messages",
            false,
            1,
            "m1",
        )
        .unwrap();
    assert_eq!(adapter.memory_count(), 1);
    adapter.delete_memory("m1").unwrap();
    assert_eq!(adapter.memory_count(), 0);
    let found = adapter
        .search_memories(
            "messages",
            &vec![1_000_000, 0],
            Some(500_000),
            Some(5),
            None,
            None,
            None,
            None,
        )
        .unwrap();
    assert!(found.is_empty());
}

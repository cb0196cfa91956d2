//! The graph as it is now: nodes, edges, traversal, and vectors.

use aletheia_storage::current::namespaces::NamespaceId;
use aletheia_storage::current::search::{Candidate, FilterStats};
use aletheia_storage::current::storage::CurrentStorage;
use aletheia_storage::current::vector_admin::DEFAULT_MAX_VECTOR_PROPERTIES;
use aletheia_storage::current::vectors::{
    DistanceMetric, HnswConfig, RetentionPolicy, SnapshotStrategy, TemporalVectorConfig,
    VectorIndex,
};
use aletheia_storage::error::{Error, VectorError};
use aletheia_storage::graph::Node;
use aletheia_storage::historical::changes::{Namespace, NAMESPACE_KEY};
use aletheia_storage::ids::{EdgeId, InternedString, NodeId, VersionId};
use aletheia_storage::property::{PropertyMap, PropertyValue};
use aletheia_storage::temporal::{HybridTimestamp, TimeRange};
use std::collections::{HashMap, HashSet};

type Named<'a> = (&'a str, PropertyValue);

fn text(s: &str) -> PropertyValue {
    PropertyValue::Text(s.to_string())
}

fn whole(n: i64) -> PropertyValue {
    PropertyValue::Int(n)
}

fn float(x: f64) -> PropertyValue {
    PropertyValue::Float(x.to_bits())
}

fn boolean(b: bool) -> PropertyValue {
    PropertyValue::Bool(b)
}

fn bits(v: &[f32]) -> Vec<u32> {
    v.iter().map(|x| x.to_bits()).collect()
}

fn vector(v: &[f32]) -> PropertyValue {
    PropertyValue::Vector(bits(v))
}

fn props(storage: &mut CurrentStorage, list: Vec<Named>) -> PropertyMap {
    let mut map = PropertyMap::new();
    for (name, value) in list {
        map.insert(storage.intern(name).unwrap(), value);
    }
    map
}

fn node(storage: &mut CurrentStorage, label: &str, list: Vec<Named>) -> Result<NodeId, Error> {
    let map = props(storage, list);
    storage.create_node(label, map)
}

fn edge(
    storage: &mut CurrentStorage,
    source: NodeId,
    target: NodeId,
    label: &str,
    list: Vec<Named>,
) -> Result<EdgeId, Error> {
    let map = props(storage, list);
    storage.create_edge(source, target, label, map)
}

fn property<'a>(
    storage: &CurrentStorage,
    map: &'a PropertyMap,
    name: &str,
) -> Option<&'a PropertyValue> {
    storage.interner.get_id(name).and_then(|id| map.get(id))
}

fn as_str<'a>(storage: &CurrentStorage, map: &'a PropertyMap, name: &str) -> Option<&'a str> {
    match property(storage, map, name) {
        Some(PropertyValue::Text(s)) => Some(s.as_str()),
        _ => None,
    }
}

fn as_int(storage: &CurrentStorage, map: &PropertyMap, name: &str) -> Option<i64> {
    match property(storage, map, name) {
        Some(PropertyValue::Int(n)) => Some(*n),
        _ => None,
    }
}

fn as_float(storage: &CurrentStorage, map: &PropertyMap, name: &str) -> Option<f64> {
    match property(storage, map, name) {
        Some(PropertyValue::Float(b)) => Some(f64::from_bits(*b)),
        _ => None,
    }
}

fn as_vector(storage: &CurrentStorage, map: &PropertyMap, name: &str) -> Option<Vec<f32>> {
    match property(storage, map, name) {
        Some(PropertyValue::Vector(v)) => Some(v.iter().map(|b| f32::from_bits(*b)).collect()),
        _ => None,
    }
}

fn cosine(a: &[u32], b: &[u32]) -> f32 {
    let mut dot = 0.0f32;
    let mut left = 0.0f32;
    let mut right = 0.0f32;
    for (x, y) in a.iter().zip(b.iter()) {
        let (x, y) = (f32::from_bits(*x), f32::from_bits(*y));
        dot += x * y;
        left += x * x;
        right += y * y;
    }
    if left == 0.0 || right == 0.0 {
        0.0
    } else {
        dot / (left.sqrt() * right.sqrt())
    }
}

fn ranked(vectors: &HashMap<u64, Vec<u32>>, query: &[u32], k: usize) -> Vec<Candidate> {
    let mut all: Vec<(f32, u64)> =
        vectors.iter().map(|(id, v)| (cosine(v, query), *id)).collect();
    all.sort_by(|a, b| b.0.partial_cmp(&a.0).unwrap().then(a.1.cmp(&b.1)));
    all.into_iter()
        .take(k)
        .map(|(s, id)| Candidate { node: NodeId(id), similarity: s.to_bits() })
        .collect()
}

fn nearest(index: &VectorIndex, query: &Vec<u32>, k: usize) -> Result<Vec<Candidate>, Error> {
    Ok(ranked(&index.vectors, query, k))
}

fn nearest_then(
    _config: Option<HnswConfig>,
    vectors: &HashMap<u64, Vec<u32>>,
    query: &Vec<u32>,
    k: usize,
) -> Result<Vec<Candidate>, Error> {
    Ok(ranked(vectors, query, k))
}

fn triple(k: usize, _stats: FilterStats) -> usize {
    k * 3
}

fn scored(list: Vec<Candidate>) -> Vec<(NodeId, f32)> {
    list.into_iter().map(|c| (c.node, f32::from_bits(c.similarity))).collect()
}

fn pairs(found: Result<Vec<Candidate>, Error>) -> Result<Vec<(NodeId, f32)>, Error> {
    found.map(scored)
}

fn message(error: Error) -> String {
    match error {
        Error::Vector(VectorError::IndexError(text)) => text,
        other => format!("{:?}", other),
    }
}

#[test]
fn test_create_node() {
    let mut storage = CurrentStorage::new();

    let list = vec![("name", text("Alice")), ("age", whole(30))];

    let node_id = node(&mut storage, "Person", list).unwrap();

    assert_eq!(storage.node_count(), 1);

    let found = storage.get_node(node_id).unwrap();
    assert_eq!(found.id, node_id);
    assert_eq!(
        as_str(&storage, &found.properties, "name"),
        Some("Alice")
    );
}

#[test]
fn test_create_edge() {
    let mut storage = CurrentStorage::new();

    let alice = node(&mut storage, "Person", vec![]).unwrap();
    let bob = node(&mut storage, "Person", vec![]).unwrap();

    let edge_id = edge(&mut storage, alice, bob, "KNOWS", vec![("since", whole(2020))]).unwrap();

    assert_eq!(storage.edge_count(), 1);

    let edge = storage.get_edge(edge_id).unwrap();
    assert_eq!(edge.source, alice);
    assert_eq!(edge.target, bob);
    assert_eq!(
        as_int(&storage, &edge.properties, "since"),
        Some(2020)
    );
}

#[test]
fn test_create_edge_invalid_nodes() {
    let mut storage = CurrentStorage::new();

    let result = edge(&mut storage, NodeId::new(999).unwrap(), NodeId::new(1000).unwrap(), "KNOWS", vec![]);

    assert!(result.is_err());
}

#[test]
fn test_graph_traversal() {
    let mut storage = CurrentStorage::new();
    let n0 = node(&mut storage, "Person", vec![]).unwrap();
    let n1 = node(&mut storage, "Person", vec![]).unwrap();
    let n2 = node(&mut storage, "Person", vec![]).unwrap();
    edge(&mut storage, n0, n1, "KNOWS", vec![]).unwrap();
    edge(&mut storage, n0, n2, "KNOWS", vec![]).unwrap();
    edge(&mut storage, n1, n2, "FOLLOWS", vec![]).unwrap();
    let outgoing = storage.get_outgoing_edges(n0);
    assert_eq!(outgoing.len(), 2);
    let incoming = storage.get_incoming_edges(n2);
    assert_eq!(incoming.len(), 2);
    assert_eq!(storage.out_degree(n0), 2);
    assert_eq!(storage.in_degree(n2), 2);
}

#[test]
fn test_labeled_edges() {
    let mut storage = CurrentStorage::new();

    let n0 = node(&mut storage, "Person", vec![]).unwrap();
    let n1 = node(&mut storage, "Person", vec![]).unwrap();
    let n2 = node(&mut storage, "Person", vec![]).unwrap();

    edge(&mut storage, n0, n1, "KNOWS", vec![]).unwrap();
    edge(&mut storage, n0, n2, "FOLLOWS", vec![]).unwrap();
    let knows_edges = storage.get_outgoing_edges_with_label(n0, "KNOWS");
    assert_eq!(knows_edges.len(), 1);
    let follows_edges = storage.get_outgoing_edges_with_label(n0, "FOLLOWS");
    assert_eq!(follows_edges.len(), 1);
    let none_edges = storage.get_outgoing_edges_with_label(n0, "LOVES");
    assert_eq!(none_edges.len(), 0);
}

#[test]
fn test_delete_node() {
    let mut storage = CurrentStorage::new();

    let node_id = node(&mut storage, "Person", vec![]).unwrap();

    assert_eq!(storage.node_count(), 1);

    let deleted = storage.delete_node(node_id).unwrap();
    assert_eq!(deleted.id, node_id);
    assert_eq!(storage.node_count(), 0);
    assert!(storage.delete_node(node_id).is_err());
}

#[test]
fn test_delete_node_preserves_edges_for_audit() {
    let mut storage = CurrentStorage::new();

    let alice = node(&mut storage, "Person", vec![]).unwrap();
    let bob = node(&mut storage, "Person", vec![]).unwrap();

    let edge_id = edge(&mut storage, alice, bob, "KNOWS", vec![]).unwrap();
    let deleted = storage.delete_node(alice).unwrap();
    assert_eq!(deleted.id, alice);
    assert!(storage.get_node(alice).is_err());
    let edge = storage.get_edge(edge_id).unwrap();
    assert_eq!(edge.source, alice);
    assert_eq!(edge.target, bob);
}

#[test]
fn test_delete_edge() {
    let mut storage = CurrentStorage::new();

    let n0 = node(&mut storage, "Person", vec![]).unwrap();
    let n1 = node(&mut storage, "Person", vec![]).unwrap();

    let edge_id = edge(&mut storage, n0, n1, "KNOWS", vec![]).unwrap();

    assert_eq!(storage.edge_count(), 1);
    assert_eq!(storage.out_degree(n0), 1);

    storage.delete_edge(edge_id).unwrap();

    assert_eq!(storage.edge_count(), 0);
    assert_eq!(storage.out_degree(n0), 0);
}

#[test]
fn test_create_node_with_vector_property() {
    let mut storage = CurrentStorage::new();
    let embedding = vec![0.1f32, 0.2, 0.3, 0.4, 0.5];
    let list = vec![("name", text("Document")), ("embedding", vector(&embedding))];

    let node_id = node(&mut storage, "Document", list).unwrap();
    let found = storage.get_node(node_id).unwrap();
    assert_eq!(
        as_str(&storage, &found.properties, "name"),
        Some("Document")
    );

    assert_eq!(
        as_vector(&storage, &found.properties, "embedding").as_deref(),
        Some(&embedding[..])
    );
}

#[test]
fn test_create_node_with_high_dimensional_vector() {
    let mut storage = CurrentStorage::new();
    let embedding: Vec<f32> = (0..384).map(|i| i as f32 / 384.0).collect();
    let list = vec![("embedding", vector(&embedding))];

    let node_id = node(&mut storage, "Embedding", list).unwrap();

    let found = storage.get_node(node_id).unwrap();
    assert_eq!(
        as_vector(&storage, &found.properties, "embedding").as_deref(),
        Some(&embedding[..])
    );
}

#[test]
fn test_create_edge_with_vector_property() {
    let mut storage = CurrentStorage::new();
    let n1 = node(&mut storage, "Entity", vec![]).unwrap();
    let n2 = node(&mut storage, "Entity", vec![]).unwrap();
    let edge_embedding = vec![0.5f32, -0.3, 0.8];
    let list = vec![("weight", float(0.95)), ("embedding", vector(&edge_embedding))];

    let edge_id = edge(&mut storage, n1, n2, "RELATES_TO", list).unwrap();
    let edge = storage.get_edge(edge_id).unwrap();
    assert_eq!(
        as_float(&storage, &edge.properties, "weight"),
        Some(0.95)
    );

    assert_eq!(
        as_vector(&storage, &edge.properties, "embedding").as_deref(),
        Some(&edge_embedding[..])
    );
}

#[test]
fn test_update_node_vector_property() {
    let mut storage = CurrentStorage::new();
    let initial_embedding = vec![0.1f32, 0.2, 0.3, 0.0];
    let list = vec![("name", text("Document")), ("embedding", vector(&initial_embedding))];

    let node_id = node(&mut storage, "Document", list).unwrap();
    let mut found = storage.get_node(node_id).unwrap();
    let updated_embedding = vec![0.9f32, 0.8, 0.7, 0.0];
    let new_props = vec![("name", text("Document")), ("embedding", vector(&updated_embedding))];
    found.properties = props(&mut storage, new_props);

    storage.update_node_direct(found, HybridTimestamp::from_micros(1000)).unwrap();
    let updated_node = storage.get_node(node_id).unwrap();
    assert_eq!(
        as_vector(&storage, &updated_node.properties, "embedding").as_deref(),
        Some(&updated_embedding[..])
    );
}

#[test]
fn test_update_edge_vector_property() {
    let mut storage = CurrentStorage::new();

    let n1 = node(&mut storage, "Entity", vec![]).unwrap();
    let n2 = node(&mut storage, "Entity", vec![]).unwrap();
    let initial_embedding = vec![1.0f32, 0.0];
    let list = vec![("embedding", vector(&initial_embedding))];

    let edge_id = edge(&mut storage, n1, n2, "RELATES_TO", list).unwrap();
    let mut edge = storage.get_edge(edge_id).unwrap();
    let updated_embedding = vec![0.0f32, 1.0];
    edge.properties = props(&mut storage, vec![("embedding", vector(&updated_embedding))]);

    storage.update_edge_direct(edge).unwrap();
    let updated_edge = storage.get_edge(edge_id).unwrap();
    assert_eq!(
        as_vector(&storage, &updated_edge.properties, "embedding").as_deref(),
        Some(&updated_embedding[..])
    );
}

#[test]
fn test_create_node_with_multiple_vector_properties() {
    let mut storage = CurrentStorage::new();
    let text_embedding = vec![0.1f32, 0.2, 0.3, 0.4];
    let image_embedding = vec![0.5f32, 0.6, 0.7, 0.8];
    let list = vec![("content", text("multimodal content")), ("text_embedding", vector(&text_embedding)), ("image_embedding", vector(&image_embedding))];

    let node_id = node(&mut storage, "MultimodalDoc", list).unwrap();

    let found = storage.get_node(node_id).unwrap();
    assert_eq!(
        as_vector(&storage, &found.properties, "text_embedding").as_deref(),
        Some(&text_embedding[..])
    );
    assert_eq!(
        as_vector(&storage, &found.properties, "image_embedding").as_deref(),
        Some(&image_embedding[..])
    );
}

#[test]
fn test_create_node_with_empty_vector() {
    let mut storage = CurrentStorage::new();
    let empty_embedding: Vec<f32> = vec![];
    let list = vec![("embedding", vector(&empty_embedding))];

    let node_id = node(&mut storage, "EmptyVec", list).unwrap();

    let found = storage.get_node(node_id).unwrap();
    assert_eq!(
        as_vector(&storage, &found.properties, "embedding").as_deref(),
        Some(&empty_embedding[..])
    );
}

#[test]
fn test_create_node_with_normalized_vector() {
    let mut storage = CurrentStorage::new();
    let normalized_embedding = vec![0.5773503f32, 0.5773503, 0.5773503, 0.0];
    let list = vec![("embedding", vector(&normalized_embedding))];

    let node_id = node(&mut storage, "NormalizedDoc", list).unwrap();

    let found = storage.get_node(node_id).unwrap();
    let retrieved = as_vector(&storage, &found.properties, "embedding")
        .expect("Embedding property should exist and be a vector");
    let magnitude: f32 = retrieved.iter().map(|x| x * x).sum::<f32>().sqrt();
    assert!((magnitude - 1.0).abs() < 1e-5);
}

#[test]
fn test_enable_vector_index() {
    let mut storage = CurrentStorage::new();
    assert!(!storage.is_vector_index_enabled());

    let config = HnswConfig::new(4, DistanceMetric::Cosine).with_capacity(100);
    storage.enable_vector_index("embedding", config).unwrap();
    assert!(storage.is_vector_index_enabled());
}

#[test]
fn test_enable_vector_index_twice_fails() {
    let mut storage = CurrentStorage::new();

    let config = HnswConfig::new(4, DistanceMetric::Cosine).with_capacity(100);
    storage
        .enable_vector_index("embedding", config.clone()).unwrap();

    let result = storage.enable_vector_index("embedding", config);
    assert!(result.is_err());
}
#[test]
fn test_rebuild_vector_index_on_already_enabled_index_is_idempotent_backfill() {
    let mut storage = CurrentStorage::new();

    let config = HnswConfig::new(4, DistanceMetric::Cosine).with_capacity(100);
    storage.enable_vector_index("embedding", config).unwrap();
    for v in [[1.0f32, 0.0, 0.0, 0.0], [0.9f32, 0.1, 0.0, 0.0]] {
        node(&mut storage, "Doc", vec![("embedding", vector(&v))]).unwrap();
    }
    node(&mut storage, "Doc", vec![("name", text("no-vector"))]).unwrap();
    node(&mut storage, "Doc", vec![("embedding", text("not a vector"))]).unwrap();
    let other_config = HnswConfig::new(8, DistanceMetric::Euclidean);
    let indexed = storage
        .rebuild_vector_index("embedding", other_config.clone())
        .expect("rebuild on an already-enabled index must succeed");
    assert_eq!(indexed, 2, "only nodes with the vector property count");
    let indexed_again = storage
        .rebuild_vector_index("embedding", other_config)
        .expect("rebuild must be idempotent");
    assert_eq!(indexed_again, 2);

    let (index, config, _) = storage
        .get_vector_index_for_persistence("embedding")
        .expect("index must still be registered");
    assert_eq!(index.len(), 2, "no duplicate entries after double rebuild");
    assert_eq!(config.dimensions, 4, "original config must be kept");
}
#[test]
fn test_rebuild_vector_index_errors_when_property_limit_reached() {
    let mut storage = CurrentStorage::new();

    for i in 0..DEFAULT_MAX_VECTOR_PROPERTIES {
        storage
            .enable_vector_index(
                &format!("embedding_{i}"),
                HnswConfig::new(4, DistanceMetric::Cosine),
            ).unwrap();
    }

    let result = storage.rebuild_vector_index(
        "one_property_too_many",
        HnswConfig::new(4, DistanceMetric::Cosine),
    );
    assert!(
        result.is_err(),
        "rebuild must fail when no index slot is available"
    );
    assert!(
        !storage.is_vector_index_enabled_for("one_property_too_many"),
        "the failed rebuild must not register an index"
    );
}
#[test]
fn test_rebuild_vector_index_errors_on_dimension_mismatch() {
    let mut storage = CurrentStorage::new();
    node(&mut storage, "Doc", vec![("embedding", vector(&[1.0f32, 0.0]))]).unwrap();
    let result =
        storage.rebuild_vector_index("embedding", HnswConfig::new(4, DistanceMetric::Cosine));
    assert!(
        result.is_err(),
        "a dimension mismatch during backfill must surface as an error"
    );
}

#[test]
fn test_auto_index_on_create() {
    let mut storage = CurrentStorage::new();

    let config = HnswConfig::new(4, DistanceMetric::Cosine).with_capacity(100);
    storage.enable_vector_index("embedding", config).unwrap();

    let embedding = vec![1.0f32, 0.0, 0.0, 0.0];
    let list = vec![("embedding", vector(&embedding))];
    let node_id = node(&mut storage, "Document", list).unwrap();

    let found = storage.get_node(node_id).unwrap();
    assert_eq!(
        as_vector(&storage, &found.properties, "embedding").as_deref(),
        Some(&embedding[..])
    );
}

#[test]
fn test_auto_index_dimension_mismatch_rolls_back() {
    let mut storage = CurrentStorage::new();

    let config = HnswConfig::new(4, DistanceMetric::Cosine).with_capacity(100);
    storage.enable_vector_index("embedding", config).unwrap();
    let wrong_embedding = vec![1.0f32, 0.0];
    let list = vec![("embedding", vector(&wrong_embedding))];

    let result = node(&mut storage, "Document", list);
    assert!(result.is_err());
    assert_eq!(storage.node_count(), 0);
}

#[test]
fn test_find_similar() {
    let mut storage = CurrentStorage::new();

    let config = HnswConfig::new(4, DistanceMetric::Cosine).with_capacity(100);
    storage.enable_vector_index("embedding", config).unwrap();

    let v1 = vec![1.0f32, 0.0, 0.0, 0.0];
    let v2 = vec![0.9f32, 0.1, 0.0, 0.0];
    let v3 = vec![0.0f32, 1.0, 0.0, 0.0];

    let node1 = node(&mut storage, "Doc", vec![("embedding", vector(&v1))]).unwrap();
    let node2 = node(&mut storage, "Doc", vec![("embedding", vector(&v2))]).unwrap();
    let _node3 = node(&mut storage, "Doc", vec![("embedding", vector(&v3))]).unwrap();

    let results = pairs(storage.find_similar(node1, 2, nearest)).unwrap();
    assert_eq!(results.len(), 2);
    assert!(results.iter().all(|(id, _)| *id != node1));
    assert_eq!(results[0].0, node2);
}
#[test]
fn test_delete_node_removes_from_vector_index() {
    let mut storage = CurrentStorage::new();
    let config = HnswConfig::new(4, DistanceMetric::Cosine).with_capacity(100);
    storage.enable_vector_index("embedding", config).unwrap();
    let v1 = vec![1.0f32, 0.0, 0.0, 0.0];
    let v2 = vec![0.0f32, 1.0, 0.0, 0.0];

    let node1 = node(&mut storage, "Doc", vec![("embedding", vector(&v1))]).unwrap();

    let node2 = node(&mut storage, "Doc", vec![("embedding", vector(&v2))]).unwrap();
    let results_before = pairs(storage.find_similar_by_embedding(&bits(&v1), 10, nearest)).unwrap();
    assert_eq!(
        results_before.len(),
        2,
        "Should find 2 nodes before deletion"
    );
    storage.delete_node(node1).unwrap();
    let results_after = pairs(storage.find_similar_by_embedding(&bits(&v1), 10, nearest)).unwrap();
    assert_eq!(
        results_after.len(),
        1,
        "Should find only 1 node after deletion"
    );
    assert_eq!(results_after[0].0, node2, "Remaining node should be node2");
    let similar_to_node2 = pairs(storage.find_similar(node2, 10, nearest)).unwrap();
    assert!(
        !similar_to_node2.iter().any(|(id, _)| *id == node1),
        "Deleted node should not appear in similarity search"
    );
}

#[test]
fn test_find_similar_with_label() {
    let mut storage = CurrentStorage::new();

    let config = HnswConfig::new(4, DistanceMetric::Cosine).with_capacity(100);
    storage.enable_vector_index("embedding", config).unwrap();

    let v1 = vec![1.0f32, 0.0, 0.0, 0.0];
    let v2 = vec![0.9f32, 0.1, 0.0, 0.0];
    let v3 = vec![0.8f32, 0.2, 0.0, 0.0];

    let node1 = node(&mut storage, "Person", vec![("embedding", vector(&v1))]).unwrap();
    let node2 = node(&mut storage, "Person", vec![("embedding", vector(&v2))]).unwrap();
    let _node3 = node(&mut storage, "Document", vec![("embedding", vector(&v3))]).unwrap();

    let results = pairs(storage.find_similar_with_label(node1, "Person", 2, nearest, triple)).unwrap();
    assert_eq!(results.len(), 1);
    assert_eq!(results[0].0, node2);
}

#[test]
fn test_find_similar_index_not_enabled() {
    let mut storage = CurrentStorage::new();
    let v1 = vec![1.0f32, 0.0, 0.0, 0.0];
    let node1 = node(&mut storage, "Doc", vec![("embedding", vector(&v1))]).unwrap();

    let result = pairs(storage.find_similar(node1, 2, nearest));
    assert!(result.is_err());
}

#[test]
fn test_find_similar_node_not_found() {
    let mut storage = CurrentStorage::new();

    let config = HnswConfig::new(4, DistanceMetric::Cosine).with_capacity(100);
    storage.enable_vector_index("embedding", config).unwrap();

    let result = pairs(storage.find_similar(NodeId::new(999).unwrap(), 2, nearest));
    assert!(result.is_err());
}

#[test]
fn test_find_similar_property_not_found() {
    let mut storage = CurrentStorage::new();

    let config = HnswConfig::new(4, DistanceMetric::Cosine).with_capacity(100);
    storage.enable_vector_index("embedding", config).unwrap();

    let node1 = node(&mut storage, "Doc", vec![("name", text("test"))]).unwrap();
    let result = pairs(storage.find_similar(node1, 2, nearest));
    assert!(result.is_err());
}

#[test]
fn test_update_node_updates_index() {
    let mut storage = CurrentStorage::new();

    let config = HnswConfig::new(4, DistanceMetric::Cosine).with_capacity(100);
    storage.enable_vector_index("embedding", config).unwrap();

    let v1 = vec![1.0f32, 0.0, 0.0, 0.0];
    let v2 = vec![0.0f32, 1.0, 0.0, 0.0];

    let node1 = node(&mut storage, "Doc", vec![("embedding", vector(&v1))]).unwrap();
    let node2 = node(&mut storage, "Doc", vec![("embedding", vector(&v2))]).unwrap();
    let v1_updated = vec![0.1f32, 0.9, 0.0, 0.0];
    let mut node1_obj = storage.get_node(node1).unwrap();
    node1_obj.properties = props(&mut storage, vec![("embedding", vector(&v1_updated))]);
    storage.update_node_direct(node1_obj, HybridTimestamp::from_micros(2000)).unwrap();

    let results = pairs(storage.find_similar(node2, 1, nearest)).unwrap();
    assert_eq!(results.len(), 1);
    assert_eq!(results[0].0, node1);
}

#[test]
fn test_delete_node_removes_from_index() {
    let mut storage = CurrentStorage::new();

    let config = HnswConfig::new(4, DistanceMetric::Cosine).with_capacity(100);
    storage.enable_vector_index("embedding", config).unwrap();

    let v1 = vec![1.0f32, 0.0, 0.0, 0.0];
    let v2 = vec![0.9f32, 0.1, 0.0, 0.0];

    let node1 = node(&mut storage, "Doc", vec![("embedding", vector(&v1))]).unwrap();
    let node2 = node(&mut storage, "Doc", vec![("embedding", vector(&v2))]).unwrap();

    storage.delete_node_direct(node2, HybridTimestamp::from_micros(3000)).unwrap();

    let results = pairs(storage.find_similar(node1, 2, nearest)).unwrap();
    assert_eq!(results.len(), 0);
}

#[test]
fn test_create_node_without_vector_property() {
    let mut storage = CurrentStorage::new();

    let config = HnswConfig::new(4, DistanceMetric::Cosine).with_capacity(100);
    storage.enable_vector_index("embedding", config).unwrap();
    let node1 = node(&mut storage, "Doc", vec![("name", text("test"))]).unwrap();
    assert_eq!(storage.node_count(), 1);
    let found = storage.get_node(node1).unwrap();
    assert_eq!(
        as_str(&storage, &found.properties, "name"),
        Some("test")
    );
}
#[test]
fn test_delete_node_with_immutable_reference() {
    let mut storage = CurrentStorage::new();
    let node_id = node(&mut storage, "Person", vec![]).unwrap();

    assert_eq!(storage.node_count(), 1);
    let deleted = storage.delete_node(node_id).unwrap();
    assert_eq!(deleted.id, node_id);
    assert_eq!(storage.node_count(), 0);
}
#[test]
fn test_delete_edge_with_immutable_reference() {
    let mut storage = CurrentStorage::new();
    let n0 = node(&mut storage, "Person", vec![]).unwrap();
    let n1 = node(&mut storage, "Person", vec![]).unwrap();

    let edge_id = edge(&mut storage, n0, n1, "KNOWS", vec![]).unwrap();

    assert_eq!(storage.edge_count(), 1);
    let deleted = storage.delete_edge(edge_id).unwrap();
    assert_eq!(deleted.id, edge_id);
    assert_eq!(storage.edge_count(), 0);
}
#[test]
fn test_delete_operations_in_shared_context() {
    let mut storage = CurrentStorage::new();
    let node1 = node(&mut storage, "Person", vec![]).unwrap();
    let node2 = node(&mut storage, "Person", vec![]).unwrap();
    let edge_id = edge(&mut storage, node1, node2, "KNOWS", vec![]).unwrap();

    assert_eq!(storage.node_count(), 2);
    assert_eq!(storage.edge_count(), 1);
    fn delete_data(storage: &mut CurrentStorage, node_id: NodeId, edge_id: EdgeId) {
        storage.delete_edge(edge_id).unwrap();
        storage.delete_node(node_id).unwrap();
    }
    delete_data(&mut storage, node1, edge_id);

    assert_eq!(storage.node_count(), 1);
    assert_eq!(storage.edge_count(), 0);
}
#[test]
fn test_enable_multiple_vector_indexes_on_different_properties() {
    let mut storage = CurrentStorage::new();
    let config1 = HnswConfig::new(384, DistanceMetric::Cosine).with_capacity(100);
    storage
        .enable_vector_index("title_embedding", config1)
        .expect("Should enable first vector index");
    let config2 = HnswConfig::new(1536, DistanceMetric::Cosine).with_capacity(100);
    storage
        .enable_vector_index("body_embedding", config2)
        .expect("Should enable second vector index on different property");
    assert!(storage.has_vector_index("title_embedding"));
    assert!(storage.has_vector_index("body_embedding"));
}
#[test]
fn test_enable_same_property_twice_fails() {
    let mut storage = CurrentStorage::new();

    let config = HnswConfig::new(384, DistanceMetric::Cosine).with_capacity(100);
    storage
        .enable_vector_index("embedding", config.clone()).unwrap();
    let result = storage.enable_vector_index("embedding", config);
    assert!(
        result.is_err(),
        "Should not allow re-enabling same property"
    );
}
#[test]
fn test_find_similar_in_specific_property() {
    let mut storage = CurrentStorage::new();
    let config_title = HnswConfig::new(4, DistanceMetric::Cosine).with_capacity(100);
    let config_body = HnswConfig::new(8, DistanceMetric::Cosine).with_capacity(100);
    storage
        .enable_vector_index("title_embedding", config_title).unwrap();
    storage
        .enable_vector_index("body_embedding", config_body).unwrap();
    let title_vec1 = vec![1.0f32, 0.0, 0.0, 0.0];
    let title_vec2 = vec![0.9f32, 0.1, 0.0, 0.0];
    let body_vec1 = vec![1.0f32, 0.0, 0.0, 0.0, 0.0, 0.0, 0.0, 0.0];
    let body_vec2 = vec![0.0f32, 1.0, 0.0, 0.0, 0.0, 0.0, 0.0, 0.0];

    let node1 = node(&mut storage, "Document", vec![("title_embedding", vector(&title_vec1)), ("body_embedding", vector(&body_vec1))]).unwrap();
    let node2 = node(&mut storage, "Document", vec![("title_embedding", vector(&title_vec2)), ("body_embedding", vector(&body_vec2))]).unwrap();
    let title_results = pairs(storage.find_similar_in("title_embedding", node1, 1, nearest)).unwrap();
    assert_eq!(title_results.len(), 1);
    assert_eq!(title_results[0].0, node2);
    let body_results = pairs(storage.find_similar_in("body_embedding", node1, 1, nearest)).unwrap();
    assert_eq!(body_results.len(), 1);
    assert!(
        body_results[0].1 < 0.5,
        "Orthogonal vectors should have low similarity"
    );
}
#[test]
fn test_find_similar_in_property_not_indexed() {
    let mut storage = CurrentStorage::new();

    let config = HnswConfig::new(4, DistanceMetric::Cosine).with_capacity(100);
    storage
        .enable_vector_index("title_embedding", config).unwrap();

    let vec1 = vec![1.0f32, 0.0, 0.0, 0.0];
    let node1 = node(&mut storage, "Document", vec![("title_embedding", vector(&vec1))]).unwrap();
    let result = pairs(storage.find_similar_in("body_embedding", node1, 1, nearest));
    assert!(result.is_err(), "Should fail for non-indexed property");
}
#[test]
fn test_list_vector_indexes() {
    let mut storage = CurrentStorage::new();
    let indexes = storage.list_vector_indexes();
    assert!(indexes.is_empty());
    let config1 = HnswConfig::new(384, DistanceMetric::Cosine).with_capacity(100);
    let config2 = HnswConfig::new(1536, DistanceMetric::Euclidean).with_capacity(200);
    storage
        .enable_vector_index("title_embedding", config1).unwrap();
    storage
        .enable_vector_index("body_embedding", config2).unwrap();
    let indexes = storage.list_vector_indexes();
    assert_eq!(indexes.len(), 2);

    let names: Vec<&str> = indexes.iter().map(|i| i.property_name.as_str()).collect();
    assert!(names.contains(&"title_embedding"));
    assert!(names.contains(&"body_embedding"));
    let title_idx = indexes
        .iter()
        .find(|i| i.property_name == "title_embedding").unwrap();
    assert_eq!(title_idx.dimensions, 384);
    assert_eq!(title_idx.distance_metric, DistanceMetric::Cosine);

    let body_idx = indexes
        .iter()
        .find(|i| i.property_name == "body_embedding").unwrap();
    assert_eq!(body_idx.dimensions, 1536);
    assert_eq!(body_idx.distance_metric, DistanceMetric::Euclidean);
}
#[test]
fn test_has_vector_index_specific_property() {
    let mut storage = CurrentStorage::new();

    assert!(!storage.has_vector_index("title_embedding"));
    assert!(!storage.has_vector_index("body_embedding"));

    let config = HnswConfig::new(384, DistanceMetric::Cosine).with_capacity(100);
    storage
        .enable_vector_index("title_embedding", config).unwrap();

    assert!(storage.has_vector_index("title_embedding"));
    assert!(!storage.has_vector_index("body_embedding"));
}
#[test]
fn test_auto_index_multiple_properties_selective() {
    let mut storage = CurrentStorage::new();
    let config = HnswConfig::new(4, DistanceMetric::Cosine).with_capacity(100);
    storage
        .enable_vector_index("title_embedding", config).unwrap();
    let title_vec = vec![1.0f32, 0.0, 0.0, 0.0];
    let body_vec = vec![1.0f32, 0.0, 0.0, 0.0, 0.0, 0.0, 0.0, 0.0];
    let node1 = node(&mut storage, "Document", vec![("title_embedding", vector(&title_vec)), ("body_embedding", vector(&body_vec))]).unwrap();
    let title_vec2 = vec![0.9f32, 0.1, 0.0, 0.0];
    let _node2 = node(&mut storage, "Document", vec![("title_embedding", vector(&title_vec2))]).unwrap();
    let results = pairs(storage.find_similar_in("title_embedding", node1, 1, nearest)).unwrap();
    assert_eq!(results.len(), 1);
    let result = pairs(storage.find_similar_in("body_embedding", node1, 1, nearest));
    assert!(result.is_err());
}
#[test]
fn test_update_node_updates_correct_property_index() {
    let mut storage = CurrentStorage::new();
    let config = HnswConfig::new(4, DistanceMetric::Cosine).with_capacity(100);
    storage
        .enable_vector_index("title_embedding", config.clone()).unwrap();
    storage
        .enable_vector_index("body_embedding", config).unwrap();
    let v1 = vec![1.0f32, 0.0, 0.0, 0.0];
    let v2 = vec![0.0f32, 1.0, 0.0, 0.0];
    let node1 = node(&mut storage, "Document", vec![("title_embedding", vector(&v1)), ("body_embedding", vector(&v1))]).unwrap();
    let node2 = node(&mut storage, "Document", vec![("title_embedding", vector(&v2)), ("body_embedding", vector(&v2))]).unwrap();
    let v1_updated = vec![0.1f32, 0.9, 0.0, 0.0];
    let mut node1_obj = storage.get_node(node1).unwrap();
    node1_obj.properties = props(&mut storage, vec![("title_embedding", vector(&v1_updated)), ("body_embedding", vector(&v1))]);
    storage.update_node_direct(node1_obj, HybridTimestamp::from_micros(2000)).unwrap();
    let title_results = pairs(storage.find_similar_in("title_embedding", node2, 1, nearest)).unwrap();
    assert_eq!(title_results[0].0, node1);
    let body_results = pairs(storage.find_similar_in("body_embedding", node2, 1, nearest)).unwrap();
    assert!(body_results[0].1 < 0.5);
}
#[test]
fn test_delete_node_removes_from_all_indexes() {
    let mut storage = CurrentStorage::new();
    let config = HnswConfig::new(4, DistanceMetric::Cosine).with_capacity(100);
    storage
        .enable_vector_index("title_embedding", config.clone()).unwrap();
    storage
        .enable_vector_index("body_embedding", config).unwrap();

    let v1 = vec![1.0f32, 0.0, 0.0, 0.0];
    let v2 = vec![0.9f32, 0.1, 0.0, 0.0];

    let node1 = node(&mut storage, "Document", vec![("title_embedding", vector(&v1)), ("body_embedding", vector(&v1))]).unwrap();
    let node2 = node(&mut storage, "Document", vec![("title_embedding", vector(&v2)), ("body_embedding", vector(&v2))]).unwrap();
    storage.delete_node_direct(node2, HybridTimestamp::from_micros(3000)).unwrap();
    let title_results = pairs(storage.find_similar_in("title_embedding", node1, 2, nearest)).unwrap();
    assert_eq!(title_results.len(), 0);

    let body_results = pairs(storage.find_similar_in("body_embedding", node1, 2, nearest)).unwrap();
    assert_eq!(body_results.len(), 0);
}
#[test]
fn test_search_vectors_in_by_embedding() {
    let mut storage = CurrentStorage::new();

    let config = HnswConfig::new(4, DistanceMetric::Cosine).with_capacity(100);
    storage.enable_vector_index("embedding", config).unwrap();

    let v1 = vec![1.0f32, 0.0, 0.0, 0.0];
    let v2 = vec![0.9f32, 0.1, 0.0, 0.0];
    let v3 = vec![0.0f32, 1.0, 0.0, 0.0];

    let node1 = node(&mut storage, "Doc", vec![("embedding", vector(&v1))]).unwrap();
    let node2 = node(&mut storage, "Doc", vec![("embedding", vector(&v2))]).unwrap();
    let _node3 = node(&mut storage, "Doc", vec![("embedding", vector(&v3))]).unwrap();
    let query = vec![1.0f32, 0.0, 0.0, 0.0];
    let results = pairs(storage.search_vectors_in("embedding", &bits(&query), 2, nearest)).unwrap();
    assert_eq!(results.len(), 2);
    assert_eq!(results[0].0, node1);
    assert_eq!(results[1].0, node2);
}
#[test]
fn test_dimension_mismatch_specific_property() {
    let mut storage = CurrentStorage::new();
    let config_title = HnswConfig::new(4, DistanceMetric::Cosine).with_capacity(100);
    let config_body = HnswConfig::new(8, DistanceMetric::Cosine).with_capacity(100);
    storage
        .enable_vector_index("title_embedding", config_title).unwrap();
    storage
        .enable_vector_index("body_embedding", config_body).unwrap();
    let wrong_title = vec![1.0f32, 0.0, 0.0, 0.0, 0.0, 0.0, 0.0, 0.0];
    let correct_body = vec![1.0f32, 0.0, 0.0, 0.0, 0.0, 0.0, 0.0, 0.0];

    let result = node(&mut storage, "Document", vec![("title_embedding", vector(&wrong_title)), ("body_embedding", vector(&correct_body))]);

    assert!(result.is_err(), "Should fail on dimension mismatch");
}

#[test]
fn test_get_outgoing_edges_iter_basic() {
    let mut storage = CurrentStorage::new();
    let n0 = node(&mut storage, "Person", vec![]).unwrap();
    let n1 = node(&mut storage, "Person", vec![]).unwrap();
    let n2 = node(&mut storage, "Person", vec![]).unwrap();
    let e1 = edge(&mut storage, n0, n1, "KNOWS", vec![]).unwrap();
    let e2 = edge(&mut storage, n0, n2, "FOLLOWS", vec![]).unwrap();
    let vec_result: HashSet<EdgeId> =
        storage.get_outgoing_edges(n0).into_iter().collect();
    let iter_result: HashSet<EdgeId> =
        storage.get_outgoing_edges_iter(n0).collect().into_iter().collect();

    assert_eq!(vec_result, iter_result);
    assert!(iter_result.contains(&e1));
    assert!(iter_result.contains(&e2));
}

#[test]
fn test_get_outgoing_edges_iter_empty() {
    let mut storage = CurrentStorage::new();

    let n0 = node(&mut storage, "Person", vec![]).unwrap();
    let count = storage.get_outgoing_edges_iter(n0).collect().len();
    assert_eq!(count, 0);
}
#[test]
fn test_outgoing_edges_iter_matches_vec_across_layers() {
    let mut storage = CurrentStorage::new();
    let mut nodes: Vec<NodeId> = Vec::new();
    for _ in 0..32 {
        nodes.push(node(&mut storage, "Person", vec![]).unwrap());
    }
    for (i, n) in nodes.iter().enumerate().take(31) {
        for j in 1..=3 {
            let target = nodes[(i + j * 7) % 32];
            edge(&mut storage, *n, target, "KNOWS", vec![]).unwrap();
        }
    }
    let mut doomed: Vec<EdgeId> = Vec::new();
    for n in nodes.iter().take(31) {
        doomed.push(edge(&mut storage, *n, nodes[31], "KNOWS", vec![]).unwrap());
    }
    for e in doomed {
        storage.delete_edge(e).unwrap();
    }
    storage.compact_adjacency();
    let mut delta_edges = Vec::new();
    for (i, n) in nodes.iter().enumerate().take(16) {
        let target = nodes[(i * 5 + 1) % 32];
        delta_edges.push(
            edge(&mut storage, *n, target, "FOLLOWS", vec![]) .unwrap());
    }

    let check_node = |n: NodeId| {
        let mut from_iter: Vec<EdgeId> = storage.get_outgoing_edges_iter(n).collect();
        let mut from_vec = storage.get_outgoing_edges(n);
        from_iter.sort();
        from_vec.sort();
        assert_eq!(from_iter, from_vec, "iterator diverged from Vec path");
        let mut from_labeled: Vec<EdgeId> = storage
            .get_outgoing_edges_with_label_iter(n, "KNOWS")
            .collect();
        let mut vec_labeled = storage.get_outgoing_edges_with_label(n, "KNOWS");
        from_labeled.sort();
        vec_labeled.sort();
        assert_eq!(from_labeled, vec_labeled, "labeled iterator diverged");
    };

    for n in &nodes {
        check_node(*n);
    }
    for n in &nodes {
        let mut from_iter: Vec<EdgeId> = storage.get_incoming_edges_iter(*n).collect();
        let mut from_vec = storage.get_incoming_edges(*n);
        from_iter.sort();
        from_vec.sort();
        assert_eq!(from_iter, from_vec, "incoming iterator diverged");
    }
    let lonely = node(&mut storage, "Person", vec![]).unwrap();
    assert_eq!(storage.get_outgoing_edges_iter(lonely).collect().len(), 0);
    assert_eq!(storage.get_incoming_edges_iter(lonely).collect().len(), 0);
    assert!(storage.get_outgoing_edges_iter(lonely).next().is_none());
}

#[test]
fn test_get_incoming_edges_iter_basic() {
    let mut storage = CurrentStorage::new();
    let n0 = node(&mut storage, "Person", vec![]).unwrap();
    let n1 = node(&mut storage, "Person", vec![]).unwrap();
    let n2 = node(&mut storage, "Person", vec![]).unwrap();
    let e1 = edge(&mut storage, n0, n2, "KNOWS", vec![]).unwrap();
    let e2 = edge(&mut storage, n1, n2, "FOLLOWS", vec![]).unwrap();
    let vec_result: HashSet<EdgeId> =
        storage.get_incoming_edges(n2).into_iter().collect();
    let iter_result: HashSet<EdgeId> =
        storage.get_incoming_edges_iter(n2).collect().into_iter().collect();

    assert_eq!(vec_result, iter_result);
    assert!(iter_result.contains(&e1));
    assert!(iter_result.contains(&e2));
}

#[test]
fn test_get_incoming_edges_iter_empty() {
    let mut storage = CurrentStorage::new();

    let n0 = node(&mut storage, "Person", vec![]).unwrap();
    let count = storage.get_incoming_edges_iter(n0).collect().len();
    assert_eq!(count, 0);
}

#[test]
fn test_get_outgoing_edges_with_label_iter_basic() {
    let mut storage = CurrentStorage::new();

    let n0 = node(&mut storage, "Person", vec![]).unwrap();
    let n1 = node(&mut storage, "Person", vec![]).unwrap();
    let n2 = node(&mut storage, "Person", vec![]).unwrap();
    let e1 = edge(&mut storage, n0, n1, "KNOWS", vec![]).unwrap();
    let _e2 = edge(&mut storage, n0, n2, "FOLLOWS", vec![]).unwrap();
    let iter_result: Vec<EdgeId> = storage
        .get_outgoing_edges_with_label_iter(n0, "KNOWS")
        .collect();
    assert_eq!(iter_result.len(), 1);
    assert!(iter_result.contains(&e1));
    let vec_result = storage.get_outgoing_edges_with_label(n0, "KNOWS");
    assert_eq!(vec_result.len(), iter_result.len());
}

#[test]
fn test_get_outgoing_edges_with_label_iter_nonexistent_label() {
    let mut storage = CurrentStorage::new();

    let n0 = node(&mut storage, "Person", vec![]).unwrap();
    let n1 = node(&mut storage, "Person", vec![]).unwrap();

    edge(&mut storage, n0, n1, "KNOWS", vec![]).unwrap();
    let count = storage
        .get_outgoing_edges_with_label_iter(n0, "LOVES")
        .collect().len();
    assert_eq!(count, 0);
}

#[test]
fn test_get_incoming_edges_with_label_iter_basic() {
    let mut storage = CurrentStorage::new();

    let n0 = node(&mut storage, "Person", vec![]).unwrap();
    let n1 = node(&mut storage, "Person", vec![]).unwrap();
    let n2 = node(&mut storage, "Person", vec![]).unwrap();
    let e1 = edge(&mut storage, n0, n2, "KNOWS", vec![]).unwrap();
    let _e2 = edge(&mut storage, n1, n2, "FOLLOWS", vec![]).unwrap();
    let iter_result: Vec<EdgeId> = storage
        .get_incoming_edges_with_label_iter(n2, "KNOWS")
        .collect();
    assert_eq!(iter_result.len(), 1);
    assert!(iter_result.contains(&e1));
    let vec_result = storage.get_incoming_edges_with_label(n2, "KNOWS");
    assert_eq!(vec_result.len(), iter_result.len());
}

#[test]
fn test_get_incoming_edges_with_label_iter_nonexistent_label() {
    let mut storage = CurrentStorage::new();

    let n0 = node(&mut storage, "Person", vec![]).unwrap();
    let n1 = node(&mut storage, "Person", vec![]).unwrap();

    edge(&mut storage, n0, n1, "KNOWS", vec![]).unwrap();
    let count = storage
        .get_incoming_edges_with_label_iter(n1, "LOVES")
        .collect().len();
    assert_eq!(count, 0);
}

#[test]
fn test_iterator_can_be_partially_consumed() {
    let mut storage = CurrentStorage::new();

    let n0 = node(&mut storage, "Person", vec![]).unwrap();
    let n1 = node(&mut storage, "Person", vec![]).unwrap();
    let n2 = node(&mut storage, "Person", vec![]).unwrap();
    let n3 = node(&mut storage, "Person", vec![]).unwrap();
    edge(&mut storage, n0, n1, "KNOWS", vec![]).unwrap();
    edge(&mut storage, n0, n2, "KNOWS", vec![]).unwrap();
    edge(&mut storage, n0, n3, "KNOWS", vec![]).unwrap();
    let mut iter = storage.get_outgoing_edges_iter(n0);
    let first_two: Vec<EdgeId> = vec![iter.next().unwrap(), iter.next().unwrap()];
    assert_eq!(first_two.len(), 2);
    assert_ne!(first_two[0], first_two[1]);
}

#[test]
fn test_iterator_consistency_with_vec() {
    let mut storage = CurrentStorage::new();
    let mut nodes: Vec<NodeId> = Vec::new();
    for _ in 0..5 {
        nodes.push(node(&mut storage, "Person", vec![]).unwrap());
    }
    for i in 1..5 {
        edge(&mut storage, nodes[0], nodes[i], "KNOWS", vec![]).unwrap();
    }
    let vec_edges: HashSet<EdgeId> =
        storage.get_outgoing_edges(nodes[0]).into_iter().collect();
    let iter_edges: HashSet<EdgeId> =
        storage.get_outgoing_edges_iter(nodes[0]).collect().into_iter().collect();

    assert_eq!(vec_edges, iter_edges);
}

#[test]
fn test_legacy_default_property_selection_determinism() {
    let mut storage = CurrentStorage::new();

    let config = HnswConfig::new(4, DistanceMetric::Cosine).with_capacity(100);
    storage
        .enable_vector_index("z_prop", config.clone()).unwrap();
    storage
        .enable_vector_index("a_prop", config.clone()).unwrap();
    assert_eq!(
        storage.get_indexed_property_name(),
        Some("a_prop".to_string())
    );
    assert_eq!(
        storage.get_vector_property_name(),
        Some("a_prop".to_string())
    );
}

#[test]
fn test_legacy_vector_count() {
    let mut storage = CurrentStorage::new();
    assert_eq!(storage.vector_count(), 0);

    let config = HnswConfig::new(4, DistanceMetric::Cosine).with_capacity(100);
    storage.enable_vector_index("embedding", config).unwrap();
    assert_eq!(storage.vector_count(), 0);
    let v1 = vec![1.0f32, 0.0, 0.0, 0.0];
    let _node1 = node(&mut storage, "Doc", vec![("embedding", vector(&v1))]).unwrap();
    assert_eq!(storage.vector_count(), 1);
}

#[test]
fn test_traversal_targets_and_sources() {
    let mut storage = CurrentStorage::new();

    let n0 = node(&mut storage, "Person", vec![]).unwrap();
    let n1 = node(&mut storage, "Person", vec![]).unwrap();
    let n2 = node(&mut storage, "Person", vec![]).unwrap();

    edge(&mut storage, n0, n1, "KNOWS", vec![]).unwrap();
    edge(&mut storage, n0, n2, "FOLLOWS", vec![]).unwrap();
    edge(&mut storage, n1, n2, "KNOWS", vec![]).unwrap();
    let targets = storage.get_outgoing_targets(n0);
    assert_eq!(targets.len(), 2);
    assert!(targets.contains(&n1));
    assert!(targets.contains(&n2));
    let knows_targets = storage.get_outgoing_targets_with_label(n0, "KNOWS");
    assert_eq!(knows_targets.len(), 1);
    assert_eq!(knows_targets[0], n1);
    let sources = storage.get_incoming_sources(n2);
    assert_eq!(sources.len(), 2);
    assert!(sources.contains(&n0));
    assert!(sources.contains(&n1));
    let knows_sources = storage.get_incoming_sources_with_label(n2, "KNOWS");
    assert_eq!(knows_sources.len(), 1);
    assert_eq!(knows_sources[0], n1);
}

#[test]
fn test_iterators_with_delta_and_tombstones() {
    let mut storage = CurrentStorage::new();

    let n0 = node(&mut storage, "Person", vec![]).unwrap();
    let n1 = node(&mut storage, "Person", vec![]).unwrap();
    let n2 = node(&mut storage, "Person", vec![]).unwrap();
    let e1 = edge(&mut storage, n0, n1, "KNOWS", vec![]).unwrap();
    storage.compact_adjacency();
    let e2 = edge(&mut storage, n0, n2, "KNOWS", vec![]).unwrap();
    let edges: Vec<_> = storage.get_outgoing_edges_iter(n0).collect();
    assert_eq!(edges.len(), 2);
    assert!(edges.contains(&e1));
    assert!(edges.contains(&e2));
    storage.delete_edge(e1).unwrap();
    let edges: Vec<_> = storage.get_outgoing_edges_iter(n0).collect();
    assert_eq!(edges.len(), 1);
    assert_eq!(edges[0], e2);
    let edges: Vec<_> = storage
        .get_outgoing_edges_with_label_iter(n0, "KNOWS")
        .collect();
    assert_eq!(edges.len(), 1);
    assert_eq!(edges[0], e2);
    let mut iter = storage.get_outgoing_edges_iter(n0);
    assert_eq!(iter.len(), 1);
    let (min, max) = iter.size_hint();
    assert_eq!(min, 0);
    assert_eq!(max, Some(2));

    iter.next();
    assert_eq!(iter.len(), 0);
}

#[test]
fn test_find_nodes_by_property_basic_match() {
    let mut storage = CurrentStorage::new();

    let alice = node(&mut storage, "Person", vec![("name", text("Alice")), ("age", whole(30))]).unwrap();
    let bob = node(&mut storage, "Person", vec![("name", text("Bob")), ("age", whole(30))]).unwrap();
    let _charlie = node(&mut storage, "Person", vec![("name", text("Charlie")), ("age", whole(25))]).unwrap();
    let mut results = storage.find_nodes_by_property("Person", "age", &PropertyValue::Int(30));
    results.sort();
    let mut expected = vec![alice, bob];
    expected.sort();
    assert_eq!(results, expected);
    let results =
        storage.find_nodes_by_property("Person", "name", &text("Alice"));
    assert_eq!(results, vec![alice]);
}

#[test]
fn test_find_nodes_by_property_no_match() {
    let mut storage = CurrentStorage::new();

    node(&mut storage, "Person", vec![("name", text("Alice"))]).unwrap();

    let results =
        storage.find_nodes_by_property("Person", "name", &text("Nobody"));
    assert!(results.is_empty());
}

#[test]
fn test_find_nodes_by_property_unknown_label() {
    let mut storage = CurrentStorage::new();

    node(&mut storage, "Person", vec![("name", text("Alice"))]).unwrap();

    let results = storage.find_nodes_by_property(
        "UnknownLabel",
        "name",
        &text("Alice"),
    );
    assert!(results.is_empty());
}

#[test]
fn test_find_nodes_by_property_unknown_key() {
    let mut storage = CurrentStorage::new();

    node(&mut storage, "Person", vec![("name", text("Alice"))]).unwrap();

    let results = storage.find_nodes_by_property(
        "Person",
        "nonexistent_key",
        &text("Alice"),
    );
    assert!(results.is_empty());
}

#[test]
fn test_find_nodes_by_property_wrong_label() {
    let mut storage = CurrentStorage::new();

    node(&mut storage, "Person", vec![("name", text("Alice"))]).unwrap();
    node(&mut storage, "Company", vec![("name", text("Alice"))]).unwrap();
    let results =
        storage.find_nodes_by_property("Person", "name", &text("Alice"));
    assert_eq!(results.len(), 1);
}

#[test]
fn test_find_nodes_by_property_int_value() {
    let mut storage = CurrentStorage::new();

    let n1 = node(&mut storage, "Metric", vec![("count", whole(42))]).unwrap();

    let results = storage.find_nodes_by_property("Metric", "count", &PropertyValue::Int(42));
    assert_eq!(results, vec![n1]);
}

#[test]
fn test_find_nodes_by_property_bool_value() {
    let mut storage = CurrentStorage::new();

    let n1 = node(&mut storage, "Feature", vec![("active", boolean(true))]).unwrap();
    node(&mut storage, "Feature", vec![("active", boolean(false))]).unwrap();

    let results = storage.find_nodes_by_property("Feature", "active", &PropertyValue::Bool(true));
    assert_eq!(results, vec![n1]);
}

#[test]
fn test_find_nodes_by_property_float_value() {
    let mut storage = CurrentStorage::new();

    let n1 = node(&mut storage, "Sensor", vec![("temp", float(98.6))]).unwrap();
    node(&mut storage, "Sensor", vec![("temp", float(37.0))]).unwrap();

    let results = storage.find_nodes_by_property("Sensor", "temp", &float(98.6));
    assert_eq!(results, vec![n1]);
}

#[test]
fn test_get_node_ids_by_label() {
    let mut storage = CurrentStorage::new();

    let n1 = node(&mut storage, "Person", vec![("name", text("Alice"))]).unwrap();

    let n2 = node(&mut storage, "Person", vec![("name", text("Bob"))]).unwrap();

    let n3 = node(&mut storage, "Company", vec![("name", text("Aletheia"))]).unwrap();

    let mut person_ids = storage.get_node_ids_by_label("Person");
    person_ids.sort();
    let mut expected_person_ids = vec![n1, n2];
    expected_person_ids.sort();

    assert_eq!(person_ids.len(), 2);
    assert_eq!(person_ids, expected_person_ids);

    let company_ids = storage.get_node_ids_by_label("Company");
    assert_eq!(company_ids.len(), 1);
    assert_eq!(company_ids, vec![n3]);

    let nonexistent_ids = storage.get_node_ids_by_label("Nonexistent");
    assert_eq!(nonexistent_ids.len(), 0);
}

fn temporal_config() -> TemporalVectorConfig {
    TemporalVectorConfig {
        snapshot_strategy: SnapshotStrategy::TransactionInterval(1),
        retention_policy: RetentionPolicy::KeepN(100),
        max_snapshots: 100,
        full_snapshot_interval: 5,
        hnsw_config: Some(HnswConfig::new(4, DistanceMetric::Cosine)),
    }
}

fn direct(
    storage: &mut CurrentStorage,
    id: u64,
    version: u64,
    label: &str,
    list: Vec<Named>,
) -> Node {
    let label = storage.intern(label).unwrap();
    let map = props(storage, list);
    Node::new(NodeId::new(id).unwrap(), label, map, VersionId::new(version).unwrap())
}

fn at(micros: i64) -> HybridTimestamp {
    HybridTimestamp::from_micros(micros)
}

#[test]
fn test_find_similar_in_range_no_temporal_index_errors() {
    let storage = CurrentStorage::new();

    let range = TimeRange::new(at(1), at(1)).unwrap();

    let result =
        storage.find_similar_in_range(&bits(&[1.0f32, 0.0, 0.0, 0.0]), 10, range, nearest_then);
    assert!(result.is_err());
}

#[test]
fn test_find_similar_in_range_uses_alphabetical_default() {
    let mut storage = CurrentStorage::new();

    for property in ["z_embedding", "a_embedding"] {
        storage.enable_temporal_vector_index(property, temporal_config()).unwrap();
    }

    let emb = vec![1.0f32, 0.0, 0.0, 0.0];
    let node_id = NodeId::new(1).unwrap();
    let doc = direct(&mut storage, 1, 1, "Doc", vec![("a_embedding", vector(&emb))]);
    storage.insert_node_direct(doc, at(20)).unwrap();
    storage.on_temporal_vector_transaction().unwrap();

    let range = TimeRange::new(at(10), at(30)).unwrap();
    let results = storage
        .find_similar_in_range(&bits(&emb), 10, range, nearest_then)
        .expect("property-less range query should use the alphabetically-first index");
    assert!(results
        .iter()
        .any(|(_, hits)| hits.iter().any(|c| c.node == node_id)));
}

#[test]
fn gate_starts_disarmed_and_arms_on_demand() {
    let mut storage = CurrentStorage::new();
    assert!(!storage.apply_gate_armed());
    storage.arm_apply_gate();
    assert!(storage.apply_gate_armed());
    storage.disarm_apply_gate();
    assert!(!storage.apply_gate_armed());
}

#[test]
fn test_vector_search_index_not_found() {
    let storage = CurrentStorage::new();

    let node_id = NodeId::new(1).unwrap();
    let result = storage.find_similar(node_id, 5, nearest);
    assert!(result.is_err());
    assert!(message(result.unwrap_err()).contains("Vector index is not enabled"));

    let result = storage.find_similar_in("embedding", node_id, 5, nearest);
    assert!(result.is_err());
    assert!(message(result.unwrap_err()).contains("Vector index not found"));
}

#[test]
fn replay_remove_vector_deindexes_current_but_preserves_history() {
    let mut storage = CurrentStorage::new();
    storage.enable_temporal_vector_index("embedding", temporal_config()).unwrap();

    let target_id = NodeId::new(1).unwrap();
    let created = direct(
        &mut storage,
        1,
        1,
        "Doc",
        vec![("name", text("target")), ("embedding", vector(&[1.0f32, 0.0, 0.0, 0.0]))],
    );
    storage.insert_node_direct(created, at(100)).unwrap();
    storage.on_temporal_vector_transaction().unwrap();

    let t_before_remove = at(200);

    let removed = direct(&mut storage, 1, 2, "Doc", vec![("name", text("target"))]);
    storage.update_node_direct(removed, at(300)).unwrap();
    storage.on_temporal_vector_transaction().unwrap();

    let t_after_remove = at(400);

    let query = bits(&[1.0f32, 0.0, 0.0, 0.0]);

    let historical =
        pairs(storage.find_similar_as_of(&query, 10, t_before_remove, nearest_then)).unwrap();
    assert!(
        historical.iter().any(|(id, _)| *id == target_id),
        "replay must preserve the pre-removal snapshot, got {historical:?}"
    );

    let current =
        pairs(storage.find_similar_as_of(&query, 10, t_after_remove, nearest_then)).unwrap();
    assert!(!current.iter().any(|(id, _)| *id == target_id));
}

#[test]
fn replay_overwrite_vector_reconstructs_corrected_state() {
    let mut storage = CurrentStorage::new();
    storage.enable_temporal_vector_index("embedding", temporal_config()).unwrap();

    let target_id = NodeId::new(1).unwrap();
    let created = direct(
        &mut storage,
        1,
        1,
        "Doc",
        vec![("embedding", vector(&[1.0f32, 0.0, 0.0, 0.0]))],
    );
    storage.insert_node_direct(created, at(100)).unwrap();
    storage.on_temporal_vector_transaction().unwrap();

    let t_before = at(200);

    let overwritten = direct(
        &mut storage,
        1,
        2,
        "Doc",
        vec![("embedding", vector(&[0.0f32, 1.0, 0.0, 0.0]))],
    );
    storage.update_node_direct(overwritten, at(300)).unwrap();
    storage.on_temporal_vector_transaction().unwrap();

    let t_after = at(400);
    let old_query = bits(&[1.0f32, 0.0, 0.0, 0.0]);
    let new_query = bits(&[0.0f32, 1.0, 0.0, 0.0]);

    let before = pairs(storage.find_similar_as_of(&old_query, 10, t_before, nearest_then)).unwrap();
    assert!(
        before.iter().find(|(id, _)| *id == target_id).is_some_and(|(_, s)| *s > 0.99),
        "replay must reconstruct the old embedding as-of before, got {before:?}"
    );

    let after_new =
        pairs(storage.find_similar_as_of(&new_query, 10, t_after, nearest_then)).unwrap();
    assert!(
        after_new.iter().find(|(id, _)| *id == target_id).is_some_and(|(_, s)| *s > 0.99),
        "replay must reconstruct the new embedding as-of after, got {after_new:?}"
    );
    let after_old =
        pairs(storage.find_similar_as_of(&old_query, 10, t_after, nearest_then)).unwrap();
    assert!(
        after_old.iter().find(|(id, _)| *id == target_id).is_none_or(|(_, s)| *s < 0.1),
        "replay must drop the old embedding region after overwrite, got {after_old:?}"
    );
}

#[test]
fn update_create_path_indexes_current_state_hnsw() {
    let mut storage = CurrentStorage::new();
    storage
        .enable_vector_index("embedding", HnswConfig::new(4, DistanceMetric::Cosine)).unwrap();
    storage.enable_temporal_vector_index("embedding", temporal_config()).unwrap();

    let target_id = NodeId::new(1).unwrap();
    let target = direct(
        &mut storage,
        1,
        1,
        "Doc",
        vec![("name", text("target")), ("embedding", vector(&[1.0f32, 0.0, 0.0, 0.0]))],
    );
    storage.update_node_direct(target, at(100)).unwrap();

    let results = pairs(storage.find_similar_by_embedding(
        &bits(&[1.0f32, 0.0, 0.0, 0.0]),
        10,
        nearest,
    )).unwrap();
    assert!(
        results.iter().any(|(id, _)| *id == target_id),
        "create-through-update must index the current-state HNSW, got {results:?}"
    );
}

#[test]
fn rows_bring_lists_back() {
    let mut storage = CurrentStorage::new();
    let a = node(&mut storage, "Person", vec![]).unwrap();
    let b = node(&mut storage, "Person", vec![]).unwrap();
    let e1 = edge(&mut storage, a, b, "KNOWS", vec![]).unwrap();
    let e2 = edge(&mut storage, b, a, "KNOWS", vec![]).unwrap();
    let e3 = edge(&mut storage, a, a, "KNOWS", vec![]).unwrap();
    let (nodes, offsets, edges) = storage.export_outgoing_csr();
    assert_eq!(nodes, vec![a.0, b.0]);
    assert_eq!(offsets, vec![0, 2, 3]);
    assert_eq!(edges, vec![e1.0, e3.0, e2.0]);
    let (in_nodes, in_offsets, in_edges) = storage.export_incoming_csr();
    let pair = storage.export_csr_pair();
    assert_eq!(pair.incoming.edge_ids, in_edges);

    storage.import_csr(
        nodes,
        offsets,
        vec![e3.0, e1.0, e2.0],
        in_nodes,
        in_offsets,
        in_edges,
    );
    assert_eq!(storage.get_outgoing_edges(a), vec![e3, e1]);
    assert_eq!(storage.get_outgoing_edges(b), vec![e2]);
    assert!(storage.adjacency_stats().is_fully_compacted());

    storage.import_csr(vec![77], vec![0, 9], vec![1], vec![], vec![], vec![]);
    let mut back = storage.get_outgoing_edges(a);
    back.sort();
    assert_eq!(back, vec![e1, e3]);
    assert_eq!(storage.in_degree(a), 2);
}

#[test]
fn pages_have_no_gaps() {
    let mut storage = CurrentStorage::new();
    let mut all: Vec<NodeId> = Vec::new();
    for i in 0..7 {
        let label = if i % 2 == 0 { "Even" } else { "Odd" };
        all.push(node(&mut storage, label, vec![]).unwrap());
    }
    let first = storage.collect_node_id_page(None, 3, None);
    assert_eq!(first, all[0..3].to_vec());
    let second = storage.collect_node_id_page(Some(first[2].0), 3, None);
    assert_eq!(second, all[3..6].to_vec());
    let last = storage.collect_node_id_page(Some(second[2].0), 3, None);
    assert_eq!(last, all[6..7].to_vec());
    assert_eq!(storage.collect_node_id_page(None, 0, None), vec![]);

    let even = storage.interner.get_id("Even").unwrap();
    let (page, _) = storage.collect_node_id_page_counted(Some(all[0].0), 2, Some(even));
    assert_eq!(page, vec![all[2], all[4]]);
}

#[test]
fn indexed_properties_are_found_the_same() {
    let mut storage = CurrentStorage::new();
    let a = node(&mut storage, "Person", vec![("age", whole(3))]).unwrap();
    let b = node(&mut storage, "Person", vec![("age", whole(4))]).unwrap();
    node(&mut storage, "Robot", vec![("age", whole(3))]).unwrap();
    assert_eq!(storage.find_nodes_by_property("Person", "age", &whole(3)), vec![a]);
    assert!(!storage.has_property_index("Person", "age"));
    storage.enable_property_index("Person", "age").unwrap();
    assert!(storage.has_property_index("Person", "age"));
    assert_eq!(storage.list_property_indexes().len(), 1);
    assert_eq!(storage.find_nodes_by_property("Person", "age", &whole(3)), vec![a]);
    let c = node(&mut storage, "Person", vec![("age", whole(4))]).unwrap();
    let mut found = storage.find_nodes_by_property("Person", "age", &whole(4));
    found.sort();
    assert_eq!(found, vec![b, c]);
    storage.delete_node(b).unwrap();
    assert_eq!(storage.find_nodes_by_property("Person", "age", &whole(4)), vec![c]);
    storage.drop_property_index("Person", "age").unwrap();
    assert!(storage.drop_property_index("Person", "age").is_err());
    assert_eq!(storage.find_nodes_by_property("Person", "age", &whole(4)), vec![c]);
}

#[test]
fn a_refused_node_changes_nothing() {
    let mut storage = CurrentStorage::new();
    let config = HnswConfig::new(2, DistanceMetric::Cosine);
    storage.enable_vector_index("embedding", config).unwrap();
    let a = node(&mut storage, "Doc", vec![("embedding", vector(&[1.0, 0.0]))]).unwrap();
    let refused = node(&mut storage, "Doc", vec![("embedding", vector(&[1.0]))]);
    assert!(matches!(
        refused,
        Err(Error::Vector(VectorError::DimensionMismatch { expected: 2, actual: 1 }))
    ));
    assert_eq!(storage.get_all_node_ids(), vec![a]);
    assert_eq!(storage.vector_count(), 1);
}

#[test]
fn searches_give_at_most_what_is_wanted() {
    let mut storage = CurrentStorage::new();
    let config = HnswConfig::new(2, DistanceMetric::Cosine);
    storage.enable_vector_index("embedding", config).unwrap();
    let mut ids: Vec<NodeId> = Vec::new();
    for i in 0..6 {
        let label = if i < 3 { "Doc" } else { "Page" };
        let v = vector(&[1.0, i as f32]);
        ids.push(node(&mut storage, label, vec![("embedding", v)]).unwrap());
    }
    let found = storage.find_similar(ids[0], 2, nearest).unwrap();
    assert_eq!(found.iter().map(|c| c.node).collect::<Vec<_>>(), vec![ids[1], ids[2]]);

    let query = bits(&[1.0, 0.0]);
    let pages = storage
        .find_similar_by_embedding_with_label(&query, "Page", 2, nearest, triple)
        .unwrap();
    assert_eq!(pages.iter().map(|c| c.node).collect::<Vec<_>>(), vec![ids[3], ids[4]]);
    assert_eq!(storage.get_filter_stats("Page"), Some((1, 6, 3)));
    assert_eq!(storage.get_filter_stats("Doc"), None);

    let in_place = storage
        .find_similar_by_embedding_in_with_label("embedding", &query, "Doc", 1, nearest, triple)
        .unwrap();
    assert_eq!(in_place[0].node, ids[0]);

    let odd = |id: &NodeId| id.0 % 2 == ids[1].0 % 2;
    let found = storage
        .find_similar_with_predicate("embedding", &query, 2, odd, nearest)
        .unwrap();
    assert_eq!(found.iter().map(|c| c.node).collect::<Vec<_>>(), vec![ids[1], ids[3]]);
    let found = storage.find_similar_by_node_with_predicate(ids[1], 1, odd, nearest).unwrap();
    assert_eq!(found[0].node, ids[3]);
    let found = storage.find_similar_by_embedding_with_predicate(&query, 1, odd, nearest).unwrap();
    assert_eq!(found[0].node, ids[1]);
    assert!(matches!(
        storage.find_similar_by_embedding(&bits(&[1.0]), 1, nearest),
        Err(Error::Vector(VectorError::DimensionMismatch { expected: 2, actual: 1 }))
    ));
}

#[test]
fn a_failing_search_is_not_counted() {
    let mut storage = CurrentStorage::new();
    let config = HnswConfig::new(1, DistanceMetric::Cosine);
    storage.enable_vector_index("embedding", config).unwrap();
    let fails = |_: &VectorIndex, _: &Vec<u32>, _: usize| {
        Err(Error::FailedPrecondition("down".to_string()))
    };
    let found = storage.find_similar_by_embedding_with_label(
        &bits(&[1.0]),
        "Doc",
        1,
        fails,
        triple,
    );
    assert!(matches!(found, Err(Error::FailedPrecondition(text)) if text == "down"));
    assert_eq!(storage.get_filter_stats("Doc"), Some((0, 0, 0)));
}

#[test]
fn drift_is_measured_over_time() {
    let mut storage = CurrentStorage::new();
    storage.enable_temporal_vector_index("embedding", temporal_config()).unwrap();
    for (version, t, v) in [(1, 100, [1.0f32, 0.0, 0.0, 0.0]), (2, 200, [0.0f32, 1.0, 0.0, 0.0])] {
        let doc = direct(&mut storage, 1, version, "Doc", vec![("embedding", vector(&v))]);
        storage.update_node_direct(doc, at(t)).unwrap();
        storage.on_temporal_vector_transaction().unwrap();
    }
    let range = TimeRange::new(at(0), at(1000)).unwrap();
    let history = storage.semantic_evolution_in("embedding", NodeId(1), range).unwrap();
    assert_eq!(history.len(), 2);
    assert_eq!(history[0], (at(100), bits(&[1.0, 0.0, 0.0, 0.0])));

    let reference = bits(&[1.0, 0.0, 0.0, 0.0]);
    let measure = |a: &Vec<u32>, b: &Vec<u32>| (1.0 - cosine(a, b)).to_bits();
    let drift = storage
        .track_drift_in("embedding", NodeId(1), &reference, range, measure)
        .unwrap();
    let values: Vec<f32> = drift.iter().map(|(_, d)| f32::from_bits(*d)).collect();
    assert_eq!(values, vec![0.0, 1.0]);

    let drifted = |h: &Vec<(HybridTimestamp, Vec<u32>)>| {
        let distance = 1.0 - cosine(&h[0].1, &h[h.len() - 1].1);
        if distance > 0.5 {
            Some(distance.to_bits())
        } else {
            None
        }
    };
    let found = storage.find_drift_in("embedding", range, drifted).unwrap();
    assert_eq!(found, vec![(NodeId(1), 1.0f32.to_bits())]);
    let early = TimeRange::new(at(0), at(150)).unwrap();
    assert_eq!(storage.find_drift_in("embedding", early, drifted).unwrap(), vec![]);
    assert!(storage.find_drift_in("other", range, drifted).is_err());
    assert!(storage
        .track_drift_in("embedding", NodeId(1), &bits(&[1.0]), range, measure)
        .is_err());
    assert_eq!(
        message(storage.semantic_evolution_in("other", NodeId(1), range).unwrap_err()),
        "No temporal vector index enabled for property 'other'. Call db.vector_index(\"other\")\
         .temporal(...).enable() first."
    );
}

#[test]
fn vector_properties_stay_bounded() {
    let mut storage = CurrentStorage::new();
    let config = HnswConfig::new(4, DistanceMetric::Cosine);
    for i in 0..DEFAULT_MAX_VECTOR_PROPERTIES {
        storage.enable_vector_index(&format!("p{i}"), config).unwrap();
    }
    assert!(storage.enable_vector_index("one more", config).is_err());
    assert_eq!(storage.list_vector_indexes().len(), DEFAULT_MAX_VECTOR_PROPERTIES);
    assert!(storage.has_vector_index("p3"));
    assert!(!storage.has_vector_index("p33"));
    assert_eq!(storage.get_hnsw_config_for("p3").unwrap().dimensions, 4);
    assert!(storage.get_hnsw_config_for("p33").is_none());
}

#[test]
fn namespaces_partition_the_graph() {
    let mut storage = CurrentStorage::new();
    let plain = node(&mut storage, "Doc", vec![]).unwrap();
    let mut map = PropertyMap::new();
    map.insert(InternedString(NAMESPACE_KEY), text("team"));
    let inside = storage.create_node("Doc", map).unwrap();
    let team = Namespace::Named("team".to_string());
    assert_eq!(storage.namespace_node_ids(&team), vec![inside]);
    assert_eq!(storage.namespace_node_ids(&Namespace::Default), vec![plain]);
    assert!(storage.node_in_namespace(inside, &team));
    assert!(!storage.node_in_namespace(plain, &team));
    assert_eq!(storage.namespace_node_count(&team), 1);
    assert_eq!(storage.namespace_edge_count(&team), 0);
    assert_eq!(storage.populated_namespaces().len(), 2);
}

#[test]
fn numbers_of_the_graph() {
    let mut storage = CurrentStorage::new();
    assert_eq!(storage.avg_out_degree().part, 0);
    let a = node(&mut storage, "Person", vec![]).unwrap();
    let b = node(&mut storage, "Person", vec![]).unwrap();
    node(&mut storage, "Robot", vec![]).unwrap();
    let e = edge(&mut storage, a, b, "KNOWS", vec![]).unwrap();
    edge(&mut storage, b, a, "KNOWS", vec![]).unwrap();
    let rate = storage.avg_out_degree();
    assert_eq!((rate.part, rate.whole), (2, 3));
    assert_eq!(storage.stats().node_count, 3);
    assert_eq!(storage.stats().edge_count, 2);
    let person = storage.interner.get_id("Person").unwrap();
    assert!(storage.label_counts().contains(&(person, 2)));
    assert_eq!(storage.get_edge_endpoints(e).unwrap(), (a, b));
    assert_eq!(storage.with_node(a, |n| n.id).unwrap(), a);
    assert!(storage.with_node(NodeId(999), |n| n.id).is_err());
    let snapshot = storage.create_snapshot(5);
    assert_eq!(snapshot.lsn, 5);
    assert_eq!((snapshot.nodes.len(), snapshot.edges.len()), (3, 2));
}

#[test]
fn the_frozen_view_needs_a_clean_index() {
    let mut storage = CurrentStorage::new();
    let a = node(&mut storage, "Person", vec![]).unwrap();
    let b = node(&mut storage, "Person", vec![]).unwrap();
    let e = edge(&mut storage, a, b, "KNOWS", vec![]).unwrap();
    assert!(storage.frozen_outgoing_view().is_none());
    storage.compact_adjacency();
    {
        let view = storage.frozen_outgoing_view().unwrap();
        assert_eq!(view.get_adjacency(a).len(), 1);
        assert_eq!(view.get_adjacency(b).len(), 0);
    }
    let mut iter = storage.get_outgoing_edges_iter(a);
    assert_eq!(iter.size_hint(), (1, Some(1)));
    assert_eq!(iter.next(), Some(e));
    assert_eq!(iter.len(), 0);
    storage.delete_edge(e).unwrap();
    assert!(storage.frozen_outgoing_view().is_none());
}

#[test]
fn edges_tell_their_ends() {
    let mut storage = CurrentStorage::new();
    let a = node(&mut storage, "Person", vec![]).unwrap();
    let b = node(&mut storage, "Robot", vec![]).unwrap();
    let e = edge(&mut storage, a, b, "KNOWS", vec![]).unwrap();
    assert_eq!(storage.get_edge_source(e).unwrap(), a);
    assert_eq!(storage.get_edge_target(e).unwrap(), b);
    let knows = storage.interner.get_id("KNOWS").unwrap();
    assert_eq!(storage.get_edge_label(e).unwrap(), knows);
    let robot = storage.interner.get_id("Robot").unwrap();
    assert_eq!(storage.get_node_label(b).unwrap(), robot);
    assert!(storage.node_has_label(b.0, robot));
    assert!(!storage.node_has_label(a.0, robot));
    assert!(storage.contains_node(a.0));
    assert!(!storage.contains_node(999));
    assert_eq!(storage.get_all_edge_ids(), vec![e]);
    assert_eq!(storage.scan_nodes_by_label("Robot"), vec![b]);
    assert_eq!(storage.get_nodes_by_label("Robot").len(), 1);
    assert!(storage.get_max_node_id() > a.0);
    assert!(storage.get_max_node_id() > b.0);
    assert!(storage.get_edge_source(EdgeId(999)).is_err());
}

#[test]
fn edges_can_be_put_in_directly() {
    let mut storage = CurrentStorage::new();
    let a = node(&mut storage, "Person", vec![]).unwrap();
    let b = node(&mut storage, "Person", vec![]).unwrap();
    let e = edge(&mut storage, a, b, "KNOWS", vec![]).unwrap();
    let copy = storage.get_edge(e).unwrap();
    storage.delete_edge_direct(e).unwrap();
    assert_eq!(storage.edge_count(), 0);
    storage.insert_edge_direct(copy).unwrap();
    assert_eq!(storage.get_outgoing_edges(a), vec![e]);
    storage.set_edge_commit_timestamp(e, at(7));
    assert_eq!(storage.get_edge(e).unwrap().metadata.commit_timestamp, Some(at(7)));
    storage.set_node_commit_timestamp(a, at(8));
    assert_eq!(storage.get_node(a).unwrap().metadata.commit_timestamp, Some(at(8)));
    storage.rebuild_adjacency();
    assert!(storage.frozen_incoming_view().is_some());
}

#[test]
fn numbers_go_on_where_they_are_told() {
    let mut storage = CurrentStorage::new();
    storage.init_node_id_generator(50);
    storage.init_edge_id_generator(60);
    storage.init_version_id_generator(70);
    let a = node(&mut storage, "Person", vec![]).unwrap();
    assert_eq!(a, NodeId(50));
    let e = edge(&mut storage, a, a, "KNOWS", vec![]).unwrap();
    assert_eq!(e, EdgeId(60));
    assert_eq!(storage.get_node(a).unwrap().current_version, VersionId(70));
    storage.ensure_version_id_generator_at_least(90);
    assert_eq!(storage.get_version_id_generator_current(), 90);
    storage.ensure_version_id_generator_at_least(10);
    assert_eq!(storage.get_version_id_generator_current(), 90);
}

#[test]
fn temporal_indexes_are_listed() {
    let mut storage = CurrentStorage::new();
    assert!(!storage.is_temporal_vector_index_enabled());
    storage.enable_temporal_vector_index("embedding", temporal_config()).unwrap();
    assert!(storage.enable_temporal_vector_index("embedding", temporal_config()).is_err());
    assert!(storage.is_temporal_vector_index_enabled());
    assert!(storage.is_temporal_vector_index_enabled_for("embedding"));
    assert!(!storage.is_temporal_vector_index_enabled_for("other"));
    assert_eq!(storage.list_temporal_vector_indexes(), vec!["embedding".to_string()]);

    let config = HnswConfig::new(4, DistanceMetric::Cosine);
    storage.register_vector_index("embedding", VectorIndex::new(config));
    assert!(storage.has_vector_index("embedding"));
    let team = Namespace::Named("team".to_string());
    assert_eq!(storage.namespace_edge_ids(&team), vec![]);
    assert!(!storage.edge_in_namespace(EdgeId(1), &team));
}

#[test]
fn every_node_and_edge_is_visited_once() {
    let mut storage = CurrentStorage::new();
    let a = node(&mut storage, "Person", vec![]).unwrap();
    let b = node(&mut storage, "Person", vec![]).unwrap();
    let e = edge(&mut storage, a, b, "KNOWS", vec![]).unwrap();
    assert_eq!(storage.visit_nodes(0u64, |sum, n| sum + n.id.0), a.0 + b.0);
    assert_eq!(storage.visit_nodes(0usize, |count, _| count + 1), 2);
    let seen = storage.visit_edges(Vec::new(), |mut list, edge| {
        list.push((edge.id, edge.source, edge.target));
        list
    });
    assert_eq!(seen, vec![(e, a, b)]);
    assert_eq!(CurrentStorage::new().visit_nodes(7, |_, _| 0), 7);
}

#[test]
fn namespaces_come_in_order() {
    let mut storage = CurrentStorage::new();
    for name in ["team", "Zoo", "tea"] {
        let mut map = PropertyMap::new();
        map.insert(InternedString(NAMESPACE_KEY), text(name));
        storage.create_node("Doc", map).unwrap();
    }
    let mut odd = PropertyMap::new();
    odd.insert(InternedString(NAMESPACE_KEY), whole(4));
    storage.create_node("Doc", odd).unwrap();
    node(&mut storage, "Doc", vec![]).unwrap();
    let names: Vec<String> = storage
        .populated_namespaces()
        .iter()
        .map(|n| match n {
            Namespace::Default => "(default)".to_string(),
            Namespace::Named(name) => name.clone(),
            Namespace::Unresolved => "(unresolved)".to_string(),
        })
        .collect();
    let named: Vec<&String> = names.iter().filter(|n| !n.starts_with('(')).collect();
    assert_eq!(named, vec!["Zoo", "tea", "team"]);
    assert_eq!(names[0], "(default)");
}

#[test]
fn namespaces_are_told_by_their_interned_names() {
    let mut storage = CurrentStorage::new();
    let team = Namespace::Named("team".to_string());
    let mut map = PropertyMap::new();
    map.insert(InternedString(NAMESPACE_KEY), text("team"));
    let inside = storage.create_node("Doc", map).unwrap();
    let plain = node(&mut storage, "Doc", vec![]).unwrap();
    let link = edge(&mut storage, inside, plain, "LINKS", vec![]).unwrap();
    let id = storage.intern_namespace(&team).unwrap();
    assert!(storage.node_in_namespace_id(inside, id));
    assert!(!storage.node_in_namespace_id(plain, id));
    assert!(storage.node_in_namespace_id(plain, NamespaceId::Default));
    assert!(storage.edge_in_namespace_id(link, NamespaceId::Default));
    assert!(!storage.edge_in_namespace_id(link, id));
    let nobody = NamespaceId::Named(InternedString(999_999));
    assert!(!storage.node_in_namespace_id(inside, nobody));
    assert!(!storage.node_in_namespace_id(NodeId(77), NamespaceId::Default));
}

fn put(storage: &mut CurrentStorage, id: u64, emb: &[f32], micros: i64) {
    let doc = direct(storage, id, 1, "Doc", vec![("embedding", vector(emb))]);
    storage.update_node_direct(doc, at(micros)).unwrap();
}

fn seen_as_of(storage: &CurrentStorage, micros: i64) -> Result<Vec<u64>, Error> {
    let query = bits(&[1.0f32, 0.0, 0.0, 0.0]);
    let mut ids: Vec<u64> = storage
        .find_similar_as_of(&query, 10, at(micros), nearest_then)?
        .iter()
        .map(|c| c.node.0)
        .collect();
    ids.sort();
    Ok(ids)
}

const EMB: [f32; 4] = [1.0, 0.0, 0.0, 0.0];

#[test]
fn as_of_queries_need_a_snapshot() {
    let mut storage = CurrentStorage::new();
    storage.enable_temporal_vector_index("embedding", temporal_config()).unwrap();
    put(&mut storage, 1, &EMB, 100);
    let none = "No snapshot exists at or before the timestamp";
    assert_eq!(message(seen_as_of(&storage, 500).unwrap_err()), none);
    storage.on_temporal_vector_transaction().unwrap();
    assert_eq!(message(seen_as_of(&storage, 99).unwrap_err()), none);
    assert_eq!(seen_as_of(&storage, 100).unwrap(), vec![1]);
    assert_eq!(seen_as_of(&storage, 500).unwrap(), vec![1]);
}

#[test]
fn as_of_queries_are_as_fresh_as_the_last_snapshot() {
    let mut storage = CurrentStorage::new();
    storage.enable_temporal_vector_index("embedding", temporal_config()).unwrap();
    put(&mut storage, 1, &EMB, 100);
    storage.on_temporal_vector_transaction().unwrap();
    put(&mut storage, 2, &EMB, 200);
    storage.delete_node_direct(NodeId(1), at(250)).unwrap();
    assert_eq!(seen_as_of(&storage, 900).unwrap(), vec![1]);
    storage.on_temporal_vector_transaction().unwrap();
    assert_eq!(seen_as_of(&storage, 900).unwrap(), vec![2]);
    assert_eq!(seen_as_of(&storage, 249).unwrap(), vec![1]);
    assert_eq!(seen_as_of(&storage, 250).unwrap(), vec![2]);
}

#[test]
fn snapshots_come_at_the_interval_and_go_at_the_limit() {
    let mut storage = CurrentStorage::new();
    let config = TemporalVectorConfig {
        snapshot_strategy: SnapshotStrategy::TransactionInterval(3),
        retention_policy: RetentionPolicy::KeepN(2),
        ..temporal_config()
    };
    storage.enable_temporal_vector_index("embedding", config).unwrap();
    let taken = |s: &CurrentStorage| -> Vec<i64> {
        let range = TimeRange::new(at(0), at(10_000)).unwrap();
        s.find_similar_in_range(&bits(&EMB), 10, range, nearest_then)
            .unwrap()
            .iter()
            .map(|(t, _)| t.wallclock)
            .collect()
    };
    for i in 1..=9i64 {
        put(&mut storage, i as u64, &EMB, 100 * i);
        storage.on_temporal_vector_transaction().unwrap();
        let expected: Vec<i64> = match i {
            1 | 2 => vec![],
            3..=5 => vec![300],
            6..=8 => vec![300, 600],
            _ => vec![600, 900],
        };
        assert_eq!(taken(&storage), expected);
    }
    assert!(seen_as_of(&storage, 500).is_err());
    assert_eq!(seen_as_of(&storage, 899).unwrap(), vec![1, 2, 3, 4, 5, 6]);
}

#[test]
fn the_smaller_limit_on_snapshots_holds() {
    let mut storage = CurrentStorage::new();
    let config = TemporalVectorConfig { max_snapshots: 1, ..temporal_config() };
    storage.enable_temporal_vector_index("embedding", config).unwrap();
    for i in 1..=3u64 {
        put(&mut storage, i, &EMB, 100 * i as i64);
        storage.on_temporal_vector_transaction().unwrap();
    }
    assert!(seen_as_of(&storage, 299).is_err());
    assert_eq!(seen_as_of(&storage, 300).unwrap(), vec![1, 2, 3]);
}

#[test]
fn every_snapshot_in_a_range_has_an_entry() {
    let mut storage = CurrentStorage::new();
    storage.enable_temporal_vector_index("embedding", temporal_config()).unwrap();
    put(&mut storage, 1, &EMB, 100);
    storage.on_temporal_vector_transaction().unwrap();
    put(&mut storage, 2, &[0.0, 1.0, 0.0, 0.0], 200);
    storage.on_temporal_vector_transaction().unwrap();
    let range = TimeRange::new(at(0), at(1000)).unwrap();
    let history = storage.semantic_evolution_in("embedding", NodeId(1), range).unwrap();
    assert_eq!(history, vec![(at(100), bits(&EMB)), (at(200), bits(&EMB))]);
    let other = storage.semantic_evolution_in("embedding", NodeId(2), range).unwrap();
    assert_eq!(other.len(), 1);
    let counts: Vec<usize> = storage
        .find_similar_in_range(&bits(&EMB), 10, range, nearest_then)
        .unwrap()
        .iter()
        .map(|(_, found)| found.len())
        .collect();
    assert_eq!(counts, vec![1, 2]);
}

#[test]
fn writes_keep_indexed_properties_and_bounds() {
    let mut storage = CurrentStorage::new();
    let a = node(&mut storage, "Person", vec![("name", text("Ada"))]).unwrap();
    let b = node(&mut storage, "Person", vec![("name", text("Grace"))]).unwrap();
    let before = storage.find_nodes_by_property("Person", "name", &text("Ada"));
    assert_eq!(before, vec![a]);
    let e = edge(&mut storage, a, b, "KNOWS", vec![]).unwrap();
    storage.delete_edge(e).unwrap();
    storage.compact_adjacency();
    assert_eq!(storage.find_nodes_by_property("Person", "name", &text("Ada")), vec![a]);
    assert_eq!(storage.find_nodes_by_property("Person", "name", &text("Grace")), vec![b]);
    let c = node(&mut storage, "Person", vec![]).unwrap();
    assert!(c > b && b > a);
}

#[test]
fn edges_are_listed_in_the_order_of_writing() {
    let mut storage = CurrentStorage::new();
    let hub = node(&mut storage, "Person", vec![]).unwrap();
    let mut edges = vec![];
    for _ in 0..4 {
        let other = node(&mut storage, "Person", vec![]).unwrap();
        edges.push(edge(&mut storage, hub, other, "KNOWS", vec![]).unwrap());
    }
    assert_eq!(storage.get_outgoing_edges(hub), edges);
    storage.compact_adjacency();
    storage.delete_edge(edges[1]).unwrap();
    assert_eq!(storage.get_outgoing_edges(hub), vec![edges[0], edges[2], edges[3]]);
    let again = storage.get_edge(edges[0]).unwrap();
    storage.update_edge_direct(again).unwrap();
    assert_eq!(storage.get_outgoing_edges(hub), vec![edges[2], edges[3], edges[0]]);
    storage.rebuild_adjacency();
    assert_eq!(storage.get_outgoing_edges(hub), vec![edges[2], edges[3], edges[0]]);
}

#[test]
fn indexing_a_property_notes_its_names() {
    let mut storage = CurrentStorage::new();
    let before = storage.interner.strings.len();
    storage.enable_property_index("Person", "email").unwrap();
    assert_eq!(storage.interner.strings.len(), before + 2);
    assert!(storage.enable_property_index("Person", "email").is_err());
    assert_eq!(storage.interner.strings.len(), before + 2);
    assert!(storage.has_property_index("Person", "email"));
    storage.drop_property_index("Person", "email").unwrap();
    assert!(!storage.has_property_index("Person", "email"));
}

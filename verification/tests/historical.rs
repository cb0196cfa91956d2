//! The version history: chains of anchors and deltas, reads in two times, and upkeep.

use aletheia_storage::error::{Error, StorageError, TemporalError};
use aletheia_storage::historical::adjacency_index::TemporalAdjacencyIndex;
use aletheia_storage::historical::chain::{ColdTier, MAX_RECONSTRUCTION_DEPTH};
use aletheia_storage::historical::changes::{ChangeFilter, Namespace, NAMESPACE_KEY};
use aletheia_storage::historical::hooks::{
    AnchorContext, AnchorHook, EventLog, HookCalls, HookReply, Observer, PreAnchorHook,
    StorageEvent, StorageObserver,
};
use aletheia_storage::historical::interval_index::TemporalIndex;
use aletheia_storage::historical::maintenance::{TemporalIndexes, TieredStorage};
use aletheia_storage::historical::metrics::CacheMetrics;
use aletheia_storage::historical::migrate::MigrationRun;
use aletheia_storage::historical::policy::{AnchorConfig, RetentionPolicy, SnapshotPolicy};
use aletheia_storage::historical::storage::{HistoricalConfig, HistoricalStorage};
use aletheia_storage::ids::{EdgeId, InternedString, NodeId, VersionId, MAX_VALID_ID};
use aletheia_storage::interning::StringInterner;
use aletheia_storage::property::{PropertyDelta, PropertyMap, PropertyValue};
use aletheia_storage::ratio::Ratio;
use aletheia_storage::temporal::{HybridTimestamp, TimeRange};
use aletheia_storage::version::{EntityKind, Provenance, VersionData};
use std::cell::RefCell;
use std::sync::Arc;

const LABEL: InternedString = InternedString(7);
const NAME: InternedString = InternedString(1);
const AGE: InternedString = InternedString(2);

fn at(micros: i64) -> HybridTimestamp {
    HybridTimestamp::from_micros(micros)
}

fn named(name: &str) -> PropertyMap {
    let mut map = PropertyMap::new();
    map.insert(NAME, PropertyValue::Text(name.to_string()));
    map
}

fn aged(name: &str, age: i64) -> PropertyMap {
    let mut map = named(name);
    map.insert(AGE, PropertyValue::Int(age));
    map
}

fn age_of(map: &PropertyMap) -> Option<i64> {
    match map.get(AGE) {
        Some(PropertyValue::Int(n)) => Some(*n),
        _ => None,
    }
}

fn name_of(map: &PropertyMap) -> Option<&str> {
    match map.get(NAME) {
        Some(PropertyValue::Text(s)) => Some(s.as_str()),
        _ => None,
    }
}

fn every(anchor_interval: u32) -> HistoricalStorage {
    HistoricalStorage::with_config(AnchorConfig { anchor_interval, max_delta_chain: 20 })
}

fn write(storage: &mut HistoricalStorage, node: u64, version: u64, t: i64, map: PropertyMap) {
    storage
        .add_node_version(NodeId(node), VersionId(version), at(t), at(t), LABEL, map, false)
        .unwrap();
}

fn write_edge(storage: &mut HistoricalStorage, edge: u64, version: u64, t: i64, deleted: bool) {
    storage
        .add_edge_version(
            EdgeId(edge),
            VersionId(version),
            at(t),
            at(t),
            LABEL,
            NodeId(1),
            NodeId(2),
            PropertyMap::new(),
            deleted,
        )
        .unwrap();
}

fn is_anchor(storage: &HistoricalStorage, version: u64) -> bool {
    matches!(
        *storage.get_node_version(VersionId(version)).unwrap().data,
        VersionData::Anchor { .. }
    )
}

#[test]
fn anchors_come_at_the_interval() {
    let mut storage = every(3);
    for i in 0..7u64 {
        write(&mut storage, 1, 10 + i, 100 + i as i64, aged("Ada", i as i64));
    }
    let anchors: Vec<u64> = (10..17).filter(|v| is_anchor(&storage, *v)).collect();
    assert_eq!(anchors, vec![10, 13, 16]);

    let stats = storage.stats();
    assert_eq!(stats.total_node_versions, 7);
    assert_eq!(stats.node_anchor_count, 3);
    assert_eq!(stats.node_delta_count, 4);
    assert_eq!(stats.unique_nodes, 1);
    assert_eq!(stats.compression_ratio(), Ratio { part: 3, whole: 7 });
    assert_eq!(storage.calculate_avg_delta_chain(), Ratio { part: 4, whole: 3 });
}

#[test]
fn average_chain_of_nothing_is_the_default() {
    let storage = HistoricalStorage::new();
    assert_eq!(storage.calculate_avg_delta_chain(), Ratio { part: 5, whole: 1 });
    assert_eq!(storage.stats().compression_ratio(), Ratio { part: 1, whole: 1 });
}

#[test]
fn every_version_reads_back() {
    let mut storage = every(4);
    for i in 0..9u64 {
        let map = if i % 2 == 0 { aged("Ada", i as i64) } else { named("Ada") };
        write(&mut storage, 1, i, 100 + i as i64, map);
    }
    storage.__test_clear_property_cache();
    for i in 0..9u64 {
        let map = storage.reconstruct_node_properties(VersionId(i)).unwrap();
        assert_eq!(name_of(&map), Some("Ada"));
        assert_eq!(age_of(&map), if i % 2 == 0 { Some(i as i64) } else { None });
    }
}

#[test]
fn caches_are_counted() {
    let mut storage = every(10);
    write(&mut storage, 1, 1, 100, aged("Ada", 1));
    write(&mut storage, 1, 2, 200, aged("Ada", 2));
    let before = storage.cache_metrics();
    storage.reconstruct_node_properties(VersionId(2)).unwrap();
    let after = storage.cache_metrics();
    assert_eq!(after.primary_cache_hits, before.primary_cache_hits + 1);

    storage.__test_clear_property_cache();
    let before = storage.cache_metrics();
    let map = storage.reconstruct_node_properties(VersionId(2)).unwrap();
    assert_eq!(age_of(&map), Some(2));
    let after = storage.cache_metrics();
    assert_eq!(after.full_reconstructions, before.full_reconstructions + 1);
    assert_eq!(storage.stats().node_cache_entries, 1);
}

#[test]
fn rates_are_exact() {
    let metrics =
        CacheMetrics { primary_cache_hits: 5, anchor_cache_hits: 2, full_reconstructions: 3 };
    assert_eq!(metrics.total_operations(), 10);
    assert_eq!(metrics.hit_rate(), Some(Ratio { part: 7, whole: 10 }));
    assert_eq!(metrics.primary_hit_rate(), Some(Ratio { part: 5, whole: 10 }));
    assert_eq!(metrics.anchor_fallback_rate(), Some(Ratio { part: 2, whole: 10 }));
    assert_eq!(metrics.reconstruction_rate(), Some(Ratio { part: 3, whole: 10 }));
    let none =
        CacheMetrics { primary_cache_hits: 0, anchor_cache_hits: 0, full_reconstructions: 0 };
    assert_eq!(none.hit_rate(), None);
}

#[test]
fn resizing_is_suggested_below_the_threshold() {
    let mut storage = every(10);
    write(&mut storage, 1, 1, 100, aged("Ada", 1));
    let threshold = Ratio { part: 4, whole: 5 };
    assert_eq!(storage.should_resize_cache(threshold, 1), None);
    assert_eq!(storage.should_resize_cache(threshold, 0), Some(Ratio { part: 0, whole: 1 }));

    storage.reconstruct_node_properties(VersionId(1)).unwrap();
    assert_eq!(storage.cache_hit_rate(), Some(Ratio { part: 1, whole: 1 }));
    assert_eq!(storage.should_resize_cache(threshold, 1), None);

    storage.__test_clear_property_cache();
    storage.reconstruct_node_properties(VersionId(1)).unwrap();
    assert_eq!(storage.should_resize_cache(threshold, 2), Some(Ratio { part: 1, whole: 2 }));
    assert_eq!(storage.should_resize_cache(threshold, 3), None);
}

#[test]
fn versions_are_visible_in_both_times() {
    let mut storage = every(10);
    write(&mut storage, 1, 1, 100, aged("Ada", 1));
    write(&mut storage, 1, 2, 200, aged("Ada", 2));

    let seen = |s: &HistoricalStorage, valid: i64, tx: i64| {
        s.find_node_version_at_time(NodeId(1), at(valid), at(tx)).map(|v| v.0)
    };
    assert_eq!(seen(&storage, 150, 150), Some(1));
    assert_eq!(seen(&storage, 250, 150), Some(1));
    assert_eq!(seen(&storage, 250, 250), Some(2));
    assert_eq!(seen(&storage, 50, 250), None);
    assert_eq!(seen(&storage, 150, 50), None);

    let node = storage.get_node_at_time(NodeId(1), at(150), at(150)).unwrap();
    assert_eq!(age_of(&node.properties), Some(1));
    assert_eq!(node.label, LABEL);
    assert!(matches!(
        storage.get_node_at_time(NodeId(9), at(150), at(150)),
        Err(Error::Temporal(_)) | Err(Error::Storage(_))
    ));
}

#[test]
fn an_index_finds_the_same_versions() {
    let mut plain = every(2);
    let mut indexed = every(2);
    indexed.set_temporal_indexes(TemporalIndexes {
        nodes: TemporalIndex::new(),
        edges: TemporalIndex::new(),
    });
    for i in 0..6u64 {
        write(&mut plain, 1, i, 100 * (i as i64 + 1), aged("Ada", i as i64));
        write(&mut indexed, 1, i, 100 * (i as i64 + 1), aged("Ada", i as i64));
    }
    indexed.rebuild_temporal_index_from_versions();
    for valid in (50..750).step_by(50) {
        for tx in (50..750).step_by(50) {
            assert_eq!(
                plain.find_node_version_at_time(NodeId(1), at(valid), at(tx)),
                indexed.find_node_version_at_time(NodeId(1), at(valid), at(tx))
            );
        }
    }
    assert!(indexed.take_temporal_indexes().is_some());
    assert!(indexed.take_temporal_indexes().is_none());
}

#[test]
fn a_deleted_node_is_not_seen() {
    let mut storage = every(10);
    write(&mut storage, 1, 1, 100, aged("Ada", 1));
    storage
        .add_node_version(
            NodeId(1),
            VersionId(2),
            at(200),
            at(200),
            LABEL,
            PropertyMap::new(),
            true,
        )
        .unwrap();
    assert_eq!(storage.find_node_version_at_time(NodeId(1), at(250), at(250)), None);
    assert_eq!(
        storage.find_node_version_at_time(NodeId(1), at(150), at(150)),
        Some(VersionId(1))
    );
}

#[test]
fn a_retraction_needs_a_range() {
    let mut storage = every(10);
    let refused = storage.add_retracted_node_version(
        NodeId(1),
        VersionId(1),
        at(200),
        at(100),
        at(300),
        LABEL,
        named("Ada"),
    );
    assert!(matches!(
        refused,
        Err(Error::Temporal(TemporalError::InvalidTimeRange { start, end }))
            if start == at(200) && end == at(100)
    ));
    assert_eq!(storage.stats().total_node_versions, 0);

    storage
        .add_retracted_node_version(
            NodeId(1),
            VersionId(1),
            at(100),
            at(200),
            at(300),
            LABEL,
            named("Ada"),
        )
        .unwrap();
    let seen = |t: i64| storage.find_node_version_at_time(NodeId(1), at(t), at(400)).is_some();
    assert!(seen(150));
    assert!(!seen(250));
}

#[test]
fn versions_are_limited() {
    let mut storage = HistoricalStorage::with_config_and_retention(
        AnchorConfig { anchor_interval: 10, max_delta_chain: 20 },
        RetentionPolicy::new(2, 1000),
    );
    write(&mut storage, 5, 1, 100, named("Ada"));
    write(&mut storage, 5, 2, 200, named("Ada"));
    let refused = storage.add_node_version(
        NodeId(5),
        VersionId(3),
        at(300),
        at(300),
        LABEL,
        named("Ada"),
        false,
    );
    match refused {
        Err(Error::Storage(StorageError::CapacityExceeded { resource, current, limit })) => {
            assert_eq!(resource, "node 5 versions");
            assert_eq!((current, limit), (2, 2));
        }
        other => panic!("{:?}", other),
    }
}

#[test]
fn chains_are_walked_to_a_limit() {
    let mut storage = HistoricalStorage::from_unified_config(HistoricalConfig {
        max_versions_per_entity: 100,
        max_reconstruction_depth: 2,
        anchor_interval: 10,
        max_delta_chain: 20,
        reconstruction_cache_size: 10,
        max_schema_as_of_entities: 10,
    });
    for i in 0..4u64 {
        write(&mut storage, 1, i, 100 + i as i64, aged("Ada", i as i64));
    }
    storage.__test_clear_property_cache();
    let too_deep = storage.reconstruct_node_properties(VersionId(3));
    match too_deep {
        Err(Error::Temporal(TemporalError::MaxDepthExceeded { max_depth, entity_id })) => {
            assert_eq!(max_depth, MAX_RECONSTRUCTION_DEPTH);
            assert_eq!(entity_id, "1");
        }
        other => panic!("{:?}", other.is_ok()),
    }
    assert_eq!(age_of(&storage.reconstruct_node_properties(VersionId(2)).unwrap()), Some(2));
    assert_eq!(age_of(&storage.reconstruct_node_properties(VersionId(1)).unwrap()), Some(1));
}

#[test]
fn broken_chains_are_reported() {
    let mut storage = every(10);
    write(&mut storage, 1, 1, 100, aged("Ada", 1));
    write(&mut storage, 1, 2, 200, aged("Ada", 2));
    storage.__test_clear_property_cache();
    storage.__test_remove_node_version(VersionId(1));
    assert!(matches!(
        storage.reconstruct_node_properties(VersionId(2)),
        Err(Error::Temporal(TemporalError::MissingAnchor { entity_id })) if entity_id == "1"
    ));
    assert!(matches!(
        storage.reconstruct_node_properties(VersionId(77)),
        Err(Error::Storage(StorageError::VersionNotFound(VersionId(77))))
    ));
}

#[test]
fn histories_and_differences() {
    let mut storage = every(10);
    write(&mut storage, 1, 1, 100, aged("Ada", 1));
    write(&mut storage, 1, 2, 200, named("Grace"));
    let history = storage.get_node_history(NodeId(1), &StringInterner::new()).unwrap();
    let ids: Vec<u64> = history.versions.iter().map(|v| v.version_id.0).collect();
    assert_eq!(ids.len(), 2);
    assert!(ids.contains(&1) && ids.contains(&2));

    let diff = storage.diff_node_versions(NodeId(1), VersionId(1), VersionId(2)).unwrap();
    assert_eq!(diff.added.len(), 0);
    assert_eq!(age_of(&diff.removed), Some(1));
    assert_eq!(diff.modified.len(), 1);
    assert!(diff.modified.contains_key(&NAME.0));
}

#[test]
fn provenance_is_kept() {
    let mut storage = every(10);
    let who = Arc::new(Provenance { principal: "ada".to_string(), source: "test".to_string() });
    storage
        .add_node_version_with_provenance(
            NodeId(1),
            VersionId(1),
            at(100),
            at(100),
            LABEL,
            named("Ada"),
            false,
            Some(who),
        )
        .unwrap();
    let kept = storage.get_current_node_provenance(NodeId(1)).unwrap().unwrap();
    assert_eq!(kept.principal, "ada");
    assert!(storage.get_node_version_provenance(VersionId(9)).is_err());
}

struct Fixed(HookReply, Option<std::time::Duration>);

impl AnchorHook for Fixed {
    fn may_reply(&self, _context: AnchorContext, _reply: HookReply) -> bool {
        true
    }

    fn calls(&self) -> HookCalls {
        unreachable!()
    }

    fn before_anchor(
        &mut self,
        entity_type: &str,
        _entity_id: u64,
        _timestamp: HybridTimestamp,
        _properties: &PropertyMap,
        timeout: Option<std::time::Duration>,
    ) -> HookReply {
        assert_eq!(entity_type, "node");
        assert_eq!(timeout, self.1);
        self.0
    }
}

fn hook(reply: HookReply) -> PreAnchorHook {
    PreAnchorHook { hook: Box::new(Fixed(reply, None)) }
}

fn snapshot_of(storage: &HistoricalStorage, version: u64) -> Option<u64> {
    match &*storage.get_node_version(VersionId(version)).unwrap().data {
        VersionData::Anchor { vector_snapshot_id, .. } => *vector_snapshot_id,
        VersionData::Delta { .. } => None,
    }
}

#[test]
fn the_last_snapshot_wins() {
    let mut storage = every(10);
    storage.add_pre_node_anchor_hook(hook(HookReply::Snapshot(4)));
    storage.add_pre_node_anchor_hook(hook(HookReply::Snapshot(5)));
    storage.add_pre_node_anchor_hook(hook(HookReply::Nothing));
    storage.add_pre_node_anchor_hook(hook(HookReply::Failed));
    write(&mut storage, 1, 1, 100, named("Ada"));
    assert_eq!(snapshot_of(&storage, 1), Some(5));
    let metrics = storage.hook_metrics();
    assert_eq!((metrics.invocations, metrics.successes, metrics.failures), (4, 3, 1));

    write(&mut storage, 1, 2, 200, named("Grace"));
    assert_eq!(storage.hook_metrics().invocations, 4);
}

#[test]
fn hooks_that_panic_or_hang_are_counted_apart() {
    let limit = Some(std::time::Duration::from_millis(20));
    let mut storage = every(10);
    storage.set_pre_anchor_hook_timeout(limit);
    for reply in [HookReply::Panicked, HookReply::TimedOut, HookReply::TimedOut] {
        storage.add_pre_node_anchor_hook(PreAnchorHook { hook: Box::new(Fixed(reply, limit)) });
    }
    write(&mut storage, 1, 1, 100, named("Ada"));
    assert_eq!(snapshot_of(&storage, 1), None);
    let metrics = storage.hook_metrics();
    assert_eq!((metrics.invocations, metrics.successes, metrics.failures), (3, 0, 0));
    assert_eq!((metrics.panics, metrics.timeouts), (1, 2));
}

#[test]
fn skipped_nodes_take_no_snapshot() {
    let mut storage = every(10);
    storage.register_pre_node_anchor_hook(hook(HookReply::Snapshot(4)));
    storage.set_node_snapshot_policy(NodeId(1), SnapshotPolicy::Skip);
    write(&mut storage, 1, 1, 100, named("Ada"));
    write(&mut storage, 2, 2, 100, named("Grace"));
    assert_eq!(snapshot_of(&storage, 1), None);
    assert_eq!(snapshot_of(&storage, 2), Some(4));
    assert!(!storage.node_anchor_triggers_vector_snapshot(NodeId(1)));
    assert_eq!(storage.clear_node_snapshot_policy(NodeId(1)), Some(SnapshotPolicy::Skip));
    assert!(storage.node_anchor_triggers_vector_snapshot(NodeId(1)));
    storage.set_default_node_snapshot_policy(SnapshotPolicy::Skip);
    assert_eq!(storage.node_snapshot_policy(NodeId(1)), SnapshotPolicy::Skip);
}

struct Recorder(Arc<RefCell<Vec<StorageEvent>>>);

impl StorageObserver for Recorder {
    fn heard(&self) -> EventLog {
        unreachable!()
    }

    fn on_event(&mut self, event: &StorageEvent) -> Result<(), Error> {
        self.0.borrow_mut().push(*event);
        Err(Error::FailedPrecondition("ignored".to_string()))
    }
}

#[test]
fn observers_are_told() {
    let seen = Arc::new(RefCell::new(Vec::new()));
    let mut storage = every(10);
    storage.add_observer(Observer { observer: Box::new(Recorder(Arc::clone(&seen))) });
    write(&mut storage, 1, 1, 100, named("Ada"));
    write(&mut storage, 1, 2, 200, named("Grace"));
    let events = seen.borrow();
    assert_eq!(events.len(), 3);
    assert_eq!(
        events[0],
        StorageEvent::NodeVersionCreated {
            version_id: VersionId(1),
            node_id: NodeId(1),
            timestamp: at(100),
            is_anchor: true,
        }
    );
    assert_eq!(
        events[1],
        StorageEvent::NodeAnchorCreated {
            version_id: VersionId(1),
            node_id: NodeId(1),
            timestamp: at(100),
        }
    );
    assert!(matches!(events[2], StorageEvent::NodeVersionCreated { is_anchor: false, .. }));
}

#[test]
fn edges_are_traversable_while_they_hold() {
    let mut storage = every(10);
    storage.set_temporal_adjacency_index(TemporalAdjacencyIndex::new());
    write_edge(&mut storage, 3, 1, 100, false);
    write_edge(&mut storage, 3, 2, 200, true);
    let out = |t: i64| storage.get_outgoing_edges_at_time(NodeId(1), at(t), at(t));
    assert_eq!(out(50), vec![]);
    assert_eq!(out(150), vec![EdgeId(3)]);
    assert_eq!(out(250), vec![]);
    assert_eq!(
        storage.get_incoming_edges_at_time(NodeId(2), at(150), at(150)),
        vec![EdgeId(3)]
    );
    assert_eq!(storage.get_incoming_edges_at_time(NodeId(1), at(150), at(150)), vec![]);
    assert_eq!(
        storage.find_edge_version_at_time(EdgeId(3), at(150), at(150)),
        Some(VersionId(1))
    );
}

fn tiers() -> TieredStorage {
    TieredStorage { nodes: ColdTier::new(), edges: ColdTier::new() }
}

fn run(candidates: Vec<u64>, moved: usize) -> MigrationRun {
    MigrationRun { candidates, outcome: Ok(moved) }
}

#[test]
fn moved_versions_still_read_the_same() {
    let mut storage = every(10);
    write(&mut storage, 1, 1, 100, aged("Ada", 1));
    write(&mut storage, 1, 2, 200, aged("Ada", 2));
    write(&mut storage, 1, 3, 300, aged("Ada", 3));
    assert_eq!(storage.migrate_to_cold(run(vec![1], 1), run(vec![], 0)).unwrap(), 0);

    storage.set_tiered_storage(tiers());
    assert_eq!(storage.migrate_to_cold(run(vec![1, 2], 2), run(vec![], 0)).unwrap(), 2);
    assert_eq!(storage.hot_version_count(), 1);
    assert!(storage.get_node_version(VersionId(1)).is_none());
    assert!(storage.get_node_version_tiered(VersionId(1)).unwrap().is_some());

    storage.__test_clear_property_cache();
    for i in 1..=3u64 {
        let map = storage.reconstruct_node_properties(VersionId(i)).unwrap();
        assert_eq!(age_of(&map), Some(i as i64));
    }

    let failed = MigrationRun {
        candidates: vec![3],
        outcome: Err(Error::Storage(StorageError::PersistenceError("disk".to_string()))),
    };
    assert!(storage.migrate_to_cold(failed, run(vec![], 0)).is_err());
    assert_eq!(storage.hot_version_count(), 1);
}

#[test]
fn unreadable_cold_versions_are_reported() {
    let mut storage = every(10);
    let mut cold = tiers();
    cold.nodes.faults.insert(9, "disk".to_string());
    storage.set_tiered_storage(cold);
    match storage.reconstruct_node_properties(VersionId(9)) {
        Err(Error::Storage(StorageError::PersistenceError(text))) => assert_eq!(text, "disk"),
        other => panic!("{:?}", other.is_ok()),
    }
}

fn everything() -> ChangeFilter {
    ChangeFilter {
        tx_window: TimeRange::new(at(0), at(1_000_000)).unwrap(),
        valid_window: None,
        label: None,
        resume_after: None,
    }
}

#[test]
fn changes_come_in_order_and_resume() {
    let mut storage = every(10);
    write(&mut storage, 1, 1, 300, named("Ada"));
    write(&mut storage, 2, 2, 100, named("Grace"));
    write_edge(&mut storage, 3, 3, 200, false);
    let all = storage.collect_changes(&everything(), 10);
    let versions: Vec<u64> = all.iter().map(|c| c.cursor.version).collect();
    assert_eq!(versions, vec![2, 3, 1]);
    assert!(all.iter().all(|c| c.created));

    let mut rest = everything();
    rest.resume_after = Some(all[0].cursor);
    let later = storage.collect_changes(&rest, 1);
    assert_eq!(later.len(), 1);
    assert_eq!(later[0].cursor.version, 3);

    let mut other = everything();
    other.label = Some(InternedString(99));
    assert_eq!(storage.collect_changes(&other, 10).len(), 0);
}

#[test]
fn changes_tell_their_namespace() {
    let mut storage = every(10);
    let mut map = named("Ada");
    map.insert(InternedString(NAMESPACE_KEY), PropertyValue::Text("team".to_string()));
    write(&mut storage, 1, 1, 100, map);
    write(&mut storage, 2, 2, 200, named("Grace"));
    let all = storage.collect_changes(&everything(), 10);
    assert!(matches!(&all[0].namespace, Namespace::Named(s) if s == "team"));
    assert!(matches!(all[1].namespace, Namespace::Default));

    let some = storage.collect_committed_changes(&vec![2], &vec![]);
    assert_eq!(some.len(), 1);
    assert_eq!(some[0].cursor.entity, 2);
}

#[test]
fn an_unreadable_namespace_is_not_the_default() {
    let mut storage = every(10);
    write(&mut storage, 1, 1, 100, named("Ada"));
    write(&mut storage, 1, 2, 200, aged("Ada", 2));
    storage.__test_clear_property_cache();
    storage.__test_remove_node_version(VersionId(1));
    let mut some = storage.collect_committed_changes(&vec![2], &vec![]);
    assert!(matches!(some[0].namespace, Namespace::Unresolved));
    storage.resolve_unresolved_namespaces(&mut some);
    assert!(matches!(some[0].namespace, Namespace::Unresolved));
}

#[test]
fn restored_versions_are_linked_again() {
    let mut storage = every(3);
    for i in 0..5u64 {
        write(&mut storage, 1, i, 100 * (i as i64 + 1), aged("Ada", i as i64));
    }
    let snapshot = storage.create_snapshot(17);
    assert_eq!(snapshot.lsn, 17);
    assert_eq!(snapshot.node_versions.len(), 5);

    let mut restored = every(3);
    for version in snapshot.node_versions {
        restored.insert_restored_node_version(version).unwrap();
    }
    restored.rebuild_version_chains();
    assert_eq!(restored.get_current_node_version(NodeId(1)), Some(VersionId(4)));
    for i in 0..5u64 {
        let map = restored.reconstruct_node_properties(VersionId(i)).unwrap();
        assert_eq!(age_of(&map), Some(i as i64));
    }
    restored.rebuild_version_chains();
    assert_eq!(restored.get_current_node_version(NodeId(1)), Some(VersionId(4)));
    assert_eq!(restored.stats().node_anchor_count, 2);
    assert_eq!(restored.stats().node_delta_count, 3);
}

#[test]
fn closing_a_version_ends_its_time() {
    let mut storage = every(10);
    write(&mut storage, 1, 1, 100, named("Ada"));
    storage.close_node_version_transaction_time(VersionId(1), at(200)).unwrap();
    assert_eq!(
        storage.find_node_version_at_time(NodeId(1), at(150), at(150)),
        Some(VersionId(1))
    );
    assert_eq!(storage.find_node_version_at_time(NodeId(1), at(150), at(250)), None);
    assert!(storage.close_node_version_transaction_time(VersionId(9), at(200)).is_err());
}

#[test]
fn deltas_undo_and_redo() {
    let from = aged("Ada", 1);
    let to = named("Grace");
    let delta = PropertyDelta::compute(&from, &to);
    let again = delta.apply(&from);
    assert_eq!(name_of(&again), Some("Grace"));
    assert_eq!(age_of(&again), None);
    assert_eq!(again.len(), 1);
}

#[test]
fn many_nodes_at_one_time() {
    let mut storage = every(10);
    write(&mut storage, 1, 1, 100, aged("Ada", 1));
    write(&mut storage, 2, 2, 200, aged("Grace", 2));
    let list = storage
        .get_nodes_at_time(&vec![NodeId(1), NodeId(2), NodeId(3)], at(150), at(150))
        .unwrap();
    let present: Vec<(u64, bool)> = list.iter().map(|(id, n)| (id.0, n.is_some())).collect();
    assert_eq!(present.len(), 3);
    assert!(present.contains(&(1, true)));
    assert!(present.contains(&(2, false)));
    assert!(present.contains(&(3, false)));

    let labelled = storage
        .get_nodes_at_time_with_label(&vec![NodeId(1), NodeId(2)], LABEL, at(250), at(250))
        .unwrap();
    assert_eq!(labelled.len(), 2);
    let other = storage
        .get_nodes_at_time_with_label(
            &vec![NodeId(1)],
            InternedString(99),
            at(250),
            at(250),
        )
        .unwrap();
    assert_eq!(other.len(), 0);
}

fn aged_edge(storage: &mut HistoricalStorage, edge: u64, version: u64, t: i64, age: i64) {
    storage
        .add_edge_version(
            EdgeId(edge),
            VersionId(version),
            at(t),
            at(t),
            LABEL,
            NodeId(1),
            NodeId(2),
            aged("knows", age),
            false,
        )
        .unwrap();
}

#[test]
fn edges_have_histories_too() {
    let mut storage = every(2);
    for i in 0..5u64 {
        aged_edge(&mut storage, 3, 10 + i, 100 * (i as i64 + 1), i as i64);
    }
    storage.__test_clear_edge_property_cache();
    for i in 0..5u64 {
        let map = storage.reconstruct_edge_properties(VersionId(10 + i)).unwrap();
        assert_eq!(age_of(&map), Some(i as i64));
    }
    let history = storage.get_edge_history(EdgeId(3), &StringInterner::new()).unwrap();
    assert_eq!(history.versions.len(), 5);
    assert_eq!(history.versions[0].version_number, 1);
    assert_eq!(history.versions[0].version_id, VersionId(10));
    let diff = storage.diff_edge_versions(EdgeId(3), VersionId(10), VersionId(14)).unwrap();
    assert_eq!((diff.added.len(), diff.removed.len(), diff.modified.len()), (0, 0, 1));
    let edge = storage.get_edge_at_time(EdgeId(3), at(250), at(250)).unwrap();
    assert_eq!((edge.source, edge.target), (NodeId(1), NodeId(2)));
    assert_eq!(age_of(&edge.properties), Some(1));
    assert!(matches!(
        storage.get_edge_at_time(EdgeId(4), at(250), at(250)),
        Err(Error::Storage(StorageError::EdgeNotFound(EdgeId(4))))
    ));
    let list =
        storage.get_edges_at_time(&vec![EdgeId(3), EdgeId(4)], at(250), at(250)).unwrap();
    assert_eq!(list.iter().filter(|(_, e)| e.is_some()).count(), 1);
    assert_eq!(storage.get_current_edge_version(EdgeId(3)), Some(VersionId(14)));
    assert_eq!(storage.edge_creation_time(EdgeId(3)), Some(at(100)));
    assert_eq!(storage.versioned_edge_ids(), vec![EdgeId(3)]);
    assert_eq!(storage.get_all_edge_versions().get(&3).unwrap().len(), 5);
    assert!(storage.get_edge_version(VersionId(12)).is_some());
    assert!(storage.get_edge_version_tiered(VersionId(99)).unwrap().is_none());
    storage.close_edge_version_transaction_time(VersionId(14), at(900)).unwrap();
    assert_eq!(storage.find_edge_version_at_time(EdgeId(3), at(950), at(950)), None);
}

#[test]
fn a_history_grows_at_its_end() {
    let mut storage = every(10);
    write(&mut storage, 1, 1, 100, aged("Ada", 1));
    write(&mut storage, 2, 2, 150, aged("Grace", 1));
    write(&mut storage, 1, 3, 200, aged("Ada", 2));
    let ids = |s: &mut HistoricalStorage, node: u64| -> Vec<u64> {
        let history = s.get_node_history(NodeId(node), &StringInterner::new()).unwrap();
        history.versions.iter().map(|v| v.version_id.0).collect()
    };
    assert_eq!(ids(&mut storage, 1), vec![1, 3]);
    write(&mut storage, 1, 4, 300, aged("Ada", 3));
    assert_eq!(ids(&mut storage, 1), vec![1, 3, 4]);
    assert_eq!(ids(&mut storage, 2), vec![2]);
    assert_eq!(age_of(&storage.get_node_at_version(NodeId(1), 2).unwrap().properties), Some(2));
    assert!(storage.get_node_at_version(NodeId(1), 4).is_err());
    assert!(storage.get_node_at_version(NodeId(1), 0).is_err());
    assert_eq!(storage.node_creation_time(NodeId(1)), Some(at(100)));
    assert_eq!(storage.node_creation_time(NodeId(9)), None);
    let mut nodes = storage.versioned_node_ids();
    nodes.sort();
    assert_eq!(nodes, vec![NodeId(1), NodeId(2)]);
    assert_eq!(storage.get_all_node_versions().get(&1).unwrap().len(), 3);
}

#[test]
fn versions_can_be_looked_into() {
    let mut storage = every(10);
    write(&mut storage, 1, 1, 100, aged("Ada", 1));
    aged_edge(&mut storage, 3, 2, 100, 1);
    let (version, node, label, data) = storage.extract_node_version_data(VersionId(1)).unwrap();
    assert_eq!((version, node, label), (VersionId(1), NodeId(1), LABEL));
    assert!(matches!(*data, VersionData::Anchor { .. }));
    let (_, edge, _, source, target, _) = storage.extract_edge_version_data(VersionId(2)).unwrap();
    assert_eq!((edge, source, target), (EdgeId(3), NodeId(1), NodeId(2)));
    assert!(storage.extract_node_version_data(VersionId(2)).is_err());
    assert!(storage.get_node_version_read_metadata(VersionId(1)).unwrap().is_some());
    assert!(storage.get_edge_version_read_metadata(VersionId(9)).unwrap().is_none());
    assert!(storage.get_current_edge_provenance(EdgeId(3)).unwrap().is_none());
    assert!(storage.hot_memory_usage() > 0);
    let mut stats = storage.stats();
    stats.node_cache_entries = 1;
    stats.edge_cache_entries = 2;
    stats.node_anchor_cache_entries = 3;
    stats.edge_anchor_cache_entries = 4;
    assert_eq!(stats.estimated_cache_memory_bytes(), 1500);
    assert_eq!(RetentionPolicy::unbounded().max_versions_per_entity, usize::MAX);
}

#[test]
fn edges_follow_their_own_policy() {
    let mut storage = every(10);
    assert_eq!(storage.default_edge_snapshot_policy(), SnapshotPolicy::Snapshot);
    assert_eq!(storage.default_node_snapshot_policy(), SnapshotPolicy::Snapshot);
    storage.set_default_edge_snapshot_policy(SnapshotPolicy::Skip);
    storage.set_edge_snapshot_policy(EdgeId(3), SnapshotPolicy::Snapshot);
    assert!(storage.edge_anchor_triggers_vector_snapshot(EdgeId(3)));
    assert!(!storage.edge_anchor_triggers_vector_snapshot(EdgeId(4)));
    assert_eq!(storage.clear_edge_snapshot_policy(EdgeId(3)), Some(SnapshotPolicy::Snapshot));
    assert_eq!(storage.edge_snapshot_policy(EdgeId(3)), SnapshotPolicy::Skip);
    storage.register_pre_edge_anchor_hook(hook(HookReply::Snapshot(1)));
    storage.add_pre_edge_anchor_hook(hook(HookReply::Snapshot(2)));
    aged_edge(&mut storage, 3, 1, 100, 1);
    assert_eq!(storage.hook_metrics().invocations, 0);
    assert_eq!(storage.pre_anchor_hook_timeout(), None);
    storage.set_pre_anchor_hook_timeout(Some(std::time::Duration::from_secs(1)));
    assert_eq!(storage.pre_anchor_hook_timeout(), Some(std::time::Duration::from_secs(1)));
}

#[test]
fn restored_edges_are_linked_again() {
    let mut storage = every(2);
    for i in 0..3u64 {
        aged_edge(&mut storage, 3, i, 100 * (i as i64 + 1), i as i64);
    }
    let mut restored = every(2);
    for version in storage.create_snapshot(1).edge_versions {
        restored.insert_restored_edge_version(version).unwrap();
    }
    restored.rebuild_version_chains();
    assert_eq!(restored.get_current_edge_version(EdgeId(3)), Some(VersionId(2)));
    restored.__test_remove_edge_version(VersionId(0));
    assert!(restored.reconstruct_edge_properties(VersionId(1)).is_err());
    assert!(restored.tiered_storage().is_none());
    restored.set_tiered_storage(tiers());
    assert!(restored.tiered_storage().is_some());
    assert!(restored.get_temporal_adjacency_index().is_none());
}

#[test]
fn a_retracted_edge_stays_traversable_where_it_holds() {
    let mut storage = every(10);
    storage.set_temporal_adjacency_index(TemporalAdjacencyIndex::new());
    storage
        .add_retracted_edge_version(
            EdgeId(3),
            VersionId(1),
            at(100),
            at(200),
            at(300),
            LABEL,
            NodeId(1),
            NodeId(2),
            named("knows"),
        )
        .unwrap();
    let out = |t: i64| storage.get_outgoing_edges_at_time(NodeId(1), at(t), at(400));
    assert_eq!(out(150), vec![EdgeId(3)]);
    assert_eq!(out(250), vec![]);
}

#[test]
fn every_version_in_memory_is_visited_once() {
    let mut storage = every(2);
    write(&mut storage, 1, 1, 100, aged("Ada", 1));
    write(&mut storage, 1, 2, 200, aged("Ada", 2));
    write(&mut storage, 2, 4, 300, aged("Grace", 1));
    aged_edge(&mut storage, 3, 8, 100, 1);
    assert_eq!(storage.visit_node_versions(0u64, |sum, v| sum + v.id), 7);
    assert_eq!(storage.visit_edge_versions(0u64, |sum, v| sum + v.id), 8);
}

fn reason<T>(outcome: Result<T, Error>) -> String {
    match outcome {
        Err(Error::Storage(StorageError::InconsistentState { reason })) => reason,
        Err(other) => format!("{:?}", other),
        Ok(_) => "accepted".to_string(),
    }
}

#[test]
fn reserved_numbers_are_not_restored() {
    let mut storage = every(10);
    write(&mut storage, 1, 1, 100, aged("Ada", 1));
    aged_edge(&mut storage, 3, 2, 100, 1);
    let over = MAX_VALID_ID + 1;
    let mut restored = every(10);
    let node = |id: u64, entity: u64| {
        let mut version = storage.create_snapshot(1).node_versions.remove(0);
        version.id = id;
        version.entity = entity;
        version
    };
    let edge = |id: u64, entity: u64| {
        let mut version = storage.create_snapshot(1).edge_versions.remove(0);
        version.id = id;
        version.entity = entity;
        version
    };
    assert_eq!(
        reason(restored.insert_restored_node_version(node(over, 1))),
        format!("Invalid version ID: {}", over)
    );
    assert_eq!(
        reason(restored.insert_restored_node_version(node(1, over))),
        format!("Invalid node ID: {}", over)
    );
    assert_eq!(
        reason(restored.insert_restored_edge_version(edge(over, over))),
        format!("Invalid version ID: {}", over)
    );
    assert_eq!(
        reason(restored.insert_restored_edge_version(edge(2, over))),
        format!("Invalid edge ID: {}", over)
    );
    assert_eq!(restored.hot_version_count(), 0);
    restored.insert_restored_node_version(node(MAX_VALID_ID, MAX_VALID_ID)).unwrap();
    restored.insert_restored_edge_version(edge(2, 3)).unwrap();
    assert_eq!(restored.hot_version_count(), 2);
}

#[test]
fn histories_name_their_labels() {
    let mut interner = StringInterner::new();
    let person = interner.intern("Person").unwrap();
    let mut storage = every(10);
    for (version, label) in [(1, person), (2, InternedString(4_000_000))] {
        storage
            .add_node_version(
                NodeId(1),
                VersionId(version),
                at(version as i64),
                at(version as i64),
                label,
                named("Ada"),
                false,
            )
            .unwrap();
    }
    let history = storage.get_node_history(NodeId(1), &interner).unwrap();
    let labels: Vec<&str> = history.versions.iter().map(|v| v.label.as_str()).collect();
    assert_eq!(labels, vec!["Person", "4000000"]);
}

#[test]
fn every_lookup_is_counted_once() {
    let mut storage = every(10);
    write(&mut storage, 1, 1, 100, aged("Ada", 1));
    write(&mut storage, 1, 2, 200, aged("Ada", 2));
    write(&mut storage, 2, 3, 200, aged("Grace", 1));
    storage.__test_clear_property_cache();
    let mut seen = storage.cache_metrics().total_operations();
    let mut more = |storage: &HistoricalStorage| -> u64 {
        let now = storage.cache_metrics().total_operations();
        let rise = now - seen;
        seen = now;
        rise
    };
    storage.get_node_at_time(NodeId(1), at(150), at(150)).unwrap();
    assert_eq!(more(&storage), 1);
    assert!(storage.get_node_at_time(NodeId(9), at(150), at(150)).is_err());
    assert_eq!(more(&storage), 0);
    let asked = vec![NodeId(1), NodeId(2), NodeId(9)];
    storage.get_nodes_at_time(&asked, at(250), at(250)).unwrap();
    assert_eq!(more(&storage), 2);
    storage.get_node_history(NodeId(1), &StringInterner::new()).unwrap();
    assert_eq!(more(&storage), 2);
    storage.diff_node_versions(NodeId(1), VersionId(1), VersionId(2)).unwrap();
    assert_eq!(more(&storage), 2);
    storage.get_node_version_tiered(VersionId(1)).unwrap();
    assert_eq!(more(&storage), 0);
}

#[test]
fn a_full_cache_holds_no_more() {
    let mut storage = HistoricalStorage::with_config_retention_and_cache_size(
        AnchorConfig { anchor_interval: 10, max_delta_chain: 20 },
        RetentionPolicy::unbounded(),
        4,
    );
    for i in 0..200u64 {
        write(&mut storage, 1, i, 100 + i as i64, aged("Ada", i as i64));
    }
    for i in 0..200u64 {
        let map = storage.reconstruct_node_properties(VersionId(i)).unwrap();
        assert_eq!(age_of(&map), Some(i as i64));
    }
    assert!(storage.stats().node_cache_entries <= 4);
}

#[test]
fn the_default_history_is_a_new_one() {
    let storage = HistoricalStorage::default();
    let stats = storage.stats();
    assert_eq!((stats.total_node_versions, stats.total_edge_versions), (0, 0));
    assert_eq!(storage.cache_metrics().total_operations(), 0);
    assert_eq!(storage.max_schema_as_of_entities(), HistoricalStorage::new().max_schema_as_of_entities());
    assert!(!storage.has_tiered_storage());
}

#[test]
fn a_move_takes_as_many_as_it_says() {
    let mut storage = every(10);
    storage.set_tiered_storage(tiers());
    for i in 1..=4u64 {
        write(&mut storage, 1, i, 100 * i as i64, aged("Ada", i as i64));
    }
    aged_edge(&mut storage, 3, 9, 100, 1);
    assert_eq!(storage.migrate_to_cold(run(vec![], 0), run(vec![], 0)).unwrap(), 0);
    assert_eq!(storage.hot_version_count(), 5);
    assert_eq!(storage.migrate_to_cold(run(vec![3, 1, 2], 2), run(vec![9], 1)).unwrap(), 3);
    assert_eq!(storage.hot_version_count(), 2);
    assert!(storage.get_edge_version(VersionId(9)).is_none());
    storage.__test_clear_property_cache();
    storage.__test_clear_edge_property_cache();
    for i in 1..=4u64 {
        let map = storage.reconstruct_node_properties(VersionId(i)).unwrap();
        assert_eq!(age_of(&map), Some(i as i64));
    }
    assert_eq!(age_of(&storage.reconstruct_edge_properties(VersionId(9)).unwrap()), Some(1));
}

#[test]
fn a_deletion_differs_in_adjacency_alone() {
    let mut kept = every(10);
    let mut deleted = every(10);
    for (storage, gone) in [(&mut kept, false), (&mut deleted, true)] {
        storage.set_temporal_adjacency_index(TemporalAdjacencyIndex::new());
        write_edge(storage, 3, 1, 100, gone);
    }
    assert_eq!(kept.get_outgoing_edges_at_time(NodeId(1), at(150), at(150)), vec![EdgeId(3)]);
    assert_eq!(deleted.get_outgoing_edges_at_time(NodeId(1), at(150), at(150)), vec![]);
    for storage in [&kept, &deleted] {
        let version = storage.get_edge_version(VersionId(1)).unwrap();
        assert_eq!((version.entity, version.label), (3, LABEL));
        assert_eq!(version.temporal.valid_time.start, at(100));
    }
}

#[test]
fn what_is_written_reads_back_after_other_calls() {
    let mut storage = every(3);
    storage.set_tiered_storage(tiers());
    write(&mut storage, 1, 1, 100, aged("Ada", 36));
    for i in 2..=9u64 {
        write(&mut storage, i % 3, i, 100 * i as i64, aged("Grace", i as i64));
        aged_edge(&mut storage, 3, 100 + i, 100 * i as i64, i as i64);
    }
    storage.migrate_to_cold(run(vec![1, 4], 2), run(vec![103], 1)).unwrap();
    storage.close_node_version_transaction_time(VersionId(9), at(5000)).unwrap();
    storage.__test_clear_property_cache();
    storage.__test_clear_edge_property_cache();
    let map = storage.reconstruct_node_properties(VersionId(1)).unwrap();
    assert_eq!((name_of(&map), age_of(&map)), (Some("Ada"), Some(36)));
    for i in 2..=9u64 {
        let map = storage.reconstruct_node_properties(VersionId(i)).unwrap();
        assert_eq!((name_of(&map), age_of(&map)), (Some("Grace"), Some(i as i64)));
        let map = storage.reconstruct_edge_properties(VersionId(100 + i)).unwrap();
        assert_eq!(age_of(&map), Some(i as i64));
    }
}

#[test]
fn a_reader_of_the_cold_tiers_keeps_what_it_got() {
    let mut storage = every(10);
    assert!(storage.tiered_storage_arc().is_none());
    let mut cold = tiers();
    cold.nodes.faults.insert(9, "disk".to_string());
    storage.set_tiered_storage(cold);
    write(&mut storage, 1, 1, 100, aged("Ada", 1));
    write(&mut storage, 1, 2, 200, aged("Ada", 2));
    storage.migrate_to_cold(run(vec![1], 1), run(vec![], 0)).unwrap();
    let then = storage.tiered_storage_arc().unwrap();
    storage.migrate_to_cold(run(vec![2], 1), run(vec![], 0)).unwrap();
    assert_eq!(then.nodes.versions.keys().copied().collect::<Vec<u64>>(), vec![1]);
    assert_eq!(then.nodes.versions[&1].entity, 1);
    assert_eq!(then.nodes.cursors.len(), 1);
    assert_eq!(then.nodes.faults.get(&9).map(|s| s.as_str()), Some("disk"));
    assert_eq!(then.edges.versions.len(), 0);
    assert_eq!(storage.tiered_storage_arc().unwrap().nodes.versions.len(), 2);
}

#[test]
fn observers_hear_of_edges_and_nothing_else() {
    let seen = Arc::new(RefCell::new(Vec::new()));
    let mut storage = every(2);
    storage.add_observer(Observer { observer: Box::new(Recorder(Arc::clone(&seen))) });
    storage.set_edge_snapshot_policy(EdgeId(4), SnapshotPolicy::Skip);
    aged_edge(&mut storage, 3, 1, 100, 1);
    aged_edge(&mut storage, 4, 2, 200, 1);
    aged_edge(&mut storage, 3, 3, 300, 2);
    let created = |version: u64, edge: u64, t: i64, is_anchor: bool| {
        StorageEvent::EdgeVersionCreated {
            version_id: VersionId(version),
            edge_id: EdgeId(edge),
            timestamp: at(t),
            is_anchor,
        }
    };
    let expected = vec![
        created(1, 3, 100, true),
        StorageEvent::EdgeAnchorCreated {
            version_id: VersionId(1),
            edge_id: EdgeId(3),
            timestamp: at(100),
        },
        created(2, 4, 200, true),
        created(3, 3, 300, false),
    ];
    assert_eq!(*seen.borrow(), expected);
    storage.reconstruct_edge_properties(VersionId(3)).unwrap();
    assert_eq!(seen.borrow().len(), 4);
}

#[test]
fn chains_in_a_circle_are_noticed() {
    let mut storage = every(10);
    write(&mut storage, 1, 1, 100, aged("Ada", 1));
    write(&mut storage, 1, 2, 200, aged("Ada", 2));
    write(&mut storage, 2, 3, 100, aged("Grace", 1));
    assert!(storage.has_links_back());
    for (from, to) in [(1u64, 2u64), (2, 3), (2, 2)] {
        let mut restored = every(10);
        for mut version in storage.create_snapshot(1).node_versions {
            if version.id == from {
                version.prev_version = Some(to);
            }
            restored.insert_restored_node_version(version).unwrap();
        }
        assert!(!restored.has_links_back());
    }
    let mut elsewhere = every(10);
    for mut version in storage.create_snapshot(1).node_versions {
        version.prev_version = if version.id == 1 { Some(77) } else { None };
        elsewhere.insert_restored_node_version(version).unwrap();
    }
    assert!(elsewhere.has_links_back());
    elsewhere.rebuild_version_chains();
    assert_eq!(elsewhere.get_current_node_version(NodeId(1)), Some(VersionId(2)));
}

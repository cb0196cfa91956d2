//! The version history of a graph: all versions of all nodes and edges.

use super::adjacency_index::{records_closed, AdjacencyRecord, TemporalAdjacencyIndex};
use super::hooks::{
    all_heard, events_of, notify_observers, version_events, Observer, StorageEvent,
};
use super::metrics::Meters;
use super::policy::{
    AnchorConfig, RetentionPolicy, SnapshotPolicy, DEFAULT_MAX_SCHEMA_AS_OF_ENTITIES,
    DEFAULT_MAX_VERSION_AGE_MS,
};
use super::chain::MAX_RECONSTRUCTION_DEPTH;
use super::table::{closed_end, entry_of, Appended, ChainLimits, NewVersion, VersionTable};
use crate::error::{Error, ErrorView};
use crate::ids::{EdgeId, InternedString, NodeId, VersionId};
use crate::property::PropertyMap;
use crate::temporal::{BiTemporalInterval, Timestamp};
use crate::version::{EdgeEnds, EntityKind, Provenance};
use std::sync::Arc;
use std::time::Duration;
use vstd::prelude::*;

verus! {

/// Default capacity of the caches of reconstructed properties.
pub const DEFAULT_RECONSTRUCTION_CACHE_SIZE: usize = 10_000;

/// The anchor caches are smaller than the property caches by this factor.
pub const ANCHOR_CACHE_SIZE_RATIO: usize = 5;

/// Least capacity of the anchor caches.
pub const MIN_ANCHOR_CACHE_SIZE: usize = 100;

/// All settings of a version history.
#[derive(Clone, Copy, Debug, PartialEq, Eq, Structural)]
pub struct HistoricalConfig {
    /// Maximum number of versions to keep per entity.
    pub max_versions_per_entity: usize,
    /// Maximum number of versions that a reconstruction walks back.
    pub max_reconstruction_depth: usize,
    /// One version in this many is an anchor.
    pub anchor_interval: u32,
    /// The longest run of deltas to aim for.
    pub max_delta_chain: u32,
    /// Capacity of the caches of reconstructed properties.
    pub reconstruction_cache_size: usize,
    /// Maximum number of entities of one kind that a schema query reconstructs.
    pub max_schema_as_of_entities: usize,
}

/// The version history of a graph.
pub struct HistoricalStorage {
    /// How often a version stores all properties.
    pub config: AnchorConfig,
    /// How many versions are kept.
    pub retention_policy: RetentionPolicy,
    /// Maximum number of versions that a reconstruction walks back.
    pub max_reconstruction_depth: usize,
    /// Maximum number of entities of one kind that a schema query reconstructs.
    pub max_schema_as_of_entities: usize,
    /// The versions of nodes.
    pub nodes: VersionTable<()>,
    /// The versions of edges.
    pub edges: VersionTable<EdgeEnds>,
    /// Counters.
    pub meters: Meters,
    /// Who is told of events.
    pub observers: Vec<Observer>,
    /// How long to wait for a hook.
    pub hook_timeout: Option<Duration>,
    /// Index of edges by their ends.
    pub adjacency: Option<TemporalAdjacencyIndex>,
}

/// The capacity of the anchor caches that goes with a capacity of the property caches.
pub open spec fn anchor_cache_size(cache_size: usize) -> usize {
    if cache_size / ANCHOR_CACHE_SIZE_RATIO > MIN_ANCHOR_CACHE_SIZE {
        cache_size / ANCHOR_CACHE_SIZE_RATIO
    } else {
        MIN_ANCHOR_CACHE_SIZE
    }
}

/// The adjacency index after a version of an edge was stored: the version before is closed at
/// `closed`, and the new one is recorded unless it is a deletion.
pub open spec fn adjacency_after(
    before: Seq<AdjacencyRecord>,
    closed: Option<Timestamp>,
    new: NewVersion<EdgeEnds>,
    is_tombstone: bool,
) -> Seq<AdjacencyRecord> {
    let edge = EdgeId(new.entity);
    let masked = match closed {
        Some(end) => records_closed(before, edge, new.ends, end),
        None => before,
    };
    if is_tombstone {
        masked
    } else {
        masked.push(
            AdjacencyRecord { edge, ends: new.ends, label: new.label, interval: new.temporal },
        )
    }
}

/// The interval of a version: open from `valid_from` and `tx_time` on; empty in valid time for a
/// deletion.
pub open spec fn version_interval(
    valid_from: Timestamp,
    tx_time: Timestamp,
    is_tombstone: bool,
) -> BiTemporalInterval {
    if is_tombstone {
        BiTemporalInterval::opened(valid_from, tx_time).with_valid_end(valid_from)
    } else {
        BiTemporalInterval::opened(valid_from, tx_time)
    }
}

/// The events that observers are told of when a version was stored.
pub open spec fn stored_events<E>(
    table: VersionTable<E>,
    new: NewVersion<E>,
    is_anchor: bool,
) -> Seq<StorageEvent> {
    events_of(
        table.kind,
        new.id,
        new.entity,
        new.temporal.transaction_time.start,
        is_anchor,
        table.policies.policy_of(new.entity) == SnapshotPolicy::Snapshot,
    )
}

impl HistoricalStorage {
    /// The limits on version chains.
    pub open spec fn spec_limits(self) -> ChainLimits {
        ChainLimits {
            anchor_interval: self.config.anchor_interval,
            max_versions: self.retention_policy.max_versions_per_entity,
            max_depth: self.max_reconstruction_depth,
        }
    }

    /// The two histories have the same settings and timeouts.
    pub open spec fn same_rules(self, other: HistoricalStorage) -> bool {
        &&& self.config == other.config
        &&& self.retention_policy == other.retention_policy
        &&& self.max_reconstruction_depth == other.max_reconstruction_depth
        &&& self.max_schema_as_of_entities == other.max_schema_as_of_entities
        &&& self.hook_timeout == other.hook_timeout
    }

    /// The two histories have the same settings and timeouts, and observers that heard the same.
    pub open spec fn same_settings(self, other: HistoricalStorage) -> bool {
        &&& self.same_rules(other)
        &&& self.observers == other.observers
    }

    /// A history without versions, with the given settings.
    pub open spec fn is_new(
        self,
        config: AnchorConfig,
        retention_policy: RetentionPolicy,
        cache_size: usize,
    ) -> bool {
        &&& self.config == config
        &&& self.retention_policy == retention_policy
        &&& self.nodes.is_new(EntityKind::Node, cache_size, anchor_cache_size(cache_size))
        &&& self.edges.is_new(EntityKind::Edge, cache_size, anchor_cache_size(cache_size))
        &&& self.meters == Meters::zero()
        &&& self.observers@.len() == 0
        &&& self.hook_timeout is None
        &&& self.adjacency is None
    }

    /// What storing a version of a node does: exactly what storing it in the table of node
    /// versions does.
    pub open spec fn node_stored(
        self,
        new: NewVersion<()>,
        r: Result<(), Error>,
        after: HistoricalStorage,
    ) -> bool {
        &&& match (r, self.nodes.append_verdict(new.entity, self.spec_limits())) {
            (Ok(_), Ok(base)) => {
                &&& self.nodes.appended(new, base, after.nodes)
                &&& all_heard(
                    self.observers@,
                    stored_events(self.nodes, new, base is None),
                    after.observers@,
                )
            },
            (Err(e), Err(f)) => e@ == f && after.nodes == self.nodes && after.observers
                == self.observers,
            _ => false,
        }
        &&& self.nodes.append_metered(
            new,
            self.spec_limits(),
            self.hook_timeout,
            self.meters,
            after.meters,
            after.nodes.versions@[new.id],
            after.nodes.hooks,
        )
        &&& after.edges == self.edges
        &&& after.adjacency == self.adjacency
        &&& after.same_rules(self)
    }

    /// What storing a version of an edge does: what storing it in the table of edge versions
    /// does, and the same in the adjacency index.
    pub open spec fn edge_stored(
        self,
        new: NewVersion<EdgeEnds>,
        is_tombstone: bool,
        r: Result<(), Error>,
        after: HistoricalStorage,
    ) -> bool {
        let closed = closed_end(
            self.edges.versions@,
            entry_of(self.edges.heads@, new.entity),
            new.temporal.transaction_time.start,
        );
        &&& match (r, self.edges.append_verdict(new.entity, self.spec_limits())) {
            (Ok(_), Ok(base)) => {
                &&& self.edges.appended(new, base, after.edges)
                &&& all_heard(
                    self.observers@,
                    stored_events(self.edges, new, base is None),
                    after.observers@,
                )
                &&& match (self.adjacency, after.adjacency) {
                    (Some(before), Some(now)) => now.records@ == adjacency_after(
                        before.records@,
                        closed,
                        new,
                        is_tombstone,
                    ),
                    (before, now) => before == now,
                }
            },
            (Err(e), Err(f)) => e@ == f && after.edges == self.edges && after.adjacency
                == self.adjacency && after.observers == self.observers,
            _ => false,
        }
        &&& self.edges.append_metered(
            new,
            self.spec_limits(),
            self.hook_timeout,
            self.meters,
            after.meters,
            after.edges.versions@[new.id],
            after.edges.hooks,
        )
        &&& after.nodes == self.nodes
        &&& after.same_rules(self)
    }

    /// A history with default settings.
    pub fn new() -> (r: HistoricalStorage)
        ensures
            r.config == (AnchorConfig { anchor_interval: 10, max_delta_chain: 20 }),
            r.is_new(r.config, r.retention_policy, DEFAULT_RECONSTRUCTION_CACHE_SIZE),
            r.retention_policy.max_versions_per_entity
                == super::policy::DEFAULT_MAX_VERSIONS_PER_ENTITY,
            r.retention_policy.max_age_ms == DEFAULT_MAX_VERSION_AGE_MS,
            r.max_reconstruction_depth == MAX_RECONSTRUCTION_DEPTH,
            r.max_schema_as_of_entities == DEFAULT_MAX_SCHEMA_AS_OF_ENTITIES,
    {
        Self::with_config(AnchorConfig::default())
    }

    /// A history with the given anchor settings.
    pub fn with_config(config: AnchorConfig) -> (r: HistoricalStorage)
        ensures
            r.is_new(config, r.retention_policy, DEFAULT_RECONSTRUCTION_CACHE_SIZE),
            r.retention_policy.max_versions_per_entity
                == super::policy::DEFAULT_MAX_VERSIONS_PER_ENTITY,
            r.retention_policy.max_age_ms == DEFAULT_MAX_VERSION_AGE_MS,
            r.max_reconstruction_depth == MAX_RECONSTRUCTION_DEPTH,
            r.max_schema_as_of_entities == DEFAULT_MAX_SCHEMA_AS_OF_ENTITIES,
    {
        Self::with_config_and_retention(config, RetentionPolicy::default())
    }

    /// A history with the given anchor settings and retention policy.
    pub fn with_config_and_retention(
        config: AnchorConfig,
        retention_policy: RetentionPolicy,
    ) -> (r: HistoricalStorage)
        ensures
            r.is_new(config, retention_policy, DEFAULT_RECONSTRUCTION_CACHE_SIZE),
            r.max_reconstruction_depth == MAX_RECONSTRUCTION_DEPTH,
            r.max_schema_as_of_entities == DEFAULT_MAX_SCHEMA_AS_OF_ENTITIES,
    {
        Self::with_config_retention_and_cache_size(
            config,
            retention_policy,
            DEFAULT_RECONSTRUCTION_CACHE_SIZE,
        )
    }

    /// A history with the given settings. The age limit of versions is the default one.
    pub fn from_unified_config(config: HistoricalConfig) -> (r: HistoricalStorage)
        ensures
            r.is_new(
                AnchorConfig {
                    anchor_interval: config.anchor_interval,
                    max_delta_chain: config.max_delta_chain,
                },
                RetentionPolicy {
                    max_versions_per_entity: config.max_versions_per_entity,
                    max_age_ms: DEFAULT_MAX_VERSION_AGE_MS,
                },
                config.reconstruction_cache_size,
            ),
            r.max_reconstruction_depth == config.max_reconstruction_depth,
            r.max_schema_as_of_entities == config.max_schema_as_of_entities,
    {
        let retention_policy = RetentionPolicy::new(
            config.max_versions_per_entity,
            DEFAULT_MAX_VERSION_AGE_MS,
        );
        let anchor_config = AnchorConfig {
            anchor_interval: config.anchor_interval,
            max_delta_chain: config.max_delta_chain,
        };
        let mut storage = Self::with_config_retention_and_cache_size(
            anchor_config,
            retention_policy,
            config.reconstruction_cache_size,
        );
        storage.max_reconstruction_depth = config.max_reconstruction_depth;
        storage.max_schema_as_of_entities = config.max_schema_as_of_entities;
        storage
    }

    fn size_anchor_cache(cache_size: usize) -> (r: usize)
        ensures
            r == anchor_cache_size(cache_size),
    {
        let share: usize = cache_size / ANCHOR_CACHE_SIZE_RATIO;
        if share > MIN_ANCHOR_CACHE_SIZE {
            share
        } else {
            MIN_ANCHOR_CACHE_SIZE
        }
    }

    /// A history with the given settings and cache capacity.
    pub fn with_config_retention_and_cache_size(
        config: AnchorConfig,
        retention_policy: RetentionPolicy,
        cache_size: usize,
    ) -> (r: HistoricalStorage)
        ensures
            r.is_new(config, retention_policy, cache_size),
            r.max_reconstruction_depth == MAX_RECONSTRUCTION_DEPTH,
            r.max_schema_as_of_entities == DEFAULT_MAX_SCHEMA_AS_OF_ENTITIES,
    {
        let anchor_capacity: usize = Self::size_anchor_cache(cache_size);
        HistoricalStorage {
            config,
            retention_policy,
            max_reconstruction_depth: MAX_RECONSTRUCTION_DEPTH,
            max_schema_as_of_entities: DEFAULT_MAX_SCHEMA_AS_OF_ENTITIES,
            nodes: VersionTable::new(EntityKind::Node, cache_size, anchor_capacity),
            edges: VersionTable::new(EntityKind::Edge, cache_size, anchor_capacity),
            meters: Meters::new(),
            observers: Vec::new(),
            hook_timeout: None,
            adjacency: None,
        }
    }

    /// The limits on version chains.
    pub fn limits(&self) -> (r: ChainLimits)
        ensures
            r == self.spec_limits(),
    {
        ChainLimits {
            anchor_interval: self.config.anchor_interval,
            max_versions: self.retention_policy.max_versions_per_entity,
            max_depth: self.max_reconstruction_depth,
        }
    }

    /// Stores a version of a node with a given interval, and tells the observers.
    pub fn add_node_version_with_interval(&mut self, new: NewVersion<()>) -> (r: Result<(), Error>)
        requires
            old(self).nodes.has_room(new.entity),
        ensures
            old(self).node_stored(new, r, *final(self)),
    {
        let (id, entity) = (new.id, new.entity);
        let timestamp = new.temporal.transaction_time.start;
        let limits = self.limits();
        match self.nodes.append(new, &limits, self.hook_timeout, &mut self.meters) {
            Ok(done) => {
                let snapshots = self.nodes.policies.resolve(entity).should_snapshot();
                let events = version_events(
                    self.nodes.kind,
                    id,
                    entity,
                    timestamp,
                    done.is_anchor,
                    snapshots,
                );
                notify_observers(&mut self.observers, &events);
                Ok(())
            },
            Err(e) => Err(e),
        }
    }

    /// Stores a version of an edge with a given interval, keeps the adjacency index in step, and
    /// tells the observers. A deletion is not recorded in the adjacency index.
    pub fn add_edge_version_with_interval(
        &mut self,
        new: NewVersion<EdgeEnds>,
        is_tombstone: bool,
    ) -> (r: Result<(), Error>)
        requires
            old(self).edges.has_room(new.entity),
        ensures
            old(self).edge_stored(new, is_tombstone, r, *final(self)),
    {
        let (id, entity, ends, label) = (new.id, new.entity, new.ends, new.label);
        let temporal = new.temporal;
        let timestamp = temporal.transaction_time.start;
        let limits = self.limits();
        let done: Appended = match self.edges.append(new, &limits, self.hook_timeout, &mut self.meters) {
            Ok(done) => done,
            Err(e) => {
                return Err(e);
            },
        };
        if let Some(end) = done.closed_at {
            if let Some(mut index) = self.adjacency.take() {
                index.close_edge_transaction_time(EdgeId(entity), ends, end);
                self.adjacency = Some(index);
            }
        }
        let snapshots = self.edges.policies.resolve(entity).should_snapshot();
        let events = version_events(
            self.edges.kind,
            id,
            entity,
            timestamp,
            done.is_anchor,
            snapshots,
        );
        notify_observers(&mut self.observers, &events);
        if !is_tombstone {
            if let Some(mut index) = self.adjacency.take() {
                index.insert_edge(EdgeId(entity), ends, label, temporal);
                self.adjacency = Some(index);
            }
        }
        Ok(())
    }

    /// Stores a version of a node that holds from `valid_from` on, or the deletion of the node at
    /// `valid_from`.
    pub fn add_node_version(
        &mut self,
        node_id: NodeId,
        version_id: VersionId,
        valid_from: Timestamp,
        tx_time: Timestamp,
        label: InternedString,
        properties: PropertyMap,
        is_tombstone: bool,
    ) -> (r: Result<(), Error>)
        requires
            old(self).nodes.has_room(node_id.0),
        ensures
            old(self).node_stored(
                NewVersion {
                    entity: node_id.0,
                    id: version_id.0,
                    temporal: version_interval(valid_from, tx_time, is_tombstone),
                    label,
                    ends: (),
                    properties,
                    provenance: None,
                },
                r,
                *final(self),
            ),
    {
        self.add_node_version_with_provenance(
            node_id,
            version_id,
            valid_from,
            tx_time,
            label,
            properties,
            is_tombstone,
            None,
        )
    }

    /// Like [`add_node_version`](Self::add_node_version), with a record of who writes.
    pub fn add_node_version_with_provenance(
        &mut self,
        node_id: NodeId,
        version_id: VersionId,
        valid_from: Timestamp,
        tx_time: Timestamp,
        label: InternedString,
        properties: PropertyMap,
        is_tombstone: bool,
        provenance: Option<Arc<Provenance>>,
    ) -> (r: Result<(), Error>)
        requires
            old(self).nodes.has_room(node_id.0),
        ensures
            old(self).node_stored(
                NewVersion {
                    entity: node_id.0,
                    id: version_id.0,
                    temporal: version_interval(valid_from, tx_time, is_tombstone),
                    label,
                    ends: (),
                    properties,
                    provenance,
                },
                r,
                *final(self),
            ),
    {
        let mut temporal = BiTemporalInterval::with_valid_time(valid_from, tx_time);
        if is_tombstone {
            temporal = match temporal.close_valid_time(valid_from) {
                Ok(t) => t,
                Err(e) => {
                    return Err(Error::Temporal(e));
                },
            };
        }
        self.add_node_version_with_interval(
            NewVersion {
                entity: node_id.0,
                id: version_id.0,
                temporal,
                label,
                ends: (),
                properties,
                provenance,
            },
        )
    }

    /// Stores a version of a node that holds from `valid_from` until `valid_to`.
    pub fn add_retracted_node_version(
        &mut self,
        node_id: NodeId,
        version_id: VersionId,
        valid_from: Timestamp,
        valid_to: Timestamp,
        tx_time: Timestamp,
        label: InternedString,
        properties: PropertyMap,
    ) -> (r: Result<(), Error>)
        requires
            old(self).nodes.has_room(node_id.0),
        ensures
            valid_to.key() < valid_from.key() ==> (r matches Err(e) && e@
                == (ErrorView::InvalidTimeRange { start: valid_from, end: valid_to })
                && *final(self) == *old(self)),
            valid_from.key() <= valid_to.key() ==> old(self).node_stored(
                NewVersion {
                    entity: node_id.0,
                    id: version_id.0,
                    temporal: BiTemporalInterval::opened(valid_from, tx_time).with_valid_end(
                        valid_to,
                    ),
                    label,
                    ends: (),
                    properties,
                    provenance: None,
                },
                r,
                *final(self),
            ),
    {
        self.add_retracted_node_version_with_provenance(
            node_id,
            version_id,
            valid_from,
            valid_to,
            tx_time,
            label,
            properties,
            None,
        )
    }

    /// Like [`add_retracted_node_version`](Self::add_retracted_node_version), with a record of who
    /// writes.
    pub fn add_retracted_node_version_with_provenance(
        &mut self,
        node_id: NodeId,
        version_id: VersionId,
        valid_from: Timestamp,
        valid_to: Timestamp,
        tx_time: Timestamp,
        label: InternedString,
        properties: PropertyMap,
        provenance: Option<Arc<Provenance>>,
    ) -> (r: Result<(), Error>)
        requires
            old(self).nodes.has_room(node_id.0),
        ensures
            valid_to.key() < valid_from.key() ==> (r matches Err(e) && e@
                == (ErrorView::InvalidTimeRange { start: valid_from, end: valid_to })
                && *final(self) == *old(self)),
            valid_from.key() <= valid_to.key() ==> old(self).node_stored(
                NewVersion {
                    entity: node_id.0,
                    id: version_id.0,
                    temporal: BiTemporalInterval::opened(valid_from, tx_time).with_valid_end(
                        valid_to,
                    ),
                    label,
                    ends: (),
                    properties,
                    provenance,
                },
                r,
                *final(self),
            ),
    {
        let opened = BiTemporalInterval::with_valid_time(valid_from, tx_time);
        let temporal = match opened.close_valid_time(valid_to) {
            Ok(t) => t,
            Err(e) => {
                return Err(Error::Temporal(e));
            },
        };
        self.add_node_version_with_interval(
            NewVersion {
                entity: node_id.0,
                id: version_id.0,
                temporal,
                label,
                ends: (),
                properties,
                provenance,
            },
        )
    }

    /// Stores a version of an edge that holds from `valid_from` on, or the deletion of the edge at
    /// `valid_from`.
    pub fn add_edge_version(
        &mut self,
        edge_id: EdgeId,
        version_id: VersionId,
        valid_from: Timestamp,
        tx_time: Timestamp,
        label: InternedString,
        source: NodeId,
        target: NodeId,
        properties: PropertyMap,
        is_tombstone: bool,
    ) -> (r: Result<(), Error>)
        requires
            old(self).edges.has_room(edge_id.0),
        ensures
            old(self).edge_stored(
                NewVersion {
                    entity: edge_id.0,
                    id: version_id.0,
                    temporal: version_interval(valid_from, tx_time, is_tombstone),
                    label,
                    ends: EdgeEnds { source, target },
                    properties,
                    provenance: None,
                },
                is_tombstone,
                r,
                *final(self),
            ),
    {
        self.add_edge_version_with_provenance(
            edge_id,
            version_id,
            valid_from,
            tx_time,
            label,
            source,
            target,
            properties,
            is_tombstone,
            None,
        )
    }

    /// Like [`add_edge_version`](Self::add_edge_version), with a record of who writes.
    pub fn add_edge_version_with_provenance(
        &mut self,
        edge_id: EdgeId,
        version_id: VersionId,
        valid_from: Timestamp,
        tx_time: Timestamp,
        label: InternedString,
        source: NodeId,
        target: NodeId,
        properties: PropertyMap,
        is_tombstone: bool,
        provenance: Option<Arc<Provenance>>,
    ) -> (r: Result<(), Error>)
        requires
            old(self).edges.has_room(edge_id.0),
        ensures
            old(self).edge_stored(
                NewVersion {
                    entity: edge_id.0,
                    id: version_id.0,
                    temporal: version_interval(valid_from, tx_time, is_tombstone),
                    label,
                    ends: EdgeEnds { source, target },
                    properties,
                    provenance,
                },
                is_tombstone,
                r,
                *final(self),
            ),
    {
        let mut temporal = BiTemporalInterval::with_valid_time(valid_from, tx_time);
        if is_tombstone {
            temporal = match temporal.close_valid_time(valid_from) {
                Ok(t) => t,
                Err(e) => {
                    return Err(Error::Temporal(e));
                },
            };
        }
        self.add_edge_version_with_interval(
            NewVersion {
                entity: edge_id.0,
                id: version_id.0,
                temporal,
                label,
                ends: EdgeEnds { source, target },
                properties,
                provenance,
            },
            is_tombstone,
        )
    }

    /// Stores a version of an edge that holds from `valid_from` until `valid_to`. It stays
    /// traversable where it holds.
    pub fn add_retracted_edge_version(
        &mut self,
        edge_id: EdgeId,
        version_id: VersionId,
        valid_from: Timestamp,
        valid_to: Timestamp,
        tx_time: Timestamp,
        label: InternedString,
        source: NodeId,
        target: NodeId,
        properties: PropertyMap,
    ) -> (r: Result<(), Error>)
        requires
            old(self).edges.has_room(edge_id.0),
        ensures
            valid_to.key() < valid_from.key() ==> (r matches Err(e) && e@
                == (ErrorView::InvalidTimeRange { start: valid_from, end: valid_to })
                && *final(self) == *old(self)),
            valid_from.key() <= valid_to.key() ==> old(self).edge_stored(
                NewVersion {
                    entity: edge_id.0,
                    id: version_id.0,
                    temporal: BiTemporalInterval::opened(valid_from, tx_time).with_valid_end(
                        valid_to,
                    ),
                    label,
                    ends: EdgeEnds { source, target },
                    properties,
                    provenance: None,
                },
                false,
                r,
                *final(self),
            ),
    {
        self.add_retracted_edge_version_with_provenance(
            edge_id,
            version_id,
            valid_from,
            valid_to,
            tx_time,
            label,
            source,
            target,
            properties,
            None,
        )
    }

    /// Like [`add_retracted_edge_version`](Self::add_retracted_edge_version), with a record of who
    /// writes.
    pub fn add_retracted_edge_version_with_provenance(
        &mut self,
        edge_id: EdgeId,
        version_id: VersionId,
        valid_from: Timestamp,
        valid_to: Timestamp,
        tx_time: Timestamp,
        label: InternedString,
        source: NodeId,
        target: NodeId,
        properties: PropertyMap,
        provenance: Option<Arc<Provenance>>,
    ) -> (r: Result<(), Error>)
        requires
            old(self).edges.has_room(edge_id.0),
        ensures
            valid_to.key() < valid_from.key() ==> (r matches Err(e) && e@
                == (ErrorView::InvalidTimeRange { start: valid_from, end: valid_to })
                && *final(self) == *old(self)),
            valid_from.key() <= valid_to.key() ==> old(self).edge_stored(
                NewVersion {
                    entity: edge_id.0,
                    id: version_id.0,
                    temporal: BiTemporalInterval::opened(valid_from, tx_time).with_valid_end(
                        valid_to,
                    ),
                    label,
                    ends: EdgeEnds { source, target },
                    properties,
                    provenance,
                },
                false,
                r,
                *final(self),
            ),
    {
        let opened = BiTemporalInterval::with_valid_time(valid_from, tx_time);
        let temporal = match opened.close_valid_time(valid_to) {
            Ok(t) => t,
            Err(e) => {
                return Err(Error::Temporal(e));
            },
        };
        self.add_edge_version_with_interval(
            NewVersion {
                entity: edge_id.0,
                id: version_id.0,
                temporal,
                label,
                ends: EdgeEnds { source, target },
                properties,
                provenance,
            },
            false,
        )
    }
}

/// The anchor caches have a fifth of the capacity of the property caches, but room for a hundred at
/// least.
pub proof fn law_anchor_caches_are_smaller(cache_size: usize)
    ensures
        anchor_cache_size(cache_size) >= 100,
        cache_size >= 505 ==> 5 * anchor_cache_size(cache_size) <= cache_size < 5 * anchor_cache_size(
            cache_size,
        ) + 5,
        cache_size < 505 ==> anchor_cache_size(cache_size) == 100,
{
}

} // verus!

//! Looking after the version history: settings, tiers, restoration, statistics.

use super::adjacency_index::{edges_at, records_closed, TemporalAdjacencyIndex};
use super::cache::{cache_clear, cache_len, cached, limit_of};
use super::chain::{ColdTier, MAX_RECONSTRUCTION_DEPTH};
use super::hooks::{Observer, PreAnchorHook};
use super::interval_index::{index_with, IndexEntry, TemporalIndex};
use super::metrics::{
    CacheMetrics, HistoricalStats, HookMetricsSnapshot, DEFAULT_AVG_DELTA_CHAIN,
};
use super::migrate::MigrationRun;
use super::policy::{
    AnchorConfig, SnapshotPolicy, DEFAULT_MAX_SCHEMA_AS_OF_ENTITIES, DEFAULT_MAX_VERSIONS_PER_ENTITY,
    DEFAULT_MAX_VERSION_AGE_MS,
};
use super::rebuild::{has_versions, latest, links_go_back, rebuild_ends, relinked_all};
use super::storage::{HistoricalStorage, DEFAULT_RECONSTRUCTION_CACHE_SIZE};
use super::table::{entry_of, number_of, VersionTable};
use super::walk::since_anchor_of;
use crate::error::{Error, ErrorView, StorageError};
use crate::ids::{EdgeId, InternedString, NodeId, VersionId, MAX_VALID_ID};
use crate::maps::{keys_of, lists_keys};
use crate::ratio::Ratio;
use crate::temporal::Timestamp;
use crate::text::{decimal, push_decimal};
use crate::version::{EdgeEnds, EdgeVersion, EntityVersion, NodeVersion, VersionData};
use std::sync::Arc;
use std::time::Duration;
use vstd::prelude::*;

verus! {

broadcast use vstd::std_specs::hash::group_hash_axioms;

/// The cold tiers of both kinds of entity.
pub struct TieredStorage {
    /// Cold versions of nodes.
    pub nodes: ColdTier<()>,
    /// Cold versions of edges.
    pub edges: ColdTier<EdgeEnds>,
}

/// The interval indexes of both kinds of entity.
pub struct TemporalIndexes {
    /// Intervals of node versions.
    pub nodes: TemporalIndex,
    /// Intervals of edge versions.
    pub edges: TemporalIndex,
}

/// All versions in memory at one point of the write-ahead log.
pub struct HistoricalStorageSnapshot {
    /// The point of the log.
    pub lsn: u64,
    /// Versions of nodes.
    pub node_versions: Vec<NodeVersion>,
    /// Versions of edges.
    pub edge_versions: Vec<EdgeVersion>,
}

/// All versions are listed, each once.
pub open spec fn lists_versions<E>(
    s: Seq<EntityVersion<E>>,
    m: Map<u64, EntityVersion<E>>,
) -> bool {
    exists|ids: Seq<u64>| #[trigger]
        lists_keys(ids, m) && ids.len() == s.len() && forall|i: int|
            0 <= i < s.len() ==> #[trigger] s[i] == m[ids[i]]
}

/// The error about a reserved identifier.
pub open spec fn reserved(what: Seq<char>, id: u64) -> ErrorView {
    ErrorView::InconsistentState {
        reason: "Invalid "@ + what + " ID: "@ + decimal(id as nat),
    }
}

/// What is wrong with the identifiers of a restored version, if one of them is reserved: first
/// that of the version, then that of the entity, whose kind has the given name.
pub open spec fn reserved_in<E>(version: EntityVersion<E>, word: Seq<char>) -> Option<ErrorView> {
    if version.id > MAX_VALID_ID {
        Some(reserved("version"@, version.id))
    } else if version.entity > MAX_VALID_ID {
        Some(reserved(word, version.entity))
    } else {
        None
    }
}

fn reserved_error(what: &str, id: u64) -> (r: Error)
    ensures
        r@ == reserved(what@, id),
{
    let mut reason = String::from_str("Invalid ");
    reason.append(what);
    reason.append(" ID: ");
    push_decimal(&mut reason, id);
    Error::Storage(StorageError::InconsistentState { reason })
}

fn check_restored<E>(version: &EntityVersion<E>, word: &str) -> (r: Result<(), Error>)
    ensures
        match reserved_in(*version, word@) {
            Some(refusal) => r matches Err(e) && e@ == refusal,
            None => r is Ok,
        },
{
    if version.id > MAX_VALID_ID {
        Err(reserved_error("version", version.id))
    } else if version.entity > MAX_VALID_ID {
        Err(reserved_error(word, version.entity))
    } else {
        Ok(())
    }
}

impl<E> VersionTable<E> {
    /// The two tables differ at most in their snapshot policies and hooks.
    pub open spec fn same_but_policies_and_hooks(self, other: VersionTable<E>) -> bool {
        &&& self.kind == other.kind
        &&& self.versions == other.versions
        &&& self.heads == other.heads
        &&& self.counts == other.counts
        &&& self.since_anchor == other.since_anchor
        &&& self.anchor_count == other.anchor_count
        &&& self.delta_count == other.delta_count
        &&& self.property_cache == other.property_cache
        &&& self.anchor_cache == other.anchor_cache
        &&& self.index == other.index
        &&& self.cold == other.cold
    }

    /// The two tables differ at most in what they hold of versions and chains.
    pub open spec fn same_attachments(self, other: VersionTable<E>) -> bool {
        &&& self.kind == other.kind
        &&& self.property_cache == other.property_cache
        &&& self.anchor_cache == other.anchor_cache
        &&& self.index == other.index
        &&& self.cold == other.cold
        &&& self.policies == other.policies
        &&& self.hooks == other.hooks
    }

    /// The table after a restored version was put into memory as the latest of its entity.
    pub open spec fn restored(self, version: EntityVersion<E>, after: VersionTable<E>) -> bool {
        &&& after.versions@ == self.versions@.insert(version.id, version)
        &&& after.heads@ == self.heads@.insert(version.entity, version.id)
        &&& after.counts@ == self.counts@.insert(
            version.entity,
            (number_of(self.counts@, version.entity) + 1) as usize,
        )
        &&& after.anchor_count == self.anchor_count + if version.anchored() {
            1int
        } else {
            0
        }
        &&& after.delta_count == self.delta_count + if version.anchored() {
            0int
        } else {
            1
        }
        &&& after.since_anchor == self.since_anchor
        &&& after.same_attachments(self)
    }

    /// The table after its chains were rebuilt.
    pub open spec fn rebuilt(self, after: VersionTable<E>) -> bool {
        &&& after.versions@ == relinked_all(self.versions@)
        &&& forall|entity: u64| #[trigger]
            entry_of(after.heads@, entity) == if has_versions(self.versions@, entity) {
                Some(latest(self.versions@, entity))
            } else {
                entry_of(self.heads@, entity)
            }
        &&& forall|entity: u64| #[trigger]
            entry_of(after.since_anchor@, entity) == if has_versions(self.versions@, entity) {
                Some(
                    since_anchor_of(after.versions@, latest(self.versions@, entity)) as usize,
                )
            } else {
                entry_of(self.since_anchor@, entity)
            }
        &&& after.counts == self.counts
        &&& after.anchor_count == self.anchor_count
        &&& after.delta_count == self.delta_count
        &&& after.same_attachments(self)
    }

    /// The index lists every version in memory, and what it listed before, with nothing else.
    pub open spec fn reindexed(
        self,
        before: Map<u64, Seq<IndexEntry>>,
        after: Map<u64, Seq<IndexEntry>>,
    ) -> bool {
        exists|ids: Seq<u64>| #[trigger]
            lists_keys(ids, self.versions@) && after == indexed_all(before, self.versions@, ids)
    }
}

/// The index after the listed versions were added to it in turn.
pub open spec fn indexed_all<E>(
    index: Map<u64, Seq<IndexEntry>>,
    m: Map<u64, EntityVersion<E>>,
    ids: Seq<u64>,
) -> Map<u64, Seq<IndexEntry>>
    decreases ids.len(),
{
    if ids.len() == 0 {
        index
    } else {
        let id = ids.last();
        index_with(indexed_all(index, m, ids.drop_last()), m[id].entity, id, m[id].temporal)
    }
}

fn index_all<E>(
    index: &mut TemporalIndex,
    versions: &std::collections::HashMap<u64, EntityVersion<E>>,
)
    ensures
        exists|ids: Seq<u64>| #[trigger]
            lists_keys(ids, versions@) && final(index)@ == indexed_all(
                old(index)@,
                versions@,
                ids,
            ),
{
    let ids: Vec<u64> = keys_of(versions);
    let mut i: usize = 0;
    while i < ids.len()
        invariant
            i <= ids.len(),
            lists_keys(ids@, versions@),
            index@ == indexed_all(old(index)@, versions@, ids@.take(i as int)),
        decreases ids.len() - i,
    {
        assert(versions@.contains_key(ids@[i as int]));
        assert(ids@.take(i + 1).drop_last() =~= ids@.take(i as int));
        if let Some(v) = versions.get(&ids[i]) {
            index.insert(v.entity, ids[i], v.temporal);
        }
        i = i + 1;
    }
    assert(ids@.take(i as int) =~= ids@);
    assert(lists_keys(ids@, versions@));
}

impl HistoricalStorage {    /// The two histories differ at most in the snapshot policies of nodes.
    pub open spec fn same_but_node_policies(self, other: HistoricalStorage) -> bool {
        &&& self.nodes.same_but_policies_and_hooks(other.nodes)
        &&& self.nodes.hooks == other.nodes.hooks
        &&& self.edges == other.edges
        &&& self.adjacency == other.adjacency
        &&& self.meters == other.meters
        &&& self.same_settings(other)
    }

    /// The two histories differ at most in the hooks of nodes.
    pub open spec fn same_but_node_hooks(self, other: HistoricalStorage) -> bool {
        &&& self.nodes.same_but_policies_and_hooks(other.nodes)
        &&& self.nodes.policies == other.nodes.policies
        &&& self.edges == other.edges
        &&& self.adjacency == other.adjacency
        &&& self.meters == other.meters
        &&& self.same_settings(other)
    }

    /// The two histories differ at most in the snapshot policies of edges.
    pub open spec fn same_but_edge_policies(self, other: HistoricalStorage) -> bool {
        &&& self.edges.same_but_policies_and_hooks(other.edges)
        &&& self.edges.hooks == other.edges.hooks
        &&& self.nodes == other.nodes
        &&& self.adjacency == other.adjacency
        &&& self.meters == other.meters
        &&& self.same_settings(other)
    }

    /// The two histories differ at most in the hooks of edges.
    pub open spec fn same_but_edge_hooks(self, other: HistoricalStorage) -> bool {
        &&& self.edges.same_but_policies_and_hooks(other.edges)
        &&& self.edges.policies == other.edges.policies
        &&& self.nodes == other.nodes
        &&& self.adjacency == other.adjacency
        &&& self.meters == other.meters
        &&& self.same_settings(other)
    }

    /// Adds an observer, which is told of all later events.
    pub fn add_observer(&mut self, observer: Observer)
        ensures
            final(self).observers@ == old(self).observers@.push(observer),
            *final(self) == (HistoricalStorage {
                observers: final(self).observers,
                ..*old(self)
            }),
    {
        self.observers.push(observer);
    }

    /// Sets how long to wait for a hook; `None` waits until it returns.
    pub fn set_pre_anchor_hook_timeout(&mut self, timeout: Option<Duration>)
        ensures
            *final(self) == (HistoricalStorage { hook_timeout: timeout, ..*old(self) }),
    {
        self.hook_timeout = timeout;
    }

    /// How long to wait for a hook.
    pub fn pre_anchor_hook_timeout(&self) -> (r: Option<Duration>)
        ensures
            r == self.hook_timeout,
    {
        self.hook_timeout
    }

    /// How the hooks fared so far.
    pub fn hook_metrics(&self) -> (r: HookMetricsSnapshot)
        ensures
            r == self.meters.hooks,
    {
        self.meters.hooks
    }

    /// Sets whether the anchors of a node trigger vector snapshots.
    pub fn set_node_snapshot_policy(&mut self, node_id: NodeId, policy: SnapshotPolicy)
        ensures
            final(self).nodes.policies.overrides@ == old(self).nodes.policies.overrides@.insert(
                node_id.0,
                policy,
            ),
            final(self).nodes.policies.fallback == old(self).nodes.policies.fallback,
            final(self).same_but_node_policies(*old(self)),
    {
        self.nodes.policies.set(node_id.0, policy);
    }

    /// Takes a node's own snapshot policy away, and gives it back if there was one.
    pub fn clear_node_snapshot_policy(&mut self, node_id: NodeId) -> (r: Option<SnapshotPolicy>)
        ensures
            final(self).nodes.policies.overrides@ == old(self).nodes.policies.overrides@.remove(
                node_id.0,
            ),
            final(self).nodes.policies.fallback == old(self).nodes.policies.fallback,
            r == entry_of(old(self).nodes.policies.overrides@, node_id.0),
            final(self).same_but_node_policies(*old(self)),
    {
        self.nodes.policies.clear(node_id.0)
    }

    /// Sets the snapshot policy of nodes without one of their own.
    pub fn set_default_node_snapshot_policy(&mut self, policy: SnapshotPolicy)
        ensures
            final(self).nodes.policies.fallback == policy,
            final(self).nodes.policies.overrides == old(self).nodes.policies.overrides,
            final(self).same_but_node_policies(*old(self)),
    {
        self.nodes.policies.set_fallback(policy);
    }

    /// The snapshot policy of nodes without one of their own.
    pub fn default_node_snapshot_policy(&self) -> (r: SnapshotPolicy)
        ensures
            r == self.nodes.policies.fallback,
    {
        self.nodes.policies.fallback
    }

    /// The snapshot policy that applies to a node.
    pub fn node_snapshot_policy(&self, node_id: NodeId) -> (r: SnapshotPolicy)
        ensures
            r == self.nodes.policies.policy_of(node_id.0),
    {
        self.nodes.policies.resolve(node_id.0)
    }

    /// Whether the anchors of a node trigger vector snapshots, by hooks and by events alike.
    pub fn node_anchor_triggers_vector_snapshot(&self, node_id: NodeId) -> (r: bool)
        ensures
            r == (self.nodes.policies.policy_of(node_id.0) == SnapshotPolicy::Snapshot),
    {
        self.nodes.policies.resolve(node_id.0).should_snapshot()
    }

    /// Makes `hook` the only one that is called before a node anchor is stored.
    pub fn register_pre_node_anchor_hook(&mut self, hook: PreAnchorHook)
        ensures
            final(self).nodes.hooks@ == seq![hook],
            final(self).same_but_node_hooks(*old(self)),
    {
        let mut hooks: Vec<PreAnchorHook> = Vec::new();
        hooks.push(hook);
        self.nodes.hooks = hooks;
        assert(self.nodes.hooks@ =~= seq![hook]);
    }

    /// Adds a hook that is called before a node anchor is stored, after those already there.
    pub fn add_pre_node_anchor_hook(&mut self, hook: PreAnchorHook)
        ensures
            final(self).nodes.hooks@ == old(self).nodes.hooks@.push(hook),
            final(self).same_but_node_hooks(*old(self)),
    {
        self.nodes.hooks.push(hook);
    }

    /// Sets whether the anchors of an edge trigger vector snapshots.
    pub fn set_edge_snapshot_policy(&mut self, edge_id: EdgeId, policy: SnapshotPolicy)
        ensures
            final(self).edges.policies.overrides@ == old(self).edges.policies.overrides@.insert(
                edge_id.0,
                policy,
            ),
            final(self).edges.policies.fallback == old(self).edges.policies.fallback,
            final(self).same_but_edge_policies(*old(self)),
    {
        self.edges.policies.set(edge_id.0, policy);
    }

    /// Takes an edge's own snapshot policy away, and gives it back if there was one.
    pub fn clear_edge_snapshot_policy(&mut self, edge_id: EdgeId) -> (r: Option<SnapshotPolicy>)
        ensures
            final(self).edges.policies.overrides@ == old(self).edges.policies.overrides@.remove(
                edge_id.0,
            ),
            final(self).edges.policies.fallback == old(self).edges.policies.fallback,
            r == entry_of(old(self).edges.policies.overrides@, edge_id.0),
            final(self).same_but_edge_policies(*old(self)),
    {
        self.edges.policies.clear(edge_id.0)
    }

    /// Sets the snapshot policy of edges without one of their own.
    pub fn set_default_edge_snapshot_policy(&mut self, policy: SnapshotPolicy)
        ensures
            final(self).edges.policies.fallback == policy,
            final(self).edges.policies.overrides == old(self).edges.policies.overrides,
            final(self).same_but_edge_policies(*old(self)),
    {
        self.edges.policies.set_fallback(policy);
    }

    /// The snapshot policy of edges without one of their own.
    pub fn default_edge_snapshot_policy(&self) -> (r: SnapshotPolicy)
        ensures
            r == self.edges.policies.fallback,
    {
        self.edges.policies.fallback
    }

    /// The snapshot policy that applies to an edge.
    pub fn edge_snapshot_policy(&self, edge_id: EdgeId) -> (r: SnapshotPolicy)
        ensures
            r == self.edges.policies.policy_of(edge_id.0),
    {
        self.edges.policies.resolve(edge_id.0)
    }

    /// Whether the anchors of an edge trigger vector snapshots, by hooks and by events alike.
    pub fn edge_anchor_triggers_vector_snapshot(&self, edge_id: EdgeId) -> (r: bool)
        ensures
            r == (self.edges.policies.policy_of(edge_id.0) == SnapshotPolicy::Snapshot),
    {
        self.edges.policies.resolve(edge_id.0).should_snapshot()
    }

    /// Makes `hook` the only one that is called before an edge anchor is stored.
    pub fn register_pre_edge_anchor_hook(&mut self, hook: PreAnchorHook)
        ensures
            final(self).edges.hooks@ == seq![hook],
            final(self).same_but_edge_hooks(*old(self)),
    {
        let mut hooks: Vec<PreAnchorHook> = Vec::new();
        hooks.push(hook);
        self.edges.hooks = hooks;
        assert(self.edges.hooks@ =~= seq![hook]);
    }

    /// Adds a hook that is called before an edge anchor is stored, after those already there.
    pub fn add_pre_edge_anchor_hook(&mut self, hook: PreAnchorHook)
        ensures
            final(self).edges.hooks@ == old(self).edges.hooks@.push(hook),
            final(self).same_but_edge_hooks(*old(self)),
    {
        self.edges.hooks.push(hook);
    }

    /// Sets the cold tiers.
    pub fn set_tiered_storage(&mut self, tiered: TieredStorage)
        ensures
            final(self).nodes == (VersionTable { cold: Some(tiered.nodes), ..old(self).nodes }),
            final(self).edges == (VersionTable { cold: Some(tiered.edges), ..old(self).edges }),
            final(self).adjacency == old(self).adjacency,
            final(self).meters == old(self).meters,
            final(self).same_settings(*old(self)),
    {
        self.nodes.cold = Some(tiered.nodes);
        self.edges.cold = Some(tiered.edges);
    }

    /// The cold tiers, if there are any.
    pub fn tiered_storage(&self) -> (r: Option<(&ColdTier<()>, &ColdTier<EdgeEnds>)>)
        ensures
            match (r, self.nodes.cold, self.edges.cold) {
                (Some(t), Some(n), Some(e)) => *t.0 == n && *t.1 == e,
                (None, n, e) => n is None || e is None,
                _ => false,
            },
    {
        match (&self.nodes.cold, &self.edges.cold) {
            (Some(n), Some(e)) => Some((n, e)),
            _ => None,
        }
    }

    /// The cold tiers as they are now, if there are any, for a reader that goes through them while
    /// the history goes on.
    pub fn tiered_storage_arc(&self) -> (r: Option<Arc<TieredStorage>>)
        ensures
            match (r, self.nodes.cold, self.edges.cold) {
                (Some(tiers), Some(nodes), Some(edges)) => {
                    &&& tiers.nodes.says_the_same(nodes)
                    &&& tiers.edges.says_the_same(edges)
                },
                (None, nodes, edges) => nodes is None || edges is None,
                _ => false,
            },
    {
        match (&self.nodes.cold, &self.edges.cold) {
            (Some(nodes), Some(edges)) => Some(
                Arc::new(TieredStorage { nodes: nodes.copied(), edges: edges.copied() }),
            ),
            _ => None,
        }
    }

    /// Whether there are cold tiers.
    pub fn has_tiered_storage(&self) -> (r: bool)
        ensures
            r == (self.nodes.cold is Some && self.edges.cold is Some),
    {
        self.nodes.cold.is_some() && self.edges.cold.is_some()
    }

    /// Sets the indexes of intervals.
    pub fn set_temporal_indexes(&mut self, indexes: TemporalIndexes)
        ensures
            final(self).nodes == (VersionTable { index: Some(indexes.nodes), ..old(self).nodes }),
            final(self).edges == (VersionTable { index: Some(indexes.edges), ..old(self).edges }),
            final(self).adjacency == old(self).adjacency,
            final(self).meters == old(self).meters,
            final(self).same_settings(*old(self)),
    {
        self.nodes.index = Some(indexes.nodes);
        self.edges.index = Some(indexes.edges);
    }

    /// Takes the indexes of intervals away and gives them back.
    pub fn take_temporal_indexes(&mut self) -> (r: Option<TemporalIndexes>)
        ensures
            final(self).nodes == (VersionTable { index: None, ..old(self).nodes }),
            final(self).edges == (VersionTable { index: None, ..old(self).edges }),
            final(self).adjacency == old(self).adjacency,
            final(self).meters == old(self).meters,
            final(self).same_settings(*old(self)),
            match (r, old(self).nodes.index, old(self).edges.index) {
                (Some(t), Some(n), Some(e)) => t.nodes == n && t.edges == e,
                (None, n, e) => n is None || e is None,
                _ => false,
            },
    {
        let nodes = self.nodes.index.take();
        let edges = self.edges.index.take();
        match (nodes, edges) {
            (Some(n), Some(e)) => Some(TemporalIndexes { nodes: n, edges: e }),
            _ => None,
        }
    }

    /// Sets the adjacency index.
    pub fn set_temporal_adjacency_index(&mut self, index: TemporalAdjacencyIndex)
        ensures
            *final(self) == (HistoricalStorage { adjacency: Some(index), ..*old(self) }),
    {
        self.adjacency = Some(index);
    }

    /// The adjacency index, if there is one.
    pub fn get_temporal_adjacency_index(&self) -> (r: Option<&TemporalAdjacencyIndex>)
        ensures
            match (r, self.adjacency) {
                (Some(i), Some(j)) => *i == j,
                (None, None) => true,
                _ => false,
            },
    {
        match &self.adjacency {
            Some(index) => Some(index),
            None => None,
        }
    }

    /// The edges from a node that are visible at the point; none without an adjacency index.
    pub fn get_outgoing_edges_at_time(
        &self,
        source: NodeId,
        valid_time: Timestamp,
        transaction_time: Timestamp,
    ) -> (r: Vec<EdgeId>)
        ensures
            r@ == (match self.adjacency {
                Some(i) => edges_at(i.records@, source, true, valid_time, transaction_time),
                None => Seq::empty(),
            }),
    {
        match &self.adjacency {
            Some(index) => index.get_outgoing_at_time(source, valid_time, transaction_time),
            None => Vec::new(),
        }
    }

    /// The edges to a node that are visible at the point; none without an adjacency index.
    pub fn get_incoming_edges_at_time(
        &self,
        target: NodeId,
        valid_time: Timestamp,
        transaction_time: Timestamp,
    ) -> (r: Vec<EdgeId>)
        ensures
            r@ == (match self.adjacency {
                Some(i) => edges_at(i.records@, target, false, valid_time, transaction_time),
                None => Seq::empty(),
            }),
    {
        match &self.adjacency {
            Some(index) => index.get_incoming_at_time(target, valid_time, transaction_time),
            None => Vec::new(),
        }
    }

    /// A version of a node, from memory or from the cold tier.
    pub fn get_node_version_tiered(&mut self, version_id: VersionId) -> (r: Result<
        Option<NodeVersion>,
        Error,
    >)
        ensures
            match (r, old(self).nodes.tiers().lookup(version_id.0)) {
                (Ok(found), Ok(expected)) => found == expected,
                (Err(e), Err(f)) => e@ == f,
                _ => false,
            },
            old(self).nodes.looked_up(version_id.0, final(self).nodes),
            *final(self) == (HistoricalStorage { nodes: final(self).nodes, ..*old(self) }),
    {
        self.nodes.version_tiered(version_id.0)
    }

    /// A version of an edge, from memory or from the cold tier.
    pub fn get_edge_version_tiered(&mut self, version_id: VersionId) -> (r: Result<
        Option<EdgeVersion>,
        Error,
    >)
        ensures
            match (r, old(self).edges.tiers().lookup(version_id.0)) {
                (Ok(found), Ok(expected)) => found == expected,
                (Err(e), Err(f)) => e@ == f,
                _ => false,
            },
            old(self).edges.looked_up(version_id.0, final(self).edges),
            *final(self) == (HistoricalStorage { edges: final(self).edges, ..*old(self) }),
    {
        self.edges.version_tiered(version_id.0)
    }

    /// Takes note of what the migration service moved to the cold store: first nodes, then edges.
    /// Without cold tiers nothing happens. A failed run ends the migration with its error; what
    /// an earlier run moved stays moved.
    pub fn migrate_to_cold(&mut self, node_run: MigrationRun, edge_run: MigrationRun) -> (r: Result<
        usize,
        Error,
    >)
        requires
            node_run.ran_over(old(self).nodes.versions@),
            edge_run.ran_over(old(self).edges.versions@),
            (node_run.outcome matches Ok(n) ==> (edge_run.outcome matches Ok(k) ==> n + k
                <= usize::MAX)),
        ensures
            final(self).adjacency == old(self).adjacency,
            final(self).meters == old(self).meters,
            final(self).same_settings(*old(self)),
            if old(self).nodes.cold is None || old(self).edges.cold is None {
                r == Ok::<usize, Error>(0) && *final(self) == *old(self)
            } else {
                let nodes = old(self).nodes.migration_of(node_run);
                let edges = old(self).edges.migration_of(edge_run);
                match nodes {
                    Err(e) => r == Err::<usize, Error>(e) && final(self).edges == old(self).edges,
                    Ok(n) => match edges {
                        Err(e) => r == Err::<usize, Error>(e),
                        Ok(k) => r == Ok::<usize, Error>((n + k) as usize),
                    },
                }
            },
            old(self).nodes.cold is Some && old(self).edges.cold is Some ==> {
                &&& old(self).nodes.migration_done(node_run, final(self).nodes)
                &&& old(self).nodes.migration_of(node_run) is Ok
                    ==> old(self).edges.migration_done(edge_run, final(self).edges)
            },
            r matches Ok(n) ==> final(self).nodes.versions@.len() + final(self).edges.versions@.len()
                == old(self).nodes.versions@.len() + old(self).edges.versions@.len() - n,
    {
        if !self.has_tiered_storage() {
            return Ok(0);
        }
        let moved_nodes: usize = match self.nodes.migrate(node_run) {
            Ok(n) => n,
            Err(e) => {
                return Err(e);
            },
        };
        let moved_edges: usize = match self.edges.migrate(edge_run) {
            Ok(n) => n,
            Err(e) => {
                return Err(e);
            },
        };
        Ok(moved_nodes + moved_edges)
    }

    /// How many versions are in memory.
    pub fn hot_version_count(&self) -> (r: usize)
        requires
            self.nodes.versions@.len() + self.edges.versions@.len() <= usize::MAX,
        ensures
            r == self.nodes.versions@.len() + self.edges.versions@.len(),
    {
        self.nodes.versions.len() + self.edges.versions.len()
    }

    /// Estimated memory that the versions in memory take, in bytes.
    pub fn hot_memory_usage(&self) -> (r: usize)
        requires
            self.nodes.versions@.len() * vstd::layout::size_of::<NodeVersion>()
                + self.edges.versions@.len() * vstd::layout::size_of::<EdgeVersion>()
                <= usize::MAX,
        ensures
            r == self.nodes.versions@.len() * vstd::layout::size_of::<NodeVersion>()
                + self.edges.versions@.len() * vstd::layout::size_of::<EdgeVersion>(),
    {
        let node_size: usize = core::mem::size_of::<NodeVersion>();
        let edge_size: usize = core::mem::size_of::<EdgeVersion>();
        let node_count: usize = self.nodes.versions.len();
        let edge_count: usize = self.edges.versions.len();
        assert(0 <= node_count * node_size && 0 <= edge_count * edge_size) by (nonlinear_arith);
        node_count * node_size + edge_count * edge_size
    }

    /// Ends the transaction time of a version of a node.
    pub fn close_node_version_transaction_time(
        &mut self,
        version_id: VersionId,
        end_timestamp: Timestamp,
    ) -> (r: Result<(), Error>)
        ensures
            exists|found: Result<(u64, ()), Error>| #[trigger]
                old(self).nodes.closed_version(
                    version_id.0,
                    end_timestamp,
                    found,
                    final(self).nodes,
                ) && match (r, found) {
                    (Ok(_), Ok(_)) => true,
                    (Err(e), Err(f)) => e == f,
                    _ => false,
                },
            final(self).edges == old(self).edges,
            final(self).adjacency == old(self).adjacency,
            final(self).meters == old(self).meters,
            final(self).same_settings(*old(self)),
    {
        let found = self.nodes.close_transaction_time(version_id.0, end_timestamp);
        assert(old(self).nodes.closed_version(version_id.0, end_timestamp, found, self.nodes));
        match found {
            Ok(_) => Ok(()),
            Err(e) => Err(e),
        }
    }

    /// Ends the transaction time of a version of an edge, in the adjacency index too.
    pub fn close_edge_version_transaction_time(
        &mut self,
        version_id: VersionId,
        end_timestamp: Timestamp,
    ) -> (r: Result<(), Error>)
        ensures
            exists|found: Result<(u64, EdgeEnds), Error>| #[trigger]
                old(self).edges.closed_version(
                    version_id.0,
                    end_timestamp,
                    found,
                    final(self).edges,
                ) && match (r, found) {
                    (Ok(_), Ok(edge)) => match (old(self).adjacency, final(self).adjacency) {
                        (Some(before), Some(now)) => now.records@ == records_closed(
                            before.records@,
                            EdgeId(edge.0),
                            edge.1,
                            end_timestamp,
                        ),
                        (before, now) => before == now,
                    },
                    (Err(e), Err(f)) => e == f && final(self).adjacency == old(self).adjacency,
                    _ => false,
                },
            final(self).nodes == old(self).nodes,
            final(self).meters == old(self).meters,
            final(self).same_settings(*old(self)),
    {
        let found = self.edges.close_transaction_time(version_id.0, end_timestamp);
        assert(old(self).edges.closed_version(version_id.0, end_timestamp, found, self.edges));
        match found {
            Ok((edge, ends)) => {
                if let Some(mut index) = self.adjacency.take() {
                    index.close_edge_transaction_time(EdgeId(edge), ends, end_timestamp);
                    self.adjacency = Some(index);
                }
                Ok(())
            },
            Err(e) => Err(e),
        }
    }

    /// What a version of a node in memory stores.
    pub fn extract_node_version_data(&self, version_id: VersionId) -> (r: Result<
        (VersionId, NodeId, InternedString, Arc<VersionData>),
        Error,
    >)
        ensures
            match r {
                Ok(found) => self.nodes.versions@.contains_key(version_id.0) && {
                    let v = self.nodes.versions@[version_id.0];
                    found == (VersionId(v.id), NodeId(v.entity), v.label, v.data)
                },
                Err(e) => !self.nodes.versions@.contains_key(version_id.0) && e@
                    == ErrorView::VersionNotFound(version_id),
            },
    {
        match self.nodes.versions.get(&version_id.0) {
            Some(v) => Ok(
                (VersionId(v.id), NodeId(v.entity), v.label, v.data.clone()),
            ),
            None => Err(Error::Storage(StorageError::VersionNotFound(version_id))),
        }
    }

    /// What a version of an edge in memory stores.
    pub fn extract_edge_version_data(&self, version_id: VersionId) -> (r: Result<
        (VersionId, EdgeId, InternedString, NodeId, NodeId, Arc<VersionData>),
        Error,
    >)
        ensures
            match r {
                Ok(found) => self.edges.versions@.contains_key(version_id.0) && {
                    let v = self.edges.versions@[version_id.0];
                    found == (VersionId(v.id), EdgeId(v.entity), v.label, v.ends.source, v.ends.target, v.data)
                },
                Err(e) => !self.edges.versions@.contains_key(version_id.0) && e@
                    == ErrorView::VersionNotFound(version_id),
            },
    {
        match self.edges.versions.get(&version_id.0) {
            Some(v) => Ok(
                (VersionId(v.id), EdgeId(v.entity), v.label, v.ends.source, v.ends.target, v.data.clone()),
            ),
            None => Err(Error::Storage(StorageError::VersionNotFound(version_id))),
        }
    }

    /// Statistics about the history.
    pub fn stats(&self) -> (r: HistoricalStats)
        ensures
            r.total_node_versions == self.nodes.versions@.len(),
            r.total_edge_versions == self.edges.versions@.len(),
            r.node_anchor_count == self.nodes.anchor_count,
            r.node_delta_count == self.nodes.delta_count,
            r.edge_anchor_count == self.edges.anchor_count,
            r.edge_delta_count == self.edges.delta_count,
            r.unique_nodes == self.nodes.heads@.len(),
            r.unique_edges == self.edges.heads@.len(),
            r.node_cache_entries == cached(self.nodes.property_cache).len(),
            r.edge_cache_entries == cached(self.edges.property_cache).len(),
            r.node_anchor_cache_entries == cached(self.nodes.anchor_cache).len(),
            r.edge_anchor_cache_entries == cached(self.edges.anchor_cache).len(),
    {
        HistoricalStats {
            total_node_versions: self.nodes.versions.len(),
            total_edge_versions: self.edges.versions.len(),
            node_anchor_count: self.nodes.anchor_count,
            node_delta_count: self.nodes.delta_count,
            edge_anchor_count: self.edges.anchor_count,
            edge_delta_count: self.edges.delta_count,
            unique_nodes: self.nodes.heads.len(),
            unique_edges: self.edges.heads.len(),
            node_cache_entries: cache_len(&self.nodes.property_cache),
            edge_cache_entries: cache_len(&self.edges.property_cache),
            node_anchor_cache_entries: cache_len(&self.nodes.anchor_cache),
            edge_anchor_cache_entries: cache_len(&self.edges.anchor_cache),
        }
    }

    /// How reads of properties were served so far.
    pub fn cache_metrics(&self) -> (r: CacheMetrics)
        ensures
            r == self.meters.cache,
    {
        self.meters.cache
    }

    /// Deltas per anchor, over nodes and edges. The usual number where there are no anchors.
    pub fn calculate_avg_delta_chain(&self) -> (r: Ratio)
        ensures
            r.well_formed(),
            self.nodes.anchor_count + self.edges.anchor_count == 0 ==> r == (Ratio {
                part: DEFAULT_AVG_DELTA_CHAIN as i128,
                whole: 1,
            }),
            self.nodes.anchor_count + self.edges.anchor_count > 0 ==> r.part
                == self.nodes.delta_count + self.edges.delta_count && r.whole
                == self.nodes.anchor_count + self.edges.anchor_count,
    {
        let total_anchors: u128 = self.nodes.anchor_count as u128 + self.edges.anchor_count as u128;
        if total_anchors == 0 {
            return Ratio::whole_number(DEFAULT_AVG_DELTA_CHAIN);
        }
        let total_deltas: u128 = self.nodes.delta_count as u128 + self.edges.delta_count as u128;
        Ratio { part: total_deltas as i128, whole: total_anchors }
    }

    /// How often a cache served a lookup. None if there were no lookups yet.
    pub fn cache_hit_rate(&self) -> (r: Option<Ratio>)
        ensures
            r == self.meters.cache.rate_of(
                self.meters.cache.primary_cache_hits + self.meters.cache.anchor_cache_hits,
            ),
    {
        self.cache_metrics().hit_rate()
    }

    /// The rate at which caches serve lookups, if there were enough lookups to judge by and it is
    /// lower than it should be. Without lookups the rate is zero.
    pub fn should_resize_cache(&self, threshold: Ratio, min_operations: u64) -> (r: Option<Ratio>)
        requires
            self.meters.cache.primary_cache_hits + self.meters.cache.anchor_cache_hits
                + self.meters.cache.full_reconstructions <= u64::MAX,
            i64::MIN < threshold.part <= i64::MAX,
            threshold.whole <= i64::MAX,
        ensures
            ({
                let hits = self.meters.cache.primary_cache_hits
                    + self.meters.cache.anchor_cache_hits;
                let total = hits + self.meters.cache.full_reconstructions;
                let rate = match self.meters.cache.rate_of(hits) {
                    Some(rate) => rate,
                    None => Ratio { part: 0, whole: 1 },
                };
                r == if total >= min_operations && rate.below(threshold) {
                    Some(rate)
                } else {
                    None
                }
            }),
    {
        let metrics = self.cache_metrics();
        if metrics.total_operations() < min_operations {
            return None;
        }
        let rate = match metrics.hit_rate() {
            Some(rate) => rate,
            None => Ratio::whole_number(0),
        };
        if rate.is_below(&threshold) {
            Some(rate)
        } else {
            None
        }
    }

    /// Puts a restored version of a node into memory, unless its identifier or that of the node is
    /// reserved.
    pub fn insert_restored_node_version(&mut self, version: NodeVersion) -> (r: Result<(), Error>)
        requires
            number_of(old(self).nodes.counts@, version.entity) < usize::MAX,
            old(self).nodes.anchor_count < usize::MAX,
            old(self).nodes.delta_count < usize::MAX,
        ensures
            match reserved_in(version, "node"@) {
                Some(refusal) => r matches Err(e) && e@ == refusal && *final(self) == *old(self),
                None => r is Ok && old(self).nodes.restored(version, final(self).nodes),
            },
            *final(self) == (HistoricalStorage { nodes: final(self).nodes, ..*old(self) }),
    {
        match check_restored(&version, "node") {
            Ok(_) => {
                self.nodes.insert_restored(version);
                Ok(())
            },
            Err(e) => Err(e),
        }
    }

    /// Puts a restored version of an edge into memory, unless its identifier or that of the edge is
    /// reserved.
    pub fn insert_restored_edge_version(&mut self, version: EdgeVersion) -> (r: Result<(), Error>)
        requires
            number_of(old(self).edges.counts@, version.entity) < usize::MAX,
            old(self).edges.anchor_count < usize::MAX,
            old(self).edges.delta_count < usize::MAX,
        ensures
            match reserved_in(version, "edge"@) {
                Some(refusal) => r matches Err(e) && e@ == refusal && *final(self) == *old(self),
                None => r is Ok && old(self).edges.restored(version, final(self).edges),
            },
            *final(self) == (HistoricalStorage { edges: final(self).edges, ..*old(self) }),
    {
        match check_restored(&version, "edge") {
            Ok(_) => {
                self.edges.insert_restored(version);
                Ok(())
            },
            Err(e) => Err(e),
        }
    }

    /// Whether every link back from a version in memory to another one in memory goes to an earlier
    /// version of the same entity. Where it does, [`HistoricalStorage::rebuild_version_chains`] can
    /// be called.
    pub fn has_links_back(&self) -> (r: bool)
        ensures
            r == (links_go_back(self.nodes.versions@) && links_go_back(self.edges.versions@)),
            r ==> rebuild_ends(self.nodes.versions@) && rebuild_ends(self.edges.versions@),
    {
        self.nodes.has_links_back() && self.edges.has_links_back()
    }

    /// Rebuilds the chains of all nodes and edges after their versions were restored.
    pub fn rebuild_version_chains(&mut self)
        requires
            rebuild_ends(old(self).nodes.versions@),
            rebuild_ends(old(self).edges.versions@),
        ensures
            old(self).nodes.rebuilt(final(self).nodes),
            old(self).edges.rebuilt(final(self).edges),
            final(self).adjacency == old(self).adjacency,
            final(self).meters == old(self).meters,
            final(self).same_settings(*old(self)),
    {
        self.nodes.rebuild_chains();
        self.edges.rebuild_chains();
    }

    /// Adds every version in memory to the indexes of intervals; those that are there already
    /// stay as they are. Without indexes nothing happens.
    pub fn rebuild_temporal_index_from_versions(&mut self)
        ensures
            match (old(self).nodes.index, final(self).nodes.index) {
                (Some(before), Some(now)) => old(self).nodes.reindexed(before@, now@),
                (before, now) => before == now,
            },
            match (old(self).edges.index, final(self).edges.index) {
                (Some(before), Some(now)) => old(self).edges.reindexed(before@, now@),
                (before, now) => before == now,
            },
            final(self).nodes == (VersionTable {
                index: final(self).nodes.index,
                ..old(self).nodes
            }),
            final(self).edges == (VersionTable {
                index: final(self).edges.index,
                ..old(self).edges
            }),
            final(self).adjacency == old(self).adjacency,
            final(self).meters == old(self).meters,
            final(self).same_settings(*old(self)),
    {
        if let Some(mut index) = self.nodes.index.take() {
            index_all(&mut index, &self.nodes.versions);
            self.nodes.index = Some(index);
        }
        if let Some(mut index) = self.edges.index.take() {
            index_all(&mut index, &self.edges.versions);
            self.edges.index = Some(index);
        }
    }

    /// All versions in memory, as they are at one point of the write-ahead log.
    pub fn create_snapshot(&self, lsn: u64) -> (r: HistoricalStorageSnapshot)
        ensures
            r.lsn == lsn,
            lists_versions(r.node_versions@, self.nodes.versions@),
            lists_versions(r.edge_versions@, self.edges.versions@),
    {
        HistoricalStorageSnapshot {
            lsn,
            node_versions: self.nodes.all_versions(),
            edge_versions: self.edges.all_versions(),
        }
    }

    /// Empties the caches of node properties, so that reads walk the chains again.
    pub fn __test_clear_property_cache(&mut self)
        ensures
            cached(final(self).nodes.property_cache).is_empty(),
            cached(final(self).nodes.anchor_cache).is_empty(),
            limit_of(final(self).nodes.property_cache) == limit_of(old(self).nodes.property_cache),
            limit_of(final(self).nodes.anchor_cache) == limit_of(old(self).nodes.anchor_cache),
            final(self).nodes == (VersionTable {
                property_cache: final(self).nodes.property_cache,
                anchor_cache: final(self).nodes.anchor_cache,
                ..old(self).nodes
            }),
            *final(self) == (HistoricalStorage { nodes: final(self).nodes, ..*old(self) }),
    {
        cache_clear(&mut self.nodes.property_cache);
        cache_clear(&mut self.nodes.anchor_cache);
    }

    /// Empties the caches of edge properties, so that reads walk the chains again.
    pub fn __test_clear_edge_property_cache(&mut self)
        ensures
            cached(final(self).edges.property_cache).is_empty(),
            cached(final(self).edges.anchor_cache).is_empty(),
            limit_of(final(self).edges.property_cache) == limit_of(old(self).edges.property_cache),
            limit_of(final(self).edges.anchor_cache) == limit_of(old(self).edges.anchor_cache),
            final(self).edges == (VersionTable {
                property_cache: final(self).edges.property_cache,
                anchor_cache: final(self).edges.anchor_cache,
                ..old(self).edges
            }),
            *final(self) == (HistoricalStorage { edges: final(self).edges, ..*old(self) }),
    {
        cache_clear(&mut self.edges.property_cache);
        cache_clear(&mut self.edges.anchor_cache);
    }

    /// Removes a version of a node from memory, as a fault would.
    pub fn __test_remove_node_version(&mut self, version_id: VersionId)
        ensures
            final(self).nodes.versions@ == old(self).nodes.versions@.remove(version_id.0),
            final(self).nodes == (VersionTable {
                versions: final(self).nodes.versions,
                ..old(self).nodes
            }),
            *final(self) == (HistoricalStorage { nodes: final(self).nodes, ..*old(self) }),
    {
        self.nodes.versions.remove(&version_id.0);
    }

    /// Removes a version of an edge from memory, as a fault would.
    pub fn __test_remove_edge_version(&mut self, version_id: VersionId)
        ensures
            final(self).edges.versions@ == old(self).edges.versions@.remove(version_id.0),
            final(self).edges == (VersionTable {
                versions: final(self).edges.versions,
                ..old(self).edges
            }),
            *final(self) == (HistoricalStorage { edges: final(self).edges, ..*old(self) }),
    {
        self.edges.versions.remove(&version_id.0);
    }
}

impl Default for HistoricalStorage {
    /// A history with default settings.
    fn default() -> (r: HistoricalStorage)
        ensures
            r.config == (AnchorConfig { anchor_interval: 10, max_delta_chain: 20 }),
            r.is_new(r.config, r.retention_policy, DEFAULT_RECONSTRUCTION_CACHE_SIZE),
            r.retention_policy.max_versions_per_entity == DEFAULT_MAX_VERSIONS_PER_ENTITY,
            r.retention_policy.max_age_ms == DEFAULT_MAX_VERSION_AGE_MS,
            r.max_reconstruction_depth == MAX_RECONSTRUCTION_DEPTH,
            r.max_schema_as_of_entities == DEFAULT_MAX_SCHEMA_AS_OF_ENTITIES,
    {
        HistoricalStorage::new()
    }
}

/// After the chains were rebuilt the latest version of an entity is the one that became known last;
/// of several at one moment, the one with the largest number. An entity without versions in memory
/// keeps what it had.
pub proof fn law_rebuilt_head_is_the_latest<E>(
    t: VersionTable<E>,
    after: VersionTable<E>,
    entity: u64,
    id: u64,
)
    requires
        t.rebuilt(after),
    ensures
        ({
            let m = t.versions@;
            let start = |k: u64| m[k].temporal.transaction_time.start.key();
            &&& m.contains_key(id) && m[id].entity == entity && (forall|c: u64| #[trigger]
                m.contains_key(c) && m[c].entity == entity && c != id ==> start(c) < start(id) || (
                start(c) == start(id) && c < id)) ==> after.heads@.contains_key(entity)
                && after.heads@[entity] == id
            &&& (forall|c: u64| #[trigger] m.contains_key(c) ==> m[c].entity != entity) ==> (
            after.heads@.contains_key(entity) <==> t.heads@.contains_key(entity)) && (
            t.heads@.contains_key(entity) ==> after.heads@[entity] == t.heads@[entity])
        }),
{
    let m = t.versions@;
    let start = |k: u64| m[k].temporal.transaction_time.start.key();
    assert(entry_of(after.heads@, entity) == if has_versions(m, entity) {
        Some(latest(m, entity))
    } else {
        entry_of(t.heads@, entity)
    });
    if m.contains_key(id) && m[id].entity == entity && (forall|c: u64| #[trigger]
        m.contains_key(c) && m[c].entity == entity && c != id ==> start(c) < start(id) || (start(c)
            == start(id) && c < id)) {
        assert(has_versions(m, entity));
        assert(super::rebuild::is_latest(m, entity, id)) by {
            assert forall|other: u64|
                #[trigger] m.contains_key(other) && m[other].entity == entity && other
                    != id implies super::rebuild::precedes(m, other, id) by {
                assert(start(other) <= start(id));
            }
        }
        let found = latest(m, entity);
        assert(super::rebuild::is_latest(m, entity, found));
        if found != id {
            assert(super::rebuild::precedes(m, found, id));
            assert(super::rebuild::precedes(m, id, found));
        }
    }
}

/// An index of all versions in memory, made from nothing, lists for each entity exactly its
/// versions in memory, each with its own interval.
pub proof fn law_index_lists_all_versions<E>(
    m: Map<u64, EntityVersion<E>>,
    ids: Seq<u64>,
    entity: u64,
    e: IndexEntry,
)
    ensures
        ({
            let index = indexed_all(Map::empty(), m, ids);
            index.contains_key(entity) && index[entity].contains(e) <==> ids.contains(e.version)
                && m[e.version].entity == entity && e.interval == m[e.version].temporal
        }),
    decreases ids.len(),
{
    let index = indexed_all(Map::<u64, Seq<IndexEntry>>::empty(), m, ids);
    if ids.len() > 0 {
        let before = indexed_all(Map::<u64, Seq<IndexEntry>>::empty(), m, ids.drop_last());
        let id = ids.last();
        law_index_lists_all_versions(m, ids.drop_last(), entity, e);
        assert(ids.contains(e.version) <==> e.version == id || ids.drop_last().contains(e.version)) by {
            if ids.contains(e.version) && e.version != id {
                let j = choose|j: int| 0 <= j < ids.len() && ids[j] == e.version;
                assert(ids.drop_last()[j] == e.version);
            }
            if ids.drop_last().contains(e.version) {
                let j = choose|j: int|
                    0 <= j < ids.drop_last().len() && ids.drop_last()[j] == e.version;
                assert(ids[j] == e.version);
            }
            assert(ids[ids.len() - 1] == id);
        }
        let list = super::interval_index::indexed(before, m[id].entity);
        let new = IndexEntry { version: id, interval: m[id].temporal };
        if super::interval_index::indexes_version(list, id) {
            let j = choose|j: int| 0 <= j < list.len() && (#[trigger] list[j]).version == id;
            assert(list.contains(list[j]));
            law_index_lists_all_versions(m, ids.drop_last(), m[id].entity, list[j]);
            assert(list[j] == new);
        } else {
            assert(index[m[id].entity] == list.push(new));
            assert(list.push(new).contains(e) <==> e == new || list.contains(e)) by {
                if list.contains(e) {
                    let j = choose|j: int| 0 <= j < list.len() && list[j] == e;
                    assert(list.push(new)[j] == e);
                }
                assert(list.push(new)[list.len() as int] == new);
                if list.push(new).contains(e) && e != new {
                    let j = choose|j: int| 0 <= j < list.push(new).len() && list.push(new)[j] == e;
                    assert(list[j] == e);
                }
            }
        }
    }
}

/// A restored version is in memory as it was, the latest of its entity, and counted once; every
/// other version stays. It is refused exactly if its number or that of its entity is reserved.
pub proof fn law_restored_version_is_there<E>(
    t: VersionTable<E>,
    version: EntityVersion<E>,
    after: VersionTable<E>,
    other: u64,
    word: Seq<char>,
)
    requires
        t.restored(version, after),
    ensures
        after.versions@.contains_key(version.id) && after.versions@[version.id] == version,
        after.heads@.contains_key(version.entity) && after.heads@[version.entity] == version.id,
        after.anchor_count + after.delta_count == t.anchor_count + t.delta_count + 1,
        version.anchored() <==> after.anchor_count == t.anchor_count + 1,
        other != version.id && t.versions@.contains_key(other) ==> after.versions@.contains_key(other)
            && after.versions@[other] == t.versions@[other],
        other != version.entity && t.heads@.contains_key(other) ==> after.heads@.contains_key(other)
            && after.heads@[other] == t.heads@[other],
        reserved_in(version, word) is None <==> version.id <= MAX_VALID_ID && version.entity
            <= MAX_VALID_ID,
{
}

/// A snapshot lists every version once: as many as there are, and each of those that it lists is
/// one of them.
pub proof fn law_snapshot_lists_every_version<E>(
    s: Seq<EntityVersion<E>>,
    m: Map<u64, EntityVersion<E>>,
    id: u64,
)
    requires
        lists_versions(s, m),
        m.dom().finite(),
    ensures
        s.len() == m.len(),
        m.contains_key(id) ==> s.contains(m[id]),
        forall|i: int|
            0 <= i < s.len() ==> exists|k: u64| #[trigger] m.contains_key(k) && m[k] == #[trigger] s[i],
{
    let ids = choose|ids: Seq<u64>| #[trigger]
        lists_keys(ids, m) && ids.len() == s.len() && forall|i: int|
            0 <= i < s.len() ==> #[trigger] s[i] == m[ids[i]];
    ids.unique_seq_to_set();
    assert(ids.to_set() =~= m.dom()) by {
        assert forall|k: u64| ids.to_set().contains(k) <==> m.dom().contains(k) by {
            if ids.contains(k) {
                let i = choose|i: int| 0 <= i < ids.len() && ids[i] == k;
                assert(m.contains_key(ids[i]));
            }
            if m.contains_key(k) {
                assert(ids.contains(k));
            }
        }
    }
    if m.contains_key(id) {
        assert(ids.contains(id));
        let i = choose|i: int| 0 <= i < ids.len() && ids[i] == id;
        assert(s[i] == m[id]);
    }
    assert forall|i: int| 0 <= i < s.len() implies exists|k: u64| #[trigger] m.contains_key(k) && m[k]
        == #[trigger] s[i] by {
        assert(m.contains_key(ids[i]));
    }
}

/// A restored version counts one more for its entity, and nothing for any other.
pub proof fn law_restored_version_is_counted<E>(
    t: VersionTable<E>,
    version: EntityVersion<E>,
    after: VersionTable<E>,
    other: u64,
)
    requires
        t.restored(version, after),
        t.counts@.contains_key(version.entity) ==> t.counts@[version.entity] < usize::MAX,
    ensures
        after.counts@.contains_key(version.entity),
        after.counts@[version.entity] == (if t.counts@.contains_key(version.entity) {
            t.counts@[version.entity] + 1
        } else {
            1
        }),
        other != version.entity ==> after.counts@.contains_key(other) == t.counts@.contains_key(other) && (
        t.counts@.contains_key(other) ==> after.counts@[other] == t.counts@[other]),
        after.property_cache == t.property_cache && after.index == t.index && after.cold == t.cold,
{
}

/// After the chains were rebuilt, the deltas since the latest anchor are those behind the latest
/// version.
pub proof fn law_rebuilt_counts_deltas_again<E>(t: VersionTable<E>, after: VersionTable<E>, id: u64)
    requires
        t.rebuilt(after),
        t.versions@.contains_key(id),
    ensures
        ({
            let entity = t.versions@[id].entity;
            &&& after.heads@.contains_key(entity)
            &&& after.since_anchor@.contains_key(entity)
            &&& after.since_anchor@[entity] == since_anchor_of(
                after.versions@,
                after.heads@[entity],
            ) as usize
        }),
        after.counts == t.counts && after.anchor_count == t.anchor_count && after.delta_count
            == t.delta_count,
{
    let entity = t.versions@[id].entity;
    assert(has_versions(t.versions@, entity));
    assert(entry_of(after.heads@, entity) == Some(latest(t.versions@, entity)));
    assert(entry_of(after.since_anchor@, entity) is Some);
}

/// Rebuilt from the versions, the index lists for each entity what it listed before, and behind that
/// each of its versions in memory that was not listed, with its interval.
pub proof fn law_reindexing_adds_what_is_missing<E>(
    index: Map<u64, Seq<IndexEntry>>,
    m: Map<u64, EntityVersion<E>>,
    ids: Seq<u64>,
    entity: u64,
)
    ensures
        ({
            let after = indexed_all(index, m, ids);
            let was = super::interval_index::indexed(index, entity);
            let now = super::interval_index::indexed(after, entity);
            &&& was.is_prefix_of(now)
            &&& forall|i: int|
                was.len() <= i < now.len() ==> ids.contains((#[trigger] now[i]).version)
                    && m[now[i].version].entity == entity && now[i].interval
                    == m[now[i].version].temporal
        }),
    decreases ids.len(),
{
    if ids.len() > 0 {
        let fewer = ids.drop_last();
        law_reindexing_adds_what_is_missing(index, m, fewer, entity);
        let was = super::interval_index::indexed(index, entity);
        let before = super::interval_index::indexed(indexed_all(index, m, fewer), entity);
        let now = super::interval_index::indexed(indexed_all(index, m, ids), entity);
        assert(ids[ids.len() - 1] == ids.last());
        assert forall|i: int| was.len() <= i < now.len() implies ids.contains(
            (#[trigger] now[i]).version,
        ) && m[now[i].version].entity == entity && now[i].interval == m[now[i].version].temporal by {
            if i < before.len() {
                assert(now[i] == before[i]);
                let j = choose|j: int| 0 <= j < fewer.len() && fewer[j] == before[i].version;
                assert(ids[j] == now[i].version);
            }
        }
        assert(was.is_prefix_of(now)) by {
            assert forall|i: int| 0 <= i < was.len() implies was[i] == now[i] by {
                assert(was[i] == before[i]);
                assert(before[i] == now[i]);
            }
            assert(was =~= now.subrange(0, was.len() as int));
        }
    } else {
        let was = super::interval_index::indexed(index, entity);
        assert(was =~= was.subrange(0, was.len() as int));
    }
}

} // verus!

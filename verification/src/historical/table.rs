//! The versions of all entities of one kind, and the bookkeeping that goes with them.

use super::cache::{cache_get, cache_insert, cache_new, cached, limit_of, PropertyCache};
use super::chain::{
    chain_properties, gives, reconstruct_iterative, tiers_of, ColdTier, Tiers,
};
use super::hooks::{
    all_replied, counted_all, run_pre_anchor_hooks, winning_snapshot, AnchorContext, HookReply,
    PreAnchorHook,
};
use super::interval_index::{index_closed, TemporalIndex};
use super::metrics::{CacheMetrics, HookMetricsSnapshot, Meters, Service};
use super::policy::{SnapshotPolicy, SnapshotPolicyRegistry};
use crate::error::{Error, ErrorView, StorageError};
use crate::ids::{InternedString, VersionId};
use crate::property::{delta_between, Properties, PropertyDelta, PropertyMap};
use crate::temporal::{BiTemporalInterval, HybridTimestamp, Timestamp};
use crate::text::{decimal, push_decimal};
use crate::version::{EntityKind, EntityVersion, Provenance, VersionData};
use std::collections::HashMap;
use std::sync::Arc;
use std::time::Duration;
use vstd::prelude::*;

verus! {

broadcast use vstd::std_specs::hash::group_hash_axioms;

/// Limits that apply to every version chain.
#[derive(Clone, Copy, Debug, PartialEq, Eq, Structural)]
pub struct ChainLimits {
    /// One version in this many is an anchor.
    pub anchor_interval: u32,
    /// Maximum number of versions of one entity.
    pub max_versions: usize,
    /// Maximum number of versions that a reconstruction walks back.
    pub max_depth: usize,
}

/// The versions of all entities of one kind.
pub struct VersionTable<E> {
    /// The kind of entity.
    pub kind: EntityKind,
    /// The versions in memory.
    pub versions: HashMap<u64, EntityVersion<E>>,
    /// The latest version of each entity.
    pub heads: HashMap<u64, u64>,
    /// How many versions of each entity are in memory.
    pub counts: HashMap<u64, usize>,
    /// How many versions of each entity follow its latest anchor.
    pub since_anchor: HashMap<u64, usize>,
    /// How many versions in memory are anchors.
    pub anchor_count: usize,
    /// How many versions in memory are deltas.
    pub delta_count: usize,
    /// Properties of versions that were read or written lately.
    pub property_cache: PropertyCache,
    /// Properties of anchors, apart so that deltas do not displace them.
    pub anchor_cache: PropertyCache,
    /// Index of the intervals of versions.
    pub index: Option<TemporalIndex>,
    /// The cold tier.
    pub cold: Option<ColdTier<E>>,
    /// Which entities' anchors trigger vector snapshots.
    pub policies: SnapshotPolicyRegistry,
    /// What to call before an anchor is stored.
    pub hooks: Vec<PreAnchorHook>,
}

/// A version to be stored.
pub struct NewVersion<E> {
    /// The entity.
    pub entity: u64,
    /// The version's identifier.
    pub id: u64,
    /// When the version holds and is known.
    pub temporal: BiTemporalInterval,
    /// The entity's label or type.
    pub label: InternedString,
    /// What is particular to the kind of entity.
    pub ends: E,
    /// The properties.
    pub properties: PropertyMap,
    /// Who writes the version.
    pub provenance: Option<Arc<Provenance>>,
}

/// What storing a version did.
#[derive(Clone, Copy, Debug, PartialEq, Eq, Structural)]
pub struct Appended {
    /// The version became an anchor.
    pub is_anchor: bool,
    /// The new end of the previous version's transaction time, if it changed.
    pub closed_at: Option<Timestamp>,
}

/// The number that a map holds for an entity; zero where it holds none.
pub open spec fn number_of(m: Map<u64, usize>, entity: u64) -> usize {
    if m.contains_key(entity) {
        m[entity]
    } else {
        0
    }
}

/// The value that a map holds for a key, if it holds one.
pub open spec fn entry_of<V>(m: Map<u64, V>, key: u64) -> Option<V> {
    if m.contains_key(key) {
        Some(m[key])
    } else {
        None
    }
}

/// A version known from `start` on closes the transaction time of the version before it: that
/// one is still open, and started earlier.
pub open spec fn closes(prev: BiTemporalInterval, start: Timestamp) -> bool {
    prev.transaction_time.open_ended() && prev.transaction_time.start.key() < start.key()
}

/// A version after another has superseded it. Its valid time stays as it is.
pub open spec fn superseded<E>(
    version: EntityVersion<E>,
    next: u64,
    start: Timestamp,
) -> EntityVersion<E> {
    EntityVersion {
        next_version: Some(next),
        temporal: if closes(version.temporal, start) {
            version.temporal.with_tx_end(start)
        } else {
            version.temporal
        },
        ..version
    }
}

/// The versions after version `next` has superseded version `prev`.
pub open spec fn with_superseded<E>(
    m: Map<u64, EntityVersion<E>>,
    prev: Option<u64>,
    next: u64,
    start: Timestamp,
) -> Map<u64, EntityVersion<E>> {
    match prev {
        Some(p) => m.insert(p, superseded(m[p], next, start)),
        None => m,
    }
}

/// The vector snapshot that a version bears.
pub open spec fn snapshot_of<E>(version: EntityVersion<E>) -> Option<u64> {
    match *version.data {
        VersionData::Anchor { vector_snapshot_id, .. } => vector_snapshot_id,
        VersionData::Delta { .. } => None,
    }
}

/// The new end of the transaction time of the version before, if it changes.
pub open spec fn closed_end<E>(
    m: Map<u64, EntityVersion<E>>,
    prev: Option<u64>,
    start: Timestamp,
) -> Option<Timestamp> {
    match prev {
        Some(p) => if closes(m[p].temporal, start) && start != HybridTimestamp::spec_max() {
            Some(start)
        } else {
            None
        },
        None => None,
    }
}

proof fn lemma_insert_into_submap(
    after: Map<u64, Properties>,
    before: Map<u64, Properties>,
    known: Map<u64, Properties>,
    id: u64,
    properties: Properties,
)
    requires
        after.submap_of(before.insert(id, properties)),
        before.submap_of(known),
    ensures
        after.submap_of(known.insert(id, properties)),
{
    assert forall|k: u64| #[trigger] after.contains_key(k) implies known.insert(
        id,
        properties,
    ).contains_key(k) && known.insert(id, properties)[k] == after[k] by {
        assert(before.insert(id, properties).contains_key(k));
        if k != id {
            assert(before.contains_key(k));
            assert(known.contains_key(k));
        }
    }
}

impl<E> VersionTable<E> {
    /// The stored versions by tier.
    pub open spec fn tiers(self) -> Tiers<E> {
        tiers_of(self.versions@, self.cold)
    }

    /// The properties of a version, as a read gives them: from a cache, or else from the chain.
    pub open spec fn resolved(self, id: u64, max_depth: usize) -> Result<Properties, ErrorView> {
        if cached(self.property_cache).contains_key(id) {
            Ok(cached(self.property_cache)[id])
        } else if cached(self.anchor_cache).contains_key(id) {
            Ok(cached(self.anchor_cache)[id])
        } else {
            chain_properties(self.tiers(), id, max_depth as nat)
        }
    }

    /// In which way a read of a version's properties is served.
    pub open spec fn service_of(self, id: u64) -> Service {
        if cached(self.property_cache).contains_key(id) {
            Service::Primary
        } else if cached(self.anchor_cache).contains_key(id) {
            Service::Anchor
        } else {
            Service::Walk
        }
    }

    /// The counters after a read of a version's properties.
    pub open spec fn read_counted(self, id: u64, m: CacheMetrics) -> CacheMetrics {
        m.served(self.service_of(id))
    }

    /// The two tables differ at most in what the primary property cache holds.
    pub open spec fn same_but_cache(self, other: VersionTable<E>) -> bool {
        &&& self.kind == other.kind
        &&& self.versions == other.versions
        &&& self.heads == other.heads
        &&& self.counts == other.counts
        &&& self.since_anchor == other.since_anchor
        &&& self.anchor_count == other.anchor_count
        &&& self.delta_count == other.delta_count
        &&& limit_of(self.property_cache) == limit_of(other.property_cache)
        &&& self.anchor_cache == other.anchor_cache
        &&& self.index == other.index
        &&& self.cold == other.cold
        &&& self.policies == other.policies
        &&& self.hooks == other.hooks
    }

    /// The next version of the entity is stored as an anchor: there is none yet, or enough
    /// versions follow the latest anchor.
    pub open spec fn anchor_due(self, entity: u64, limits: ChainLimits) -> bool {
        ||| !self.heads@.contains_key(entity)
        ||| number_of(self.since_anchor@, entity) + 1 >= limits.anchor_interval
    }

    /// What becomes of an attempt to store a version of the entity: an anchor, a delta on the
    /// given properties, or an error.
    pub open spec fn append_verdict(self, entity: u64, limits: ChainLimits) -> Result<
        Option<Properties>,
        ErrorView,
    > {
        let count = number_of(self.counts@, entity);
        if count >= limits.max_versions {
            Err(
                ErrorView::CapacityExceeded {
                    resource: self.kind.spec_word() + " "@ + decimal(entity as nat)
                        + " versions"@,
                    current: count,
                    limit: limits.max_versions,
                },
            )
        } else {
            match entry_of(self.heads@, entity) {
                Some(prev) if !self.versions@.contains_key(prev) => Err(
                    ErrorView::VersionNotFound(VersionId(prev)),
                ),
                Some(prev) if !self.anchor_due(entity, limits) => match self.resolved(
                    prev,
                    limits.max_depth,
                ) {
                    Ok(base) => Ok(Some(base)),
                    Err(e) => Err(e),
                },
                _ => Ok(None),
            }
        }
    }

    /// An attempt to store a version of the entity reads the properties of its latest version.
    pub open spec fn reads_base(self, entity: u64, limits: ChainLimits) -> bool {
        &&& number_of(self.counts@, entity) < limits.max_versions
        &&& self.heads@.contains_key(entity)
        &&& self.versions@.contains_key(self.heads@[entity])
        &&& !self.anchor_due(entity, limits)
    }

    /// The hooks were called once each where an anchor was stored that triggers snapshots, were
    /// told of that anchor and of their time, and the anchor bears the snapshot that won; elsewhere
    /// no hook was called.
    pub open spec fn hooks_ran(
        self,
        new: NewVersion<E>,
        timeout: Option<Duration>,
        verdict: Result<Option<Properties>, ErrorView>,
        before: HookMetricsSnapshot,
        after: HookMetricsSnapshot,
        version: EntityVersion<E>,
        hooks: Vec<PreAnchorHook>,
    ) -> bool {
        if verdict matches Ok(None) && self.policies.policy_of(new.entity)
            == SnapshotPolicy::Snapshot {
            exists|replies: Seq<HookReply>|
                all_replied(
                    self.hooks@,
                    AnchorContext {
                        entity_type: self.kind.spec_word(),
                        entity_id: new.entity,
                        timestamp: new.temporal.transaction_time.start,
                        properties: new.properties@,
                        timeout,
                    },
                    replies,
                    hooks@,
                ) && after == #[trigger] counted_all(before, replies) && snapshot_of(version)
                    == winning_snapshot(replies)
        } else {
            after == before && hooks == self.hooks
        }
    }

    /// The counters and the hooks after an attempt to store `new`, which became `version` if it was
    /// stored.
    pub open spec fn append_metered(
        self,
        new: NewVersion<E>,
        limits: ChainLimits,
        timeout: Option<Duration>,
        before: Meters,
        after: Meters,
        version: EntityVersion<E>,
        hooks: Vec<PreAnchorHook>,
    ) -> bool {
        &&& after.cache == if self.reads_base(new.entity, limits) {
            self.read_counted(self.heads@[new.entity], before.cache)
        } else {
            before.cache
        }
        &&& self.hooks_ran(
            new,
            timeout,
            self.append_verdict(new.entity, limits),
            before.hooks,
            after.hooks,
            version,
            hooks,
        )
    }

    /// The counters have room for one more version of the entity.
    pub open spec fn has_room(self, entity: u64) -> bool {
        &&& number_of(self.since_anchor@, entity) < usize::MAX
        &&& self.anchor_count < usize::MAX
        &&& self.delta_count < usize::MAX
    }

    /// `version` is what is stored for `new`, when it becomes an anchor (`base` is `None`) or a
    /// delta on `base`.
    pub open spec fn stored_as(
        self,
        new: NewVersion<E>,
        base: Option<Properties>,
        version: EntityVersion<E>,
    ) -> bool {
        &&& version.id == new.id
        &&& version.entity == new.entity
        &&& version.temporal == new.temporal
        &&& version.label == new.label
        &&& version.ends == new.ends
        &&& version.prev_version == entry_of(self.heads@, new.entity)
        &&& version.next_version is None
        &&& version.provenance == new.provenance
        &&& match (base, *version.data) {
            (None, VersionData::Anchor { properties, vector_snapshot_id }) => {
                &&& properties@ == new.properties@
                &&& self.policies.policy_of(new.entity) == SnapshotPolicy::Skip
                    || self.hooks@.len() == 0 ==> vector_snapshot_id is None
            },
            (Some(from), VersionData::Delta { delta }) => delta@ == delta_between(
                from,
                new.properties@,
            ),
            _ => false,
        }
    }

    /// The table after `new` was stored as an anchor (`base` is `None`) or a delta on `base`.
    pub open spec fn appended(
        self,
        new: NewVersion<E>,
        base: Option<Properties>,
        after: VersionTable<E>,
    ) -> bool {
        let prev = entry_of(self.heads@, new.entity);
        let start = new.temporal.transaction_time.start;
        let version = after.versions@[new.id];
        &&& self.stored_as(new, base, version)
        &&& after.versions@ == with_superseded(self.versions@, prev, new.id, start).insert(
            new.id,
            version,
        )
        &&& after.heads@ == self.heads@.insert(new.entity, new.id)
        &&& after.counts@ == self.counts@.insert(
            new.entity,
            (number_of(self.counts@, new.entity) + 1) as usize,
        )
        &&& after.since_anchor@ == self.since_anchor@.insert(
            new.entity,
            if base is None {
                0
            } else {
                (number_of(self.since_anchor@, new.entity) + 1) as usize
            },
        )
        &&& after.anchor_count == self.anchor_count + if base is None {
            1int
        } else {
            0
        }
        &&& after.delta_count == self.delta_count + if base is None {
            0int
        } else {
            1
        }
        &&& self.caches_after(new, base, after)
        &&& self.index_after(prev, closed_end(self.versions@, prev, start), new.entity, after)
        &&& after.kind == self.kind
        &&& after.cold == self.cold
        &&& after.policies == self.policies
    }

    /// What the caches may hold after `new` was stored: what they held, the properties of the
    /// version it builds on, and its own.
    pub open spec fn caches_after(
        self,
        new: NewVersion<E>,
        base: Option<Properties>,
        after: VersionTable<E>,
    ) -> bool {
        let known = match (base, entry_of(self.heads@, new.entity)) {
            (Some(from), Some(prev)) => cached(self.property_cache).insert(prev, from),
            _ => cached(self.property_cache),
        };
        &&& cached(after.property_cache).submap_of(known.insert(new.id, new.properties@))
        &&& cached(after.anchor_cache).submap_of(
            if base is None {
                cached(self.anchor_cache).insert(new.id, new.properties@)
            } else {
                cached(self.anchor_cache)
            },
        )
        &&& limit_of(after.property_cache) == limit_of(self.property_cache)
        &&& limit_of(after.anchor_cache) == limit_of(self.anchor_cache)
    }

    /// The index after the transaction time of `prev` was closed at `closed`.
    pub open spec fn index_after(
        self,
        prev: Option<u64>,
        closed: Option<Timestamp>,
        entity: u64,
        after: VersionTable<E>,
    ) -> bool {
        match (self.index, after.index, prev, closed) {
            (Some(i), Some(j), Some(p), Some(end)) => j@ == index_closed(i@, entity, p, end),
            (i, j, _, _) => i == j,
        }
    }
}

impl<E> VersionTable<E> {
    /// A table without versions, with caches of the given capacities, and with nothing attached to
    /// it.
    pub open spec fn is_new(
        self,
        kind: EntityKind,
        cache_size: usize,
        anchor_cache_size: usize,
    ) -> bool {
        &&& self.kind == kind
        &&& self.versions@ == Map::<u64, EntityVersion<E>>::empty()
        &&& self.heads@ == Map::<u64, u64>::empty()
        &&& self.counts@ == Map::<u64, usize>::empty()
        &&& self.since_anchor@ == Map::<u64, usize>::empty()
        &&& self.anchor_count == 0
        &&& self.delta_count == 0
        &&& cached(self.property_cache).is_empty()
        &&& cached(self.anchor_cache).is_empty()
        &&& limit_of(self.property_cache) == cache_size
        &&& limit_of(self.anchor_cache) == anchor_cache_size
        &&& self.index is None
        &&& self.cold is None
        &&& self.policies.fallback == SnapshotPolicy::Snapshot
        &&& self.policies.overrides@ == Map::<u64, SnapshotPolicy>::empty()
        &&& self.hooks@.len() == 0
    }

    /// A table without versions, with caches of the given capacities.
    pub fn new(kind: EntityKind, cache_size: usize, anchor_cache_size: usize) -> (r: VersionTable<E>)
        ensures
            r.is_new(kind, cache_size, anchor_cache_size),
    {
        VersionTable {
            kind,
            versions: HashMap::new(),
            heads: HashMap::new(),
            counts: HashMap::new(),
            since_anchor: HashMap::new(),
            anchor_count: 0,
            delta_count: 0,
            property_cache: cache_new(cache_size),
            anchor_cache: cache_new(anchor_cache_size),
            index: None,
            cold: None,
            policies: SnapshotPolicyRegistry::new(),
            hooks: Vec::new(),
        }
    }
}

impl<E: Copy> VersionTable<E> {
    /// Reads the properties of a version: from the primary cache, else from the anchor cache,
    /// else by walking its chain; what the primary cache did not have is put there.
    pub fn reconstruct(&mut self, id: u64, max_depth: usize, meters: &mut Meters) -> (r: Result<
        PropertyMap,
        Error,
    >)
        ensures
            gives(r, old(self).resolved(id, max_depth)),
            final(self).same_but_cache(*old(self)),
            match r {
                Ok(p) => cached(final(self).property_cache).submap_of(
                    cached(old(self).property_cache).insert(id, p@),
                ),
                Err(_) => *final(self) == *old(self),
            },
            final(meters).hooks == old(meters).hooks,
            final(meters).cache == old(self).read_counted(id, old(meters).cache),
    {
        if let Some(p) = cache_get(&self.property_cache, id) {
            meters.cache.primary_cache_hits = meters.cache.primary_cache_hits.wrapping_add(1);
            return Ok(p.copied());
        }
        if let Some(p) = cache_get(&self.anchor_cache, id) {
            meters.cache.anchor_cache_hits = meters.cache.anchor_cache_hits.wrapping_add(1);
            cache_insert(&mut self.property_cache, id, p.clone());
            return Ok(p.copied());
        }
        meters.cache.full_reconstructions = meters.cache.full_reconstructions.wrapping_add(1);
        match reconstruct_iterative(&self.versions, &self.cold, id, max_depth) {
            Ok(p) => {
                cache_insert(&mut self.property_cache, id, Arc::new(p.copied()));
                Ok(p)
            },
            Err(e) => Err(e),
        }
    }

    fn capacity_error(&self, entity: u64, current: usize, limit: usize) -> (r: Error)
        ensures
            r@ == (ErrorView::CapacityExceeded {
                resource: self.kind.spec_word() + " "@ + decimal(entity as nat) + " versions"@,
                current,
                limit,
            }),
    {
        let mut resource = String::from_str(self.kind.word());
        resource.append(" ");
        push_decimal(&mut resource, entity);
        resource.append(" versions");
        Error::Storage(StorageError::CapacityExceeded { resource, current, limit })
    }

    /// Links the version before to its successor, and closes its transaction time and its index
    /// entry where the successor became known later.
    fn supersede(&mut self, entity: u64, prev: u64, next: u64, start: Timestamp) -> (r: Option<
        Timestamp,
    >)
        requires
            old(self).versions@.contains_key(prev),
        ensures
            final(self).versions@ == with_superseded(old(self).versions@, Some(prev), next, start),
            r == closed_end(old(self).versions@, Some(prev), start),
            old(self).index_after(Some(prev), r, entity, *final(self)),
            final(self).kind == old(self).kind,
            final(self).heads == old(self).heads,
            final(self).counts == old(self).counts,
            final(self).since_anchor == old(self).since_anchor,
            final(self).anchor_count == old(self).anchor_count,
            final(self).delta_count == old(self).delta_count,
            final(self).property_cache == old(self).property_cache,
            final(self).anchor_cache == old(self).anchor_cache,
            final(self).cold == old(self).cold,
            final(self).policies == old(self).policies,
            final(self).hooks == old(self).hooks,
    {
        let mut closed: Option<Timestamp> = None;
        if let Some(mut version) = self.versions.remove(&prev) {
            let recorded_from = version.temporal.transaction_time.start;
            version.next_version = Some(next);
            if version.temporal.is_currently_recorded() && recorded_from.is_before(&start) {
                if let Ok(temporal) = version.temporal.close_transaction_time(start) {
                    version.temporal = temporal;
                }
                if start != HybridTimestamp::max_value() {
                    closed = Some(start);
                }
            }
            self.versions.insert(prev, version);
        }
        assert(self.versions@ =~= with_superseded(old(self).versions@, Some(prev), next, start));
        if let Some(end) = closed {
            if let Some(mut index) = self.index.take() {
                index.close_transaction_time(entity, prev, end);
                self.index = Some(index);
            }
        }
        closed
    }

    /// Stores a version: as an anchor where one is due, else as a delta on the latest version,
    /// which it supersedes. Hooks may take as long as `timeout` says.
    pub fn append(
        &mut self,
        new: NewVersion<E>,
        limits: &ChainLimits,
        timeout: Option<Duration>,
        meters: &mut Meters,
    ) -> (r: Result<Appended, Error>)
        requires
            old(self).has_room(new.entity),
        ensures
            match (r, old(self).append_verdict(new.entity, *limits)) {
                (Err(e), Err(expected)) => e@ == expected && *final(self) == *old(self),
                (Ok(done), Ok(base)) => {
                    &&& old(self).appended(new, base, *final(self))
                    &&& done.is_anchor == (base is None)
                    &&& done.closed_at == closed_end(
                        old(self).versions@,
                        entry_of(old(self).heads@, new.entity),
                        new.temporal.transaction_time.start,
                    )
                },
                _ => false,
            },
            old(self).append_metered(
                new,
                *limits,
                timeout,
                *old(meters),
                *final(meters),
                final(self).versions@[new.id],
                final(self).hooks,
            ),
    {
        let entity: u64 = new.entity;
        let count: usize = match self.counts.get(&entity) {
            Some(c) => *c,
            None => 0,
        };
        if count >= limits.max_versions {
            return Err(self.capacity_error(entity, count, limits.max_versions));
        }
        let prev: Option<u64> = match self.heads.get(&entity) {
            Some(h) => Some(*h),
            None => None,
        };
        let mut since: usize = 0;
        let mut base: Option<PropertyMap> = None;
        if let Some(prev_id) = prev {
            if !self.versions.contains_key(&prev_id) {
                return Err(Error::Storage(StorageError::VersionNotFound(VersionId(prev_id))));
            }
            let current: usize = match self.since_anchor.get(&entity) {
                Some(c) => *c,
                None => 0,
            };
            if current + 1 < limits.anchor_interval as usize {
                match self.reconstruct(prev_id, limits.max_depth, meters) {
                    Ok(properties) => {
                        base = Some(properties);
                        since = current + 1;
                    },
                    Err(e) => {
                        return Err(e);
                    },
                }
            }
        }
        let is_anchor = base.is_none();
        let start = new.temporal.transaction_time.start;
        let data = match &base {
            Some(from) => VersionData::Delta {
                delta: PropertyDelta::compute(from, &new.properties),
            },
            None => {
                let vector_snapshot_id = if self.policies.resolve(entity).should_snapshot() {
                    run_pre_anchor_hooks(
                        &mut self.hooks,
                        self.kind,
                        entity,
                        start,
                        &new.properties,
                        timeout,
                        meters,
                    )
                } else {
                    None
                };
                VersionData::Anchor { properties: new.properties.copied(), vector_snapshot_id }
            },
        };
        let closed_at = match prev {
            Some(prev_id) => self.supersede(entity, prev_id, new.id, start),
            None => None,
        };
        let version = EntityVersion {
            id: new.id,
            entity,
            temporal: new.temporal,
            label: new.label,
            ends: new.ends,
            data: Arc::new(data),
            prev_version: prev,
            next_version: None,
            provenance: new.provenance,
        };
        self.versions.insert(new.id, version);
        self.heads.insert(entity, new.id);
        self.counts.insert(entity, count + 1);
        self.since_anchor.insert(entity, since);
        if is_anchor {
            self.anchor_count = self.anchor_count + 1;
        } else {
            self.delta_count = self.delta_count + 1;
        }
        let ghost held_before = cached(self.property_cache);
        let shared = Arc::new(new.properties);
        cache_insert(&mut self.property_cache, new.id, shared.clone());
        if is_anchor {
            cache_insert(&mut self.anchor_cache, new.id, shared.clone());
        }
        proof {
            let known = match (base, prev) {
                (Some(from), Some(p)) => cached(old(self).property_cache).insert(p, from@),
                _ => cached(old(self).property_cache),
            };
            lemma_insert_into_submap(
                cached(self.property_cache),
                held_before,
                known,
                new.id,
                shared@,
            );
            assert(self.versions@ =~= with_superseded(
                old(self).versions@,
                prev,
                new.id,
                start,
            ).insert(new.id, self.versions@[new.id]));
        }
        Ok(Appended { is_anchor, closed_at })
    }
}

} // verus!

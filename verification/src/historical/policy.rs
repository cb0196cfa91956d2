//! Policies of the version history: retention, anchoring and vector snapshots.

use std::collections::HashMap;
use vstd::prelude::*;

verus! {

broadcast use vstd::std_specs::hash::group_hash_axioms;

/// Default limit on the number of versions of one entity.
pub const DEFAULT_MAX_VERSIONS_PER_ENTITY: usize = 1_000;

/// Default limit on the age of a version: 365 days.
pub const DEFAULT_MAX_VERSION_AGE_MS: i64 = 31_536_000_000;

/// Default limit on the number of entities of one kind that a schema query reconstructs.
pub const DEFAULT_MAX_SCHEMA_AS_OF_ENTITIES: usize = 50_000;

/// How many versions are kept, and for how long.
#[derive(Clone, Copy, Debug, PartialEq, Eq, Structural)]
pub struct RetentionPolicy {
    /// Maximum number of versions to keep per entity.
    pub max_versions_per_entity: usize,
    /// Maximum age of versions in milliseconds.
    pub max_age_ms: i64,
}

impl Default for RetentionPolicy {
    fn default() -> (r: RetentionPolicy)
        ensures
            r.max_versions_per_entity == DEFAULT_MAX_VERSIONS_PER_ENTITY,
            r.max_age_ms == DEFAULT_MAX_VERSION_AGE_MS,
    {
        RetentionPolicy {
            max_versions_per_entity: DEFAULT_MAX_VERSIONS_PER_ENTITY,
            max_age_ms: DEFAULT_MAX_VERSION_AGE_MS,
        }
    }
}

impl RetentionPolicy {
    /// A policy with the given limits.
    pub fn new(max_versions_per_entity: usize, max_age_ms: i64) -> (r: RetentionPolicy)
        ensures
            r == (RetentionPolicy { max_versions_per_entity, max_age_ms }),
    {
        RetentionPolicy { max_versions_per_entity, max_age_ms }
    }

    /// A policy without limits.
    pub fn unbounded() -> (r: RetentionPolicy)
        ensures
            r == (RetentionPolicy { max_versions_per_entity: usize::MAX, max_age_ms: i64::MAX }),
    {
        RetentionPolicy { max_versions_per_entity: usize::MAX, max_age_ms: i64::MAX }
    }
}

/// How often a version stores all properties.
#[derive(Clone, Copy, Debug, PartialEq, Eq, Structural)]
pub struct AnchorConfig {
    /// One version in this many is an anchor.
    pub anchor_interval: u32,
    /// The longest run of deltas to aim for.
    pub max_delta_chain: u32,
}

impl Default for AnchorConfig {
    fn default() -> (r: AnchorConfig)
        ensures
            r == (AnchorConfig { anchor_interval: 10, max_delta_chain: 20 }),
    {
        AnchorConfig { anchor_interval: 10, max_delta_chain: 20 }
    }
}

/// Whether an entity's anchors trigger vector snapshots.
#[derive(Clone, Copy, Debug, PartialEq, Eq, Structural)]
pub enum SnapshotPolicy {
    /// Anchors trigger vector snapshots.
    Snapshot,
    /// Anchors form without vector snapshots.
    Skip,
}

impl SnapshotPolicy {
    /// Whether anchors trigger vector snapshots.
    pub fn should_snapshot(&self) -> (r: bool)
        ensures
            r == (*self == SnapshotPolicy::Snapshot),
    {
        match self {
            SnapshotPolicy::Snapshot => true,
            SnapshotPolicy::Skip => false,
        }
    }
}

/// Snapshot policies of single entities, and the policy of all others.
pub struct SnapshotPolicyRegistry {
    /// The policy of entities without one of their own.
    pub fallback: SnapshotPolicy,
    /// Policies of single entities.
    pub overrides: HashMap<u64, SnapshotPolicy>,
}

impl SnapshotPolicyRegistry {
    /// The policy that applies to an entity.
    pub open spec fn policy_of(self, entity: u64) -> SnapshotPolicy {
        if self.overrides@.contains_key(entity) {
            self.overrides@[entity]
        } else {
            self.fallback
        }
    }

    /// No entity has a policy of its own, and anchors trigger snapshots.
    pub fn new() -> (r: SnapshotPolicyRegistry)
        ensures
            r.fallback == SnapshotPolicy::Snapshot,
            r.overrides@ == Map::<u64, SnapshotPolicy>::empty(),
    {
        SnapshotPolicyRegistry { fallback: SnapshotPolicy::Snapshot, overrides: HashMap::new() }
    }

    /// The policy that applies to an entity.
    pub fn resolve(&self, entity: u64) -> (r: SnapshotPolicy)
        ensures
            r == self.policy_of(entity),
    {
        match self.overrides.get(&entity) {
            Some(p) => *p,
            None => self.fallback,
        }
    }

    /// Gives an entity a policy of its own.
    pub fn set(&mut self, entity: u64, policy: SnapshotPolicy)
        ensures
            final(self).overrides@ == old(self).overrides@.insert(entity, policy),
            final(self).fallback == old(self).fallback,
    {
        self.overrides.insert(entity, policy);
    }

    /// Takes an entity's own policy away, and gives it back if there was one.
    pub fn clear(&mut self, entity: u64) -> (r: Option<SnapshotPolicy>)
        ensures
            final(self).overrides@ == old(self).overrides@.remove(entity),
            final(self).fallback == old(self).fallback,
            r == (if old(self).overrides@.contains_key(entity) {
                Some(old(self).overrides@[entity])
            } else {
                None
            }),
    {
        self.overrides.remove(&entity)
    }

    /// Sets the policy of entities without one of their own.
    pub fn set_fallback(&mut self, policy: SnapshotPolicy)
        ensures
            final(self).fallback == policy,
            final(self).overrides == old(self).overrides,
    {
        self.fallback = policy;
    }
}

/// An entity's own policy wins over the fallback, and taking it away brings the fallback back.
pub proof fn law_policy_override(
    before: SnapshotPolicyRegistry,
    set: SnapshotPolicyRegistry,
    cleared: SnapshotPolicyRegistry,
    entity: u64,
    policy: SnapshotPolicy,
)
    requires
        set.overrides@ == before.overrides@.insert(entity, policy),
        cleared.overrides@ == set.overrides@.remove(entity),
        set.fallback == before.fallback,
        cleared.fallback == before.fallback,
    ensures
        set.policy_of(entity) == policy,
        cleared.policy_of(entity) == before.fallback,
        forall|other: u64|
            other != entity ==> #[trigger] set.policy_of(other) == before.policy_of(other)
                && cleared.policy_of(other) == before.policy_of(other),
{
}

} // verus!

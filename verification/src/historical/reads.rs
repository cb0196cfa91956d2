//! Point-in-time reads, histories, and differences between versions.

use super::cache::cached;
use super::chain::chain_properties;
use super::lookup::{
    chain_ids, law_chain_follows_the_links, leads_back, lemma_chain_in_memory, links_end, not_found,
    not_found_error,
};
use super::metrics::{CacheMetrics, Meters};
use super::table::{entry_of, VersionTable};
use crate::error::{Error, ErrorView, StorageError};
use crate::ids::{InternedString, VersionId};
use crate::interning::StringInterner;
use crate::maps::{keys_of, lemma_take_contains, lists_keys};
use crate::property::{Properties, PropertyMap, PropertyValue};
use crate::temporal::{BiTemporalInterval, Timestamp};
use crate::text::{decimal, decimal_string, push_decimal};
use crate::version::{EntityKind, EntityVersion, Provenance};
use std::collections::HashMap;
use std::sync::Arc;
use vstd::prelude::*;

verus! {

broadcast use vstd::std_specs::hash::group_hash_axioms;

/// An entity as one of its versions has it.
pub struct EntityState<E> {
    /// The entity.
    pub entity: u64,
    /// Its label or type.
    pub label: InternedString,
    /// What is particular to the kind of entity.
    pub ends: E,
    /// Its properties.
    pub properties: PropertyMap,
    /// The version.
    pub version: u64,
}

/// One version in the history of an entity.
pub struct VersionInfo {
    /// Position in the history, from one on.
    pub version_number: u64,
    /// The version.
    pub version_id: VersionId,
    /// When the version holds and is known.
    pub temporal: BiTemporalInterval,
    /// Its properties.
    pub properties: PropertyMap,
    /// The name of the label, or its number where it has no name.
    pub label: String,
    /// Who wrote the version.
    pub provenance: Option<Arc<Provenance>>,
}

/// The versions of an entity, the oldest first.
pub struct EntityHistory {
    /// The versions.
    pub versions: Vec<VersionInfo>,
}

/// The properties that differ between two versions.
pub struct VersionDiff {
    /// The version that the difference starts from.
    pub from_version: VersionId,
    /// The version that the difference leads to.
    pub to_version: VersionId,
    /// Properties that only the later version has.
    pub added: PropertyMap,
    /// Properties that only the earlier version has.
    pub removed: PropertyMap,
    /// Properties that both have with different values: the earlier value and the later one.
    pub modified: HashMap<u32, (PropertyValue, PropertyValue)>,
}

/// What a version stores, as an entity state with the given properties.
pub open spec fn state_of<E>(
    v: EntityVersion<E>,
    properties: Properties,
    s: EntityState<E>,
) -> bool {
    &&& s.entity == v.entity
    &&& s.label == v.label
    &&& s.ends == v.ends
    &&& s.properties@ == properties
    &&& s.version == v.id
}

/// The name of a label: the string that was interned, or else the number.
pub open spec fn label_name(interner: StringInterner, label: InternedString) -> Seq<char> {
    if label.0 < interner.strings@.len() {
        interner.strings@[label.0 as int]@
    } else {
        decimal(label.0 as nat)
    }
}

fn name_label(interner: &StringInterner, label: InternedString) -> (r: String)
    ensures
        r@ == label_name(*interner, label),
{
    match interner.resolve(label) {
        Some(text) => String::from_str(text.as_str()),
        None => decimal_string(label.0 as u64),
    }
}

/// What a version stores, as an entry of a history.
pub open spec fn info_of<E>(
    interner: StringInterner,
    id: u64,
    v: EntityVersion<E>,
    number: int,
    properties: Properties,
    info: VersionInfo,
) -> bool {
    &&& info.version_number == number
    &&& info.version_id == VersionId(id)
    &&& info.temporal == v.temporal
    &&& info.properties@ == properties
    &&& info.label@ == label_name(interner, v.label)
    &&& info.provenance == v.provenance
}

/// The difference between two sets of properties.
pub open spec fn diff_of(from: Properties, to: Properties, d: VersionDiff) -> bool {
    &&& d.added@ == to.remove_keys(from.dom())
    &&& d.removed@ == from.remove_keys(to.dom())
    &&& forall|name: u32| #[trigger]
        d.modified@.contains_key(name) <==> from.contains_key(name) && to.contains_key(name)
            && from[name] != to[name]
    &&& forall|name: u32| #[trigger]
        d.modified@.contains_key(name) ==> d.modified@[name].0@ == from[name]
            && d.modified@[name].1@ == to[name]
}

impl<E> VersionTable<E> {
    /// What a read of a version's properties may give, whatever the caches drop in the meantime:
    /// what a cache holds for it, or what its chain gives.
    pub open spec fn may_read(
        self,
        id: u64,
        max_depth: usize,
        r: Result<Properties, ErrorView>,
    ) -> bool {
        ||| cached(self.property_cache).contains_key(id) && r == Ok::<Properties, ErrorView>(
            cached(self.property_cache)[id],
        )
        ||| cached(self.anchor_cache).contains_key(id) && r == Ok::<Properties, ErrorView>(
            cached(self.anchor_cache)[id],
        )
        ||| r == chain_properties(self.tiers(), id, max_depth as nat)
    }

    /// `later` is what reads make of the table: nothing changes but what the primary cache holds,
    /// and that is only what reads gave.
    pub open spec fn after_reads(self, max_depth: usize, later: VersionTable<E>) -> bool {
        &&& later.same_but_cache(self)
        &&& forall|id: u64| #[trigger]
            cached(later.property_cache).contains_key(id) ==> self.may_read(
                id,
                max_depth,
                Ok(cached(later.property_cache)[id]),
            )
    }

    /// A read after other reads gives what a first read may give.
    pub proof fn lemma_read_after_reads(self, max_depth: usize, later: VersionTable<E>, id: u64)
        requires
            self.after_reads(max_depth, later),
        ensures
            self.may_read(id, max_depth, later.resolved(id, max_depth)),
    {
    }
}

/// One more read leaves the table in a state that reads make of it.
pub proof fn lemma_reads_compose<E>(
    t: VersionTable<E>,
    max_depth: usize,
    mid: VersionTable<E>,
    later: VersionTable<E>,
    id: u64,
    p: Properties,
)
    requires
        t.after_reads(max_depth, mid),
        mid.resolved(id, max_depth) == Ok::<Properties, ErrorView>(p),
        later.same_but_cache(mid),
        cached(later.property_cache).submap_of(cached(mid.property_cache).insert(id, p)),
    ensures
        t.after_reads(max_depth, later),
{
    t.lemma_read_after_reads(max_depth, mid, id);
    assert forall|k: u64| #[trigger] cached(later.property_cache).contains_key(k) implies t.may_read(
        k,
        max_depth,
        Ok(cached(later.property_cache)[k]),
    ) by {
        assert(cached(mid.property_cache).insert(id, p).contains_key(k));
        if k != id {
            assert(cached(mid.property_cache).contains_key(k));
        }
    }
}

impl<E> VersionTable<E> {
    /// The versions visible at the point, of those entities whose version there has the label, in
    /// the order of the request.
    pub open spec fn labelled_versions_at(
        self,
        entities: Seq<u64>,
        label: InternedString,
        valid_time: Timestamp,
        transaction_time: Timestamp,
    ) -> Seq<u64>
        decreases entities.len(),
    {
        if entities.len() == 0 {
            Seq::empty()
        } else {
            let before = self.labelled_versions_at(
                entities.drop_last(),
                label,
                valid_time,
                transaction_time,
            );
            match self.version_at(entities.last(), valid_time, transaction_time) {
                Some(v) if self.versions@[v].label == label => before.push(v),
                _ => before,
            }
        }
    }

    /// How many of the entities are visible at the point, counted as often as they are listed.
    pub open spec fn visible_among(
        self,
        entities: Seq<u64>,
        valid_time: Timestamp,
        transaction_time: Timestamp,
    ) -> nat
        decreases entities.len(),
    {
        if entities.len() == 0 {
            0
        } else {
            self.visible_among(entities.drop_last(), valid_time, transaction_time)
                + if self.version_at(entities.last(), valid_time, transaction_time) is Some {
                1nat
            } else {
                0
            }
        }
    }

    /// The versions of an entity that its history lists, the oldest first.
    pub open spec fn history_ids(self, head: u64) -> Seq<u64> {
        chain_ids(self.versions@, head).reverse()
    }

    /// How many of those are not in memory: none, or only the oldest.
    pub open spec fn history_gap(self, head: u64) -> int {
        if self.versions@.contains_key(self.history_ids(head)[0]) {
            0
        } else {
            1
        }
    }

    /// A version of the history cannot be read; those before it were.
    pub open spec fn history_fails(
        self,
        head: u64,
        max_depth: usize,
        e: ErrorView,
        before: CacheMetrics,
        after: CacheMetrics,
    ) -> bool {
        exists|k: int|
            {
                &&& self.history_gap(head) <= k < self.history_ids(head).len()
                &&& self.may_read(#[trigger] self.history_ids(head)[k], max_depth, Err(e))
                &&& before.after_lookups((k + 1 - self.history_gap(head)) as nat, after)
            }
    }

    /// A complete history of the chain that ends in `head`.
    pub open spec fn history_is(
        self,
        interner: StringInterner,
        head: u64,
        max_depth: usize,
        list: Seq<VersionInfo>,
    ) -> bool {
        let ids = self.history_ids(head);
        let gap = self.history_gap(head);
        &&& list.len() == ids.len() - gap
        &&& forall|k: int|
            0 <= k < list.len() ==> info_of(
                interner,
                ids[k + gap],
                self.versions@[ids[k + gap]],
                k + gap + 1,
                list[k].properties@,
                #[trigger] list[k],
            ) && self.may_read(ids[k + gap], max_depth, Ok(list[k].properties@))
    }
}

impl VersionDiff {
    /// The difference between the properties of two versions.
    pub fn compute(
        from: &PropertyMap,
        to: &PropertyMap,
        from_version: VersionId,
        to_version: VersionId,
    ) -> (r: VersionDiff)
        ensures
            r.from_version == from_version,
            r.to_version == to_version,
            diff_of(from@, to@, r),
    {
        let mut added = PropertyMap::new();
        let mut modified: HashMap<u32, (PropertyValue, PropertyValue)> = HashMap::new();
        let new_names: Vec<u32> = keys_of(&to.values);
        let mut i: usize = 0;
        while i < new_names.len()
            invariant
                i <= new_names.len(),
                lists_keys(new_names@, to.values@),
                forall|name: u32| #[trigger]
                    added@.contains_key(name) <==> !from@.contains_key(name)
                        && new_names@.take(i as int).contains(name),
                forall|name: u32| #[trigger]
                    added@.contains_key(name) ==> added@[name] == to@[name],
                forall|name: u32| #[trigger]
                    modified@.contains_key(name) <==> from@.contains_key(name) && to@.contains_key(
                        name,
                    ) && from@[name] != to@[name] && new_names@.take(i as int).contains(name),
                forall|name: u32| #[trigger]
                    modified@.contains_key(name) ==> modified@[name].0@ == from@[name]
                        && modified@[name].1@ == to@[name],
            decreases new_names.len() - i,
        {
            let name: u32 = new_names[i];
            proof {
                lemma_take_contains(new_names@, i as int);
                assert(to.values@.contains_key(new_names@[i as int]));
            }
            if let Some(value) = to.values.get(&name) {
                match from.values.get(&name) {
                    None => {
                        added.insert(InternedString(name), value.copied());
                    },
                    Some(old_value) => {
                        if !old_value.is_same(value) {
                            modified.insert(name, (old_value.copied(), value.copied()));
                        }
                    },
                }
            }
            i = i + 1;
        }
        assert(new_names@.take(i as int) =~= new_names@);
        let mut removed = PropertyMap::new();
        let old_names: Vec<u32> = keys_of(&from.values);
        let mut k: usize = 0;
        while k < old_names.len()
            invariant
                k <= old_names.len(),
                lists_keys(old_names@, from.values@),
                forall|name: u32| #[trigger]
                    removed@.contains_key(name) <==> !to@.contains_key(name)
                        && old_names@.take(k as int).contains(name),
                forall|name: u32| #[trigger]
                    removed@.contains_key(name) ==> removed@[name] == from@[name],
            decreases old_names.len() - k,
        {
            let name: u32 = old_names[k];
            proof {
                lemma_take_contains(old_names@, k as int);
                assert(from.values@.contains_key(old_names@[k as int]));
            }
            if let Some(value) = from.values.get(&name) {
                if !to.values.contains_key(&name) {
                    removed.insert(InternedString(name), value.copied());
                }
            }
            k = k + 1;
        }
        assert(old_names@.take(k as int) =~= old_names@);
        assert(added@ =~= to@.remove_keys(from@.dom()));
        assert(removed@ =~= from@.remove_keys(to@.dom()));
        VersionDiff { from_version, to_version, added, removed, modified }
    }
}

impl<E: Copy> VersionTable<E> {
    /// An entity as it was at the point.
    pub fn state_at_time(
        &mut self,
        entity: u64,
        valid_time: Timestamp,
        transaction_time: Timestamp,
        max_depth: usize,
        meters: &mut Meters,
    ) -> (r: Result<EntityState<E>, Error>)
        ensures
            match old(self).version_at(entity, valid_time, transaction_time) {
                None => r matches Err(e) && e@ == not_found(old(self).kind, entity) && *final(self)
                    == *old(self),
                Some(v) => match (r, old(self).resolved(v, max_depth)) {
                    (Ok(state), Ok(p)) => state_of(old(self).versions@[v], p, state),
                    (Err(e), Err(f)) => e@ == f,
                    _ => false,
                },
            },
            old(self).after_reads(max_depth, *final(self)),
            final(meters).hooks == old(meters).hooks,
            final(meters).cache == (match old(self).version_at(
                entity,
                valid_time,
                transaction_time,
            ) {
                Some(v) => old(self).read_counted(v, old(meters).cache),
                None => old(meters).cache,
            }),
    {
        proof {
            self.law_found_is_visible(entity, valid_time, transaction_time);
        }
        let id: u64 = match self.find_version_at_time(entity, valid_time, transaction_time) {
            Some(id) => id,
            None => {
                return Err(not_found_error(self.kind, entity));
            },
        };
        self.state_of_version(id, max_depth, meters)
    }

    /// An entity as a version in memory has it.
    fn state_of_version(&mut self, id: u64, max_depth: usize, meters: &mut Meters) -> (r: Result<
        EntityState<E>,
        Error,
    >)
        requires
            old(self).versions@.contains_key(id),
        ensures
            match (r, old(self).resolved(id, max_depth)) {
                (Ok(state), Ok(p)) => state_of(old(self).versions@[id], p, state) && cached(
                    final(self).property_cache,
                ).submap_of(cached(old(self).property_cache).insert(id, p)),
                (Err(e), Err(f)) => e@ == f && *final(self) == *old(self),
                _ => false,
            },
            final(self).same_but_cache(*old(self)),
            old(self).after_reads(max_depth, *final(self)),
            final(meters).hooks == old(meters).hooks,
            final(meters).cache == old(self).read_counted(id, old(meters).cache),
    {
        let properties = match self.reconstruct(id, max_depth, meters) {
            Ok(p) => p,
            Err(e) => {
                return Err(e);
            },
        };
        proof {
            lemma_reads_compose(*old(self), max_depth, *old(self), *self, id, properties@);
        }
        match self.versions.get(&id) {
            Some(v) => Ok(
                EntityState {
                    entity: v.entity,
                    label: v.label,
                    ends: v.ends,
                    properties,
                    version: v.id,
                },
            ),
            None => Err(Error::Storage(StorageError::VersionNotFound(VersionId(id)))),
        }
    }

    /// Several entities as they were at the point; `None` for those that were not visible. A
    /// chain that cannot be read fails the whole request.
    pub fn states_at_time(
        &mut self,
        entities: &Vec<u64>,
        valid_time: Timestamp,
        transaction_time: Timestamp,
        max_depth: usize,
        meters: &mut Meters,
    ) -> (r: Result<Vec<(u64, Option<EntityState<E>>)>, Error>)
        ensures
            match r {
                Ok(list) => {
                    &&& list@.len() == entities@.len()
                    &&& forall|i: int|
                        0 <= i < list@.len() ==> (#[trigger] list@[i]).0 == entities@[i] && match (
                            old(self).version_at(entities@[i], valid_time, transaction_time),
                            list@[i].1,
                        ) {
                            (None, None) => true,
                            (Some(v), Some(state)) => state_of(
                                old(self).versions@[v],
                                state.properties@,
                                state,
                            ) && old(self).may_read(v, max_depth, Ok(state.properties@)),
                            _ => false,
                        }
                    &&& old(meters).cache.after_lookups(
                        old(self).visible_among(entities@, valid_time, transaction_time),
                        final(meters).cache,
                    )
                },
                Err(e) => exists|i: int|
                    0 <= i < entities@.len() && (#[trigger] old(self).version_at(
                        entities@[i],
                        valid_time,
                        transaction_time,
                    ) matches Some(v) && old(self).may_read(v, max_depth, Err(e@)))
                        && old(meters).cache.after_lookups(
                        old(self).visible_among(
                            entities@.take(i + 1),
                            valid_time,
                            transaction_time,
                        ),
                        final(meters).cache,
                    ),
            },
            old(self).after_reads(max_depth, *final(self)),
            final(meters).hooks == old(meters).hooks,
    {
        let mut list: Vec<(u64, Option<EntityState<E>>)> = Vec::new();
        proof {
            meters.cache.lemma_no_lookup();
        }
        let mut i: usize = 0;
        while i < entities.len()
            invariant
                i <= entities.len(),
                list@.len() == i,
                old(self).after_reads(max_depth, *self),
                meters.hooks == old(meters).hooks,
                old(meters).cache.after_lookups(
                    old(self).visible_among(
                        entities@.take(i as int),
                        valid_time,
                        transaction_time,
                    ),
                    meters.cache,
                ),
                forall|j: int|
                    0 <= j < list@.len() ==> (#[trigger] list@[j]).0 == entities@[j] && match (
                        old(self).version_at(entities@[j], valid_time, transaction_time),
                        list@[j].1,
                    ) {
                        (None, None) => true,
                        (Some(v), Some(state)) => state_of(
                            old(self).versions@[v],
                            state.properties@,
                            state,
                        ) && old(self).may_read(v, max_depth, Ok(state.properties@)),
                        _ => false,
                    },
            decreases entities.len() - i,
        {
            let entity: u64 = entities[i];
            proof {
                assert(entities@.take(i + 1).drop_last() =~= entities@.take(i as int));
                assert(entities@.take(i + 1).last() == entity);
                old(self).law_found_is_visible(entity, valid_time, transaction_time);
                assert(self.version_at(entity, valid_time, transaction_time) == old(
                    self,
                ).version_at(entities@[i as int], valid_time, transaction_time));
            }
            match self.find_version_at_time(entity, valid_time, transaction_time) {
                None => {
                    list.push((entity, None));
                },
                Some(id) => {
                    let ghost mid = *self;
                    proof {
                        old(self).lemma_read_after_reads(max_depth, mid, id);
                        old(meters).cache.lemma_next_lookup(
                            old(self).visible_among(
                                entities@.take(i as int),
                                valid_time,
                                transaction_time,
                            ),
                            meters.cache,
                            mid.service_of(id),
                        );
                    }
                    match self.state_of_version(id, max_depth, meters) {
                        Ok(state) => {
                            proof {
                                lemma_reads_compose(
                                    *old(self),
                                    max_depth,
                                    mid,
                                    *self,
                                    id,
                                    state.properties@,
                                );
                            }
                            list.push((entity, Some(state)));
                        },
                        Err(e) => {
                            assert(old(self).version_at(
                                entities@[i as int],
                                valid_time,
                                transaction_time,
                            ) is Some);
                            return Err(e);
                        },
                    }
                },
            }
            i = i + 1;
        }
        assert(entities@.take(i as int) =~= entities@);
        Ok(list)
    }

    /// The entities that had the label at the point, as they were; those that were not visible or
    /// had another label are left out. A chain that cannot be read fails the whole request.
    pub fn states_at_time_with_label(
        &mut self,
        entities: &Vec<u64>,
        label: InternedString,
        valid_time: Timestamp,
        transaction_time: Timestamp,
        max_depth: usize,
        meters: &mut Meters,
    ) -> (r: Result<Vec<EntityState<E>>, Error>)
        ensures
            ({
                let ids = old(self).labelled_versions_at(
                    entities@,
                    label,
                    valid_time,
                    transaction_time,
                );
                match r {
                    Ok(list) => list@.len() == ids.len() && (forall|i: int|
                        0 <= i < list@.len() ==> {
                            let v = old(self).versions@[ids[i]];
                            let s = #[trigger] list@[i];
                            &&& s.entity == v.entity
                            &&& s.label == label
                            &&& s.ends == v.ends
                            &&& s.version == ids[i]
                            &&& old(self).may_read(ids[i], max_depth, Ok(s.properties@))
                        }) && old(meters).cache.after_lookups(ids.len(), final(meters).cache),
                    Err(e) => exists|i: int|
                        0 <= i < ids.len() && old(self).may_read(
                            #[trigger] ids[i],
                            max_depth,
                            Err(e@),
                        ) && old(meters).cache.after_lookups((i + 1) as nat, final(meters).cache),
                }
            }),
            old(self).after_reads(max_depth, *final(self)),
            final(meters).hooks == old(meters).hooks,
    {
        let mut list: Vec<EntityState<E>> = Vec::new();
        let ghost mut ids: Seq<u64> = Seq::empty();
        proof {
            meters.cache.lemma_no_lookup();
        }
        let ghost all = old(self).labelled_versions_at(
            entities@,
            label,
            valid_time,
            transaction_time,
        );
        let mut i: usize = 0;
        while i < entities.len()
            invariant
                i <= entities.len(),
                ids == old(self).labelled_versions_at(
                    entities@.take(i as int),
                    label,
                    valid_time,
                    transaction_time,
                ),
                all == old(self).labelled_versions_at(
                    entities@,
                    label,
                    valid_time,
                    transaction_time,
                ),
                list@.len() == ids.len(),
                old(self).after_reads(max_depth, *self),
                meters.hooks == old(meters).hooks,
                old(meters).cache.after_lookups(ids.len(), meters.cache),
                forall|j: int|
                    0 <= j < list@.len() ==> {
                        let v = old(self).versions@[ids[j]];
                        let s = #[trigger] list@[j];
                        &&& s.entity == v.entity
                        &&& s.label == label
                        &&& s.ends == v.ends
                        &&& s.version == ids[j]
                        &&& old(self).may_read(ids[j], max_depth, Ok(s.properties@))
                    },
            decreases entities.len() - i,
        {
            let entity: u64 = entities[i];
            proof {
                assert(entities@.take(i + 1).drop_last() =~= entities@.take(i as int));
                assert(entities@.take(i + 1).last() == entity);
                old(self).law_found_is_visible(entity, valid_time, transaction_time);
                assert(self.version_at(entity, valid_time, transaction_time) == old(
                    self,
                ).version_at(entity, valid_time, transaction_time));
            }
            if let Some(id) = self.find_version_at_time(entity, valid_time, transaction_time) {
                let on_label = match self.versions.get(&id) {
                    Some(v) => v.label == label,
                    None => false,
                };
                if on_label {
                    let ghost mid = *self;
                    proof {
                        old(self).lemma_read_after_reads(max_depth, mid, id);
                        old(meters).cache.lemma_next_lookup(
                            ids.len(),
                            meters.cache,
                            mid.service_of(id),
                        );
                    }
                    match self.state_of_version(id, max_depth, meters) {
                        Ok(state) => {
                            proof {
                                lemma_reads_compose(
                                    *old(self),
                                    max_depth,
                                    mid,
                                    *self,
                                    id,
                                    state.properties@,
                                );
                                ids = ids.push(id);
                            }
                            list.push(EntityState { version: id, ..state });
                        },
                        Err(e) => {
                            proof {
                                old(self).lemma_labelled_prefix(
                                    entities@,
                                    label,
                                    valid_time,
                                    transaction_time,
                                    i + 1,
                                );
                                assert(all[ids.len() as int] == id);
                            }
                            return Err(e);
                        },
                    }
                }
            }
            i = i + 1;
        }
        assert(entities@.take(i as int) =~= entities@);
        Ok(list)
    }

    /// The history of an entity, the oldest version first.
    pub fn history(
        &mut self,
        entity: u64,
        interner: &StringInterner,
        max_depth: usize,
        meters: &mut Meters,
    ) -> (r: Result<EntityHistory, Error>)
        requires
            entry_of(old(self).heads@, entity) matches Some(head) ==> links_end(
                old(self).versions@,
                head,
            ),
        ensures
            match (entry_of(old(self).heads@, entity), r) {
                (None, Err(e)) => e@ == not_found(old(self).kind, entity) && final(meters).cache
                    == old(meters).cache,
                (Some(head), Ok(h)) => old(self).history_is(
                    *interner,
                    head,
                    max_depth,
                    h.versions@,
                )
                    && old(meters).cache.after_lookups(h.versions@.len(), final(meters).cache),
                (Some(head), Err(e)) => old(self).history_fails(
                    head,
                    max_depth,
                    e@,
                    old(meters).cache,
                    final(meters).cache,
                ),
                _ => false,
            },
            old(self).after_reads(max_depth, *final(self)),
            final(meters).hooks == old(meters).hooks,
    {
        let head: u64 = match self.heads.get(&entity) {
            Some(h) => *h,
            None => {
                return Err(not_found_error(self.kind, entity));
            },
        };
        let ids: Vec<u64> = self.chain_from_oldest(head);
        let ghost gap = old(self).history_gap(head);
        proof {
            lemma_chain_in_memory(self.versions@, head);
            let latest_first = chain_ids(self.versions@, head);
            assert forall|k: int| 1 <= k < ids@.len() implies self.versions@.contains_key(
                #[trigger] ids@[k],
            ) by {
                assert(ids@[k] == latest_first[latest_first.len() - 1 - k]);
            }
        }
        let mut list: Vec<VersionInfo> = Vec::new();
        proof {
            meters.cache.lemma_no_lookup();
        }
        let mut i: usize = 0;
        while i < ids.len()
            invariant
                i <= ids.len(),
                entry_of(old(self).heads@, entity) == Some(head),
                ids@ == old(self).history_ids(head),
                gap == old(self).history_gap(head),
                forall|k: int|
                    1 <= k < ids@.len() ==> old(self).versions@.contains_key(#[trigger] ids@[k]),
                old(self).after_reads(max_depth, *self),
                meters.hooks == old(meters).hooks,
                old(meters).cache.after_lookups(list@.len(), meters.cache),
                list@.len() == if i == 0 {
                    0
                } else {
                    i - gap
                },
                forall|k: int|
                    0 <= k < list@.len() ==> info_of(
                        *interner,
                        ids@[k + gap],
                        old(self).versions@[ids@[k + gap]],
                        k + gap + 1,
                        list@[k].properties@,
                        #[trigger] list@[k],
                    ) && old(self).may_read(ids@[k + gap], max_depth, Ok(list@[k].properties@)),
            decreases ids.len() - i,
        {
            let id: u64 = ids[i];
            if self.versions.contains_key(&id) {
                let ghost mid = *self;
                proof {
                    old(self).lemma_read_after_reads(max_depth, mid, id);
                    old(meters).cache.lemma_next_lookup(
                        list@.len(),
                        meters.cache,
                        mid.service_of(id),
                    );
                    if i > 0 {
                        assert(old(self).versions@.contains_key(ids@[i as int]));
                    }
                }
                let properties = match self.reconstruct(id, max_depth, meters) {
                    Ok(p) => p,
                    Err(e) => {
                        assert(old(self).may_read(
                            old(self).history_ids(head)[i as int],
                            max_depth,
                            Err(e@),
                        ));
                        assert(old(self).history_fails(
                            head,
                            max_depth,
                            e@,
                            old(meters).cache,
                            meters.cache,
                        ));
                        return Err(e);
                    },
                };
                proof {
                    lemma_reads_compose(*old(self), max_depth, mid, *self, id, properties@);
                }
                if let Some(version) = self.versions.get(&id) {
                    list.push(
                        VersionInfo {
                            version_number: i as u64 + 1,
                            version_id: VersionId(id),
                            temporal: version.temporal,
                            properties,
                            label: name_label(interner, version.label),
                            provenance: match &version.provenance {
                                Some(p) => Some(p.clone()),
                                None => None,
                            },
                        },
                    );
                }
            }
            i = i + 1;
        }
        Ok(EntityHistory { versions: list })
    }

    /// An entity as the version with the given number in its history has it; the first has the
    /// number one.
    pub fn state_at_version(
        &mut self,
        entity: u64,
        version_number: u64,
        max_depth: usize,
        meters: &mut Meters,
    ) -> (r: Result<EntityState<E>, Error>)
        requires
            entry_of(old(self).heads@, entity) matches Some(head) ==> links_end(
                old(self).versions@,
                head,
            ),
        ensures
            match entry_of(old(self).heads@, entity) {
                Some(head) if 1 <= version_number <= old(self).history_ids(head).len() => {
                    let id = old(self).history_ids(head)[version_number - 1];
                    if !old(self).versions@.contains_key(id) {
                        r matches Err(e) && e@ == ErrorView::VersionNotFound(VersionId(id))
                    } else {
                        match (r, old(self).resolved(id, max_depth)) {
                            (Ok(state), Ok(p)) => state_of(old(self).versions@[id], p, state),
                            (Err(e), Err(f)) => e@ == f,
                            _ => false,
                        }
                    }
                },
                _ => r matches Err(e) && e@ == not_found(old(self).kind, entity),
            },
            old(self).after_reads(max_depth, *final(self)),
            final(meters).hooks == old(meters).hooks,
            final(meters).cache == (match entry_of(old(self).heads@, entity) {
                Some(head) if 1 <= version_number <= old(self).history_ids(head).len()
                    && old(self).versions@.contains_key(
                    old(self).history_ids(head)[version_number - 1],
                ) => old(self).read_counted(
                    old(self).history_ids(head)[version_number - 1],
                    old(meters).cache,
                ),
                _ => old(meters).cache,
            }),
    {
        let head: u64 = match self.heads.get(&entity) {
            Some(h) => *h,
            None => {
                return Err(not_found_error(self.kind, entity));
            },
        };
        let ids: Vec<u64> = self.chain_from_oldest(head);
        if version_number == 0 || version_number > ids.len() as u64 {
            return Err(not_found_error(self.kind, entity));
        }
        let id: u64 = ids[(version_number - 1) as usize];
        if !self.versions.contains_key(&id) {
            return Err(Error::Storage(StorageError::VersionNotFound(VersionId(id))));
        }
        self.state_of_version(id, max_depth, meters)
    }

    fn foreign_version_error(&self, version: u64, owner: u64, entity: u64) -> (r: Error)
        ensures
            r@ == foreign_version(self.kind, version, owner, entity),
    {
        let word = self.kind.word();
        let mut reason = String::from_str("Version ");
        push_decimal(&mut reason, version);
        reason.append(" belongs to ");
        reason.append(word);
        reason.append(" ");
        push_decimal(&mut reason, owner);
        reason.append(", not ");
        reason.append(word);
        reason.append(" ");
        push_decimal(&mut reason, entity);
        Error::Storage(StorageError::InconsistentState { reason })
    }

    /// The difference between two versions of an entity.
    pub fn diff(
        &mut self,
        entity: u64,
        from_version: u64,
        to_version: u64,
        max_depth: usize,
        meters: &mut Meters,
    ) -> (r: Result<VersionDiff, Error>)
        ensures
            match old(self).diff_refusal(entity, from_version, to_version) {
                Some(f) => r matches Err(e) && e@ == f && *final(self) == *old(self),
                None => match (r, old(self).resolved(from_version, max_depth)) {
                    (Err(e), Err(f)) => e@ == f,
                    (Err(e), Ok(_)) => old(self).may_read(to_version, max_depth, Err(e@)),
                    (Ok(d), Ok(from)) => {
                        &&& d.from_version == VersionId(from_version)
                        &&& d.to_version == VersionId(to_version)
                        &&& old(self).leads_to(from, to_version, max_depth, d)
                    },
                    _ => false,
                },
            },
            old(self).after_reads(max_depth, *final(self)),
            final(meters).hooks == old(meters).hooks,
            match old(self).diff_refusal(entity, from_version, to_version) {
                Some(_) => final(meters).cache == old(meters).cache,
                None => if old(self).resolved(from_version, max_depth) is Ok {
                    old(meters).cache.after_lookups(2, final(meters).cache)
                } else {
                    final(meters).cache == old(self).read_counted(from_version, old(meters).cache)
                },
            },
    {
        let from_owner: u64 = match self.versions.get(&from_version) {
            Some(v) => v.entity,
            None => {
                return Err(Error::Storage(StorageError::VersionNotFound(VersionId(from_version))));
            },
        };
        let to_owner: u64 = match self.versions.get(&to_version) {
            Some(v) => v.entity,
            None => {
                return Err(Error::Storage(StorageError::VersionNotFound(VersionId(to_version))));
            },
        };
        if from_owner != entity {
            return Err(self.foreign_version_error(from_version, from_owner, entity));
        }
        if to_owner != entity {
            return Err(self.foreign_version_error(to_version, to_owner, entity));
        }
        let from = match self.reconstruct(from_version, max_depth, meters) {
            Ok(p) => p,
            Err(e) => {
                return Err(e);
            },
        };
        let ghost mid = *self;
        proof {
            lemma_reads_compose(*old(self), max_depth, *old(self), mid, from_version, from@);
            old(self).lemma_read_after_reads(max_depth, mid, to_version);
            old(meters).cache.lemma_no_lookup();
            old(meters).cache.lemma_next_lookup(
                0,
                old(meters).cache,
                old(self).service_of(from_version),
            );
            old(meters).cache.lemma_next_lookup(1, meters.cache, mid.service_of(to_version));
        }
        let to = match self.reconstruct(to_version, max_depth, meters) {
            Ok(p) => p,
            Err(e) => {
                return Err(e);
            },
        };
        proof {
            lemma_reads_compose(*old(self), max_depth, mid, *self, to_version, to@);
        }
        let d = VersionDiff::compute(
            &from,
            &to,
            VersionId(from_version),
            VersionId(to_version),
        );
        assert(old(self).resolved(from_version, max_depth) == Ok::<Properties, ErrorView>(from@));
        assert(old(self).leads_to(from@, to_version, max_depth, d)) by {
            assert(diff_of(from@, to@, d) && old(self).may_read(to_version, max_depth, Ok(to@)));
        }
        Ok(d)
    }
}

/// The error for a version that belongs to another entity.
pub open spec fn foreign_version(
    kind: EntityKind,
    version: u64,
    owner: u64,
    entity: u64,
) -> ErrorView {
    ErrorView::InconsistentState {
        reason: "Version "@ + decimal(version as nat) + " belongs to "@ + kind.spec_word() + " "@
            + decimal(owner as nat) + ", not "@ + kind.spec_word() + " "@ + decimal(entity as nat),
    }
}

impl<E> VersionTable<E> {
    /// Why a difference between two versions is refused: one is not in memory, or belongs to
    /// another entity.
    pub open spec fn diff_refusal(self, entity: u64, from: u64, to: u64) -> Option<ErrorView> {
        let m = self.versions@;
        if !m.contains_key(from) {
            Some(ErrorView::VersionNotFound(VersionId(from)))
        } else if !m.contains_key(to) {
            Some(ErrorView::VersionNotFound(VersionId(to)))
        } else if m[from].entity != entity {
            Some(foreign_version(self.kind, from, m[from].entity, entity))
        } else if m[to].entity != entity {
            Some(foreign_version(self.kind, to, m[to].entity, entity))
        } else {
            None
        }
    }

    /// The difference leads from the given properties to what a read of a version may give.
    pub open spec fn leads_to(
        self,
        from: Properties,
        to_version: u64,
        max_depth: usize,
        d: VersionDiff,
    ) -> bool {
        exists|to: Properties| #[trigger]
            diff_of(from, to, d) && self.may_read(to_version, max_depth, Ok(to))
    }

    proof fn lemma_labelled_prefix(
        self,
        entities: Seq<u64>,
        label: InternedString,
        valid_time: Timestamp,
        transaction_time: Timestamp,
        n: int,
    )
        requires
            0 <= n <= entities.len(),
        ensures
            self.labelled_versions_at(entities.take(n), label, valid_time, transaction_time).len()
                <= self.labelled_versions_at(entities, label, valid_time, transaction_time).len(),
            forall|i: int|
                0 <= i < self.labelled_versions_at(
                    entities.take(n),
                    label,
                    valid_time,
                    transaction_time,
                ).len() ==> #[trigger] self.labelled_versions_at(
                    entities,
                    label,
                    valid_time,
                    transaction_time,
                )[i] == self.labelled_versions_at(
                    entities.take(n),
                    label,
                    valid_time,
                    transaction_time,
                )[i],
        decreases entities.len() - n,
    {
        if n == entities.len() {
            assert(entities.take(n) =~= entities);
        } else {
            self.lemma_labelled_prefix(entities, label, valid_time, transaction_time, n + 1);
            assert(entities.take(n + 1).drop_last() =~= entities.take(n));
        }
    }
}

/// The history of an entity lists its versions, the oldest first: where versions lead back from its
/// latest one and all of them are in memory, each is listed once, numbered from one on, with its
/// own times, author and label.
pub proof fn law_history_lists_every_version<E>(
    t: VersionTable<E>,
    interner: StringInterner,
    ids: Seq<u64>,
    max_depth: usize,
    list: Seq<VersionInfo>,
    k: int,
)
    requires
        leads_back(t.versions@, ids[0], ids),
        t.versions@.contains_key(ids.last()),
        t.versions@[ids.last()].prev_version is None,
        t.history_is(interner, ids[0], max_depth, list),
        0 <= k < list.len(),
    ensures
        list.len() == ids.len(),
        ({
            let id = ids[ids.len() - 1 - k];
            let v = t.versions@[id];
            &&& list[k].version_id == VersionId(id)
            &&& list[k].version_number == k + 1
            &&& list[k].temporal == v.temporal
            &&& list[k].provenance == v.provenance
            &&& v.label.0 < interner.strings@.len() ==> list[k].label@
                == interner.strings@[v.label.0 as int]@
            &&& t.may_read(id, max_depth, Ok(list[k].properties@))
        }),
{
    law_chain_follows_the_links(t.versions@, ids);
    assert(t.history_ids(ids[0])[0] == ids.last());
    assert(t.history_ids(ids[0])[k] == ids[ids.len() - 1 - k]);
    assert(info_of(
        interner,
        t.history_ids(ids[0])[k + 0],
        t.versions@[t.history_ids(ids[0])[k + 0]],
        k + 1,
        list[k].properties@,
        list[k],
    ));
}

/// A difference turns the earlier properties into the later ones: every later property is added, is
/// modified to its value, or was there with it before; every earlier one that is gone is removed.
/// The difference the other way round adds what this one removes and removes what it adds.
pub proof fn law_difference_leads_over(
    from: Properties,
    to: Properties,
    d: VersionDiff,
    back: VersionDiff,
    name: u32,
)
    requires
        diff_of(from, to, d),
        diff_of(to, from, back),
    ensures
        !from.contains_key(name) && to.contains_key(name) <==> d.added@.contains_key(name),
        d.added@.contains_key(name) ==> d.added@[name] == to[name],
        from.contains_key(name) && !to.contains_key(name) <==> d.removed@.contains_key(name),
        d.removed@.contains_key(name) ==> d.removed@[name] == from[name],
        from.contains_key(name) && to.contains_key(name) ==> (d.modified@.contains_key(name) <==> from[name]
            != to[name]),
        d.modified@.contains_key(name) ==> from.contains_key(name) && to.contains_key(name)
            && d.modified@[name].0@ == from[name] && d.modified@[name].1@ == to[name],
        back.added@ == d.removed@,
        back.removed@ == d.added@,
        back.modified@.contains_key(name) <==> d.modified@.contains_key(name),
        back.modified@.contains_key(name) ==> back.modified@[name].0@ == d.modified@[name].1@
            && back.modified@[name].1@ == d.modified@[name].0@,
{
}

/// A difference is refused exactly if one of the two versions is not in memory or belongs to
/// another entity; of several reasons, a missing version comes before a foreign one, and the
/// earlier version before the later one.
pub proof fn law_difference_within_one_entity<E>(t: VersionTable<E>, entity: u64, from: u64, to: u64)
    ensures
        ({
            let m = t.versions@;
            let refusal = t.diff_refusal(entity, from, to);
            &&& refusal is None <==> m.contains_key(from) && m.contains_key(to) && m[from].entity
                == entity && m[to].entity == entity
            &&& !m.contains_key(from) ==> refusal == Some(ErrorView::VersionNotFound(VersionId(from)))
            &&& m.contains_key(from) && !m.contains_key(to) ==> refusal == Some(
                ErrorView::VersionNotFound(VersionId(to)),
            )
            &&& m.contains_key(from) && m.contains_key(to) && refusal is Some
                ==> refusal->0 is InconsistentState
        }),
{
}

/// The versions with a label at a point are those of the entities asked for that are visible there
/// and have the label there: one for each, in the order of the request.
pub proof fn law_labelled_versions<E>(
    t: VersionTable<E>,
    entities: Seq<u64>,
    label: InternedString,
    valid_time: Timestamp,
    transaction_time: Timestamp,
)
    ensures
        t.labelled_versions_at(entities, label, valid_time, transaction_time) == entities.filter(
            |e: u64|
                t.version_at(e, valid_time, transaction_time) is Some && t.versions@[t.version_at(
                    e,
                    valid_time,
                    transaction_time,
                )->0].label == label,
        ).map_values(|e: u64| t.version_at(e, valid_time, transaction_time)->0),
        t.visible_among(entities, valid_time, transaction_time) == entities.filter(
            |e: u64| t.version_at(e, valid_time, transaction_time) is Some,
        ).len(),
    decreases entities.len(),
{
    reveal(Seq::filter);
    let pick = |e: u64|
        t.version_at(e, valid_time, transaction_time) is Some && t.versions@[t.version_at(
            e,
            valid_time,
            transaction_time,
        )->0].label == label;
    let tell = |e: u64| t.version_at(e, valid_time, transaction_time)->0;
    if entities.len() == 0 {
        assert(entities.filter(pick).map_values(tell) =~= Seq::empty());
    } else {
        law_labelled_versions(t, entities.drop_last(), label, valid_time, transaction_time);
        let before = entities.drop_last().filter(pick);
        let last = entities.last();
        if pick(last) {
            assert(before.push(last).map_values(tell) =~= before.map_values(tell).push(tell(last)));
        }
    }
}

/// A read is counted where it was served: by the primary cache if that holds the version, else by
/// the anchor cache if that does, else as a walk along the chain. It gives what served it.
pub proof fn law_read_is_counted_where_it_was_served<E>(
    t: VersionTable<E>,
    id: u64,
    max_depth: usize,
    m: CacheMetrics,
)
    requires
        m.primary_cache_hits < u64::MAX,
        m.anchor_cache_hits < u64::MAX,
        m.full_reconstructions < u64::MAX,
    ensures
        ({
            let primary = cached(t.property_cache).contains_key(id);
            let anchor = !primary && cached(t.anchor_cache).contains_key(id);
            let after = t.read_counted(id, m);
            let read = t.resolved(id, max_depth);
            &&& after.primary_cache_hits == m.primary_cache_hits + if primary {
                1int
            } else {
                0
            }
            &&& after.anchor_cache_hits == m.anchor_cache_hits + if anchor {
                1int
            } else {
                0
            }
            &&& after.full_reconstructions == m.full_reconstructions + if primary || anchor {
                0int
            } else {
                1
            }
            &&& primary ==> read == Ok::<Properties, ErrorView>(cached(t.property_cache)[id])
            &&& anchor ==> read == Ok::<Properties, ErrorView>(cached(t.anchor_cache)[id])
            &&& !primary && !anchor ==> read == chain_properties(t.tiers(), id, max_depth as nat)
        }),
{
}

/// A label is named by the string that was interned under its number, and by the number where there
/// is none.
pub proof fn law_label_is_named(interner: StringInterner, label: InternedString)
    ensures
        label.0 < interner.strings@.len() ==> label_name(interner, label)
            == interner.strings@[label.0 as int]@,
        label.0 >= interner.strings@.len() ==> crate::text::read_digits(label_name(interner, label))
            == label.0,
{
    crate::text::law_decimal_reads_back(label.0 as nat);
}

/// Versions are numbered from the oldest on: where versions lead back from the latest one to an
/// end, the first is the last of them, and each further number is the one that supersedes the one
/// before.
pub proof fn law_versions_are_numbered<E>(t: VersionTable<E>, ids: Seq<u64>, n: int)
    requires
        leads_back(t.versions@, ids[0], ids),
        !t.versions@.contains_key(ids.last()) || t.versions@[ids.last()].prev_version is None,
        1 <= n <= ids.len(),
    ensures
        t.history_ids(ids[0]).len() == ids.len(),
        t.history_ids(ids[0])[n - 1] == ids[ids.len() - n],
        t.history_gap(ids[0]) == (if t.versions@.contains_key(ids.last()) {
            0int
        } else {
            1
        }),
{
    law_chain_follows_the_links(t.versions@, ids);
}

/// What a version stores is what the state of its entity says, with the properties that were read.
pub proof fn law_state_is_that_of_the_version<E>(
    v: EntityVersion<E>,
    properties: Properties,
    s: EntityState<E>,
)
    requires
        state_of(v, properties, s),
    ensures
        s.entity == v.entity,
        s.label == v.label,
        s.ends == v.ends,
        s.version == v.id,
        s.properties@ == properties,
{
}

/// A difference between two versions leads from what a read of the first gives to what a read of
/// the second may give: applied to the earlier properties it makes up later ones that a read may
/// give.
pub proof fn law_difference_is_between_reads<E>(
    t: VersionTable<E>,
    from: Properties,
    to_version: u64,
    max_depth: usize,
    d: VersionDiff,
    properties: Properties,
)
    requires
        t.leads_to(from, to_version, max_depth, d),
        forall|to: Properties| #[trigger] t.may_read(to_version, max_depth, Ok(to)) ==> to == properties,
    ensures
        forall|name: u32|
            (#[trigger] d.added@.contains_key(name) <==> properties.contains_key(name) && !from.contains_key(
                name,
            )),
        forall|name: u32|
            (#[trigger] d.removed@.contains_key(name) <==> from.contains_key(name)
                && !properties.contains_key(name)),
        forall|name: u32|
            (#[trigger] d.modified@.contains_key(name) <==> from.contains_key(name)
                && properties.contains_key(name) && from[name] != properties[name]),
{
    let to = choose|to: Properties| #[trigger]
        diff_of(from, to, d) && t.may_read(to_version, max_depth, Ok(to));
    assert(to == properties);
}

} // verus!

//! Rebuilding version chains after versions were restored one by one.
//!
//! What was restored is authoritative: only missing links are filled, and only open transaction
//! times are closed.

use super::table::{closes, entry_of, VersionTable};
use super::walk::{count_versions_since_anchor, deltas_back, since_anchor_of, walk_ends};
use crate::maps::{keys_of, lists_keys};
use crate::sorting::{ascending, lemma_same_values, sorted, Ranked};
use crate::temporal::Timestamp;
use crate::version::EntityVersion;
use std::collections::HashMap;
use vstd::prelude::*;

verus! {

broadcast use vstd::std_specs::hash::group_hash_axioms;

/// Where a version stands in its chain: chains are ordered by when versions became known, then
/// by identifier.
#[derive(Clone, Copy, Debug, PartialEq, Eq, Structural)]
pub struct ChainKey {
    /// The entity.
    pub entity: u64,
    /// When the version became known.
    pub start: Timestamp,
    /// The version.
    pub id: u64,
}

impl Ranked for ChainKey {
    open spec fn rank(self) -> int {
        (self.entity * 0x1_0000_0000_0000_0000_0000_0000int + self.start.key()
            + 0x8000_0000_0000_0000_0000_0000int) * 0x1_0000_0000_0000_0000int + self.id
    }

    fn ranks_within(&self, other: &ChainKey) -> (r: bool) {
        if self.entity != other.entity {
            self.entity < other.entity
        } else if self.start != other.start {
            proof {
                crate::temporal::lemma_timestamp_order(self.start, other.start);
            }
            self.start.is_before(&other.start)
        } else {
            self.id <= other.id
        }
    }
}

/// Version `a` comes before version `b` in the chain of one entity.
pub open spec fn precedes<E>(m: Map<u64, EntityVersion<E>>, a: u64, b: u64) -> bool {
    let start_a = m[a].temporal.transaction_time.start.key();
    let start_b = m[b].temporal.transaction_time.start.key();
    &&& m.contains_key(a)
    &&& m.contains_key(b)
    &&& m[a].entity == m[b].entity
    &&& start_a < start_b || (start_a == start_b && a < b)
}

/// Version `a` comes right before version `b`.
pub open spec fn adjacent<E>(m: Map<u64, EntityVersion<E>>, a: u64, b: u64) -> bool {
    &&& precedes(m, a, b)
    &&& forall|c: u64| !(#[trigger] precedes(m, a, c) && precedes(m, c, b))
}

/// The version right before `id`, if there is one.
pub open spec fn predecessor<E>(m: Map<u64, EntityVersion<E>>, id: u64) -> Option<u64> {
    if exists|p: u64| adjacent(m, p, id) {
        Some(choose|p: u64| adjacent(m, p, id))
    } else {
        None
    }
}

/// The version right after `id`, if there is one.
pub open spec fn successor<E>(m: Map<u64, EntityVersion<E>>, id: u64) -> Option<u64> {
    if exists|n: u64| adjacent(m, id, n) {
        Some(choose|n: u64| adjacent(m, id, n))
    } else {
        None
    }
}

/// Version `id` is the last of the entity's chain.
pub open spec fn is_latest<E>(m: Map<u64, EntityVersion<E>>, entity: u64, id: u64) -> bool {
    &&& m.contains_key(id)
    &&& m[id].entity == entity
    &&& forall|other: u64|
        #[trigger] m.contains_key(other) && m[other].entity == entity && other != id ==> precedes(
            m,
            other,
            id,
        )
}

/// The entity has a version in memory.
pub open spec fn has_versions<E>(m: Map<u64, EntityVersion<E>>, entity: u64) -> bool {
    exists|id: u64| #[trigger] m.contains_key(id) && m[id].entity == entity
}

/// The last version of the entity's chain.
pub open spec fn latest<E>(m: Map<u64, EntityVersion<E>>, entity: u64) -> u64 {
    choose|id: u64| is_latest(m, entity, id)
}

/// A version with its missing links filled, and closed where its successor became known if it
/// was still open.
pub open spec fn relinked<E>(m: Map<u64, EntityVersion<E>>, id: u64) -> EntityVersion<E> {
    let v = m[id];
    EntityVersion {
        prev_version: if v.prev_version is None {
            predecessor(m, id)
        } else {
            v.prev_version
        },
        next_version: if v.next_version is None {
            successor(m, id)
        } else {
            v.next_version
        },
        temporal: match successor(m, id) {
            Some(n) if closes(v.temporal, m[n].temporal.transaction_time.start) =>
                v.temporal.with_tx_end(m[n].temporal.transaction_time.start),
            _ => v.temporal,
        },
        ..v
    }
}

/// All versions with their missing links filled.
pub open spec fn relinked_all<E>(m: Map<u64, EntityVersion<E>>) -> Map<u64, EntityVersion<E>> {
    m.map_entries(|id: u64, v: EntityVersion<E>| relinked(m, id))
}

/// The entry of a version in the chain order.
pub open spec fn key_of<E>(m: Map<u64, EntityVersion<E>>, id: u64) -> ChainKey {
    ChainKey { entity: m[id].entity, start: m[id].temporal.transaction_time.start, id }
}

/// The keys list every version once, in chain order.
spec fn lists_chains<E>(s: Seq<ChainKey>, m: Map<u64, EntityVersion<E>>) -> bool {
    &&& ascending(s)
    &&& forall|i: int|
        0 <= i < s.len() ==> m.contains_key((#[trigger] s[i]).id) && s[i] == key_of(m, s[i].id)
    &&& forall|i: int, j: int|
        0 <= i < j < s.len() ==> (#[trigger] s[i]).id != (#[trigger] s[j]).id
    &&& forall|id: u64| #[trigger] m.contains_key(id) ==> s.contains(key_of(m, id))
}

/// Key `i` is the last of its entity.
spec fn last_of_entity(s: Seq<ChainKey>, i: int) -> bool {
    i + 1 == s.len() || s[i + 1].entity != s[i].entity
}

proof fn lemma_rank_order(a: ChainKey, b: ChainKey)
    ensures
        a.rank() < b.rank() <==> a.entity < b.entity || (a.entity == b.entity && (a.start.key()
            < b.start.key() || (a.start.key() == b.start.key() && a.id < b.id))),
        a.rank() == b.rank() ==> a == b,
{
    crate::temporal::lemma_timestamp_order(a.start, b.start);
}

proof fn lemma_precedes_by_position<E>(
    s: Seq<ChainKey>,
    m: Map<u64, EntityVersion<E>>,
    i: int,
    j: int,
)
    requires
        lists_chains(s, m),
        0 <= i < s.len(),
        0 <= j < s.len(),
    ensures
        precedes(m, s[i].id, s[j].id) <==> i < j && s[i].entity == s[j].entity,
        i <= j ==> s[i].entity <= s[j].entity,
{
    lemma_rank_order(s[i], s[j]);
    lemma_rank_order(s[j], s[i]);
    if i < j {
        assert(s[i].rank() <= s[j].rank());
        assert(s[i].id != s[j].id);
    } else if j < i {
        assert(s[j].rank() <= s[i].rank());
        assert(s[j].id != s[i].id);
    }
}

proof fn lemma_position<E>(s: Seq<ChainKey>, m: Map<u64, EntityVersion<E>>, id: u64) -> (i: int)
    requires
        lists_chains(s, m),
        m.contains_key(id),
    ensures
        0 <= i < s.len(),
        s[i] == key_of(m, id),
{
    assert(s.contains(key_of(m, id)));
    choose|i: int| 0 <= i < s.len() && s[i] == key_of(m, id)
}

proof fn lemma_adjacent_by_position<E>(
    s: Seq<ChainKey>,
    m: Map<u64, EntityVersion<E>>,
    i: int,
    j: int,
)
    requires
        lists_chains(s, m),
        0 <= i < s.len(),
        0 <= j < s.len(),
    ensures
        adjacent(m, s[i].id, s[j].id) <==> j == i + 1 && s[i].entity == s[j].entity,
{
    lemma_precedes_by_position(s, m, i, j);
    if j == i + 1 && s[i].entity == s[j].entity {
        assert forall|c: u64| !(#[trigger] precedes(m, s[i].id, c) && precedes(m, c, s[j].id)) by {
            if m.contains_key(c) {
                let k = lemma_position(s, m, c);
                lemma_precedes_by_position(s, m, i, k);
                lemma_precedes_by_position(s, m, k, j);
            }
        }
    }
    if adjacent(m, s[i].id, s[j].id) && j != i + 1 {
        lemma_precedes_by_position(s, m, i, i + 1);
        lemma_precedes_by_position(s, m, i + 1, j);
        assert(precedes(m, s[i].id, s[i + 1].id));
    }
}

proof fn lemma_neighbours<E>(s: Seq<ChainKey>, m: Map<u64, EntityVersion<E>>, i: int)
    requires
        lists_chains(s, m),
        0 <= i < s.len(),
    ensures
        predecessor(m, s[i].id) == (if i > 0 && s[i - 1].entity == s[i].entity {
            Some(s[i - 1].id)
        } else {
            None
        }),
        successor(m, s[i].id) == (if !last_of_entity(s, i) {
            Some(s[i + 1].id)
        } else {
            None
        }),
{
    let id = s[i].id;
    if i > 0 {
        lemma_adjacent_by_position(s, m, i - 1, i);
    }
    if i + 1 < s.len() {
        lemma_adjacent_by_position(s, m, i, i + 1);
    }
    if exists|p: u64| adjacent(m, p, id) {
        let p = choose|p: u64| adjacent(m, p, id);
        let k = lemma_position(s, m, p);
        lemma_adjacent_by_position(s, m, k, i);
    }
    if exists|n: u64| adjacent(m, id, n) {
        let n = choose|n: u64| adjacent(m, id, n);
        let k = lemma_position(s, m, n);
        lemma_adjacent_by_position(s, m, i, k);
    }
}

proof fn lemma_last_is_latest<E>(s: Seq<ChainKey>, m: Map<u64, EntityVersion<E>>, i: int)
    requires
        lists_chains(s, m),
        0 <= i < s.len(),
        last_of_entity(s, i),
    ensures
        has_versions(m, s[i].entity),
        is_latest(m, s[i].entity, s[i].id),
        latest(m, s[i].entity) == s[i].id,
{
    let entity = s[i].entity;
    assert(m.contains_key(s[i].id));
    assert forall|other: u64|
        #[trigger] m.contains_key(other) && m[other].entity == entity && other
            != s[i].id implies precedes(m, other, s[i].id) by {
        let k = lemma_position(s, m, other);
        lemma_precedes_by_position(s, m, k, i);
        if k > i {
            lemma_precedes_by_position(s, m, i, i + 1);
            lemma_precedes_by_position(s, m, i + 1, k);
        }
    }
    assert(is_latest(m, entity, s[i].id));
    let found = latest(m, entity);
    assert(is_latest(m, entity, found));
    if found != s[i].id {
        assert(precedes(m, s[i].id, found));
        assert(precedes(m, found, s[i].id));
    }
}

/// Every entity with versions has a last one among the keys.
proof fn lemma_entity_has_last<E>(
    s: Seq<ChainKey>,
    m: Map<u64, EntityVersion<E>>,
    i: int,
) -> (last: int)
    requires
        lists_chains(s, m),
        0 <= i < s.len(),
    ensures
        i <= last < s.len(),
        s[last].entity == s[i].entity,
        last_of_entity(s, last),
    decreases s.len() - i,
{
    if last_of_entity(s, i) {
        i
    } else {
        lemma_entity_has_last(s, m, i + 1)
    }
}

proof fn lemma_one_last_per_entity<E>(
    s: Seq<ChainKey>,
    m: Map<u64, EntityVersion<E>>,
    i: int,
    j: int,
)
    requires
        lists_chains(s, m),
        0 <= i < j < s.len(),
        last_of_entity(s, i),
    ensures
        s[i].entity != s[j].entity,
{
    lemma_precedes_by_position(s, m, i, i + 1);
    lemma_precedes_by_position(s, m, i + 1, j);
}

/// After the first `n` keys, the map holds a value for the last key of each entity among them,
/// and what it held before for all other entities.
spec fn filled<V>(
    s: Seq<ChainKey>,
    n: int,
    value: spec_fn(u64) -> V,
    before: Map<u64, V>,
    after: Map<u64, V>,
) -> bool {
    &&& forall|i: int|
        0 <= i < n && #[trigger] last_of_entity(s, i) ==> entry_of(after, s[i].entity) == Some(
            value(s[i].id),
        )
    &&& forall|entity: u64|
        (forall|i: int| 0 <= i < n && last_of_entity(s, i) ==> #[trigger] s[i].entity != entity)
            ==> #[trigger] entry_of(after, entity) == entry_of(before, entity)
}

proof fn lemma_filled<E, V>(
    s: Seq<ChainKey>,
    m: Map<u64, EntityVersion<E>>,
    value: spec_fn(u64) -> V,
    before: Map<u64, V>,
    after: Map<u64, V>,
    entity: u64,
)
    requires
        lists_chains(s, m),
        filled(s, s.len() as int, value, before, after),
    ensures
        entry_of(after, entity) == if has_versions(m, entity) {
            Some(value(latest(m, entity)))
        } else {
            entry_of(before, entity)
        },
{
    if has_versions(m, entity) {
        let id = choose|id: u64| #[trigger] m.contains_key(id) && m[id].entity == entity;
        let k = lemma_position(s, m, id);
        let last = lemma_entity_has_last(s, m, k);
        lemma_last_is_latest(s, m, last);
        assert(last_of_entity(s, last));
    } else {
        assert forall|i: int|
            0 <= i < s.len() && last_of_entity(s, i) implies #[trigger] s[i].entity != entity by {
            assert(m.contains_key(s[i].id));
        }
    }
}

proof fn lemma_fill_step<E, V>(
    s: Seq<ChainKey>,
    m: Map<u64, EntityVersion<E>>,
    n: int,
    value: spec_fn(u64) -> V,
    before: Map<u64, V>,
    now: Map<u64, V>,
    after: Map<u64, V>,
)
    requires
        lists_chains(s, m),
        0 <= n < s.len(),
        filled(s, n, value, before, now),
        after == (if last_of_entity(s, n) {
            now.insert(s[n].entity, value(s[n].id))
        } else {
            now
        }),
    ensures
        filled(s, n + 1, value, before, after),
{
    assert forall|i: int| 0 <= i < n + 1 && #[trigger] last_of_entity(s, i) implies entry_of(
        after,
        s[i].entity,
    ) == Some(value(s[i].id)) by {
        if i < n {
            lemma_one_last_per_entity(s, m, i, n);
        }
    }
    assert forall|entity: u64|
        (forall|i: int|
            0 <= i < n + 1 && last_of_entity(s, i) ==> #[trigger] s[i].entity
                != entity) implies #[trigger] entry_of(after, entity) == entry_of(
        before,
        entity,
    ) by {
        if last_of_entity(s, n) {
            assert(s[n].entity != entity);
        }
        assert forall|i: int| 0 <= i < n && last_of_entity(s, i) implies #[trigger] s[i].entity
            != entity by {}
        assert(entry_of(now, entity) == entry_of(before, entity));
    }
}

/// The walk back from the last version of every entity ends once missing links are filled.
pub open spec fn rebuild_ends<E>(m: Map<u64, EntityVersion<E>>) -> bool {
    forall|entity: u64| #[trigger]
        has_versions(m, entity) ==> walk_ends(relinked_all(m), latest(m, entity))
}

/// The link back from a version, where it leads to one in memory, leads to an earlier version of
/// the same entity.
pub open spec fn link_goes_back<E>(m: Map<u64, EntityVersion<E>>, id: u64) -> bool {
    match m[id].prev_version {
        Some(prev) => m.contains_key(prev) ==> precedes(m, prev, id),
        None => true,
    }
}

/// Every link back from a version in memory to another one in memory goes to an earlier version of
/// the same entity.
pub open spec fn links_go_back<E>(m: Map<u64, EntityVersion<E>>) -> bool {
    forall|id: u64| #[trigger]
        m.contains_key(id) ==> link_goes_back(m, id)
}

/// The place of a version on the time axis.
spec fn place<E>(m: Map<u64, EntityVersion<E>>, id: u64) -> int {
    (m[id].temporal.transaction_time.start.key() + 0x8000_0000_0000_0000 * 0x1_0000_0000)
        * 0x1_0000_0000_0000_0000 + id
}

proof fn lemma_places<E>(m: Map<u64, EntityVersion<E>>, a: u64, b: u64)
    ensures
        place(m, a) >= 0,
        precedes(m, a, b) ==> place(m, a) < place(m, b),
{
}

proof fn lemma_walk_back_ends<E>(m: Map<u64, EntityVersion<E>>, id: u64)
    requires
        links_go_back(m),
    ensures
        walk_ends(relinked_all(m), id),
    decreases
            if m.contains_key(id) {
                place(m, id) + 1
            } else {
                0
            },
{
    let all = relinked_all(m);
    lemma_places(m, id, id);
    if !m.contains_key(id) || all[id].anchored() || all[id].prev_version is None {
        assert(deltas_back(all, id, 0) is Some);
    } else {
        let prev = all[id].prev_version->0;
        if m[id].prev_version is None {
            assert(adjacent(m, prev, id));
        }
        lemma_places(m, prev, id);
        lemma_walk_back_ends(m, prev);
        let fuel = choose|fuel: nat| (#[trigger] deltas_back(all, prev, fuel)) is Some;
        assert(deltas_back(all, id, fuel + 1) is Some);
    }
}

/// Where every link back goes to an earlier version of the same entity, chains do not run in a
/// circle: they can be rebuilt.
pub proof fn law_links_back_end<E>(m: Map<u64, EntityVersion<E>>)
    requires
        links_go_back(m),
    ensures
        rebuild_ends(m),
{
    assert forall|entity: u64| #[trigger] has_versions(m, entity) implies walk_ends(
        relinked_all(m),
        latest(m, entity),
    ) by {
        lemma_walk_back_ends(m, latest(m, entity));
    }
}

/// The keys of all versions, in chain order.
fn chain_order<E>(versions: &HashMap<u64, EntityVersion<E>>) -> (s: Vec<ChainKey>)
    ensures
        lists_chains(s@, versions@),
{
    let ids: Vec<u64> = keys_of(versions);
    let mut keys: Vec<ChainKey> = Vec::new();
    let mut i: usize = 0;
    while i < ids.len()
        invariant
            i <= ids.len(),
            lists_keys(ids@, versions@),
            keys@.len() == i,
            forall|j: int| 0 <= j < i ==> #[trigger] keys@[j] == key_of(versions@, ids@[j]),
        decreases ids.len() - i,
    {
        assert(versions@.contains_key(ids@[i as int]));
        if let Some(v) = versions.get(&ids[i]) {
            keys.push(
                ChainKey {
                    entity: v.entity,
                    start: v.temporal.transaction_time.start,
                    id: ids[i],
                },
            );
        }
        i = i + 1;
    }
    let s = sorted(&keys);
    proof {
        let m = versions@;
        assert forall|a: int, b: int| 0 <= a < b < keys@.len() implies keys@[a] != keys@[b] by {
            assert(ids@[a] != ids@[b]);
        }
        lemma_same_values(s@, keys@);
        assert forall|a: int| 0 <= a < s@.len() implies m.contains_key((#[trigger] s@[a]).id)
            && s@[a] == key_of(m, s@[a].id) by {
            assert(s@.contains(s@[a]));
            assert(keys@.contains(s@[a]));
            let j = choose|j: int| 0 <= j < keys@.len() && keys@[j] == s@[a];
            assert(m.contains_key(ids@[j]));
        }
        assert forall|a: int, b: int| 0 <= a < b < s@.len() implies (#[trigger] s@[a]).id != (
        #[trigger] s@[b]).id by {
            assert(s@[a] != s@[b]);
        }
        assert forall|id: u64| #[trigger] m.contains_key(id) implies s@.contains(key_of(m, id)) by {
            assert(ids@.contains(id));
            let j = choose|j: int| 0 <= j < ids@.len() && ids@[j] == id;
            assert(keys@[j] == key_of(m, id));
            assert(keys@.contains(keys@[j]));
        }
    }
    s
}

impl<E> VersionTable<E> {
    /// Whether every link back from a version in memory to another one in memory goes to an earlier
    /// version of the same entity. Where it does, the chains can be rebuilt.
    pub fn has_links_back(&self) -> (r: bool)
        ensures
            r == links_go_back(self.versions@),
            r ==> rebuild_ends(self.versions@),
    {
        let ids: Vec<u64> = keys_of(&self.versions);
        let mut i: usize = 0;
        while i < ids.len()
            invariant
                i <= ids.len(),
                lists_keys(ids@, self.versions@),
                forall|j: int| 0 <= j < i ==> link_goes_back(self.versions@, #[trigger] ids@[j]),
            decreases ids.len() - i,
        {
            let id: u64 = ids[i];
            assert(self.versions@.contains_key(ids@[i as int]));
            if let Some(version) = self.versions.get(&id) {
                if let Some(prev) = version.prev_version {
                    if let Some(before) = self.versions.get(&prev) {
                        let (a, b) = (
                            before.temporal.transaction_time.start,
                            version.temporal.transaction_time.start,
                        );
                        proof {
                            crate::temporal::lemma_timestamp_order(a, b);
                        }
                        if before.entity != version.entity || !(a.is_before(&b) || (a == b && prev
                            < id)) {
                            assert(!link_goes_back(self.versions@, id));
                            return false;
                        }
                    }
                }
            }
            i = i + 1;
        }
        proof {
            assert forall|id: u64| #[trigger] self.versions@.contains_key(id) implies link_goes_back(
                self.versions@,
                id,
            ) by {
                assert(ids@.contains(id));
                let j = choose|j: int| 0 <= j < ids@.len() && ids@[j] == id;
                assert(link_goes_back(self.versions@, ids@[j]));
            }
            law_links_back_end(self.versions@);
        }
        true
    }
}

impl<E: Copy> VersionTable<E> {
    /// Rebuilds the chains of all entities: orders the versions of each by when they became
    /// known, fills missing links, closes open transaction times where the next version became
    /// known, and points each entity at its last version and at how far that is from an anchor.
    pub fn rebuild_chains(&mut self)
        requires
            rebuild_ends(old(self).versions@),
        ensures
            final(self).versions@ == relinked_all(old(self).versions@),
            forall|entity: u64|
                #[trigger] entry_of(final(self).heads@, entity) == if has_versions(
                    old(self).versions@,
                    entity,
                ) {
                    Some(latest(old(self).versions@, entity))
                } else {
                    entry_of(old(self).heads@, entity)
                },
            forall|entity: u64|
                #[trigger] entry_of(final(self).since_anchor@, entity) == if has_versions(
                    old(self).versions@,
                    entity,
                ) {
                    Some(
                        since_anchor_of(
                            final(self).versions@,
                            latest(old(self).versions@, entity),
                        ) as usize,
                    )
                } else {
                    entry_of(old(self).since_anchor@, entity)
                },
            final(self).kind == old(self).kind,
            final(self).counts == old(self).counts,
            final(self).anchor_count == old(self).anchor_count,
            final(self).delta_count == old(self).delta_count,
            final(self).property_cache == old(self).property_cache,
            final(self).anchor_cache == old(self).anchor_cache,
            final(self).index == old(self).index,
            final(self).cold == old(self).cold,
            final(self).policies == old(self).policies,
            final(self).hooks == old(self).hooks,
    {
        let keys = chain_order(&self.versions);
        let ghost m = self.versions@;
        let ghost itself = |id: u64| id;
        let mut i: usize = 0;
        while i < keys.len()
            invariant
                i <= keys.len(),
                m == old(self).versions@,
                lists_chains(keys@, m),
                self.versions@.dom() == m.dom(),
                forall|j: int|
                    0 <= j < i ==> self.versions@[#[trigger] keys@[j].id] == relinked(
                        m,
                        keys@[j].id,
                    ),
                forall|j: int|
                    i <= j < keys@.len() ==> self.versions@[#[trigger] keys@[j].id]
                        == m[keys@[j].id],
                itself == (|id: u64| id),
                filled(keys@, i as int, itself, old(self).heads@, self.heads@),
                self.since_anchor == old(self).since_anchor,
                self.kind == old(self).kind,
                self.counts == old(self).counts,
                self.anchor_count == old(self).anchor_count,
                self.delta_count == old(self).delta_count,
                self.property_cache == old(self).property_cache,
                self.anchor_cache == old(self).anchor_cache,
                self.index == old(self).index,
                self.cold == old(self).cold,
                self.policies == old(self).policies,
                self.hooks == old(self).hooks,
            decreases keys.len() - i,
        {
            let key = keys[i];
            proof {
                lemma_neighbours(keys@, m, i as int);
                assert(m.contains_key(keys@[i as int].id));
            }
            let prev: Option<u64> = if i > 0 && keys[i - 1].entity == key.entity {
                Some(keys[i - 1].id)
            } else {
                None
            };
            let next: Option<ChainKey> = if i + 1 < keys.len() && keys[i + 1].entity
                == key.entity {
                assert(keys@[i + 1] == key_of(m, keys@[i + 1].id));
                Some(keys[i + 1])
            } else {
                None
            };
            if let Some(mut version) = self.versions.remove(&key.id) {
                if version.prev_version.is_none() {
                    version.prev_version = prev;
                }
                if let Some(after) = next {
                    if version.next_version.is_none() {
                        version.next_version = Some(after.id);
                    }
                    let temporal = version.temporal;
                    if temporal.is_currently_recorded()
                        && temporal.transaction_time.start.is_before(&after.start) {
                        if let Ok(closed) = temporal.close_transaction_time(after.start) {
                            version.temporal = closed;
                        }
                    }
                }
                assert(version == relinked(m, key.id));
                self.versions.insert(key.id, version);
            }
            let ghost heads_before = self.heads@;
            if next.is_none() {
                self.heads.insert(key.entity, key.id);
            }
            proof {
                lemma_fill_step(
                    keys@,
                    m,
                    i as int,
                    itself,
                    old(self).heads@,
                    heads_before,
                    self.heads@,
                );
                assert(self.versions@.dom() =~= m.dom());
            }
            i = i + 1;
        }
        proof {
            assert forall|id: u64| #[trigger] m.contains_key(id) implies self.versions@[id]
                == relinked(m, id) by {
                let k = lemma_position(keys@, m, id);
                assert(self.versions@[keys@[k].id] == relinked(m, keys@[k].id));
            }
            assert(self.versions@ =~= relinked_all(m));
            assert forall|entity: u64| #[trigger]
                entry_of(self.heads@, entity) == if has_versions(m, entity) {
                    Some(latest(m, entity))
                } else {
                    entry_of(old(self).heads@, entity)
                } by {
                lemma_filled(keys@, m, itself, old(self).heads@, self.heads@, entity);
            }
        }
        let ghost heads_after = self.heads;
        let ghost versions_after = self.versions;
        let ghost distance = |id: u64| since_anchor_of(relinked_all(m), id) as usize;
        let mut k: usize = 0;
        while k < keys.len()
            invariant
                k <= keys.len(),
                m == old(self).versions@,
                rebuild_ends(m),
                lists_chains(keys@, m),
                self.versions@ == relinked_all(m),
                distance == (|id: u64| since_anchor_of(relinked_all(m), id) as usize),
                filled(keys@, k as int, distance, old(self).since_anchor@, self.since_anchor@),
                self.heads == heads_after,
                self.versions == versions_after,
                self.kind == old(self).kind,
                self.counts == old(self).counts,
                self.anchor_count == old(self).anchor_count,
                self.delta_count == old(self).delta_count,
                self.property_cache == old(self).property_cache,
                self.anchor_cache == old(self).anchor_cache,
                self.index == old(self).index,
                self.cold == old(self).cold,
                self.policies == old(self).policies,
                self.hooks == old(self).hooks,
            decreases keys.len() - k,
        {
            let key = keys[k];
            let ghost before = self.since_anchor@;
            if k + 1 == keys.len() || keys[k + 1].entity != key.entity {
                proof {
                    lemma_last_is_latest(keys@, m, k as int);
                    assert(has_versions(m, key.entity));
                }
                let count: usize = count_versions_since_anchor(&self.versions, key.id);
                self.since_anchor.insert(key.entity, count);
            }
            proof {
                lemma_fill_step(
                    keys@,
                    m,
                    k as int,
                    distance,
                    old(self).since_anchor@,
                    before,
                    self.since_anchor@,
                );
            }
            k = k + 1;
        }
        proof {
            assert forall|entity: u64| #[trigger]
                entry_of(self.since_anchor@, entity) == if has_versions(m, entity) {
                    Some(since_anchor_of(self.versions@, latest(m, entity)) as usize)
                } else {
                    entry_of(old(self).since_anchor@, entity)
                } by {
                lemma_filled(
                    keys@,
                    m,
                    distance,
                    old(self).since_anchor@,
                    self.since_anchor@,
                    entity,
                );
            }
        }
    }
}

} // verus!

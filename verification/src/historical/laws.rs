//! What holds of version histories across operations.

use super::cache::cached;
use super::chain::{chain_properties, chain_result, step, Tiers};
use super::lookup::{chain_ids, lemma_chain_step, lemma_links_fuel, links_back, links_end};
use super::migrate::{
    batch_of, cold_with, cursor_of, drawn_from, lemma_batch_is_complete, lemma_memory_after_migration,
    lemma_memory_shrinks, HotPart,
};
use super::rebuild::{adjacent, precedes, predecessor, relinked, relinked_all, successor};
use super::table::{entry_of, number_of, with_superseded, ChainLimits, NewVersion, VersionTable};
use super::walk::{deltas_back, lemma_since_anchor, since_anchor_of, walk_ends};
use crate::error::ErrorView;
use crate::property::{law_delta_round_trip, Properties};
use crate::temporal::{lemma_timestamp_order, Timestamp};
use crate::version::{EntityKind, EntityVersion, VersionData};
use vstd::prelude::*;

verus! {

/// The version can be found in memory or in the cold store.
pub open spec fn is_stored<E>(t: Tiers<E>, id: u64) -> bool {
    t.lookup(id) matches Ok(Some(_))
}

/// If `before` stores the version, `after` stores it with the same properties and the same
/// predecessor.
pub open spec fn keeps_version<E>(before: Tiers<E>, after: Tiers<E>, id: u64) -> bool {
    before.lookup(id) matches Ok(Some(v)) ==> (after.lookup(id) matches Ok(Some(w)) && w.data
        == v.data && w.prev_version == v.prev_version)
}

/// Every version that `before` stores, `after` stores with the same properties and the same
/// predecessor.
pub open spec fn keeps_chains<E>(before: Tiers<E>, after: Tiers<E>) -> bool {
    forall|id: u64| #[trigger] keeps_version(before, after, id)
}

proof fn lemma_chain_kept<E>(
    before: Tiers<E>,
    after: Tiers<E>,
    origin: u64,
    other_origin: u64,
    id: u64,
    depth: nat,
    other_depth: nat,
    limit: nat,
    other_limit: nat,
)
    requires
        keeps_chains(before, after),
        chain_result(before, origin, id, depth, limit) is Ok,
        limit - depth <= other_limit - other_depth,
    ensures
        chain_result(after, other_origin, id, other_depth, other_limit) == chain_result(
            before,
            origin,
            id,
            depth,
            limit,
        ),
    decreases limit + 1 - depth,
{
    let v = before.lookup(id)->Ok_0->Some_0;
    assert(keeps_version(before, after, id));
    match *v.data {
        VersionData::Anchor { .. } => {},
        VersionData::Delta { .. } => {
            lemma_chain_kept(
                before,
                after,
                origin,
                other_origin,
                v.prev_version->0,
                depth + 1,
                other_depth + 1,
                limit,
                other_limit,
            );
        },
    }
}

/// Properties that can be read stay readable, and stay the same, as long as no stored version is
/// lost or rewritten.
pub proof fn law_kept_chains_read_the_same<E>(
    before: Tiers<E>,
    after: Tiers<E>,
    id: u64,
    limit: nat,
    other_limit: nat,
)
    requires
        keeps_chains(before, after),
        limit <= other_limit,
        chain_properties(before, id, limit) is Ok,
    ensures
        chain_properties(after, id, other_limit) == chain_properties(before, id, limit),
{
    lemma_chain_kept(before, after, id, id, id, 0, 0, limit, other_limit);
}

/// The properties of a version do not depend on how deep a walk is allowed to go, as long as it
/// is deep enough.
pub proof fn law_chain_value_is_unique<E>(t: Tiers<E>, id: u64, a: nat, b: nat)
    requires
        chain_properties(t, id, a) is Ok,
        chain_properties(t, id, b) is Ok,
    ensures
        chain_properties(t, id, a) == chain_properties(t, id, b),
{
    if a <= b {
        law_kept_chains_read_the_same(t, t, id, a, b);
    } else {
        law_kept_chains_read_the_same(t, t, id, b, a);
    }
}

/// Storing a version loses none and rewrites none.
pub proof fn lemma_append_keeps_chains<E>(
    t: VersionTable<E>,
    new: NewVersion<E>,
    limits: ChainLimits,
    base: Option<Properties>,
    after: VersionTable<E>,
)
    requires
        t.append_verdict(new.entity, limits) == Ok::<Option<Properties>, ErrorView>(base),
        t.appended(new, base, after),
        !is_stored(t.tiers(), new.id),
    ensures
        keeps_chains(t.tiers(), after.tiers()),
{
    let prev = entry_of(t.heads@, new.entity);
    let start = new.temporal.transaction_time.start;
    let linked = with_superseded(t.versions@, prev, new.id, start);
    assert forall|id: u64| #[trigger] keeps_version(t.tiers(), after.tiers(), id) by {
        if is_stored(t.tiers(), id) {
            assert(id != new.id);
            assert(after.versions@.contains_key(id) == t.versions@.contains_key(id));
            if t.versions@.contains_key(id) {
                assert(after.versions@[id] == linked[id]);
            }
        }
    }
}

/// Storing a version changes the properties of no version that could be read before.
pub proof fn law_append_keeps_history<E>(
    t: VersionTable<E>,
    new: NewVersion<E>,
    limits: ChainLimits,
    base: Option<Properties>,
    after: VersionTable<E>,
    id: u64,
    limit: nat,
)
    requires
        t.append_verdict(new.entity, limits) == Ok::<Option<Properties>, ErrorView>(base),
        t.appended(new, base, after),
        !is_stored(t.tiers(), new.id),
        chain_properties(t.tiers(), id, limit) is Ok,
    ensures
        chain_properties(after.tiers(), id, limit) == chain_properties(t.tiers(), id, limit),
{
    lemma_append_keeps_chains(t, new, limits, base, after);
    law_kept_chains_read_the_same(t.tiers(), after.tiers(), id, limit, limit);
}

/// The chain of the version gives the properties, if the walk may go deep enough.
pub open spec fn chain_gives<E>(t: Tiers<E>, id: u64, properties: Properties) -> bool {
    exists|limit: nat| #[trigger]
        chain_properties(t, id, limit) == Ok::<Properties, ErrorView>(properties)
}

/// Whatever the caches hold for a version is what its chain gives.
pub open spec fn caches_sound<E>(t: VersionTable<E>) -> bool {
    &&& forall|id: u64| #[trigger]
        cached(t.property_cache).contains_key(id) ==> chain_gives(
            t.tiers(),
            id,
            cached(t.property_cache)[id],
        )
    &&& forall|id: u64| #[trigger]
        cached(t.anchor_cache).contains_key(id) ==> chain_gives(
            t.tiers(),
            id,
            cached(t.anchor_cache)[id],
        )
}

/// What a chain gives it still gives as long as no stored version is lost or rewritten.
pub proof fn lemma_chain_gives_kept<E>(before: Tiers<E>, after: Tiers<E>, id: u64, p: Properties)
    requires
        keeps_chains(before, after),
        chain_gives(before, id, p),
    ensures
        chain_gives(after, id, p),
{
    let limit = choose|limit: nat| #[trigger]
        chain_properties(before, id, limit) == Ok::<Properties, ErrorView>(p);
    law_kept_chains_read_the_same(before, after, id, limit, limit);
}

/// With sound caches, every read of a version's properties that succeeds gives what the chain of
/// the version gives.
pub proof fn law_reads_agree_with_chain<E>(
    t: VersionTable<E>,
    max_depth: usize,
    id: u64,
    properties: Properties,
    read: Properties,
)
    requires
        caches_sound(t),
        chain_gives(t.tiers(), id, properties),
        t.may_read(id, max_depth, Ok(read)),
    ensures
        read == properties,
{
    assert(chain_gives(t.tiers(), id, read)) by {
        if chain_properties(t.tiers(), id, max_depth as nat) == Ok::<Properties, ErrorView>(read) {
        }
    }
    let a = choose|limit: nat| #[trigger]
        chain_properties(t.tiers(), id, limit) == Ok::<Properties, ErrorView>(read);
    let b = choose|limit: nat| #[trigger]
        chain_properties(t.tiers(), id, limit) == Ok::<Properties, ErrorView>(properties);
    law_chain_value_is_unique(t.tiers(), id, a, b);
}

/// Reads keep the caches sound.
pub proof fn law_reads_keep_caches_sound<E>(
    t: VersionTable<E>,
    max_depth: usize,
    later: VersionTable<E>,
)
    requires
        caches_sound(t),
        t.after_reads(max_depth, later),
    ensures
        caches_sound(later),
{
    assert forall|id: u64| #[trigger]
        cached(later.property_cache).contains_key(id) implies chain_gives(
        later.tiers(),
        id,
        cached(later.property_cache)[id],
    ) by {
        let read = cached(later.property_cache)[id];
        assert(t.may_read(id, max_depth, Ok(read)));
        if chain_properties(t.tiers(), id, max_depth as nat) == Ok::<Properties, ErrorView>(read) {
            assert(chain_gives(t.tiers(), id, read));
        }
    }
}

/// The properties that a version was stored with are what its chain gives afterwards, and the
/// caches stay sound.
pub proof fn law_append_reads_back<E>(
    t: VersionTable<E>,
    new: NewVersion<E>,
    limits: ChainLimits,
    base: Option<Properties>,
    after: VersionTable<E>,
)
    requires
        caches_sound(t),
        t.append_verdict(new.entity, limits) == Ok::<Option<Properties>, ErrorView>(base),
        t.appended(new, base, after),
        !is_stored(t.tiers(), new.id),
    ensures
        chain_gives(after.tiers(), new.id, new.properties@),
        caches_sound(after),
{
    lemma_append_keeps_chains(t, new, limits, base, after);
    let version = after.versions@[new.id];
    assert(after.tiers().lookup(new.id) == Ok::<Option<EntityVersion<E>>, ErrorView>(Some(version)));
    match base {
        None => {
            assert(chain_properties(after.tiers(), new.id, 1) == Ok::<Properties, ErrorView>(
                new.properties@,
            ));
        },
        Some(from) => {
            let prev = t.heads@[new.entity];
            assert(chain_gives(t.tiers(), prev, from)) by {
                if chain_properties(t.tiers(), prev, limits.max_depth as nat) == Ok::<
                    Properties,
                    ErrorView,
                >(from) {
                }
            }
            lemma_chain_gives_kept(t.tiers(), after.tiers(), prev, from);
            let limit = choose|limit: nat| #[trigger]
                chain_properties(after.tiers(), prev, limit) == Ok::<Properties, ErrorView>(from);
            lemma_chain_kept(
                after.tiers(),
                after.tiers(),
                prev,
                new.id,
                prev,
                0,
                1,
                limit,
                limit + 1,
            );
            law_delta_round_trip(from, new.properties@);
            assert(chain_properties(after.tiers(), new.id, limit + 1) == step(
                version,
                chain_result(after.tiers(), new.id, prev, 1, limit + 1),
            ));
        },
    }
    assert forall|id: u64| #[trigger]
        cached(after.property_cache).contains_key(id) implies chain_gives(
        after.tiers(),
        id,
        cached(after.property_cache)[id],
    ) by {
        let p = cached(after.property_cache)[id];
        let known = match (base, entry_of(t.heads@, new.entity)) {
            (Some(from), Some(prev)) => cached(t.property_cache).insert(prev, from),
            _ => cached(t.property_cache),
        };
        assert(cached(after.property_cache).submap_of(known.insert(new.id, new.properties@)));
        assert(known.insert(new.id, new.properties@).contains_key(id));
        if id == new.id {
            assert(p == new.properties@);
        } else {
            assert(known.contains_key(id));
            assert(chain_gives(t.tiers(), id, p));
            lemma_chain_gives_kept(t.tiers(), after.tiers(), id, p);
        }
    }
    assert forall|id: u64| #[trigger] cached(after.anchor_cache).contains_key(id) implies chain_gives(
        after.tiers(),
        id,
        cached(after.anchor_cache)[id],
    ) by {
        let p = cached(after.anchor_cache)[id];
        let known = if base is None {
            cached(t.anchor_cache).insert(new.id, new.properties@)
        } else {
            cached(t.anchor_cache)
        };
        assert(cached(after.anchor_cache).submap_of(known));
        assert(known.contains_key(id));
        if id == new.id && base is None {
            assert(p == new.properties@);
        } else {
            assert(cached(t.anchor_cache).contains_key(id));
            lemma_chain_gives_kept(t.tiers(), after.tiers(), id, p);
        }
    }
}

/// Every entity's latest version is in memory, and the counter of the entity says how far that
/// version is from an anchor.
pub open spec fn counters_exact<E>(t: VersionTable<E>) -> bool {
    forall|entity: u64| #[trigger]
        t.heads@.contains_key(entity) ==> {
            let head = t.heads@[entity];
            &&& t.versions@.contains_key(head)
            &&& walk_ends(t.versions@, head)
            &&& since_anchor_of(t.versions@, head) == number_of(t.since_anchor@, entity)
        }
}

/// No version in memory follows on the given one.
pub open spec fn unreferenced<E>(m: Map<u64, EntityVersion<E>>, id: u64) -> bool {
    forall|other: u64| #[trigger] m.contains_key(other) ==> m[other].prev_version != Some(id)
}

proof fn lemma_walk_kept<E>(
    before: Map<u64, EntityVersion<E>>,
    after: Map<u64, EntityVersion<E>>,
    new_id: u64,
    id: u64,
    fuel: nat,
)
    requires
        unreferenced(before, new_id),
        id != new_id,
        forall|k: u64|
            k != new_id ==> #[trigger] before.contains_key(k) == after.contains_key(k),
        forall|k: u64|
            k != new_id && #[trigger] before.contains_key(k) ==> after[k].data == before[k].data
                && after[k].prev_version == before[k].prev_version,
    ensures
        deltas_back(after, id, fuel) == deltas_back(before, id, fuel),
    decreases fuel,
{
    assert(before.contains_key(id) == after.contains_key(id));
    if before.contains_key(id) && before[id].prev_version is Some && fuel > 0 {
        lemma_walk_kept(
            before,
            after,
            new_id,
            before[id].prev_version->0,
            (fuel - 1) as nat,
        );
    }
}

/// The counters stay exact when a version is stored, and no latest version is further from an
/// anchor than the interval between anchors allows.
pub proof fn law_append_keeps_counters<E>(
    t: VersionTable<E>,
    new: NewVersion<E>,
    limits: ChainLimits,
    base: Option<Properties>,
    after: VersionTable<E>,
)
    requires
        counters_exact(t),
        t.append_verdict(new.entity, limits) == Ok::<Option<Properties>, ErrorView>(base),
        t.appended(new, base, after),
        t.has_room(new.entity),
        !t.versions@.contains_key(new.id),
        unreferenced(t.versions@, new.id),
    ensures
        counters_exact(after),
        since_anchor_of(after.versions@, new.id) == 0 || since_anchor_of(after.versions@, new.id)
            < limits.anchor_interval,
{
    let before = t.versions@;
    let m = after.versions@;
    let prev = entry_of(t.heads@, new.entity);
    let linked = with_superseded(before, prev, new.id, new.temporal.transaction_time.start);
    assert forall|k: u64| k != new.id implies #[trigger] before.contains_key(k) == m.contains_key(
        k,
    ) by {
        assert(linked.contains_key(k) == m.contains_key(k));
    }
    assert forall|k: u64| k != new.id && #[trigger] before.contains_key(k) implies m[k].data
        == before[k].data && m[k].prev_version == before[k].prev_version by {
        assert(m[k] == linked[k]);
    }
    assert forall|entity: u64| #[trigger] after.heads@.contains_key(entity) implies {
        let head = after.heads@[entity];
        &&& m.contains_key(head)
        &&& walk_ends(m, head)
        &&& since_anchor_of(m, head) == number_of(after.since_anchor@, entity)
    } by {
        if entity != new.entity {
            let head = t.heads@[entity];
            assert(t.heads@.contains_key(entity));
            let fuel = choose|f: nat| (#[trigger] deltas_back(before, head, f)) is Some;
            lemma_walk_kept(before, m, new.id, head, fuel);
            lemma_since_anchor(before, head, fuel);
            lemma_since_anchor(m, head, fuel);
        } else {
            match base {
                None => {
                    assert(m[new.id].anchored());
                    lemma_since_anchor(m, new.id, 0);
                },
                Some(_) => {
                    let head = t.heads@[new.entity];
                    assert(t.heads@.contains_key(new.entity));
                    let fuel = choose|f: nat| (#[trigger] deltas_back(before, head, f)) is Some;
                    lemma_walk_kept(before, m, new.id, head, fuel);
                    lemma_since_anchor(before, head, fuel);
                    assert(!m[new.id].anchored());
                    assert(deltas_back(m, new.id, fuel + 1) == Some(
                        (since_anchor_of(before, head) + 1) as nat,
                    ));
                    lemma_since_anchor(m, new.id, fuel + 1);
                },
            }
        }
    }
    assert(after.heads@.contains_key(new.entity));
}

proof fn lemma_links_kept<E>(
    before: Map<u64, EntityVersion<E>>,
    after: Map<u64, EntityVersion<E>>,
    new_id: u64,
    id: u64,
    fuel: nat,
)
    requires
        unreferenced(before, new_id),
        id != new_id,
        forall|k: u64|
            k != new_id ==> #[trigger] before.contains_key(k) == after.contains_key(k),
        forall|k: u64|
            k != new_id && #[trigger] before.contains_key(k) ==> after[k].prev_version
                == before[k].prev_version,
    ensures
        links_back(after, id, fuel) == links_back(before, id, fuel),
    decreases fuel,
{
    assert(before.contains_key(id) == after.contains_key(id));
    if before.contains_key(id) && before[id].prev_version is Some && fuel > 0 {
        lemma_links_kept(
            before,
            after,
            new_id,
            before[id].prev_version->0,
            (fuel - 1) as nat,
        );
    }
}

/// The history of every entity can be followed back to its beginning.
pub open spec fn histories_end<E>(t: VersionTable<E>) -> bool {
    forall|entity: u64| #[trigger]
        t.heads@.contains_key(entity) ==> t.versions@.contains_key(t.heads@[entity]) && links_end(
            t.versions@,
            t.heads@[entity],
        )
}

/// A version that is stored becomes the latest of its entity's history, in front of what the
/// history was; the histories of other entities stay as they are.
pub proof fn law_append_grows_history<E>(
    t: VersionTable<E>,
    new: NewVersion<E>,
    base: Option<Properties>,
    after: VersionTable<E>,
)
    requires
        histories_end(t),
        t.appended(new, base, after),
        !t.versions@.contains_key(new.id),
        unreferenced(t.versions@, new.id),
    ensures
        histories_end(after),
        chain_ids(after.versions@, new.id) == (match entry_of(t.heads@, new.entity) {
            Some(prev) => seq![new.id] + chain_ids(t.versions@, prev),
            None => seq![new.id],
        }),
        forall|entity: u64|
            entity != new.entity && #[trigger] t.heads@.contains_key(entity) ==> chain_ids(
                after.versions@,
                t.heads@[entity],
            ) == chain_ids(t.versions@, t.heads@[entity]),
{
    let before = t.versions@;
    let m = after.versions@;
    let prev = entry_of(t.heads@, new.entity);
    let linked = with_superseded(before, prev, new.id, new.temporal.transaction_time.start);
    if prev is Some {
        assert(t.heads@.contains_key(new.entity));
    }
    assert forall|k: u64| k != new.id implies #[trigger] before.contains_key(k) == m.contains_key(
        k,
    ) by {
        assert(linked.contains_key(k) == m.contains_key(k));
    }
    assert forall|k: u64| k != new.id && #[trigger] before.contains_key(k) implies m[k].prev_version
        == before[k].prev_version by {
        assert(m[k] == linked[k]);
    }
    assert forall|entity: u64| #[trigger] t.heads@.contains_key(entity) implies links_end(
        m,
        t.heads@[entity],
    ) && chain_ids(m, t.heads@[entity]) == chain_ids(before, t.heads@[entity]) by {
        let head = t.heads@[entity];
        let fuel = choose|f: nat| (#[trigger] links_back(before, head, f)) is Some;
        lemma_links_kept(before, m, new.id, head, fuel);
        let other = choose|f: nat| (#[trigger] links_back(m, head, f)) is Some;
        lemma_links_fuel(m, head, fuel, other);
    }
    match prev {
        Some(p) => {
            assert(links_end(m, p));
            let fuel = choose|f: nat| (#[trigger] links_back(m, p, f)) is Some;
            assert(links_back(m, new.id, fuel + 1) is Some);
            assert(links_end(m, new.id));
            lemma_chain_step(m, new.id);
        },
        None => {
            assert(links_back(m, new.id, 0) is Some);
            assert(links_end(m, new.id));
            lemma_chain_step(m, new.id);
        },
    }
    assert forall|entity: u64| #[trigger] after.heads@.contains_key(entity) implies m.contains_key(
        after.heads@[entity],
    ) && links_end(m, after.heads@[entity]) by {
        if entity != new.entity {
            assert(t.heads@.contains_key(entity));
        }
    }
}

/// The anchors in memory.
pub open spec fn anchors_in<E>(m: Map<u64, EntityVersion<E>>) -> Set<u64> {
    m.dom().filter(|id: u64| m[id].anchored())
}

/// The deltas in memory.
pub open spec fn deltas_in<E>(m: Map<u64, EntityVersion<E>>) -> Set<u64> {
    m.dom().filter(|id: u64| !m[id].anchored())
}

/// The versions of an entity in memory.
pub open spec fn versions_in<E>(m: Map<u64, EntityVersion<E>>, entity: u64) -> Set<u64> {
    m.dom().filter(|id: u64| m[id].entity == entity)
}

/// The totals and the count of every entity are what memory holds.
pub open spec fn totals_exact<E>(h: HotPart<E>) -> bool {
    &&& h.versions.dom().finite()
    &&& h.anchor_count == anchors_in(h.versions).len()
    &&& h.delta_count == deltas_in(h.versions).len()
    &&& forall|entity: u64| #[trigger]
        number_of(h.counts, entity) == versions_in(h.versions, entity).len()
}

/// With exact totals, anchors and deltas together are all versions in memory.
pub proof fn law_totals_add_up<E>(h: HotPart<E>)
    requires
        totals_exact(h),
    ensures
        h.anchor_count + h.delta_count == h.versions.len(),
{
    let m = h.versions;
    assert(anchors_in(m).disjoint(deltas_in(m)));
    vstd::set_lib::lemma_set_disjoint_lens(anchors_in(m), deltas_in(m));
    assert(anchors_in(m) + deltas_in(m) =~= m.dom());
}

/// The totals stay exact when a version is stored, and no entity gets more versions than the
/// limit.
pub proof fn law_append_keeps_totals<E>(
    t: VersionTable<E>,
    new: NewVersion<E>,
    limits: ChainLimits,
    base: Option<Properties>,
    after: VersionTable<E>,
)
    requires
        totals_exact(t.hot_part()),
        t.append_verdict(new.entity, limits) == Ok::<Option<Properties>, ErrorView>(base),
        t.appended(new, base, after),
        !t.versions@.contains_key(new.id),
    ensures
        totals_exact(after.hot_part()),
        versions_in(after.versions@, new.entity).len() <= limits.max_versions,
{
    let m = t.versions@;
    let n = after.versions@;
    let prev = entry_of(t.heads@, new.entity);
    let linked = with_superseded(m, prev, new.id, new.temporal.transaction_time.start);
    assert forall|k: u64| k != new.id implies n.contains_key(k) == m.contains_key(k) && (
    m.contains_key(k) ==> #[trigger] n[k].data == m[k].data && n[k].entity == m[k].entity) by {
        if m.contains_key(k) {
            assert(n[k] == linked[k]);
        }
    }
    assert(n.dom() =~= m.dom().insert(new.id));
    if base is None {
        assert(anchors_in(n) =~= anchors_in(m).insert(new.id));
        assert(deltas_in(n) =~= deltas_in(m));
    } else {
        assert(anchors_in(n) =~= anchors_in(m));
        assert(deltas_in(n) =~= deltas_in(m).insert(new.id));
    }
    let counts = t.hot_part().counts;
    assert(number_of(counts, new.entity) == versions_in(m, new.entity).len());
    assert forall|entity: u64| #[trigger] number_of(after.counts@, entity) == versions_in(
        n,
        entity,
    ).len() by {
        assert(number_of(counts, entity) == versions_in(m, entity).len());
        if entity == new.entity {
            assert(versions_in(n, entity) =~= versions_in(m, entity).insert(new.id));
        } else {
            assert(versions_in(n, entity) =~= versions_in(m, entity));
        }
    }
    assert(number_of(after.counts@, new.entity) == versions_in(n, new.entity).len());
}

proof fn lemma_without_keeps_totals<E>(h: HotPart<E>, kind: EntityKind, id: u64)
    requires
        totals_exact(h),
    ensures
        totals_exact(h.without(kind, id)),
{
    if h.versions.contains_key(id) {
        let m = h.versions;
        let v = m[id];
        let n = m.remove(id);
        let after = h.without(kind, id);
        assert(number_of(h.counts, v.entity) == versions_in(m, v.entity).len());
        assert(versions_in(m, v.entity).contains(id));
        assert(versions_in(m, v.entity).len() > 0) by {
            if versions_in(m, v.entity).len() == 0 {
                assert(versions_in(m, v.entity) =~= Set::empty());
            }
        }
        assert(h.counts.contains_key(v.entity));
        if v.anchored() {
            assert(anchors_in(m).contains(id));
            assert(anchors_in(n) =~= anchors_in(m).remove(id));
            assert(deltas_in(n) =~= deltas_in(m));
        } else {
            assert(deltas_in(m).contains(id));
            assert(anchors_in(n) =~= anchors_in(m));
            assert(deltas_in(n) =~= deltas_in(m).remove(id));
        }
        assert forall|entity: u64| #[trigger] number_of(after.counts, entity) == versions_in(
            n,
            entity,
        ).len() by {
            assert(number_of(h.counts, entity) == versions_in(m, entity).len());
            if entity == v.entity {
                assert(versions_in(n, entity) =~= versions_in(m, entity).remove(id));
            } else {
                assert(versions_in(n, entity) =~= versions_in(m, entity));
            }
        }
    }
}

/// The totals stay exact when versions are moved out of memory.
pub proof fn law_migration_keeps_totals<E>(h: HotPart<E>, kind: EntityKind, ids: Seq<u64>)
    requires
        totals_exact(h),
    ensures
        totals_exact(h.without_all(kind, ids)),
    decreases ids.len(),
{
    if ids.len() > 0 {
        law_migration_keeps_totals(h, kind, ids.drop_last());
        lemma_without_keeps_totals(h.without_all(kind, ids.drop_last()), kind, ids.last());
    }
}

proof fn lemma_cold_with<E>(
    cold: Map<u64, EntityVersion<E>>,
    batch: Seq<EntityVersion<E>>,
    id: u64,
)
    ensures
        (forall|i: int| 0 <= i < batch.len() ==> (#[trigger] batch[i]).id != id) ==> (
        cold_with(cold, batch).contains_key(id) == cold.contains_key(id) && cold_with(
            cold,
            batch,
        )[id] == cold[id]),
        forall|i: int|
            #![trigger batch[i]]
            0 <= i < batch.len() && batch[i].id == id && (forall|j: int|
                i < j < batch.len() ==> (#[trigger] batch[j]).id != id) ==> cold_with(
                cold,
                batch,
            ).contains_key(id) && cold_with(cold, batch)[id] == batch[i],
    decreases batch.len(),
{
    if batch.len() > 0 {
        let rest = batch.drop_last();
        lemma_cold_with(cold, rest, id);
        assert forall|i: int|
            #![trigger batch[i]]
            0 <= i < batch.len() && batch[i].id == id && (forall|j: int|
                i < j < batch.len() ==> (#[trigger] batch[j]).id != id) implies cold_with(
            cold,
            batch,
        ).contains_key(id) && cold_with(cold, batch)[id] == batch[i] by {
            if i < rest.len() {
                assert(batch[batch.len() - 1].id != id);
                assert(rest[i].id == id);
                assert forall|j: int| i < j < rest.len() implies (#[trigger] rest[j]).id != id by {
                    assert(batch[j].id != id);
                }
            }
        }
        if forall|i: int| 0 <= i < batch.len() ==> (#[trigger] batch[i]).id != id {
            assert(batch[batch.len() - 1].id != id);
            assert forall|i: int| 0 <= i < rest.len() implies (#[trigger] rest[i]).id != id by {
                assert(batch[i].id != id);
            }
        }
    }
}

/// Moving versions to the cold tier loses none and rewrites none, so every read that succeeded
/// before gives the same afterwards. The versions in memory are kept under their own identifiers,
/// and those to move are readable in the cold store.
pub proof fn law_migration_keeps_chains<E>(
    t: VersionTable<E>,
    candidates: Seq<u64>,
    n: int,
    after: VersionTable<E>,
)
    requires
        0 <= n <= candidates.len(),
        t.migrated(candidates, n, after),
        t.cold is Some,
        drawn_from(candidates, t.versions@),
        forall|i: int|
            0 <= i < n ==> t.versions@[#[trigger] candidates[i]].id == candidates[i]
                && !t.cold->0.faults@.contains_key(candidates[i]),
    ensures
        keeps_chains(t.tiers(), after.tiers()),
{
    let m = t.versions@;
    lemma_batch_is_complete(m, candidates);
    let moved = candidates.take(n);
    let batch = batch_of(m, candidates).take(n);
    lemma_memory_after_migration(t.hot_part(), t.kind, moved);
    assert(after.versions@ == after.hot_part().versions);
    assert forall|id: u64| #[trigger] keeps_version(t.tiers(), after.tiers(), id) by {
        lemma_cold_with(t.cold->0.versions@, batch, id);
        if moved.contains(id) {
            let i = choose|i: int| 0 <= i < moved.len() && moved[i] == id;
            assert(candidates[i] == id);
            assert(batch[i] == m[candidates[i]]);
            assert forall|j: int| i < j < batch.len() implies (#[trigger] batch[j]).id != id by {
                assert(batch[j] == m[candidates[j]]);
                assert(candidates[j] != candidates[i]);
            }
            assert(moved.to_set().contains(id));
        } else {
            assert forall|i: int| 0 <= i < batch.len() implies (#[trigger] batch[i]).id != id by {
                assert(batch[i] == m[candidates[i]]);
                assert(moved[i] == candidates[i]);
                assert(moved.contains(moved[i]));
            }
            assert(!moved.to_set().contains(id));
        }
    }
}

/// Moving `n` versions to the cold tier takes exactly those out of memory: the number of versions
/// in memory falls by `n`, each moved version is in the cold tier and has its position in the feed
/// of changes recorded, the latest version of every entity stays what it was, and the totals still
/// add up.
pub proof fn law_migration_is_exact<E>(
    t: VersionTable<E>,
    candidates: Seq<u64>,
    n: int,
    after: VersionTable<E>,
)
    requires
        0 <= n <= candidates.len(),
        t.migrated(candidates, n, after),
        t.cold is Some,
        drawn_from(candidates, t.versions@),
        totals_exact(t.hot_part()),
        forall|i: int|
            0 <= i < n ==> t.versions@[#[trigger] candidates[i]].id == candidates[i],
    ensures
        after.versions@.len() == t.versions@.len() - n,
        after.heads == t.heads,
        totals_exact(after.hot_part()),
        after.anchor_count + after.delta_count == after.versions@.len(),
        forall|i: int|
            0 <= i < n ==> {
                let id = #[trigger] candidates[i];
                let v = t.versions@[id];
                &&& !after.versions@.contains_key(id)
                &&& after.cold->0.versions@.contains_key(id)
                &&& after.cold->0.versions@[id] == v
                &&& after.cold->0.cursors@[t.cold->0.cursors@.len() + i] == cursor_of(t.kind, v)
            },
        after.cold->0.cursors@.len() == t.cold->0.cursors@.len() + n,
{
    let m = t.versions@;
    lemma_batch_is_complete(m, candidates);
    let moved = candidates.take(n);
    let batch = batch_of(m, candidates).take(n);
    assert(drawn_from(moved, m)) by {
        assert forall|i: int| 0 <= i < moved.len() implies m.contains_key(#[trigger] moved[i]) by {
            assert(moved[i] == candidates[i]);
        }
    }
    lemma_memory_shrinks(t.hot_part(), t.kind, moved);
    lemma_memory_after_migration(t.hot_part(), t.kind, moved);
    law_migration_keeps_totals(t.hot_part(), t.kind, moved);
    assert(after.versions@ == after.hot_part().versions);
    law_totals_add_up(after.hot_part());
    assert forall|i: int| 0 <= i < n implies {
        let id = #[trigger] candidates[i];
        let v = m[id];
        &&& !after.versions@.contains_key(id)
        &&& after.cold->0.versions@.contains_key(id)
        &&& after.cold->0.versions@[id] == v
        &&& after.cold->0.cursors@[t.cold->0.cursors@.len() + i] == cursor_of(t.kind, v)
    } by {
        let id = candidates[i];
        assert(moved[i] == id);
        assert(moved.to_set().contains(id));
        assert(batch[i] == m[candidates[i]]);
        lemma_cold_with(t.cold->0.versions@, batch, id);
        assert forall|j: int| i < j < batch.len() implies (#[trigger] batch[j]).id != id by {
            assert(batch[j] == m[candidates[j]]);
            assert(candidates[j] != candidates[i]);
        }
    }
}

/// The recorded times of the versions of an entity do not overlap, and no other version of it is
/// known beyond the start of its latest one.
pub open spec fn timeline<E>(m: Map<u64, EntityVersion<E>>, entity: u64, head: u64) -> bool {
    &&& m.contains_key(head)
    &&& m[head].entity == entity
    &&& forall|a: u64|
        #[trigger] m.contains_key(a) && m[a].entity == entity && a != head
            ==> m[a].temporal.transaction_time.end.key()
            <= m[head].temporal.transaction_time.start.key()
    &&& forall|a: u64, b: u64|
        #[trigger] m.contains_key(a) && #[trigger] m.contains_key(b) && m[a].entity == entity
            && m[b].entity == entity && a != b ==> m[a].temporal.transaction_time.end.key()
            <= m[b].temporal.transaction_time.start.key()
            || m[b].temporal.transaction_time.end.key()
            <= m[a].temporal.transaction_time.start.key()
}

/// At any transaction time at most one version of an entity is visible.
pub proof fn law_one_version_visible<E>(
    m: Map<u64, EntityVersion<E>>,
    entity: u64,
    head: u64,
    a: u64,
    b: u64,
    valid_a: Timestamp,
    valid_b: Timestamp,
    transaction_time: Timestamp,
)
    requires
        timeline(m, entity, head),
        m.contains_key(a) && m[a].entity == entity && m[a].temporal.visible(
            valid_a,
            transaction_time,
        ),
        m.contains_key(b) && m[b].entity == entity && m[b].temporal.visible(
            valid_b,
            transaction_time,
        ),
    ensures
        a == b,
{
}

/// A version that became known after the latest one extends the timeline: the latest is closed
/// where the new one starts, and no valid time changes.
pub proof fn law_append_extends_timeline<E>(
    t: VersionTable<E>,
    new: NewVersion<E>,
    limits: ChainLimits,
    base: Option<Properties>,
    after: VersionTable<E>,
)
    requires
        t.heads@.contains_key(new.entity),
        timeline(t.versions@, new.entity, t.heads@[new.entity]),
        t.append_verdict(new.entity, limits) == Ok::<Option<Properties>, ErrorView>(base),
        t.appended(new, base, after),
        !t.versions@.contains_key(new.id),
        ({
            let recorded = t.versions@[t.heads@[new.entity]].temporal.transaction_time;
            let start = new.temporal.transaction_time.start;
            &&& recorded.start.key() < start.key()
            &&& recorded.open_ended() || recorded.end.key() <= start.key()
        }),
    ensures
        timeline(after.versions@, new.entity, new.id),
        forall|id: u64| #[trigger]
            t.versions@.contains_key(id) ==> after.versions@[id].temporal.valid_time
                == t.versions@[id].temporal.valid_time,
        forall|id: u64| #[trigger]
            t.versions@.contains_key(id) && id != t.heads@[new.entity] ==> after.versions@[id]
                == t.versions@[id],
{
    let m = t.versions@;
    let n = after.versions@;
    let head = t.heads@[new.entity];
    let start = new.temporal.transaction_time.start;
    let linked = with_superseded(m, Some(head), new.id, start);
    lemma_timestamp_order(start, start);
    assert forall|id: u64| #[trigger] m.contains_key(id) implies n[id] == linked[id]
        && n.contains_key(id) by {}
    assert forall|a: u64| #[trigger] n.contains_key(a) && a != new.id implies m.contains_key(a) by {
        assert(linked.contains_key(a));
    }
    assert(n[head] == linked[head]);
    assert(n[head].temporal.transaction_time.end.key() <= start.key());
    assert forall|a: u64|
        #[trigger] n.contains_key(a) && n[a].entity == new.entity && a != new.id implies n[a].temporal.transaction_time.end.key()
        <= start.key() by {
        assert(m.contains_key(a));
        if a != head {
            assert(n[a] == m[a]);
        }
    }
    assert forall|a: u64, b: u64|
        #[trigger] n.contains_key(a) && #[trigger] n.contains_key(b) && n[a].entity == new.entity
            && n[b].entity == new.entity && a
            != b implies n[a].temporal.transaction_time.end.key()
        <= n[b].temporal.transaction_time.start.key() || n[b].temporal.transaction_time.end.key()
        <= n[a].temporal.transaction_time.start.key() by {
        if a != new.id && b != new.id {
            assert(m.contains_key(a) && m.contains_key(b));
            if a == head {
                assert(n[b] == m[b]);
            } else if b == head {
                assert(n[a] == m[a]);
            } else {
                assert(n[a] == m[a] && n[b] == m[b]);
            }
        }
    }
}

proof fn lemma_adjacent_unique<E>(m: Map<u64, EntityVersion<E>>, a: u64, b: u64, c: u64)
    ensures
        adjacent(m, a, c) && adjacent(m, b, c) ==> a == b,
        adjacent(m, c, a) && adjacent(m, c, b) ==> a == b,
{
    if adjacent(m, a, c) && adjacent(m, b, c) && a != b {
        assert(precedes(m, a, b) || precedes(m, b, a));
    }
    if adjacent(m, c, a) && adjacent(m, c, b) && a != b {
        assert(precedes(m, a, b) || precedes(m, b, a));
        assert(precedes(m, c, a) && precedes(m, c, b));
    }
}

proof fn lemma_order_kept<E>(m: Map<u64, EntityVersion<E>>, id: u64)
    ensures
        predecessor(relinked_all(m), id) == predecessor(m, id),
        successor(relinked_all(m), id) == successor(m, id),
{
    let n = relinked_all(m);
    assert forall|a: u64, b: u64| #[trigger] precedes(n, a, b) == precedes(m, a, b) by {
        if m.contains_key(a) && m.contains_key(b) {
            assert(n[a] == relinked(m, a));
            assert(n[b] == relinked(m, b));
        }
    }
    assert forall|a: u64, b: u64| #[trigger] adjacent(n, a, b) == adjacent(m, a, b) by {
        if adjacent(m, a, b) {
            assert forall|c: u64| !(#[trigger] precedes(n, a, c) && precedes(n, c, b)) by {
                assert(!(precedes(m, a, c) && precedes(m, c, b)));
            }
        }
        if adjacent(n, a, b) {
            assert(precedes(n, a, b));
            assert forall|c: u64| !(#[trigger] precedes(m, a, c) && precedes(m, c, b)) by {
                assert(precedes(n, a, c) == precedes(m, a, c));
                assert(precedes(n, c, b) == precedes(m, c, b));
                assert(!(precedes(n, a, c) && precedes(n, c, b)));
            }
        }
    }
    if exists|p: u64| adjacent(m, p, id) {
        let p = choose|p: u64| adjacent(m, p, id);
        assert(adjacent(n, p, id));
        let q = choose|q: u64| adjacent(n, q, id);
        lemma_adjacent_unique(n, p, q, id);
    } else {
        assert forall|p: u64| !adjacent(n, p, id) by {}
    }
    if exists|p: u64| adjacent(m, id, p) {
        let p = choose|p: u64| adjacent(m, id, p);
        assert(adjacent(n, id, p));
        let q = choose|q: u64| adjacent(n, id, q);
        lemma_adjacent_unique(n, p, q, id);
    } else {
        assert forall|p: u64| !adjacent(n, id, p) by {}
    }
}

/// Rebuilding the chains a second time changes nothing.
pub proof fn law_rebuild_is_idempotent<E>(m: Map<u64, EntityVersion<E>>)
    ensures
        relinked_all(relinked_all(m)) == relinked_all(m),
{
    let n = relinked_all(m);
    assert forall|id: u64| #[trigger] n.contains_key(id) implies relinked(n, id) == n[id] by {
        lemma_order_kept(m, id);
        assert(n[id] == relinked(m, id));
        if let Some(next) = successor(m, id) {
            assert(adjacent(m, id, next));
            assert(precedes(m, id, next));
            assert(n[next] == relinked(m, next));
        }
    }
    assert(relinked_all(n) =~= n);
}

/// Rebuilding the chains overwrites nothing that was restored: links that are there stay, times
/// that are closed stay, and everything else about a version stays.
pub proof fn law_rebuild_respects_restored<E>(m: Map<u64, EntityVersion<E>>, id: u64)
    requires
        m.contains_key(id),
    ensures
        relinked_all(m).contains_key(id),
        ({
            let v = m[id];
            let w = relinked_all(m)[id];
            &&& v.prev_version is Some ==> w.prev_version == v.prev_version
            &&& v.next_version is Some ==> w.next_version == v.next_version
            &&& !v.temporal.transaction_time.open_ended() ==> w.temporal == v.temporal
            &&& w.temporal.valid_time == v.temporal.valid_time
            &&& w.temporal.transaction_time.start == v.temporal.transaction_time.start
            &&& w.id == v.id && w.entity == v.entity && w.label == v.label && w.ends == v.ends
            &&& w.data == v.data && w.provenance == v.provenance
        }),
{
}

} // verus!

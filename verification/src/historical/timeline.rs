//! What a history shows at each point in time, before and after it changes.

use super::adjacency_index::{
    edges_at, law_closing_ends_open_records, law_edge_listed_iff_recorded, records_closed,
    AdjacencyRecord,
};
use super::hooks::{all_replied, counted_all, winning_snapshot, AnchorContext, HookReply};
use super::interval_index::law_closed_version_is_hidden;
use super::laws::unreferenced;
use super::lookup::{
    leads_back, lemma_as_many_as_versions, lemma_scan_along, lemma_scan_nothing, scan_back,
};
use super::metrics::Meters;
use super::policy::{AnchorConfig, RetentionPolicy, SnapshotPolicy};
use super::rebuild::{adjacent, precedes, predecessor, relinked, relinked_all, successor};
use super::storage::{adjacency_after, version_interval, HistoricalStorage};
use super::table::{
    closed_end, entry_of, snapshot_of, superseded, with_superseded, ChainLimits, NewVersion,
    VersionTable,
};
use crate::error::{Error, ErrorView};
use crate::ids::{EdgeId, NodeId, VersionId};
use crate::property::Properties;
use crate::temporal::{lemma_timestamp_order, HybridTimestamp, Timestamp};
use crate::version::{EdgeEnds, EntityVersion, VersionData};
use std::time::Duration;
use vstd::prelude::*;

verus! {

proof fn lemma_scan_kept<E>(
    m: Map<u64, EntityVersion<E>>,
    n: Map<u64, EntityVersion<E>>,
    fresh: u64,
    id: u64,
    valid_time: Timestamp,
    transaction_time: Timestamp,
    fuel: nat,
)
    requires
        id != fresh,
        unreferenced(m, fresh),
        forall|k: u64| k != fresh ==> #[trigger] n.contains_key(k) == m.contains_key(k),
        forall|k: u64| k != fresh && #[trigger] m.contains_key(k) ==> n[k].prev_version
            == m[k].prev_version && n[k].temporal.visible(valid_time, transaction_time)
            == m[k].temporal.visible(valid_time, transaction_time),
    ensures
        scan_back(n, id, valid_time, transaction_time, fuel) == scan_back(
            m,
            id,
            valid_time,
            transaction_time,
            fuel,
        ),
    decreases fuel,
{
    assert(n.contains_key(id) == m.contains_key(id));
    if m.contains_key(id) && fuel > 0 {
        if let Some(prev) = m[id].prev_version {
            lemma_scan_kept(
                m,
                n,
                fresh,
                prev,
                valid_time,
                transaction_time,
                (fuel - 1) as nat,
            );
        }
    }
}

proof fn lemma_scan_hidden<E>(
    n: Map<u64, EntityVersion<E>>,
    entity: u64,
    fresh: u64,
    id: u64,
    valid_time: Timestamp,
    transaction_time: Timestamp,
    fuel: nat,
)
    requires
        n.contains_key(id) ==> id != fresh && n[id].entity == entity,
        forall|k: u64|
            #[trigger] n.contains_key(k) && k != fresh && n[k].entity == entity
                ==> !n[k].temporal.visible(valid_time, transaction_time) && (
            n[k].prev_version matches Some(p) ==> p != fresh && (n.contains_key(p) ==> n[p].entity
                == entity)),
    ensures
        scan_back(n, id, valid_time, transaction_time, fuel) is None,
    decreases fuel,
{
    if n.contains_key(id) && fuel > 0 {
        if let Some(prev) = n[id].prev_version {
            lemma_scan_hidden(
                n,
                entity,
                fresh,
                prev,
                valid_time,
                transaction_time,
                (fuel - 1) as nat,
            );
        }
    }
}

/// Storing a version changes nothing of what was known before it: at every transaction time before
/// that of the new version, the same version of its entity is found as before.
pub proof fn law_the_past_stays<E>(
    t: VersionTable<E>,
    new: NewVersion<E>,
    base: Option<Properties>,
    after: VersionTable<E>,
    valid_time: Timestamp,
    transaction_time: Timestamp,
)
    requires
        t.index is None,
        t.versions@.dom().finite(),
        t.appended(new, base, after),
        t.heads@.contains_key(new.entity) ==> t.versions@.contains_key(t.heads@[new.entity]),
        !t.versions@.contains_key(new.id),
        unreferenced(t.versions@, new.id),
        transaction_time.key() < new.temporal.transaction_time.start.key(),
    ensures
        after.version_at(new.entity, valid_time, transaction_time) == t.version_at(
            new.entity,
            valid_time,
            transaction_time,
        ),
{
    let m = t.versions@;
    let n = after.versions@;
    let prev = entry_of(t.heads@, new.entity);
    let start = new.temporal.transaction_time.start;
    let linked = with_superseded(m, prev, new.id, start);
    lemma_timestamp_order(start, HybridTimestamp::spec_max());
    assert forall|k: u64| k != new.id implies #[trigger] n.contains_key(k) == m.contains_key(k) by {
        assert(linked.contains_key(k) == m.contains_key(k));
    }
    assert forall|k: u64| k != new.id && #[trigger] m.contains_key(k) implies n[k].prev_version
        == m[k].prev_version && n[k].temporal.visible(valid_time, transaction_time)
        == m[k].temporal.visible(valid_time, transaction_time) by {
        assert(n[k] == linked[k]);
    }
    assert(n.len() == m.len() + 1) by {
        assert(n.dom() =~= m.dom().insert(new.id));
    }
    if t.heads@.contains_key(new.entity) {
        lemma_scan_kept(
            m,
            n,
            new.id,
            t.heads@[new.entity],
            valid_time,
            transaction_time,
            m.len() + 1,
        );
    }
}

/// Storing a version changes nothing of what is found of another entity, at any point.
pub proof fn law_other_entities_stay<E>(
    t: VersionTable<E>,
    new: NewVersion<E>,
    base: Option<Properties>,
    after: VersionTable<E>,
    entity: u64,
    ids: Seq<u64>,
    valid_time: Timestamp,
    transaction_time: Timestamp,
)
    requires
        t.index is None,
        t.versions@.dom().finite(),
        t.appended(new, base, after),
        !t.versions@.contains_key(new.id),
        entity != new.entity,
        t.heads@.contains_key(entity) ==> {
            &&& leads_back(t.versions@, t.heads@[entity], ids)
            &&& !t.versions@.contains_key(ids.last()) || t.versions@[ids.last()].prev_version
                is None
            &&& forall|i: int|
                0 <= i < ids.len() ==> #[trigger] ids[i] != new.id && (t.heads@.contains_key(
                    new.entity,
                ) ==> ids[i] != t.heads@[new.entity])
        },
    ensures
        after.version_at(entity, valid_time, transaction_time) == t.version_at(
            entity,
            valid_time,
            transaction_time,
        ),
{
    let m = t.versions@;
    let n = after.versions@;
    let prev = entry_of(t.heads@, new.entity);
    let linked = with_superseded(m, prev, new.id, new.temporal.transaction_time.start);
    if t.heads@.contains_key(entity) {
        assert forall|i: int| 0 <= i < ids.len() implies n.contains_key(#[trigger] ids[i])
            == m.contains_key(ids[i]) && (m.contains_key(ids[i]) ==> n[ids[i]] == m[ids[i]]) by {
            assert(linked.contains_key(ids[i]) == m.contains_key(ids[i]));
        }
        assert(leads_back(n, t.heads@[entity], ids));
        assert(ids.last() == ids[ids.len() - 1]);
        let found = |i: int|
            m.contains_key(ids[i]) && m[ids[i]].temporal.visible(valid_time, transaction_time);
        let at = first_that(found, 0, ids.len() as int);
        lemma_first_that(found, 0, ids.len() as int);
        assert forall|j: int| 0 <= j < at implies m.contains_key(#[trigger] ids[j]) ==> !m[
            ids[j]
        ].temporal.visible(valid_time, transaction_time) by {
            assert(!found(j));
        }
        if at < ids.len() {
            lemma_as_many_as_versions(m, ids, at);
            lemma_scan_along(m, ids, 0, valid_time, transaction_time, m.len() + 1, at);
            lemma_as_many_as_versions(n, ids, at);
            lemma_scan_along(n, ids, 0, valid_time, transaction_time, n.len() + 1, at);
        } else {
            lemma_scan_nothing(m, ids, 0, valid_time, transaction_time, m.len() + 1);
            lemma_scan_nothing(n, ids, 0, valid_time, transaction_time, n.len() + 1);
        }
    }
}

/// The first place of a run that a test holds of; its end where there is none.
spec fn first_that(test: spec_fn(int) -> bool, from: int, end: int) -> int
    decreases end - from,
{
    if from >= end || test(from) {
        from
    } else {
        first_that(test, from + 1, end)
    }
}

proof fn lemma_first_that(test: spec_fn(int) -> bool, from: int, end: int)
    requires
        from <= end,
    ensures
        from <= first_that(test, from, end) <= end,
        first_that(test, from, end) < end ==> test(first_that(test, from, end)),
        forall|i: int| from <= i < first_that(test, from, end) ==> !#[trigger] test(i),
    decreases end - from,
{
    if from < end && !test(from) {
        lemma_first_that(test, from + 1, end);
    }
}

/// From its transaction time on, a version that was stored is what is found of its entity where it
/// holds; where it does not hold, nothing of its entity is found any more. This goes for an entity
/// whose other versions were all closed by then, or were open and became known earlier.
pub proof fn law_the_present_is_the_latest<E>(
    t: VersionTable<E>,
    new: NewVersion<E>,
    base: Option<Properties>,
    after: VersionTable<E>,
    valid_time: Timestamp,
    transaction_time: Timestamp,
)
    requires
        t.index is None,
        t.appended(new, base, after),
        !t.versions@.contains_key(new.id),
        unreferenced(t.versions@, new.id),
        new.temporal.transaction_time.start.key() <= transaction_time.key(),
        transaction_time.key() < new.temporal.transaction_time.end.key(),
    ensures
        new.temporal.valid_time.start.key() <= valid_time.key() && valid_time.key()
            < new.temporal.valid_time.end.key() ==> after.version_at(
            new.entity,
            valid_time,
            transaction_time,
        ) == Some(new.id),
        ({
            let m = t.versions@;
            let start = new.temporal.transaction_time.start;
            &&& !(new.temporal.valid_time.start.key() <= valid_time.key() && valid_time.key()
                < new.temporal.valid_time.end.key())
            &&& t.heads@.contains_key(new.entity) ==> {
                let head = t.heads@[new.entity];
                &&& m.contains_key(head)
                &&& m[head].entity == new.entity
                &&& m[head].temporal.transaction_time.end.key() <= start.key() || (
                m[head].temporal.transaction_time.end == HybridTimestamp::spec_max()
                    && m[head].temporal.transaction_time.start.key() < start.key())
                &&& forall|k: u64|
                    #[trigger] m.contains_key(k) && m[k].entity == new.entity ==> {
                        &&& k != head ==> m[k].temporal.transaction_time.end.key() <= start.key()
                        &&& m[k].prev_version matches Some(p) ==> (m.contains_key(p) ==> m[p].entity
                            == new.entity)
                    }
            }
        }) ==> after.version_at(new.entity, valid_time, transaction_time) is None,
{
    let m = t.versions@;
    let n = after.versions@;
    let prev = entry_of(t.heads@, new.entity);
    let start = new.temporal.transaction_time.start;
    let linked = with_superseded(m, prev, new.id, start);
    if !(new.temporal.valid_time.start.key() <= valid_time.key() && valid_time.key()
        < new.temporal.valid_time.end.key()) && t.heads@.contains_key(new.entity) {
        let head = t.heads@[new.entity];
        if m.contains_key(head) && m[head].entity == new.entity && (
        m[head].temporal.transaction_time.end.key() <= start.key() || (
        m[head].temporal.transaction_time.end == HybridTimestamp::spec_max()
            && m[head].temporal.transaction_time.start.key() < start.key())) && (forall|k: u64|
            #[trigger] m.contains_key(k) && m[k].entity == new.entity ==> {
                &&& k != head ==> m[k].temporal.transaction_time.end.key() <= start.key()
                &&& m[k].prev_version matches Some(p) ==> (m.contains_key(p) ==> m[p].entity
                    == new.entity)
            }) {
            assert forall|k: u64|
                #[trigger] n.contains_key(k) && k != new.id && n[k].entity == new.entity implies
                !n[k].temporal.visible(valid_time, transaction_time) && (
            n[k].prev_version matches Some(p) ==> p != new.id && (n.contains_key(p) ==> n[p].entity
                == new.entity)) by {
                assert(linked.contains_key(k));
                assert(m.contains_key(k));
                assert(n[k] == linked[k]);
                if let Some(p) = n[k].prev_version {
                    assert(m[k].prev_version == Some(p));
                    assert(p != new.id);
                    if n.contains_key(p) {
                        assert(linked.contains_key(p) && m.contains_key(p));
                        assert(n[p] == linked[p]);
                    }
                }
            }
            assert(n.contains_key(head) && n[head] == linked[head]);
            lemma_scan_hidden(
                n,
                new.entity,
                new.id,
                head,
                valid_time,
                transaction_time,
                n.len(),
            );
        }
    }
}

/// A version that is superseded is known until the one after it became known, and no longer, if it
/// was open and became known earlier; otherwise nothing of when it is known changes. It holds in
/// the same valid time, and links to the one after it.
pub proof fn law_superseding_ends_what_is_known<E>(
    version: EntityVersion<E>,
    next: u64,
    start: Timestamp,
    valid_time: Timestamp,
    transaction_time: Timestamp,
)
    ensures
        ({
            let recorded = version.temporal.transaction_time;
            let after = superseded(version, next, start);
            let ends = recorded.end == HybridTimestamp::spec_max() && recorded.start.key()
                < start.key();
            &&& after.next_version == Some(next)
            &&& after.prev_version == version.prev_version
            &&& after.temporal.visible(valid_time, transaction_time) <==> version.temporal.visible(
                valid_time,
                transaction_time,
            ) && (ends ==> transaction_time.key() < start.key())
        }),
{
    lemma_timestamp_order(start, HybridTimestamp::spec_max());
    lemma_timestamp_order(version.temporal.transaction_time.end, HybridTimestamp::spec_max());
}

/// What is stored as it is holds from its start on; what is stored as a deletion holds at no
/// moment, so it is found at no point.
pub proof fn law_deletion_is_never_visible(
    valid_from: Timestamp,
    tx_time: Timestamp,
    valid_time: Timestamp,
    transaction_time: Timestamp,
)
    ensures
        !version_interval(valid_from, tx_time, true).visible(valid_time, transaction_time),
        version_interval(valid_from, tx_time, true).transaction_time == version_interval(
            valid_from,
            tx_time,
            false,
        ).transaction_time,
        version_interval(valid_from, tx_time, false).visible(valid_time, transaction_time)
            <==> valid_from.key() <= valid_time.key() && tx_time.key() <= transaction_time.key()
            && valid_time != HybridTimestamp::spec_max() && transaction_time
            != HybridTimestamp::spec_max(),
{
    lemma_timestamp_order(valid_time, HybridTimestamp::spec_max());
    lemma_timestamp_order(transaction_time, HybridTimestamp::spec_max());
}

/// An entity takes new versions as long as it has fewer than are allowed, and is refused with both
/// numbers once it has as many. The first version of an entity is always stored whole.
pub proof fn law_full_entity_is_refused<E>(t: VersionTable<E>, entity: u64, limits: ChainLimits)
    ensures
        ({
            let count: usize = if t.counts@.contains_key(entity) {
                t.counts@[entity]
            } else {
                0
            };
            let verdict = t.append_verdict(entity, limits);
            &&& count >= limits.max_versions <==> (verdict matches Err(
                ErrorView::CapacityExceeded { current, limit, .. },
            ) && current == count && limit == limits.max_versions && count >= limits.max_versions)
            &&& count < limits.max_versions && !t.heads@.contains_key(entity) ==> verdict == Ok::<
                Option<Properties>,
                ErrorView,
            >(None)
        }),
{
}

/// Rebuilt links go to the neighbours in time: of two versions of one entity, with none of it
/// between them by when they became known and, at one moment, by number, the earlier is linked to
/// from the later and the later from the earlier, where they had no such link. The earlier is
/// closed where the later became known if it was open and became known before it.
pub proof fn law_rebuilt_links_join_neighbours<E>(m: Map<u64, EntityVersion<E>>, a: u64, b: u64)
    requires
        m.contains_key(a),
        m.contains_key(b),
        m[a].entity == m[b].entity,
        ({
            let start = |id: u64| m[id].temporal.transaction_time.start.key();
            &&& start(a) < start(b) || (start(a) == start(b) && a < b)
            &&& forall|c: u64| #[trigger]
                m.contains_key(c) && m[c].entity == m[a].entity && c != a && c != b ==> (start(c)
                    < start(a) || (start(c) == start(a) && c < a)) || (start(b) < start(c) || (
                start(b) == start(c) && b < c))
        }),
    ensures
        m[b].prev_version is None ==> relinked_all(m)[b].prev_version == Some(a),
        m[a].next_version is None ==> relinked_all(m)[a].next_version == Some(b),
        ({
            let recorded = m[a].temporal.transaction_time;
            let start = m[b].temporal.transaction_time.start;
            relinked_all(m)[a].temporal.transaction_time.end == (if recorded.end
                == HybridTimestamp::spec_max() && recorded.start.key() < start.key() {
                start
            } else {
                recorded.end
            })
        }),
{
    let start = |id: u64| m[id].temporal.transaction_time.start.key();
    assert(adjacent(m, a, b)) by {
        assert forall|c: u64| !(#[trigger] precedes(m, a, c) && precedes(m, c, b)) by {
            if m.contains_key(c) && m[c].entity == m[a].entity && c != a && c != b {
                assert(start(c) == m[c].temporal.transaction_time.start.key());
            }
        }
    }
    let p = choose|p: u64| adjacent(m, p, b);
    assert(adjacent(m, p, b));
    assert(p == a) by {
        if p != a {
            assert(precedes(m, p, a) || precedes(m, a, p));
        }
    }
    let q = choose|q: u64| adjacent(m, a, q);
    assert(adjacent(m, a, q));
    assert(q == b) by {
        if q != b {
            assert(precedes(m, q, b) || precedes(m, b, q));
            assert(precedes(m, a, b) && precedes(m, a, q));
        }
    }
    assert(predecessor(m, b) == Some(a));
    assert(successor(m, a) == Some(b));
    assert(relinked_all(m)[a] == relinked(m, a));
    assert(relinked_all(m)[b] == relinked(m, b));
}

/// The first version of an entity is linked to none before it, and the last to none after it,
/// unless a link was there; the last stays open if it was.
pub proof fn law_rebuilt_ends_have_no_neighbour<E>(m: Map<u64, EntityVersion<E>>, id: u64)
    requires
        m.contains_key(id),
    ensures
        ({
            let start = |k: u64| m[k].temporal.transaction_time.start.key();
            &&& (forall|c: u64| #[trigger]
                m.contains_key(c) && m[c].entity == m[id].entity && c != id ==> start(id) < start(
                    c,
                ) || (start(id) == start(c) && id < c)) ==> relinked_all(m)[id].prev_version
                == m[id].prev_version
            &&& (forall|c: u64| #[trigger]
                m.contains_key(c) && m[c].entity == m[id].entity && c != id ==> start(c) < start(
                    id,
                ) || (start(c) == start(id) && c < id)) ==> relinked_all(m)[id].next_version
                == m[id].next_version && relinked_all(m)[id].temporal == m[id].temporal
        }),
{
    let start = |k: u64| m[k].temporal.transaction_time.start.key();
    assert(relinked_all(m)[id] == relinked(m, id));
    if forall|c: u64| #[trigger]
        m.contains_key(c) && m[c].entity == m[id].entity && c != id ==> start(id) < start(c) || (
        start(id) == start(c) && id < c) {
        assert forall|p: u64| !adjacent(m, p, id) by {
            if m.contains_key(p) && m[p].entity == m[id].entity && p != id {
                assert(start(p) == m[p].temporal.transaction_time.start.key());
            }
        }
    }
    if forall|c: u64| #[trigger]
        m.contains_key(c) && m[c].entity == m[id].entity && c != id ==> start(c) < start(id) || (
        start(c) == start(id) && c < id) {
        assert forall|p: u64| !adjacent(m, id, p) by {
            if m.contains_key(p) && m[p].entity == m[id].entity && p != id {
                assert(start(p) == m[p].temporal.transaction_time.start.key());
            }
        }
    }
}

/// Where storing a version of an edge closes the version before it, it changes nothing of what was
/// listed before its transaction time. From then on the edge is listed where the new version holds,
/// and, once it is deleted, nowhere.
pub proof fn law_stored_edge_is_listed(
    before: Seq<AdjacencyRecord>,
    new: NewVersion<EdgeEnds>,
    is_tombstone: bool,
    node: NodeId,
    outgoing: bool,
    valid_time: Timestamp,
    transaction_time: Timestamp,
    edge: EdgeId,
)
    requires
        new.temporal.transaction_time.start != HybridTimestamp::spec_max(),
    ensures
        ({
            let start = new.temporal.transaction_time.start;
            let after = adjacency_after(before, Some(start), new, is_tombstone);
            let here = if outgoing {
                new.ends.source
            } else {
                new.ends.target
            };
            let listed = edges_at(after, node, outgoing, valid_time, transaction_time).contains(edge);
            &&& transaction_time.key() < start.key() ==> (listed <==> edges_at(
                before,
                node,
                outgoing,
                valid_time,
                transaction_time,
            ).contains(edge))
            &&& edge.0 == new.entity && node == here && start.key() <= transaction_time.key() && (
            forall|i: int| 0 <= i < before.len() && (#[trigger] before[i]).edge == edge
                ==> before[i].ends == new.ends && (before[i].interval.transaction_time.end
                == HybridTimestamp::spec_max() || before[i].interval.transaction_time.end.key()
                <= start.key())) ==> (listed <==> !is_tombstone
                && new.temporal.valid_time.start.key() <= valid_time.key() && valid_time.key()
                < new.temporal.valid_time.end.key() && transaction_time.key()
                < new.temporal.transaction_time.end.key())
        }),
{
    let start = new.temporal.transaction_time.start;
    let closed = records_closed(before, EdgeId(new.entity), new.ends, start);
    let after = adjacency_after(before, Some(start), new, is_tombstone);
    law_edge_listed_iff_recorded(
        before,
        node,
        outgoing,
        valid_time,
        transaction_time,
        edge,
    );
    law_edge_listed_iff_recorded(
        after,
        node,
        outgoing,
        valid_time,
        transaction_time,
        edge,
    );
    assert forall|i: int| 0 <= i < before.len() implies after[i] == #[trigger] closed[i] by {}
    assert forall|i: int| 0 <= i < before.len() implies {
        let was = #[trigger] before[i];
        let now = after[i];
        &&& now.edge == was.edge && now.ends == was.ends
        &&& now.interval.valid_time == was.interval.valid_time
        &&& (now.interval.transaction_time.start.key() <= transaction_time.key()
            && transaction_time.key() < now.interval.transaction_time.end.key()) == (
        was.interval.transaction_time.start.key() <= transaction_time.key()
            && transaction_time.key() < was.interval.transaction_time.end.key() && (was.edge
            == EdgeId(new.entity) && was.ends == new.ends && was.interval.transaction_time.end
            == HybridTimestamp::spec_max() ==> transaction_time.key() < start.key()))
    } by {
        law_closing_ends_open_records(
            before,
            EdgeId(new.entity),
            new.ends,
            start,
            i,
            transaction_time,
        );
        assert(after[i] == closed[i]);
    }
    if !is_tombstone {
        assert(after[before.len() as int].edge == EdgeId(new.entity));
    }
}

/// The version before is closed where the new one became known exactly if there is one, it is open,
/// it became known earlier, and the new one does not become known at the end of time.
pub proof fn law_when_the_version_before_is_closed<E>(
    m: Map<u64, EntityVersion<E>>,
    p: u64,
    start: Timestamp,
)
    ensures
        closed_end(m, None, start) is None,
        closed_end(m, Some(p), start) == (if m[p].temporal.transaction_time.end
            == HybridTimestamp::spec_max() && m[p].temporal.transaction_time.start.key() < start.key()
            && start != HybridTimestamp::spec_max() {
            Some(start)
        } else {
            None
        }),
{
    lemma_timestamp_order(start, HybridTimestamp::spec_max());
}

/// Storing a version of an edge keeps the adjacency index in step: for an edge whose latest version
/// is open and became known earlier, and whose records have its ends and are open or closed by
/// then, the index lists the edge from then on exactly where the new version holds, and nowhere
/// once it is deleted. What it listed of earlier transaction times it lists still.
pub proof fn law_adjacency_follows_the_edges(
    s: HistoricalStorage,
    new: NewVersion<EdgeEnds>,
    is_tombstone: bool,
    after: HistoricalStorage,
    node: NodeId,
    outgoing: bool,
    valid_time: Timestamp,
    transaction_time: Timestamp,
    edge: EdgeId,
)
    requires
        s.edge_stored(new, is_tombstone, Ok(()), after),
        s.adjacency is Some,
        after.adjacency is Some,
        s.edges.heads@.contains_key(new.entity),
        ({
            let head = s.edges.versions@[s.edges.heads@[new.entity]].temporal.transaction_time;
            let start = new.temporal.transaction_time.start;
            &&& head.end == HybridTimestamp::spec_max()
            &&& head.start.key() < start.key()
            &&& start != HybridTimestamp::spec_max()
        }),
    ensures
        ({
            let start = new.temporal.transaction_time.start;
            let before = s.adjacency->0.records@;
            let here = if outgoing {
                new.ends.source
            } else {
                new.ends.target
            };
            let listed = edges_at(
                after.adjacency->0.records@,
                node,
                outgoing,
                valid_time,
                transaction_time,
            ).contains(edge);
            &&& transaction_time.key() < start.key() ==> (listed <==> edges_at(
                before,
                node,
                outgoing,
                valid_time,
                transaction_time,
            ).contains(edge))
            &&& edge.0 == new.entity && node == here && start.key() <= transaction_time.key() && (
            forall|i: int| 0 <= i < before.len() && (#[trigger] before[i]).edge == edge
                ==> before[i].ends == new.ends && (before[i].interval.transaction_time.end
                == HybridTimestamp::spec_max() || before[i].interval.transaction_time.end.key()
                <= start.key())) ==> (listed <==> !is_tombstone
                && new.temporal.valid_time.start.key() <= valid_time.key() && valid_time.key()
                < new.temporal.valid_time.end.key() && transaction_time.key()
                < new.temporal.transaction_time.end.key())
        }),
{
    let head = s.edges.heads@[new.entity];
    law_when_the_version_before_is_closed(
        s.edges.versions@,
        head,
        new.temporal.transaction_time.start,
    );
    law_stored_edge_is_listed(
        s.adjacency->0.records@,
        new,
        is_tombstone,
        node,
        outgoing,
        valid_time,
        transaction_time,
        edge,
    );
}

/// Storing a version keeps the index of intervals in step: where the latest version of the entity
/// is closed by it, the index no longer shows that version from then on, and shows it as before
/// until then. It shows every other version as it did.
pub proof fn law_index_follows_the_versions<E>(
    t: VersionTable<E>,
    new: NewVersion<E>,
    base: Option<Properties>,
    after: VersionTable<E>,
    i: int,
    valid_time: Timestamp,
    transaction_time: Timestamp,
)
    requires
        t.appended(new, base, after),
        t.index is Some,
        after.index is Some,
        t.index->0@.contains_key(new.entity),
        0 <= i < t.index->0@[new.entity].len(),
        t.heads@.contains_key(new.entity),
    ensures
        ({
            let head = t.heads@[new.entity];
            let recorded = t.versions@[head].temporal.transaction_time;
            let start = new.temporal.transaction_time.start;
            let was = t.index->0@[new.entity][i];
            let now = after.index->0@[new.entity][i];
            let closes = recorded.end == HybridTimestamp::spec_max() && recorded.start.key()
                < start.key() && start != HybridTimestamp::spec_max() && was.version == head;
            &&& now.version == was.version
            &&& !closes ==> now == was
            &&& closes && start.key() <= transaction_time.key() ==> !now.interval.visible(
                valid_time,
                transaction_time,
            )
            &&& closes && transaction_time.key() < start.key() && start.key()
                <= was.interval.transaction_time.end.key() ==> (now.interval.visible(
                valid_time,
                transaction_time,
            ) <==> was.interval.visible(valid_time, transaction_time))
        }),
{
    let head = t.heads@[new.entity];
    let start = new.temporal.transaction_time.start;
    law_when_the_version_before_is_closed(t.versions@, head, start);
    law_closed_version_is_hidden(
        t.index->0@,
        new.entity,
        head,
        start,
        new.entity,
        i,
        valid_time,
        transaction_time,
    );
}

/// A new history holds nothing and has counted nothing; its limits are those that it was given.
pub proof fn law_new_history_is_empty(
    s: HistoricalStorage,
    config: AnchorConfig,
    retention_policy: RetentionPolicy,
    cache_size: usize,
    entity: u64,
    valid_time: Timestamp,
    transaction_time: Timestamp,
)
    requires
        s.is_new(config, retention_policy, cache_size),
    ensures
        s.nodes.version_at(entity, valid_time, transaction_time) is None,
        s.edges.version_at(entity, valid_time, transaction_time) is None,
        s.nodes.versions@.is_empty() && s.edges.versions@.is_empty(),
        s.nodes.anchor_count == 0 && s.nodes.delta_count == 0,
        s.edges.anchor_count == 0 && s.edges.delta_count == 0,
        s.meters.cache.primary_cache_hits == 0 && s.meters.cache.anchor_cache_hits == 0
            && s.meters.cache.full_reconstructions == 0,
        s.meters.hooks.invocations == 0 && s.meters.hooks.successes == 0 && s.meters.hooks.failures == 0,
        s.spec_limits().anchor_interval == config.anchor_interval,
        s.spec_limits().max_versions == retention_policy.max_versions_per_entity,
        s.nodes.policies.policy_of(entity) == SnapshotPolicy::Snapshot,
        s.observers@.len() == 0 && s.adjacency is None,
{
}

/// A version that was stored bears what it was given: its number, entity, times, label, ends and
/// author. It links back to what was the latest version of its entity, is the latest itself, and
/// nothing follows it. It counts one more for its entity.
pub proof fn law_stored_version_bears_what_it_was_given<E>(
    t: VersionTable<E>,
    new: NewVersion<E>,
    base: Option<Properties>,
    after: VersionTable<E>,
    entity: u64,
)
    requires
        t.appended(new, base, after),
        t.counts@.contains_key(new.entity) ==> t.counts@[new.entity] < usize::MAX,
    ensures
        ({
            let v = after.versions@[new.id];
            &&& after.versions@.contains_key(new.id)
            &&& v.id == new.id && v.entity == new.entity && v.temporal == new.temporal
            &&& v.label == new.label && v.ends == new.ends && v.provenance == new.provenance
            &&& v.next_version is None
            &&& v.prev_version == (if t.heads@.contains_key(new.entity) {
                Some(t.heads@[new.entity])
            } else {
                None
            })
            &&& after.heads@.contains_key(new.entity) && after.heads@[new.entity] == new.id
            &&& after.counts@[new.entity] == (if t.counts@.contains_key(new.entity) {
                t.counts@[new.entity] + 1
            } else {
                1
            })
            &&& *v.data is Anchor <==> after.anchor_count == t.anchor_count + 1
            &&& *v.data is Delta <==> after.delta_count == t.delta_count + 1
            &&& entity != new.entity ==> after.heads@.contains_key(entity) == t.heads@.contains_key(entity)
                && (t.heads@.contains_key(entity) ==> after.heads@[entity] == t.heads@[entity])
                && after.counts@.contains_key(entity) == t.counts@.contains_key(entity) && (
            t.counts@.contains_key(entity) ==> after.counts@[entity] == t.counts@[entity])
        }),
{
    assert(t.stored_as(new, base, after.versions@[new.id]));
}

/// Storing a version reads the properties of the latest one exactly if it becomes a delta on it,
/// and counts that read; an anchor is stored without a read. Where the entity takes snapshots, an
/// anchor bears the one that the last hook that took one gave. For a delta no hook is called.
pub proof fn law_storing_reads_only_for_a_delta<E>(
    t: VersionTable<E>,
    new: NewVersion<E>,
    limits: ChainLimits,
    timeout: Option<Duration>,
    base: Option<Properties>,
    before: Meters,
    meters: Meters,
    after: VersionTable<E>,
)
    requires
        t.append_verdict(new.entity, limits) == Ok::<Option<Properties>, ErrorView>(base),
        t.appended(new, base, after),
        t.append_metered(
            new,
            limits,
            timeout,
            before,
            meters,
            after.versions@[new.id],
            after.hooks,
        ),
    ensures
        ({
            let v = after.versions@[new.id];
            &&& *v.data is Anchor ==> meters.cache == before.cache
            &&& *v.data is Delta ==> t.heads@.contains_key(new.entity) && meters.cache == t.read_counted(
                t.heads@[new.entity],
                before.cache,
            )
            &&& (*v.data matches VersionData::Anchor { vector_snapshot_id, .. } && t.policies.policy_of(
                new.entity,
            ) == SnapshotPolicy::Snapshot) ==> exists|replies: Seq<HookReply>|
                replies.len() == t.hooks@.len() && (*v.data)->vector_snapshot_id
                    == #[trigger] winning_snapshot(replies)
            &&& *v.data is Delta ==> meters.hooks == before.hooks && after.hooks == t.hooks
        }),
{
    assert(t.stored_as(new, base, after.versions@[new.id]));
    let v = after.versions@[new.id];
    if base is None && t.policies.policy_of(new.entity) == SnapshotPolicy::Snapshot {
        let replies = choose|replies: Seq<HookReply>|
            all_replied(
                t.hooks@,
                AnchorContext {
                    entity_type: t.kind.spec_word(),
                    entity_id: new.entity,
                    timestamp: new.temporal.transaction_time.start,
                    properties: new.properties@,
                    timeout,
                },
                replies,
                after.hooks@,
            ) && meters.hooks == #[trigger] counted_all(before.hooks, replies)
                && snapshot_of(v) == winning_snapshot(replies);
        assert((*v.data)->vector_snapshot_id == winning_snapshot(replies));
    }
}

/// An entity whose latest version is not in memory takes no new version, and the error names that
/// version. Where the latest version is in memory, and fewer versions follow its anchor than the
/// interval allows, the new one becomes a delta on what a read of the latest gives, and is refused
/// as that read is; once enough follow, it is stored whole without a read.
pub proof fn law_what_a_new_version_builds_on<E>(t: VersionTable<E>, entity: u64, limits: ChainLimits)
    requires
        t.heads@.contains_key(entity),
        t.counts@.contains_key(entity) ==> t.counts@[entity] < limits.max_versions,
        limits.max_versions > 0,
    ensures
        ({
            let head = t.heads@[entity];
            let follow: int = if t.since_anchor@.contains_key(entity) {
                t.since_anchor@[entity] as int
            } else {
                0
            };
            let verdict = t.append_verdict(entity, limits);
            let read = t.resolved(head, limits.max_depth);
            &&& !t.versions@.contains_key(head) ==> verdict == Err::<Option<Properties>, ErrorView>(
                ErrorView::VersionNotFound(VersionId(head)),
            )
            &&& t.versions@.contains_key(head) && follow + 1 >= limits.anchor_interval ==> verdict == Ok::<
                Option<Properties>,
                ErrorView,
            >(None)
            &&& t.versions@.contains_key(head) && follow + 1 < limits.anchor_interval ==> {
                &&& read matches Ok(p) ==> verdict == Ok::<Option<Properties>, ErrorView>(Some(p))
                &&& read matches Err(e) ==> verdict == Err::<Option<Properties>, ErrorView>(e)
            }
        }),
{
}

/// A version that is closed is closed in the index as well: from that end on the index shows it no
/// more, and every other version it shows as it did.
pub proof fn law_closed_version_is_closed_in_the_index<E>(
    t: VersionTable<E>,
    id: u64,
    end: Timestamp,
    r: Result<(u64, E), Error>,
    after: VersionTable<E>,
    i: int,
    valid_time: Timestamp,
    transaction_time: Timestamp,
)
    requires
        t.closed_version(id, end, r, after),
        r is Ok,
        t.index is Some,
        after.index is Some,
        t.index->0@.contains_key(t.versions@[id].entity),
        0 <= i < t.index->0@[t.versions@[id].entity].len(),
    ensures
        ({
            let entity = t.versions@[id].entity;
            let was = t.index->0@[entity][i];
            let now = after.index->0@[entity][i];
            &&& r->Ok_0.0 == entity
            &&& now.version == was.version
            &&& was.version != id ==> now == was
            &&& was.version == id && end.key() <= transaction_time.key() ==> !now.interval.visible(
                valid_time,
                transaction_time,
            )
            &&& was.version == id && transaction_time.key() < end.key() && end.key()
                <= was.interval.transaction_time.end.key() ==> (now.interval.visible(
                valid_time,
                transaction_time,
            ) <==> was.interval.visible(valid_time, transaction_time))
        }),
{
    let entity = t.versions@[id].entity;
    law_closed_version_is_hidden(
        t.index->0@,
        entity,
        id,
        end,
        entity,
        i,
        valid_time,
        transaction_time,
    );
}

} // verus!

//! What holds of a version history over any run of calls.

use super::adjacency_index::AdjacencyRecord;
use super::cache::cached;
use super::chain::{chain_properties, chain_result, entity_name, Tiers, MAX_RECONSTRUCTION_DEPTH};
use super::hooks::{all_heard, all_replied, AnchorContext, HookReply, StorageEvent};
use super::laws::{
    caches_sound, chain_gives, is_stored, keeps_chains, keeps_version, law_append_reads_back,
    law_chain_value_is_unique, law_migration_keeps_chains, law_reads_keep_caches_sound,
    lemma_append_keeps_chains, lemma_chain_gives_kept,
};
use super::migrate::{lemma_memory_after_migration, MigrationRun};
use super::policy::SnapshotPolicy;
use super::storage::{stored_events, HistoricalStorage};
use super::table::{entry_of, number_of, with_superseded, ChainLimits, NewVersion, VersionTable};
use crate::error::{Error, ErrorView};
use crate::ids::{EdgeId, NodeId, VersionId};
use crate::property::Properties;
use crate::temporal::Timestamp;
use crate::version::{EdgeEnds, EntityKind, EntityVersion, VersionData};
use vstd::prelude::*;

verus! {

/// The version and all versions that it builds on are stored, and there are `deltas` deltas from
/// the version back to the nearest anchor, which is not counted.
pub open spec fn intact<E>(t: Tiers<E>, id: u64, deltas: nat) -> bool
    decreases deltas,
{
    match t.lookup(id) {
        Ok(Some(version)) => match *version.data {
            VersionData::Anchor { .. } => deltas == 0,
            VersionData::Delta { .. } => deltas > 0 && (version.prev_version matches Some(prev)
                && intact(t, prev, (deltas - 1) as nat)),
        },
        _ => false,
    }
}

proof fn lemma_depth<E>(t: Tiers<E>, origin: u64, id: u64, depth: nat, limit: nat, deltas: nat)
    requires
        intact(t, id, deltas),
        depth <= limit + 1,
    ensures
        depth + deltas <= limit ==> chain_result(t, origin, id, depth, limit) is Ok,
        depth + deltas > limit ==> chain_result(t, origin, id, depth, limit) == Err::<
            Properties,
            ErrorView,
        >(
            ErrorView::MaxDepthExceeded {
                max_depth: MAX_RECONSTRUCTION_DEPTH,
                entity_id: entity_name(t, origin),
            },
        ),
    decreases deltas,
{
    if depth <= limit && deltas > 0 {
        let version = t.lookup(id)->Ok_0->Some_0;
        lemma_depth(
            t,
            origin,
            version.prev_version->0,
            depth + 1,
            limit,
            (deltas - 1) as nat,
        );
    }
}

/// An intact chain of deltas can be read exactly if it has no more deltas than the limit allows;
/// the error for a longer one says that it is too deep.
pub proof fn law_depth_limit<E>(t: Tiers<E>, id: u64, limit: nat, deltas: nat)
    requires
        intact(t, id, deltas),
    ensures
        chain_properties(t, id, limit) is Ok <==> deltas <= limit,
        deltas > limit ==> chain_properties(t, id, limit) == Err::<Properties, ErrorView>(
            ErrorView::MaxDepthExceeded {
                max_depth: MAX_RECONSTRUCTION_DEPTH,
                entity_id: entity_name(t, id),
            },
        ),
{
    lemma_depth(t, id, id, 0, limit, deltas);
}

/// A call on a version history, with what it was given and, where that matters, what it returned.
pub enum Call {
    /// A version of a node was stored, or refused.
    StoreNode(NewVersion<()>, Result<(), Error>),
    /// A version of an edge was stored, or refused; it may have been a deletion.
    StoreEdge(NewVersion<EdgeEnds>, bool, Result<(), Error>),
    /// Properties of versions were read.
    Read,
    /// A version of a node was looked up in all tiers.
    LookUpNode(u64),
    /// A version of an edge was looked up in all tiers.
    LookUpEdge(u64),
    /// Versions were moved to the cold tier.
    Migrate(MigrationRun, MigrationRun),
    /// The transaction time of a version of a node was ended, or the request refused.
    CloseNode(u64, Timestamp, Result<(u64, ()), Error>),
    /// The transaction time of a version of an edge was ended, or the request refused.
    CloseEdge(u64, Timestamp, Result<(u64, EdgeEnds), Error>),
}

/// What was moved can be read in the cold tier.
pub open spec fn readable<E>(t: VersionTable<E>, candidates: Seq<u64>) -> bool {
    t.cold matches Some(tier) ==> forall|i: int|
        0 <= i < candidates.len() ==> !tier.faults@.contains_key(#[trigger] candidates[i])
}

/// The call leads from one history to the other. New versions have identifiers that no stored
/// version has.
pub open spec fn made(s: HistoricalStorage, call: Call, after: HistoricalStorage) -> bool {
    match call {
        Call::StoreNode(new, r) => {
            &&& s.node_stored(new, r, after)
            &&& !is_stored(s.nodes.tiers(), new.id)
        },
        Call::StoreEdge(new, is_tombstone, r) => {
            &&& s.edge_stored(new, is_tombstone, r, after)
            &&& !is_stored(s.edges.tiers(), new.id)
        },
        Call::Read => s.after_any_reads(after),
        Call::LookUpNode(id) => {
            &&& s.nodes.looked_up(id, after.nodes)
            &&& after == (HistoricalStorage { nodes: after.nodes, ..s })
        },
        Call::LookUpEdge(id) => {
            &&& s.edges.looked_up(id, after.edges)
            &&& after == (HistoricalStorage { edges: after.edges, ..s })
        },
        Call::Migrate(node_run, edge_run) => {
            &&& s.nodes.cold is Some && s.edges.cold is Some
            &&& node_run.ran_over(s.nodes.versions@) && readable(s.nodes, node_run.candidates@)
            &&& edge_run.ran_over(s.edges.versions@) && readable(s.edges, edge_run.candidates@)
            &&& s.nodes.migration_done(node_run, after.nodes)
            &&& s.edges.migration_done(edge_run, after.edges) || after.edges == s.edges
            &&& after.same_settings(s)
        },
        Call::CloseNode(id, end, r) => {
            &&& s.nodes.closed_version(id, end, r, after.nodes)
            &&& after.edges == s.edges
            &&& after.same_settings(s)
        },
        Call::CloseEdge(id, end, r) => {
            &&& s.edges.closed_version(id, end, r, after.edges)
            &&& after.nodes == s.nodes
            &&& after.same_settings(s)
        },
    }
}

/// The calls lead through these histories.
pub open spec fn run(states: Seq<HistoricalStorage>, calls: Seq<Call>) -> bool {
    &&& states.len() == calls.len() + 1
    &&& forall|i: int|
        0 <= i < calls.len() ==> made(states[i], #[trigger] calls[i], states[i + 1])
}

/// The versions in memory are kept under their own identifiers, and the caches hold what the chains
/// give.
pub open spec fn sound<E>(t: VersionTable<E>) -> bool {
    &&& caches_sound(t)
    &&& forall|id: u64| #[trigger] t.versions@.contains_key(id) ==> t.versions@[id].id == id
}

/// Nothing that could be read gets lost or changes, and what is sound stays sound.
pub open spec fn carries_on<E>(t: VersionTable<E>, after: VersionTable<E>) -> bool {
    &&& keeps_chains(t.tiers(), after.tiers())
    &&& sound(after)
}

proof fn lemma_caches_kept<E>(t: VersionTable<E>, after: VersionTable<E>)
    requires
        caches_sound(t),
        keeps_chains(t.tiers(), after.tiers()),
        after.property_cache == t.property_cache,
        after.anchor_cache == t.anchor_cache,
    ensures
        caches_sound(after),
{
    assert forall|id: u64| #[trigger] cached(after.property_cache).contains_key(id) implies chain_gives(
        after.tiers(),
        id,
        cached(after.property_cache)[id],
    ) by {
        lemma_chain_gives_kept(t.tiers(), after.tiers(), id, cached(t.property_cache)[id]);
    }
    assert forall|id: u64| #[trigger] cached(after.anchor_cache).contains_key(id) implies chain_gives(
        after.tiers(),
        id,
        cached(after.anchor_cache)[id],
    ) by {
        lemma_chain_gives_kept(t.tiers(), after.tiers(), id, cached(t.anchor_cache)[id]);
    }
}

proof fn lemma_untouched<E>(t: VersionTable<E>, after: VersionTable<E>)
    requires
        sound(t),
        after.versions == t.versions,
        after.tiers() == t.tiers(),
        after.property_cache == t.property_cache,
        after.anchor_cache == t.anchor_cache,
    ensures
        carries_on(t, after),
{
    assert forall|id: u64| #[trigger] keeps_version(t.tiers(), after.tiers(), id) by {}
    lemma_caches_kept(t, after);
}

proof fn lemma_append_carries_on<E>(
    t: VersionTable<E>,
    new: NewVersion<E>,
    limits: ChainLimits,
    base: Option<Properties>,
    after: VersionTable<E>,
)
    requires
        sound(t),
        t.append_verdict(new.entity, limits) == Ok::<Option<Properties>, ErrorView>(base),
        t.appended(new, base, after),
        !is_stored(t.tiers(), new.id),
    ensures
        carries_on(t, after),
        chain_gives(after.tiers(), new.id, new.properties@),
{
    lemma_append_keeps_chains(t, new, limits, base, after);
    law_append_reads_back(t, new, limits, base, after);
    let prev = entry_of(t.heads@, new.entity);
    let linked = with_superseded(t.versions@, prev, new.id, new.temporal.transaction_time.start);
    assert forall|id: u64| #[trigger] after.versions@.contains_key(id) implies after.versions@[id].id
        == id by {
        if id != new.id {
            assert(linked.contains_key(id));
            if prev is Some {
                assert(t.versions@.contains_key(prev->0));
            }
            assert(t.versions@.contains_key(id));
        }
    }
}

proof fn lemma_reads_carry_on<E>(t: VersionTable<E>, max_depth: usize, after: VersionTable<E>)
    requires
        sound(t),
        t.after_reads(max_depth, after),
    ensures
        carries_on(t, after),
{
    law_reads_keep_caches_sound(t, max_depth, after);
    assert forall|id: u64| #[trigger] keeps_version(t.tiers(), after.tiers(), id) by {}
}

proof fn lemma_migration_carries_on<E>(
    t: VersionTable<E>,
    run: MigrationRun,
    after: VersionTable<E>,
)
    requires
        sound(t),
        t.cold is Some,
        run.ran_over(t.versions@),
        readable(t, run.candidates@),
        t.migration_done(run, after),
    ensures
        carries_on(t, after),
{
    if run.candidates@.len() == 0 || run.outcome is Err {
        lemma_untouched(t, after);
    } else {
        let n = run.outcome->Ok_0 as int;
        assert forall|i: int| 0 <= i < n implies t.versions@[#[trigger] run.candidates@[i]].id
            == run.candidates@[i] && !t.cold->0.faults@.contains_key(run.candidates@[i]) by {
            assert(t.versions@.contains_key(run.candidates@[i]));
        }
        law_migration_keeps_chains(t, run.candidates@, n, after);
        lemma_caches_kept(t, after);
        lemma_memory_after_migration(t.hot_part(), t.kind, run.candidates@.take(n));
        assert(after.versions@ == after.hot_part().versions);
        assert(t.versions@ == t.hot_part().versions);
    }
}

proof fn lemma_closing_carries_on<E>(
    t: VersionTable<E>,
    id: u64,
    end: Timestamp,
    r: Result<(u64, E), Error>,
    after: VersionTable<E>,
)
    requires
        sound(t),
        t.closed_version(id, end, r, after),
    ensures
        carries_on(t, after),
        after.heads == t.heads,
        after.since_anchor == t.since_anchor,
{
    assert forall|k: u64| #[trigger] keeps_version(t.tiers(), after.tiers(), k) by {}
    lemma_caches_kept(t, after);
}

proof fn lemma_call_carries_on(s: HistoricalStorage, call: Call, after: HistoricalStorage)
    requires
        made(s, call, after),
        sound(s.nodes),
        sound(s.edges),
    ensures
        carries_on(s.nodes, after.nodes),
        carries_on(s.edges, after.edges),
        after.nodes.kind == s.nodes.kind,
        after.edges.kind == s.edges.kind,
        after.same_rules(s),
        call matches Call::StoreNode(new, Ok(_)) ==> chain_gives(
            after.nodes.tiers(),
            new.id,
            new.properties@,
        ),
        call matches Call::StoreEdge(new, _, Ok(_)) ==> chain_gives(
            after.edges.tiers(),
            new.id,
            new.properties@,
        ),
{
    match call {
        Call::StoreNode(new, r) => {
            lemma_untouched(s.edges, after.edges);
            match s.nodes.append_verdict(new.entity, s.spec_limits()) {
                Ok(base) => {
                    lemma_append_carries_on(s.nodes, new, s.spec_limits(), base, after.nodes);
                },
                Err(_) => {
                    lemma_untouched(s.nodes, after.nodes);
                },
            }
        },
        Call::StoreEdge(new, _, r) => {
            lemma_untouched(s.nodes, after.nodes);
            match s.edges.append_verdict(new.entity, s.spec_limits()) {
                Ok(base) => {
                    lemma_append_carries_on(s.edges, new, s.spec_limits(), base, after.edges);
                },
                Err(_) => {
                    lemma_untouched(s.edges, after.edges);
                },
            }
        },
        Call::Read => {
            lemma_reads_carry_on(s.nodes, s.max_reconstruction_depth, after.nodes);
            lemma_reads_carry_on(s.edges, s.max_reconstruction_depth, after.edges);
        },
        Call::LookUpNode(_) => {
            lemma_untouched(s.nodes, after.nodes);
            lemma_untouched(s.edges, after.edges);
        },
        Call::LookUpEdge(_) => {
            lemma_untouched(s.nodes, after.nodes);
            lemma_untouched(s.edges, after.edges);
        },
        Call::Migrate(node_run, edge_run) => {
            lemma_migration_carries_on(s.nodes, node_run, after.nodes);
            if after.edges == s.edges {
                lemma_untouched(s.edges, after.edges);
            } else {
                lemma_migration_carries_on(s.edges, edge_run, after.edges);
            }
        },
        Call::CloseNode(id, end, r) => {
            lemma_closing_carries_on(s.nodes, id, end, r, after.nodes);
            lemma_untouched(s.edges, after.edges);
        },
        Call::CloseEdge(id, end, r) => {
            lemma_closing_carries_on(s.edges, id, end, r, after.edges);
            lemma_untouched(s.nodes, after.nodes);
        },
    }
}

proof fn lemma_shorter_run(states: Seq<HistoricalStorage>, calls: Seq<Call>)
    requires
        run(states, calls),
        calls.len() > 0,
    ensures
        run(states.drop_last(), calls.drop_last()),
        made(states.drop_last().last(), calls.last(), states.last()),
{
    assert forall|i: int| 0 <= i < calls.drop_last().len() implies made(
        states.drop_last()[i],
        #[trigger] calls.drop_last()[i],
        states.drop_last()[i + 1],
    ) by {
        assert(calls[i] == calls.drop_last()[i]);
    }
    assert(made(states[calls.len() - 1], calls[calls.len() - 1], states[calls.len() as int]));
}

/// A new history is sound.
pub proof fn lemma_new_is_sound<E>(t: VersionTable<E>, cache_size: usize, anchor_size: usize)
    requires
        t.is_new(t.kind, cache_size, anchor_size),
    ensures
        sound(t),
{
}

/// Whatever calls are made on a history, it stays sound.
pub proof fn law_calls_keep_sound(states: Seq<HistoricalStorage>, calls: Seq<Call>)
    requires
        run(states, calls),
        sound(states[0].nodes),
        sound(states[0].edges),
    ensures
        sound(states.last().nodes),
        sound(states.last().edges),
        states.last().nodes.kind == states[0].nodes.kind,
        states.last().edges.kind == states[0].edges.kind,
        states.last().same_rules(states[0]),
    decreases calls.len(),
{
    if calls.len() > 0 {
        lemma_shorter_run(states, calls);
        law_calls_keep_sound(states.drop_last(), calls.drop_last());
        lemma_call_carries_on(states.drop_last().last(), calls.last(), states.last());
    }
}

proof fn lemma_written_is_given(
    states: Seq<HistoricalStorage>,
    calls: Seq<Call>,
    at: int,
)
    requires
        run(states, calls),
        sound(states[0].nodes),
        sound(states[0].edges),
        0 <= at < calls.len(),
    ensures
        calls[at] matches Call::StoreNode(new, Ok(_)) ==> chain_gives(
            states.last().nodes.tiers(),
            new.id,
            new.properties@,
        ),
        calls[at] matches Call::StoreEdge(new, _, Ok(_)) ==> chain_gives(
            states.last().edges.tiers(),
            new.id,
            new.properties@,
        ),
    decreases calls.len(),
{
    let before = states.drop_last();
    let earlier = calls.drop_last();
    lemma_shorter_run(states, calls);
    law_calls_keep_sound(before, earlier);
    lemma_call_carries_on(before.last(), calls.last(), states.last());
    if at < calls.len() - 1 {
        lemma_written_is_given(before, earlier, at);
        assert(earlier[at] == calls[at]);
        match calls[at] {
            Call::StoreNode(new, Ok(_)) => {
                lemma_chain_gives_kept(
                    before.last().nodes.tiers(),
                    states.last().nodes.tiers(),
                    new.id,
                    new.properties@,
                );
            },
            Call::StoreEdge(new, _, Ok(_)) => {
                lemma_chain_gives_kept(
                    before.last().edges.tiers(),
                    states.last().edges.tiers(),
                    new.id,
                    new.properties@,
                );
            },
            _ => {},
        }
    }
}

proof fn lemma_given_is_resolved<E>(
    t: VersionTable<E>,
    id: u64,
    properties: Properties,
    deltas: nat,
    max_depth: usize,
)
    requires
        sound(t),
        chain_gives(t.tiers(), id, properties),
        intact(t.tiers(), id, deltas),
        deltas <= max_depth,
    ensures
        t.resolved(id, max_depth) == Ok::<Properties, ErrorView>(properties),
{
    let limit = choose|limit: nat| #[trigger]
        chain_properties(t.tiers(), id, limit) == Ok::<Properties, ErrorView>(properties);
    law_depth_limit(t.tiers(), id, max_depth as nat, deltas);
    law_chain_value_is_unique(t.tiers(), id, limit, max_depth as nat);
    if cached(t.property_cache).contains_key(id) {
        let other = choose|other: nat| #[trigger]
            chain_properties(t.tiers(), id, other) == Ok::<Properties, ErrorView>(
                cached(t.property_cache)[id],
            );
        law_chain_value_is_unique(t.tiers(), id, limit, other);
    } else if cached(t.anchor_cache).contains_key(id) {
        let other = choose|other: nat| #[trigger]
            chain_properties(t.tiers(), id, other) == Ok::<Properties, ErrorView>(
                cached(t.anchor_cache)[id],
            );
        law_chain_value_is_unique(t.tiers(), id, limit, other);
    }
}

/// The properties that a version of a node was stored with are what a read of that version gives,
/// whatever calls came after, whether it is an anchor or a delta, whichever tier its chain lies in,
/// and whatever the caches hold - as long as its chain is intact and no deeper than the limit.
pub proof fn law_written_node_reads_back(
    states: Seq<HistoricalStorage>,
    calls: Seq<Call>,
    at: int,
    new: NewVersion<()>,
    deltas: nat,
)
    requires
        run(states, calls),
        sound(states[0].nodes),
        sound(states[0].edges),
        0 <= at < calls.len(),
        calls[at] == Call::StoreNode(new, Ok(())),
        intact(states.last().nodes.tiers(), new.id, deltas),
        deltas <= states.last().max_reconstruction_depth,
    ensures
        states.last().nodes.resolved(new.id, states.last().max_reconstruction_depth) == Ok::<
            Properties,
            ErrorView,
        >(new.properties@),
{
    lemma_written_is_given(states, calls, at);
    law_calls_keep_sound(states, calls);
    lemma_given_is_resolved(
        states.last().nodes,
        new.id,
        new.properties@,
        deltas,
        states.last().max_reconstruction_depth,
    );
}

/// What [`law_written_node_reads_back`] says of nodes holds of edges.
pub proof fn law_written_edge_reads_back(
    states: Seq<HistoricalStorage>,
    calls: Seq<Call>,
    at: int,
    new: NewVersion<EdgeEnds>,
    is_tombstone: bool,
    deltas: nat,
)
    requires
        run(states, calls),
        sound(states[0].nodes),
        sound(states[0].edges),
        0 <= at < calls.len(),
        calls[at] == Call::StoreEdge(new, is_tombstone, Ok(())),
        intact(states.last().edges.tiers(), new.id, deltas),
        deltas <= states.last().max_reconstruction_depth,
    ensures
        states.last().edges.resolved(new.id, states.last().max_reconstruction_depth) == Ok::<
            Properties,
            ErrorView,
        >(new.properties@),
{
    lemma_written_is_given(states, calls, at);
    law_calls_keep_sound(states, calls);
    lemma_given_is_resolved(
        states.last().edges,
        new.id,
        new.properties@,
        deltas,
        states.last().max_reconstruction_depth,
    );
}

/// How many versions of a node were stored.
pub open spec fn times_stored(calls: Seq<Call>, node: u64) -> nat
    decreases calls.len(),
{
    if calls.len() == 0 {
        0
    } else {
        times_stored(calls.drop_last(), node) + match calls.last() {
            Call::StoreNode(new, Ok(_)) if new.entity == node => 1nat,
            _ => 0,
        }
    }
}

proof fn lemma_next_remainder(k: int, n: int)
    requires
        k >= 1,
        n >= 1,
    ensures
        k % n == (if (k - 1) % n + 1 == n {
            0
        } else {
            (k - 1) % n + 1
        }),
{
    let q = (k - 1) / n;
    let r = (k - 1) % n;
    vstd::arithmetic::div_mod::lemma_fundamental_div_mod(k - 1, n);
    if r + 1 == n {
        assert(k == (q + 1) * n + 0) by (nonlinear_arith)
            requires
                k - 1 == n * q + r,
                r + 1 == n,
        ;
        vstd::arithmetic::div_mod::lemma_fundamental_div_mod_converse(k, n, q + 1, 0);
    } else {
        assert(k == q * n + (r + 1)) by (nonlinear_arith)
            requires
                k - 1 == n * q + r,
        ;
        vstd::arithmetic::div_mod::lemma_mod_division_less_than_divisor(k - 1, n);
        vstd::arithmetic::div_mod::lemma_fundamental_div_mod_converse(k, n, q, r + 1);
    }
}

/// The counter of a node tells how many versions came after its last anchor.
pub open spec fn in_rhythm(s: HistoricalStorage, node: u64, stored: nat) -> bool {
    if stored == 0 {
        !s.nodes.heads@.contains_key(node)
    } else {
        &&& s.nodes.heads@.contains_key(node)
        &&& number_of(s.nodes.since_anchor@, node) == (stored - 1) % (
        s.config.anchor_interval as int)
    }
}

proof fn lemma_rhythm_kept(s: HistoricalStorage, call: Call, after: HistoricalStorage, node: u64, stored: nat)
    requires
        made(s, call, after),
        in_rhythm(s, node, stored),
        s.config.anchor_interval >= 1,
    ensures
        after.config == s.config,
        in_rhythm(
            after,
            node,
            stored + match call {
                Call::StoreNode(new, Ok(_)) if new.entity == node => 1nat,
                _ => 0,
            },
        ),
        call matches Call::StoreNode(new, Ok(_)) ==> (new.entity == node ==> {
            let version = after.nodes.versions@[new.id];
            &&& version.anchored() <==> stored as int % (s.config.anchor_interval as int) == 0
            &&& version.prev_version == entry_of(s.nodes.heads@, node)
            &&& after.nodes.heads@[node] == new.id
        }),
{
    let n = s.config.anchor_interval as int;
    if let Call::StoreNode(new, Ok(_)) = call {
        if new.entity == node {
            let verdict = s.nodes.append_verdict(node, s.spec_limits());
            assert(verdict is Ok);
            let base = verdict->Ok_0;
            assert(base is None <==> s.nodes.anchor_due(node, s.spec_limits()));
            assert(after.nodes.versions@[new.id].anchored() <==> base is None);
            if stored > 0 {
                lemma_next_remainder(stored as int, n);
            } else {
                vstd::arithmetic::div_mod::lemma_small_mod(0, n as nat);
            }
        }
    }
}

/// The k-th version of a node that is stored is an anchor exactly if k - 1 is a multiple of the
/// interval between anchors, so the first one always is; it follows on the latest one before it,
/// and it is the latest one afterwards.
pub proof fn law_every_nth_is_an_anchor(
    states: Seq<HistoricalStorage>,
    calls: Seq<Call>,
    new: NewVersion<()>,
)
    requires
        run(states, calls),
        states[0].config.anchor_interval >= 1,
        !states[0].nodes.heads@.contains_key(new.entity),
        calls.len() > 0,
        calls.last() == Call::StoreNode(new, Ok(())),
    ensures
        ({
            let k = times_stored(calls, new.entity);
            let before = states[calls.len() - 1];
            let after = states.last();
            let version = after.nodes.versions@[new.id];
            &&& k >= 1
            &&& version.anchored() <==> (k - 1) % (states[0].config.anchor_interval as int) == 0
            &&& version.prev_version == entry_of(before.nodes.heads@, new.entity)
            &&& k == 1 <==> version.prev_version is None
            &&& after.nodes.heads@[new.entity] == new.id
        }),
{
    lemma_shorter_run(states, calls);
    lemma_rhythm(states.drop_last(), calls.drop_last(), new.entity);
    lemma_rhythm_kept(
        states.drop_last().last(),
        calls.last(),
        states.last(),
        new.entity,
        times_stored(calls.drop_last(), new.entity),
    );
}

proof fn lemma_rhythm(states: Seq<HistoricalStorage>, calls: Seq<Call>, node: u64)
    requires
        run(states, calls),
        states[0].config.anchor_interval >= 1,
        !states[0].nodes.heads@.contains_key(node),
    ensures
        states.last().config == states[0].config,
        in_rhythm(states.last(), node, times_stored(calls, node)),
    decreases calls.len(),
{
    if calls.len() > 0 {
        lemma_shorter_run(states, calls);
        lemma_rhythm(states.drop_last(), calls.drop_last(), node);
        lemma_rhythm_kept(
            states.drop_last().last(),
            calls.last(),
            states.last(),
            node,
            times_stored(calls.drop_last(), node),
        );
    }
}

/// The two versions store the same; the snapshot that goes with an anchor may differ, since hooks
/// may reply as they like.
pub open spec fn store_the_same<E>(a: EntityVersion<E>, b: EntityVersion<E>) -> bool {
    &&& a.id == b.id
    &&& a.entity == b.entity
    &&& a.temporal == b.temporal
    &&& a.label == b.label
    &&& a.ends == b.ends
    &&& a.prev_version == b.prev_version
    &&& a.next_version == b.next_version
    &&& a.provenance == b.provenance
    &&& match (*a.data, *b.data) {
        (
            VersionData::Anchor { properties: p, .. },
            VersionData::Anchor { properties: q, .. },
        ) => p@ == q@,
        (VersionData::Delta { delta: d }, VersionData::Delta { delta: e }) => d@ == e@,
        _ => false,
    }
}

/// Storing a deletion of an edge and storing the same version otherwise differ only in the
/// adjacency index: the versions, the latest ones, the counts and the totals are the same, hooks
/// and observers are told the same, and only the version that is no deletion gets its entry.
pub proof fn law_deletion_differs_in_adjacency_only(
    s: HistoricalStorage,
    new: NewVersion<EdgeEnds>,
    deleted: HistoricalStorage,
    written: HistoricalStorage,
)
    requires
        s.edge_stored(new, true, Ok(()), deleted),
        s.edge_stored(new, false, Ok(()), written),
        s.adjacency is Some,
    ensures
        deleted.nodes == written.nodes,
        deleted.edges.versions@.dom() == written.edges.versions@.dom(),
        forall|id: u64| #[trigger]
            deleted.edges.versions@.contains_key(id) ==> if id == new.id {
                store_the_same(deleted.edges.versions@[id], written.edges.versions@[id])
            } else {
                deleted.edges.versions@[id] == written.edges.versions@[id]
            },
        deleted.edges.heads@ == written.edges.heads@,
        deleted.edges.counts@ == written.edges.counts@,
        deleted.edges.since_anchor@ == written.edges.since_anchor@,
        deleted.edges.anchor_count == written.edges.anchor_count,
        deleted.edges.delta_count == written.edges.delta_count,
        deleted.meters.cache == written.meters.cache,
        deleted.same_rules(written),
        ({
            let base = s.edges.append_verdict(new.entity, s.spec_limits())->Ok_0;
            let events = stored_events(s.edges, new, base is None);
            &&& all_heard(s.observers@, events, deleted.observers@)
            &&& all_heard(s.observers@, events, written.observers@)
        }),
        deleted.adjacency is Some,
        written.adjacency is Some,
        written.adjacency->0.records@ == deleted.adjacency->0.records@.push(
            AdjacencyRecord {
                edge: EdgeId(new.entity),
                ends: new.ends,
                label: new.label,
                interval: new.temporal,
            },
        ),
{
    let a = deleted.edges.versions@;
    let b = written.edges.versions@;
    let base = s.edges.append_verdict(new.entity, s.spec_limits())->Ok_0;
    let linked = with_superseded(
        s.edges.versions@,
        entry_of(s.edges.heads@, new.entity),
        new.id,
        new.temporal.transaction_time.start,
    );
    assert(a == linked.insert(new.id, a[new.id]));
    assert(b == linked.insert(new.id, b[new.id]));
    assert(a.dom() =~= b.dom());
    assert(s.edges.stored_as(new, base, a[new.id]));
    assert(s.edges.stored_as(new, base, b[new.id]));
    assert(store_the_same(a[new.id], b[new.id]));
}

/// What others are told when a version of a node is stored, and nothing else: every observer hears
/// that it was stored, and that an anchor was, exactly if it is one and the node takes snapshots;
/// then, and only then, each hook is called, once, and told of that anchor.
pub proof fn law_stored_node_is_told(
    s: HistoricalStorage,
    new: NewVersion<()>,
    after: HistoricalStorage,
)
    requires
        s.nodes.kind == EntityKind::Node,
        s.node_stored(new, Ok(()), after),
    ensures
        ({
            let timestamp = new.temporal.transaction_time.start;
            let is_anchor = after.nodes.versions@[new.id].anchored();
            let snapshots = is_anchor && s.nodes.policies.policy_of(new.entity)
                == SnapshotPolicy::Snapshot;
            let stored = StorageEvent::NodeVersionCreated {
                version_id: VersionId(new.id),
                node_id: NodeId(new.entity),
                timestamp,
                is_anchor,
            };
            let anchored = StorageEvent::NodeAnchorCreated {
                version_id: VersionId(new.id),
                node_id: NodeId(new.entity),
                timestamp,
            };
            let context = AnchorContext {
                entity_type: "node"@,
                entity_id: new.entity,
                timestamp,
                properties: new.properties@,
                timeout: s.hook_timeout,
            };
            &&& after.observers@.len() == s.observers@.len()
            &&& forall|i: int|
                0 <= i < s.observers@.len() ==> (#[trigger] after.observers@[i]).observer.heard()
                    == s.observers@[i].observer.heard() + if snapshots {
                    seq![stored, anchored]
                } else {
                    seq![stored]
                }
            &&& if snapshots {
                exists|replies: Seq<HookReply>| #[trigger]
                    all_replied(s.nodes.hooks@, context, replies, after.nodes.hooks@)
            } else {
                after.nodes.hooks == s.nodes.hooks
            }
        }),
{
    let verdict = s.nodes.append_verdict(new.entity, s.spec_limits());
    let base = verdict->Ok_0;
    assert(s.nodes.stored_as(new, base, after.nodes.versions@[new.id]));
    assert(after.nodes.versions@[new.id].anchored() <==> base is None);
}

/// What others are told when a version of an edge is stored, and nothing else: every observer hears
/// that it was stored, and that an anchor was, exactly if it is one and the edge takes snapshots;
/// then, and only then, each hook is called, once, and told of that anchor.
pub proof fn law_stored_edge_is_told(
    s: HistoricalStorage,
    new: NewVersion<EdgeEnds>,
    is_tombstone: bool,
    after: HistoricalStorage,
)
    requires
        s.edges.kind == EntityKind::Edge,
        s.edge_stored(new, is_tombstone, Ok(()), after),
    ensures
        ({
            let timestamp = new.temporal.transaction_time.start;
            let is_anchor = after.edges.versions@[new.id].anchored();
            let snapshots = is_anchor && s.edges.policies.policy_of(new.entity)
                == SnapshotPolicy::Snapshot;
            let stored = StorageEvent::EdgeVersionCreated {
                version_id: VersionId(new.id),
                edge_id: EdgeId(new.entity),
                timestamp,
                is_anchor,
            };
            let anchored = StorageEvent::EdgeAnchorCreated {
                version_id: VersionId(new.id),
                edge_id: EdgeId(new.entity),
                timestamp,
            };
            let context = AnchorContext {
                entity_type: "edge"@,
                entity_id: new.entity,
                timestamp,
                properties: new.properties@,
                timeout: s.hook_timeout,
            };
            &&& after.observers@.len() == s.observers@.len()
            &&& forall|i: int|
                0 <= i < s.observers@.len() ==> (#[trigger] after.observers@[i]).observer.heard()
                    == s.observers@[i].observer.heard() + if snapshots {
                    seq![stored, anchored]
                } else {
                    seq![stored]
                }
            &&& if snapshots {
                exists|replies: Seq<HookReply>| #[trigger]
                    all_replied(s.edges.hooks@, context, replies, after.edges.hooks@)
            } else {
                after.edges.hooks == s.edges.hooks
            }
        }),
{
    let verdict = s.edges.append_verdict(new.entity, s.spec_limits());
    let base = verdict->Ok_0;
    assert(s.edges.stored_as(new, base, after.edges.versions@[new.id]));
    assert(after.edges.versions@[new.id].anchored() <==> base is None);
}

} // verus!

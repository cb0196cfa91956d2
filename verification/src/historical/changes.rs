//! The feed of changes: which versions were recorded in a window of time, and in which namespace.

use super::chain::{chain_properties, ChangeCursor};
use super::metrics::{CacheMetrics, Meters};
use super::migrate::cursor_of;
use super::reads::lemma_reads_compose;
use super::storage::HistoricalStorage;
use super::table::VersionTable;
use crate::error::ErrorView;
use crate::ids::{InternedString, MAX_VALID_ID};
use crate::maps::{keys_of, lemma_take_contains, lists_keys};
use crate::property::{Properties, PropertyMap, PropertyValue, ValueView};
use crate::sorting::{ascending, sorted, Ranked};
use crate::temporal::{lemma_timestamp_order, TimeRange};
use crate::version::{EntityKind, EntityVersion, VersionData};
use vstd::prelude::*;

verus! {

broadcast use vstd::std_specs::hash::group_hash_axioms;

/// The property that holds the namespace of an entity. No other property is interned as this.
pub const NAMESPACE_KEY: u32 = 0xffff_ffff;

/// A namespace.
#[derive(Debug)]
pub enum Namespace {
    /// The namespace of entities that name none.
    Default,
    /// A namespace by name.
    Named(String),
    /// The namespace could not be read. No reader is subscribed to this.
    Unresolved,
}

/// What a [`Namespace`] says.
pub enum NamespaceView {
    /// See [`Namespace::Default`].
    Default,
    /// See [`Namespace::Named`].
    Named(Seq<char>),
    /// See [`Namespace::Unresolved`].
    Unresolved,
}

impl View for Namespace {
    type V = NamespaceView;

    open spec fn view(&self) -> NamespaceView {
        match *self {
            Namespace::Default => NamespaceView::Default,
            Namespace::Named(s) => NamespaceView::Named(s@),
            Namespace::Unresolved => NamespaceView::Unresolved,
        }
    }
}

/// The namespace that properties place an entity in.
pub open spec fn namespace_in(properties: Properties) -> NamespaceView {
    if properties.contains_key(NAMESPACE_KEY) {
        match properties[NAMESPACE_KEY] {
            ValueView::Text(name) => NamespaceView::Named(name),
            _ => NamespaceView::Default,
        }
    } else {
        NamespaceView::Default
    }
}

/// The namespace that properties place an entity in.
pub fn namespace_of(properties: &PropertyMap) -> (r: Namespace)
    ensures
        r@ == namespace_in(properties@),
{
    match properties.get(InternedString(NAMESPACE_KEY)) {
        Some(PropertyValue::Text(name)) => Namespace::Named(name.clone()),
        _ => Namespace::Default,
    }
}

/// One change: a version that was recorded.
#[derive(Debug)]
pub struct RawChange {
    /// Its position in the feed.
    pub cursor: ChangeCursor,
    /// When the version holds.
    pub valid_time: TimeRange,
    /// The entity's label or type.
    pub label: InternedString,
    /// Whether the version is the first of its entity.
    pub created: bool,
    /// The entity's namespace.
    pub namespace: Namespace,
}

/// Which changes to collect.
pub struct ChangeFilter {
    /// The version became known in this window.
    pub tx_window: TimeRange,
    /// The version holds in this window, if one is given.
    pub valid_window: Option<TimeRange>,
    /// The entity has this label, if one is given.
    pub label: Option<InternedString>,
    /// The change lies behind this position, if one is given.
    pub resume_after: Option<ChangeCursor>,
}

impl Ranked for ChangeCursor {
    open spec fn rank(self) -> int {
        let kind: int = if self.kind == EntityKind::Node {
            0
        } else {
            1
        };
        ((self.commit_timestamp.key() * 2 + kind) * 0x1_0000_0000_0000_0000int + self.entity)
            * 0x1_0000_0000_0000_0000int + self.version
    }

    fn ranks_within(&self, other: &ChangeCursor) -> (r: bool) {
        proof {
            lemma_timestamp_order(self.commit_timestamp, other.commit_timestamp);
        }
        if self.commit_timestamp != other.commit_timestamp {
            self.commit_timestamp.is_before(&other.commit_timestamp)
        } else if self.kind != other.kind {
            match self.kind {
                EntityKind::Node => true,
                EntityKind::Edge => false,
            }
        } else if self.entity != other.entity {
            self.entity < other.entity
        } else {
            self.version <= other.version
        }
    }
}

/// A version in memory and its position in the feed.
#[derive(Clone, Copy, Debug, PartialEq, Eq, Structural)]
pub struct ChangeKey {
    /// The position.
    pub cursor: ChangeCursor,
    /// The version.
    pub id: u64,
}

impl Ranked for ChangeKey {
    open spec fn rank(self) -> int {
        self.cursor.rank()
    }

    fn ranks_within(&self, other: &ChangeKey) -> (r: bool) {
        self.cursor.ranks_within(&other.cursor)
    }
}

impl ChangeFilter {
    /// The version is among those to collect.
    pub open spec fn admits<E>(self, kind: EntityKind, v: EntityVersion<E>) -> bool {
        &&& self.tx_window.has(v.temporal.transaction_time.start)
        &&& self.valid_window matches Some(w) ==> v.temporal.valid_time.meets(w)
        &&& self.label matches Some(l) ==> v.label == l
        &&& self.resume_after matches Some(c) ==> c.rank() < cursor_of(kind, v).rank()
    }
}

/// The change that a version is, in the given namespace.
pub open spec fn change_of<E>(kind: EntityKind, v: EntityVersion<E>, c: RawChange) -> bool {
    &&& c.cursor == cursor_of(kind, v)
    &&& c.valid_time == v.temporal.valid_time
    &&& c.label == v.label
    &&& c.created == (v.prev_version is None)
}

impl<E> VersionTable<E> {
    /// A namespace that reading a version may place its entity in: that of its properties; none
    /// that anyone reads, when the properties cannot be read.
    pub open spec fn may_place(self, id: u64, max_depth: usize, n: NamespaceView) -> bool {
        match *self.versions@[id].data {
            VersionData::Anchor { properties, .. } => n == namespace_in(properties@),
            VersionData::Delta { .. } => self.may_place_by_read(id, max_depth, n),
        }
    }

    /// A namespace that a read of a version's properties may give.
    pub open spec fn may_place_by_read(self, id: u64, max_depth: usize, n: NamespaceView) -> bool {
        ||| exists|p: Properties| #[trigger]
            self.may_read(id, max_depth, Ok(p)) && n == namespace_in(p)
        ||| chain_properties(self.tiers(), id, max_depth as nat) is Err && n
            == NamespaceView::Unresolved
    }

    /// The counters after a version's entity was placed in a namespace: an anchor tells it without
    /// a read.
    pub open spec fn placed_counted(self, id: u64, m: CacheMetrics) -> CacheMetrics {
        if self.versions@[id].anchored() {
            m
        } else {
            self.read_counted(id, m)
        }
    }

    /// The keys of exactly those versions that the filter admits, each once.
    pub open spec fn keys_admitted(self, f: ChangeFilter, s: Seq<ChangeKey>) -> bool {
        &&& s.no_duplicates()
        &&& forall|i: int|
            0 <= i < s.len() ==> self.versions@.contains_key((#[trigger] s[i]).id) && f.admits(
                self.kind,
                self.versions@[s[i].id],
            ) && s[i].cursor == cursor_of(self.kind, self.versions@[s[i].id])
        &&& forall|id: u64| #[trigger]
            self.versions@.contains_key(id) && f.admits(self.kind, self.versions@[id])
                ==> s.contains(
                ChangeKey { cursor: cursor_of(self.kind, self.versions@[id]), id },
            )
    }
}

impl ChangeFilter {
    fn check<E>(&self, kind: EntityKind, v: &EntityVersion<E>) -> (r: bool)
        ensures
            r == self.admits(kind, *v),
    {
        if !self.tx_window.contains(v.temporal.transaction_time.start) {
            return false;
        }
        if let Some(w) = &self.valid_window {
            if !v.temporal.valid_time.intersects(w) {
                return false;
            }
        }
        if let Some(l) = &self.label {
            if v.label != *l {
                return false;
            }
        }
        if let Some(c) = &self.resume_after {
            if version_cursor(kind, v).ranks_within(c) {
                return false;
            }
        }
        true
    }
}

fn version_cursor<E>(kind: EntityKind, v: &EntityVersion<E>) -> (r: ChangeCursor)
    ensures
        r == cursor_of(kind, *v),
{
    ChangeCursor {
        commit_timestamp: v.temporal.transaction_time.start,
        kind,
        entity: v.entity,
        version: v.id,
    }
}

impl<E: Copy> VersionTable<E> {
    /// The namespace of a version's entity. A version whose properties cannot be read is placed
    /// where nobody reads, never in the default namespace.
    pub fn version_namespace(&mut self, id: u64, max_depth: usize, meters: &mut Meters) -> (r:
        Namespace)
        requires
            old(self).versions@.contains_key(id),
        ensures
            old(self).may_place(id, max_depth, r@),
            old(self).after_reads(max_depth, *final(self)),
            final(meters).hooks == old(meters).hooks,
            final(meters).cache == old(self).placed_counted(id, old(meters).cache),
    {
        if let Some(v) = self.versions.get(&id) {
            if let VersionData::Anchor { properties, .. } = &*v.data {
                return namespace_of(properties);
            }
        }
        self.read_namespace(id, max_depth, meters)
    }

    fn read_namespace(&mut self, id: u64, max_depth: usize, meters: &mut Meters) -> (r: Namespace)
        ensures
            old(self).may_place_by_read(id, max_depth, r@),
            old(self).after_reads(max_depth, *final(self)),
            final(meters).hooks == old(meters).hooks,
            final(meters).cache == old(self).read_counted(id, old(meters).cache),
    {
        match self.reconstruct(id, max_depth, meters) {
            Ok(p) => {
                proof {
                    lemma_reads_compose(*old(self), max_depth, *old(self), *self, id, p@);
                    assert(old(self).may_read(id, max_depth, Ok(p@)));
                }
                namespace_of(&p)
            },
            Err(_) => Namespace::Unresolved,
        }
    }

    fn admitted_keys(&self, f: &ChangeFilter) -> (r: Vec<ChangeKey>)
        ensures
            self.keys_admitted(*f, r@),
    {
        let ghost m = self.versions@;
        let ids: Vec<u64> = keys_of(&self.versions);
        let mut out: Vec<ChangeKey> = Vec::new();
        let mut i: usize = 0;
        while i < ids.len()
            invariant
                i <= ids.len(),
                m == self.versions@,
                lists_keys(ids@, m),
                out@.no_duplicates(),
                forall|j: int|
                    0 <= j < out@.len() ==> ids@.take(i as int).contains((#[trigger] out@[j]).id)
                        && m.contains_key(out@[j].id) && f.admits(self.kind, m[out@[j].id])
                        && out@[j].cursor == cursor_of(self.kind, m[out@[j].id]),
                forall|id: u64| #[trigger]
                    ids@.take(i as int).contains(id) && f.admits(self.kind, m[id])
                        ==> out@.contains(
                        ChangeKey { cursor: cursor_of(self.kind, m[id]), id },
                    ),
            decreases ids.len() - i,
        {
            let id: u64 = ids[i];
            let ghost earlier = ids@.take(i as int);
            let ghost before = out@;
            proof {
                lemma_take_contains(ids@, i as int);
                assert(m.contains_key(ids@[i as int]));
                assert(!earlier.contains(id)) by {
                    if earlier.contains(id) {
                        let j = choose|j: int| 0 <= j < earlier.len() && earlier[j] == id;
                        assert(ids@[j] == ids@[i as int]);
                    }
                }
            }
            if let Some(v) = self.versions.get(&id) {
                if f.check(self.kind, v) {
                    let key = ChangeKey { cursor: version_cursor(self.kind, v), id };
                    out.push(key);
                    proof {
                        assert(out@[before.len() as int] == key);
                        assert forall|x: ChangeKey| #[trigger] before.contains(x) implies out@.contains(
                            x,
                        ) by {
                            let j = choose|j: int| 0 <= j < before.len() && before[j] == x;
                            assert(out@[j] == x);
                        }
                    }
                }
            }
            i = i + 1;
        }
        assert(ids@.take(i as int) =~= ids@);
        proof {
            assert forall|id: u64| #[trigger]
                m.contains_key(id) && f.admits(self.kind, m[id]) implies out@.contains(
                ChangeKey { cursor: cursor_of(self.kind, m[id]), id },
            ) by {
                assert(ids@.contains(id));
            }
        }
        out
    }

    /// The change that a version in memory is.
    fn change(&mut self, id: u64, max_depth: usize, meters: &mut Meters) -> (r: Option<RawChange>)
        ensures
            match r {
                Some(c) => old(self).versions@.contains_key(id) && change_of(
                    old(self).kind,
                    old(self).versions@[id],
                    c,
                ) && old(self).may_place(id, max_depth, c.namespace@),
                None => !old(self).versions@.contains_key(id),
            },
            old(self).after_reads(max_depth, *final(self)),
            final(meters).hooks == old(meters).hooks,
            final(meters).cache == (if old(self).versions@.contains_key(id) {
                old(self).placed_counted(id, old(meters).cache)
            } else {
                old(meters).cache
            }),
    {
        if !self.versions.contains_key(&id) {
            return None;
        }
        let namespace = self.version_namespace(id, max_depth, meters);
        match self.versions.get(&id) {
            Some(v) => Some(
                RawChange {
                    cursor: version_cursor(self.kind, v),
                    valid_time: v.temporal.valid_time,
                    label: v.label,
                    created: v.prev_version.is_none(),
                    namespace,
                },
            ),
            None => None,
        }
    }
}

impl<E> VersionTable<E> {
    /// What a read after other reads may give, a first read may give.
    pub proof fn lemma_may_read_after_reads(
        self,
        max_depth: usize,
        mid: VersionTable<E>,
        id: u64,
        r: Result<Properties, ErrorView>,
    )
        requires
            self.after_reads(max_depth, mid),
            mid.may_read(id, max_depth, r),
        ensures
            self.may_read(id, max_depth, r),
    {
    }

    proof fn lemma_may_place_after_reads(
        self,
        max_depth: usize,
        mid: VersionTable<E>,
        id: u64,
        n: NamespaceView,
    )
        requires
            self.after_reads(max_depth, mid),
        ensures
            mid.may_place_by_read(id, max_depth, n) ==> self.may_place_by_read(id, max_depth, n),
            mid.may_place(id, max_depth, n) ==> self.may_place(id, max_depth, n),
    {
        if mid.may_place_by_read(id, max_depth, n) {
            if exists|p: Properties| #[trigger]
                mid.may_read(id, max_depth, Ok(p)) && n == namespace_in(p) {
                let p = choose|p: Properties| #[trigger]
                    mid.may_read(id, max_depth, Ok(p)) && n == namespace_in(p);
                self.lemma_may_read_after_reads(max_depth, mid, id, Ok(p));
            }
        }
    }

    /// Reads after reads are reads.
    pub proof fn lemma_reads_in_turn(
        self,
        max_depth: usize,
        mid: VersionTable<E>,
        later: VersionTable<E>,
    )
        requires
            self.after_reads(max_depth, mid),
            mid.after_reads(max_depth, later),
        ensures
            self.after_reads(max_depth, later),
    {
        use_cached_reads(self, max_depth, mid, later);
    }
}

proof fn use_cached_reads<E>(
    t: VersionTable<E>,
    max_depth: usize,
    mid: VersionTable<E>,
    later: VersionTable<E>,
)
    requires
        t.after_reads(max_depth, mid),
        mid.after_reads(max_depth, later),
    ensures
        forall|id: u64| #[trigger]
            super::cache::cached(later.property_cache).contains_key(id) ==> t.may_read(
                id,
                max_depth,
                Ok(super::cache::cached(later.property_cache)[id]),
            ),
{
    assert forall|id: u64| #[trigger]
        super::cache::cached(later.property_cache).contains_key(id) implies t.may_read(
        id,
        max_depth,
        Ok(super::cache::cached(later.property_cache)[id]),
    ) by {
        t.lemma_may_read_after_reads(
            max_depth,
            mid,
            id,
            Ok(super::cache::cached(later.property_cache)[id]),
        );
    }
}

/// The versions in memory among the given ones whose recorded time is not empty.
pub open spec fn committed_ids<E>(m: Map<u64, EntityVersion<E>>, ids: Seq<u64>) -> Seq<u64>
    decreases ids.len(),
{
    if ids.len() == 0 {
        Seq::empty()
    } else {
        let before = committed_ids(m, ids.drop_last());
        let id = ids.last();
        if m.contains_key(id) && m[id].temporal.transaction_time.has(
            m[id].temporal.transaction_time.start,
        ) {
            before.push(id)
        } else {
            before
        }
    }
}

/// How many of the versions are deltas.
pub open spec fn deltas_among<E>(m: Map<u64, EntityVersion<E>>, ids: Seq<u64>) -> nat
    decreases ids.len(),
{
    if ids.len() == 0 {
        0
    } else {
        deltas_among(m, ids.drop_last()) + if m[ids.last()].anchored() {
            0nat
        } else {
            1
        }
    }
}

impl<E: Copy> VersionTable<E> {
    fn push_committed(
        &mut self,
        ids: &Vec<u64>,
        max_depth: usize,
        meters: &mut Meters,
        out: &mut Vec<RawChange>,
    )
        ensures
            ({
                let found = committed_ids(old(self).versions@, ids@);
                let start = old(out)@.len() as int;
                &&& final(out)@.len() == start + found.len()
                &&& forall|i: int| 0 <= i < start ==> final(out)@[i] == old(out)@[i]
                &&& forall|i: int|
                    0 <= i < found.len() ==> change_of(
                        old(self).kind,
                        old(self).versions@[found[i]],
                        final(out)@[start + i],
                    ) && old(self).may_place(
                        #[trigger] found[i],
                        max_depth,
                        final(out)@[start + i].namespace@,
                    )
            }),
            old(self).after_reads(max_depth, *final(self)),
            final(meters).hooks == old(meters).hooks,
            forall|start: CacheMetrics, n: nat| #[trigger]
                start.after_lookups(n, old(meters).cache) ==> start.after_lookups(
                    n + deltas_among(
                        old(self).versions@,
                        committed_ids(old(self).versions@, ids@),
                    ),
                    final(meters).cache,
                ),
    {
        let ghost start = out@.len() as int;
        let ghost m = self.versions@;
        let mut i: usize = 0;
        while i < ids.len()
            invariant
                i <= ids.len(),
                m == old(self).versions@,
                start == old(out)@.len(),
                old(self).after_reads(max_depth, *self),
                meters.hooks == old(meters).hooks,
                forall|begin: CacheMetrics, n: nat| #[trigger]
                    begin.after_lookups(n, old(meters).cache) ==> begin.after_lookups(
                        n + deltas_among(m, committed_ids(m, ids@.take(i as int))),
                        meters.cache,
                    ),
                out@.len() == start + committed_ids(m, ids@.take(i as int)).len(),
                forall|j: int| 0 <= j < start ==> out@[j] == old(out)@[j],
                forall|j: int|
                    0 <= j < committed_ids(m, ids@.take(i as int)).len() ==> change_of(
                        old(self).kind,
                        m[committed_ids(m, ids@.take(i as int))[j]],
                        out@[start + j],
                    ) && old(self).may_place(
                        #[trigger] committed_ids(m, ids@.take(i as int))[j],
                        max_depth,
                        out@[start + j].namespace@,
                    ),
            decreases ids.len() - i,
        {
            let id: u64 = ids[i];
            assert(ids@.take(i + 1).drop_last() =~= ids@.take(i as int));
            assert(ids@.take(i + 1).last() == id);
            let recorded = match self.versions.get(&id) {
                Some(v) => v.temporal.transaction_time.contains(v.temporal.transaction_time.start),
                None => false,
            };
            if recorded {
                let ghost mid = *self;
                proof {
                    let done = committed_ids(m, ids@.take(i as int));
                    assert(done.push(id).drop_last() =~= done);
                    if !m[id].anchored() {
                        assert forall|begin: CacheMetrics, n: nat| #[trigger]
                            begin.after_lookups(n, old(meters).cache) implies begin.after_lookups(
                            n + deltas_among(m, done.push(id)),
                            meters.cache.served(mid.service_of(id)),
                        ) by {
                            begin.lemma_next_lookup(
                                n + deltas_among(m, done),
                                meters.cache,
                                mid.service_of(id),
                            );
                        }
                    }
                }
                if let Some(c) = self.change(id, max_depth, meters) {
                    proof {
                        old(self).lemma_may_place_after_reads(max_depth, mid, id, c.namespace@);
                        old(self).lemma_reads_in_turn(max_depth, mid, *self);
                    }
                    out.push(c);
                }
            }
            i = i + 1;
        }
        assert(ids@.take(i as int) =~= ids@);
    }
}

/// How many of the changes have a namespace that is to be read again.
pub open spec fn unresolved_among(changes: Seq<RawChange>) -> nat
    decreases changes.len(),
{
    if changes.len() == 0 {
        0
    } else {
        unresolved_among(changes.drop_last()) + if changes.last().namespace@
            == NamespaceView::Unresolved && changes.last().cursor.version <= MAX_VALID_ID {
            1nat
        } else {
            0
        }
    }
}

impl HistoricalStorage {
    /// Reads changed nothing but the caches and counters that go with them.
    pub open spec fn after_any_reads(self, after: HistoricalStorage) -> bool {
        &&& self.nodes.after_reads(self.max_reconstruction_depth, after.nodes)
        &&& self.edges.after_reads(self.max_reconstruction_depth, after.edges)
        &&& after.adjacency == self.adjacency
        &&& after.meters.hooks == self.meters.hooks
        &&& after.same_settings(self)
    }

    /// The version with the key is a delta.
    pub open spec fn is_delta(self, key: ChangeKey) -> bool {
        match key.cursor.kind {
            EntityKind::Node => !self.nodes.versions@[key.id].anchored(),
            EntityKind::Edge => !self.edges.versions@[key.id].anchored(),
        }
    }

    /// How many of the keys are those of deltas.
    pub open spec fn delta_keys(self, keys: Seq<ChangeKey>) -> nat
        decreases keys.len(),
    {
        if keys.len() == 0 {
            0
        } else {
            self.delta_keys(keys.drop_last()) + if self.is_delta(keys.last()) {
                1nat
            } else {
                0
            }
        }
    }

    /// The change is that of the version with the key.
    pub open spec fn shows_change(self, key: ChangeKey, c: RawChange) -> bool {
        match key.cursor.kind {
            EntityKind::Node => {
                &&& change_of(EntityKind::Node, self.nodes.versions@[key.id], c)
                &&& self.nodes.may_place(key.id, self.max_reconstruction_depth, c.namespace@)
            },
            EntityKind::Edge => {
                &&& change_of(EntityKind::Edge, self.edges.versions@[key.id], c)
                &&& self.edges.may_place(key.id, self.max_reconstruction_depth, c.namespace@)
            },
        }
    }

    /// The keys of all changes that the filter admits, in the order of the feed.
    pub open spec fn feed(self, f: ChangeFilter, order: Seq<ChangeKey>) -> bool {
        &&& ascending(order)
        &&& exists|a: Seq<ChangeKey>, b: Seq<ChangeKey>|
            #![trigger self.nodes.keys_admitted(f, a), self.edges.keys_admitted(f, b)]
            self.nodes.keys_admitted(f, a) && self.edges.keys_admitted(f, b)
                && order.to_multiset() == (a + b).to_multiset()
    }

    /// The changes that the filter admits, in the order of the feed, at most `bound` of them.
    pub fn collect_changes(&mut self, filter: &ChangeFilter, bound: usize) -> (r: Vec<RawChange>)
        requires
            old(self).nodes.kind == EntityKind::Node,
            old(self).edges.kind == EntityKind::Edge,
        ensures
            exists|order: Seq<ChangeKey>| #[trigger]
                old(self).feed(*filter, order) && r@.len() == (if order.len() <= bound {
                    order.len()
                } else {
                    bound as nat
                }) && (forall|i: int|
                    0 <= i < r@.len() ==> old(self).shows_change(order[i], #[trigger] r@[i]))
                    && old(self).meters.cache.after_lookups(
                    old(self).delta_keys(order.take(r@.len() as int)),
                    final(self).meters.cache,
                ),
            old(self).after_any_reads(*final(self)),
    {
        let max_depth: usize = self.max_reconstruction_depth;
        let mut keys = self.nodes.admitted_keys(filter);
        let mut edge_keys = self.edges.admitted_keys(filter);
        let ghost (a, b) = (keys@, edge_keys@);
        keys.append(&mut edge_keys);
        assert(keys@ =~= a + b);
        let order = sorted(&keys);
        assert(self.feed(*filter, order@)) by {
            assert(self.nodes.keys_admitted(*filter, a));
            assert(self.edges.keys_admitted(*filter, b));
        }
        proof {
            assert forall|i: int| 0 <= i < order@.len() implies match (
            #[trigger] order@[i]).cursor.kind {
                EntityKind::Node => self.nodes.versions@.contains_key(order@[i].id),
                EntityKind::Edge => self.edges.versions@.contains_key(order@[i].id),
            } by {
                broadcast use vstd::seq_lib::group_to_multiset_ensures;

                assert(order@.contains(order@[i]));
                assert(order@.to_multiset().count(order@[i]) > 0);
                assert(keys@.contains(order@[i]));
                let k = choose|k: int| 0 <= k < keys@.len() && keys@[k] == order@[i];
                if k < a.len() {
                    assert(a[k] == order@[i]);
                } else {
                    assert(b[k - a.len()] == order@[i]);
                }
            }
        }
        let mut out: Vec<RawChange> = Vec::new();
        proof {
            self.meters.cache.lemma_no_lookup();
        }
        let mut i: usize = 0;
        while i < order.len() && i < bound
            invariant
                i <= order.len(),
                i <= bound,
                out@.len() == i,
                max_depth == old(self).max_reconstruction_depth,
                old(self).nodes.kind == EntityKind::Node,
                old(self).edges.kind == EntityKind::Edge,
                old(self).after_any_reads(*self),
                old(self).meters.cache.after_lookups(
                    old(self).delta_keys(order@.take(i as int)),
                    self.meters.cache,
                ),
                forall|j: int|
                    0 <= j < order@.len() ==> match (#[trigger] order@[j]).cursor.kind {
                        EntityKind::Node => old(self).nodes.versions@.contains_key(order@[j].id),
                        EntityKind::Edge => old(self).edges.versions@.contains_key(order@[j].id),
                    },
                forall|j: int|
                    0 <= j < i ==> old(self).shows_change(order@[j], #[trigger] out@[j]),
            decreases order.len() - i,
        {
            let key: ChangeKey = order[i];
            let ghost mid = *self;
            proof {
                assert(order@.take(i + 1).drop_last() =~= order@.take(i as int));
                assert(order@.take(i + 1).last() == key);
                let service = match key.cursor.kind {
                    EntityKind::Node => mid.nodes.service_of(key.id),
                    EntityKind::Edge => mid.edges.service_of(key.id),
                };
                old(self).meters.cache.lemma_next_lookup(
                    old(self).delta_keys(order@.take(i as int)),
                    self.meters.cache,
                    service,
                );
            }
            let change = match key.cursor.kind {
                EntityKind::Node => self.nodes.change(key.id, max_depth, &mut self.meters),
                EntityKind::Edge => self.edges.change(key.id, max_depth, &mut self.meters),
            };
            if let Some(c) = change {
                proof {
                    match key.cursor.kind {
                        EntityKind::Node => {
                            old(self).nodes.lemma_may_place_after_reads(
                                max_depth,
                                mid.nodes,
                                key.id,
                                c.namespace@,
                            );
                            old(self).nodes.lemma_reads_in_turn(max_depth, mid.nodes, self.nodes);
                        },
                        EntityKind::Edge => {
                            old(self).edges.lemma_may_place_after_reads(
                                max_depth,
                                mid.edges,
                                key.id,
                                c.namespace@,
                            );
                            old(self).edges.lemma_reads_in_turn(max_depth, mid.edges, self.edges);
                        },
                    }
                }
                out.push(c);
            }
            i = i + 1;
        }
        out
    }

    /// The changes that the given versions are: those of nodes, then those of edges, each in the
    /// order given. Versions that are not in memory are left out.
    pub fn collect_committed_changes(
        &mut self,
        node_version_ids: &Vec<u64>,
        edge_version_ids: &Vec<u64>,
    ) -> (r: Vec<RawChange>)
        ensures
            ({
                let nodes = committed_ids(old(self).nodes.versions@, node_version_ids@);
                let edges = committed_ids(old(self).edges.versions@, edge_version_ids@);
                let depth = old(self).max_reconstruction_depth;
                &&& r@.len() == nodes.len() + edges.len()
                &&& forall|i: int|
                    0 <= i < nodes.len() ==> change_of(
                        old(self).nodes.kind,
                        old(self).nodes.versions@[nodes[i]],
                        r@[i],
                    ) && old(self).nodes.may_place(#[trigger] nodes[i], depth, r@[i].namespace@)
                &&& forall|i: int|
                    0 <= i < edges.len() ==> change_of(
                        old(self).edges.kind,
                        old(self).edges.versions@[edges[i]],
                        r@[nodes.len() + i],
                    ) && old(self).edges.may_place(
                        #[trigger] edges[i],
                        depth,
                        r@[nodes.len() + i].namespace@,
                    )
            }),
            old(self).after_any_reads(*final(self)),
            old(self).meters.cache.after_lookups(
                deltas_among(
                    old(self).nodes.versions@,
                    committed_ids(old(self).nodes.versions@, node_version_ids@),
                ) + deltas_among(
                    old(self).edges.versions@,
                    committed_ids(old(self).edges.versions@, edge_version_ids@),
                ),
                final(self).meters.cache,
            ),
    {
        let max_depth: usize = self.max_reconstruction_depth;
        let mut out: Vec<RawChange> = Vec::new();
        proof {
            self.meters.cache.lemma_no_lookup();
        }
        self.nodes.push_committed(node_version_ids, max_depth, &mut self.meters, &mut out);
        let ghost nodes = committed_ids(old(self).nodes.versions@, node_version_ids@);
        let ghost so_far = out@;
        assert(so_far.len() == nodes.len());
        assert forall|i: int| 0 <= i < nodes.len() implies change_of(
            old(self).nodes.kind,
            old(self).nodes.versions@[nodes[i]],
            so_far[i],
        ) && old(self).nodes.may_place(#[trigger] nodes[i], max_depth, so_far[i].namespace@) by {
            assert(so_far[0 + i] == so_far[i]);
        }
        self.edges.push_committed(edge_version_ids, max_depth, &mut self.meters, &mut out);
        assert forall|i: int| 0 <= i < nodes.len() implies out@[i] == so_far[i] by {}
        out
    }

    /// Reads again the namespace of the changes whose namespace could not be read. Those that
    /// still cannot be read stay where nobody reads.
    pub fn resolve_unresolved_namespaces(&mut self, changes: &mut Vec<RawChange>)
        ensures
            final(changes)@.len() == old(changes)@.len(),
            forall|i: int|
                0 <= i < final(changes)@.len() ==> {
                    let before = old(changes)@[i];
                    let after = #[trigger] final(changes)@[i];
                    &&& after.cursor == before.cursor
                    &&& after.valid_time == before.valid_time
                    &&& after.label == before.label
                    &&& after.created == before.created
                    &&& if before.namespace@ == NamespaceView::Unresolved && before.cursor.version
                        <= MAX_VALID_ID {
                        match before.cursor.kind {
                            EntityKind::Node => old(self).nodes.may_place_by_read(
                                before.cursor.version,
                                old(self).max_reconstruction_depth,
                                after.namespace@,
                            ),
                            EntityKind::Edge => old(self).edges.may_place_by_read(
                                before.cursor.version,
                                old(self).max_reconstruction_depth,
                                after.namespace@,
                            ),
                        }
                    } else {
                        after.namespace@ == before.namespace@
                    }
                },
            old(self).after_any_reads(*final(self)),
            old(self).meters.cache.after_lookups(
                unresolved_among(old(changes)@),
                final(self).meters.cache,
            ),
    {
        let max_depth: usize = self.max_reconstruction_depth;
        let ghost all = changes@;
        proof {
            self.meters.cache.lemma_no_lookup();
        }
        let mut i: usize = 0;
        while i < changes.len()
            invariant
                i <= changes.len(),
                changes@.len() == all.len(),
                all == old(changes)@,
                max_depth == old(self).max_reconstruction_depth,
                old(self).after_any_reads(*self),
                old(self).meters.cache.after_lookups(
                    unresolved_among(all.take(i as int)),
                    self.meters.cache,
                ),
                forall|j: int| i <= j < all.len() ==> changes@[j] == all[j],
                forall|j: int|
                    0 <= j < i ==> {
                        let before = all[j];
                        let after = #[trigger] changes@[j];
                        &&& after.cursor == before.cursor
                        &&& after.valid_time == before.valid_time
                        &&& after.label == before.label
                        &&& after.created == before.created
                        &&& if before.namespace@ == NamespaceView::Unresolved
                            && before.cursor.version <= MAX_VALID_ID {
                            match before.cursor.kind {
                                EntityKind::Node => old(self).nodes.may_place_by_read(
                                    before.cursor.version,
                                    max_depth,
                                    after.namespace@,
                                ),
                                EntityKind::Edge => old(self).edges.may_place_by_read(
                                    before.cursor.version,
                                    max_depth,
                                    after.namespace@,
                                ),
                            }
                        } else {
                            after.namespace@ == before.namespace@
                        }
                    },
            decreases changes.len() - i,
        {
            let cursor = changes[i].cursor;
            proof {
                assert(all.take(i + 1).drop_last() =~= all.take(i as int));
                assert(all.take(i + 1).last() == all[i as int]);
            }
            let unresolved = match &changes[i].namespace {
                Namespace::Unresolved => true,
                _ => false,
            };
            if unresolved && cursor.version <= MAX_VALID_ID {
                let ghost mid = *self;
                proof {
                    let service = match cursor.kind {
                        EntityKind::Node => mid.nodes.service_of(cursor.version),
                        EntityKind::Edge => mid.edges.service_of(cursor.version),
                    };
                    old(self).meters.cache.lemma_next_lookup(
                        unresolved_among(all.take(i as int)),
                        self.meters.cache,
                        service,
                    );
                }
                let namespace = match cursor.kind {
                    EntityKind::Node => self.nodes.read_namespace(
                        cursor.version,
                        max_depth,
                        &mut self.meters,
                    ),
                    EntityKind::Edge => self.edges.read_namespace(
                        cursor.version,
                        max_depth,
                        &mut self.meters,
                    ),
                };
                proof {
                    match cursor.kind {
                        EntityKind::Node => {
                            old(self).nodes.lemma_may_place_after_reads(
                                max_depth,
                                mid.nodes,
                                cursor.version,
                                namespace@,
                            );
                            old(self).nodes.lemma_reads_in_turn(max_depth, mid.nodes, self.nodes);
                        },
                        EntityKind::Edge => {
                            old(self).edges.lemma_may_place_after_reads(
                                max_depth,
                                mid.edges,
                                cursor.version,
                                namespace@,
                            );
                            old(self).edges.lemma_reads_in_turn(max_depth, mid.edges, self.edges);
                        },
                    }
                }
                let change = RawChange {
                    cursor,
                    valid_time: changes[i].valid_time,
                    label: changes[i].label,
                    created: changes[i].created,
                    namespace,
                };
                changes.set(i, change);
            }
            i = i + 1;
        }
        assert(all.take(i as int) =~= all);
    }
}

/// A version whose properties cannot be read is never placed in the default namespace.
pub proof fn law_unreadable_is_not_default<E>(
    t: VersionTable<E>,
    id: u64,
    max_depth: usize,
    n: NamespaceView,
)
    requires
        !t.versions@[id].anchored(),
        t.may_place(id, max_depth, n),
        forall|p: Properties| !#[trigger] t.may_read(id, max_depth, Ok(p)),
    ensures
        n == NamespaceView::Unresolved,
{
}

impl ChangeCursor {
    /// One position comes before another: by the moment of its commit, then nodes before edges,
    /// then by entity, then by version.
    pub open spec fn precedes(self, other: ChangeCursor) -> bool {
        let (a, b) = (self.commit_timestamp, other.commit_timestamp);
        if a.wallclock != b.wallclock {
            a.wallclock < b.wallclock
        } else if a.logical != b.logical {
            a.logical < b.logical
        } else if self.kind != other.kind {
            self.kind == EntityKind::Node
        } else if self.entity != other.entity {
            self.entity < other.entity
        } else {
            self.version < other.version
        }
    }
}

/// Positions are ranked in the order of the feed, and no two have the same rank.
pub proof fn law_feed_order(a: ChangeCursor, b: ChangeCursor)
    ensures
        a.rank() < b.rank() <==> a.precedes(b),
        a.rank() == b.rank() <==> a == b,
{
    lemma_timestamp_order(a.commit_timestamp, b.commit_timestamp);
}

proof fn lemma_admitted<E>(f: ChangeFilter, kind: EntityKind, v: EntityVersion<E>)
    ensures
        f.admits(kind, v) <==> {
            &&& f.tx_window.start.key() <= cursor_of(kind, v).commit_timestamp.key()
            &&& cursor_of(kind, v).commit_timestamp.key() < f.tx_window.end.key()
            &&& f.valid_window matches Some(w) ==> {
                let valid = v.temporal.valid_time;
                ||| valid.start.key() < w.end.key() && w.start.key() < valid.end.key()
                ||| valid.start == valid.end && w.start.key() <= valid.start.key()
                    && valid.start.key() < w.end.key()
            }
            &&& f.label matches Some(l) ==> v.label == l
            &&& f.resume_after matches Some(c) ==> c.precedes(cursor_of(kind, v))
        },
{
    lemma_timestamp_order(v.temporal.valid_time.start, v.temporal.valid_time.end);
    if let Some(c) = f.resume_after {
        law_feed_order(c, cursor_of(kind, v));
    }
}

proof fn lemma_feed_members(s: HistoricalStorage, f: ChangeFilter, order: Seq<ChangeKey>)
    requires
        s.nodes.kind == EntityKind::Node,
        s.edges.kind == EntityKind::Edge,
        s.feed(f, order),
    ensures
        order.no_duplicates(),
        forall|key: ChangeKey| #[trigger]
            order.contains(key) ==> match key.cursor.kind {
                EntityKind::Node => s.nodes.versions@.contains_key(key.id) && key.cursor
                    == cursor_of(EntityKind::Node, s.nodes.versions@[key.id]) && f.admits(
                    EntityKind::Node,
                    s.nodes.versions@[key.id],
                ),
                EntityKind::Edge => s.edges.versions@.contains_key(key.id) && key.cursor
                    == cursor_of(EntityKind::Edge, s.edges.versions@[key.id]) && f.admits(
                    EntityKind::Edge,
                    s.edges.versions@[key.id],
                ),
            },
        forall|id: u64| #[trigger]
            s.nodes.versions@.contains_key(id) && f.admits(EntityKind::Node, s.nodes.versions@[id])
                ==> order.contains(
                ChangeKey { cursor: cursor_of(EntityKind::Node, s.nodes.versions@[id]), id },
            ),
        forall|id: u64| #[trigger]
            s.edges.versions@.contains_key(id) && f.admits(EntityKind::Edge, s.edges.versions@[id])
                ==> order.contains(
                ChangeKey { cursor: cursor_of(EntityKind::Edge, s.edges.versions@[id]), id },
            ),
{
    broadcast use vstd::seq_lib::group_to_multiset_ensures;

    let (a, b) = choose|a: Seq<ChangeKey>, b: Seq<ChangeKey>|
        #![trigger s.nodes.keys_admitted(f, a), s.edges.keys_admitted(f, b)]
        s.nodes.keys_admitted(f, a) && s.edges.keys_admitted(f, b) && order.to_multiset() == (a
            + b).to_multiset();
    let both = a + b;
    assert forall|key: ChangeKey| order.contains(key) <==> #[trigger] both.contains(key) by {
        assert(order.to_multiset().count(key) > 0 <==> order.contains(key));
        assert(both.to_multiset().count(key) > 0 <==> both.contains(key));
    }
    assert(both.no_duplicates()) by {
        assert forall|i: int, j: int| 0 <= i < both.len() && 0 <= j < both.len() && i != j implies both[i]
            != both[j] by {
            if i < a.len() && j >= a.len() {
                assert(a[i].cursor.kind == EntityKind::Node);
                assert(b[j - a.len()].cursor.kind == EntityKind::Edge);
            } else if j < a.len() && i >= a.len() {
                assert(a[j].cursor.kind == EntityKind::Node);
                assert(b[i - a.len()].cursor.kind == EntityKind::Edge);
            }
        }
    }
    both.lemma_multiset_has_no_duplicates();
    order.lemma_multiset_has_no_duplicates_conv();
    assert forall|key: ChangeKey| #[trigger] order.contains(key) implies match key.cursor.kind {
        EntityKind::Node => s.nodes.versions@.contains_key(key.id) && key.cursor == cursor_of(
            EntityKind::Node,
            s.nodes.versions@[key.id],
        ) && f.admits(EntityKind::Node, s.nodes.versions@[key.id]),
        EntityKind::Edge => s.edges.versions@.contains_key(key.id) && key.cursor == cursor_of(
            EntityKind::Edge,
            s.edges.versions@[key.id],
        ) && f.admits(EntityKind::Edge, s.edges.versions@[key.id]),
    } by {
        assert(both.contains(key));
        let k = choose|k: int| 0 <= k < both.len() && both[k] == key;
        if k < a.len() {
            assert(a[k] == key);
        } else {
            assert(b[k - a.len()] == key);
        }
    }
    assert forall|id: u64| #[trigger]
        s.nodes.versions@.contains_key(id) && f.admits(
            EntityKind::Node,
            s.nodes.versions@[id],
        ) implies order.contains(
        ChangeKey { cursor: cursor_of(EntityKind::Node, s.nodes.versions@[id]), id },
    ) by {
        let key = ChangeKey { cursor: cursor_of(EntityKind::Node, s.nodes.versions@[id]), id };
        assert(a.contains(key));
        let k = choose|k: int| 0 <= k < a.len() && a[k] == key;
        assert(both[k] == key);
        assert(both.contains(key));
    }
    assert forall|id: u64| #[trigger]
        s.edges.versions@.contains_key(id) && f.admits(
            EntityKind::Edge,
            s.edges.versions@[id],
        ) implies order.contains(
        ChangeKey { cursor: cursor_of(EntityKind::Edge, s.edges.versions@[id]), id },
    ) by {
        let key = ChangeKey { cursor: cursor_of(EntityKind::Edge, s.edges.versions@[id]), id };
        assert(b.contains(key));
        let k = choose|k: int| 0 <= k < b.len() && b[k] == key;
        assert(both[a.len() + k] == key);
        assert(both.contains(key));
    }
}

/// Every change that is collected was asked for: it became known in the window of transaction time;
/// it shares a moment with the window of valid time, or holds at no moment and lies at one of the
/// window's; it has the label; it comes behind the position to resume after. And it is that of a
/// version in memory.
pub proof fn law_collected_changes_were_asked_for(
    s: HistoricalStorage,
    f: ChangeFilter,
    order: Seq<ChangeKey>,
    r: Seq<RawChange>,
    i: int,
)
    requires
        s.nodes.kind == EntityKind::Node,
        s.edges.kind == EntityKind::Edge,
        s.feed(f, order),
        r.len() <= order.len(),
        forall|j: int| 0 <= j < r.len() ==> s.shows_change(order[j], #[trigger] r[j]),
        0 <= i < r.len(),
    ensures
        f.tx_window.start.key() <= r[i].cursor.commit_timestamp.key(),
        r[i].cursor.commit_timestamp.key() < f.tx_window.end.key(),
        f.valid_window matches Some(w) ==> {
            let valid = r[i].valid_time;
            ||| valid.start.key() < w.end.key() && w.start.key() < valid.end.key()
            ||| valid.start == valid.end && w.start.key() <= valid.start.key()
                && valid.start.key() < w.end.key()
        },
        f.label matches Some(l) ==> r[i].label == l,
        f.resume_after matches Some(c) ==> c.precedes(r[i].cursor),
        match r[i].cursor.kind {
            EntityKind::Node => exists|id: u64|
                {
                    let v = s.nodes.versions@[id];
                    &&& #[trigger] s.nodes.versions@.contains_key(id)
                    &&& r[i].cursor.commit_timestamp == v.temporal.transaction_time.start
                    &&& r[i].cursor.entity == v.entity
                    &&& r[i].cursor.version == v.id
                    &&& r[i].valid_time == v.temporal.valid_time
                    &&& r[i].label == v.label
                    &&& r[i].created <==> v.prev_version is None
                },
            EntityKind::Edge => exists|id: u64|
                {
                    let v = s.edges.versions@[id];
                    &&& #[trigger] s.edges.versions@.contains_key(id)
                    &&& r[i].cursor.commit_timestamp == v.temporal.transaction_time.start
                    &&& r[i].cursor.entity == v.entity
                    &&& r[i].cursor.version == v.id
                    &&& r[i].valid_time == v.temporal.valid_time
                    &&& r[i].label == v.label
                    &&& r[i].created <==> v.prev_version is None
                },
        },
{
    lemma_feed_members(s, f, order);
    let key = order[i];
    assert(order.contains(key));
    assert(s.shows_change(order[i], r[i]));
    match key.cursor.kind {
        EntityKind::Node => {
            lemma_admitted(f, EntityKind::Node, s.nodes.versions@[key.id]);
            assert(s.nodes.versions@.contains_key(key.id));
        },
        EntityKind::Edge => {
            lemma_admitted(f, EntityKind::Edge, s.edges.versions@[key.id]);
            assert(s.edges.versions@.contains_key(key.id));
        },
    }
}

/// Every version in memory that is asked for is collected, unless as many changes as were allowed
/// come before it in the feed.
pub proof fn law_what_is_asked_for_is_collected(
    s: HistoricalStorage,
    f: ChangeFilter,
    bound: usize,
    order: Seq<ChangeKey>,
    r: Seq<RawChange>,
    kind: EntityKind,
    id: u64,
)
    requires
        s.nodes.kind == EntityKind::Node,
        s.edges.kind == EntityKind::Edge,
        s.feed(f, order),
        r.len() == (if order.len() <= bound {
            order.len()
        } else {
            bound as nat
        }),
        forall|j: int| 0 <= j < r.len() ==> s.shows_change(order[j], #[trigger] r[j]),
        match kind {
            EntityKind::Node => s.nodes.versions@.contains_key(id),
            EntityKind::Edge => s.edges.versions@.contains_key(id),
        },
    ensures
        ({
            let (time, entity, version, label) = match kind {
                EntityKind::Node => {
                    let v = s.nodes.versions@[id];
                    (v.temporal, v.entity, v.id, v.label)
                },
                EntityKind::Edge => {
                    let v = s.edges.versions@[id];
                    (v.temporal, v.entity, v.id, v.label)
                },
            };
            let cursor = ChangeCursor {
                commit_timestamp: time.transaction_time.start,
                kind,
                entity,
                version,
            };
            ({
                &&& f.tx_window.start.key() <= cursor.commit_timestamp.key()
                &&& cursor.commit_timestamp.key() < f.tx_window.end.key()
                &&& f.valid_window matches Some(w) ==> {
                    ||| time.valid_time.start.key() < w.end.key() && w.start.key() < time.valid_time.end.key()
                    ||| time.valid_time.start == time.valid_time.end && w.start.key() <= time.valid_time.start.key()
                        && time.valid_time.start.key() < w.end.key()
                }
                &&& f.label matches Some(l) ==> label == l
                &&& f.resume_after matches Some(c) ==> c.precedes(cursor)
            }) ==> {
                ||| exists|i: int| 0 <= i < r.len() && (#[trigger] r[i]).cursor == cursor
                ||| r.len() == bound && forall|i: int|
                    0 <= i < r.len() ==> (#[trigger] r[i]).cursor.precedes(cursor)
            }
        }),
{
    lemma_feed_members(s, f, order);
    let cursor = match kind {
        EntityKind::Node => cursor_of(kind, s.nodes.versions@[id]),
        EntityKind::Edge => cursor_of(kind, s.edges.versions@[id]),
    };
    let admitted = match kind {
        EntityKind::Node => f.admits(kind, s.nodes.versions@[id]),
        EntityKind::Edge => f.admits(kind, s.edges.versions@[id]),
    };
    match kind {
        EntityKind::Node => lemma_admitted(f, kind, s.nodes.versions@[id]),
        EntityKind::Edge => lemma_admitted(f, kind, s.edges.versions@[id]),
    }
    if admitted {
        let key = ChangeKey { cursor, id };
        assert(order.contains(key));
        let k = choose|k: int| 0 <= k < order.len() && order[k] == key;
        if k < r.len() {
            assert(s.shows_change(order[k], r[k]));
            assert(r[k].cursor == cursor);
        } else if exists|i: int| 0 <= i < r.len() && (#[trigger] r[i]).cursor == cursor {
        } else {
            assert forall|i: int| 0 <= i < r.len() implies (#[trigger] r[i]).cursor.precedes(cursor) by {
                assert(s.shows_change(order[i], r[i]));
                assert(order.contains(order[i]));
                assert(r[i].cursor == order[i].cursor);
                assert(order[i].rank() <= order[k].rank());
                law_feed_order(r[i].cursor, cursor);
            }
        }
    }
}

/// Collected changes come in the order of the feed; where each version is kept under its own
/// number, no change is collected twice.
pub proof fn law_collected_in_order(
    s: HistoricalStorage,
    f: ChangeFilter,
    order: Seq<ChangeKey>,
    r: Seq<RawChange>,
    i: int,
    j: int,
)
    requires
        s.nodes.kind == EntityKind::Node,
        s.edges.kind == EntityKind::Edge,
        s.feed(f, order),
        r.len() <= order.len(),
        forall|k: int| 0 <= k < r.len() ==> s.shows_change(order[k], #[trigger] r[k]),
        0 <= i < j < r.len(),
    ensures
        r[i].cursor == r[j].cursor || r[i].cursor.precedes(r[j].cursor),
        (forall|id: u64| #[trigger]
            s.nodes.versions@.contains_key(id) ==> s.nodes.versions@[id].id == id) && (forall|id: u64|
         #[trigger]
            s.edges.versions@.contains_key(id) ==> s.edges.versions@[id].id == id)
            ==> r[i].cursor.precedes(r[j].cursor),
{
    lemma_feed_members(s, f, order);
    assert(s.shows_change(order[i], r[i]));
    assert(s.shows_change(order[j], r[j]));
    assert(order.contains(order[i]));
    assert(order.contains(order[j]));
    assert(order[i].rank() <= order[j].rank());
    law_feed_order(r[i].cursor, r[j].cursor);
}

/// Of the versions that a transaction recorded, those are told that are in memory and that became
/// known before they ceased to be, in the order given.
pub proof fn law_committed_versions<E>(m: Map<u64, EntityVersion<E>>, ids: Seq<u64>)
    ensures
        committed_ids(m, ids) == ids.filter(
            |id: u64|
                m.contains_key(id) && m[id].temporal.transaction_time.start.key()
                    < m[id].temporal.transaction_time.end.key(),
        ),
    decreases ids.len(),
{
    reveal(Seq::filter);
    if ids.len() > 0 {
        law_committed_versions(m, ids.drop_last());
    }
}

/// An entity is in the namespace that its properties name as a text, and in the default namespace
/// where they name none or something else.
pub proof fn law_namespace_is_the_one_named(properties: Properties, name: Seq<char>)
    ensures
        namespace_in(properties.insert(NAMESPACE_KEY, ValueView::Text(name)))
            == NamespaceView::Named(name),
        namespace_in(properties.remove(NAMESPACE_KEY)) == NamespaceView::Default,
        namespace_in(properties) != NamespaceView::Unresolved,
        properties.contains_key(NAMESPACE_KEY) && !(properties[NAMESPACE_KEY] is Text)
            ==> namespace_in(properties) == NamespaceView::Default,
{
}

/// As many reads are counted as there are deltas among the versions, and as many namespaces are
/// read again as could not be read, among the changes of versions that there can be.
pub proof fn law_reads_that_are_counted<E>(
    m: Map<u64, EntityVersion<E>>,
    ids: Seq<u64>,
    changes: Seq<RawChange>,
)
    ensures
        deltas_among(m, ids) == ids.filter(|id: u64| *m[id].data is Delta).len(),
        unresolved_among(changes) == changes.filter(
            |c: RawChange| c.namespace is Unresolved && c.cursor.version <= MAX_VALID_ID,
        ).len(),
    decreases ids.len() + changes.len(),
{
    reveal(Seq::filter);
    if ids.len() > 0 {
        law_reads_that_are_counted(m, ids.drop_last(), changes);
    }
    if changes.len() > 0 {
        law_reads_that_are_counted(m, ids, changes.drop_last());
    }
}

/// The change that a version is tells when it became known, the kind and number of its entity, its
/// own number, its valid time and its label, and whether it is the first of its entity.
pub proof fn law_committed_change_is_that_of_its_version<E>(
    kind: EntityKind,
    v: EntityVersion<E>,
    c: RawChange,
)
    requires
        change_of(kind, v, c),
    ensures
        c.cursor.commit_timestamp == v.temporal.transaction_time.start,
        c.cursor.kind == kind,
        c.cursor.entity == v.entity,
        c.cursor.version == v.id,
        c.valid_time == v.temporal.valid_time,
        c.label == v.label,
        c.created <==> v.prev_version is None,
{
}

/// Where the properties of a version can be read in one way only, its entity is placed in the
/// namespace that they name, and nowhere else; where they cannot be read, it is placed where nobody
/// reads.
pub proof fn law_placed_by_what_is_read<E>(
    t: VersionTable<E>,
    id: u64,
    max_depth: usize,
    n: NamespaceView,
    properties: Properties,
)
    requires
        t.may_place_by_read(id, max_depth, n),
    ensures
        (forall|p: Properties| #[trigger] t.may_read(id, max_depth, Ok(p)) ==> p == properties)
            && chain_properties(t.tiers(), id, max_depth as nat) is Ok ==> n == namespace_in(properties),
        (forall|p: Properties| !#[trigger] t.may_read(id, max_depth, Ok(p))) ==> n
            == NamespaceView::Unresolved,
{
}

/// Telling the namespace of a version's entity counts as a read exactly if the version is a delta.
pub proof fn law_anchor_is_placed_without_a_read<E>(t: VersionTable<E>, id: u64, m: CacheMetrics)
    ensures
        *t.versions@[id].data is Anchor ==> t.placed_counted(id, m) == m,
        *t.versions@[id].data is Delta ==> t.placed_counted(id, m) == t.read_counted(id, m),
{
}

/// Of the keys, those of deltas are counted, in the table of their kind.
pub proof fn law_delta_keys_are_counted(s: HistoricalStorage, keys: Seq<ChangeKey>)
    ensures
        s.delta_keys(keys) == keys.filter(
            |key: ChangeKey|
                match key.cursor.kind {
                    EntityKind::Node => *s.nodes.versions@[key.id].data is Delta,
                    EntityKind::Edge => *s.edges.versions@[key.id].data is Delta,
                },
        ).len(),
    decreases keys.len(),
{
    reveal(Seq::filter);
    if keys.len() > 0 {
        law_delta_keys_are_counted(s, keys.drop_last());
    }
}

} // verus!

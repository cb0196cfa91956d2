//! The vectors of nodes, by property. How similar two vectors are is not told here: these are the
//! vectors that such a search goes through.

use crate::error::{Error, ErrorView, VectorError};
use crate::ids::NodeId;
use crate::maps::{keys_of, lemma_take_contains, lists_keys};
use crate::property::vectors_equal;
use crate::temporal::Timestamp;
use std::collections::HashMap;
use vstd::prelude::*;

verus! {

broadcast use vstd::std_specs::hash::group_hash_axioms;

/// How the distance of two vectors is measured.
#[derive(Clone, Copy, Debug, PartialEq, Eq, Structural)]
pub enum DistanceMetric {
    /// By the angle between them.
    Cosine,
    /// By the length of their difference.
    Euclidean,
    /// By their inner product.
    DotProduct,
}

/// How a property's vectors are indexed.
#[derive(Clone, Copy, Debug, PartialEq, Eq, Structural)]
pub struct HnswConfig {
    /// How long every vector is.
    pub dimensions: usize,
    /// How distance is measured.
    pub metric: DistanceMetric,
    /// For how many vectors room is made at first.
    pub capacity: usize,
}

impl HnswConfig {
    /// For vectors of the given length.
    pub fn new(dimensions: usize, metric: DistanceMetric) -> (r: HnswConfig)
        ensures
            r == (HnswConfig { dimensions, metric, capacity: 0 }),
    {
        HnswConfig { dimensions, metric, capacity: 0 }
    }

    /// With room for so many vectors.
    pub fn with_capacity(self, capacity: usize) -> (r: HnswConfig)
        ensures
            r == (HnswConfig { capacity, ..self }),
    {
        HnswConfig { capacity, ..self }
    }
}

/// When a snapshot of a property's vectors is taken.
#[derive(Clone, Copy, Debug, PartialEq, Eq, Structural)]
pub enum SnapshotStrategy {
    /// With every so many transactions.
    TransactionInterval(u64),
}

/// Which snapshots are kept.
#[derive(Clone, Copy, Debug, PartialEq, Eq, Structural)]
pub enum RetentionPolicy {
    /// The last so many.
    KeepN(usize),
}

/// How a property's vectors are tracked over time.
#[derive(Clone, Copy, Debug, PartialEq, Eq, Structural)]
pub struct TemporalVectorConfig {
    /// When a snapshot is taken.
    pub snapshot_strategy: SnapshotStrategy,
    /// Which snapshots are kept.
    pub retention_policy: RetentionPolicy,
    /// How many snapshots are kept at most.
    pub max_snapshots: usize,
    /// After how many snapshots one is stored whole, rather than by how it differs from the one
    /// before it. This is about space: a snapshot tells the same either way.
    pub full_snapshot_interval: usize,
    /// How vectors are indexed.
    pub hnsw_config: Option<HnswConfig>,
}

impl TemporalVectorConfig {
    /// How many snapshots are kept.
    pub open spec fn limit(self) -> nat {
        let RetentionPolicy::KeepN(n) = self.retention_policy;
        if n < self.max_snapshots {
            n as nat
        } else {
            self.max_snapshots as nat
        }
    }

    /// A transaction brings a snapshot, if so many came before it without one.
    pub open spec fn due(self, pending: u64) -> bool {
        let SnapshotStrategy::TransactionInterval(n) = self.snapshot_strategy;
        n == 0 || pending >= n - 1
    }

    /// How many snapshots are kept.
    fn kept(&self) -> (r: usize)
        ensures
            r == self.limit(),
    {
        let RetentionPolicy::KeepN(n) = self.retention_policy;
        if n < self.max_snapshots {
            n
        } else {
            self.max_snapshots
        }
    }

    /// Whether a transaction brings a snapshot, if so many came before it without one.
    fn is_due(&self, pending: u64) -> (r: bool)
        ensures
            r == self.due(pending),
    {
        let SnapshotStrategy::TransactionInterval(n) = self.snapshot_strategy;
        n == 0 || pending >= n - 1
    }
}

/// The vectors as they were when a snapshot was taken.
pub struct SnapshotView {
    /// The latest moment that the snapshot knows of.
    pub at: Timestamp,
    /// The vectors, by node.
    pub vectors: Map<u64, Seq<u32>>,
}

/// The vectors of one property.
pub struct StoreView {
    /// How they are indexed; `None` where vectors of any length may come.
    pub config: Option<HnswConfig>,
    /// The vectors, by node.
    pub vectors: Map<u64, Seq<u32>>,
    /// How they are tracked over time, where they are.
    pub tracking: Option<TemporalVectorConfig>,
    /// The latest moment at which a tracked vector changed.
    pub told: Timestamp,
    /// The snapshots, in the order of taking.
    pub snapshots: Seq<SnapshotView>,
    /// How many transactions came since the last snapshot.
    pub pending: u64,
}

/// The beginning of time.
pub open spec fn beginning() -> Timestamp {
    Timestamp { wallclock: i64::MIN, logical: 0 }
}

/// The later one of two moments.
pub open spec fn later_of(a: Timestamp, b: Timestamp) -> Timestamp {
    if a.key() < b.key() {
        b
    } else {
        a
    }
}

/// The last `n` of a sequence.
pub open spec fn last_of<T>(s: Seq<T>, n: nat) -> Seq<T> {
    if s.len() <= n {
        s
    } else {
        s.skip(s.len() - n)
    }
}

impl StoreView {
    /// Whether vectors of this length fit.
    pub open spec fn fits(self, len: nat) -> bool {
        self.config is Some ==> self.config->Some_0.dimensions == len
    }

    /// With a vector for the node.
    pub open spec fn with(self, node: u64, vector: Seq<u32>, at: Timestamp, tracked_over_time: bool)
        -> StoreView {
        StoreView {
            vectors: self.vectors.insert(node, vector),
            told: if tracked_over_time {
                later_of(self.told, at)
            } else {
                self.told
            },
            ..self
        }
    }

    /// Without a vector for the node.
    pub open spec fn without(self, node: u64, at: Timestamp, tracked_over_time: bool) -> StoreView {
        StoreView {
            vectors: self.vectors.remove(node),
            told: if tracked_over_time {
                later_of(self.told, at)
            } else {
                self.told
            },
            ..self
        }
    }
}

impl StoreView {
    /// After a transaction: where one is due, a snapshot of the present vectors is taken, as of the
    /// latest moment at which one of them changed, and only as many as may be kept stay.
    pub open spec fn after_transaction(self) -> StoreView {
        match self.tracking {
            None => self,
            Some(config) => if config.due(self.pending) {
                StoreView {
                    snapshots: last_of(
                        self.snapshots.push(SnapshotView { at: self.told, vectors: self.vectors }),
                        config.limit(),
                    ),
                    pending: 0,
                    ..self
                }
            } else {
                StoreView { pending: (self.pending + 1) as u64, ..self }
            },
        }
    }
}

/// No vectors yet, and none that are tracked over time.
pub open spec fn empty_store(config: HnswConfig) -> StoreView {
    StoreView {
        config: Some(config),
        vectors: Map::empty(),
        tracking: None,
        told: beginning(),
        snapshots: Seq::empty(),
        pending: 0,
    }
}

/// No vectors yet, but they are tracked over time.
pub open spec fn empty_track(config: TemporalVectorConfig) -> StoreView {
    StoreView {
        config: config.hnsw_config,
        vectors: Map::empty(),
        tracking: Some(config),
        told: beginning(),
        snapshots: Seq::empty(),
        pending: 0,
    }
}

/// The error where a vector does not fit.
pub open spec fn misfit(config: Option<HnswConfig>, actual: nat) -> ErrorView {
    ErrorView::DimensionMismatch {
        expected: config->Some_0.dimensions,
        actual: actual as usize,
    }
}

/// The vectors of one property.
pub trait VectorStore: Sized {
    /// What it holds.
    spec fn state(&self) -> StoreView;

    /// Whether it remembers what happened.
    spec fn over_time() -> bool;

    /// Gives the node a vector, in place of the one that it had.
    fn put(&mut self, node: NodeId, vector: &Vec<u32>, at: Timestamp) -> (r: Result<(), Error>)
        ensures
            if old(self).state().fits(vector@.len()) {
                &&& r is Ok
                &&& final(self).state() == old(self).state().with(
                    node.0,
                    vector@,
                    at,
                    Self::over_time(),
                )
            } else {
                &&& r is Err
                &&& r->Err_0@ == misfit(old(self).state().config, vector@.len())
                &&& final(self).state() == old(self).state()
            },
    ;

    /// Takes the node's vector away, if it has one.
    fn take_away(&mut self, node: NodeId, at: Timestamp)
        ensures
            final(self).state() == old(self).state().without(node.0, at, Self::over_time()),
    ;
}

/// The vectors that a map holds.
pub open spec fn vectors_held(m: Map<u64, Vec<u32>>) -> Map<u64, Seq<u32>> {
    m.map_values(|v: Vec<u32>| v@)
}

/// A copy of a vector.
pub fn copy_vector(v: &Vec<u32>) -> (r: Vec<u32>)
    ensures
        r@ == v@,
{
    let mut out: Vec<u32> = Vec::new();
    let mut i: usize = 0;
    while i < v.len()
        invariant
            i <= v.len(),
            out@ == v@.take(i as int),
        decreases v.len() - i,
    {
        out.push(v[i]);
        i = i + 1;
        assert(out@ =~= v@.take(i as int));
    }
    assert(v@.take(i as int) =~= v@);
    out
}

/// A copy of vectors, by node.
pub fn copy_vectors(m: &HashMap<u64, Vec<u32>>) -> (r: HashMap<u64, Vec<u32>>)
    ensures
        vectors_held(r@) == vectors_held(m@),
{
    let mut out: HashMap<u64, Vec<u32>> = HashMap::new();
    let nodes: Vec<u64> = keys_of(m);
    let mut i: usize = 0;
    while i < nodes.len()
        invariant
            i <= nodes.len(),
            lists_keys(nodes@, m@),
            forall|node: u64| #[trigger]
                out@.contains_key(node) <==> nodes@.take(i as int).contains(node),
            forall|node: u64| #[trigger] out@.contains_key(node) ==> out@[node]@ == m@[node]@,
        decreases nodes.len() - i,
    {
        proof {
            lemma_take_contains(nodes@, i as int);
        }
        if let Some(vector) = m.get(&nodes[i]) {
            out.insert(nodes[i], copy_vector(vector));
        }
        i = i + 1;
    }
    assert(nodes@.take(i as int) =~= nodes@);
    assert(vectors_held(out@) =~= vectors_held(m@));
    out
}

/// The present vectors of one property.
#[derive(Debug)]
pub struct VectorIndex {
    /// How they are indexed.
    pub config: HnswConfig,
    /// The vectors, by node.
    pub vectors: HashMap<u64, Vec<u32>>,
}

impl VectorIndex {
    /// No vectors yet.
    pub fn new(config: HnswConfig) -> (r: VectorIndex)
        ensures
            r.config == config,
            r.state() == empty_store(config),
    {
        let index = VectorIndex { config, vectors: HashMap::new() };
        assert(vectors_held(index.vectors@) =~= Map::empty());
        index
    }

    /// How many vectors there are.
    pub fn len(&self) -> (r: usize)
        ensures
            r == self.state().vectors.len(),
    {
        assert(self.state().vectors.dom() =~= self.vectors@.dom());
        self.vectors.len()
    }

    /// The vector of a node.
    pub fn get(&self, node: NodeId) -> (r: Option<&Vec<u32>>)
        ensures
            match r {
                Some(v) => self.state().vectors.contains_key(node.0)
                    && self.state().vectors[node.0] == v@,
                None => !self.state().vectors.contains_key(node.0),
            },
    {
        self.vectors.get(&node.0)
    }
}

impl VectorStore for VectorIndex {
    open spec fn state(&self) -> StoreView {
        StoreView {
            config: Some(self.config),
            vectors: vectors_held(self.vectors@),
            tracking: None,
            told: beginning(),
            snapshots: Seq::empty(),
            pending: 0,
        }
    }

    open spec fn over_time() -> bool {
        false
    }

    fn put(&mut self, node: NodeId, vector: &Vec<u32>, at: Timestamp) -> (r: Result<(), Error>)
        ensures
            final(self).config == old(self).config,
    {
        if vector.len() != self.config.dimensions {
            return Err(
                Error::Vector(
                    VectorError::DimensionMismatch {
                        expected: self.config.dimensions,
                        actual: vector.len(),
                    },
                ),
            );
        }
        self.vectors.insert(node.0, copy_vector(vector));
        assert(self.state().vectors =~= old(self).state().vectors.insert(node.0, vector@));
        Ok(())
    }

    fn take_away(&mut self, node: NodeId, at: Timestamp)
        ensures
            final(self).config == old(self).config,
    {
        self.vectors.remove(&node.0);
        assert(self.state().vectors =~= old(self).state().vectors.remove(node.0));
    }
}

/// The vectors as they were when a snapshot was taken.
#[derive(Debug)]
pub struct VectorSnapshot {
    /// The latest moment that the snapshot knows of.
    pub at: Timestamp,
    /// The vectors, by node.
    pub vectors: HashMap<u64, Vec<u32>>,
}

impl View for VectorSnapshot {
    type V = SnapshotView;

    open spec fn view(&self) -> SnapshotView {
        SnapshotView { at: self.at, vectors: vectors_held(self.vectors@) }
    }
}

/// What the snapshots say.
pub open spec fn snapshots_of(snapshots: Seq<VectorSnapshot>) -> Seq<SnapshotView> {
    Seq::new(snapshots.len(), |i: int| snapshots[i]@)
}

/// The vectors of one property, and snapshots of them over time.
#[derive(Debug)]
pub struct TemporalVectorIndex {
    /// How they are tracked.
    pub config: TemporalVectorConfig,
    /// The present vectors, by node.
    pub vectors: HashMap<u64, Vec<u32>>,
    /// The latest moment at which a vector changed.
    pub told: Timestamp,
    /// The snapshots, in the order of taking.
    pub snapshots: Vec<VectorSnapshot>,
    /// How many transactions came since the last snapshot.
    pub pending: u64,
}

impl TemporalVectorIndex {
    /// No vectors yet, and no snapshots.
    pub fn new(config: TemporalVectorConfig) -> (r: TemporalVectorIndex)
        ensures
            r.config == config,
            r.state() == empty_track(config),
    {
        let index = TemporalVectorIndex {
            config,
            vectors: HashMap::new(),
            told: Timestamp { wallclock: i64::MIN, logical: 0 },
            snapshots: Vec::new(),
            pending: 0,
        };
        assert(vectors_held(index.vectors@) =~= Map::empty());
        assert(snapshots_of(index.snapshots@) =~= Seq::empty());
        index
    }

    /// Takes note of a transaction, and takes a snapshot where one is due.
    pub fn on_transaction(&mut self) -> (r: Result<(), Error>)
        ensures
            r is Ok,
            final(self).config == old(self).config,
            final(self).state() == old(self).state().after_transaction(),
    {
        if !self.config.is_due(self.pending) {
            self.pending = self.pending + 1;
            return Ok(());
        }
        let ghost before = self.state().snapshots;
        let vectors = copy_vectors(&self.vectors);
        self.snapshots.push(VectorSnapshot { at: self.told, vectors });
        let ghost all = before.push(
            SnapshotView { at: self.told, vectors: vectors_held(self.vectors@) },
        );
        assert(snapshots_of(self.snapshots@) =~= all);
        let limit: usize = self.config.kept();
        let ghost mut gone: int = 0;
        assert(all.skip(0) =~= all);
        while self.snapshots.len() > limit
            invariant
                0 <= gone <= all.len(),
                limit == self.config.limit(),
                snapshots_of(self.snapshots@) == all.skip(gone),
                self.snapshots@.len() == all.len() - gone,
                gone > 0 ==> all.len() - gone >= limit,
                self.config == old(self).config,
                self.vectors == old(self).vectors,
                self.told == old(self).told,
            decreases self.snapshots.len(),
        {
            let ghost here = self.snapshots@;
            self.snapshots.remove(0);
            proof {
                gone = gone + 1;
                assert(snapshots_of(self.snapshots@) =~= snapshots_of(here).skip(1));
                assert(all.skip(gone - 1).skip(1) =~= all.skip(gone));
            }
        }
        self.pending = 0;
        assert(snapshots_of(self.snapshots@) == last_of(all, limit as nat));
        Ok(())
    }
}

impl VectorStore for TemporalVectorIndex {
    open spec fn state(&self) -> StoreView {
        StoreView {
            config: self.config.hnsw_config,
            vectors: vectors_held(self.vectors@),
            tracking: Some(self.config),
            told: self.told,
            snapshots: snapshots_of(self.snapshots@),
            pending: self.pending,
        }
    }

    open spec fn over_time() -> bool {
        true
    }

    fn put(&mut self, node: NodeId, vector: &Vec<u32>, at: Timestamp) -> (r: Result<(), Error>)
        ensures
            final(self).config == old(self).config,
    {
        if let Some(hnsw) = self.config.hnsw_config {
            if vector.len() != hnsw.dimensions {
                return Err(
                    Error::Vector(
                        VectorError::DimensionMismatch {
                            expected: hnsw.dimensions,
                            actual: vector.len(),
                        },
                    ),
                );
            }
        }
        self.vectors.insert(node.0, copy_vector(vector));
        if self.told.is_before(&at) {
            self.told = at;
        }
        assert(self.state().vectors =~= old(self).state().vectors.insert(node.0, vector@));
        Ok(())
    }

    fn take_away(&mut self, node: NodeId, at: Timestamp)
        ensures
            final(self).config == old(self).config,
    {
        self.vectors.remove(&node.0);
        if self.told.is_before(&at) {
            self.told = at;
        }
        assert(self.state().vectors =~= old(self).state().vectors.remove(node.0));
    }
}

/// The latest snapshot at or before a moment; of several at one moment, the one that was taken
/// last.
pub open spec fn latest_as_of(snapshots: Seq<SnapshotView>, t: Timestamp) -> Option<SnapshotView>
    decreases snapshots.len(),
{
    if snapshots.len() == 0 {
        None
    } else {
        let before = latest_as_of(snapshots.drop_last(), t);
        let last = snapshots.last();
        if last.at.key() > t.key() || (before matches Some(s) && s.at.key() > last.at.key()) {
            before
        } else {
            Some(last)
        }
    }
}

/// As of a moment there is a snapshot exactly if one was taken at or before it, and of those it is
/// one that no other is later than.
pub proof fn law_latest_is_latest(snapshots: Seq<SnapshotView>, t: Timestamp)
    ensures
        latest_as_of(snapshots, t) is None <==> forall|i: int|
            0 <= i < snapshots.len() ==> (#[trigger] snapshots[i]).at.key() > t.key(),
        latest_as_of(snapshots, t) matches Some(s) ==> {
            &&& snapshots.contains(s)
            &&& s.at.key() <= t.key()
            &&& forall|i: int|
                0 <= i < snapshots.len() && (#[trigger] snapshots[i]).at.key() <= t.key()
                    ==> snapshots[i].at.key() <= s.at.key()
        },
    decreases snapshots.len(),
{
    if snapshots.len() > 0 {
        let shorter = snapshots.drop_last();
        let last = snapshots.len() - 1;
        law_latest_is_latest(shorter, t);
        assert forall|i: int| 0 <= i < last implies shorter[i] == #[trigger] snapshots[i] by {}
        assert(snapshots[last] == snapshots.last());
        if latest_as_of(shorter, t) is Some {
            let s = latest_as_of(shorter, t)->0;
            let j = choose|j: int| 0 <= j < shorter.len() && shorter[j] == s;
            assert(snapshots[j] == s);
        }
        if latest_as_of(snapshots, t) is None {
            assert forall|i: int| 0 <= i < snapshots.len() implies (
            #[trigger] snapshots[i]).at.key() > t.key() by {
                if i < last {
                    assert(shorter[i].at.key() > t.key());
                }
            }
        }
        if forall|i: int| 0 <= i < snapshots.len() ==> (#[trigger] snapshots[i]).at.key() > t.key() {
            assert forall|i: int| 0 <= i < shorter.len() implies (
            #[trigger] shorter[i]).at.key() > t.key() by {
                assert(snapshots[i].at.key() > t.key());
            }
        }
    }
}

/// A change shows in no snapshot that was taken before it, whatever the moment.
pub proof fn law_changes_wait_for_a_snapshot(
    store: StoreView,
    node: u64,
    vector: Seq<u32>,
    at: Timestamp,
    t: Timestamp,
)
    ensures
        latest_as_of(store.with(node, vector, at, true).snapshots, t) == latest_as_of(
            store.snapshots,
            t,
        ),
        latest_as_of(store.without(node, at, true).snapshots, t) == latest_as_of(
            store.snapshots,
            t,
        ),
        at.key() <= store.with(node, vector, at, true).told.key(),
        at.key() <= store.without(node, at, true).told.key(),
{
}

/// No snapshot knows of a later moment than the store.
pub open spec fn in_the_past(store: StoreView) -> bool {
    forall|i: int|
        0 <= i < store.snapshots.len() ==> (#[trigger] store.snapshots[i]).at.key()
            <= store.told.key()
}

/// Changes and transactions keep it that no snapshot knows of a later moment than the store, and a
/// store without snapshots begins so.
pub proof fn law_snapshots_stay_in_the_past(
    store: StoreView,
    node: u64,
    vector: Seq<u32>,
    at: Timestamp,
    config: TemporalVectorConfig,
)
    requires
        in_the_past(store),
    ensures
        in_the_past(empty_track(config)),
        in_the_past(store.with(node, vector, at, true)),
        in_the_past(store.without(node, at, true)),
        in_the_past(store.after_transaction()),
{
    let with = store.with(node, vector, at, true);
    let without = store.without(node, at, true);
    assert(with.snapshots == store.snapshots);
    assert(without.snapshots == store.snapshots);
}

/// Once a transaction brings a snapshot, the present vectors show as of the latest change, and of
/// every later moment.
pub proof fn law_snapshot_shows_the_present(store: StoreView, t: Timestamp)
    requires
        store.tracking is Some,
        store.tracking->0.due(store.pending),
        store.tracking->0.limit() > 0,
        in_the_past(store),
        store.told.key() <= t.key(),
    ensures
        latest_as_of(store.after_transaction().snapshots, t) == Some(
            SnapshotView { at: store.told, vectors: store.vectors },
        ),
{
    let after = store.after_transaction().snapshots;
    let shorter = after.drop_last();
    law_latest_is_latest(shorter, t);
    let all = store.snapshots.push(SnapshotView { at: store.told, vectors: store.vectors });
    assert(after.last() == all.last());
    if latest_as_of(shorter, t) is Some {
        let s = latest_as_of(shorter, t)->0;
        let j = choose|j: int| 0 <= j < shorter.len() && shorter[j] == s;
        let skipped = all.len() - after.len();
        assert(after[j] == all[j + skipped]);
        assert(store.snapshots[j + skipped] == s);
    }
}

/// History stays: as long as no snapshot has to go, a transaction changes nothing as of moments
/// before the latest change.
pub proof fn law_history_is_preserved(store: StoreView, t: Timestamp)
    requires
        store.tracking is Some,
        store.snapshots.len() < store.tracking->0.limit(),
        t.key() < store.told.key(),
    ensures
        latest_as_of(store.after_transaction().snapshots, t) == latest_as_of(store.snapshots, t),
{
    let after = store.after_transaction().snapshots;
    if store.tracking->0.due(store.pending) {
        assert(after.drop_last() =~= store.snapshots);
    }
}

/// No more snapshots are kept than may be, and they are the last ones that were taken.
pub proof fn law_snapshots_are_bounded(store: StoreView)
    requires
        store.tracking is Some,
        store.snapshots.len() <= store.tracking->0.limit(),
    ensures
        store.after_transaction().snapshots.len() <= store.tracking->0.limit(),
{
}

/// Every so many transactions bring a snapshot: the one that is due, and none before it.
pub proof fn law_snapshots_come_at_the_interval(store: StoreView, n: u64)
    requires
        store.tracking is Some,
        store.tracking->0.snapshot_strategy == SnapshotStrategy::TransactionInterval(n),
        n > 0,
        store.pending < n,
    ensures
        store.after_transaction().pending == (store.pending + 1) % (n as int),
        store.pending + 1 < n ==> store.after_transaction().snapshots == store.snapshots,
        store.pending + 1 == n ==> store.after_transaction().snapshots == last_of(
            store.snapshots.push(SnapshotView { at: store.told, vectors: store.vectors }),
            store.tracking->0.limit(),
        ),
{
    if store.pending + 1 < n {
        vstd::arithmetic::div_mod::lemma_small_mod((store.pending + 1) as nat, n as nat);
    } else {
        vstd::arithmetic::div_mod::lemma_mod_self_0(n as int);
    }
}

/// What is to be done about a node's vector.
pub enum Change {
    /// Nothing.
    Keep,
    /// The node gets a vector.
    Put(Seq<u32>),
    /// The node loses its vector.
    Drop,
}

/// What is to be done when a node's properties change: nothing where there is no vector before or
/// after, or the same one; otherwise the new vector is put in place, or the old one taken away.
pub open spec fn change_between(old_vector: Option<Seq<u32>>, new_vector: Option<Seq<u32>>) -> Change {
    match (old_vector, new_vector) {
        (None, None) => Change::Keep,
        (None, Some(v)) => Change::Put(v),
        (Some(_), None) => Change::Drop,
        (Some(o), Some(n)) => if vectors_equal(o, n) {
            Change::Keep
        } else {
            Change::Put(n)
        },
    }
}

/// Whether a change can be made.
pub open spec fn possible(store: StoreView, change: Change) -> bool {
    change matches Change::Put(v) ==> store.fits(v.len())
}

/// The vectors after a change.
pub open spec fn changed(
    store: StoreView,
    node: u64,
    change: Change,
    at: Timestamp,
    over_time: bool,
) -> StoreView {
    match change {
        Change::Keep => store,
        Change::Put(v) => store.with(node, v, at, over_time),
        Change::Drop => store.without(node, at, over_time),
    }
}

/// The later one of two moments is one of them, and neither is later than it.
pub proof fn law_later_of_two_moments(a: Timestamp, b: Timestamp)
    ensures
        later_of(a, b) == a || later_of(a, b) == b,
        a.key() <= later_of(a, b).key(),
        b.key() <= later_of(a, b).key(),
{
}

/// As many snapshots are kept as both limits allow, and no fewer. They are the last ones: those
/// that come before them go.
pub proof fn law_last_snapshots_are_kept<T>(config: TemporalVectorConfig, n: usize, s: Seq<T>, i: int)
    requires
        config.retention_policy == RetentionPolicy::KeepN(n),
    ensures
        config.limit() <= n,
        config.limit() <= config.max_snapshots,
        config.limit() == n || config.limit() == config.max_snapshots,
        s.len() <= config.limit() ==> last_of(s, config.limit()) == s,
        s.len() > config.limit() ==> last_of(s, config.limit()).len() == config.limit(),
        0 <= i < last_of(s, config.limit()).len() ==> last_of(s, config.limit())[i] == s[s.len()
            - last_of(s, config.limit()).len() + i],
{
}

/// Of several snapshots at one moment the one that was taken last is shown: the snapshot at a place
/// with no later moment up to the one asked for, and with an earlier moment in every place behind
/// it.
pub proof fn law_last_of_the_latest(snapshots: Seq<SnapshotView>, t: Timestamp, at: int)
    requires
        0 <= at < snapshots.len(),
        snapshots[at].at.key() <= t.key(),
        forall|i: int|
            0 <= i < at ==> (#[trigger] snapshots[i]).at.key() <= snapshots[at].at.key()
                || snapshots[i].at.key() > t.key(),
        forall|i: int|
            at < i < snapshots.len() ==> (#[trigger] snapshots[i]).at.key() < snapshots[at].at.key()
                || snapshots[i].at.key() > t.key(),
    ensures
        latest_as_of(snapshots, t) == Some(snapshots[at]),
    decreases snapshots.len(),
{
    let shorter = snapshots.drop_last();
    let last = snapshots.len() - 1;
    assert forall|i: int| 0 <= i < last implies shorter[i] == #[trigger] snapshots[i] by {}
    if at < last {
        assert(shorter[at] == snapshots[at]);
        law_last_of_the_latest(shorter, t, at);
        assert(snapshots[last].at.key() < snapshots[at].at.key() || snapshots[last].at.key() > t.key());
    } else {
        law_latest_is_latest(shorter, t);
        if latest_as_of(shorter, t) is Some {
            let s = latest_as_of(shorter, t)->0;
            let j = choose|j: int| 0 <= j < shorter.len() && shorter[j] == s;
            assert(snapshots[j] == s);
        }
    }
}

/// A vector that is put in place is the node's, one that is taken away is gone, and those of other
/// nodes stay. Where vectors are tracked over time the moment of the change is remembered if it is
/// the latest; where they are not, nothing is. Snapshots stay as they are.
pub proof fn law_a_change_changes_one_vector(
    store: StoreView,
    node: u64,
    vector: Seq<u32>,
    at: Timestamp,
    over_time: bool,
    other: u64,
)
    ensures
        ({
            let with = store.with(node, vector, at, over_time);
            let without = store.without(node, at, over_time);
            &&& with.vectors.contains_key(node) && with.vectors[node] == vector
            &&& !without.vectors.contains_key(node)
            &&& other != node ==> with.vectors.contains_key(other) == store.vectors.contains_key(other)
                && without.vectors.contains_key(other) == store.vectors.contains_key(other)
            &&& other != node && store.vectors.contains_key(other) ==> with.vectors[other]
                == store.vectors[other] && without.vectors[other] == store.vectors[other]
            &&& with.told == without.told
            &&& !over_time ==> with.told == store.told
            &&& over_time ==> with.told.key() == (if store.told.key() < at.key() {
                at.key()
            } else {
                store.told.key()
            })
            &&& with.snapshots == store.snapshots && without.snapshots == store.snapshots
            &&& with.pending == store.pending && without.pending == store.pending
        }),
{
}

/// What is done about a node's vector when its properties change: a vector that it did not have or
/// that is not equal to the one that it had is put in place; one that it no longer has is taken
/// away; and nothing is done otherwise. A change can be made exactly if it puts no vector in place
/// that does not fit.
pub proof fn law_what_is_done_about_a_vector(
    before: Option<Seq<u32>>,
    after: Option<Seq<u32>>,
    store: StoreView,
)
    ensures
        ({
            let change = change_between(before, after);
            &&& after is None && before is Some ==> change is Drop
            &&& after is None && before is None ==> change is Keep
            &&& after matches Some(v) ==> {
                let same = before matches Some(u) && vectors_equal(u, v);
                &&& same ==> change is Keep
                &&& !same ==> change == Change::Put(v)
            }
            &&& change matches Change::Put(v) ==> (possible(store, change) <==> (store.config matches Some(
                c,
            ) ==> c.dimensions == v.len()))
            &&& !(change is Put) ==> possible(store, change)
        }),
{
}

/// A transaction takes a snapshot of the present vectors exactly if it is due: where snapshots are
/// to come with every so many transactions, once one fewer came since the last snapshot, and with
/// every one where the interval is none. A transaction that takes none is counted.
pub proof fn law_when_a_snapshot_is_due(store: StoreView, config: TemporalVectorConfig, n: u64)
    requires
        store.tracking == Some(config),
        config.snapshot_strategy == SnapshotStrategy::TransactionInterval(n),
        config.limit() > 0,
    ensures
        ({
            let after = store.after_transaction();
            let due = store.pending + 1 >= n;
            &&& due ==> after.pending == 0 && after.snapshots.len() > 0 && after.snapshots.last()
                == (SnapshotView { at: store.told, vectors: store.vectors })
            &&& !due ==> after.pending == store.pending + 1 && after.snapshots == store.snapshots
            &&& after.vectors == store.vectors
            &&& after.told == store.told
        }),
{
}

/// Where vectors are not tracked over time, a transaction changes nothing.
pub proof fn law_untracked_vectors_take_no_snapshot(store: StoreView)
    requires
        store.tracking is None,
    ensures
        store.after_transaction() == store,
{
}

/// Nothing comes before the beginning of time, and a store begins there, with no vectors and no
/// snapshots.
pub proof fn law_stores_begin_empty(config: HnswConfig, tracking: TemporalVectorConfig, t: Timestamp)
    ensures
        beginning().key() <= t.key(),
        empty_store(config).vectors.is_empty() && empty_track(tracking).vectors.is_empty(),
        empty_store(config).snapshots.len() == 0 && empty_track(tracking).snapshots.len() == 0,
        empty_store(config).tracking is None && empty_track(tracking).tracking == Some(tracking),
        empty_store(config).told == beginning() && empty_track(tracking).told == beginning(),
        latest_as_of(empty_track(tracking).snapshots, t) is None,
        empty_store(config).fits(config.dimensions as nat),
{
}

/// A vector that does not fit is told with its length and that of the index.
pub proof fn law_misfit_tells_both_lengths(store: StoreView, config: HnswConfig, len: usize)
    requires
        store.config == Some(config),
    ensures
        store.fits(len as nat) <==> len == config.dimensions,
        misfit(store.config, len as nat) == (ErrorView::DimensionMismatch {
            expected: config.dimensions,
            actual: len,
        }),
{
}

} // verus!

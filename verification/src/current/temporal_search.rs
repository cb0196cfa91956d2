//! Searches through vectors as they were. How similar vectors are is left to the caller.

use super::search::{cut_off, first_of, Candidate};
use super::similarity::{no_temporal_index, no_temporal_index_for};
use super::storage::CurrentStorage;
use super::vectors::{
    copy_vector, latest_as_of, law_last_of_the_latest, law_latest_is_latest, misfit, vectors_held,
    HnswConfig, SnapshotView, TemporalVectorIndex, VectorStore,
};
use crate::error::{Error, ErrorView, VectorError};
use crate::ids::NodeId;
use crate::maps::{keys_of, lists_keys};
use crate::temporal::{TimeRange, Timestamp};
use std::collections::{HashMap, HashSet};
use vstd::prelude::*;

verus! {

broadcast use vstd::std_specs::hash::group_hash_axioms;

/// What a search through some vectors gives: the first `k` of what it finds, or its error.
pub open spec fn search_outcome<
    F: Fn(Option<HnswConfig>, &HashMap<u64, Vec<u32>>, &Vec<u32>, usize) -> Result<
        Vec<Candidate>,
        Error,
    >,
>(
    search: F,
    config: Option<HnswConfig>,
    held: Map<u64, Seq<u32>>,
    query: Seq<u32>,
    k: usize,
    r: Result<Vec<Candidate>, Error>,
) -> bool {
    exists|
        vectors: HashMap<u64, Vec<u32>>,
        asked: Vec<u32>,
        found: Result<Vec<Candidate>, Error>,
    |
        {
            &&& vectors_held(vectors@) == held
            &&& asked@ == query
            &&& #[trigger] call_ensures(search, (config, &vectors, &asked, k), found)
            &&& match found {
                Ok(candidates) => r matches Ok(list) && list@ == first_of(candidates@, k),
                Err(error) => r == Err::<Vec<Candidate>, Error>(error),
            }
        }
}

/// What the error says where there is no snapshot as of a moment.
pub open spec fn no_snapshot() -> Seq<char> {
    "No snapshot exists at or before the timestamp"@
}

/// What a search as of a moment gives: it goes through the latest snapshot at or before that
/// moment, and fails where there is none.
pub open spec fn as_of_outcome<
    F: Fn(Option<HnswConfig>, &HashMap<u64, Vec<u32>>, &Vec<u32>, usize) -> Result<
        Vec<Candidate>,
        Error,
    >,
>(
    search: F,
    index: TemporalVectorIndex,
    query: Seq<u32>,
    k: usize,
    at: Timestamp,
    r: Result<Vec<Candidate>, Error>,
) -> bool {
    match latest_as_of(index.state().snapshots, at) {
        Some(snapshot) => search_outcome(
            search,
            index.config.hnsw_config,
            snapshot.vectors,
            query,
            k,
            r,
        ),
        None => r matches Err(error) && error@ == ErrorView::IndexError(no_snapshot()),
    }
}

/// Whether a vector is as long as those of the index.
pub open spec fn fits_index(index: TemporalVectorIndex, query: Seq<u32>) -> bool {
    index.state().fits(query.len())
}

/// The vectors that a node has in the snapshots within a range, with their moments.
pub open spec fn evolution(snapshots: Seq<SnapshotView>, node: u64, range: TimeRange) -> Seq<
    (Timestamp, Seq<u32>),
>
    decreases snapshots.len(),
{
    if snapshots.len() == 0 {
        Seq::empty()
    } else {
        let before = evolution(snapshots.drop_last(), node, range);
        let last = snapshots.last();
        if range.has(last.at) && last.vectors.contains_key(node) {
            before.push((last.at, last.vectors[node]))
        } else {
            before
        }
    }
}

/// What a list of vectors with moments says.
pub open spec fn evolution_of(list: Seq<(Timestamp, Vec<u32>)>) -> Seq<(Timestamp, Seq<u32>)> {
    Seq::new(list.len(), |i: int| (list[i].0, list[i].1@))
}

/// The snapshots within a range, in order.
pub open spec fn taken_in(snapshots: Seq<SnapshotView>, range: TimeRange) -> Seq<SnapshotView>
    decreases snapshots.len(),
{
    if snapshots.len() == 0 {
        Seq::empty()
    } else {
        let before = taken_in(snapshots.drop_last(), range);
        if range.has(snapshots.last().at) {
            before.push(snapshots.last())
        } else {
            before
        }
    }
}

impl TemporalVectorIndex {
    /// The error where a vector is not as long as those of the index.
    fn check_length(&self, embedding: &Vec<u32>) -> (r: Result<(), Error>)
        ensures
            match r {
                Ok(_) => fits_index(*self, embedding@),
                Err(error) => {
                    &&& !fits_index(*self, embedding@)
                    &&& error@ == misfit(self.config.hnsw_config, embedding@.len())
                },
            },
    {
        if let Some(hnsw) = self.config.hnsw_config {
            if embedding.len() != hnsw.dimensions {
                return Err(
                    Error::Vector(
                        VectorError::DimensionMismatch {
                            expected: hnsw.dimensions,
                            actual: embedding.len(),
                        },
                    ),
                );
            }
        }
        Ok(())
    }

    /// The place of the latest snapshot at or before a moment.
    fn snapshot_at(&self, t: Timestamp) -> (r: Option<usize>)
        ensures
            match r {
                Some(i) => {
                    &&& i < self.snapshots@.len()
                    &&& latest_as_of(self.state().snapshots, t) == Some(
                        self.snapshots@[i as int]@,
                    )
                },
                None => latest_as_of(self.state().snapshots, t) is None,
            },
    {
        let ghost all = self.state().snapshots;
        let mut best: Option<usize> = None;
        let mut i: usize = 0;
        while i < self.snapshots.len()
            invariant
                i <= self.snapshots.len(),
                all == self.state().snapshots,
                match best {
                    Some(j) => {
                        &&& j < self.snapshots@.len()
                        &&& latest_as_of(all.take(i as int), t) == Some(
                            self.snapshots@[j as int]@,
                        )
                    },
                    None => latest_as_of(all.take(i as int), t) is None,
                },
            decreases self.snapshots.len() - i,
        {
            let at = self.snapshots[i].at;
            proof {
                assert(all.take(i as int + 1).drop_last() =~= all.take(i as int));
                assert(all.take(i as int + 1).last() == self.snapshots@[i as int]@);
            }
            if !t.is_before(&at) {
                match best {
                    Some(j) => {
                        if !at.is_before(&self.snapshots[j].at) {
                            best = Some(i);
                        }
                    },
                    None => {
                        best = Some(i);
                    },
                }
            }
            i = i + 1;
        }
        assert(all.take(i as int) =~= all);
        best
    }

    /// Searches through some vectors.
    fn search_in<
        F: Fn(Option<HnswConfig>, &HashMap<u64, Vec<u32>>, &Vec<u32>, usize) -> Result<
            Vec<Candidate>,
            Error,
        >,
    >(&self, vectors: &HashMap<u64, Vec<u32>>, embedding: &Vec<u32>, k: usize, search: &F) -> (r:
        Result<Vec<Candidate>, Error>)
        requires
            forall|c: Option<HnswConfig>, m: &HashMap<u64, Vec<u32>>, q: &Vec<u32>, n: usize|
                call_requires(*search, (c, m, q, n)),
        ensures
            search_outcome(
                *search,
                self.config.hnsw_config,
                vectors_held(vectors@),
                embedding@,
                k,
                r,
            ),
    {
        match search(self.config.hnsw_config, vectors, embedding, k) {
            Ok(candidates) => Ok(cut_off(&candidates, k)),
            Err(error) => Err(error),
        }
    }

    /// The `k` nodes whose vectors were most like a given one at a moment.
    pub fn find_similar_as_of<
        F: Fn(Option<HnswConfig>, &HashMap<u64, Vec<u32>>, &Vec<u32>, usize) -> Result<
            Vec<Candidate>,
            Error,
        >,
    >(&self, embedding: &Vec<u32>, k: usize, timestamp: Timestamp, search: &F) -> (r: Result<
        Vec<Candidate>,
        Error,
    >)
        requires
            forall|c: Option<HnswConfig>, m: &HashMap<u64, Vec<u32>>, q: &Vec<u32>, n: usize|
                call_requires(*search, (c, m, q, n)),
        ensures
            if fits_index(*self, embedding@) {
                as_of_outcome(*search, *self, embedding@, k, timestamp, r)
            } else {
                r matches Err(error) && error@ == misfit(self.config.hnsw_config, embedding@.len())
            },
    {
        match self.check_length(embedding) {
            Ok(_) => match self.snapshot_at(timestamp) {
                Some(i) => self.search_in(&self.snapshots[i].vectors, embedding, k, search),
                None => Err(
                    Error::Vector(
                        VectorError::IndexError(
                            String::from_str("No snapshot exists at or before the timestamp"),
                        ),
                    ),
                ),
            },
            Err(error) => Err(error),
        }
    }

    /// The vectors that a node has in the snapshots within a range, with their moments.
    pub fn semantic_evolution(&self, node_id: NodeId, time_range: TimeRange) -> (r: Vec<
        (Timestamp, Vec<u32>),
    >)
        ensures
            evolution_of(r@) == evolution(self.state().snapshots, node_id.0, time_range),
    {
        let ghost all = self.state().snapshots;
        let mut out: Vec<(Timestamp, Vec<u32>)> = Vec::new();
        let mut i: usize = 0;
        assert(evolution_of(out@) =~= evolution(all.take(0), node_id.0, time_range));
        while i < self.snapshots.len()
            invariant
                i <= self.snapshots.len(),
                all == self.state().snapshots,
                evolution_of(out@) == evolution(all.take(i as int), node_id.0, time_range),
            decreases self.snapshots.len() - i,
        {
            let snapshot = &self.snapshots[i];
            let ghost before = evolution_of(out@);
            proof {
                assert(all[i as int] == snapshot@);
                assert(all.take(i as int + 1).drop_last() =~= all.take(i as int));
                assert(all.take(i as int + 1).last() == snapshot@);
            }
            if time_range.contains(snapshot.at) {
                if let Some(v) = snapshot.vectors.get(&node_id.0) {
                    out.push((snapshot.at, copy_vector(v)));
                    assert(evolution_of(out@) =~= before.push((snapshot.at, v@)));
                }
            }
            i = i + 1;
        }
        assert(all.take(i as int) =~= all);
        out
    }
}

impl CurrentStorage {
    /// Why there is nothing to search through: the property that is asked for is not tracked over
    /// time, or no property is.
    pub open spec fn temporal_search_refused(self, property: Option<Seq<char>>) -> Option<
        ErrorView,
    > {
        match property {
            Some(name) => if self.temporal_vector_indexes.items().contains_key(name) {
                None
            } else {
                Some(ErrorView::IndexError(no_temporal_index_for(name)))
            },
            None => if self.temporal_vector_indexes.items().is_empty() {
                Some(ErrorView::IndexError(no_temporal_index()))
            } else {
                None
            },
        }
    }

    /// What a search through the vectors of a moment says, by a property.
    pub open spec fn as_of_search<
        F: Fn(Option<HnswConfig>, &HashMap<u64, Vec<u32>>, &Vec<u32>, usize) -> Result<
            Vec<Candidate>,
            Error,
        >,
    >(
        self,
        search: F,
        name: Seq<char>,
        embedding: Seq<u32>,
        k: usize,
        timestamp: Timestamp,
        r: Result<Vec<Candidate>, Error>,
    ) -> bool {
        let index = self.temporal_vector_indexes.items()[name];
        if fits_index(index, embedding) {
            as_of_outcome(search, index, embedding, k, timestamp, r)
        } else {
            r matches Err(error) && error@ == misfit(index.config.hnsw_config, embedding.len())
        }
    }

    /// The `k` nodes whose vectors were most like a given one at a moment, by the property that
    /// comes first in the alphabet.
    pub fn find_similar_as_of<
        F: Fn(Option<HnswConfig>, &HashMap<u64, Vec<u32>>, &Vec<u32>, usize) -> Result<
            Vec<Candidate>,
            Error,
        >,
    >(&self, embedding: &Vec<u32>, k: usize, timestamp: Timestamp, search: F) -> (r: Result<
        Vec<Candidate>,
        Error,
    >)
        requires
            self.well_formed(),
            forall|c: Option<HnswConfig>, m: &HashMap<u64, Vec<u32>>, q: &Vec<u32>, n: usize|
                call_requires(search, (c, m, q, n)),
        ensures
            match self.temporal_search_refused(None) {
                Some(refusal) => r matches Err(error) && error@ == refusal,
                None => exists|name: Seq<char>| #[trigger]
                    self.temporal_vector_indexes.is_first(name) && self.as_of_search(
                        search,
                        name,
                        embedding@,
                        k,
                        timestamp,
                        r,
                    ),
            },
    {
        match self.temporal_property(None) {
            Ok(name) => {
                assert(self.temporal_vector_indexes.is_first(name@));
                self.find_similar_as_of_in(name.as_str(), embedding, k, timestamp, search)
            },
            Err(error) => Err(error),
        }
    }

    /// The `k` nodes whose vectors were most like a given one at a moment, by a property.
    pub fn find_similar_as_of_in<
        F: Fn(Option<HnswConfig>, &HashMap<u64, Vec<u32>>, &Vec<u32>, usize) -> Result<
            Vec<Candidate>,
            Error,
        >,
    >(
        &self,
        property_name: &str,
        embedding: &Vec<u32>,
        k: usize,
        timestamp: Timestamp,
        search: F,
    ) -> (r: Result<Vec<Candidate>, Error>)
        requires
            self.well_formed(),
            forall|c: Option<HnswConfig>, m: &HashMap<u64, Vec<u32>>, q: &Vec<u32>, n: usize|
                call_requires(search, (c, m, q, n)),
        ensures
            match self.temporal_search_refused(Some(property_name@)) {
                Some(refusal) => r matches Err(error) && error@ == refusal,
                None => self.as_of_search(
                    search,
                    property_name@,
                    embedding@,
                    k,
                    timestamp,
                    r,
                ),
            },
    {
        match self.temporal_property(Some(property_name)) {
            Ok(_) => match self.temporal_vector_indexes.get(property_name) {
                Some(index) => index.find_similar_as_of(embedding, k, timestamp, &search),
                None => Ok(Vec::new()),
            },
            Err(error) => Err(error),
        }
    }

    /// The vectors that a node has in the snapshots within a range, with their moments, by a
    /// property.
    pub fn semantic_evolution_in(
        &self,
        property_name: &str,
        node_id: NodeId,
        time_range: TimeRange,
    ) -> (r: Result<Vec<(Timestamp, Vec<u32>)>, Error>)
        requires
            self.well_formed(),
        ensures
            match self.temporal_search_refused(Some(property_name@)) {
                Some(refusal) => r matches Err(error) && error@ == refusal,
                None => r matches Ok(list) && evolution_of(list@) == evolution(
                    self.temporal_vector_indexes.items()[property_name@].state().snapshots,
                    node_id.0,
                    time_range,
                ),
            },
    {
        match self.temporal_property(Some(property_name)) {
            Ok(_) => match self.temporal_vector_indexes.get(property_name) {
                Some(index) => Ok(index.semantic_evolution(node_id, time_range)),
                None => Ok(Vec::new()),
            },
            Err(error) => Err(error),
        }
    }
}

/// A distance that may be measured between two vectors.
pub open spec fn measured<M: Fn(&Vec<u32>, &Vec<u32>) -> u32>(
    measure: M,
    vector: Seq<u32>,
    reference: Seq<u32>,
    distance: u32,
) -> bool {
    exists|a: Vec<u32>, b: Vec<u32>|
        {
            &&& a@ == vector
            &&& b@ == reference
            &&& #[trigger] call_ensures(measure, (&a, &b), distance)
        }
}

/// The distances that may be measured between vectors over time and one vector.
pub open spec fn drift_of<M: Fn(&Vec<u32>, &Vec<u32>) -> u32>(
    measure: M,
    history: Seq<(Timestamp, Seq<u32>)>,
    reference: Seq<u32>,
    drift: Seq<(Timestamp, u32)>,
) -> bool {
    &&& drift.len() == history.len()
    &&& forall|i: int|
        0 <= i < drift.len() ==> (#[trigger] drift[i]).0 == history[i].0 && measured(
            measure,
            history[i].1,
            reference,
            drift[i].1,
        )
}

/// What a search through every snapshot in a range gives: one result for each snapshot, or the
/// error of one.
pub open spec fn range_outcome<
    F: Fn(Option<HnswConfig>, &HashMap<u64, Vec<u32>>, &Vec<u32>, usize) -> Result<
        Vec<Candidate>,
        Error,
    >,
>(
    search: F,
    index: TemporalVectorIndex,
    query: Seq<u32>,
    k: usize,
    range: TimeRange,
    r: Result<Vec<(Timestamp, Vec<Candidate>)>, Error>,
) -> bool {
    let taken = taken_in(index.state().snapshots, range);
    let config = index.config.hnsw_config;
    match r {
        Ok(list) => {
            &&& list@.len() == taken.len()
            &&& forall|i: int|
                0 <= i < list@.len() ==> (#[trigger] list@[i]).0 == taken[i].at && search_outcome(
                    search,
                    config,
                    taken[i].vectors,
                    query,
                    k,
                    Ok(list@[i].1),
                )
        },
        Err(error) => exists|i: int|
            0 <= i < taken.len() && search_outcome(
                search,
                config,
                (#[trigger] taken[i]).vectors,
                query,
                k,
                Err(error),
            ),
    }
}

/// A node's history that may be found to have drifted so far, or not to have drifted.
pub open spec fn judged<D: Fn(&Vec<(Timestamp, Vec<u32>)>) -> Option<u32>>(
    drifted: D,
    history: Seq<(Timestamp, Seq<u32>)>,
    verdict: Option<u32>,
) -> bool {
    exists|list: Vec<(Timestamp, Vec<u32>)>|
        evolution_of(list@) == history && #[trigger] call_ensures(drifted, (&list,), verdict)
}

/// The nodes that may be found to have drifted within a range: every node with a vector in a
/// snapshot of the range is judged once, by its vectors in those snapshots.
pub open spec fn drifters<D: Fn(&Vec<(Timestamp, Vec<u32>)>) -> Option<u32>>(
    drifted: D,
    snapshots: Seq<SnapshotView>,
    range: TimeRange,
    found: Seq<(NodeId, u32)>,
) -> bool {
    &&& forall|i: int, j: int|
        0 <= i < j < found.len() ==> (#[trigger] found[i]).0 != (#[trigger] found[j]).0
    &&& forall|i: int|
        0 <= i < found.len() ==> {
            let history = evolution(snapshots, (#[trigger] found[i]).0.0, range);
            history.len() > 0 && judged(drifted, history, Some(found[i].1))
        }
    &&& forall|node: u64|
        (#[trigger] evolution(snapshots, node, range)).len() > 0 ==> is_found(found, node)
            || judged(drifted, evolution(snapshots, node, range), None)
}

/// A node is among those found.
pub open spec fn is_found(found: Seq<(NodeId, u32)>, node: u64) -> bool {
    exists|i: int| 0 <= i < found.len() && (#[trigger] found[i]).0.0 == node
}

/// A node whose vectors within a range are told has one in some snapshot.
proof fn lemma_evolution_node(snapshots: Seq<SnapshotView>, node: u64, range: TimeRange)
    requires
        evolution(snapshots, node, range).len() > 0,
    ensures
        exists|i: int|
            0 <= i < snapshots.len() && (#[trigger] snapshots[i]).vectors.contains_key(node),
    decreases snapshots.len(),
{
    if snapshots.len() > 0 {
        let shorter = snapshots.drop_last();
        if evolution(shorter, node, range).len() > 0 {
            lemma_evolution_node(shorter, node, range);
            let i = choose|i: int|
                0 <= i < shorter.len() && (#[trigger] shorter[i]).vectors.contains_key(node);
            assert(snapshots[i].vectors.contains_key(node));
        } else {
            assert(snapshots[snapshots.len() - 1].vectors.contains_key(node));
        }
    }
}

/// The snapshots within a range, of the first `n`, are the first ones of all that are.
proof fn lemma_taken_prefix(snapshots: Seq<SnapshotView>, n: int, range: TimeRange)
    requires
        0 <= n <= snapshots.len(),
    ensures
        taken_in(snapshots.take(n), range).is_prefix_of(taken_in(snapshots, range)),
    decreases snapshots.len(),
{
    if n < snapshots.len() {
        let shorter = snapshots.drop_last();
        lemma_taken_prefix(shorter, n, range);
        assert(shorter.take(n) =~= snapshots.take(n));
    } else {
        assert(snapshots.take(n) =~= snapshots);
    }
}

impl TemporalVectorIndex {
    /// How far the vectors that a node has in the snapshots within a range are from a given one,
    /// with the moments.
    pub fn track_semantic_drift<M: Fn(&Vec<u32>, &Vec<u32>) -> u32>(
        &self,
        node_id: NodeId,
        reference: &Vec<u32>,
        time_range: TimeRange,
        measure: &M,
    ) -> (r: Result<Vec<(Timestamp, u32)>, Error>)
        requires
            forall|a: &Vec<u32>, b: &Vec<u32>| call_requires(*measure, (a, b)),
        ensures
            if fits_index(*self, reference@) {
                r matches Ok(list) && drift_of(
                    *measure,
                    evolution(self.state().snapshots, node_id.0, time_range),
                    reference@,
                    list@,
                )
            } else {
                r matches Err(error) && error@ == misfit(self.config.hnsw_config, reference@.len())
            },
    {
        if let Err(error) = self.check_length(reference) {
            return Err(error);
        }
        let history = self.semantic_evolution(node_id, time_range);
        let ghost told = evolution_of(history@);
        let mut out: Vec<(Timestamp, u32)> = Vec::new();
        let mut i: usize = 0;
        while i < history.len()
            invariant
                i <= history.len(),
                out@.len() == i,
                told == evolution_of(history@),
                forall|a: &Vec<u32>, b: &Vec<u32>| call_requires(*measure, (a, b)),
                forall|j: int|
                    0 <= j < i ==> (#[trigger] out@[j]).0 == told[j].0 && measured(
                        *measure,
                        told[j].1,
                        reference@,
                        out@[j].1,
                    ),
            decreases history.len() - i,
        {
            let distance: u32 = measure(&history[i].1, reference);
            assert(told[i as int] == (history@[i as int].0, history@[i as int].1@));
            assert(measured(*measure, told[i as int].1, reference@, distance));
            out.push((history[i].0, distance));
            i = i + 1;
        }
        Ok(out)
    }

    /// The `k` nodes whose vectors were most like a given one, in each snapshot within a range.
    pub fn find_similar_in_range<
        F: Fn(Option<HnswConfig>, &HashMap<u64, Vec<u32>>, &Vec<u32>, usize) -> Result<
            Vec<Candidate>,
            Error,
        >,
    >(&self, embedding: &Vec<u32>, k: usize, time_range: TimeRange, search: &F) -> (r: Result<
        Vec<(Timestamp, Vec<Candidate>)>,
        Error,
    >)
        requires
            forall|c: Option<HnswConfig>, m: &HashMap<u64, Vec<u32>>, q: &Vec<u32>, n: usize|
                call_requires(*search, (c, m, q, n)),
        ensures
            if fits_index(*self, embedding@) {
                range_outcome(*search, *self, embedding@, k, time_range, r)
            } else {
                r matches Err(error) && error@ == misfit(self.config.hnsw_config, embedding@.len())
            },
    {
        if let Err(error) = self.check_length(embedding) {
            return Err(error);
        }
        let ghost all = self.state().snapshots;
        let ghost taken = taken_in(all, time_range);
        let mut out: Vec<(Timestamp, Vec<Candidate>)> = Vec::new();
        let mut i: usize = 0;
        while i < self.snapshots.len()
            invariant
                i <= self.snapshots.len(),
                all == self.state().snapshots,
                taken == taken_in(all, time_range),
                fits_index(*self, embedding@),
                forall|c: Option<HnswConfig>, m: &HashMap<u64, Vec<u32>>, q: &Vec<u32>, n: usize|
                    call_requires(*search, (c, m, q, n)),
                out@.len() == taken_in(all.take(i as int), time_range).len(),
                forall|j: int|
                    0 <= j < out@.len() ==> (#[trigger] out@[j]).0 == taken_in(
                        all.take(i as int),
                        time_range,
                    )[j].at && search_outcome(
                        *search,
                        self.config.hnsw_config,
                        taken_in(all.take(i as int), time_range)[j].vectors,
                        embedding@,
                        k,
                        Ok(out@[j].1),
                    ),
            decreases self.snapshots.len() - i,
        {
            let snapshot = &self.snapshots[i];
            proof {
                assert(all.take(i as int + 1).drop_last() =~= all.take(i as int));
                assert(all.take(i as int + 1).last() == snapshot@);
            }
            if time_range.contains(snapshot.at) {
                match self.search_in(&snapshot.vectors, embedding, k, search) {
                    Ok(list) => {
                        out.push((snapshot.at, list));
                    },
                    Err(error) => {
                        proof {
                            let last = taken_in(all.take(i as int), time_range).len() as int;
                            let first = taken_in(all.take(i as int + 1), time_range);
                            lemma_taken_prefix(all, i as int + 1, time_range);
                            assert(first[last] == snapshot@);
                            assert(first[last] == taken.subrange(0, first.len() as int)[last]);
                            assert(taken[last] == snapshot@);
                        }
                        return Err(error);
                    },
                }
            }
            i = i + 1;
        }
        assert(all.take(i as int) =~= all);
        Ok(out)
    }

    /// The nodes that have a vector in some snapshot, each once.
    fn nodes_told(&self) -> (r: Vec<u64>)
        ensures
            r@.no_duplicates(),
            forall|i: int, node: u64|
                0 <= i < self.snapshots@.len()
                    && #[trigger] self.snapshots@[i].vectors@.contains_key(node) ==> r@.contains(
                    node,
                ),
    {
        let mut out: Vec<u64> = Vec::new();
        let mut seen: HashSet<u64> = HashSet::new();
        let mut i: usize = 0;
        while i < self.snapshots.len()
            invariant
                i <= self.snapshots.len(),
                out@.no_duplicates(),
                forall|node: u64| #[trigger] seen@.contains(node) <==> out@.contains(node),
                forall|a: int, node: u64|
                    0 <= a < i && #[trigger] self.snapshots@[a].vectors@.contains_key(node)
                        ==> seen@.contains(node),
            decreases self.snapshots.len() - i,
        {
            let keys: Vec<u64> = keys_of(&self.snapshots[i].vectors);
            let mut j: usize = 0;
            while j < keys.len()
                invariant
                    i < self.snapshots.len(),
                    j <= keys.len(),
                    lists_keys(keys@, self.snapshots@[i as int].vectors@),
                    out@.no_duplicates(),
                    forall|node: u64| #[trigger] seen@.contains(node) <==> out@.contains(node),
                    forall|a: int, node: u64|
                        0 <= a < i && #[trigger] self.snapshots@[a].vectors@.contains_key(node)
                            ==> seen@.contains(node),
                    forall|b: int| 0 <= b < j ==> seen@.contains(#[trigger] keys@[b]),
                decreases keys.len() - j,
            {
                let node: u64 = keys[j];
                if !seen.contains(&node) {
                    let ghost before = out@;
                    seen.insert(node);
                    out.push(node);
                    assert forall|other: u64| #[trigger] seen@.contains(other) <==> out@.contains(
                        other,
                    ) by {
                        assert(out@[before.len() as int] == node);
                        if before.contains(other) {
                            let b = choose|b: int| 0 <= b < before.len() && before[b] == other;
                            assert(out@[b] == other);
                        }
                        if out@.contains(other) && other != node {
                            let b = choose|b: int| 0 <= b < out@.len() && out@[b] == other;
                            assert(before[b] == other);
                        }
                    }
                }
                j = j + 1;
            }
            assert forall|a: int, node: u64|
                0 <= a < i + 1 && #[trigger] self.snapshots@[a].vectors@.contains_key(
                    node,
                ) implies seen@.contains(node) by {
                if a == i {
                    assert(keys@.contains(node));
                    let b = choose|b: int| 0 <= b < keys@.len() && keys@[b] == node;
                    assert(seen@.contains(keys@[b]));
                }
            }
            i = i + 1;
        }
        out
    }

    /// The nodes that are found to have drifted within a range, judged by their vectors in it.
    pub fn find_semantic_drift<D: Fn(&Vec<(Timestamp, Vec<u32>)>) -> Option<u32>>(
        &self,
        time_range: TimeRange,
        drifted: &D,
    ) -> (r: Vec<(NodeId, u32)>)
        requires
            forall|h: &Vec<(Timestamp, Vec<u32>)>| call_requires(*drifted, (h,)),
        ensures
            drifters(*drifted, self.state().snapshots, time_range, r@),
    {
        let ghost all = self.state().snapshots;
        let nodes = self.nodes_told();
        let mut out: Vec<(NodeId, u32)> = Vec::new();
        let mut i: usize = 0;
        while i < nodes.len()
            invariant
                i <= nodes.len(),
                all == self.state().snapshots,
                nodes@.no_duplicates(),
                forall|h: &Vec<(Timestamp, Vec<u32>)>| call_requires(*drifted, (h,)),
                forall|a: int, b: int|
                    0 <= a < b < out@.len() ==> (#[trigger] out@[a]).0 != (#[trigger] out@[b]).0,
                forall|a: int|
                    0 <= a < out@.len() ==> {
                        let history = evolution(all, (#[trigger] out@[a]).0.0, time_range);
                        &&& nodes@.take(i as int).contains(out@[a].0.0)
                        &&& history.len() > 0
                        &&& judged(*drifted, history, Some(out@[a].1))
                    },
                forall|j: int|
                    0 <= j < i ==> evolution(all, #[trigger] nodes@[j], time_range).len() == 0
                        || is_found(out@, nodes@[j]) || judged(
                        *drifted,
                        evolution(all, nodes@[j], time_range),
                        None,
                    ),
            decreases nodes.len() - i,
        {
            let node = NodeId(nodes[i]);
            let ghost before = out@;
            let history = self.semantic_evolution(node, time_range);
            let ghost told = evolution(all, node.0, time_range);
            assert(evolution_of(history@).len() == history@.len());
            proof {
                crate::maps::lemma_take_contains(nodes@, i as int);
                if nodes@.take(i as int).contains(node.0) {
                    let b = choose|b: int| 0 <= b < i && nodes@.take(i as int)[b] == node.0;
                    assert(nodes@[b] == nodes@[i as int]);
                }
            }
            if history.len() > 0 {
                if let Some(distance) = drifted(&history) {
                    assert(judged(*drifted, told, Some(distance)));
                    out.push((node, distance));
                    assert(out@[before.len() as int].0.0 == node.0);
                    assert(is_found(out@, node.0));
                } else {
                    assert(judged(*drifted, told, None));
                }
            }
            i = i + 1;
            proof {
                assert forall|j: int| 0 <= j < i implies evolution(
                    all,
                    #[trigger] nodes@[j],
                    time_range,
                ).len() == 0 || is_found(out@, nodes@[j]) || judged(
                    *drifted,
                    evolution(all, nodes@[j], time_range),
                    None,
                ) by {
                    if j < i - 1 && is_found(before, nodes@[j]) {
                        let a = choose|a: int|
                            0 <= a < before.len() && (#[trigger] before[a]).0.0 == nodes@[j];
                        assert(out@[a].0.0 == nodes@[j]);
                    }
                }
            }
        }
        proof {
            assert forall|node: u64|
                (#[trigger] evolution(all, node, time_range)).len() > 0 implies is_found(
                out@,
                node,
            ) || judged(*drifted, evolution(all, node, time_range), None) by {
                lemma_evolution_node(all, node, time_range);
                let j = choose|j: int|
                    0 <= j < all.len() && (#[trigger] all[j]).vectors.contains_key(node);
                assert(self.snapshots@[j].vectors@.contains_key(node));
                assert(nodes@.contains(node));
                let b = choose|b: int| 0 <= b < nodes@.len() && nodes@[b] == node;
                assert(nodes@[b] == node);
            }
        }
        out
    }
}

impl CurrentStorage {
    /// How far the vectors that a node has in the snapshots within a range are from a given one,
    /// with the moments, by a property.
    pub fn track_drift_in<M: Fn(&Vec<u32>, &Vec<u32>) -> u32>(
        &self,
        property_name: &str,
        node_id: NodeId,
        reference_embedding: &Vec<u32>,
        time_range: TimeRange,
        measure: M,
    ) -> (r: Result<Vec<(Timestamp, u32)>, Error>)
        requires
            self.well_formed(),
            forall|a: &Vec<u32>, b: &Vec<u32>| call_requires(measure, (a, b)),
        ensures
            match self.temporal_search_refused(Some(property_name@)) {
                Some(refusal) => r matches Err(error) && error@ == refusal,
                None => {
                    let index = self.temporal_vector_indexes.items()[property_name@];
                    if fits_index(index, reference_embedding@) {
                        r matches Ok(list) && drift_of(
                            measure,
                            evolution(index.state().snapshots, node_id.0, time_range),
                            reference_embedding@,
                            list@,
                        )
                    } else {
                        r matches Err(error) && error@ == misfit(
                            index.config.hnsw_config,
                            reference_embedding@.len(),
                        )
                    }
                },
            },
    {
        match self.temporal_property(Some(property_name)) {
            Ok(_) => match self.temporal_vector_indexes.get(property_name) {
                Some(index) => index.track_semantic_drift(
                    node_id,
                    reference_embedding,
                    time_range,
                    &measure,
                ),
                None => Ok(Vec::new()),
            },
            Err(error) => Err(error),
        }
    }

    /// The nodes that are found to have drifted within a range, by a property.
    pub fn find_drift_in<D: Fn(&Vec<(Timestamp, Vec<u32>)>) -> Option<u32>>(
        &self,
        property_name: &str,
        time_range: TimeRange,
        drifted: D,
    ) -> (r: Result<Vec<(NodeId, u32)>, Error>)
        requires
            self.well_formed(),
            forall|h: &Vec<(Timestamp, Vec<u32>)>| call_requires(drifted, (h,)),
        ensures
            match self.temporal_search_refused(Some(property_name@)) {
                Some(refusal) => r matches Err(error) && error@ == refusal,
                None => r matches Ok(list) && drifters(
                    drifted,
                    self.temporal_vector_indexes.items()[property_name@].state().snapshots,
                    time_range,
                    list@,
                ),
            },
    {
        match self.temporal_property(Some(property_name)) {
            Ok(_) => match self.temporal_vector_indexes.get(property_name) {
                Some(index) => Ok(index.find_semantic_drift(time_range, &drifted)),
                None => Ok(Vec::new()),
            },
            Err(error) => Err(error),
        }
    }

    /// The `k` nodes whose vectors were most like a given one, in each snapshot within a range, by
    /// the property that comes first in the alphabet.
    pub fn find_similar_in_range<
        F: Fn(Option<HnswConfig>, &HashMap<u64, Vec<u32>>, &Vec<u32>, usize) -> Result<
            Vec<Candidate>,
            Error,
        >,
    >(&self, embedding: &Vec<u32>, k: usize, time_range: TimeRange, search: F) -> (r: Result<
        Vec<(Timestamp, Vec<Candidate>)>,
        Error,
    >)
        requires
            self.well_formed(),
            forall|c: Option<HnswConfig>, m: &HashMap<u64, Vec<u32>>, q: &Vec<u32>, n: usize|
                call_requires(search, (c, m, q, n)),
        ensures
            match self.temporal_search_refused(None) {
                Some(refusal) => r matches Err(error) && error@ == refusal,
                None => exists|name: Seq<char>| #[trigger]
                    self.temporal_vector_indexes.is_first(name) && {
                        let index = self.temporal_vector_indexes.items()[name];
                        if fits_index(index, embedding@) {
                            range_outcome(search, index, embedding@, k, time_range, r)
                        } else {
                            r matches Err(error) && error@ == misfit(
                                index.config.hnsw_config,
                                embedding@.len(),
                            )
                        }
                    },
            },
    {
        match self.temporal_property(None) {
            Ok(name) => {
                assert(self.temporal_vector_indexes.is_first(name@));
                match self.temporal_vector_indexes.get(name.as_str()) {
                    Some(index) => index.find_similar_in_range(embedding, k, time_range, &search),
                    None => Ok(Vec::new()),
                }
            },
            Err(error) => Err(error),
        }
    }
}

/// The evolution of a node over a range has one entry for each snapshot that was taken from the
/// start of the range on, before its end, and that holds a vector for the node: its moment and that
/// vector. The entries come in the order of the snapshots.
pub proof fn law_evolution_goes_by_snapshot(
    snapshots: Seq<SnapshotView>,
    node: u64,
    range: TimeRange,
)
    ensures
        evolution(snapshots, node, range) == snapshots.filter(
            |s: SnapshotView|
                range.start.key() <= s.at.key() && s.at.key() < range.end.key()
                    && s.vectors.contains_key(node),
        ).map_values(|s: SnapshotView| (s.at, s.vectors[node])),
    decreases snapshots.len(),
{
    reveal(Seq::filter);
    let pick = |s: SnapshotView|
        range.start.key() <= s.at.key() && s.at.key() < range.end.key() && s.vectors.contains_key(
            node,
        );
    let tell = |s: SnapshotView| (s.at, s.vectors[node]);
    if snapshots.len() == 0 {
        assert(snapshots.filter(pick).map_values(tell) =~= Seq::empty());
    } else {
        law_evolution_goes_by_snapshot(snapshots.drop_last(), node, range);
        let before = snapshots.drop_last().filter(pick);
        let last = snapshots.last();
        if pick(last) {
            assert(before.push(last).map_values(tell) =~= before.map_values(tell).push(tell(last)));
        }
    }
}

/// A vector with its moment is in the evolution of a node over a range exactly if a snapshot was
/// taken at that moment, the moment lies in the range, and the snapshot holds that vector for the
/// node.
pub proof fn law_evolution_holds_what_was_taken(
    snapshots: Seq<SnapshotView>,
    node: u64,
    range: TimeRange,
    t: Timestamp,
    v: Seq<u32>,
)
    ensures
        evolution(snapshots, node, range).contains((t, v)) <==> {
            &&& range.start.key() <= t.key()
            &&& t.key() < range.end.key()
            &&& exists|i: int|
                {
                    &&& 0 <= i < snapshots.len()
                    &&& (#[trigger] snapshots[i]).at == t
                    &&& snapshots[i].vectors.contains_key(node)
                    &&& snapshots[i].vectors[node] == v
                }
        },
    decreases snapshots.len(),
{
    let all = evolution(snapshots, node, range);
    if snapshots.len() > 0 {
        let shorter = snapshots.drop_last();
        let before = evolution(shorter, node, range);
        law_evolution_holds_what_was_taken(shorter, node, range, t, v);
        assert(snapshots[snapshots.len() - 1] == snapshots.last());
        assert forall|i: int| 0 <= i < shorter.len() implies shorter[i] == #[trigger] snapshots[i] by {}
        if all.contains((t, v)) {
            let k = choose|k: int| 0 <= k < all.len() && all[k] == (t, v);
            if k < before.len() {
                assert(before[k] == (t, v));
                assert(before.contains((t, v)));
            }
        }
        if before.contains((t, v)) {
            let k = choose|k: int| 0 <= k < before.len() && before[k] == (t, v);
            assert(all[k] == (t, v));
        }
        if all.len() > before.len() {
            assert(all[before.len() as int] == (snapshots.last().at, snapshots.last().vectors[node]));
        }
    }
}

/// The snapshots of a range are those that were taken from its start on and before its end, in
/// order.
pub proof fn law_snapshots_of_a_range(snapshots: Seq<SnapshotView>, range: TimeRange)
    ensures
        taken_in(snapshots, range) == snapshots.filter(
            |s: SnapshotView| range.start.key() <= s.at.key() && s.at.key() < range.end.key(),
        ),
    decreases snapshots.len(),
{
    reveal(Seq::filter);
    if snapshots.len() > 0 {
        law_snapshots_of_a_range(snapshots.drop_last(), range);
    }
}

/// A search through some vectors gives the first as many of what it finds as are wanted, and its
/// error where it fails.
pub proof fn law_search_gives_what_is_found<
    F: Fn(Option<HnswConfig>, &HashMap<u64, Vec<u32>>, &Vec<u32>, usize) -> Result<
        Vec<Candidate>,
        Error,
    >,
>(
    search: F,
    config: Option<HnswConfig>,
    held: Map<u64, Seq<u32>>,
    query: Seq<u32>,
    k: usize,
    r: Result<Vec<Candidate>, Error>,
    always: Result<Vec<Candidate>, Error>,
)
    requires
        search_outcome(search, config, held, query, k, r),
        forall|m: HashMap<u64, Vec<u32>>, q: Vec<u32>, found: Result<Vec<Candidate>, Error>| #[trigger]
            call_ensures(search, (config, &m, &q, k), found) && q@ == query && m@.dom() == held.dom() && (
            forall|node: u64| #[trigger] held.contains_key(node) ==> m@[node]@ == held[node])
                ==> found == always,
    ensures
        always is Err ==> r == always,
        always matches Ok(candidates) ==> {
            &&& r matches Ok(list)
            &&& list@.len() == (if candidates@.len() < k {
                candidates@.len()
            } else {
                k as nat
            })
            &&& forall|i: int| 0 <= i < list@.len() ==> #[trigger] list@[i] == candidates@[i]
        },
{
    let (vectors, asked, found) = choose|
        vectors: HashMap<u64, Vec<u32>>,
        asked: Vec<u32>,
        found: Result<Vec<Candidate>, Error>,
    |
        {
            &&& vectors_held(vectors@) == held
            &&& asked@ == query
            &&& #[trigger] call_ensures(search, (config, &vectors, &asked, k), found)
            &&& match found {
                Ok(candidates) => r matches Ok(list) && list@ == first_of(candidates@, k),
                Err(error) => r == Err::<Vec<Candidate>, Error>(error),
            }
        };
    assert(vectors@.dom() =~= held.dom());
    assert forall|node: u64| #[trigger] held.contains_key(node) implies vectors@[node]@ == held[node] by {
        assert(vectors_held(vectors@)[node] == held[node]);
    }
    assert(found == always);
}

/// A search as of a moment goes through the latest snapshot up to that moment, of several at one
/// moment through the one that was taken last; and it fails where there is none up to it.
pub proof fn law_search_as_of_a_moment<
    F: Fn(Option<HnswConfig>, &HashMap<u64, Vec<u32>>, &Vec<u32>, usize) -> Result<
        Vec<Candidate>,
        Error,
    >,
>(
    search: F,
    index: TemporalVectorIndex,
    query: Seq<u32>,
    k: usize,
    t: Timestamp,
    r: Result<Vec<Candidate>, Error>,
    at: int,
)
    requires
        as_of_outcome(search, index, query, k, t, r),
    ensures
        ({
            let all = index.state().snapshots;
            &&& 0 <= at < all.len() && all[at].at.key() <= t.key() && (forall|i: int|
                0 <= i < at ==> (#[trigger] all[i]).at.key() <= all[at].at.key() || all[i].at.key()
                    > t.key()) && (forall|i: int|
                at < i < all.len() ==> (#[trigger] all[i]).at.key() < all[at].at.key()
                    || all[i].at.key() > t.key()) ==> search_outcome(
                search,
                index.config.hnsw_config,
                all[at].vectors,
                query,
                k,
                r,
            )
            &&& (forall|i: int| 0 <= i < all.len() ==> (#[trigger] all[i]).at.key() > t.key()) ==> r is Err
                && r->Err_0@ is IndexError
        }),
{
    let all = index.state().snapshots;
    law_latest_is_latest(all, t);
    if 0 <= at < all.len() && all[at].at.key() <= t.key() && (forall|i: int|
        0 <= i < at ==> (#[trigger] all[i]).at.key() <= all[at].at.key() || all[i].at.key() > t.key()) && (
    forall|i: int|
        at < i < all.len() ==> (#[trigger] all[i]).at.key() < all[at].at.key() || all[i].at.key()
            > t.key()) {
        law_last_of_the_latest(all, t, at);
    }
}

/// A search through a range gives one result for each snapshot that was taken from its start on and
/// before its end, in their order, each found in that snapshot's vectors. It fails only as the
/// search through one of those fails.
pub proof fn law_search_in_a_range<
    F: Fn(Option<HnswConfig>, &HashMap<u64, Vec<u32>>, &Vec<u32>, usize) -> Result<
        Vec<Candidate>,
        Error,
    >,
>(
    search: F,
    index: TemporalVectorIndex,
    query: Seq<u32>,
    k: usize,
    range: TimeRange,
    r: Result<Vec<(Timestamp, Vec<Candidate>)>, Error>,
)
    requires
        range_outcome(search, index, query, k, range, r),
    ensures
        ({
            let taken = index.state().snapshots.filter(
                |s: SnapshotView| range.start.key() <= s.at.key() && s.at.key() < range.end.key(),
            );
            &&& r matches Ok(list) ==> list@.len() == taken.len() && forall|i: int|
                0 <= i < list@.len() ==> (#[trigger] list@[i]).0 == taken[i].at && search_outcome(
                    search,
                    index.config.hnsw_config,
                    taken[i].vectors,
                    query,
                    k,
                    Ok(list@[i].1),
                )
            &&& r matches Err(error) ==> exists|i: int|
                0 <= i < taken.len() && search_outcome(
                    search,
                    index.config.hnsw_config,
                    (#[trigger] taken[i]).vectors,
                    query,
                    k,
                    Err(error),
                )
        }),
{
    law_snapshots_of_a_range(index.state().snapshots, range);
}

/// The drift of a node tells one distance for each snapshot of the range that holds a vector for
/// it, in their order: that between this vector and the given one.
pub proof fn law_drift_goes_by_snapshot<M: Fn(&Vec<u32>, &Vec<u32>) -> u32>(
    measure: M,
    snapshots: Seq<SnapshotView>,
    node: u64,
    range: TimeRange,
    reference: Seq<u32>,
    drift: Seq<(Timestamp, u32)>,
    i: int,
    distance: u32,
)
    requires
        drift_of(measure, evolution(snapshots, node, range), reference, drift),
        0 <= i < drift.len(),
    ensures
        ({
            let taken = snapshots.filter(
                |s: SnapshotView|
                    range.start.key() <= s.at.key() && s.at.key() < range.end.key()
                        && s.vectors.contains_key(node),
            );
            &&& drift.len() == taken.len()
            &&& drift[i].0 == taken[i].at
            &&& (forall|a: Vec<u32>, b: Vec<u32>, d: u32| #[trigger]
                call_ensures(measure, (&a, &b), d) && a@ == taken[i].vectors[node] && b@ == reference
                    ==> d == distance) ==> drift[i].1 == distance
        }),
{
    law_evolution_goes_by_snapshot(snapshots, node, range);
}

/// A node is found to have drifted only if a snapshot of the range holds a vector for it, and is
/// found once. One that has a vector there and that every judgement of its vectors there finds to
/// have drifted is found.
pub proof fn law_drifted_nodes_are_found<D: Fn(&Vec<(Timestamp, Vec<u32>)>) -> Option<u32>>(
    drifted: D,
    snapshots: Seq<SnapshotView>,
    range: TimeRange,
    found: Seq<(NodeId, u32)>,
    node: u64,
    at: int,
)
    requires
        drifters(drifted, snapshots, range, found),
    ensures
        forall|i: int, j: int|
            0 <= i < j < found.len() ==> (#[trigger] found[i]).0 != (#[trigger] found[j]).0,
        (forall|i: int|
            0 <= i < snapshots.len() && range.start.key() <= (#[trigger] snapshots[i]).at.key()
                && snapshots[i].at.key() < range.end.key() ==> !snapshots[i].vectors.contains_key(node))
            ==> forall|j: int| 0 <= j < found.len() ==> (#[trigger] found[j]).0.0 != node,
        0 <= at < snapshots.len() && range.start.key() <= snapshots[at].at.key() && snapshots[at].at.key()
            < range.end.key() && snapshots[at].vectors.contains_key(node) && (forall|
            list: Vec<(Timestamp, Vec<u32>)>,
            verdict: Option<u32>,
        | #[trigger]
            call_ensures(drifted, (&list,), verdict) && evolution_of(list@) == evolution(
                snapshots,
                node,
                range,
            ) ==> verdict is Some) ==> exists|j: int| 0 <= j < found.len() && (#[trigger] found[j]).0.0 == node,
{
    let history = evolution(snapshots, node, range);
    if forall|i: int|
        0 <= i < snapshots.len() && range.start.key() <= (#[trigger] snapshots[i]).at.key()
            && snapshots[i].at.key() < range.end.key() ==> !snapshots[i].vectors.contains_key(node) {
        assert forall|j: int| 0 <= j < found.len() implies (#[trigger] found[j]).0.0 != node by {
            if found[j].0.0 == node {
                let (t, v) = history[0];
                law_evolution_holds_what_was_taken(snapshots, node, range, t, v);
                assert(history.contains((t, v)));
            }
        }
    }
    if 0 <= at < snapshots.len() && range.start.key() <= snapshots[at].at.key() && snapshots[at].at.key()
        < range.end.key() && snapshots[at].vectors.contains_key(node) {
        let (t, v) = (snapshots[at].at, snapshots[at].vectors[node]);
        law_evolution_holds_what_was_taken(snapshots, node, range, t, v);
        assert(history.contains((t, v)));
        assert(history.len() > 0);
        if !is_found(found, node) {
            assert(judged(drifted, history, None));
        }
    }
}

/// A search as of a moment is refused exactly if the property that is asked for is not tracked over
/// time or, where none is asked for, if no property is; and its vector must be as long as those of
/// the index, where the index says how long they are.
pub proof fn law_what_is_tracked_can_be_searched(
    storage: CurrentStorage,
    asked: Seq<char>,
    index: TemporalVectorIndex,
    query: Seq<u32>,
)
    ensures
        storage.temporal_search_refused(Some(asked)) is None
            <==> storage.temporal_vector_indexes.items().contains_key(asked),
        storage.temporal_search_refused(None) is None
            <==> !storage.temporal_vector_indexes.items().is_empty(),
        fits_index(index, query) <==> (index.config.hnsw_config matches Some(c) ==> c.dimensions
            == query.len()),
{
}

/// A search as of a moment, by a property, is refused where its vector is not as long as those of
/// the index, with both lengths, and otherwise goes through the vectors of that property as they
/// were.
pub proof fn law_search_as_of_by_property<
    F: Fn(Option<HnswConfig>, &HashMap<u64, Vec<u32>>, &Vec<u32>, usize) -> Result<
        Vec<Candidate>,
        Error,
    >,
>(
    storage: CurrentStorage,
    search: F,
    name: Seq<char>,
    embedding: Seq<u32>,
    k: usize,
    t: Timestamp,
    r: Result<Vec<Candidate>, Error>,
    hnsw: HnswConfig,
)
    requires
        storage.as_of_search(search, name, embedding, k, t, r),
        storage.temporal_vector_indexes.items()[name].config.hnsw_config == Some(hnsw),
        embedding.len() <= usize::MAX,
    ensures
        embedding.len() != hnsw.dimensions ==> r is Err && r->Err_0@ == (ErrorView::DimensionMismatch {
            expected: hnsw.dimensions,
            actual: embedding.len() as usize,
        }),
        embedding.len() == hnsw.dimensions ==> as_of_outcome(
            search,
            storage.temporal_vector_indexes.items()[name],
            embedding,
            k,
            t,
            r,
        ),
{
}

/// What a list of vectors with moments says is what it holds, one for each, in order.
pub proof fn law_lists_say_what_they_hold(list: Seq<(Timestamp, Vec<u32>)>, i: int)
    requires
        0 <= i < list.len(),
    ensures
        evolution_of(list).len() == list.len(),
        evolution_of(list)[i].0 == list[i].0,
        evolution_of(list)[i].1 == list[i].1@,
{
}

} // verus!

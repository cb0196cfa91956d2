//! Searches for similar nodes. How similar vectors are is left to the caller, who hands in the
//! search through the vectors of one property; what is searched for, where, and what is made of the
//! candidates that come back is decided here.

use super::search::{
    bound_candidates, bounded_candidates, cut_off, first_of, kept_candidates, law_kept_candidates,
    plain_candidates, Candidate, FilterStats, MAX_ABSOLUTE_OVERFETCH,
};
use super::similarity::{no_index, no_index_for, validate_embedding_dimensions};
use super::storage::CurrentStorage;
use super::vector_registry::vector_at;
use super::vectors::{copy_vector, HnswConfig, VectorIndex};
use crate::error::{Error, ErrorView};
use crate::ids::{InternedString, NodeId};
use crate::maps::{keys_of, lists_keys};
use std::collections::HashMap;
use vstd::prelude::*;

verus! {

broadcast use vstd::std_specs::hash::group_hash_axioms;

/// How many candidates are needed for `k` results: one more where one is excluded.
pub open spec fn needed(k: usize, excluding: bool) -> usize {
    if excluding {
        (k + 1) as usize
    } else {
        k
    }
}

/// What a search without a label gives: of what the search through the vectors finds, the first `k`
/// that are not excluded, or its error.
pub open spec fn plain_outcome<F: FnOnce(&VectorIndex, &Vec<u32>, usize) -> Result<
    Vec<Candidate>,
    Error,
>>(
    search: F,
    index: VectorIndex,
    query: Seq<u32>,
    k: usize,
    exclude: Option<NodeId>,
    r: Result<Vec<Candidate>, Error>,
) -> bool {
    exists|asked: Vec<u32>, found: Result<Vec<Candidate>, Error>|
        {
            &&& asked@ == query
            &&& #[trigger] call_ensures(
                search,
                (&index, &asked, needed(k, exclude is Some)),
                found,
            )
            &&& match found {
                Ok(candidates) => r matches Ok(kept) && kept@ == first_of(
                    kept_candidates(candidates@, None, exclude),
                    k,
                ),
                Err(error) => r == Err::<Vec<Candidate>, Error>(error),
            }
        }
}

/// What a search for a label gives, and how it is noted. More candidates than wanted are asked for,
/// by how searches for the label went so far; those without the label and the excluded one are
/// dropped, and the first `k` of the rest are the result. A search that fails is not counted.
pub open spec fn labelled_outcome<
    F: FnOnce(&VectorIndex, &Vec<u32>, usize) -> Result<Vec<Candidate>, Error>,
    G: FnOnce(usize, FilterStats) -> usize,
>(
    before: CurrentStorage,
    after: CurrentStorage,
    search: F,
    scale: G,
    index: VectorIndex,
    query: Seq<u32>,
    k: usize,
    label: Seq<char>,
    exclude: Option<NodeId>,
    r: Result<Vec<Candidate>, Error>,
) -> bool {
    &&& before.interner.after_intern(label, after.interner)
    &&& if before.interner.id_of(label) is None && before.interner.strings@.len()
        >= before.interner.limit {
        &&& r matches Err(error) && error@ == before.no_more_strings()
        &&& after.filter_stats == before.filter_stats
    } else {
        &&& after.interner.id_of(label) is Some
        &&& exists|asked: Vec<u32>, scaled: usize, found: Result<Vec<Candidate>, Error>|
            {
                &&& asked@ == query
                &&& #[trigger] call_ensures(scale, (k, before.stats_for(label)), scaled)
                &&& #[trigger] call_ensures(
                    search,
                    (&index, &asked, bounded_candidates(k, scaled)),
                    found,
                )
                &&& match found {
                    Ok(candidates) => {
                        let kept = kept_candidates(
                            candidates@,
                            after.with_label(after.interner.id_of(label)),
                            exclude,
                        );
                        &&& r matches Ok(list) && list@ == first_of(kept, k)
                        &&& after.filter_stats.items() == before.filter_stats.items().insert(
                            label,
                            before.stats_for(label).after(
                                candidates@.len() as usize,
                                kept.len() as usize,
                            ),
                        )
                    },
                    Err(error) => {
                        &&& r == Err::<Vec<Candidate>, Error>(error)
                        &&& after.filter_stats.items() == before.filter_stats.items().insert(
                            label,
                            before.stats_for(label),
                        )
                    },
                }
            }
    }
}

impl CurrentStorage {
    /// Why there is nothing to search through: the property that is asked for is not indexed, or no
    /// property is.
    pub open spec fn search_refused(self, property: Option<Seq<char>>) -> Option<ErrorView> {
        match property {
            Some(name) => if self.vector_indexes.items().contains_key(name) {
                None
            } else {
                Some(ErrorView::IndexError(no_index_for(name)))
            },
            None => if self.vector_indexes.items().is_empty() {
                Some(ErrorView::IndexError(no_index()))
            } else {
                None
            },
        }
    }

    /// The property that a search uses: the one that is asked for, else the one that comes first in
    /// the alphabet.
    pub open spec fn searches(self, property: Option<Seq<char>>, name: Seq<char>) -> bool {
        &&& self.vector_indexes.items().contains_key(name)
        &&& match property {
            Some(asked) => name == asked,
            None => self.vector_indexes.is_first(name),
        }
    }

    /// The vector of a node, if it has one.
    pub open spec fn vector_of(self, node_id: NodeId, name: Seq<char>) -> Option<Seq<u32>> {
        if self.nodes().contains_key(node_id.0) {
            vector_at(self.interner, self.nodes()[node_id.0].properties@, name)
        } else {
            None
        }
    }

    /// What a search for nodes like a given one says, in the vectors of one property.
    pub open spec fn node_search<
        F: FnOnce(&VectorIndex, &Vec<u32>, usize) -> Result<Vec<Candidate>, Error>,
    >(
        self,
        search: F,
        name: Seq<char>,
        node_id: NodeId,
        k: usize,
        r: Result<Vec<Candidate>, Error>,
    ) -> bool {
        match self.vector_of(node_id, name) {
            Some(query) => plain_outcome(
                search,
                self.vector_indexes.items()[name],
                query,
                k,
                Some(node_id),
                r,
            ),
            None => r matches Err(error) && error@ == self.lacks_vector(node_id, name),
        }
    }

    /// What a search for nodes with a vector like the given one says, in the vectors of one
    /// property.
    pub open spec fn embedding_search<
        F: FnOnce(&VectorIndex, &Vec<u32>, usize) -> Result<Vec<Candidate>, Error>,
    >(
        self,
        search: F,
        name: Seq<char>,
        embedding: Seq<u32>,
        k: usize,
        r: Result<Vec<Candidate>, Error>,
    ) -> bool {
        let index = self.vector_indexes.items()[name];
        if embedding.len() == index.config.dimensions {
            plain_outcome(search, index, embedding, k, None, r)
        } else {
            r matches Err(error) && error@ == wrong_length(index.config, embedding)
        }
    }
}

/// The error where a vector is not as long as those of an index.
pub open spec fn wrong_length(config: HnswConfig, embedding: Seq<u32>) -> ErrorView {
    ErrorView::DimensionMismatch {
        expected: config.dimensions,
        actual: embedding.len() as usize,
    }
}

/// Searches without regard to labels.
fn run_vector_search<
    F: FnOnce(&VectorIndex, &Vec<u32>, usize) -> Result<Vec<Candidate>, Error>,
>(
    index: &VectorIndex,
    query: &Vec<u32>,
    k: usize,
    exclude_node: Option<NodeId>,
    search: F,
) -> (r: Result<Vec<Candidate>, Error>)
    requires
        exclude_node is Some ==> k < usize::MAX,
        forall|i: &VectorIndex, q: &Vec<u32>, n: usize| call_requires(search, (i, q, n)),
    ensures
        plain_outcome(search, *index, query@, k, exclude_node, r),
{
    let search_k: usize = plain_candidates(k, exclude_node.is_some());
    match search(index, query, search_k) {
        Ok(candidates) => {
            let kept = keep_others(&candidates, exclude_node);
            Ok(cut_off(&kept, k))
        },
        Err(error) => Err(error),
    }
}

/// The candidates that are not excluded.
fn keep_others(candidates: &Vec<Candidate>, exclude: Option<NodeId>) -> (r: Vec<Candidate>)
    ensures
        r@ == kept_candidates(candidates@, None, exclude),
{
    let mut out: Vec<Candidate> = Vec::new();
    let mut i: usize = 0;
    assert(out@ =~= kept_candidates(candidates@.take(0), None, exclude));
    while i < candidates.len()
        invariant
            i <= candidates.len(),
            out@ == kept_candidates(candidates@.take(i as int), None, exclude),
        decreases candidates.len() - i,
    {
        let candidate = candidates[i];
        let excluded = match exclude {
            Some(id) => candidate.node == id,
            None => false,
        };
        if !excluded {
            out.push(candidate);
        }
        i = i + 1;
        assert(candidates@.take(i as int).drop_last() =~= candidates@.take(i - 1));
    }
    assert(candidates@.take(i as int) =~= candidates@);
    out
}

impl CurrentStorage {
    /// The `k` nodes whose vectors are most like that of a node, without that node, by the property
    /// that comes first in the alphabet.
    pub fn find_similar<
        F: FnOnce(&VectorIndex, &Vec<u32>, usize) -> Result<Vec<Candidate>, Error>,
    >(&self, query_node_id: NodeId, k: usize, search: F) -> (r: Result<Vec<Candidate>, Error>)
        requires
            self.well_formed(),
            k < usize::MAX,
            forall|i: &VectorIndex, q: &Vec<u32>, n: usize| call_requires(search, (i, q, n)),
        ensures
            match self.search_refused(None) {
                Some(refusal) => r matches Err(error) && error@ == refusal,
                None => exists|name: Seq<char>| #[trigger]
                    self.searches(None, name) && self.node_search(
                        search,
                        name,
                        query_node_id,
                        k,
                        r,
                    ),
            },
    {
        match self.get_vector_index_internal(None) {
            Ok((name, _)) => {
                assert(self.searches(None, name@));
                self.find_similar_in(name.as_str(), query_node_id, k, search)
            },
            Err(error) => Err(error),
        }
    }

    /// The `k` nodes whose vectors are most like that of a node, without that node, by a property.
    pub fn find_similar_in<
        F: FnOnce(&VectorIndex, &Vec<u32>, usize) -> Result<Vec<Candidate>, Error>,
    >(&self, property_name: &str, query_node_id: NodeId, k: usize, search: F) -> (r: Result<
        Vec<Candidate>,
        Error,
    >)
        requires
            self.well_formed(),
            k < usize::MAX,
            forall|i: &VectorIndex, q: &Vec<u32>, n: usize| call_requires(search, (i, q, n)),
        ensures
            match self.search_refused(Some(property_name@)) {
                Some(refusal) => r matches Err(error) && error@ == refusal,
                None => self.node_search(search, property_name@, query_node_id, k, r),
            },
    {
        match self.get_vector_index_internal(Some(property_name)) {
            Ok(_) => match self.get_node_vector(query_node_id, property_name) {
                Ok(query) => match self.vector_indexes.get(property_name) {
                    Some(index) => run_vector_search(index, &query, k, Some(query_node_id), search),
                    None => Ok(Vec::new()),
                },
                Err(error) => Err(error),
            },
            Err(error) => Err(error),
        }
    }

    /// The `k` nodes whose vectors are most like a given one, by the property that comes first in
    /// the alphabet.
    pub fn find_similar_by_embedding<
        F: FnOnce(&VectorIndex, &Vec<u32>, usize) -> Result<Vec<Candidate>, Error>,
    >(&self, embedding: &Vec<u32>, k: usize, search: F) -> (r: Result<Vec<Candidate>, Error>)
        requires
            self.well_formed(),
            forall|i: &VectorIndex, q: &Vec<u32>, n: usize| call_requires(search, (i, q, n)),
        ensures
            match self.search_refused(None) {
                Some(refusal) => r matches Err(error) && error@ == refusal,
                None => exists|name: Seq<char>| #[trigger]
                    self.searches(None, name) && self.embedding_search(
                        search,
                        name,
                        embedding@,
                        k,
                        r,
                    ),
            },
    {
        match self.get_vector_index_internal(None) {
            Ok((name, _)) => {
                assert(self.searches(None, name@));
                self.find_similar_by_embedding_in(name.as_str(), embedding, k, search)
            },
            Err(error) => Err(error),
        }
    }

    /// The `k` nodes whose vectors are most like a given one, by a property.
    pub fn find_similar_by_embedding_in<
        F: FnOnce(&VectorIndex, &Vec<u32>, usize) -> Result<Vec<Candidate>, Error>,
    >(&self, property_name: &str, embedding: &Vec<u32>, k: usize, search: F) -> (r: Result<
        Vec<Candidate>,
        Error,
    >)
        requires
            self.well_formed(),
            forall|i: &VectorIndex, q: &Vec<u32>, n: usize| call_requires(search, (i, q, n)),
        ensures
            match self.search_refused(Some(property_name@)) {
                Some(refusal) => r matches Err(error) && error@ == refusal,
                None => self.embedding_search(search, property_name@, embedding@, k, r),
            },
    {
        match self.get_vector_index_internal(Some(property_name)) {
            Ok((_, config)) => match validate_embedding_dimensions(embedding, &config) {
                Ok(_) => match self.vector_indexes.get(property_name) {
                    Some(index) => run_vector_search(index, embedding, k, None, search),
                    None => Ok(Vec::new()),
                },
                Err(error) => Err(error),
            },
            Err(error) => Err(error),
        }
    }

    /// The `k` nodes whose vectors are most like a given one, by a property.
    pub fn search_vectors_in<
        F: FnOnce(&VectorIndex, &Vec<u32>, usize) -> Result<Vec<Candidate>, Error>,
    >(&self, property_name: &str, embedding: &Vec<u32>, k: usize, search: F) -> (r: Result<
        Vec<Candidate>,
        Error,
    >)
        requires
            self.well_formed(),
            forall|i: &VectorIndex, q: &Vec<u32>, n: usize| call_requires(search, (i, q, n)),
        ensures
            match self.search_refused(Some(property_name@)) {
                Some(refusal) => r matches Err(error) && error@ == refusal,
                None => self.embedding_search(search, property_name@, embedding@, k, r),
            },
    {
        self.find_similar_by_embedding_in(property_name, embedding, k, search)
    }
}

impl CurrentStorage {
    /// Only what is noted about labels differs.
    pub open spec fn same_but_labels(self, before: CurrentStorage) -> bool {
        self == (CurrentStorage {
            interner: self.interner,
            filter_stats: self.filter_stats,
            ..before
        })
    }

    /// Searches for nodes with a label, in the vectors of a property.
    fn run_labelled_search<
        F: FnOnce(&VectorIndex, &Vec<u32>, usize) -> Result<Vec<Candidate>, Error>,
        G: FnOnce(usize, FilterStats) -> usize,
    >(
        &mut self,
        name: &str,
        query: &Vec<u32>,
        k: usize,
        label: &str,
        exclude_node: Option<NodeId>,
        search: F,
        scale: G,
    ) -> (r: Result<Vec<Candidate>, Error>)
        requires
            old(self).well_formed(),
            old(self).vector_indexes.items().contains_key(name@),
            k + MAX_ABSOLUTE_OVERFETCH <= usize::MAX,
            forall|i: &VectorIndex, q: &Vec<u32>, n: usize| call_requires(search, (i, q, n)),
            forall|n: usize, s: FilterStats| call_requires(scale, (n, s)),
        ensures
            final(self).well_formed(),
            final(self).same_but_labels(*old(self)),
            labelled_outcome(
                *old(self),
                *final(self),
                search,
                scale,
                old(self).vector_indexes.items()[name@],
                query@,
                k,
                label@,
                exclude_node,
                r,
            ),
    {
        let stats = match self.begin_labelled_search(label) {
            Ok((_, stats)) => stats,
            Err(error) => {
                return Err(error);
            },
        };
        let ghost begun = *self;
        let scaled: usize = scale(k, stats);
        let candidates: usize = bound_candidates(k, scaled);
        let found = match self.vector_indexes.get(name) {
            Some(index) => search(index, query, candidates),
            None => Ok(Vec::new()),
        };
        match found {
            Ok(list) => {
                let kept = self.finish_search(&list, k, Some(label), exclude_node);
                proof {
                    assert(begun.stats_for(label@) == old(self).stats_for(label@));
                    assert(self.live(self.interner.id_of(label@)) =~= begun.live(
                        begun.interner.id_of(label@),
                    ));
                    assert(self.filter_stats.items() =~= old(self).filter_stats.items().insert(
                        label@,
                        self.filter_stats.items()[label@],
                    ));
                }
                Ok(kept)
            },
            Err(error) => Err(error),
        }
    }

    /// The `k` nodes with a label whose vectors are most like that of a node, without that node, by
    /// the property that comes first in the alphabet.
    pub fn find_similar_with_label<
        F: FnOnce(&VectorIndex, &Vec<u32>, usize) -> Result<Vec<Candidate>, Error>,
        G: FnOnce(usize, FilterStats) -> usize,
    >(&mut self, query_node_id: NodeId, label: &str, k: usize, search: F, scale: G) -> (r: Result<
        Vec<Candidate>,
        Error,
    >)
        requires
            old(self).well_formed(),
            k + MAX_ABSOLUTE_OVERFETCH <= usize::MAX,
            forall|i: &VectorIndex, q: &Vec<u32>, n: usize| call_requires(search, (i, q, n)),
            forall|n: usize, s: FilterStats| call_requires(scale, (n, s)),
        ensures
            final(self).well_formed(),
            final(self).same_but_labels(*old(self)),
            match old(self).search_refused(None) {
                Some(refusal) => {
                    &&& r matches Err(error) && error@ == refusal
                    &&& *final(self) == *old(self)
                },
                None => exists|name: Seq<char>| #[trigger]
                    old(self).searches(None, name) && match old(self).vector_of(
                        query_node_id,
                        name,
                    ) {
                        Some(query) => labelled_outcome(
                            *old(self),
                            *final(self),
                            search,
                            scale,
                            old(self).vector_indexes.items()[name],
                            query,
                            k,
                            label@,
                            Some(query_node_id),
                            r,
                        ),
                        None => {
                            &&& r matches Err(error) && error@ == old(self).lacks_vector(
                                query_node_id,
                                name,
                            )
                            &&& *final(self) == *old(self)
                        },
                    },
            },
    {
        match self.get_vector_index_internal(None) {
            Ok((name, _)) => {
                assert(old(self).searches(None, name@));
                match self.get_node_vector(query_node_id, name.as_str()) {
                    Ok(query) => self.run_labelled_search(
                        name.as_str(),
                        &query,
                        k,
                        label,
                        Some(query_node_id),
                        search,
                        scale,
                    ),
                    Err(error) => Err(error),
                }
            },
            Err(error) => Err(error),
        }
    }

    /// The `k` nodes with a label whose vectors are most like a given one, by the property that
    /// comes first in the alphabet.
    pub fn find_similar_by_embedding_with_label<
        F: FnOnce(&VectorIndex, &Vec<u32>, usize) -> Result<Vec<Candidate>, Error>,
        G: FnOnce(usize, FilterStats) -> usize,
    >(&mut self, embedding: &Vec<u32>, label: &str, k: usize, search: F, scale: G) -> (r: Result<
        Vec<Candidate>,
        Error,
    >)
        requires
            old(self).well_formed(),
            k + MAX_ABSOLUTE_OVERFETCH <= usize::MAX,
            forall|i: &VectorIndex, q: &Vec<u32>, n: usize| call_requires(search, (i, q, n)),
            forall|n: usize, s: FilterStats| call_requires(scale, (n, s)),
        ensures
            final(self).well_formed(),
            final(self).same_but_labels(*old(self)),
            match old(self).search_refused(None) {
                Some(refusal) => {
                    &&& r matches Err(error) && error@ == refusal
                    &&& *final(self) == *old(self)
                },
                None => exists|name: Seq<char>| #[trigger]
                    old(self).searches(None, name) && labelled_embedding_search(
                        *old(self),
                        *final(self),
                        search,
                        scale,
                        name,
                        embedding@,
                        k,
                        label@,
                        r,
                    ),
            },
    {
        match self.get_vector_index_internal(None) {
            Ok((name, _)) => {
                assert(old(self).searches(None, name@));
                self.find_similar_by_embedding_in_with_label(
                    name.as_str(),
                    embedding,
                    label,
                    k,
                    search,
                    scale,
                )
            },
            Err(error) => Err(error),
        }
    }

    /// The `k` nodes with a label whose vectors are most like a given one, by a property.
    pub fn find_similar_by_embedding_in_with_label<
        F: FnOnce(&VectorIndex, &Vec<u32>, usize) -> Result<Vec<Candidate>, Error>,
        G: FnOnce(usize, FilterStats) -> usize,
    >(
        &mut self,
        property_name: &str,
        embedding: &Vec<u32>,
        label: &str,
        k: usize,
        search: F,
        scale: G,
    ) -> (r: Result<Vec<Candidate>, Error>)
        requires
            old(self).well_formed(),
            k + MAX_ABSOLUTE_OVERFETCH <= usize::MAX,
            forall|i: &VectorIndex, q: &Vec<u32>, n: usize| call_requires(search, (i, q, n)),
            forall|n: usize, s: FilterStats| call_requires(scale, (n, s)),
        ensures
            final(self).well_formed(),
            final(self).same_but_labels(*old(self)),
            match old(self).search_refused(Some(property_name@)) {
                Some(refusal) => {
                    &&& r matches Err(error) && error@ == refusal
                    &&& *final(self) == *old(self)
                },
                None => labelled_embedding_search(
                    *old(self),
                    *final(self),
                    search,
                    scale,
                    property_name@,
                    embedding@,
                    k,
                    label@,
                    r,
                ),
            },
    {
        match self.get_vector_index_internal(Some(property_name)) {
            Ok((_, config)) => match validate_embedding_dimensions(embedding, &config) {
                Ok(_) => self.run_labelled_search(
                    property_name,
                    embedding,
                    k,
                    label,
                    None,
                    search,
                    scale,
                ),
                Err(error) => Err(error),
            },
            Err(error) => Err(error),
        }
    }
}

/// What a search for nodes with a label and a vector like the given one says, in the vectors of one
/// property.
pub open spec fn labelled_embedding_search<
    F: FnOnce(&VectorIndex, &Vec<u32>, usize) -> Result<Vec<Candidate>, Error>,
    G: FnOnce(usize, FilterStats) -> usize,
>(
    before: CurrentStorage,
    after: CurrentStorage,
    search: F,
    scale: G,
    name: Seq<char>,
    embedding: Seq<u32>,
    k: usize,
    label: Seq<char>,
    r: Result<Vec<Candidate>, Error>,
) -> bool {
    let index = before.vector_indexes.items()[name];
    if embedding.len() == index.config.dimensions {
        labelled_outcome(before, after, search, scale, index, embedding, k, label, None, r)
    } else {
        &&& r matches Err(error) && error@ == wrong_length(index.config, embedding)
        &&& after == before
    }
}

/// The vectors of the nodes that pass a test, but for one.
fn part_that_passes<P: Fn(&NodeId) -> bool>(
    whole: &VectorIndex,
    exclude: Option<NodeId>,
    predicate: &P,
) -> (r: VectorIndex)
    requires
        forall|id: &NodeId| call_requires(*predicate, (id,)),
    ensures
        r.config == whole.config,
        passing_but(*whole, r, exclude, *predicate),
{
    let keys = keys_of(&whole.vectors);
    let mut vectors: HashMap<u64, Vec<u32>> = HashMap::new();
    let mut i: usize = 0;
    while i < keys.len()
        invariant
            i <= keys.len(),
            lists_keys(keys@, whole.vectors@),
            forall|id: &NodeId| call_requires(*predicate, (id,)),
            forall|id: u64| #[trigger]
                vectors@.contains_key(id) ==> {
                    &&& whole.vectors@.contains_key(id)
                    &&& vectors@[id]@ == whole.vectors@[id]@
                    &&& exclude != Some(NodeId(id))
                    &&& call_ensures(*predicate, (&NodeId(id),), true)
                },
            forall|j: int|
                0 <= j < i ==> vectors@.contains_key(#[trigger] keys@[j]) || exclude == Some(
                    NodeId(keys@[j]),
                ) || call_ensures(*predicate, (&NodeId(keys@[j]),), false),
        decreases keys.len() - i,
    {
        let key: u64 = keys[i];
        let id = NodeId(key);
        assert(whole.vectors@.contains_key(key));
        let excluded = match exclude {
            Some(other) => other == id,
            None => false,
        };
        if !excluded && predicate(&id) {
            if let Some(vector) = whole.vectors.get(&key) {
                vectors.insert(key, copy_vector(vector));
            }
        }
        i = i + 1;
    }
    let part = VectorIndex { config: whole.config, vectors };
    proof {
        assert forall|id: u64| #[trigger] whole.vectors@.contains_key(id) implies {
            ||| part.vectors@.contains_key(id)
            ||| exclude == Some(NodeId(id))
            ||| call_ensures(*predicate, (&NodeId(id),), false)
        } by {
            assert(keys@.contains(id));
            let j = choose|j: int| 0 <= j < keys@.len() && keys@[j] == id;
            assert(vectors@.contains_key(keys@[j]) || exclude == Some(NodeId(keys@[j]))
                || call_ensures(*predicate, (&NodeId(keys@[j]),), false));
        }
    }
    part
}

/// The vectors of the nodes that pass a test, but for one.
pub open spec fn passing_but<P: Fn(&NodeId) -> bool>(
    whole: VectorIndex,
    part: VectorIndex,
    exclude: Option<NodeId>,
    predicate: P,
) -> bool {
    &&& forall|id: u64| #[trigger]
        part.vectors@.contains_key(id) ==> {
            &&& whole.vectors@.contains_key(id)
            &&& part.vectors@[id]@ == whole.vectors@[id]@
            &&& exclude != Some(NodeId(id))
            &&& call_ensures(predicate, (&NodeId(id),), true)
        }
    &&& forall|id: u64| #[trigger]
        whole.vectors@.contains_key(id) ==> {
            ||| part.vectors@.contains_key(id)
            ||| exclude == Some(NodeId(id))
            ||| call_ensures(predicate, (&NodeId(id),), false)
        }
}

/// A search for a label gives at most `k` nodes, all of which have the label, and not the excluded
/// one.
pub proof fn law_labelled_search_result<
    F: FnOnce(&VectorIndex, &Vec<u32>, usize) -> Result<Vec<Candidate>, Error>,
    G: FnOnce(usize, FilterStats) -> usize,
>(
    before: CurrentStorage,
    after: CurrentStorage,
    search: F,
    scale: G,
    index: VectorIndex,
    query: Seq<u32>,
    k: usize,
    label: Seq<char>,
    exclude: Option<NodeId>,
    r: Result<Vec<Candidate>, Error>,
)
    requires
        labelled_outcome(
            before,
            after,
            search,
            scale,
            index,
            query,
            k,
            label,
            exclude,
            r,
        ),
        r is Ok,
    ensures
        r->Ok_0@.len() <= k,
        forall|i: int|
            0 <= i < r->Ok_0@.len() ==> {
                let c = #[trigger] r->Ok_0@[i];
                &&& after.nodes().contains_key(c.node.0)
                &&& Some(after.nodes()[c.node.0].label) == after.interner.id_of(label)
                &&& exclude is Some ==> c.node != exclude->Some_0
            },
{
    let labelled = after.with_label(after.interner.id_of(label));
    let (asked, scaled, found) = choose|
        asked: Vec<u32>,
        scaled: usize,
        found: Result<Vec<Candidate>, Error>,
    |
        {
            &&& asked@ == query
            &&& #[trigger] call_ensures(scale, (k, before.stats_for(label)), scaled)
            &&& #[trigger] call_ensures(
                search,
                (&index, &asked, bounded_candidates(k, scaled)),
                found,
            )
            &&& match found {
                Ok(candidates) => {
                    let kept = kept_candidates(candidates@, labelled, exclude);
                    &&& r matches Ok(list) && list@ == first_of(kept, k)
                    &&& after.filter_stats.items() == before.filter_stats.items().insert(
                        label,
                        before.stats_for(label).after(
                            candidates@.len() as usize,
                            kept.len() as usize,
                        ),
                    )
                },
                Err(error) => {
                    &&& r == Err::<Vec<Candidate>, Error>(error)
                    &&& after.filter_stats.items() == before.filter_stats.items().insert(
                        label,
                        before.stats_for(label),
                    )
                },
            }
        };
    let candidates = found->Ok_0@;
    law_kept_candidates(candidates, labelled, exclude);
    let kept = kept_candidates(candidates, labelled, exclude);
    assert forall|i: int| 0 <= i < r->Ok_0@.len() implies {
        let c = #[trigger] r->Ok_0@[i];
        &&& after.nodes().contains_key(c.node.0)
        &&& Some(after.nodes()[c.node.0].label) == after.interner.id_of(label)
        &&& exclude is Some ==> c.node != exclude->Some_0
    } by {
        assert(r->Ok_0@[i] == kept[i]);
        assert(labelled->Some_0.contains(kept[i].node.0));
    }
}

/// What a search among the nodes that pass a test says: the search goes through the vectors of
/// those nodes alone.
pub open spec fn tested_outcome<
    F: FnOnce(&VectorIndex, &Vec<u32>, usize) -> Result<Vec<Candidate>, Error>,
    P: Fn(&NodeId) -> bool,
>(
    search: F,
    predicate: P,
    whole: VectorIndex,
    query: Seq<u32>,
    k: usize,
    exclude: Option<NodeId>,
    r: Result<Vec<Candidate>, Error>,
) -> bool {
    exists|part: VectorIndex|
        {
            &&& part.config == whole.config
            &&& #[trigger] passing_but(whole, part, exclude, predicate)
            &&& plain_outcome(search, part, query, k, None, r)
        }
}

impl CurrentStorage {
    /// What a search among the nodes that pass a test, for a vector like the given one, says in the
    /// vectors of one property.
    pub open spec fn tested_embedding_search<
        F: FnOnce(&VectorIndex, &Vec<u32>, usize) -> Result<Vec<Candidate>, Error>,
        P: Fn(&NodeId) -> bool,
    >(
        self,
        search: F,
        predicate: P,
        name: Seq<char>,
        query: Seq<u32>,
        k: usize,
        r: Result<Vec<Candidate>, Error>,
    ) -> bool {
        let index = self.vector_indexes.items()[name];
        if query.len() == index.config.dimensions {
            tested_outcome(search, predicate, index, query, k, None, r)
        } else {
            r matches Err(error) && error@ == wrong_length(index.config, query)
        }
    }

    /// The `k` nodes that pass a test whose vectors are most like a given one, by a property.
    pub fn find_similar_with_predicate<
        F: FnOnce(&VectorIndex, &Vec<u32>, usize) -> Result<Vec<Candidate>, Error>,
        P: Fn(&NodeId) -> bool,
    >(&self, property_name: &str, query: &Vec<u32>, k: usize, predicate: P, search: F) -> (r: Result<
        Vec<Candidate>,
        Error,
    >)
        requires
            self.well_formed(),
            forall|i: &VectorIndex, q: &Vec<u32>, n: usize| call_requires(search, (i, q, n)),
            forall|id: &NodeId| call_requires(predicate, (id,)),
        ensures
            match self.search_refused(Some(property_name@)) {
                Some(refusal) => r matches Err(error) && error@ == refusal,
                None => self.tested_embedding_search(
                    search,
                    predicate,
                    property_name@,
                    query@,
                    k,
                    r,
                ),
            },
    {
        match self.get_vector_index_internal(Some(property_name)) {
            Ok((_, config)) => match validate_embedding_dimensions(query, &config) {
                Ok(_) => match self.vector_indexes.get(property_name) {
                    Some(index) => {
                        let part = part_that_passes(index, None, &predicate);
                        let r = run_vector_search(&part, query, k, None, search);
                        assert(passing_but(*index, part, None, predicate));
                        r
                    },
                    None => Ok(Vec::new()),
                },
                Err(error) => Err(error),
            },
            Err(error) => Err(error),
        }
    }

    /// The `k` nodes that pass a test whose vectors are most like a given one, by the property that
    /// comes first in the alphabet.
    pub fn find_similar_by_embedding_with_predicate<
        F: FnOnce(&VectorIndex, &Vec<u32>, usize) -> Result<Vec<Candidate>, Error>,
        P: Fn(&NodeId) -> bool,
    >(&self, embedding: &Vec<u32>, k: usize, predicate: P, search: F) -> (r: Result<
        Vec<Candidate>,
        Error,
    >)
        requires
            self.well_formed(),
            forall|i: &VectorIndex, q: &Vec<u32>, n: usize| call_requires(search, (i, q, n)),
            forall|id: &NodeId| call_requires(predicate, (id,)),
        ensures
            match self.search_refused(None) {
                Some(refusal) => r matches Err(error) && error@ == refusal,
                None => exists|name: Seq<char>| #[trigger]
                    self.searches(None, name) && self.tested_embedding_search(
                        search,
                        predicate,
                        name,
                        embedding@,
                        k,
                        r,
                    ),
            },
    {
        match self.get_vector_index_internal(None) {
            Ok((name, _)) => {
                assert(self.searches(None, name@));
                self.find_similar_with_predicate(name.as_str(), embedding, k, predicate, search)
            },
            Err(error) => Err(error),
        }
    }

    /// The `k` nodes that pass a test whose vectors are most like that of a node, without that
    /// node, by the property that comes first in the alphabet.
    pub fn find_similar_by_node_with_predicate<
        F: FnOnce(&VectorIndex, &Vec<u32>, usize) -> Result<Vec<Candidate>, Error>,
        P: Fn(&NodeId) -> bool,
    >(&self, query_node_id: NodeId, k: usize, predicate: P, search: F) -> (r: Result<
        Vec<Candidate>,
        Error,
    >)
        requires
            self.well_formed(),
            forall|i: &VectorIndex, q: &Vec<u32>, n: usize| call_requires(search, (i, q, n)),
            forall|id: &NodeId| call_requires(predicate, (id,)),
        ensures
            match self.search_refused(None) {
                Some(refusal) => r matches Err(error) && error@ == refusal,
                None => exists|name: Seq<char>| #[trigger]
                    self.searches(None, name) && match self.vector_of(query_node_id, name) {
                        Some(query) => tested_outcome(
                            search,
                            predicate,
                            self.vector_indexes.items()[name],
                            query,
                            k,
                            Some(query_node_id),
                            r,
                        ),
                        None => r matches Err(error) && error@ == self.lacks_vector(
                            query_node_id,
                            name,
                        ),
                    },
            },
    {
        match self.get_vector_index_internal(None) {
            Ok((name, _)) => {
                assert(self.searches(None, name@));
                match self.get_node_vector(query_node_id, name.as_str()) {
                    Ok(query) => match self.vector_indexes.get(name.as_str()) {
                        Some(index) => {
                            let part = part_that_passes(index, Some(query_node_id), &predicate);
                            let r = run_vector_search(&part, &query, k, None, search);
                            assert(passing_but(*index, part, Some(query_node_id), predicate));
                            r
                        },
                        None => Ok(Vec::new()),
                    },
                    Err(error) => Err(error),
                }
            },
            Err(error) => Err(error),
        }
    }
}

/// A search without a label gives at most `k` nodes, and not the excluded one.
pub proof fn law_search_result<
    F: FnOnce(&VectorIndex, &Vec<u32>, usize) -> Result<Vec<Candidate>, Error>,
>(
    search: F,
    index: VectorIndex,
    query: Seq<u32>,
    k: usize,
    exclude: Option<NodeId>,
    r: Result<Vec<Candidate>, Error>,
)
    requires
        plain_outcome(search, index, query, k, exclude, r),
        r is Ok,
    ensures
        r->Ok_0@.len() <= k,
        exclude is Some ==> forall|i: int|
            0 <= i < r->Ok_0@.len() ==> (#[trigger] r->Ok_0@[i]).node != exclude->Some_0,
{
    let (asked, found) = choose|asked: Vec<u32>, found: Result<Vec<Candidate>, Error>|
        {
            &&& asked@ == query
            &&& #[trigger] call_ensures(
                search,
                (&index, &asked, needed(k, exclude is Some)),
                found,
            )
            &&& match found {
                Ok(candidates) => r matches Ok(kept) && kept@ == first_of(
                    kept_candidates(candidates@, None, exclude),
                    k,
                ),
                Err(error) => r == Err::<Vec<Candidate>, Error>(error),
            }
        };
    let candidates = found->Ok_0@;
    law_kept_candidates(candidates, None, exclude);
    let kept = kept_candidates(candidates, None, exclude);
    assert forall|i: int| 0 <= i < r->Ok_0@.len() && exclude is Some implies (
    #[trigger] r->Ok_0@[i]).node != exclude->Some_0 by {
        assert(r->Ok_0@[i] == kept[i]);
    }
}

/// One more candidate is asked for than is wanted exactly if one is excluded.
pub proof fn law_one_more_where_one_is_excluded(k: usize)
    requires
        k < usize::MAX,
    ensures
        needed(k, true) == k + 1,
        needed(k, false) == k,
{
}

/// A search is refused exactly if the property that is asked for is not indexed or, where none is
/// asked for, if no property is. Otherwise it uses the property that is asked for or, where none
/// is, the one whose name comes no later than any other.
pub proof fn law_which_property_is_searched(
    storage: CurrentStorage,
    asked: Seq<char>,
    name: Seq<char>,
    other: Seq<char>,
)
    ensures
        storage.search_refused(Some(asked)) is None <==> storage.vector_indexes.items().contains_key(asked),
        storage.search_refused(None) is None <==> exists|n: Seq<char>| #[trigger]
            storage.vector_indexes.items().contains_key(n),
        storage.searches(Some(asked), name) ==> name == asked
            && storage.vector_indexes.items().contains_key(name),
        storage.searches(None, name) && storage.vector_indexes.items().contains_key(other)
            ==> crate::text::in_order(name, other),
        storage.searches(None, name) ==> storage.vector_indexes.items().contains_key(name),
{
    let items = storage.vector_indexes.items();
    if !items.is_empty() {
        let n = items.dom().choose();
        assert(items.dom().contains(n)) by {
            if items.dom() =~= Set::empty() {
                assert(items =~= Map::empty());
            }
        }
        assert(items.contains_key(n));
    }
}

/// What comes back of a search is cut off after as many as are wanted, in its order, without the
/// excluded node. An error comes back as it is.
pub proof fn law_search_hands_on_what_is_found<
    F: FnOnce(&VectorIndex, &Vec<u32>, usize) -> Result<Vec<Candidate>, Error>,
>(
    search: F,
    index: VectorIndex,
    query: Seq<u32>,
    k: usize,
    exclude: Option<NodeId>,
    r: Result<Vec<Candidate>, Error>,
    always: Result<Vec<Candidate>, Error>,
)
    requires
        k < usize::MAX,
        plain_outcome(search, index, query, k, exclude, r),
        forall|asked: Vec<u32>, n: usize, found: Result<Vec<Candidate>, Error>| #[trigger]
            call_ensures(search, (&index, &asked, n), found) && asked@ == query ==> found == always,
    ensures
        always is Err ==> r == always,
        always matches Ok(candidates) ==> {
            let others = candidates@.filter(|c: Candidate| exclude != Some(c.node));
            &&& r matches Ok(list)
            &&& list@ == (if others.len() <= k {
                others
            } else {
                others.take(k as int)
            })
        },
{
    let (asked, found) = choose|asked: Vec<u32>, found: Result<Vec<Candidate>, Error>|
        {
            &&& asked@ == query
            &&& #[trigger] call_ensures(
                search,
                (&index, &asked, needed(k, exclude is Some)),
                found,
            )
            &&& match found {
                Ok(candidates) => r matches Ok(kept) && kept@ == first_of(
                    kept_candidates(candidates@, None, exclude),
                    k,
                ),
                Err(error) => r == Err::<Vec<Candidate>, Error>(error),
            }
        };
    assert(found == always);
    if always is Ok {
        let candidates = always->Ok_0@;
        lemma_others_kept(candidates, exclude);
        assert(r is Ok);
        assert(r->Ok_0@ == first_of(candidates.filter(|c: Candidate| exclude != Some(c.node)), k));
    }
}

proof fn lemma_others_kept(candidates: Seq<Candidate>, exclude: Option<NodeId>)
    ensures
        kept_candidates(candidates, None, exclude) == candidates.filter(
            |c: Candidate| exclude != Some(c.node),
        ),
    decreases candidates.len(),
{
    reveal(Seq::filter);
    if candidates.len() > 0 {
        lemma_others_kept(candidates.drop_last(), exclude);
    }
}

/// A search for a label gives, of what is found, the first as many as are wanted of the nodes that
/// have the label and are not excluded, in the order in which they were found. It is counted with
/// all that was found and all that was kept, also beyond what was wanted.
pub proof fn law_labelled_search_keeps_the_label<
    F: FnOnce(&VectorIndex, &Vec<u32>, usize) -> Result<Vec<Candidate>, Error>,
    G: FnOnce(usize, FilterStats) -> usize,
>(
    before: CurrentStorage,
    after: CurrentStorage,
    search: F,
    scale: G,
    index: VectorIndex,
    query: Seq<u32>,
    k: usize,
    label: Seq<char>,
    label_id: InternedString,
    exclude: Option<NodeId>,
    r: Result<Vec<Candidate>, Error>,
    candidates: Vec<Candidate>,
)
    requires
        labelled_outcome(
            before,
            after,
            search,
            scale,
            index,
            query,
            k,
            label,
            exclude,
            r,
        ),
        after.interner.id_of(label) == Some(label_id),
        forall|asked: Vec<u32>, n: usize, found: Result<Vec<Candidate>, Error>| #[trigger]
            call_ensures(search, (&index, &asked, n), found) && asked@ == query ==> found == Ok::<
                Vec<Candidate>,
                Error,
            >(candidates),
    ensures
        ({
            let wanted = candidates@.filter(
                |c: Candidate|
                    after.nodes().contains_key(c.node.0) && after.nodes()[c.node.0].label == label_id
                        && exclude != Some(c.node),
            );
            &&& r matches Ok(list)
            &&& list@ == (if wanted.len() <= k {
                wanted
            } else {
                wanted.take(k as int)
            })
            &&& after.filter_stats.items().contains_key(label)
            &&& after.filter_stats.items()[label] == before.stats_for(label).after(
                candidates@.len() as usize,
                wanted.len() as usize,
            )
        }),
{
    let labelled = after.with_label(after.interner.id_of(label));
    let (asked, scaled, found) = choose|
        asked: Vec<u32>,
        scaled: usize,
        found: Result<Vec<Candidate>, Error>,
    |
        {
            &&& asked@ == query
            &&& #[trigger] call_ensures(scale, (k, before.stats_for(label)), scaled)
            &&& #[trigger] call_ensures(
                search,
                (&index, &asked, bounded_candidates(k, scaled)),
                found,
            )
            &&& match found {
                Ok(candidates) => {
                    let kept = kept_candidates(candidates@, labelled, exclude);
                    &&& r matches Ok(list) && list@ == first_of(kept, k)
                    &&& after.filter_stats.items() == before.filter_stats.items().insert(
                        label,
                        before.stats_for(label).after(
                            candidates@.len() as usize,
                            kept.len() as usize,
                        ),
                    )
                },
                Err(error) => {
                    &&& r == Err::<Vec<Candidate>, Error>(error)
                    &&& after.filter_stats.items() == before.filter_stats.items().insert(
                        label,
                        before.stats_for(label),
                    )
                },
            }
        };
    assert(found == Ok::<Vec<Candidate>, Error>(candidates));
    lemma_labelled_kept(after, candidates@, label_id, exclude);
}

proof fn lemma_labelled_kept(
    storage: CurrentStorage,
    candidates: Seq<Candidate>,
    label: InternedString,
    exclude: Option<NodeId>,
)
    ensures
        kept_candidates(candidates, storage.with_label(Some(label)), exclude) == candidates.filter(
            |c: Candidate|
                storage.nodes().contains_key(c.node.0) && storage.nodes()[c.node.0].label == label
                    && exclude != Some(c.node),
        ),
    decreases candidates.len(),
{
    reveal(Seq::filter);
    if candidates.len() > 0 {
        lemma_labelled_kept(storage, candidates.drop_last(), label, exclude);
    }
}

/// A search for nodes like a given one fails where the node has no vector under the name, and tells
/// whether the node, the property or the vector is missing. Otherwise it gives at most as many
/// nodes as are wanted, and not the node itself.
pub proof fn law_nodes_like_a_node<
    F: FnOnce(&VectorIndex, &Vec<u32>, usize) -> Result<Vec<Candidate>, Error>,
>(
    storage: CurrentStorage,
    search: F,
    name: Seq<char>,
    node_id: NodeId,
    k: usize,
    r: Result<Vec<Candidate>, Error>,
)
    requires
        storage.node_search(search, name, node_id, k, r),
    ensures
        r matches Ok(list) ==> {
            &&& storage.nodes().contains_key(node_id.0)
            &&& list@.len() <= k
            &&& forall|i: int| 0 <= i < list@.len() ==> (#[trigger] list@[i]).node != node_id
        },
        !storage.nodes().contains_key(node_id.0) ==> r is Err && r->Err_0@ == ErrorView::NodeNotFound(
            node_id,
        ),
        storage.nodes().contains_key(node_id.0) && !storage.interner.texts().contains(name) ==> r is Err
            && r->Err_0@ == ErrorView::PropertyNotFound(name),
{
    if r is Ok {
        law_search_result(
            search,
            storage.vector_indexes.items()[name],
            storage.vector_of(node_id, name)->Some_0,
            k,
            Some(node_id),
            r,
        );
    }
}

/// A search for vectors like a given one fails where that is not as long as those of the index, and
/// tells both lengths. Otherwise it gives at most as many nodes as are wanted.
pub proof fn law_nodes_like_a_vector<
    F: FnOnce(&VectorIndex, &Vec<u32>, usize) -> Result<Vec<Candidate>, Error>,
>(
    storage: CurrentStorage,
    search: F,
    name: Seq<char>,
    embedding: Seq<u32>,
    k: usize,
    r: Result<Vec<Candidate>, Error>,
)
    requires
        storage.embedding_search(search, name, embedding, k, r),
        embedding.len() <= usize::MAX,
    ensures
        ({
            let dimensions = storage.vector_indexes.items()[name].config.dimensions;
            &&& embedding.len() != dimensions ==> r is Err && r->Err_0@ == (
            ErrorView::DimensionMismatch { expected: dimensions, actual: embedding.len() as usize })
            &&& r is Ok ==> embedding.len() == dimensions && r->Ok_0@.len() <= k
        }),
{
    if r is Ok {
        law_search_result(search, storage.vector_indexes.items()[name], embedding, k, None, r);
    }
}

/// A search for nodes with a label and a vector like a given one fails where that is not as long as
/// those of the index, tells both lengths, and changes nothing then. Otherwise it gives at most as
/// many nodes as are wanted.
pub proof fn law_labelled_nodes_like_a_vector<
    F: FnOnce(&VectorIndex, &Vec<u32>, usize) -> Result<Vec<Candidate>, Error>,
    G: FnOnce(usize, FilterStats) -> usize,
>(
    storage: CurrentStorage,
    after: CurrentStorage,
    search: F,
    scale: G,
    name: Seq<char>,
    embedding: Seq<u32>,
    k: usize,
    label: Seq<char>,
    r: Result<Vec<Candidate>, Error>,
)
    requires
        labelled_embedding_search(storage, after, search, scale, name, embedding, k, label, r),
        embedding.len() <= usize::MAX,
    ensures
        ({
            let dimensions = storage.vector_indexes.items()[name].config.dimensions;
            &&& embedding.len() != dimensions ==> after == storage && r is Err && r->Err_0@ == (
            ErrorView::DimensionMismatch { expected: dimensions, actual: embedding.len() as usize })
            &&& r is Ok ==> embedding.len() == dimensions && r->Ok_0@.len() <= k
        }),
{
    if r is Ok {
        law_labelled_search_result(
            storage,
            after,
            search,
            scale,
            storage.vector_indexes.items()[name],
            embedding,
            k,
            label,
            None,
            r,
        );
    }
}

/// A search among nodes that pass a test finds only such: where the search gives only nodes whose
/// vectors it was handed, each node that comes back has a vector, passed the test, and is not the
/// excluded one.
pub proof fn law_found_nodes_passed_the_test<
    F: FnOnce(&VectorIndex, &Vec<u32>, usize) -> Result<Vec<Candidate>, Error>,
    P: Fn(&NodeId) -> bool,
>(
    search: F,
    predicate: P,
    whole: VectorIndex,
    query: Seq<u32>,
    k: usize,
    exclude: Option<NodeId>,
    r: Result<Vec<Candidate>, Error>,
    i: int,
)
    requires
        tested_outcome(search, predicate, whole, query, k, exclude, r),
        forall|index: VectorIndex, asked: Vec<u32>, n: usize, found: Vec<Candidate>, j: int|
            #![trigger call_ensures(search, (&index, &asked, n), Ok(found)), found@[j]]
            call_ensures(search, (&index, &asked, n), Ok(found)) && 0 <= j < found@.len()
                ==> index.vectors@.contains_key(found@[j].node.0),
        r is Ok,
        0 <= i < r->Ok_0@.len(),
    ensures
        ({
            let node = r->Ok_0@[i].node;
            &&& r->Ok_0@.len() <= k
            &&& whole.vectors@.contains_key(node.0)
            &&& exclude != Some(node)
            &&& call_ensures(predicate, (&node,), true)
        }),
{
    let part = choose|part: VectorIndex|
        {
            &&& part.config == whole.config
            &&& #[trigger] passing_but(whole, part, exclude, predicate)
            &&& plain_outcome(search, part, query, k, None, r)
        };
    let (asked, found) = choose|asked: Vec<u32>, found: Result<Vec<Candidate>, Error>|
        {
            &&& asked@ == query
            &&& #[trigger] call_ensures(search, (&part, &asked, needed(k, false)), found)
            &&& match found {
                Ok(candidates) => r matches Ok(kept) && kept@ == first_of(
                    kept_candidates(candidates@, None, None),
                    k,
                ),
                Err(error) => r == Err::<Vec<Candidate>, Error>(error),
            }
        };
    let candidates = found->Ok_0;
    law_kept_candidates(candidates@, None, None);
    let kept = kept_candidates(candidates@, None, None);
    assert(r->Ok_0@[i] == kept[i]);
    let j = choose|j: int| 0 <= j < candidates@.len() && candidates@[j] == kept[i];
    assert(call_ensures(search, (&part, &asked, needed(k, false)), Ok(candidates)));
    assert(part.vectors@.contains_key(candidates@[j].node.0));
    let node = r->Ok_0@[i].node;
    assert(NodeId(node.0) == node);
}

/// A search among nodes that pass a test goes through all of them: the vector of every node that the
/// test cannot refuse and that is not excluded is among those that are searched, as it is.
pub proof fn law_all_that_pass_are_searched<P: Fn(&NodeId) -> bool>(
    whole: VectorIndex,
    part: VectorIndex,
    exclude: Option<NodeId>,
    predicate: P,
    id: u64,
)
    requires
        passing_but(whole, part, exclude, predicate),
        whole.vectors@.contains_key(id),
    ensures
        exclude != Some(NodeId(id)) && !call_ensures(predicate, (&NodeId(id),), false)
            ==> part.vectors@.contains_key(id) && part.vectors@[id]@ == whole.vectors@[id]@,
        exclude == Some(NodeId(id)) || !call_ensures(predicate, (&NodeId(id),), true)
            ==> !part.vectors@.contains_key(id),
{
}

} // verus!

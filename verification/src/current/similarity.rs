//! Looking for similar nodes: what is decided before and after vectors are compared.

use super::search::{
    cut_off, first_of, kept_candidates, Candidate, FilterStats,
};
use super::storage::CurrentStorage;
use super::vector_admin::index_error;
use super::vector_registry::vector_at;
use super::vectors::{copy_vector, HnswConfig};
use crate::error::{Error, ErrorView, StorageError, VectorError};
use crate::ids::{InternedString, NodeId};
use crate::property::PropertyValue;
use vstd::prelude::*;

verus! {

broadcast use vstd::std_specs::hash::group_hash_axioms;

/// The message that no property is indexed.
pub open spec fn no_index() -> Seq<char> {
    "Vector index is not enabled. Call db.vector_index(\"...\").hnsw(...).enable() first."@
}

/// The message that a property is not indexed.
pub open spec fn no_index_for(name: Seq<char>) -> Seq<char> {
    "Vector index not found for property '"@ + name + "'"@
}

/// The message that no property is tracked over time.
pub open spec fn no_temporal_index() -> Seq<char> {
    "Temporal vector index is not enabled. Call enable_temporal_vector_index() first."@
}

/// The message that a property is not tracked over time.
pub open spec fn no_temporal_index_for(name: Seq<char>) -> Seq<char> {
    "No temporal vector index enabled for property '"@ + name + "'. Call db.vector_index(\""@
        + name + "\").temporal(...).enable() first."@
}

/// Whether a vector is as long as those of an index.
pub fn validate_embedding_dimensions(embedding: &Vec<u32>, config: &HnswConfig) -> (r: Result<
    (),
    Error,
>)
    ensures
        match r {
            Ok(_) => embedding@.len() == config.dimensions,
            Err(error) => {
                &&& embedding@.len() != config.dimensions
                &&& error@ == (ErrorView::DimensionMismatch {
                    expected: config.dimensions,
                    actual: embedding@.len() as usize,
                })
            },
        },
{
    if embedding.len() != config.dimensions {
        Err(
            Error::Vector(
                VectorError::DimensionMismatch {
                    expected: config.dimensions,
                    actual: embedding.len(),
                },
            ),
        )
    } else {
        Ok(())
    }
}

impl CurrentStorage {
    /// The property whose index a search uses, and how it is indexed: the one that is asked for,
    /// else the one that comes first in the alphabet.
    pub fn get_vector_index_internal(&self, property_name: Option<&str>) -> (r: Result<
        (String, HnswConfig),
        Error,
    >)
        requires
            self.well_formed(),
        ensures
            match r {
                Ok(found) => {
                    &&& self.vector_indexes.items().contains_key(found.0@)
                    &&& found.1 == self.vector_indexes.items()[found.0@].config
                    &&& match property_name {
                        Some(name) => found.0@ == name@,
                        None => self.vector_indexes.is_first(found.0@),
                    }
                },
                Err(error) => match property_name {
                    Some(name) => {
                        &&& !self.vector_indexes.items().contains_key(name@)
                        &&& error@ == ErrorView::IndexError(no_index_for(name@))
                    },
                    None => {
                        &&& self.vector_indexes.items().is_empty()
                        &&& error@ == ErrorView::IndexError(no_index())
                    },
                },
            },
    {
        let name = match property_name {
            Some(name) => String::from_str(name),
            None => match self.vector_indexes.default_name() {
                Some(name) => name,
                None => {
                    return Err(
                        Error::Vector(
                            VectorError::IndexError(
                                String::from_str(
                                    "Vector index is not enabled. Call db.vector_index(\"...\").hnsw(...).enable() first.",
                                ),
                            ),
                        ),
                    );
                },
            },
        };
        match self.vector_indexes.get(name.as_str()) {
            Some(index) => {
                let config = index.config;
                Ok((name, config))
            },
            None => Err(
                index_error("Vector index not found for property '", name.as_str(), "'"),
            ),
        }
    }

    /// The property whose vectors over time a search uses: the one that is asked for, else the one
    /// that comes first in the alphabet.
    pub fn temporal_property(&self, property_name: Option<&str>) -> (r: Result<String, Error>)
        requires
            self.well_formed(),
        ensures
            match r {
                Ok(found) => {
                    &&& self.temporal_vector_indexes.items().contains_key(found@)
                    &&& match property_name {
                        Some(name) => found@ == name@,
                        None => self.temporal_vector_indexes.is_first(found@),
                    }
                },
                Err(error) => match property_name {
                    Some(name) => {
                        &&& !self.temporal_vector_indexes.items().contains_key(name@)
                        &&& error@ == ErrorView::IndexError(no_temporal_index_for(name@))
                    },
                    None => {
                        &&& self.temporal_vector_indexes.items().is_empty()
                        &&& error@ == ErrorView::IndexError(no_temporal_index())
                    },
                },
            },
    {
        match property_name {
            Some(name) => {
                if self.temporal_vector_indexes.contains(name) {
                    Ok(String::from_str(name))
                } else {
                    let mut text = String::from_str(
                        "No temporal vector index enabled for property '",
                    );
                    text.append(name);
                    text.append("'. Call db.vector_index(\"");
                    text.append(name);
                    text.append("\").temporal(...).enable() first.");
                    Err(Error::Vector(VectorError::IndexError(text)))
                }
            },
            None => match self.temporal_vector_indexes.default_name() {
                Some(name) => Ok(name),
                None => Err(
                    Error::Vector(
                        VectorError::IndexError(
                            String::from_str(
                                "Temporal vector index is not enabled. Call enable_temporal_vector_index() first.",
                            ),
                        ),
                    ),
                ),
            },
        }
    }

    /// Why a node's vector cannot be had: the node is not there, it does not have the property, or
    /// the property is not a vector.
    pub open spec fn lacks_vector(self, node_id: NodeId, name: Seq<char>) -> ErrorView {
        if !self.nodes().contains_key(node_id.0) {
            ErrorView::NodeNotFound(node_id)
        } else if self.interner.id_of(name) is None
            || !self.nodes()[node_id.0].properties@.contains_key(
            self.interner.id_of(name)->Some_0.0,
        ) {
            ErrorView::PropertyNotFound(name)
        } else {
            ErrorView::InvalidVector { reason: "Property is not a vector"@ }
        }
    }

    /// The vector of a node.
    pub fn get_node_vector(&self, node_id: NodeId, prop_name: &str) -> (r: Result<Vec<u32>, Error>)
        requires
            self.well_formed(),
        ensures
            match r {
                Ok(vector) => {
                    &&& self.nodes().contains_key(node_id.0)
                    &&& vector_at(
                        self.interner,
                        self.nodes()[node_id.0].properties@,
                        prop_name@,
                    ) == Some(vector@)
                },
                Err(error) => {
                    &&& self.nodes().contains_key(node_id.0)
                        ==> vector_at(
                        self.interner,
                        self.nodes()[node_id.0].properties@,
                        prop_name@,
                    ) is None
                    &&& error@ == self.lacks_vector(node_id, prop_name@)
                },
            },
    {
        let node = match self.indexes.nodes.get(&node_id.0) {
            Some(node) => node,
            None => {
                return Err(Error::Storage(StorageError::NodeNotFound(node_id)));
            },
        };
        let key = match self.interner.get_id(prop_name) {
            Some(key) => key,
            None => {
                return Err(
                    Error::Storage(StorageError::PropertyNotFound(String::from_str(prop_name))),
                );
            },
        };
        match node.properties.get(key) {
            None => Err(
                Error::Storage(StorageError::PropertyNotFound(String::from_str(prop_name))),
            ),
            Some(PropertyValue::Vector(vector)) => Ok(copy_vector(vector)),
            Some(_) => Err(
                Error::Vector(
                    VectorError::InvalidVector {
                        reason: String::from_str("Property is not a vector"),
                    },
                ),
            ),
        }
    }

    /// How searches for a label went; nothing was searched where none is noted.
    pub open spec fn stats_for(self, label: Seq<char>) -> FilterStats {
        if self.filter_stats.items().contains_key(label) {
            self.filter_stats.items()[label]
        } else {
            FilterStats { search_count: 0, total_candidates: 0, total_results: 0 }
        }
    }

    /// How searches for a label went, which are noted from now on.
    pub fn get_or_create_filter_stats(&mut self, label: &str) -> (r: FilterStats)
        requires
            old(self).well_formed(),
        ensures
            final(self).well_formed(),
            r == old(self).stats_for(label@),
            *final(self) == (CurrentStorage {
                filter_stats: final(self).filter_stats,
                ..*old(self)
            }),
            final(self).filter_stats.items() == old(self).filter_stats.items().insert(label@, r),
    {
        match self.filter_stats.get(label) {
            Some(stats) => {
                let r = *stats;
                assert(self.filter_stats.items().insert(label@, r)
                    =~= self.filter_stats.items());
                r
            },
            None => {
                let r = FilterStats::new();
                self.filter_stats.set(label, r);
                r
            },
        }
    }

    /// How searches for a label went: how many there were, how many candidates came back, and how
    /// many were kept.
    pub fn get_filter_stats(&self, label: &str) -> (r: Option<(u64, u64, u64)>)
        requires
            self.well_formed(),
        ensures
            r == (if self.filter_stats.items().contains_key(label@) {
                let stats = self.filter_stats.items()[label@];
                Some((stats.search_count, stats.total_candidates, stats.total_results))
            } else {
                None
            }),
    {
        match self.filter_stats.get(label) {
            Some(stats) => Some(
                (stats.search_count, stats.total_candidates, stats.total_results),
            ),
            None => None,
        }
    }

    /// Begins a search for nodes with a label: the label's number, and how such searches went.
    pub fn begin_labelled_search(&mut self, label: &str) -> (r: Result<
        (InternedString, FilterStats),
        Error,
    >)
        requires
            old(self).well_formed(),
        ensures
            final(self).well_formed(),
            *final(self) == (CurrentStorage {
                interner: final(self).interner,
                filter_stats: final(self).filter_stats,
                ..*old(self)
            }),
            old(self).interner.after_intern(label@, final(self).interner),
            match r {
                Ok(begun) => {
                    &&& old(self).interner.id_of(label@) is Some || old(self).interner.strings@.len()
                        < old(self).interner.limit
                    &&& final(self).interner.id_of(label@) == Some(begun.0)
                    &&& begun.1 == old(self).stats_for(label@)
                    &&& final(self).filter_stats.items() == old(self).filter_stats.items().insert(
                        label@,
                        begun.1,
                    )
                },
                Err(error) => {
                    &&& old(self).interner.id_of(label@) is None
                    &&& old(self).interner.strings@.len() >= old(self).interner.limit
                    &&& error@ == old(self).no_more_strings()
                    &&& final(self).filter_stats == old(self).filter_stats
                },
            },
    {
        match self.interner.intern(label) {
            Ok(label_id) => {
                let stats = self.get_or_create_filter_stats(label);
                Ok((label_id, stats))
            },
            Err(error) => Err(error),
        }
    }

    /// The candidates that are neither excluded nor, where a label is asked for, without it.
    fn keep(
        &self,
        candidates: &Vec<Candidate>,
        label: Option<InternedString>,
        exclude: Option<NodeId>,
    ) -> (r: Vec<Candidate>)
        ensures
            r@ == kept_candidates(candidates@, self.with_label(label), exclude),
    {
        let mut out: Vec<Candidate> = Vec::new();
        let mut i: usize = 0;
        assert(out@ =~= kept_candidates(candidates@.take(0), self.with_label(label), exclude));
        while i < candidates.len()
            invariant
                i <= candidates.len(),
                out@ == kept_candidates(
                    candidates@.take(i as int),
                    self.with_label(label),
                    exclude,
                ),
            decreases candidates.len() - i,
        {
            let candidate = candidates[i];
            let labelled = match label {
                Some(label_id) => match self.indexes.nodes.get(&candidate.node.0) {
                    Some(node) => node.label == label_id,
                    None => false,
                },
                None => true,
            };
            let excluded = match exclude {
                Some(id) => candidate.node == id,
                None => false,
            };
            if labelled && !excluded {
                out.push(candidate);
            }
            i = i + 1;
            assert(candidates@.take(i as int).drop_last() =~= candidates@.take(i - 1));
        }
        assert(candidates@.take(i as int) =~= candidates@);
        out
    }

    /// The numbers of the nodes with a label, where one is asked for.
    pub open spec fn with_label(self, label: Option<InternedString>) -> Option<Set<u64>> {
        match label {
            Some(label_id) => Some(self.live(Some(label_id))),
            None => None,
        }
    }

    /// Ends a search: of the candidates that came back, in order, the first `k` that are neither
    /// excluded nor without the label. A search for a label is noted, with all candidates that were
    /// kept, also those beyond `k`.
    pub fn finish_search(
        &mut self,
        candidates: &Vec<Candidate>,
        k: usize,
        label: Option<&str>,
        exclude: Option<NodeId>,
    ) -> (r: Vec<Candidate>)
        requires
            old(self).well_formed(),
        ensures
            final(self).well_formed(),
            match label {
                Some(label) => match old(self).interner.id_of(label@) {
                    Some(label_id) => {
                        let kept = kept_candidates(
                            candidates@,
                            old(self).with_label(Some(label_id)),
                            exclude,
                        );
                        &&& r@ == first_of(kept, k)
                        &&& final(self).filter_stats.items() == old(self).filter_stats.items().insert(
                            label@,
                            old(self).stats_for(label@).after(
                                candidates@.len() as usize,
                                kept.len() as usize,
                            ),
                        )
                    },
                    None => {
                        &&& r@.len() == 0
                        &&& final(self).filter_stats.items() == old(self).filter_stats.items().insert(
                            label@,
                            old(self).stats_for(label@).after(candidates@.len() as usize, 0),
                        )
                    },
                },
                None => {
                    &&& r@ == first_of(kept_candidates(candidates@, None, exclude), k)
                    &&& final(self).filter_stats == old(self).filter_stats
                },
            },
            *final(self) == (CurrentStorage {
                filter_stats: final(self).filter_stats,
                ..*old(self)
            }),
    {
        match label {
            Some(label) => {
                let kept = match self.interner.get_id(label) {
                    Some(label_id) => self.keep(candidates, Some(label_id), exclude),
                    None => Vec::new(),
                };
                let stats = self.get_or_create_filter_stats(label);
                let counted = stats.record_search(candidates.len(), kept.len());
                let ghost before = self.filter_stats.items();
                self.filter_stats.set(label, counted);
                assert(self.filter_stats.items() =~= old(self).filter_stats.items().insert(
                    label@,
                    counted,
                ));
                cut_off(&kept, k)
            },
            None => {
                let kept = self.keep(candidates, None, exclude);
                cut_off(&kept, k)
            },
        }
    }
}

/// Why a node has no vector under a name is told: the node is not there; or it does not have the
/// property; or it has something else under it.
pub proof fn law_why_there_is_no_vector(storage: CurrentStorage, node_id: NodeId, name: Seq<char>, i: u32)
    requires
        storage.interner.well_formed(),
        i < storage.interner.strings@.len(),
        storage.interner.strings@[i as int]@ == name,
    ensures
        !storage.nodes().contains_key(node_id.0) ==> storage.lacks_vector(node_id, name)
            == ErrorView::NodeNotFound(node_id),
        storage.nodes().contains_key(node_id.0) && !storage.nodes()[node_id.0].properties@.contains_key(i)
            ==> storage.lacks_vector(node_id, name) == ErrorView::PropertyNotFound(name),
        storage.nodes().contains_key(node_id.0) && storage.nodes()[node_id.0].properties@.contains_key(i)
            ==> storage.lacks_vector(node_id, name) is InvalidVector,
{
    let texts = storage.interner.texts();
    assert(texts[i as int] == name);
    assert(texts[texts.index_of(name)] == name);
}

/// How searches for a label went is what is noted of it; where nothing is noted, nothing was
/// searched.
pub proof fn law_noted_searches(storage: CurrentStorage, label: Seq<char>)
    ensures
        storage.filter_stats.items().contains_key(label) ==> storage.stats_for(label)
            == storage.filter_stats.items()[label],
        !storage.filter_stats.items().contains_key(label) ==> storage.stats_for(label).search_count == 0
            && storage.stats_for(label).total_candidates == 0 && storage.stats_for(label).total_results == 0,
{
}

} // verus!

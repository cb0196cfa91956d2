//! Which properties have their vectors indexed.

use super::named::Named;
use super::storage::CurrentStorage;
use super::vector_registry::{find_vector, vector_at};
use super::vectors::{
    empty_store, empty_track, misfit, DistanceMetric, HnswConfig, StoreView, TemporalVectorConfig, TemporalVectorIndex,
    VectorIndex, VectorStore,
};
use crate::error::{Error, ErrorView, VectorError};
use crate::graph::Node;
use crate::interning::{texts_of, StringInterner};
use crate::maps::{keys_of, lists_keys};
use crate::temporal::HybridTimestamp;
use crate::text::{decimal, push_decimal};
use vstd::prelude::*;

verus! {

broadcast use vstd::std_specs::hash::group_hash_axioms;

/// How many properties may have their vectors indexed.
pub const DEFAULT_MAX_VECTOR_PROPERTIES: usize = 10;

/// A property whose vectors are indexed.
#[derive(Debug)]
pub struct VectorIndexInfo {
    /// The property.
    pub property_name: String,
    /// How long its vectors are.
    pub dimensions: usize,
    /// How distance is measured.
    pub distance_metric: DistanceMetric,
}

/// The message that no more properties may be indexed.
pub open spec fn too_many_indexes(property: Seq<char>) -> Seq<char> {
    "Maximum number of vector-indexed properties ("@ + decimal(
        DEFAULT_MAX_VECTOR_PROPERTIES as nat,
    ) + ") reached. Cannot enable index for property '"@ + property + "'"@
}

/// The message that a property is indexed already.
pub open spec fn index_exists(property: Seq<char>) -> Seq<char> {
    "Vector index already enabled for property '"@ + property + "'"@
}

/// The message that a property is tracked over time already.
pub open spec fn temporal_index_exists(property: Seq<char>) -> Seq<char> {
    "Temporal vector index is already enabled for property '"@ + property + "'"@
}

/// An error with text around a property's name.
pub fn index_error(before: &str, property: &str, after: &str) -> (r: Error)
    ensures
        r@ == ErrorView::IndexError(before@ + property@ + after@),
{
    let mut text = String::from_str(before);
    text.append(property);
    text.append(after);
    Error::Vector(VectorError::IndexError(text))
}

/// The vectors that nodes have under a name.
pub open spec fn node_vectors(
    nodes: Map<u64, Node>,
    interner: StringInterner,
    name: Seq<char>,
) -> Map<u64, Seq<u32>> {
    Map::new(
        |k: u64|
            nodes.contains_key(k) && vector_at(interner, nodes[k].properties@, name) is Some,
        |k: u64| vector_at(interner, nodes[k].properties@, name)->Some_0,
    )
}

/// Filling vectors in twice is filling them in once.
pub proof fn law_rebuild_is_idempotent(vectors: Map<u64, Seq<u32>>, found: Map<u64, Seq<u32>>)
    ensures
        vectors.union_prefer_right(found).union_prefer_right(found) == vectors.union_prefer_right(
            found,
        ),
{
    assert(vectors.union_prefer_right(found).union_prefer_right(found)
        =~= vectors.union_prefer_right(found));
}

impl CurrentStorage {
    /// Indexes the vectors of a property. There may be ten such properties; that is checked before
    /// whether this one is indexed already.
    pub fn enable_vector_index(&mut self, property_name: &str, config: HnswConfig) -> (r: Result<
        (),
        Error,
    >)
        requires
            old(self).well_formed(),
        ensures
            final(self).well_formed(),
            *final(self) == (CurrentStorage {
                vector_indexes: final(self).vector_indexes,
                ..*old(self)
            }),
            old(self).enabled(*final(self), property_name@, config, r),
    {
        if self.vector_indexes.len() >= DEFAULT_MAX_VECTOR_PROPERTIES {
            let mut text = String::from_str("Maximum number of vector-indexed properties (");
            push_decimal(&mut text, DEFAULT_MAX_VECTOR_PROPERTIES as u64);
            text.append(") reached. Cannot enable index for property '");
            text.append(property_name);
            text.append("'");
            return Err(Error::Vector(VectorError::IndexError(text)));
        }
        if self.vector_indexes.contains(property_name) {
            return Err(
                index_error("Vector index already enabled for property '", property_name, "'"),
            );
        }
        self.vector_indexes.set(property_name, VectorIndex::new(config));
        Ok(())
    }

    /// What enabling an index does: it fails when there are as many as there may be, or the
    /// property has one; otherwise an empty index is there.
    pub open spec fn enabled(
        self,
        other: CurrentStorage,
        name: Seq<char>,
        config: HnswConfig,
        r: Result<(), Error>,
    ) -> bool {
        let before = self.vector_indexes.items();
        if before.len() >= DEFAULT_MAX_VECTOR_PROPERTIES {
            &&& r is Err
            &&& r->Err_0@ == ErrorView::IndexError(too_many_indexes(name))
            &&& other.vector_indexes == self.vector_indexes
        } else if before.contains_key(name) {
            &&& r is Err
            &&& r->Err_0@ == ErrorView::IndexError(index_exists(name))
            &&& other.vector_indexes == self.vector_indexes
        } else {
            &&& r is Ok
            &&& exists|index: VectorIndex|
                {
                    &&& #[trigger] index.state() == empty_store(config)
                    &&& index.config == config
                    &&& other.vector_indexes.items() == before.insert(name, index)
                }
        }
    }

    /// Whether the vectors of any property are indexed.
    pub fn is_vector_index_enabled(&self) -> (r: bool)
        ensures
            r == !self.vector_indexes.items().is_empty(),
    {
        !self.vector_indexes.is_empty()
    }

    /// Whether the vectors of a property are indexed.
    pub fn is_vector_index_enabled_for(&self, property_name: &str) -> (r: bool)
        ensures
            r == self.vector_indexes.items().contains_key(property_name@),
    {
        self.vector_indexes.contains(property_name)
    }

    /// Whether the vectors of a property are indexed.
    pub fn has_vector_index(&self, property_name: &str) -> (r: bool)
        ensures
            r == self.vector_indexes.items().contains_key(property_name@),
    {
        self.is_vector_index_enabled_for(property_name)
    }

    /// The indexed property that comes first in the alphabet.
    pub fn get_indexed_property_name(&self) -> (r: Option<String>)
        ensures
            match r {
                Some(name) => self.vector_indexes.is_first(name@),
                None => self.vector_indexes.items().is_empty(),
            },
    {
        self.vector_indexes.default_name()
    }

    /// The indexed property that comes first in the alphabet.
    pub fn get_vector_property_name(&self) -> (r: Option<String>)
        ensures
            match r {
                Some(name) => self.vector_indexes.is_first(name@),
                None => self.vector_indexes.items().is_empty(),
            },
    {
        self.vector_indexes.default_name()
    }

    /// The indexed properties, each once, in no particular order.
    pub fn list_vector_indexes(&self) -> (r: Vec<VectorIndexInfo>)
        requires
            self.well_formed(),
        ensures
            info_names(r@).no_duplicates(),
            forall|name: Seq<char>| #[trigger]
                info_names(r@).contains(name) <==> self.vector_indexes.items().contains_key(name),
            forall|i: int|
                0 <= i < r@.len() ==> {
                    let index = self.vector_indexes.items()[(#[trigger] r@[i]).property_name@];
                    &&& r@[i].dimensions == index.config.dimensions
                    &&& r@[i].distance_metric == index.config.metric
                },
    {
        let names = self.vector_indexes.names();
        let ghost texts = texts_of(names@);
        let mut out: Vec<VectorIndexInfo> = Vec::new();
        let mut i: usize = 0;
        while i < names.len()
            invariant
                i <= names.len(),
                self.well_formed(),
                texts == texts_of(names@),
                forall|name: Seq<char>| #[trigger]
                    texts.contains(name) <==> self.vector_indexes.items().contains_key(name),
                out@.len() == i,
                forall|j: int|
                    0 <= j < i ==> {
                        let index = self.vector_indexes.items()[texts[j]];
                        &&& (#[trigger] out@[j]).property_name@ == texts[j]
                        &&& out@[j].dimensions == index.config.dimensions
                        &&& out@[j].distance_metric == index.config.metric
                    },
            decreases names.len() - i,
        {
            let name = names[i].as_str();
            assert(texts[i as int] == name@);
            assert(texts.contains(name@));
            if let Some(index) = self.vector_indexes.get(name) {
                out.push(
                    VectorIndexInfo {
                        property_name: String::from_str(name),
                        dimensions: index.config.dimensions,
                        distance_metric: index.config.metric,
                    },
                );
            }
            i = i + 1;
        }
        assert(info_names(out@) =~= texts);
        out
    }

    /// How a property's vectors are indexed.
    pub fn get_hnsw_config_for(&self, property_name: &str) -> (r: Option<HnswConfig>)
        requires
            self.well_formed(),
        ensures
            r == (if self.vector_indexes.items().contains_key(property_name@) {
                Some(self.vector_indexes.items()[property_name@].config)
            } else {
                None
            }),
    {
        match self.vector_indexes.get(property_name) {
            Some(index) => Some(index.config),
            None => None,
        }
    }

    /// Gives a property an index that comes from elsewhere.
    pub fn register_vector_index(&mut self, property_name: &str, index: VectorIndex)
        requires
            old(self).well_formed(),
        ensures
            final(self).well_formed(),
            *final(self) == (CurrentStorage {
                vector_indexes: final(self).vector_indexes,
                ..*old(self)
            }),
            final(self).vector_indexes.items() == old(self).vector_indexes.items().insert(
                property_name@,
                index,
            ),
    {
        self.vector_indexes.set(property_name, index);
    }

    /// A property's index, how it is indexed, and how many vectors there are.
    pub fn get_vector_index_for_persistence(&self, property_name: &str) -> (r: Option<
        (&VectorIndex, HnswConfig, usize),
    >)
        requires
            self.well_formed(),
        ensures
            match r {
                Some(found) => {
                    &&& self.vector_indexes.items().contains_key(property_name@)
                    &&& *found.0 == self.vector_indexes.items()[property_name@]
                    &&& found.1 == found.0.config
                    &&& found.2 == found.0.state().vectors.len()
                },
                None => !self.vector_indexes.items().contains_key(property_name@),
            },
    {
        match self.vector_indexes.get(property_name) {
            Some(index) => Some((index, index.config, index.len())),
            None => None,
        }
    }

    /// How many vectors there are of the indexed property that comes first in the alphabet.
    pub fn vector_count(&self) -> (r: usize)
        requires
            self.well_formed(),
        ensures
            self.vector_indexes.items().is_empty() ==> r == 0,
            forall|name: Seq<char>| #[trigger]
                self.vector_indexes.is_first(name) ==> r
                    == self.vector_indexes.items()[name].state().vectors.len(),
    {
        match self.vector_indexes.default_name() {
            Some(name) => {
                proof {
                    assert forall|other: Seq<char>| #[trigger]
                        self.vector_indexes.is_first(other) implies other == name@ by {
                        super::named::law_default_is_unique(self.vector_indexes, other, name@);
                    }
                }
                match self.vector_indexes.get(name.as_str()) {
                    Some(index) => index.len(),
                    None => 0,
                }
            },
            None => 0,
        }
    }

    /// Tracks the vectors of a property over time.
    pub fn enable_temporal_vector_index(
        &mut self,
        property_name: &str,
        config: TemporalVectorConfig,
    ) -> (r: Result<(), Error>)
        requires
            old(self).well_formed(),
        ensures
            final(self).well_formed(),
            *final(self) == (CurrentStorage {
                temporal_vector_indexes: final(self).temporal_vector_indexes,
                ..*old(self)
            }),
            if old(self).temporal_vector_indexes.items().contains_key(property_name@) {
                &&& r is Err
                &&& r->Err_0@ == ErrorView::IndexError(temporal_index_exists(property_name@))
                &&& final(self).temporal_vector_indexes == old(self).temporal_vector_indexes
            } else {
                &&& r is Ok
                &&& exists|index: TemporalVectorIndex|
                    {
                        &&& #[trigger] index.state() == empty_track(config)
                        &&& index.config == config
                        &&& final(self).temporal_vector_indexes.items() == old(self).temporal_vector_indexes.items().insert(property_name@, index)
                    }
            },
    {
        if self.temporal_vector_indexes.contains(property_name) {
            return Err(
                index_error(
                    "Temporal vector index is already enabled for property '",
                    property_name,
                    "'",
                ),
            );
        }
        self.temporal_vector_indexes.set(property_name, TemporalVectorIndex::new(config));
        Ok(())
    }

    /// Tells every index over time of a transaction.
    pub fn on_temporal_vector_transaction(&mut self) -> (r: Result<(), Error>)
        requires
            old(self).well_formed(),
        ensures
            r is Ok,
            final(self).well_formed(),
            *final(self) == (CurrentStorage {
                temporal_vector_indexes: final(self).temporal_vector_indexes,
                ..*old(self)
            }),
            final(self).temporal_vector_indexes.state() == old(
                self,
            ).temporal_vector_indexes.state().map_values(
                |store: StoreView| store.after_transaction(),
            ),
    {
        let ghost before = self.temporal_vector_indexes.items();
        let names = self.temporal_vector_indexes.names();
        let ghost texts = texts_of(names@);
        let mut i: usize = 0;
        while i < names.len()
            invariant
                i <= names.len(),
                before == old(self).temporal_vector_indexes.items(),
                old(self).well_formed(),
                self.temporal_vector_indexes.well_formed(),
                *self == (CurrentStorage {
                    temporal_vector_indexes: self.temporal_vector_indexes,
                    ..*old(self)
                }),
                texts == texts_of(names@),
                texts.no_duplicates(),
                forall|name: Seq<char>| #[trigger]
                    texts.contains(name) <==> before.contains_key(name),
                self.temporal_vector_indexes.items().dom() == before.dom(),
                forall|j: int|
                    0 <= j < i ==> self.temporal_vector_indexes.items()[#[trigger] texts[j]].state()
                        == before[texts[j]].state().after_transaction(),
                forall|j: int|
                    i <= j < texts.len() ==> self.temporal_vector_indexes.items()[
                    #[trigger] texts[j]] == before[texts[j]],
            decreases names.len() - i,
        {
            let name = names[i].as_str();
            let ghost here = self.temporal_vector_indexes;
            assert(texts[i as int] == name@);
            assert(texts.contains(name@));
            assert(here.items().contains_key(name@));
            if let Some(slot) = self.temporal_vector_indexes.registry.get(name) {
                match self.temporal_vector_indexes.slots[slot].on_transaction() {
                    Ok(_) => {},
                    Err(error) => {
                        return Err(error);
                    },
                }
                proof {
                    Named::lemma_slot_changed(
                        here,
                        self.temporal_vector_indexes,
                        name@,
                        self.temporal_vector_indexes.slots@[slot as int],
                    );
                }
            }
            i = i + 1;
            proof {
                assert forall|j: int| 0 <= j < i implies self.temporal_vector_indexes.items()[
                #[trigger] texts[j]].state() == before[texts[j]].state().after_transaction() by {
                    if j < i - 1 {
                        assert(texts[j] != texts[i - 1]);
                    }
                }
                assert forall|j: int| i <= j < texts.len() implies
                    self.temporal_vector_indexes.items()[#[trigger] texts[j]]
                    == before[texts[j]] by {
                    assert(texts[j] != texts[i - 1]);
                }
                assert(self.temporal_vector_indexes.items().dom() =~= before.dom());
            }
        }
        proof {
            assert forall|name: Seq<char>| #[trigger] before.contains_key(
                name,
            ) implies self.temporal_vector_indexes.items()[name].state()
                == before[name].state().after_transaction() by {
                assert(texts.contains(name));
                let j = choose|j: int| 0 <= j < texts.len() && texts[j] == name;
                assert(texts[j] == name);
            }
            assert(self.temporal_vector_indexes.state() =~= old(
                self,
            ).temporal_vector_indexes.state().map_values(
                |store: StoreView| store.after_transaction(),
            ));
        }
        Ok(())
    }

    /// Whether the vectors of any property are tracked over time.
    pub fn is_temporal_vector_index_enabled(&self) -> (r: bool)
        ensures
            r == !self.temporal_vector_indexes.items().is_empty(),
    {
        !self.temporal_vector_indexes.is_empty()
    }

    /// Whether the vectors of a property are tracked over time.
    pub fn is_temporal_vector_index_enabled_for(&self, property_name: &str) -> (r: bool)
        ensures
            r == self.temporal_vector_indexes.items().contains_key(property_name@),
    {
        self.temporal_vector_indexes.contains(property_name)
    }

    /// The properties whose vectors are tracked over time, each once, in no particular order.
    pub fn list_temporal_vector_indexes(&self) -> (r: Vec<String>)
        ensures
            texts_of(r@).no_duplicates(),
            forall|name: Seq<char>| #[trigger]
                texts_of(r@).contains(name) <==> self.temporal_vector_indexes.items().contains_key(
                    name,
                ),
    {
        self.temporal_vector_indexes.names()
    }

    /// Fills a property's index with the vectors of all nodes. The property gets an index if it has
    /// none; if it has one, `config` plays no part.
    pub fn rebuild_vector_index(&mut self, property_name: &str, config: HnswConfig) -> (r: Result<
        usize,
        Error,
    >)
        requires
            old(self).well_formed(),
        ensures
            final(self).well_formed(),
            *final(self) == (CurrentStorage {
                vector_indexes: final(self).vector_indexes,
                ..*old(self)
            }),
            old(self).rebuilt(*final(self), property_name@, config, r),
    {
        let ghost pre = *self;
        if !self.is_vector_index_enabled_for(property_name) {
            match self.enable_vector_index(property_name, config) {
                Ok(_) => {},
                Err(error) => {
                    return Err(error);
                },
            }
        }
        let ghost name = property_name@;
        let ghost ready = self.vector_indexes;
        proof {
            assert(ready.items().contains_key(name));
            assert(ready.items().remove(name) =~= pre.vector_indexes.items().remove(name));
            assert(ready.items()[name].config == pre.config_after(name, config));
            assert(ready.items()[name].state().vectors == pre.vectors_before(name));
        }
        match self.vector_indexes.registry.get(property_name) {
            None => Err(
                index_error(
                    "Vector index for property '",
                    property_name,
                    "' disappeared during rebuild",
                ),
            ),
            Some(slot) => {
                let ghost found = node_vectors(self.nodes(), self.interner, name);
                let ghost begun = ready.slots@[slot as int].state();
                let keys = keys_of(&self.indexes.nodes);
                let ghost mut done = Map::<u64, Seq<u32>>::empty();
                let mut indexed: usize = 0;
                let mut i: usize = 0;
                assert(begun.vectors.union_prefer_right(done) =~= begun.vectors);
                while i < keys.len()
                    invariant
                        i <= keys.len(),
                        self.well_formed(),
                        pre == *old(self),
                        *self == (CurrentStorage { vector_indexes: self.vector_indexes, ..pre }),
                        ready.items().remove(name) == pre.vector_indexes.items().remove(name),
                        ready.slots@[slot as int].config == pre.config_after(name, config),
                        begun.vectors == pre.vectors_before(name),
                        begun.config == Some(pre.config_after(name, config)),
                        pre.vector_indexes.items().contains_key(name)
                            || pre.vector_indexes.items().len() < DEFAULT_MAX_VECTOR_PROPERTIES,
                        name == property_name@,
                        found == node_vectors(self.nodes(), self.interner, name),
                        lists_keys(keys@, self.nodes()),
                        ready.well_formed(),
                        self.vector_indexes.registry == ready.registry,
                        ready.registry.places().contains_key(name),
                        ready.registry.places()[name] == slot,
                        slot < ready.slots@.len(),
                        self.vector_indexes.slots@ == ready.slots@.update(
                            slot as int,
                            self.vector_indexes.slots@[slot as int],
                        ),
                        self.vector_indexes.slots@.len() == ready.slots@.len(),
                        begun == ready.slots@[slot as int].state(),
                        self.vector_indexes.slots@[slot as int].state() == (StoreView {
                            vectors: begun.vectors.union_prefer_right(done),
                            ..begun
                        }),
                        self.vector_indexes.slots@[slot as int].config
                            == ready.slots@[slot as int].config,
                        begun.tracking is None,
                        done.dom().finite(),
                        indexed == done.len(),
                        indexed <= i,
                        forall|k: u64| #[trigger]
                            done.contains_key(k) <==> found.contains_key(k) && exists|j: int|
                                0 <= j < i && keys@[j] == k,
                        forall|k: u64| #[trigger]
                            done.contains_key(k) ==> done[k] == found[k] && begun.fits(
                                found[k].len(),
                            ),
                    decreases keys.len() - i,
                {
                    let k: u64 = keys[i];
                    let ghost before = done;
                    assert(self.nodes().contains_key(k));
                    if let Some(node) = self.indexes.nodes.get(&k) {
                        if let Some(vector) = find_vector(
                            &self.interner,
                            &node.properties,
                            property_name,
                        ) {
                            assert(found.contains_key(k) && found[k] == vector@);
                            let ghost here = self.vector_indexes;
                            let r = self.vector_indexes.slots[slot].put(
                                node.id,
                                vector,
                                HybridTimestamp { wallclock: 0, logical: 0 },
                            );
                            if let Err(error) = r {
                                proof {
                                    assert(self.vector_indexes.slots@ =~= ready.slots@.update(
                                        slot as int,
                                        self.vector_indexes.slots@[slot as int],
                                    ));
                                    Named::lemma_slot_changed(
                                        ready,
                                        self.vector_indexes,
                                        name,
                                        self.vector_indexes.slots@[slot as int],
                                    );
                                    let item = self.vector_indexes.slots@[slot as int];
                                    assert(ready.items().insert(name, item)
                                        =~= pre.vector_indexes.items().insert(name, item)) by {
                                        lemma_insert_same(
                                            ready.items(),
                                            pre.vector_indexes.items(),
                                            name,
                                            item,
                                        );
                                    }
                                    assert(done.submap_of(found)) by {
                                        assert forall|x: u64| #[trigger]
                                            done.contains_key(x) implies found.contains_key(x)
                                            && done[x] == found[x] by {}
                                    }
                                    assert(!done.contains_key(k)) by {
                                        if done.contains_key(k) {
                                            let j = choose|j: int| 0 <= j < i && keys@[j] == k;
                                            assert(keys@[j] == keys@[i as int]);
                                        }
                                    }
                                    assert(pre.rebuild_stopped(
                                        *self,
                                        name,
                                        config,
                                        k,
                                        done,
                                        error@,
                                    ));
                                }
                                return Err(error);
                            }
                            proof {
                                assert(!before.contains_key(k)) by {
                                    if before.contains_key(k) {
                                        let j = choose|j: int| 0 <= j < i && keys@[j] == k;
                                        assert(keys@[j] == keys@[i as int]);
                                    }
                                }
                                done = done.insert(k, vector@);
                                assert(begun.vectors.union_prefer_right(done)
                                    =~= begun.vectors.union_prefer_right(before).insert(
                                    k,
                                    vector@,
                                ));
                                Named::lemma_slot_changed(
                                    here,
                                    self.vector_indexes,
                                    name,
                                    self.vector_indexes.slots@[slot as int],
                                );
                            }
                            indexed = indexed + 1;
                        }
                    }
                    i = i + 1;
                    proof {
                        assert forall|x: u64| #[trigger] done.contains_key(x)
                            <==> found.contains_key(x) && exists|j: int|
                            0 <= j < i && keys@[j] == x by {
                            if x == k {
                                assert(keys@[i - 1] == x);
                            } else {
                                if before.contains_key(x) {
                                    let j = choose|j: int| 0 <= j < i - 1 && keys@[j] == x;
                                    assert(0 <= j < i && keys@[j] == x);
                                }
                                if exists|j: int| 0 <= j < i && keys@[j] == x {
                                    let j = choose|j: int| 0 <= j < i && keys@[j] == x;
                                    assert(0 <= j < i - 1 && keys@[j] == x);
                                }
                            }
                        }
                    }
                }
                proof {
                    assert(done =~= found) by {
                        assert forall|k: u64| #[trigger] done.contains_key(k)
                            <==> found.contains_key(k) by {
                            if found.contains_key(k) {
                                assert(keys@.contains(k));
                                let j = choose|j: int| 0 <= j < keys@.len() && keys@[j] == k;
                                assert(keys@[j] == k);
                            }
                        }
                    }
                    Named::lemma_slot_changed(
                        ready,
                        self.vector_indexes,
                        name,
                        self.vector_indexes.slots@[slot as int],
                    );
                    lemma_insert_same(
                        ready.items(),
                        pre.vector_indexes.items(),
                        name,
                        self.vector_indexes.slots@[slot as int],
                    );
                    assert forall|k: u64| #[trigger] found.contains_key(k) implies found[k].len()
                        == pre.config_after(name, config).dimensions by {
                        assert(done.contains_key(k));
                    }
                }
                Ok(indexed)
            },
        }
    }

    /// How a property's vectors are indexed once it has an index: as before, or as asked.
    pub open spec fn config_after(self, name: Seq<char>, config: HnswConfig) -> HnswConfig {
        if self.vector_indexes.items().contains_key(name) {
            self.vector_indexes.items()[name].config
        } else {
            config
        }
    }

    /// The vectors that a property's index starts out with: as before, or none.
    pub open spec fn vectors_before(self, name: Seq<char>) -> Map<u64, Seq<u32>> {
        if self.vector_indexes.items().contains_key(name) {
            self.vector_indexes.items()[name].state().vectors
        } else {
            Map::empty()
        }
    }

    /// Only the index of this name differs, and it holds these vectors.
    pub open spec fn index_is(
        self,
        other: CurrentStorage,
        name: Seq<char>,
        config: HnswConfig,
        vectors: Map<u64, Seq<u32>>,
    ) -> bool {
        let after = other.vector_indexes.items();
        &&& after.contains_key(name)
        &&& after[name].config == config
        &&& after[name].state().vectors == vectors
        &&& after == self.vector_indexes.items().insert(name, after[name])
    }

    /// A vector did not fit when an index was filled; some others had been filled in by then.
    pub open spec fn rebuild_stopped(
        self,
        other: CurrentStorage,
        name: Seq<char>,
        config: HnswConfig,
        k: u64,
        done: Map<u64, Seq<u32>>,
        error: ErrorView,
    ) -> bool {
        let found = node_vectors(self.nodes(), self.interner, name);
        &&& found.contains_key(k)
        &&& found[k].len() != self.config_after(name, config).dimensions
        &&& error == misfit(Some(self.config_after(name, config)), found[k].len())
        &&& done.submap_of(found)
        &&& !done.contains_key(k)
        &&& self.index_is(
            other,
            name,
            self.config_after(name, config),
            self.vectors_before(name).union_prefer_right(done),
        )
    }

    /// What filling an index does. It fails where the property has no index and cannot get one, or
    /// where a vector does not fit; otherwise the index holds the vectors of all nodes besides what
    /// it held.
    pub open spec fn rebuilt(
        self,
        other: CurrentStorage,
        name: Seq<char>,
        config: HnswConfig,
        r: Result<usize, Error>,
    ) -> bool {
        let found = node_vectors(self.nodes(), self.interner, name);
        match r {
            Ok(indexed) => {
                &&& self.vector_indexes.items().contains_key(name)
                    || self.vector_indexes.items().len() < DEFAULT_MAX_VECTOR_PROPERTIES
                &&& indexed == found.len()
                &&& forall|k: u64| #[trigger]
                    found.contains_key(k) ==> found[k].len() == self.config_after(
                        name,
                        config,
                    ).dimensions
                &&& self.index_is(
                    other,
                    name,
                    self.config_after(name, config),
                    self.vectors_before(name).union_prefer_right(found),
                )
            },
            Err(error) => {
                ||| {
                    &&& !self.vector_indexes.items().contains_key(name)
                    &&& self.vector_indexes.items().len() >= DEFAULT_MAX_VECTOR_PROPERTIES
                    &&& error@ == ErrorView::IndexError(too_many_indexes(name))
                    &&& other == self
                }
                ||| exists|k: u64, done: Map<u64, Seq<u32>>| #[trigger]
                    self.rebuild_stopped(other, name, config, k, done, error@)
            },
        }
    }
}

/// Maps that differ in one key only are the same once that key is set.
proof fn lemma_insert_same<K, V>(a: Map<K, V>, b: Map<K, V>, key: K, value: V)
    requires
        a.remove(key) == b.remove(key),
    ensures
        a.insert(key, value) == b.insert(key, value),
{
    assert(a.insert(key, value) =~= a.remove(key).insert(key, value));
    assert(b.insert(key, value) =~= b.remove(key).insert(key, value));
}

/// The properties that are told of, in order.
pub open spec fn info_names(infos: Seq<VectorIndexInfo>) -> Seq<Seq<char>> {
    Seq::new(infos.len(), |i: int| infos[i].property_name@)
}

/// An index is enabled exactly if there are fewer than ten and the property has none. It is empty
/// then, has the settings that were asked for, and every other index stays.
pub proof fn law_index_is_enabled_once(
    before: CurrentStorage,
    after: CurrentStorage,
    name: Seq<char>,
    config: HnswConfig,
    r: Result<(), Error>,
)
    requires
        before.enabled(after, name, config, r),
    ensures
        r is Ok <==> before.vector_indexes.items().len() < 10 && !before.vector_indexes.items().contains_key(
            name,
        ),
        r is Ok ==> after.vector_indexes.items().contains_key(name)
            && after.vector_indexes.items()[name].config == config
            && after.vector_indexes.items()[name].state().vectors.is_empty(),
        r is Err ==> after.vector_indexes == before.vector_indexes,
{
}

/// An index that was filled holds the vector of every node that has one under the name, each as
/// long as those of the index, and what it held of other nodes.
pub proof fn law_filled_index_holds_node_vectors(
    before: CurrentStorage,
    after: CurrentStorage,
    name: Seq<char>,
    config: HnswConfig,
    r: Result<usize, Error>,
    k: u64,
)
    requires
        before.rebuilt(after, name, config, r),
        r is Ok,
    ensures
        after.vector_indexes.items().contains_key(name),
        ({
            let held = after.vector_indexes.items()[name].state().vectors;
            let own = vector_at(before.interner, before.nodes()[k].properties@, name);
            let had = before.vector_indexes.items().contains_key(name)
                && before.vector_indexes.items()[name].state().vectors.contains_key(k);
            &&& before.nodes().contains_key(k) && own is Some ==> held.contains_key(k) && held[k]
                == own->Some_0 && own->Some_0.len()
                == after.vector_indexes.items()[name].config.dimensions
            &&& !(before.nodes().contains_key(k) && own is Some) ==> (held.contains_key(k) <==> had) && (
            had ==> held[k] == before.vector_indexes.items()[name].state().vectors[k])
        }),
{
    let found = node_vectors(before.nodes(), before.interner, name);
    assert(found.contains_key(k) <==> before.nodes().contains_key(k) && vector_at(
        before.interner,
        before.nodes()[k].properties@,
        name,
    ) is Some);
}

} // verus!

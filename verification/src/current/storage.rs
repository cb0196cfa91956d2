//! The current state of the graph: creating, reading, changing and deleting nodes and edges.

use super::indexes::CurrentIndexes;
use super::named::Named;
use super::search::FilterStats;
use super::vector_registry::{all_changed, changes_of, some_changed};
use super::vectors::{Change, TemporalVectorIndex, VectorIndex, VectorStore};
use crate::error::{Error, ErrorView, StorageError};
use crate::graph::{Edge, Metadata, Node};
use crate::ids::{EdgeId, IdGenerator, InternedString, NodeId, VersionId, MAX_VALID_ID};
use crate::interning::{StringInterner, DEFAULT_MAX_INTERNED};
use crate::property::PropertyMap;
use crate::temporal::{HybridTimestamp, Timestamp};
use vstd::prelude::*;

verus! {

broadcast use vstd::std_specs::hash::group_hash_axioms;

/// The current state of the graph.
pub struct CurrentStorage {
    /// Nodes, edges, and what is derived from them.
    pub indexes: CurrentIndexes,
    /// Numbers for nodes.
    pub node_id_gen: IdGenerator,
    /// Numbers for edges.
    pub edge_id_gen: IdGenerator,
    /// Numbers for versions.
    pub version_id_gen: IdGenerator,
    /// Labels and property names, by number.
    pub interner: StringInterner,
    /// The vectors of nodes, by property.
    pub vector_indexes: Named<VectorIndex>,
    /// The vectors of nodes over time, by property.
    pub temporal_vector_indexes: Named<TemporalVectorIndex>,
    /// How searches went, by label.
    pub filter_stats: Named<FilterStats>,
    /// Whether reads are to be held back while a batch is published.
    pub gate_armed: bool,
}

/// The error where all numbers have been handed out.
pub open spec fn exhausted() -> ErrorView {
    ErrorView::CapacityExceeded {
        resource: "identifiers"@,
        current: usize::MAX,
        limit: usize::MAX,
    }
}

/// A number from the generator.
fn next_id(generator: &mut IdGenerator) -> (r: Result<u64, Error>)
    ensures
        match r {
            Ok(id) => {
                &&& old(generator).upcoming <= MAX_VALID_ID
                &&& id == old(generator).upcoming
                &&& final(generator).upcoming == id + 1
            },
            Err(error) => {
                &&& old(generator).upcoming > MAX_VALID_ID
                &&& error@ == exhausted()
                &&& *final(generator) == *old(generator)
            },
        },
{
    match generator.next() {
        Ok(id) => Ok(id),
        Err(_) => Err(
            Error::Storage(
                StorageError::CapacityExceeded {
                    resource: String::from_str("identifiers"),
                    current: usize::MAX,
                    limit: usize::MAX,
                },
            ),
        ),
    }
}

/// The next number after one was asked for: the one above, unless none was left.
pub open spec fn advanced(upcoming: u64) -> u64 {
    if upcoming <= MAX_VALID_ID {
        (upcoming + 1) as u64
    } else {
        upcoming
    }
}

/// The earliest moment, for vectors that are not tracked over time.
fn no_time() -> (r: Timestamp)
    ensures
        r == no_moment(),
{
    HybridTimestamp { wallclock: 0, logical: 0 }
}

/// The earliest moment, for vectors that are not tracked over time.
pub open spec fn no_moment() -> Timestamp {
    HybridTimestamp { wallclock: 0, logical: 0 }
}

/// All of the pairs have names among so many.
pub open spec fn known_pairs(pairs: Seq<(InternedString, InternedString)>, count: nat) -> bool {
    forall|i: int|
        0 <= i < pairs.len() ==> {
            let pair = #[trigger] pairs[i];
            pair.0.0 < count && pair.1.0 < count
        }
}

impl CurrentStorage {
    /// All parts are sound.
    pub open spec fn well_formed(self) -> bool {
        &&& self.indexes.well_formed()
        &&& self.interner.well_formed()
        &&& self.vector_indexes.well_formed()
        &&& self.temporal_vector_indexes.well_formed()
        &&& self.filter_stats.well_formed()
        &&& known_pairs(self.indexes.indexed_pairs(), self.interner.strings@.len())
    }

    /// The nodes, by number.
    pub open spec fn nodes(self) -> Map<u64, Node> {
        self.indexes.nodes@
    }

    /// The edges, by number.
    pub open spec fn edges(self) -> Map<u64, Edge> {
        self.indexes.edges@
    }

    /// An empty graph.
    pub fn new() -> (r: CurrentStorage)
        ensures
            r.well_formed(),
            r.nodes().is_empty(),
            r.edges().is_empty(),
            r.node_id_gen.upcoming == 0,
            r.edge_id_gen.upcoming == 0,
            r.version_id_gen.upcoming == 0,
            r.interner.strings@.len() == 0,
            r.interner.limit == DEFAULT_MAX_INTERNED,
            r.vector_indexes.items().is_empty(),
            r.temporal_vector_indexes.items().is_empty(),
            r.filter_stats.items().is_empty(),
            r.indexes.property_indexes@.len() == 0,
            r.indexes.node_bound == 0,
            !r.gate_armed,
    {
        CurrentStorage {
            indexes: CurrentIndexes::new(),
            node_id_gen: IdGenerator::new(),
            edge_id_gen: IdGenerator::new(),
            version_id_gen: IdGenerator::new(),
            interner: StringInterner::new(),
            vector_indexes: Named::new(),
            temporal_vector_indexes: Named::new(),
            filter_stats: Named::new(),
            gate_armed: false,
        }
    }

    /// Creates a node. Its vectors are indexed first: a vector that does not fit leaves the graph
    /// as it was.
    pub fn create_node(&mut self, label: &str, properties: PropertyMap) -> (r: Result<NodeId, Error>)
        requires
            old(self).well_formed(),
        ensures
            final(self).well_formed(),
            final(self).edges() == old(self).edges(),
            final(self).temporal_vector_indexes == old(self).temporal_vector_indexes,
            final(self).filter_stats == old(self).filter_stats,
            final(self).gate_armed == old(self).gate_armed,
            final(self).edge_id_gen == old(self).edge_id_gen,
            final(self).node_id_gen.upcoming == advanced(old(self).node_id_gen.upcoming),
            final(self).version_id_gen.upcoming == (if old(self).node_id_gen.upcoming
                <= MAX_VALID_ID {
                advanced(old(self).version_id_gen.upcoming)
            } else {
                old(self).version_id_gen.upcoming
            }),
            if old(self).node_id_gen.upcoming <= MAX_VALID_ID && old(self).version_id_gen.upcoming
                <= MAX_VALID_ID {
                old(self).interner.after_intern(label@, final(self).interner)
            } else {
                final(self).interner == old(self).interner
            },
            match r {
                Ok(id) => {
                    &&& id.0 == old(self).node_id_gen.upcoming
                    &&& id.0 <= MAX_VALID_ID
                    &&& old(self).version_id_gen.upcoming <= MAX_VALID_ID
                    &&& final(self).indexes.same_but_nodes(old(self).indexes)
                    &&& final(self).indexes.node_bound == old(self).indexes.bound_with(id.0)
                    &&& final(self).interner.id_of(label@) is Some
                    &&& final(self).nodes() == old(self).nodes().insert(
                        id.0,
                        Node {
                            id,
                            label: final(self).interner.id_of(label@)->Some_0,
                            properties,
                            current_version: VersionId(old(self).version_id_gen.upcoming),
                            metadata: Metadata { commit_timestamp: None },
                        },
                    )
                    &&& all_changed(
                        old(self).vector_indexes.state(),
                        final(self).vector_indexes.state(),
                        id.0,
                        changes_of(final(self).interner, None, properties),
                        no_moment(),
                        false,
                    )
                },
                Err(error) => {
                    &&& final(self).indexes == old(self).indexes
                    &&& old(self).refuses_node(*final(self), label@, properties, error@)
                },
            },
            final(self).vector_indexes.registry == old(self).vector_indexes.registry,
            forall|text: Seq<char>|
                old(self).interner.id_of(text) is Some ==> #[trigger] final(self).interner.id_of(
                    text,
                ) == old(self).interner.id_of(text),
    {
        let node_id: u64 = match next_id(&mut self.node_id_gen) {
            Ok(id) => id,
            Err(error) => {
                return Err(error);
            },
        };
        let version_id: u64 = match next_id(&mut self.version_id_gen) {
            Ok(id) => id,
            Err(error) => {
                return Err(error);
            },
        };
        let label_interned = match self.interner.intern(label) {
            Ok(id) => id,
            Err(error) => {
                return Err(error);
            },
        };
        let id = NodeId(node_id);
        match self.vector_indexes.apply(&self.interner, id, None, &properties, no_time()) {
            Ok(_) => {},
            Err(error) => {
                return Err(error);
            },
        }
        let node = Node::new(id, label_interned, properties, VersionId(version_id));
        self.indexes.insert_node(node);
        Ok(id)
    }

    /// Why a node is not created: no number is left for it or its version, its label cannot be
    /// interned, or one of its vectors does not fit.
    pub open spec fn refuses_node(
        self,
        other: CurrentStorage,
        label: Seq<char>,
        properties: PropertyMap,
        error: ErrorView,
    ) -> bool {
        if self.node_id_gen.upcoming > MAX_VALID_ID || self.version_id_gen.upcoming > MAX_VALID_ID {
            &&& error == exhausted()
            &&& other.vector_indexes == self.vector_indexes
        } else if self.interner.id_of(label) is None && self.interner.strings@.len()
            >= self.interner.limit {
            &&& error == self.no_more_strings()
            &&& other.vector_indexes == self.vector_indexes
        } else {
            exists|name: Seq<char>| #[trigger]
                some_changed(
                    self.vector_indexes.state(),
                    other.vector_indexes.state(),
                    self.node_id_gen.upcoming,
                    changes_of(other.interner, None, properties),
                    no_moment(),
                    false,
                    name,
                    error,
                )
        }
    }

    /// The error where no more strings can be interned.
    pub open spec fn no_more_strings(self) -> ErrorView {
        ErrorView::CapacityExceeded {
            resource: "string interner"@,
            current: self.interner.strings@.len() as usize,
            limit: self.interner.limit as usize,
        }
    }

    /// Creates an edge between two nodes that exist.
    pub fn create_edge(
        &mut self,
        source: NodeId,
        target: NodeId,
        label: &str,
        properties: PropertyMap,
    ) -> (r: Result<EdgeId, Error>)
        requires
            old(self).well_formed(),
        ensures
            final(self).well_formed(),
            final(self).nodes() == old(self).nodes(),
            final(self).indexes.same_but_edges(old(self).indexes),
            if old(self).nodes().contains_key(source.0) && old(self).nodes().contains_key(
                target.0,
            ) {
                &&& final(self).edge_id_gen.upcoming == advanced(old(self).edge_id_gen.upcoming)
                &&& final(self).version_id_gen.upcoming == (if old(self).edge_id_gen.upcoming
                    <= MAX_VALID_ID {
                    advanced(old(self).version_id_gen.upcoming)
                } else {
                    old(self).version_id_gen.upcoming
                })
                &&& if old(self).edge_id_gen.upcoming <= MAX_VALID_ID
                    && old(self).version_id_gen.upcoming <= MAX_VALID_ID {
                    old(self).interner.after_intern(label@, final(self).interner)
                } else {
                    final(self).interner == old(self).interner
                }
            } else {
                *final(self) == *old(self)
            },
            *final(self) == (CurrentStorage {
                indexes: final(self).indexes,
                edge_id_gen: final(self).edge_id_gen,
                version_id_gen: final(self).version_id_gen,
                interner: final(self).interner,
                ..*old(self)
            }),
            match r {
                Ok(id) => {
                    &&& old(self).nodes().contains_key(source.0)
                    &&& old(self).nodes().contains_key(target.0)
                    &&& id.0 == old(self).edge_id_gen.upcoming
                    &&& id.0 <= MAX_VALID_ID
                    &&& old(self).version_id_gen.upcoming <= MAX_VALID_ID
                    &&& final(self).interner.id_of(label@) is Some
                    &&& final(self).edges() == old(self).edges().insert(
                        id.0,
                        Edge {
                            id,
                            label: final(self).interner.id_of(label@)->Some_0,
                            source,
                            target,
                            properties,
                            current_version: VersionId(old(self).version_id_gen.upcoming),
                            metadata: Metadata { commit_timestamp: None },
                        },
                    )
                    &&& final(self).indexes.lists_with(
                        old(self).indexes,
                        final(self).edges()[id.0],
                    )
                },
                Err(error) => {
                    &&& final(self).indexes == old(self).indexes
                    &&& old(self).refuses_edge(source, target, label@, error@)
                },
            },
            forall|text: Seq<char>|
                old(self).interner.id_of(text) is Some ==> #[trigger] final(self).interner.id_of(
                    text,
                ) == old(self).interner.id_of(text),
    {
        if !self.indexes.nodes.contains_key(&source.0) {
            return Err(Error::Storage(StorageError::NodeNotFound(source)));
        }
        if !self.indexes.nodes.contains_key(&target.0) {
            return Err(Error::Storage(StorageError::NodeNotFound(target)));
        }
        let edge_id: u64 = match next_id(&mut self.edge_id_gen) {
            Ok(id) => id,
            Err(error) => {
                return Err(error);
            },
        };
        let version_id: u64 = match next_id(&mut self.version_id_gen) {
            Ok(id) => id,
            Err(error) => {
                return Err(error);
            },
        };
        let label_interned = match self.interner.intern(label) {
            Ok(id) => id,
            Err(error) => {
                return Err(error);
            },
        };
        let id = EdgeId(edge_id);
        let edge = Edge::new(id, label_interned, source, target, properties, VersionId(version_id));
        self.indexes.insert_edge(edge);
        Ok(id)
    }

    /// Why an edge is not created: one of its ends is not there, the start first; no number is left
    /// for it or its version; or its label cannot be interned.
    pub open spec fn refuses_edge(
        self,
        source: NodeId,
        target: NodeId,
        label: Seq<char>,
        error: ErrorView,
    ) -> bool {
        if !self.nodes().contains_key(source.0) {
            error == ErrorView::NodeNotFound(source)
        } else if !self.nodes().contains_key(target.0) {
            error == ErrorView::NodeNotFound(target)
        } else if self.edge_id_gen.upcoming > MAX_VALID_ID || self.version_id_gen.upcoming
            > MAX_VALID_ID {
            error == exhausted()
        } else {
            &&& self.interner.id_of(label) is None
            &&& self.interner.strings@.len() >= self.interner.limit
            &&& error == self.no_more_strings()
        }
    }

    /// A node.
    pub fn get_node(&self, id: NodeId) -> (r: Result<Node, Error>)
        ensures
            match r {
                Ok(node) => self.nodes().contains_key(id.0) && node.same(self.nodes()[id.0]),
                Err(error) => !self.nodes().contains_key(id.0) && error@
                    == ErrorView::NodeNotFound(id),
            },
    {
        match self.indexes.nodes.get(&id.0) {
            Some(node) => Ok(node.copied()),
            None => Err(Error::Storage(StorageError::NodeNotFound(id))),
        }
    }

    /// What a function makes of a node.
    pub fn with_node<R, F: FnOnce(&Node) -> R>(&self, id: NodeId, f: F) -> (r: Result<R, Error>)
        requires
            self.nodes().contains_key(id.0) ==> call_requires(f, (&self.nodes()[id.0],)),
        ensures
            match r {
                Ok(made) => self.nodes().contains_key(id.0) && call_ensures(
                    f,
                    (&self.nodes()[id.0],),
                    made,
                ),
                Err(error) => !self.nodes().contains_key(id.0) && error@
                    == ErrorView::NodeNotFound(id),
            },
    {
        match self.indexes.nodes.get(&id.0) {
            Some(node) => Ok(f(node)),
            None => Err(Error::Storage(StorageError::NodeNotFound(id))),
        }
    }

    /// An edge.
    pub fn get_edge(&self, id: EdgeId) -> (r: Result<Edge, Error>)
        ensures
            match r {
                Ok(edge) => self.edges().contains_key(id.0) && edge.same(self.edges()[id.0]),
                Err(error) => !self.edges().contains_key(id.0) && error@
                    == ErrorView::EdgeNotFound(id),
            },
    {
        match self.indexes.edges.get(&id.0) {
            Some(edge) => Ok(edge.copied()),
            None => Err(Error::Storage(StorageError::EdgeNotFound(id))),
        }
    }

    /// Where an edge ends.
    pub fn get_edge_target(&self, id: EdgeId) -> (r: Result<NodeId, Error>)
        ensures
            match r {
                Ok(node) => self.edges().contains_key(id.0) && node == self.edges()[id.0].target,
                Err(error) => !self.edges().contains_key(id.0) && error@
                    == ErrorView::EdgeNotFound(id),
            },
    {
        match self.indexes.edges.get(&id.0) {
            Some(edge) => Ok(edge.target),
            None => Err(Error::Storage(StorageError::EdgeNotFound(id))),
        }
    }

    /// Where an edge starts.
    pub fn get_edge_source(&self, id: EdgeId) -> (r: Result<NodeId, Error>)
        ensures
            match r {
                Ok(node) => self.edges().contains_key(id.0) && node == self.edges()[id.0].source,
                Err(error) => !self.edges().contains_key(id.0) && error@
                    == ErrorView::EdgeNotFound(id),
            },
    {
        match self.indexes.edges.get(&id.0) {
            Some(edge) => Ok(edge.source),
            None => Err(Error::Storage(StorageError::EdgeNotFound(id))),
        }
    }

    /// Where an edge starts and ends.
    pub fn get_edge_endpoints(&self, id: EdgeId) -> (r: Result<(NodeId, NodeId), Error>)
        ensures
            match r {
                Ok(pair) => self.edges().contains_key(id.0) && pair.0 == self.edges()[id.0].source
                    && pair.1 == self.edges()[id.0].target,
                Err(error) => !self.edges().contains_key(id.0) && error@
                    == ErrorView::EdgeNotFound(id),
            },
    {
        match self.indexes.edges.get(&id.0) {
            Some(edge) => Ok((edge.source, edge.target)),
            None => Err(Error::Storage(StorageError::EdgeNotFound(id))),
        }
    }

    /// The type of an edge.
    pub fn get_edge_label(&self, id: EdgeId) -> (r: Result<InternedString, Error>)
        ensures
            match r {
                Ok(label) => self.edges().contains_key(id.0) && label == self.edges()[id.0].label,
                Err(error) => !self.edges().contains_key(id.0) && error@
                    == ErrorView::EdgeNotFound(id),
            },
    {
        match self.indexes.edges.get(&id.0) {
            Some(edge) => Ok(edge.label),
            None => Err(Error::Storage(StorageError::EdgeNotFound(id))),
        }
    }

    /// The label of a node.
    pub fn get_node_label(&self, id: NodeId) -> (r: Result<InternedString, Error>)
        ensures
            match r {
                Ok(label) => self.nodes().contains_key(id.0) && label == self.nodes()[id.0].label,
                Err(error) => !self.nodes().contains_key(id.0) && error@
                    == ErrorView::NodeNotFound(id),
            },
    {
        match self.indexes.nodes.get(&id.0) {
            Some(node) => Ok(node.label),
            None => Err(Error::Storage(StorageError::NodeNotFound(id))),
        }
    }

    /// Deletes a node and takes it out of the vector indexes. Edges that hang on it stay.
    pub fn delete_node(&mut self, id: NodeId) -> (r: Result<Node, Error>)
        requires
            old(self).well_formed(),
        ensures
            final(self).well_formed(),
            final(self).nodes() == old(self).nodes().remove(id.0),
            final(self).edges() == old(self).edges(),
            final(self).indexes.same_but_nodes(old(self).indexes),
            final(self).indexes.node_bound == old(self).indexes.node_bound,
            *final(self) == (CurrentStorage {
                indexes: final(self).indexes,
                vector_indexes: final(self).vector_indexes,
                ..*old(self)
            }),
            match r {
                Ok(node) => {
                    &&& old(self).nodes().contains_key(id.0)
                    &&& node == old(self).nodes()[id.0]
                    &&& all_changed(
                        old(self).vector_indexes.state(),
                        final(self).vector_indexes.state(),
                        id.0,
                        |name: Seq<char>| Change::Drop,
                        no_moment(),
                        false,
                    )
                },
                Err(error) => {
                    &&& !old(self).nodes().contains_key(id.0)
                    &&& error@ == ErrorView::NodeNotFound(id)
                    &&& final(self).vector_indexes == old(self).vector_indexes
                },
            },
    {
        match self.indexes.remove_node(id) {
            None => Err(Error::Storage(StorageError::NodeNotFound(id))),
            Some(node) => {
                self.vector_indexes.take_from_all(id, no_time());
                Ok(node)
            },
        }
    }

    /// Deletes an edge.
    pub fn delete_edge(&mut self, id: EdgeId) -> (r: Result<Edge, Error>)
        requires
            old(self).well_formed(),
        ensures
            final(self).well_formed(),
            final(self).edges() == old(self).edges().remove(id.0),
            final(self).nodes() == old(self).nodes(),
            final(self).indexes.same_but_edges(old(self).indexes),
            final(self).indexes.lists_without(old(self).indexes, id.0),
            *final(self) == (CurrentStorage { indexes: final(self).indexes, ..*old(self) }),
            match r {
                Ok(edge) => {
                    &&& old(self).edges().contains_key(id.0)
                    &&& edge == old(self).edges()[id.0]
                },
                Err(error) => !old(self).edges().contains_key(id.0) && error@
                    == ErrorView::EdgeNotFound(id),
            },
    {
        match self.indexes.remove_edge(id) {
            None => Err(Error::Storage(StorageError::EdgeNotFound(id))),
            Some(edge) => Ok(edge),
        }
    }

    /// Stores a node with a number of its own. Its vectors are indexed first, at present and over
    /// time: a vector that does not fit leaves the graph as it was, though indexes that were
    /// visited earlier have taken theirs in by then.
    pub fn insert_node_direct(&mut self, node: Node, timestamp: Timestamp) -> (r: Result<(), Error>)
        requires
            old(self).well_formed(),
        ensures
            final(self).well_formed(),
            old(self).stored(*final(self), node, None, timestamp, r),
    {
        let ghost pre = *self;
        match self.vector_indexes.apply(
            &self.interner,
            node.id,
            None,
            &node.properties,
            no_time(),
        ) {
            Ok(_) => {},
            Err(error) => {
                return Err(error);
            },
        }
        match self.temporal_vector_indexes.apply(
            &self.interner,
            node.id,
            None,
            &node.properties,
            timestamp,
        ) {
            Ok(_) => {},
            Err(error) => {
                return Err(error);
            },
        }
        self.indexes.insert_node(node);
        Ok(())
    }

    /// A node is stored in place of what it was before, if it was there, and its vectors are
    /// changed accordingly: first the present ones, then those over time. The first vector that
    /// does not fit stops this, and the node stays as it was.
    pub open spec fn stored(
        self,
        other: CurrentStorage,
        node: Node,
        before: Option<&PropertyMap>,
        timestamp: Timestamp,
        r: Result<(), Error>,
    ) -> bool {
        let changes = changes_of(self.interner, before, node.properties);
        &&& other == (CurrentStorage {
            indexes: other.indexes,
            vector_indexes: other.vector_indexes,
            temporal_vector_indexes: other.temporal_vector_indexes,
            ..self
        })
        &&& other.edges() == self.edges()
        &&& match r {
            Ok(_) => {
                &&& all_changed(
                    self.vector_indexes.state(),
                    other.vector_indexes.state(),
                    node.id.0,
                    changes,
                    no_moment(),
                    false,
                )
                &&& all_changed(
                    self.temporal_vector_indexes.state(),
                    other.temporal_vector_indexes.state(),
                    node.id.0,
                    changes,
                    timestamp,
                    true,
                )
                &&& other.nodes() == self.nodes().insert(node.id.0, node)
                &&& other.indexes.same_but_nodes(self.indexes)
                &&& other.indexes.node_bound == self.indexes.bound_with(node.id.0)
            },
            Err(error) => {
                &&& other.indexes == self.indexes
                &&& self.vector_refused(other, node.id.0, changes, timestamp, error@)
            },
        }
    }

    /// A vector did not fit.
    pub open spec fn vector_refused(
        self,
        other: CurrentStorage,
        node: u64,
        changes: spec_fn(Seq<char>) -> Change,
        timestamp: Timestamp,
        error: ErrorView,
    ) -> bool {
        ||| {
            &&& other.temporal_vector_indexes == self.temporal_vector_indexes
            &&& exists|name: Seq<char>| #[trigger]
                some_changed(
                    self.vector_indexes.state(),
                    other.vector_indexes.state(),
                    node,
                    changes,
                    no_moment(),
                    false,
                    name,
                    error,
                )
        }
        ||| {
            &&& all_changed(
                self.vector_indexes.state(),
                other.vector_indexes.state(),
                node,
                changes,
                no_moment(),
                false,
            )
            &&& exists|name: Seq<char>| #[trigger]
                some_changed(
                    self.temporal_vector_indexes.state(),
                    other.temporal_vector_indexes.state(),
                    node,
                    changes,
                    timestamp,
                    true,
                    name,
                    error,
                )
        }
    }

    /// Stores a node in place of what it was before. A vector that it no longer has is taken out of
    /// the indexes. A node that was not there is stored like a new one.
    pub fn update_node_direct(&mut self, node: Node, timestamp: Timestamp) -> (r: Result<(), Error>)
        requires
            old(self).well_formed(),
        ensures
            final(self).well_formed(),
            old(self).stored(
                *final(self),
                node,
                if old(self).nodes().contains_key(node.id.0) {
                    Some(&old(self).nodes()[node.id.0].properties)
                } else {
                    None
                },
                timestamp,
                r,
            ),
    {
        let before = match self.indexes.nodes.get(&node.id.0) {
            Some(held) => Some(&held.properties),
            None => None,
        };
        match self.vector_indexes.apply(
            &self.interner,
            node.id,
            before,
            &node.properties,
            no_time(),
        ) {
            Ok(_) => {},
            Err(error) => {
                return Err(error);
            },
        }
        match self.temporal_vector_indexes.apply(
            &self.interner,
            node.id,
            before,
            &node.properties,
            timestamp,
        ) {
            Ok(_) => {},
            Err(error) => {
                return Err(error);
            },
        }
        self.indexes.insert_node(node);
        Ok(())
    }

    /// Stores an edge with a number of its own.
    pub fn insert_edge_direct(&mut self, edge: Edge) -> (r: Result<(), Error>)
        requires
            old(self).well_formed(),
        ensures
            final(self).well_formed(),
            r is Ok,
            final(self).edges() == old(self).edges().insert(edge.id.0, edge),
            final(self).nodes() == old(self).nodes(),
            final(self).indexes.same_but_edges(old(self).indexes),
            final(self).indexes.lists_with(old(self).indexes, edge),
            *final(self) == (CurrentStorage { indexes: final(self).indexes, ..*old(self) }),
    {
        self.indexes.insert_edge(edge);
        Ok(())
    }

    /// Stores an edge in place of what it was before.
    pub fn update_edge_direct(&mut self, edge: Edge) -> (r: Result<(), Error>)
        requires
            old(self).well_formed(),
        ensures
            final(self).well_formed(),
            r is Ok,
            final(self).edges() == old(self).edges().insert(edge.id.0, edge),
            final(self).nodes() == old(self).nodes(),
            final(self).indexes.same_but_edges(old(self).indexes),
            final(self).indexes.lists_with(old(self).indexes, edge),
            *final(self) == (CurrentStorage { indexes: final(self).indexes, ..*old(self) }),
    {
        self.indexes.insert_edge(edge);
        Ok(())
    }

    /// Deletes a node and takes it out of the vector indexes, at present and over time.
    pub fn delete_node_direct(&mut self, id: NodeId, timestamp: Timestamp) -> (r: Result<(), Error>)
        requires
            old(self).well_formed(),
        ensures
            final(self).well_formed(),
            final(self).nodes() == old(self).nodes().remove(id.0),
            final(self).edges() == old(self).edges(),
            final(self).indexes.same_but_nodes(old(self).indexes),
            final(self).indexes.node_bound == old(self).indexes.node_bound,
            *final(self) == (CurrentStorage {
                indexes: final(self).indexes,
                vector_indexes: final(self).vector_indexes,
                temporal_vector_indexes: final(self).temporal_vector_indexes,
                ..*old(self)
            }),
            match r {
                Ok(_) => {
                    &&& old(self).nodes().contains_key(id.0)
                    &&& all_changed(
                        old(self).vector_indexes.state(),
                        final(self).vector_indexes.state(),
                        id.0,
                        |name: Seq<char>| Change::Drop,
                        no_moment(),
                        false,
                    )
                    &&& all_changed(
                        old(self).temporal_vector_indexes.state(),
                        final(self).temporal_vector_indexes.state(),
                        id.0,
                        |name: Seq<char>| Change::Drop,
                        timestamp,
                        true,
                    )
                },
                Err(error) => {
                    &&& !old(self).nodes().contains_key(id.0)
                    &&& error@ == ErrorView::NodeNotFound(id)
                    &&& final(self).vector_indexes == old(self).vector_indexes
                    &&& final(self).temporal_vector_indexes == old(self).temporal_vector_indexes
                },
            },
    {
        match self.indexes.remove_node(id) {
            None => Err(Error::Storage(StorageError::NodeNotFound(id))),
            Some(_) => {
                self.vector_indexes.take_from_all(id, no_time());
                self.temporal_vector_indexes.take_from_all(id, timestamp);
                Ok(())
            },
        }
    }

    /// Deletes an edge.
    pub fn delete_edge_direct(&mut self, id: EdgeId) -> (r: Result<(), Error>)
        requires
            old(self).well_formed(),
        ensures
            final(self).well_formed(),
            final(self).edges() == old(self).edges().remove(id.0),
            final(self).nodes() == old(self).nodes(),
            final(self).indexes.same_but_edges(old(self).indexes),
            final(self).indexes.lists_without(old(self).indexes, id.0),
            *final(self) == (CurrentStorage { indexes: final(self).indexes, ..*old(self) }),
            match r {
                Ok(_) => old(self).edges().contains_key(id.0),
                Err(error) => !old(self).edges().contains_key(id.0) && error@
                    == ErrorView::EdgeNotFound(id),
            },
    {
        match self.indexes.remove_edge(id) {
            None => Err(Error::Storage(StorageError::EdgeNotFound(id))),
            Some(_) => Ok(()),
        }
    }

    /// Says when a node was committed, if it is there.
    pub fn set_node_commit_timestamp(&mut self, node_id: NodeId, ts: Timestamp)
        requires
            old(self).well_formed(),
        ensures
            final(self).well_formed(),
            final(self).nodes() == (if old(self).nodes().contains_key(node_id.0) {
                old(self).nodes().insert(
                    node_id.0,
                    Node {
                        metadata: Metadata { commit_timestamp: Some(ts) },
                        ..old(self).nodes()[node_id.0]
                    },
                )
            } else {
                old(self).nodes()
            }),
            final(self).edges() == old(self).edges(),
            final(self).indexes == (CurrentIndexes {
                nodes: final(self).indexes.nodes,
                ..old(self).indexes
            }),
            *final(self) == (CurrentStorage { indexes: final(self).indexes, ..*old(self) }),
    {
        self.indexes.stamp_node(node_id, Metadata { commit_timestamp: Some(ts) });
    }

    /// Says when an edge was committed, if it is there.
    pub fn set_edge_commit_timestamp(&mut self, edge_id: EdgeId, ts: Timestamp)
        requires
            old(self).well_formed(),
        ensures
            final(self).well_formed(),
            final(self).edges() == (if old(self).edges().contains_key(edge_id.0) {
                old(self).edges().insert(
                    edge_id.0,
                    Edge {
                        metadata: Metadata { commit_timestamp: Some(ts) },
                        ..old(self).edges()[edge_id.0]
                    },
                )
            } else {
                old(self).edges()
            }),
            final(self).nodes() == old(self).nodes(),
            final(self).indexes == (CurrentIndexes {
                edges: final(self).indexes.edges,
                ..old(self).indexes
            }),
            *final(self) == (CurrentStorage { indexes: final(self).indexes, ..*old(self) }),
    {
        self.indexes.stamp_edge(edge_id, Metadata { commit_timestamp: Some(ts) });
    }

    /// Holds reads back while a batch is published.
    pub fn arm_apply_gate(&mut self)
        ensures
            *final(self) == (CurrentStorage { gate_armed: true, ..*old(self) }),
    {
        self.gate_armed = true;
    }

    /// Lets reads pass at any time.
    pub fn disarm_apply_gate(&mut self)
        ensures
            *final(self) == (CurrentStorage { gate_armed: false, ..*old(self) }),
    {
        self.gate_armed = false;
    }

    /// Whether reads are held back while a batch is published.
    pub fn apply_gate_armed(&self) -> (r: bool)
        ensures
            r == self.gate_armed,
    {
        self.gate_armed
    }

    /// Makes the given number the next one for a node.
    pub fn init_node_id_generator(&mut self, start: u64)
        ensures
            final(self).node_id_gen.upcoming == start,
            *final(self) == (CurrentStorage {
                node_id_gen: final(self).node_id_gen,
                ..*old(self)
            }),
    {
        self.node_id_gen.reset_to(start);
    }

    /// Makes the given number the next one for an edge.
    pub fn init_edge_id_generator(&mut self, start: u64)
        ensures
            final(self).edge_id_gen.upcoming == start,
            *final(self) == (CurrentStorage {
                edge_id_gen: final(self).edge_id_gen,
                ..*old(self)
            }),
    {
        self.edge_id_gen.reset_to(start);
    }

    /// Makes the given number the next one for a version.
    pub fn init_version_id_generator(&mut self, start: u64)
        ensures
            final(self).version_id_gen.upcoming == start,
            *final(self) == (CurrentStorage {
                version_id_gen: final(self).version_id_gen,
                ..*old(self)
            }),
    {
        self.version_id_gen.reset_to(start);
    }

    /// Makes the next number for a version no smaller than the given one.
    pub fn ensure_version_id_generator_at_least(&mut self, min_value: u64)
        ensures
            final(self).version_id_gen.upcoming == (if old(self).version_id_gen.upcoming
                < min_value {
                min_value
            } else {
                old(self).version_id_gen.upcoming
            }),
            *final(self) == (CurrentStorage {
                version_id_gen: final(self).version_id_gen,
                ..*old(self)
            }),
    {
        self.version_id_gen.ensure_at_least(min_value);
    }

    /// The next number for a version.
    pub fn get_version_id_generator_current(&self) -> (r: u64)
        ensures
            r == self.version_id_gen.upcoming,
    {
        self.version_id_gen.current()
    }

    /// The number of a label or property name, which is given one if it has none.
    pub fn intern(&mut self, text: &str) -> (r: Result<InternedString, Error>)
        requires
            old(self).well_formed(),
        ensures
            final(self).well_formed(),
            *final(self) == (CurrentStorage { interner: final(self).interner, ..*old(self) }),
            old(self).interner.after_intern(text@, final(self).interner),
            r is Ok ==> final(self).interner.id_of(text@) == Some(r->Ok_0),
            r is Err <==> old(self).interner.id_of(text@) is None && old(self).interner.strings@.len() >= old(self).interner.limit,
            r is Err ==> r->Err_0@ == old(self).no_more_strings(),
            forall|other: Seq<char>|
                old(self).interner.id_of(other) is Some ==> #[trigger] final(self).interner.id_of(
                    other,
                ) == old(self).interner.id_of(other),
    {
        self.interner.intern(text)
    }
}

impl Default for CurrentStorage {
    /// An empty graph.
    fn default() -> (r: CurrentStorage)
        ensures
            r.well_formed(),
            r.nodes().is_empty(),
            r.edges().is_empty(),
            r.node_id_gen.upcoming == 0,
            r.edge_id_gen.upcoming == 0,
            r.version_id_gen.upcoming == 0,
            r.interner.strings@.len() == 0,
            r.interner.limit == DEFAULT_MAX_INTERNED,
            r.vector_indexes.items().is_empty(),
            r.temporal_vector_indexes.items().is_empty(),
            r.filter_stats.items().is_empty(),
            r.indexes.property_indexes@.len() == 0,
            r.indexes.node_bound == 0,
            !r.gate_armed,
    {
        CurrentStorage::new()
    }
}

/// Every number that is handed out is a new one: the next is one above, until none is left.
pub proof fn law_numbers_count_up(upcoming: u64)
    ensures
        upcoming <= MAX_VALID_ID ==> advanced(upcoming) == upcoming + 1,
        upcoming > MAX_VALID_ID ==> advanced(upcoming) == upcoming,
{
}

/// An edge is refused only for a reason: one of its ends is not there, no number is left for it or
/// its version, or there is no room for its label. A missing start is told before a missing end,
/// and both before the rest.
pub proof fn law_why_an_edge_is_refused(
    storage: CurrentStorage,
    source: NodeId,
    target: NodeId,
    label: Seq<char>,
    error: ErrorView,
)
    requires
        storage.refuses_edge(source, target, label, error),
    ensures
        !storage.nodes().contains_key(source.0) ==> error == ErrorView::NodeNotFound(source),
        storage.nodes().contains_key(source.0) && !storage.nodes().contains_key(target.0) ==> error
            == ErrorView::NodeNotFound(target),
        storage.nodes().contains_key(source.0) && storage.nodes().contains_key(target.0) ==> {
            ||| storage.edge_id_gen.upcoming > MAX_VALID_ID
            ||| storage.version_id_gen.upcoming > MAX_VALID_ID
            ||| !storage.interner.texts().contains(label) && storage.interner.strings@.len()
                >= storage.interner.limit
        },
{
}

/// A node is refused only for a reason: no number is left for it or its version, there is no room
/// for its label, or one of its vectors does not fit. In the first two cases no vector is touched.
pub proof fn law_why_a_node_is_refused(
    storage: CurrentStorage,
    after: CurrentStorage,
    label: Seq<char>,
    properties: PropertyMap,
    error: ErrorView,
)
    requires
        storage.refuses_node(after, label, properties, error),
    ensures
        ({
            let numbers = storage.node_id_gen.upcoming <= MAX_VALID_ID && storage.version_id_gen.upcoming
                <= MAX_VALID_ID;
            let room = storage.interner.texts().contains(label) || storage.interner.strings@.len()
                < storage.interner.limit;
            &&& !numbers || !room ==> after.vector_indexes == storage.vector_indexes && error is CapacityExceeded
            &&& numbers && room ==> error is DimensionMismatch
        }),
{
}

/// A node that is to be stored is refused only for a vector that does not fit.
pub proof fn law_stored_node_is_refused_for_its_vector(
    before: CurrentStorage,
    after: CurrentStorage,
    node: Node,
    earlier: Option<&PropertyMap>,
    timestamp: Timestamp,
    r: Result<(), Error>,
)
    requires
        before.stored(after, node, earlier, timestamp, r),
        r is Err,
    ensures
        r->Err_0@ is DimensionMismatch,
{
}

/// The error where no more strings can be interned tells how many there are and how many there may
/// be.
pub proof fn law_no_more_strings_tells_both_numbers(storage: CurrentStorage)
    requires
        storage.interner.strings@.len() <= storage.interner.limit,
    ensures
        storage.no_more_strings() matches ErrorView::CapacityExceeded { current, limit, .. } && current
            == storage.interner.strings@.len() && limit == storage.interner.limit,
{
}

} // verus!

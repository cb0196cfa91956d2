//! Reading from the version history, and looking after it.

use super::cache::cached;
use super::chain::gives;
use super::inspect::{born, ReadMetadata};
use super::lookup::{links_end, not_found};
use super::reads::{EntityHistory, EntityState, VersionDiff};
use super::storage::HistoricalStorage;
use super::table::{entry_of, NewVersion};
use crate::error::{Error, ErrorView};
use crate::graph::{Edge, Node};
use crate::ids::{EdgeId, InternedString, NodeId, VersionId};
use crate::interning::StringInterner;
use crate::maps::{fold_values, keys_of, lists_keys, may_fold};
use crate::property::{Properties, PropertyMap};
use crate::temporal::Timestamp;
use crate::version::{EdgeEnds, EdgeVersion, NodeVersion, Provenance};
use std::collections::HashMap;
use std::sync::Arc;
use vstd::prelude::*;

verus! {

broadcast use vstd::std_specs::hash::group_hash_axioms;

/// The node is what a version of a node stores, with the given properties.
pub open spec fn node_of(v: NodeVersion, properties: Properties, node: Node) -> bool {
    &&& node.id == NodeId(v.entity)
    &&& node.label == v.label
    &&& node.properties@ == properties
    &&& node.current_version == VersionId(v.id)
}

/// The edge is what a version of an edge stores, with the given properties.
pub open spec fn edge_of(v: EdgeVersion, properties: Properties, edge: Edge) -> bool {
    &&& edge.id == EdgeId(v.entity)
    &&& edge.label == v.label
    &&& edge.source == v.ends.source
    &&& edge.target == v.ends.target
    &&& edge.properties@ == properties
    &&& edge.current_version == VersionId(v.id)
}

/// The node is what the state says.
pub open spec fn node_shows(s: EntityState<()>, node: Node) -> bool {
    &&& node.id == NodeId(s.entity)
    &&& node.label == s.label
    &&& node.properties@ == s.properties@
    &&& node.current_version == VersionId(s.version)
}

fn to_node(s: EntityState<()>) -> (r: Node)
    ensures
        node_shows(s, r),
{
    Node::new(NodeId(s.entity), s.label, s.properties, VersionId(s.version))
}

fn to_node_list(states: Vec<(u64, Option<EntityState<()>>)>) -> (r: Vec<(NodeId, Option<Node>)>)
    ensures
        r@.len() == states@.len(),
        forall|i: int|
            0 <= i < r@.len() ==> (#[trigger] r@[i]).0 == NodeId(states@[i].0) && match (
                states@[i].1,
                r@[i].1,
            ) {
                (None, None) => true,
                (Some(s), Some(node)) => node_shows(s, node),
                _ => false,
            },
{
    let ghost all = states@;
    let mut backwards = reversed(states);
    let mut out: Vec<(NodeId, Option<Node>)> = Vec::new();
    while backwards.len() > 0
        invariant
            backwards@.len() + out@.len() == all.len(),
            forall|j: int|
                0 <= j < backwards@.len() ==> #[trigger] backwards@[j] == all[all.len() - 1 - j],
            forall|j: int|
                0 <= j < out@.len() ==> (#[trigger] out@[j]).0 == NodeId(all[j].0) && match (
                    all[j].1,
                    out@[j].1,
                ) {
                    (None, None) => true,
                    (Some(s), Some(node)) => node_shows(s, node),
                    _ => false,
                },
        decreases backwards@.len(),
    {
        if let Some((id, state)) = backwards.pop() {
            let node = match state {
                Some(s) => Some(to_node(s)),
                None => None,
            };
            out.push((NodeId(id), node));
        }
    }
    out
}

/// The edge is what the state says.
pub open spec fn edge_shows(s: EntityState<EdgeEnds>, edge: Edge) -> bool {
    &&& edge.id == EdgeId(s.entity)
    &&& edge.label == s.label
    &&& edge.source == s.ends.source
    &&& edge.target == s.ends.target
    &&& edge.properties@ == s.properties@
    &&& edge.current_version == VersionId(s.version)
}

fn to_edge(s: EntityState<EdgeEnds>) -> (r: Edge)
    ensures
        edge_shows(s, r),
{
    Edge::new(EdgeId(s.entity), s.label, s.ends.source, s.ends.target, s.properties, VersionId(s.version))
}

fn to_edge_list(states: Vec<(u64, Option<EntityState<EdgeEnds>>)>) -> (r: Vec<(EdgeId, Option<Edge>)>)
    ensures
        r@.len() == states@.len(),
        forall|i: int|
            0 <= i < r@.len() ==> (#[trigger] r@[i]).0 == EdgeId(states@[i].0) && match (
                states@[i].1,
                r@[i].1,
            ) {
                (None, None) => true,
                (Some(s), Some(edge)) => edge_shows(s, edge),
                _ => false,
            },
{
    let ghost all = states@;
    let mut backwards = reversed(states);
    let mut out: Vec<(EdgeId, Option<Edge>)> = Vec::new();
    while backwards.len() > 0
        invariant
            backwards@.len() + out@.len() == all.len(),
            forall|j: int|
                0 <= j < backwards@.len() ==> #[trigger] backwards@[j] == all[all.len() - 1 - j],
            forall|j: int|
                0 <= j < out@.len() ==> (#[trigger] out@[j]).0 == EdgeId(all[j].0) && match (
                    all[j].1,
                    out@[j].1,
                ) {
                    (None, None) => true,
                    (Some(s), Some(edge)) => edge_shows(s, edge),
                    _ => false,
                },
        decreases backwards@.len(),
    {
        if let Some((id, state)) = backwards.pop() {
            let edge = match state {
                Some(s) => Some(to_edge(s)),
                None => None,
            };
            out.push((EdgeId(id), edge));
        }
    }
    out
}

fn reversed<T>(v: Vec<T>) -> (r: Vec<T>)
    ensures
        r@ == v@.reverse(),
{
    let mut v = v;
    let ghost all = v@;
    let mut out: Vec<T> = Vec::new();
    while v.len() > 0
        invariant
            v@.len() + out@.len() == all.len(),
            v@ == all.take(v@.len() as int),
            forall|i: int| 0 <= i < out@.len() ==> out@[i] == all[all.len() - 1 - i],
        decreases v@.len(),
    {
        if let Some(x) = v.pop() {
            out.push(x);
        }
    }
    assert(out@ =~= all.reverse());
    out
}

impl HistoricalStorage {
    /// Reads of node versions changed nothing but the caches and counters that go with them.
    pub open spec fn after_node_reads(self, after: HistoricalStorage) -> bool {
        &&& self.nodes.after_reads(self.max_reconstruction_depth, after.nodes)
        &&& after.edges == self.edges
        &&& after.adjacency == self.adjacency
        &&& after.meters.hooks == self.meters.hooks
        &&& after.same_settings(self)
    }

    /// Reads of edge versions changed nothing but the caches and counters that go with them.
    pub open spec fn after_edge_reads(self, after: HistoricalStorage) -> bool {
        &&& self.edges.after_reads(self.max_reconstruction_depth, after.edges)
        &&& after.nodes == self.nodes
        &&& after.adjacency == self.adjacency
        &&& after.meters.hooks == self.meters.hooks
        &&& after.same_settings(self)
    }

    /// The properties of a version of a node.
    pub fn reconstruct_node_properties(&mut self, version_id: VersionId) -> (r: Result<
        PropertyMap,
        Error,
    >)
        ensures
            gives(r, old(self).nodes.resolved(version_id.0, old(self).max_reconstruction_depth)),
            old(self).after_node_reads(*final(self)),
            final(self).meters.cache == old(self).nodes.read_counted(
                version_id.0,
                old(self).meters.cache,
            ),
    {
        let max_depth: usize = self.max_reconstruction_depth;
        let ghost before = self.nodes;
        let r = self.nodes.reconstruct(version_id.0, max_depth, &mut self.meters);
        proof {
            if r is Ok {
                super::reads::lemma_reads_compose(
                    before,
                    max_depth,
                    before,
                    self.nodes,
                    version_id.0,
                    r->Ok_0@,
                );
            }
        }
        r
    }

    /// The properties of a version of an edge.
    pub fn reconstruct_edge_properties(&mut self, version_id: VersionId) -> (r: Result<
        PropertyMap,
        Error,
    >)
        ensures
            gives(r, old(self).edges.resolved(version_id.0, old(self).max_reconstruction_depth)),
            old(self).after_edge_reads(*final(self)),
            final(self).meters.cache == old(self).edges.read_counted(
                version_id.0,
                old(self).meters.cache,
            ),
    {
        let max_depth: usize = self.max_reconstruction_depth;
        let ghost before = self.edges;
        let r = self.edges.reconstruct(version_id.0, max_depth, &mut self.meters);
        proof {
            if r is Ok {
                super::reads::lemma_reads_compose(
                    before,
                    max_depth,
                    before,
                    self.edges,
                    version_id.0,
                    r->Ok_0@,
                );
            }
        }
        r
    }

    /// A version of a node that is in memory.
    pub fn get_node_version(&self, version_id: VersionId) -> (r: Option<&NodeVersion>)
        ensures
            match r {
                Some(v) => self.nodes.versions@.contains_key(version_id.0) && *v
                    == self.nodes.versions@[version_id.0],
                None => !self.nodes.versions@.contains_key(version_id.0),
            },
    {
        self.nodes.versions.get(&version_id.0)
    }

    /// A version of an edge that is in memory.
    pub fn get_edge_version(&self, version_id: VersionId) -> (r: Option<&EdgeVersion>)
        ensures
            match r {
                Some(v) => self.edges.versions@.contains_key(version_id.0) && *v
                    == self.edges.versions@[version_id.0],
                None => !self.edges.versions@.contains_key(version_id.0),
            },
    {
        self.edges.versions.get(&version_id.0)
    }

    /// The latest version of a node.
    pub fn get_current_node_version(&self, node_id: NodeId) -> (r: Option<VersionId>)
        ensures
            match (r, entry_of(self.nodes.heads@, node_id.0)) {
                (Some(v), Some(head)) => v == VersionId(head),
                (None, None) => true,
                _ => false,
            },
    {
        match self.nodes.heads.get(&node_id.0) {
            Some(head) => Some(VersionId(*head)),
            None => None,
        }
    }

    /// The latest version of an edge.
    pub fn get_current_edge_version(&self, edge_id: EdgeId) -> (r: Option<VersionId>)
        ensures
            match (r, entry_of(self.edges.heads@, edge_id.0)) {
                (Some(v), Some(head)) => v == VersionId(head),
                (None, None) => true,
                _ => false,
            },
    {
        match self.edges.heads.get(&edge_id.0) {
            Some(head) => Some(VersionId(*head)),
            None => None,
        }
    }

    /// Who wrote the latest version of a node.
    pub fn get_current_node_provenance(&self, node_id: NodeId) -> (r: Result<
        Option<Arc<Provenance>>,
        Error,
    >)
        ensures
            match entry_of(self.nodes.heads@, node_id.0) {
                None => r matches Ok(None),
                Some(head) => match (r, self.nodes.provenance_of(head)) {
                    (Ok(p), Ok(q)) => p == q,
                    (Err(e), Err(f)) => e@ == f,
                    _ => false,
                },
            },
    {
        match self.get_current_node_version(node_id) {
            Some(version_id) => self.get_node_version_provenance(version_id),
            None => Ok(None),
        }
    }

    /// Who wrote a version of a node.
    pub fn get_node_version_provenance(&self, version_id: VersionId) -> (r: Result<
        Option<Arc<Provenance>>,
        Error,
    >)
        ensures
            match (r, self.nodes.provenance_of(version_id.0)) {
                (Ok(p), Ok(q)) => p == q,
                (Err(e), Err(f)) => e@ == f,
                _ => false,
            },
    {
        self.nodes.provenance(version_id.0)
    }

    /// Who wrote the latest version of an edge.
    pub fn get_current_edge_provenance(&self, edge_id: EdgeId) -> (r: Result<
        Option<Arc<Provenance>>,
        Error,
    >)
        ensures
            match entry_of(self.edges.heads@, edge_id.0) {
                None => r matches Ok(None),
                Some(head) => match (r, self.edges.provenance_of(head)) {
                    (Ok(p), Ok(q)) => p == q,
                    (Err(e), Err(f)) => e@ == f,
                    _ => false,
                },
            },
    {
        match self.get_current_edge_version(edge_id) {
            Some(version_id) => self.get_edge_version_provenance(version_id),
            None => Ok(None),
        }
    }

    /// Who wrote a version of an edge.
    pub fn get_edge_version_provenance(&self, version_id: VersionId) -> (r: Result<
        Option<Arc<Provenance>>,
        Error,
    >)
        ensures
            match (r, self.edges.provenance_of(version_id.0)) {
                (Ok(p), Ok(q)) => p == q,
                (Err(e), Err(f)) => e@ == f,
                _ => false,
            },
    {
        self.edges.provenance(version_id.0)
    }

    /// Who wrote a version of a node, and when it holds and is known.
    pub fn get_node_version_read_metadata(&self, version_id: VersionId) -> (r: Result<
        Option<ReadMetadata>,
        Error,
    >)
        ensures
            match (r, self.nodes.tiers().lookup(version_id.0)) {
                (Ok(Some(found)), Ok(Some(v))) => found == (v.provenance, v.temporal),
                (Ok(None), Ok(None)) => true,
                (Err(e), Err(f)) => e@ == f,
                _ => false,
            },
    {
        self.nodes.read_metadata(version_id.0)
    }

    /// Who wrote a version of an edge, and when it holds and is known.
    pub fn get_edge_version_read_metadata(&self, version_id: VersionId) -> (r: Result<
        Option<ReadMetadata>,
        Error,
    >)
        ensures
            match (r, self.edges.tiers().lookup(version_id.0)) {
                (Ok(Some(found)), Ok(Some(v))) => found == (v.provenance, v.temporal),
                (Ok(None), Ok(None)) => true,
                (Err(e), Err(f)) => e@ == f,
                _ => false,
            },
    {
        self.edges.read_metadata(version_id.0)
    }

    /// From when on a node was first held to exist.
    pub fn node_creation_time(&self, node_id: NodeId) -> (r: Option<Timestamp>)
        requires
            entry_of(self.nodes.heads@, node_id.0) matches Some(head) ==> links_end(
                self.nodes.versions@,
                head,
            ),
        ensures
            r == (match entry_of(self.nodes.heads@, node_id.0) {
                Some(head) => born(self.nodes.versions@, head),
                None => None,
            }),
    {
        self.nodes.creation_time(node_id.0)
    }

    /// From when on an edge was first held to exist.
    pub fn edge_creation_time(&self, edge_id: EdgeId) -> (r: Option<Timestamp>)
        requires
            entry_of(self.edges.heads@, edge_id.0) matches Some(head) ==> links_end(
                self.edges.versions@,
                head,
            ),
        ensures
            r == (match entry_of(self.edges.heads@, edge_id.0) {
                Some(head) => born(self.edges.versions@, head),
                None => None,
            }),
    {
        self.edges.creation_time(edge_id.0)
    }

    /// The nodes that ever had a version, in no particular order.
    pub fn versioned_node_ids(&self) -> (r: Vec<NodeId>)
        ensures
            lists_keys(r@.map_values(|id: NodeId| id.0), self.nodes.heads@),
    {
        let ids: Vec<u64> = keys_of(&self.nodes.heads);
        let mut out: Vec<NodeId> = Vec::new();
        let mut i: usize = 0;
        while i < ids.len()
            invariant
                i <= ids.len(),
                out@.len() == i,
                forall|j: int| 0 <= j < i ==> out@[j] == NodeId(ids@[j]),
            decreases ids.len() - i,
        {
            out.push(NodeId(ids[i]));
            i = i + 1;
        }
        assert(out@.map_values(|id: NodeId| id.0) =~= ids@);
        out
    }

    /// The edges that ever had a version, in no particular order.
    pub fn versioned_edge_ids(&self) -> (r: Vec<EdgeId>)
        ensures
            lists_keys(r@.map_values(|id: EdgeId| id.0), self.edges.heads@),
    {
        let ids: Vec<u64> = keys_of(&self.edges.heads);
        let mut out: Vec<EdgeId> = Vec::new();
        let mut i: usize = 0;
        while i < ids.len()
            invariant
                i <= ids.len(),
                out@.len() == i,
                forall|j: int| 0 <= j < i ==> out@[j] == EdgeId(ids@[j]),
            decreases ids.len() - i,
        {
            out.push(EdgeId(ids[i]));
            i = i + 1;
        }
        assert(out@.map_values(|id: EdgeId| id.0) =~= ids@);
        out
    }

    /// Maximum number of entities of one kind that a schema query reconstructs.
    pub fn max_schema_as_of_entities(&self) -> (r: usize)
        ensures
            r == self.max_schema_as_of_entities,
    {
        self.max_schema_as_of_entities
    }

    /// The versions of nodes in memory, by node.
    pub fn get_all_node_versions(&self) -> (r: HashMap<u64, Vec<u64>>)
        ensures
            forall|node: u64| #[trigger]
                r@.contains_key(node) ==> r@[node]@.len() > 0 && r@[node]@.no_duplicates()
                    && forall|i: int|
                    0 <= i < r@[node]@.len() ==> self.nodes.versions@.contains_key(
                        #[trigger] r@[node]@[i],
                    ) && self.nodes.versions@[r@[node]@[i]].entity == node,
            forall|id: u64| #[trigger]
                self.nodes.versions@.contains_key(id) ==> r@.contains_key(
                    self.nodes.versions@[id].entity,
                ) && r@[self.nodes.versions@[id].entity]@.contains(id),
    {
        self.nodes.grouped()
    }

    /// The versions of edges in memory, by edge.
    pub fn get_all_edge_versions(&self) -> (r: HashMap<u64, Vec<u64>>)
        ensures
            forall|edge: u64| #[trigger]
                r@.contains_key(edge) ==> r@[edge]@.len() > 0 && r@[edge]@.no_duplicates()
                    && forall|i: int|
                    0 <= i < r@[edge]@.len() ==> self.edges.versions@.contains_key(
                        #[trigger] r@[edge]@[i],
                    ) && self.edges.versions@[r@[edge]@[i]].entity == edge,
            forall|id: u64| #[trigger]
                self.edges.versions@.contains_key(id) ==> r@.contains_key(
                    self.edges.versions@[id].entity,
                ) && r@[self.edges.versions@[id].entity]@.contains(id),
    {
        self.edges.grouped()
    }

    /// Folds all versions of nodes in memory, each once, in no particular order: superseded
    /// versions and deletions too, but not what was moved to the cold tier.
    pub fn visit_node_versions<A, F: Fn(A, &NodeVersion) -> A>(&self, from: A, f: F) -> (r: A)
        requires
            forall|a: A, k: u64|
                self.nodes.versions@.contains_key(k) ==> #[trigger] call_requires(
                    f,
                    (a, &self.nodes.versions@[k]),
                ),
        ensures
            may_fold(self.nodes.versions@, from, f, r),
    {
        fold_values(&self.nodes.versions, from, f)
    }

    /// Folds all versions of edges in memory, each once, in no particular order: superseded
    /// versions and deletions too, but not what was moved to the cold tier.
    pub fn visit_edge_versions<A, F: Fn(A, &EdgeVersion) -> A>(&self, from: A, f: F) -> (r: A)
        requires
            forall|a: A, k: u64|
                self.edges.versions@.contains_key(k) ==> #[trigger] call_requires(
                    f,
                    (a, &self.edges.versions@[k]),
                ),
        ensures
            may_fold(self.edges.versions@, from, f, r),
    {
        fold_values(&self.edges.versions, from, f)
    }

    /// The version of a node that is visible at the point.
    pub fn find_node_version_at_time(
        &self,
        node_id: NodeId,
        valid_time: Timestamp,
        transaction_time: Timestamp,
    ) -> (r: Option<VersionId>)
        ensures
            match (r, self.nodes.version_at(node_id.0, valid_time, transaction_time)) {
                (Some(v), Some(id)) => v == VersionId(id),
                (None, None) => true,
                _ => false,
            },
    {
        match self.nodes.find_version_at_time(node_id.0, valid_time, transaction_time) {
            Some(id) => Some(VersionId(id)),
            None => None,
        }
    }

    /// The version of an edge that is visible at the point.
    pub fn find_edge_version_at_time(
        &self,
        edge_id: EdgeId,
        valid_time: Timestamp,
        transaction_time: Timestamp,
    ) -> (r: Option<VersionId>)
        ensures
            match (r, self.edges.version_at(edge_id.0, valid_time, transaction_time)) {
                (Some(v), Some(id)) => v == VersionId(id),
                (None, None) => true,
                _ => false,
            },
    {
        match self.edges.find_version_at_time(edge_id.0, valid_time, transaction_time) {
            Some(id) => Some(VersionId(id)),
            None => None,
        }
    }

    /// A node as it was at the point.
    pub fn get_node_at_time(
        &mut self,
        node_id: NodeId,
        valid_time: Timestamp,
        transaction_time: Timestamp,
    ) -> (r: Result<Node, Error>)
        ensures
            match old(self).nodes.version_at(node_id.0, valid_time, transaction_time) {
                None => r matches Err(e) && e@ == not_found(old(self).nodes.kind, node_id.0),
                Some(v) => match (
                    r,
                    old(self).nodes.resolved(v, old(self).max_reconstruction_depth),
                ) {
                    (Ok(node), Ok(p)) => node_of(old(self).nodes.versions@[v], p, node),
                    (Err(e), Err(f)) => e@ == f,
                    _ => false,
                },
            },
            old(self).after_node_reads(*final(self)),
            final(self).meters.cache == (match old(self).nodes.version_at(
                node_id.0,
                valid_time,
                transaction_time,
            ) {
                Some(v) => old(self).nodes.read_counted(v, old(self).meters.cache),
                None => old(self).meters.cache,
            }),
    {
        let max_depth: usize = self.max_reconstruction_depth;
        match self.nodes.state_at_time(
            node_id.0,
            valid_time,
            transaction_time,
            max_depth,
            &mut self.meters,
        ) {
            Ok(s) => Ok(to_node(s)),
            Err(e) => Err(e),
        }
    }

    /// An edge as it was at the point.
    pub fn get_edge_at_time(
        &mut self,
        edge_id: EdgeId,
        valid_time: Timestamp,
        transaction_time: Timestamp,
    ) -> (r: Result<Edge, Error>)
        ensures
            match old(self).edges.version_at(edge_id.0, valid_time, transaction_time) {
                None => r matches Err(e) && e@ == not_found(old(self).edges.kind, edge_id.0),
                Some(v) => match (
                    r,
                    old(self).edges.resolved(v, old(self).max_reconstruction_depth),
                ) {
                    (Ok(edge), Ok(p)) => edge_of(old(self).edges.versions@[v], p, edge),
                    (Err(e), Err(f)) => e@ == f,
                    _ => false,
                },
            },
            old(self).after_edge_reads(*final(self)),
            final(self).meters.cache == (match old(self).edges.version_at(
                edge_id.0,
                valid_time,
                transaction_time,
            ) {
                Some(v) => old(self).edges.read_counted(v, old(self).meters.cache),
                None => old(self).meters.cache,
            }),
    {
        let max_depth: usize = self.max_reconstruction_depth;
        match self.edges.state_at_time(
            edge_id.0,
            valid_time,
            transaction_time,
            max_depth,
            &mut self.meters,
        ) {
            Ok(s) => Ok(to_edge(s)),
            Err(e) => Err(e),
        }
    }

    /// Several nodes as they were at the point; `None` for those that were not visible. A chain
    /// that cannot be read fails the whole request.
    pub fn get_nodes_at_time(
        &mut self,
        node_ids: &Vec<NodeId>,
        valid_time: Timestamp,
        transaction_time: Timestamp,
    ) -> (r: Result<Vec<(NodeId, Option<Node>)>, Error>)
        ensures
            match r {
                Ok(list) => {
                    &&& list@.len() == node_ids@.len()
                    &&& forall|i: int|
                        0 <= i < list@.len() ==> (#[trigger] list@[i]).0 == node_ids@[i] && match (
                            old(self).nodes.version_at(
                                node_ids@[i].0,
                                valid_time,
                                transaction_time,
                            ),
                            list@[i].1,
                        ) {
                            (None, None) => true,
                            (Some(v), Some(node)) => node_of(
                                old(self).nodes.versions@[v],
                                node.properties@,
                                node,
                            ) && old(self).nodes.may_read(
                                v,
                                old(self).max_reconstruction_depth,
                                Ok(node.properties@),
                            ),
                            _ => false,
                        }
                    &&& old(self).meters.cache.after_lookups(
                        old(self).nodes.visible_among(
                            node_ids@.map_values(|id: NodeId| id.0),
                            valid_time,
                            transaction_time,
                        ),
                        final(self).meters.cache,
                    )
                },
                Err(e) => exists|i: int|
                    0 <= i < node_ids@.len() && (#[trigger] old(self).nodes.version_at(
                        node_ids@[i].0,
                        valid_time,
                        transaction_time,
                    ) matches Some(v) && old(self).nodes.may_read(
                        v,
                        old(self).max_reconstruction_depth,
                        Err(e@),
                    )) && old(self).meters.cache.after_lookups(
                        old(self).nodes.visible_among(
                            node_ids@.map_values(|id: NodeId| id.0).take(i + 1),
                            valid_time,
                            transaction_time,
                        ),
                        final(self).meters.cache,
                    ),
            },
            old(self).after_node_reads(*final(self)),
    {
        let max_depth: usize = self.max_reconstruction_depth;
        let ids: Vec<u64> = node_numbers(node_ids);
        let ghost table = self.nodes;
        match self.nodes.states_at_time(
            &ids,
            valid_time,
            transaction_time,
            max_depth,
            &mut self.meters,
        ) {
            Ok(states) => {
                let ghost all = states@;
                let list = to_node_list(states);
                assert forall|k: int| 0 <= k < list@.len() implies (#[trigger] list@[k]).0
                    == node_ids@[k] && match (
                    table.version_at(node_ids@[k].0, valid_time, transaction_time),
                    list@[k].1,
                ) {
                    (None, None) => true,
                    (Some(v), Some(node)) => node_of(
                        table.versions@[v],
                        node.properties@,
                        node,
                    ) && table.may_read(v, max_depth, Ok(node.properties@)),
                    _ => false,
                } by {
                    assert(all[k].0 == ids@[k]);
                    assert(ids@[k] == node_ids@[k].0);
                }
                Ok(list)
            },
            Err(e) => {
                proof {
                    let k = choose|k: int|
                        0 <= k < ids@.len() && (#[trigger] table.version_at(
                            ids@[k],
                            valid_time,
                            transaction_time,
                        ) matches Some(v) && table.may_read(v, max_depth, Err(e@)))
                            && old(self).meters.cache.after_lookups(
                            table.visible_among(ids@.take(k + 1), valid_time, transaction_time),
                            self.meters.cache,
                        );
                    assert(ids@[k] == node_ids@[k].0);
                    assert(table.version_at(
                        node_ids@[k].0,
                        valid_time,
                        transaction_time,
                    ) is Some);
                }
                Err(e)
            },
        }
    }

    /// Several edges as they were at the point; `None` for those that were not visible. A chain
    /// that cannot be read fails the whole request.
    pub fn get_edges_at_time(
        &mut self,
        edge_ids: &Vec<EdgeId>,
        valid_time: Timestamp,
        transaction_time: Timestamp,
    ) -> (r: Result<Vec<(EdgeId, Option<Edge>)>, Error>)
        ensures
            match r {
                Ok(list) => {
                    &&& list@.len() == edge_ids@.len()
                    &&& forall|i: int|
                        0 <= i < list@.len() ==> (#[trigger] list@[i]).0 == edge_ids@[i] && match (
                            old(self).edges.version_at(
                                edge_ids@[i].0,
                                valid_time,
                                transaction_time,
                            ),
                            list@[i].1,
                        ) {
                            (None, None) => true,
                            (Some(v), Some(edge)) => edge_of(
                                old(self).edges.versions@[v],
                                edge.properties@,
                                edge,
                            ) && old(self).edges.may_read(
                                v,
                                old(self).max_reconstruction_depth,
                                Ok(edge.properties@),
                            ),
                            _ => false,
                        }
                    &&& old(self).meters.cache.after_lookups(
                        old(self).edges.visible_among(
                            edge_ids@.map_values(|id: EdgeId| id.0),
                            valid_time,
                            transaction_time,
                        ),
                        final(self).meters.cache,
                    )
                },
                Err(e) => exists|i: int|
                    0 <= i < edge_ids@.len() && (#[trigger] old(self).edges.version_at(
                        edge_ids@[i].0,
                        valid_time,
                        transaction_time,
                    ) matches Some(v) && old(self).edges.may_read(
                        v,
                        old(self).max_reconstruction_depth,
                        Err(e@),
                    )) && old(self).meters.cache.after_lookups(
                        old(self).edges.visible_among(
                            edge_ids@.map_values(|id: EdgeId| id.0).take(i + 1),
                            valid_time,
                            transaction_time,
                        ),
                        final(self).meters.cache,
                    ),
            },
            old(self).after_edge_reads(*final(self)),
    {
        let max_depth: usize = self.max_reconstruction_depth;
        let ids: Vec<u64> = edge_numbers(edge_ids);
        let ghost table = self.edges;
        match self.edges.states_at_time(
            &ids,
            valid_time,
            transaction_time,
            max_depth,
            &mut self.meters,
        ) {
            Ok(states) => {
                let ghost all = states@;
                let list = to_edge_list(states);
                assert forall|k: int| 0 <= k < list@.len() implies (#[trigger] list@[k]).0
                    == edge_ids@[k] && match (
                    table.version_at(edge_ids@[k].0, valid_time, transaction_time),
                    list@[k].1,
                ) {
                    (None, None) => true,
                    (Some(v), Some(edge)) => edge_of(
                        table.versions@[v],
                        edge.properties@,
                        edge,
                    ) && table.may_read(v, max_depth, Ok(edge.properties@)),
                    _ => false,
                } by {
                    assert(all[k].0 == ids@[k]);
                    assert(ids@[k] == edge_ids@[k].0);
                }
                Ok(list)
            },
            Err(e) => {
                proof {
                    let k = choose|k: int|
                        0 <= k < ids@.len() && (#[trigger] table.version_at(
                            ids@[k],
                            valid_time,
                            transaction_time,
                        ) matches Some(v) && table.may_read(v, max_depth, Err(e@)))
                            && old(self).meters.cache.after_lookups(
                            table.visible_among(ids@.take(k + 1), valid_time, transaction_time),
                            self.meters.cache,
                        );
                    assert(ids@[k] == edge_ids@[k].0);
                    assert(table.version_at(
                        edge_ids@[k].0,
                        valid_time,
                        transaction_time,
                    ) is Some);
                }
                Err(e)
            },
        }
    }

    /// The nodes that had the label at the point, as they were, in the order of the request. A
    /// chain that cannot be read fails the whole request.
    pub fn get_nodes_at_time_with_label(
        &mut self,
        node_ids: &Vec<NodeId>,
        label: InternedString,
        valid_time: Timestamp,
        transaction_time: Timestamp,
    ) -> (r: Result<Vec<Node>, Error>)
        ensures
            ({
                let ids = old(self).nodes.labelled_versions_at(
                    node_ids@.map_values(|id: NodeId| id.0),
                    label,
                    valid_time,
                    transaction_time,
                );
                match r {
                    Ok(list) => list@.len() == ids.len() && (forall|i: int|
                        0 <= i < list@.len() ==> {
                            let v = old(self).nodes.versions@[ids[i]];
                            let node = #[trigger] list@[i];
                            &&& node.id == NodeId(v.entity)
                            &&& node.label == label
                            &&& node.current_version == VersionId(ids[i])
                            &&& old(self).nodes.may_read(
                                ids[i],
                                old(self).max_reconstruction_depth,
                                Ok(node.properties@),
                            )
                        }) && old(self).meters.cache.after_lookups(
                        ids.len(),
                        final(self).meters.cache,
                    ),
                    Err(e) => exists|i: int|
                        0 <= i < ids.len() && old(self).nodes.may_read(
                            #[trigger] ids[i],
                            old(self).max_reconstruction_depth,
                            Err(e@),
                        ) && old(self).meters.cache.after_lookups(
                            (i + 1) as nat,
                            final(self).meters.cache,
                        ),
                }
            }),
            old(self).after_node_reads(*final(self)),
    {
        let max_depth: usize = self.max_reconstruction_depth;
        let ids: Vec<u64> = node_numbers(node_ids);
        match self.nodes.states_at_time_with_label(
            &ids,
            label,
            valid_time,
            transaction_time,
            max_depth,
            &mut self.meters,
        ) {
            Ok(states) => {
                let ghost all = states@;
                let mut backwards = reversed(states);
                let mut list: Vec<Node> = Vec::new();
                while backwards.len() > 0
                    invariant
                        backwards@.len() + list@.len() == all.len(),
                        forall|j: int|
                            0 <= j < backwards@.len() ==> #[trigger] backwards@[j] == all[all.len()
                                - 1 - j],
                        forall|j: int|
                            0 <= j < list@.len() ==> node_shows(all[j], #[trigger] list@[j]),
                    decreases backwards@.len(),
                {
                    if let Some(state) = backwards.pop() {
                        list.push(to_node(state));
                    }
                }
                Ok(list)
            },
            Err(e) => Err(e),
        }
    }

    /// A node as the version with the given number in its history has it; the first has the number
    /// one.
    pub fn get_node_at_version(&mut self, node_id: NodeId, version_number: u64) -> (r: Result<
        Node,
        Error,
    >)
        requires
            entry_of(old(self).nodes.heads@, node_id.0) matches Some(head) ==> links_end(
                old(self).nodes.versions@,
                head,
            ),
        ensures
            match entry_of(old(self).nodes.heads@, node_id.0) {
                Some(head) if 1 <= version_number <= old(self).nodes.history_ids(head).len() => {
                    let id = old(self).nodes.history_ids(head)[version_number - 1];
                    if !old(self).nodes.versions@.contains_key(id) {
                        r matches Err(e) && e@ == ErrorView::VersionNotFound(VersionId(id))
                    } else {
                        match (
                            r,
                            old(self).nodes.resolved(id, old(self).max_reconstruction_depth),
                        ) {
                            (Ok(node), Ok(p)) => node_of(old(self).nodes.versions@[id], p, node),
                            (Err(e), Err(f)) => e@ == f,
                            _ => false,
                        }
                    }
                },
                _ => r matches Err(e) && e@ == not_found(old(self).nodes.kind, node_id.0),
            },
            old(self).after_node_reads(*final(self)),
            final(self).meters.cache == (match entry_of(old(self).nodes.heads@, node_id.0) {
                Some(head) if 1 <= version_number <= old(self).nodes.history_ids(head).len()
                    && old(self).nodes.versions@.contains_key(
                    old(self).nodes.history_ids(head)[version_number - 1],
                ) => old(self).nodes.read_counted(
                    old(self).nodes.history_ids(head)[version_number - 1],
                    old(self).meters.cache,
                ),
                _ => old(self).meters.cache,
            }),
    {
        let max_depth: usize = self.max_reconstruction_depth;
        match self.nodes.state_at_version(
            node_id.0,
            version_number,
            max_depth,
            &mut self.meters,
        ) {
            Ok(s) => Ok(to_node(s)),
            Err(e) => Err(e),
        }
    }

    /// The history of a node, the oldest version first.
    pub fn get_node_history(&mut self, node_id: NodeId, interner: &StringInterner) -> (r: Result<
        EntityHistory,
        Error,
    >)
        requires
            entry_of(old(self).nodes.heads@, node_id.0) matches Some(head) ==> links_end(
                old(self).nodes.versions@,
                head,
            ),
        ensures
            match (entry_of(old(self).nodes.heads@, node_id.0), r) {
                (None, Err(e)) => e@ == not_found(old(self).nodes.kind, node_id.0)
                    && final(self).meters == old(self).meters,
                (Some(head), Ok(h)) => old(self).nodes.history_is(
                    *interner,
                    head,
                    old(self).max_reconstruction_depth,
                    h.versions@,
                ) && old(self).meters.cache.after_lookups(
                    h.versions@.len(),
                    final(self).meters.cache,
                ),
                (Some(head), Err(e)) => old(self).nodes.history_fails(
                    head,
                    old(self).max_reconstruction_depth,
                    e@,
                    old(self).meters.cache,
                    final(self).meters.cache,
                ),
                _ => false,
            },
            old(self).after_node_reads(*final(self)),
    {
        let max_depth: usize = self.max_reconstruction_depth;
        self.nodes.history(node_id.0, interner, max_depth, &mut self.meters)
    }

    /// The difference between two versions of a node.
    pub fn diff_node_versions(
        &mut self,
        node_id: NodeId,
        from_version: VersionId,
        to_version: VersionId,
    ) -> (r: Result<VersionDiff, Error>)
        ensures
            match old(self).nodes.diff_refusal(node_id.0, from_version.0, to_version.0) {
                Some(f) => r matches Err(e) && e@ == f,
                None => match (
                    r,
                    old(self).nodes.resolved(from_version.0, old(self).max_reconstruction_depth),
                ) {
                    (Err(e), Err(f)) => e@ == f,
                    (Err(e), Ok(_)) => old(self).nodes.may_read(
                        to_version.0,
                        old(self).max_reconstruction_depth,
                        Err(e@),
                    ),
                    (Ok(d), Ok(from)) => {
                        &&& d.from_version == from_version
                        &&& d.to_version == to_version
                        &&& old(self).nodes.leads_to(
                            from,
                            to_version.0,
                            old(self).max_reconstruction_depth,
                            d,
                        )
                    },
                    _ => false,
                },
            },
            old(self).after_node_reads(*final(self)),
            match old(self).nodes.diff_refusal(node_id.0, from_version.0, to_version.0) {
                Some(_) => final(self).meters == old(self).meters,
                None => if old(self).nodes.resolved(
                    from_version.0,
                    old(self).max_reconstruction_depth,
                ) is Ok {
                    old(self).meters.cache.after_lookups(2, final(self).meters.cache)
                } else {
                    final(self).meters.cache == old(self).nodes.read_counted(
                        from_version.0,
                        old(self).meters.cache,
                    )
                },
            },
    {
        let max_depth: usize = self.max_reconstruction_depth;
        self.nodes.diff(
            node_id.0,
            from_version.0,
            to_version.0,
            max_depth,
            &mut self.meters,
        )
    }

    /// The history of an edge, the oldest version first.
    pub fn get_edge_history(&mut self, edge_id: EdgeId, interner: &StringInterner) -> (r: Result<
        EntityHistory,
        Error,
    >)
        requires
            entry_of(old(self).edges.heads@, edge_id.0) matches Some(head) ==> links_end(
                old(self).edges.versions@,
                head,
            ),
        ensures
            match (entry_of(old(self).edges.heads@, edge_id.0), r) {
                (None, Err(e)) => e@ == not_found(old(self).edges.kind, edge_id.0)
                    && final(self).meters == old(self).meters,
                (Some(head), Ok(h)) => old(self).edges.history_is(
                    *interner,
                    head,
                    old(self).max_reconstruction_depth,
                    h.versions@,
                ) && old(self).meters.cache.after_lookups(
                    h.versions@.len(),
                    final(self).meters.cache,
                ),
                (Some(head), Err(e)) => old(self).edges.history_fails(
                    head,
                    old(self).max_reconstruction_depth,
                    e@,
                    old(self).meters.cache,
                    final(self).meters.cache,
                ),
                _ => false,
            },
            old(self).after_edge_reads(*final(self)),
    {
        let max_depth: usize = self.max_reconstruction_depth;
        self.edges.history(edge_id.0, interner, max_depth, &mut self.meters)
    }

    /// The difference between two versions of an edge.
    pub fn diff_edge_versions(
        &mut self,
        edge_id: EdgeId,
        from_version: VersionId,
        to_version: VersionId,
    ) -> (r: Result<VersionDiff, Error>)
        ensures
            match old(self).edges.diff_refusal(edge_id.0, from_version.0, to_version.0) {
                Some(f) => r matches Err(e) && e@ == f,
                None => match (
                    r,
                    old(self).edges.resolved(from_version.0, old(self).max_reconstruction_depth),
                ) {
                    (Err(e), Err(f)) => e@ == f,
                    (Err(e), Ok(_)) => old(self).edges.may_read(
                        to_version.0,
                        old(self).max_reconstruction_depth,
                        Err(e@),
                    ),
                    (Ok(d), Ok(from)) => {
                        &&& d.from_version == from_version
                        &&& d.to_version == to_version
                        &&& old(self).edges.leads_to(
                            from,
                            to_version.0,
                            old(self).max_reconstruction_depth,
                            d,
                        )
                    },
                    _ => false,
                },
            },
            old(self).after_edge_reads(*final(self)),
            match old(self).edges.diff_refusal(edge_id.0, from_version.0, to_version.0) {
                Some(_) => final(self).meters == old(self).meters,
                None => if old(self).edges.resolved(
                    from_version.0,
                    old(self).max_reconstruction_depth,
                ) is Ok {
                    old(self).meters.cache.after_lookups(2, final(self).meters.cache)
                } else {
                    final(self).meters.cache == old(self).edges.read_counted(
                        from_version.0,
                        old(self).meters.cache,
                    )
                },
            },
    {
        let max_depth: usize = self.max_reconstruction_depth;
        self.edges.diff(
            edge_id.0,
            from_version.0,
            to_version.0,
            max_depth,
            &mut self.meters,
        )
    }
}

fn node_numbers(ids: &Vec<NodeId>) -> (r: Vec<u64>)
    ensures
        r@ == ids@.map_values(|id: NodeId| id.0),
        r@.len() == ids@.len(),
        forall|i: int| 0 <= i < r@.len() ==> #[trigger] r@[i] == ids@[i].0,
{
    let mut out: Vec<u64> = Vec::new();
    let mut i: usize = 0;
    while i < ids.len()
        invariant
            i <= ids.len(),
            out@.len() == i,
            forall|j: int| 0 <= j < i ==> #[trigger] out@[j] == ids@[j].0,
        decreases ids.len() - i,
    {
        out.push(ids[i].0);
        i = i + 1;
    }
    assert(out@ =~= ids@.map_values(|id: NodeId| id.0));
    out
}

fn edge_numbers(ids: &Vec<EdgeId>) -> (r: Vec<u64>)
    ensures
        r@ == ids@.map_values(|id: EdgeId| id.0),
        r@.len() == ids@.len(),
        forall|i: int| 0 <= i < r@.len() ==> #[trigger] r@[i] == ids@[i].0,
{
    let mut out: Vec<u64> = Vec::new();
    let mut i: usize = 0;
    while i < ids.len()
        invariant
            i <= ids.len(),
            out@.len() == i,
            forall|j: int| 0 <= j < i ==> #[trigger] out@[j] == ids@[j].0,
        decreases ids.len() - i,
    {
        out.push(ids[i].0);
        i = i + 1;
    }
    assert(out@ =~= ids@.map_values(|id: EdgeId| id.0));
    out
}

/// A node that was stored is seen as it was stored: whoever is shown the version sees the node's
/// number, label and version, and the properties that are read of it.
pub proof fn law_stored_node_is_seen(
    s: HistoricalStorage,
    new: NewVersion<()>,
    after: HistoricalStorage,
    p: Properties,
    shown: Node,
)
    requires
        s.node_stored(new, Ok(()), after),
        node_of(after.nodes.versions@[new.id], p, shown),
    ensures
        shown.id == NodeId(new.entity),
        shown.label == new.label,
        shown.current_version == VersionId(new.id),
        shown.properties@ == p,
{
    let base = s.nodes.append_verdict(new.entity, s.spec_limits())->Ok_0;
    assert(s.nodes.stored_as(new, base, after.nodes.versions@[new.id]));
}

/// An edge that was stored is seen as it was stored: whoever is shown the version sees the edge's
/// number, label, ends and version, and the properties that are read of it.
pub proof fn law_stored_edge_is_seen(
    s: HistoricalStorage,
    new: NewVersion<EdgeEnds>,
    is_tombstone: bool,
    after: HistoricalStorage,
    p: Properties,
    shown: Edge,
)
    requires
        s.edge_stored(new, is_tombstone, Ok(()), after),
        edge_of(after.edges.versions@[new.id], p, shown),
    ensures
        shown.id == EdgeId(new.entity),
        shown.label == new.label,
        shown.source == new.ends.source,
        shown.target == new.ends.target,
        shown.current_version == VersionId(new.id),
        shown.properties@ == p,
{
    let base = s.edges.append_verdict(new.entity, s.spec_limits())->Ok_0;
    assert(s.edges.stored_as(new, base, after.edges.versions@[new.id]));
}

/// What a state says of a node is shown whole.
pub proof fn law_node_state_is_shown_whole(s: EntityState<()>, node: Node)
    requires
        node_shows(s, node),
    ensures
        node.id.0 == s.entity,
        node.label == s.label,
        node.properties@ == s.properties@,
        node.current_version.0 == s.version,
{
}

/// What a state says of an edge is shown whole.
pub proof fn law_edge_state_is_shown_whole(s: EntityState<EdgeEnds>, edge: Edge)
    requires
        edge_shows(s, edge),
    ensures
        edge.id.0 == s.entity,
        edge.label == s.label,
        edge.properties@ == s.properties@,
        edge.current_version.0 == s.version,
        edge.source == s.ends.source && edge.target == s.ends.target,
{
}

/// Reads of nodes change nothing that is stored: every version, its chain and the adjacency stay as
/// they were, and of edges everything stays. Whatever the cache holds then is what a read may give.
pub proof fn law_node_reads_change_nothing_stored(
    s: HistoricalStorage,
    after: HistoricalStorage,
    id: u64,
)
    requires
        s.after_node_reads(after),
    ensures
        after.nodes.versions == s.nodes.versions && after.nodes.heads == s.nodes.heads,
        after.nodes.counts == s.nodes.counts && after.nodes.cold == s.nodes.cold,
        after.nodes.index == s.nodes.index,
        after.edges == s.edges && after.adjacency == s.adjacency && after.observers == s.observers,
        after.config == s.config && after.retention_policy == s.retention_policy,
        cached(after.nodes.property_cache).contains_key(id) ==> s.nodes.may_read(
            id,
            s.max_reconstruction_depth,
            Ok(cached(after.nodes.property_cache)[id]),
        ),
{
}

/// Reads of edges change nothing that is stored: every version, its chain and the adjacency stay as
/// they were, and of nodes everything stays. Whatever the cache holds then is what a read may give.
pub proof fn law_edge_reads_change_nothing_stored(
    s: HistoricalStorage,
    after: HistoricalStorage,
    id: u64,
)
    requires
        s.after_edge_reads(after),
    ensures
        after.edges.versions == s.edges.versions && after.edges.heads == s.edges.heads,
        after.edges.counts == s.edges.counts && after.edges.cold == s.edges.cold,
        after.edges.index == s.edges.index,
        after.nodes == s.nodes && after.adjacency == s.adjacency && after.observers == s.observers,
        after.config == s.config && after.retention_policy == s.retention_policy,
        cached(after.edges.property_cache).contains_key(id) ==> s.edges.may_read(
            id,
            s.max_reconstruction_depth,
            Ok(cached(after.edges.property_cache)[id]),
        ),
{
}

/// Reads of nodes and edges change nothing that is stored.
pub proof fn law_reads_change_nothing_stored(s: HistoricalStorage, after: HistoricalStorage)
    requires
        s.after_any_reads(after),
    ensures
        after.nodes.versions == s.nodes.versions && after.edges.versions == s.edges.versions,
        after.nodes.heads == s.nodes.heads && after.edges.heads == s.edges.heads,
        after.nodes.cold == s.nodes.cold && after.edges.cold == s.edges.cold,
        after.adjacency == s.adjacency && after.observers == s.observers,
        after.config == s.config && after.retention_policy == s.retention_policy,
{
}

} // verus!

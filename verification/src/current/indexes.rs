//! Nodes and edges, and what is derived from them: which edges hang on which node, and which nodes
//! have which property values.

use super::adjacency::AdjacencyIndex;
use super::entries::{has_edge, kept, lemma_kept_all, lemma_kept_members, AdjacencyEntry};
use super::property_index::PropertyIndex;
use crate::graph::{Edge, Metadata, Node};
use crate::ids::{EdgeId, InternedString, NodeId};
use std::collections::HashMap;
use vstd::prelude::*;

verus! {

broadcast use vstd::std_specs::hash::group_hash_axioms;

/// Nodes, edges, and what is derived from them.
#[derive(Debug)]
pub struct CurrentIndexes {
    /// The nodes.
    pub nodes: HashMap<u64, Node>,
    /// The edges.
    pub edges: HashMap<u64, Edge>,
    /// The edges that start at each node.
    pub outgoing: AdjacencyIndex,
    /// The edges that end at each node.
    pub incoming: AdjacencyIndex,
    /// The property values that are indexed.
    pub property_indexes: Vec<PropertyIndex>,
    /// A number above that of every node.
    pub node_bound: u64,
}

/// An edge, seen from where it starts.
pub open spec fn out_entry(edge: Edge) -> AdjacencyEntry {
    AdjacencyEntry { edge_id: edge.id, target: edge.target, label: edge.label }
}

/// An edge, seen from where it ends.
pub open spec fn in_entry(edge: Edge) -> AdjacencyEntry {
    AdjacencyEntry { edge_id: edge.id, target: edge.source, label: edge.label }
}

/// The index lists every edge where it starts, and nothing else.
pub open spec fn lists_starts(index: AdjacencyIndex, edges: Map<u64, Edge>) -> bool {
    &&& forall|n: u64, i: int|
        0 <= i < index.listed(n).len() ==> {
            let entry = #[trigger] index.listed(n)[i];
            &&& edges.contains_key(entry.edge_id.0)
            &&& edges[entry.edge_id.0].source.0 == n
            &&& entry == out_entry(edges[entry.edge_id.0])
        }
    &&& forall|id: u64| #[trigger]
        edges.contains_key(id) ==> has_edge(index.listed(edges[id].source.0), id)
}

/// The index lists every edge where it ends, and nothing else.
pub open spec fn lists_ends(index: AdjacencyIndex, edges: Map<u64, Edge>) -> bool {
    &&& forall|n: u64, i: int|
        0 <= i < index.listed(n).len() ==> {
            let entry = #[trigger] index.listed(n)[i];
            &&& edges.contains_key(entry.edge_id.0)
            &&& edges[entry.edge_id.0].target.0 == n
            &&& entry == in_entry(edges[entry.edge_id.0])
        }
    &&& forall|id: u64| #[trigger]
        edges.contains_key(id) ==> has_edge(index.listed(edges[id].target.0), id)
}

/// The nodes are kept under their own numbers.
pub open spec fn nodes_named(nodes: Map<u64, Node>) -> bool {
    forall|k: u64| #[trigger] nodes.contains_key(k) ==> nodes[k].id.0 == k
}

/// The edges are kept under their own numbers.
pub open spec fn edges_named(edges: Map<u64, Edge>) -> bool {
    forall|k: u64| #[trigger] edges.contains_key(k) ==> edges[k].id.0 == k
}

/// A number above the given one, if there is one.
pub open spec fn above(id: u64) -> u64 {
    if id == u64::MAX {
        id
    } else {
        (id + 1) as u64
    }
}

/// An edge that is not there is not listed where edges start.
pub proof fn lemma_absent_start(index: AdjacencyIndex, edges: Map<u64, Edge>, id: u64, n: u64)
    requires
        lists_starts(index, edges),
        !edges.contains_key(id),
    ensures
        !has_edge(index.listed(n), id),
{
    if has_edge(index.listed(n), id) {
        let i = choose|i: int|
            0 <= i < index.listed(n).len() && (#[trigger] index.listed(n)[i]).edge_id.0 == id;
        assert(edges.contains_key(index.listed(n)[i].edge_id.0));
    }
}

/// An edge that is not there is not listed where edges end.
pub proof fn lemma_absent_end(index: AdjacencyIndex, edges: Map<u64, Edge>, id: u64, n: u64)
    requires
        lists_ends(index, edges),
        !edges.contains_key(id),
    ensures
        !has_edge(index.listed(n), id),
{
    if has_edge(index.listed(n), id) {
        let i = choose|i: int|
            0 <= i < index.listed(n).len() && (#[trigger] index.listed(n)[i]).edge_id.0 == id;
        assert(edges.contains_key(index.listed(n)[i].edge_id.0));
    }
}

/// With an edge listed where it starts, all edges are.
pub proof fn lemma_start_added(
    before: AdjacencyIndex,
    after: AdjacencyIndex,
    edges: Map<u64, Edge>,
    edge: Edge,
)
    requires
        lists_starts(before, edges),
        !edges.contains_key(edge.id.0),
        after.listed(edge.source.0) == before.listed(edge.source.0).push(out_entry(edge)),
        forall|n: u64|
            n != edge.source.0 ==> #[trigger] after.listed(n) == before.listed(n),
    ensures
        lists_starts(after, edges.insert(edge.id.0, edge)),
{
    let all = edges.insert(edge.id.0, edge);
    let home = edge.source.0;
    assert forall|n: u64, i: int| 0 <= i < after.listed(n).len() implies {
        let entry = #[trigger] after.listed(n)[i];
        &&& all.contains_key(entry.edge_id.0)
        &&& all[entry.edge_id.0].source.0 == n
        &&& entry == out_entry(all[entry.edge_id.0])
    } by {
        if n == home && i == before.listed(n).len() {
        } else {
            assert(after.listed(n)[i] == before.listed(n)[i]);
        }
    }
    assert forall|id: u64| #[trigger] all.contains_key(id) implies has_edge(
        after.listed(all[id].source.0),
        id,
    ) by {
        let n = all[id].source.0;
        if id == edge.id.0 {
            assert(after.listed(n)[before.listed(n).len() as int].edge_id.0 == id);
        } else {
            assert(edges.contains_key(id));
            let i = choose|i: int|
                0 <= i < before.listed(n).len() && (#[trigger] before.listed(n)[i]).edge_id.0 == id;
            assert(after.listed(n)[i].edge_id.0 == id);
        }
    }
}

/// With an edge listed where it ends, all edges are.
pub proof fn lemma_end_added(
    before: AdjacencyIndex,
    after: AdjacencyIndex,
    edges: Map<u64, Edge>,
    edge: Edge,
)
    requires
        lists_ends(before, edges),
        !edges.contains_key(edge.id.0),
        after.listed(edge.target.0) == before.listed(edge.target.0).push(in_entry(edge)),
        forall|n: u64|
            n != edge.target.0 ==> #[trigger] after.listed(n) == before.listed(n),
    ensures
        lists_ends(after, edges.insert(edge.id.0, edge)),
{
    let all = edges.insert(edge.id.0, edge);
    let home = edge.target.0;
    assert forall|n: u64, i: int| 0 <= i < after.listed(n).len() implies {
        let entry = #[trigger] after.listed(n)[i];
        &&& all.contains_key(entry.edge_id.0)
        &&& all[entry.edge_id.0].target.0 == n
        &&& entry == in_entry(all[entry.edge_id.0])
    } by {
        if n == home && i == before.listed(n).len() {
        } else {
            assert(after.listed(n)[i] == before.listed(n)[i]);
        }
    }
    assert forall|id: u64| #[trigger] all.contains_key(id) implies has_edge(
        after.listed(all[id].target.0),
        id,
    ) by {
        let n = all[id].target.0;
        if id == edge.id.0 {
            assert(after.listed(n)[before.listed(n).len() as int].edge_id.0 == id);
        } else {
            assert(edges.contains_key(id));
            let i = choose|i: int|
                0 <= i < before.listed(n).len() && (#[trigger] before.listed(n)[i]).edge_id.0 == id;
            assert(after.listed(n)[i].edge_id.0 == id);
        }
    }
}

/// With an edge off the list where it starts, the other edges are listed.
proof fn lemma_start_removed(
    before: AdjacencyIndex,
    after: AdjacencyIndex,
    edges: Map<u64, Edge>,
    id: u64,
)
    requires
        lists_starts(before, edges),
        edges_named(edges),
        edges.contains_key(id),
        after.listed(edges[id].source.0) == kept(
            before.listed(edges[id].source.0),
            Set::empty().insert(id),
            None,
        ),
        forall|n: u64|
            n != edges[id].source.0 ==> #[trigger] after.listed(n) == before.listed(n),
    ensures
        lists_starts(after, edges.remove(id)),
{
    let all = edges.remove(id);
    let home = edges[id].source.0;
    let gone = Set::<u64>::empty().insert(id);
    lemma_kept_members(before.listed(home), gone, None);
    assert forall|n: u64, i: int| 0 <= i < after.listed(n).len() implies {
        let entry = #[trigger] after.listed(n)[i];
        &&& all.contains_key(entry.edge_id.0)
        &&& all[entry.edge_id.0].source.0 == n
        &&& entry == out_entry(all[entry.edge_id.0])
    } by {
        let entry = after.listed(n)[i];
        if n == home {
            assert(after.listed(n).contains(entry));
            let j = choose|j: int| 0 <= j < before.listed(n).len() && before.listed(n)[j] == entry;
            assert(before.listed(n)[j] == entry);
            assert(entry.edge_id.0 != id);
        } else {
            assert(before.listed(n)[i] == entry);
            if entry.edge_id.0 == id {
                assert(edges[id].source.0 == n);
            }
        }
    }
    assert forall|other: u64| #[trigger] all.contains_key(other) implies has_edge(
        after.listed(all[other].source.0),
        other,
    ) by {
        let n = all[other].source.0;
        assert(edges.contains_key(other));
        let i = choose|i: int|
            0 <= i < before.listed(n).len() && (#[trigger] before.listed(n)[i]).edge_id.0 == other;
        let entry = before.listed(n)[i];
        if n == home {
            assert(before.listed(n).contains(entry));
            assert(after.listed(n).contains(entry));
            let j = choose|j: int| 0 <= j < after.listed(n).len() && after.listed(n)[j] == entry;
            assert(after.listed(n)[j].edge_id.0 == other);
        } else {
            assert(after.listed(n)[i].edge_id.0 == other);
        }
    }
}

/// With an edge off the list where it ends, the other edges are listed.
proof fn lemma_end_removed(
    before: AdjacencyIndex,
    after: AdjacencyIndex,
    edges: Map<u64, Edge>,
    id: u64,
)
    requires
        lists_ends(before, edges),
        edges_named(edges),
        edges.contains_key(id),
        after.listed(edges[id].target.0) == kept(
            before.listed(edges[id].target.0),
            Set::empty().insert(id),
            None,
        ),
        forall|n: u64|
            n != edges[id].target.0 ==> #[trigger] after.listed(n) == before.listed(n),
    ensures
        lists_ends(after, edges.remove(id)),
{
    let all = edges.remove(id);
    let home = edges[id].target.0;
    let gone = Set::<u64>::empty().insert(id);
    lemma_kept_members(before.listed(home), gone, None);
    assert forall|n: u64, i: int| 0 <= i < after.listed(n).len() implies {
        let entry = #[trigger] after.listed(n)[i];
        &&& all.contains_key(entry.edge_id.0)
        &&& all[entry.edge_id.0].target.0 == n
        &&& entry == in_entry(all[entry.edge_id.0])
    } by {
        let entry = after.listed(n)[i];
        if n == home {
            assert(after.listed(n).contains(entry));
            let j = choose|j: int| 0 <= j < before.listed(n).len() && before.listed(n)[j] == entry;
            assert(before.listed(n)[j] == entry);
            assert(entry.edge_id.0 != id);
        } else {
            assert(before.listed(n)[i] == entry);
            if entry.edge_id.0 == id {
                assert(edges[id].target.0 == n);
            }
        }
    }
    assert forall|other: u64| #[trigger] all.contains_key(other) implies has_edge(
        after.listed(all[other].target.0),
        other,
    ) by {
        let n = all[other].target.0;
        assert(edges.contains_key(other));
        let i = choose|i: int|
            0 <= i < before.listed(n).len() && (#[trigger] before.listed(n)[i]).edge_id.0 == other;
        let entry = before.listed(n)[i];
        if n == home {
            assert(before.listed(n).contains(entry));
            assert(after.listed(n).contains(entry));
            let j = choose|j: int| 0 <= j < after.listed(n).len() && after.listed(n)[j] == entry;
            assert(after.listed(n)[j].edge_id.0 == other);
        } else {
            assert(after.listed(n)[i].edge_id.0 == other);
        }
    }
}

/// The list without an edge; the others keep their order.
pub open spec fn without(s: Seq<AdjacencyEntry>, id: u64) -> Seq<AdjacencyEntry> {
    kept(s, Set::empty().insert(id), None)
}

proof fn lemma_without_absent(s: Seq<AdjacencyEntry>, id: u64)
    requires
        !has_edge(s, id),
    ensures
        without(s, id) == s,
{
    lemma_kept_all(s, Set::empty().insert(id));
}

/// The properties that are indexed, in order.
pub open spec fn pairs_of(indexes: Seq<PropertyIndex>) -> Seq<(InternedString, InternedString)> {
    Seq::new(indexes.len(), |i: int| (indexes[i].label, indexes[i].key))
}

impl CurrentIndexes {
    /// Nodes and edges are kept under their own numbers, every edge is listed at both of its ends,
    /// every property index tells what the nodes hold, and the bound is above every node.
    pub open spec fn well_formed(self) -> bool {
        &&& nodes_named(self.nodes@)
        &&& edges_named(self.edges@)
        &&& self.outgoing.well_formed()
        &&& self.incoming.well_formed()
        &&& lists_starts(self.outgoing, self.edges@)
        &&& lists_ends(self.incoming, self.edges@)
        &&& forall|i: int|
            0 <= i < self.property_indexes@.len() ==> (
            #[trigger] self.property_indexes@[i]).tells(self.nodes@)
        &&& forall|k: u64| #[trigger] self.nodes@.contains_key(k) ==> above(k) <= self.node_bound
    }

    /// The properties that are indexed, in order.
    pub open spec fn indexed_pairs(self) -> Seq<(InternedString, InternedString)> {
        pairs_of(self.property_indexes@)
    }

    /// The two differ at most in the nodes, in what property indexes hold of them, and in the
    /// bound.
    pub open spec fn same_but_nodes(self, other: CurrentIndexes) -> bool {
        &&& self.edges == other.edges
        &&& self.outgoing == other.outgoing
        &&& self.incoming == other.incoming
        &&& self.indexed_pairs() == other.indexed_pairs()
    }

    /// The two differ at most in the edges and where they are listed.
    pub open spec fn same_but_edges(self, other: CurrentIndexes) -> bool {
        &&& self.nodes == other.nodes
        &&& self.property_indexes == other.property_indexes
        &&& self.node_bound == other.node_bound
    }

    /// An edge was taken out of the lists; all else is listed in the order that it was.
    pub open spec fn lists_without(self, before: CurrentIndexes, id: u64) -> bool {
        &&& forall|n: u64| #[trigger]
            self.outgoing.listed(n) == without(before.outgoing.listed(n), id)
        &&& forall|n: u64| #[trigger]
            self.incoming.listed(n) == without(before.incoming.listed(n), id)
    }

    /// An edge was listed last at both of its ends; all else is listed in the order that it was.
    pub open spec fn lists_with(self, before: CurrentIndexes, edge: Edge) -> bool {
        &&& forall|n: u64| #[trigger]
            self.outgoing.listed(n) == if n == edge.source.0 {
                without(before.outgoing.listed(n), edge.id.0).push(out_entry(edge))
            } else {
                without(before.outgoing.listed(n), edge.id.0)
            }
        &&& forall|n: u64| #[trigger]
            self.incoming.listed(n) == if n == edge.target.0 {
                without(before.incoming.listed(n), edge.id.0).push(in_entry(edge))
            } else {
                without(before.incoming.listed(n), edge.id.0)
            }
    }

    /// An edge that is not there is in none of the lists.
    pub proof fn lemma_without_stranger(self, id: u64)
        requires
            self.well_formed(),
            !self.edges@.contains_key(id),
        ensures
            self.lists_without(self, id),
    {
        assert forall|n: u64| #[trigger] self.outgoing.listed(n) == without(
            self.outgoing.listed(n),
            id,
        ) by {
            lemma_absent_start(self.outgoing, self.edges@, id, n);
            lemma_without_absent(self.outgoing.listed(n), id);
        }
        assert forall|n: u64| #[trigger] self.incoming.listed(n) == without(
            self.incoming.listed(n),
            id,
        ) by {
            lemma_absent_end(self.incoming, self.edges@, id, n);
            lemma_without_absent(self.incoming.listed(n), id);
        }
    }

    /// The bound once a node with the given number is there.
    pub open spec fn bound_with(self, id: u64) -> u64 {
        if self.node_bound < above(id) {
            above(id)
        } else {
            self.node_bound
        }
    }

    /// Nothing yet.
    pub fn new() -> (r: CurrentIndexes)
        ensures
            r.well_formed(),
            r.nodes@.is_empty(),
            r.edges@.is_empty(),
            r.property_indexes@.len() == 0,
            r.node_bound == 0,
            r.outgoing.clean(),
            r.incoming.clean(),
    {
        CurrentIndexes {
            nodes: HashMap::new(),
            edges: HashMap::new(),
            outgoing: AdjacencyIndex::new(),
            incoming: AdjacencyIndex::new(),
            property_indexes: Vec::new(),
            node_bound: 0,
        }
    }

    /// Adds a node, in place of the one with the same number.
    pub fn insert_node(&mut self, node: Node)
        requires
            old(self).well_formed(),
        ensures
            final(self).well_formed(),
            final(self).nodes@ == old(self).nodes@.insert(node.id.0, node),
            final(self).edges == old(self).edges,
            final(self).outgoing == old(self).outgoing,
            final(self).incoming == old(self).incoming,
            final(self).indexed_pairs() == old(self).indexed_pairs(),
            final(self).node_bound == (if old(self).node_bound < above(node.id.0) {
                above(node.id.0)
            } else {
                old(self).node_bound
            }),
    {
        let ghost before = *self;
        let id: u64 = node.id.0;
        let mut i: usize = 0;
        while i < self.property_indexes.len()
            invariant
                i <= self.property_indexes.len(),
                self.property_indexes@.len() == before.property_indexes@.len(),
                before.well_formed(),
                id == node.id.0,
                *self == (CurrentIndexes { property_indexes: self.property_indexes, ..before }),
                forall|j: int|
                    0 <= j < self.property_indexes@.len() ==> {
                        &&& (#[trigger] self.property_indexes@[j]).label
                            == before.property_indexes@[j].label
                        &&& self.property_indexes@[j].key == before.property_indexes@[j].key
                    },
                forall|j: int|
                    0 <= j < i ==> (#[trigger] self.property_indexes@[j]).tells(
                        before.nodes@.insert(id, node),
                    ),
                forall|j: int|
                    i <= j < self.property_indexes@.len() ==> #[trigger] self.property_indexes@[j]
                        == before.property_indexes@[j],
            decreases self.property_indexes.len() - i,
        {
            assert(before.property_indexes@[i as int].tells(before.nodes@));
            self.property_indexes[i].note(&node);
            i = i + 1;
        }
        let bound: u64 = if id == u64::MAX {
            id
        } else {
            id + 1
        };
        if self.node_bound < bound {
            self.node_bound = bound;
        }
        self.nodes.insert(id, node);
        assert(self.indexed_pairs() =~= before.indexed_pairs());
    }

    /// Takes a node away. Edges that hang on it stay.
    pub fn remove_node(&mut self, id: NodeId) -> (r: Option<Node>)
        requires
            old(self).well_formed(),
        ensures
            final(self).well_formed(),
            r == (if old(self).nodes@.contains_key(id.0) {
                Some(old(self).nodes@[id.0])
            } else {
                None
            }),
            final(self).nodes@ == old(self).nodes@.remove(id.0),
            final(self).edges == old(self).edges,
            final(self).outgoing == old(self).outgoing,
            final(self).incoming == old(self).incoming,
            final(self).indexed_pairs() == old(self).indexed_pairs(),
            final(self).node_bound == old(self).node_bound,
    {
        let ghost before = *self;
        let mut i: usize = 0;
        while i < self.property_indexes.len()
            invariant
                i <= self.property_indexes.len(),
                self.property_indexes@.len() == before.property_indexes@.len(),
                before.well_formed(),
                *self == (CurrentIndexes { property_indexes: self.property_indexes, ..before }),
                forall|j: int|
                    0 <= j < self.property_indexes@.len() ==> {
                        &&& (#[trigger] self.property_indexes@[j]).label
                            == before.property_indexes@[j].label
                        &&& self.property_indexes@[j].key == before.property_indexes@[j].key
                    },
                forall|j: int|
                    0 <= j < i ==> (#[trigger] self.property_indexes@[j]).tells(
                        before.nodes@.remove(id.0),
                    ),
                forall|j: int|
                    i <= j < self.property_indexes@.len() ==> #[trigger] self.property_indexes@[j]
                        == before.property_indexes@[j],
            decreases self.property_indexes.len() - i,
        {
            assert(before.property_indexes@[i as int].tells(before.nodes@));
            self.property_indexes[i].forget(id);
            i = i + 1;
        }
        let r = self.nodes.remove(&id.0);
        assert(self.nodes@ =~= before.nodes@.remove(id.0));
        assert(self.indexed_pairs() =~= before.indexed_pairs());
        r
    }

    /// Takes an edge away.
    pub fn remove_edge(&mut self, id: EdgeId) -> (r: Option<Edge>)
        requires
            old(self).well_formed(),
        ensures
            final(self).well_formed(),
            r == (if old(self).edges@.contains_key(id.0) {
                Some(old(self).edges@[id.0])
            } else {
                None
            }),
            final(self).edges@ == old(self).edges@.remove(id.0),
            final(self).lists_without(*old(self), id.0),
            final(self).nodes == old(self).nodes,
            final(self).property_indexes == old(self).property_indexes,
            final(self).node_bound == old(self).node_bound,
    {
        let ghost before = *self;
        match self.edges.remove(&id.0) {
            None => {
                proof {
                    assert(self.edges@ =~= before.edges@);
                    before.lemma_without_stranger(id.0);
                }
                None
            },
            Some(edge) => {
                proof {
                    assert(before.edges@.contains_key(id.0));
                    assert(edge == before.edges@[id.0]);
                }
                self.outgoing.remove(edge.source.0, id);
                self.incoming.remove(edge.target.0, id);
                proof {
                    lemma_start_removed(before.outgoing, self.outgoing, before.edges@, id.0);
                    lemma_end_removed(before.incoming, self.incoming, before.edges@, id.0);
                    assert forall|n: u64| #[trigger] self.outgoing.listed(n) == without(
                        before.outgoing.listed(n),
                        id.0,
                    ) by {
                        if n != edge.source.0 {
                            assert(has_edge(before.outgoing.listed(edge.source.0), id.0));
                            lemma_without_absent(before.outgoing.listed(n), id.0);
                        }
                    }
                    assert forall|n: u64| #[trigger] self.incoming.listed(n) == without(
                        before.incoming.listed(n),
                        id.0,
                    ) by {
                        if n != edge.target.0 {
                            assert(has_edge(before.incoming.listed(edge.target.0), id.0));
                            lemma_without_absent(before.incoming.listed(n), id.0);
                        }
                    }
                }
                Some(edge)
            },
        }
    }

    /// Adds an edge, in place of the one with the same number.
    pub fn insert_edge(&mut self, edge: Edge)
        requires
            old(self).well_formed(),
        ensures
            final(self).well_formed(),
            final(self).edges@ == old(self).edges@.insert(edge.id.0, edge),
            final(self).lists_with(*old(self), edge),
            final(self).nodes == old(self).nodes,
            final(self).property_indexes == old(self).property_indexes,
            final(self).node_bound == old(self).node_bound,
    {
        let ghost first = self.edges@;
        self.remove_edge(edge.id);
        let ghost before = *self;
        proof {
            assert forall|n: u64| !has_edge(#[trigger] before.outgoing.listed(n), edge.id.0) by {
                lemma_absent_start(before.outgoing, before.edges@, edge.id.0, n);
            }
            assert forall|n: u64| !has_edge(#[trigger] before.incoming.listed(n), edge.id.0) by {
                lemma_absent_end(before.incoming, before.edges@, edge.id.0, n);
            }
        }
        self.outgoing.insert(
            edge.source.0,
            AdjacencyEntry { edge_id: edge.id, target: edge.target, label: edge.label },
        );
        self.incoming.insert(
            edge.target.0,
            AdjacencyEntry { edge_id: edge.id, target: edge.source, label: edge.label },
        );
        proof {
            lemma_start_added(before.outgoing, self.outgoing, before.edges@, edge);
            lemma_end_added(before.incoming, self.incoming, before.edges@, edge);
        }
        self.edges.insert(edge.id.0, edge);
        assert(self.edges@ =~= first.insert(edge.id.0, edge));
    }

    /// Moves all edges into the frozen layers.
    pub fn compact_adjacency(&mut self)
        requires
            old(self).well_formed(),
        ensures
            final(self).well_formed(),
            final(self).nodes == old(self).nodes,
            final(self).edges == old(self).edges,
            final(self).property_indexes == old(self).property_indexes,
            final(self).node_bound == old(self).node_bound,
            final(self).outgoing.clean(),
            final(self).incoming.clean(),
            forall|n: u64| #[trigger]
                final(self).outgoing.listed(n) == old(self).outgoing.listed(n),
            forall|n: u64| #[trigger]
                final(self).incoming.listed(n) == old(self).incoming.listed(n),
    {
        self.outgoing.compact();
        self.incoming.compact();
    }

    /// Says when a node was committed, if it is there.
    pub fn stamp_node(&mut self, id: NodeId, metadata: Metadata)
        requires
            old(self).well_formed(),
        ensures
            final(self).well_formed(),
            final(self).nodes@ == (if old(self).nodes@.contains_key(id.0) {
                old(self).nodes@.insert(id.0, Node { metadata, ..old(self).nodes@[id.0] })
            } else {
                old(self).nodes@
            }),
            *final(self) == (CurrentIndexes { nodes: final(self).nodes, ..*old(self) }),
    {
        let ghost before = *self;
        match self.nodes.remove(&id.0) {
            None => {
                assert(self.nodes@ =~= before.nodes@);
            },
            Some(mut node) => {
                node.metadata = metadata;
                self.nodes.insert(id.0, node);
                assert(self.nodes@ =~= before.nodes@.insert(id.0, node));
            },
        }
        proof {
            assert forall|i: int| 0 <= i < self.property_indexes@.len() implies (
            #[trigger] self.property_indexes@[i]).tells(self.nodes@) by {
                let index = before.property_indexes@[i];
                assert(index.tells(before.nodes@));
                assert forall|k: u64| #[trigger] index.members@.contains_key(k)
                    <==> self.nodes@.contains_key(k) && index.covers(self.nodes@[k]) by {
                    assert(index.members@.contains_key(k) <==> before.nodes@.contains_key(k)
                        && index.covers(before.nodes@[k]));
                }
            }
        }
    }

    /// Says when an edge was committed, if it is there.
    pub fn stamp_edge(&mut self, id: EdgeId, metadata: Metadata)
        requires
            old(self).well_formed(),
        ensures
            final(self).well_formed(),
            final(self).edges@ == (if old(self).edges@.contains_key(id.0) {
                old(self).edges@.insert(id.0, Edge { metadata, ..old(self).edges@[id.0] })
            } else {
                old(self).edges@
            }),
            *final(self) == (CurrentIndexes { edges: final(self).edges, ..*old(self) }),
    {
        let ghost before = *self;
        match self.edges.remove(&id.0) {
            None => {
                assert(self.edges@ =~= before.edges@);
            },
            Some(mut edge) => {
                edge.metadata = metadata;
                self.edges.insert(id.0, edge);
                assert(self.edges@ =~= before.edges@.insert(id.0, edge));
            },
        }
        proof {
            assert forall|n: u64, i: int| 0 <= i < self.outgoing.listed(n).len() implies {
                let entry = #[trigger] self.outgoing.listed(n)[i];
                &&& self.edges@.contains_key(entry.edge_id.0)
                &&& self.edges@[entry.edge_id.0].source.0 == n
                &&& entry == out_entry(self.edges@[entry.edge_id.0])
            } by {
                assert(before.outgoing.listed(n)[i] == self.outgoing.listed(n)[i]);
            }
            assert forall|n: u64, i: int| 0 <= i < self.incoming.listed(n).len() implies {
                let entry = #[trigger] self.incoming.listed(n)[i];
                &&& self.edges@.contains_key(entry.edge_id.0)
                &&& self.edges@[entry.edge_id.0].target.0 == n
                &&& entry == in_entry(self.edges@[entry.edge_id.0])
            } by {
                assert(before.incoming.listed(n)[i] == self.incoming.listed(n)[i]);
            }
            assert forall|k: u64| #[trigger] self.edges@.contains_key(k) implies has_edge(
                self.outgoing.listed(self.edges@[k].source.0),
                k,
            ) && has_edge(self.incoming.listed(self.edges@[k].target.0), k) by {
                assert(before.edges@.contains_key(k));
            }
        }
    }
}

/// The bound lies above a node that is added, unless no number does, and never falls.
pub proof fn law_bound_lies_above(indexes: CurrentIndexes, id: u64)
    ensures
        id < u64::MAX ==> id < indexes.bound_with(id),
        indexes.node_bound <= indexes.bound_with(id),
        indexes.bound_with(id) == indexes.node_bound || indexes.bound_with(id) == above(id),
        id < u64::MAX ==> above(id) == id + 1,
{
}

/// Taking an edge out of a list takes that edge out and leaves the others in their order.
pub proof fn law_list_without_an_edge(s: Seq<AdjacencyEntry>, id: u64)
    ensures
        without(s, id) == s.filter(|e: AdjacencyEntry| e.edge_id.0 != id),
{
    let none: Option<InternedString> = None;
    super::entries::law_kept_entries(s, Set::empty().insert(id), none);
    assert((|e: AdjacencyEntry|
        !Set::<u64>::empty().insert(id).contains(e.edge_id.0) && (none matches Some(l) ==> e.label == l))
        =~= (|e: AdjacencyEntry| e.edge_id.0 != id));
}

/// A new edge is listed last where it starts and where it ends. Every other list stays, and so does
/// the order of the others; an earlier edge of the same number is gone.
pub proof fn law_new_edge_is_listed_last(
    before: CurrentIndexes,
    after: CurrentIndexes,
    edge: Edge,
    n: u64,
)
    requires
        after.lists_with(before, edge),
    ensures
        ({
            let out = before.outgoing.listed(n).filter(|e: AdjacencyEntry| e.edge_id != edge.id);
            let into = before.incoming.listed(n).filter(|e: AdjacencyEntry| e.edge_id != edge.id);
            &&& after.outgoing.listed(n) == (if n == edge.source.0 {
                out.push(AdjacencyEntry { edge_id: edge.id, target: edge.target, label: edge.label })
            } else {
                out
            })
            &&& after.incoming.listed(n) == (if n == edge.target.0 {
                into.push(AdjacencyEntry { edge_id: edge.id, target: edge.source, label: edge.label })
            } else {
                into
            })
        }),
{
    lemma_without_is_filter(before.outgoing.listed(n), edge.id);
    lemma_without_is_filter(before.incoming.listed(n), edge.id);
}

/// An edge that is taken out is listed nowhere, and the others stay in their order.
pub proof fn law_lists_without_an_edge(
    before: CurrentIndexes,
    after: CurrentIndexes,
    id: crate::ids::EdgeId,
    n: u64,
)
    requires
        after.lists_without(before, id.0),
    ensures
        after.outgoing.listed(n) == before.outgoing.listed(n).filter(
            |e: AdjacencyEntry| e.edge_id != id,
        ),
        after.incoming.listed(n) == before.incoming.listed(n).filter(
            |e: AdjacencyEntry| e.edge_id != id,
        ),
{
    lemma_without_is_filter(before.outgoing.listed(n), id);
    lemma_without_is_filter(before.incoming.listed(n), id);
}

proof fn lemma_without_is_filter(s: Seq<AdjacencyEntry>, id: crate::ids::EdgeId)
    ensures
        without(s, id.0) == s.filter(|e: AdjacencyEntry| e.edge_id != id),
    decreases s.len(),
{
    reveal(Seq::filter);
    if s.len() > 0 {
        lemma_without_is_filter(s.drop_last(), id);
    } else {
        assert(without(s, id.0) =~= s);
    }
}

} // verus!

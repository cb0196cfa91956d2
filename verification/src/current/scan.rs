//! Going through all nodes and edges.

use super::property_index::lemma_contains_push;
use super::storage::CurrentStorage;
use crate::graph::{Edge, Node};
use crate::ids::{EdgeId, InternedString, NodeId, MAX_VALID_ID};
use crate::maps::{fold_values, keys_of, lists_keys, may_fold};
use crate::ratio::Ratio;
use std::collections::HashMap;
use vstd::prelude::*;

verus! {

broadcast use vstd::std_specs::hash::group_hash_axioms;

/// The keys whose values pass a test, each once, in no particular order.
pub(crate) fn select<V, F: Fn(&V) -> bool>(m: &HashMap<u64, V>, test: F) -> (r: Vec<u64>)
    requires
        forall|k: u64| #[trigger]
            m@.contains_key(k) ==> call_requires(test, (&m@[k],)),
    ensures
        r@.no_duplicates(),
        forall|k: u64| #[trigger]
            r@.contains(k) ==> m@.contains_key(k) && call_ensures(test, (&m@[k],), true),
        forall|k: u64| #[trigger]
            m@.contains_key(k) && !r@.contains(k) ==> call_ensures(test, (&m@[k],), false),
{
    let keys = keys_of(m);
    let mut out: Vec<u64> = Vec::new();
    let mut i: usize = 0;
    while i < keys.len()
        invariant
            i <= keys.len(),
            lists_keys(keys@, m@),
            forall|k: u64| #[trigger]
                m@.contains_key(k) ==> call_requires(test, (&m@[k],)),
            out@.no_duplicates(),
            forall|k: u64| #[trigger]
                out@.contains(k) ==> m@.contains_key(k) && call_ensures(test, (&m@[k],), true)
                    && exists|j: int| 0 <= j < i && keys@[j] == k,
            forall|j: int|
                0 <= j < i && !out@.contains(#[trigger] keys@[j]) ==> call_ensures(
                    test,
                    (&m@[keys@[j]],),
                    false,
                ),
        decreases keys.len() - i,
    {
        let k: u64 = keys[i];
        let ghost before = out@;
        assert(m@.contains_key(k));
        assert(!before.contains(k)) by {
            if before.contains(k) {
                let j = choose|j: int| 0 <= j < i && keys@[j] == k;
                assert(keys@[j] == keys@[i as int]);
            }
        }
        if let Some(value) = m.get(&k) {
            if test(value) {
                out.push(k);
            }
        }
        i = i + 1;
        proof {
            assert forall|x: u64| #[trigger] out@.contains(x) implies m@.contains_key(x)
                && call_ensures(test, (&m@[x],), true) && exists|j: int|
                0 <= j < i && keys@[j] == x by {
                lemma_contains_push(before, k, x);
                if before.contains(x) {
                    let j = choose|j: int| 0 <= j < i - 1 && keys@[j] == x;
                    assert(keys@[j] == x);
                } else {
                    assert(keys@[i - 1] == x);
                }
            }
            assert forall|j: int| 0 <= j < i && !out@.contains(
                #[trigger] keys@[j],
            ) implies call_ensures(test, (&m@[keys@[j]],), false) by {
                lemma_contains_push(before, k, keys@[j]);
            }
        }
    }
    proof {
        assert forall|k: u64| #[trigger]
            m@.contains_key(k) && !out@.contains(k) implies call_ensures(
            test,
            (&m@[k],),
            false,
        ) by {
            assert(keys@.contains(k));
            let j = choose|j: int| 0 <= j < keys@.len() && keys@[j] == k;
            assert(!out@.contains(keys@[j]));
        }
    }
    out
}

/// The numbers as nodes.
pub(crate) fn as_nodes(keys: &Vec<u64>) -> (r: Vec<NodeId>)
    ensures
        r@.len() == keys@.len(),
        forall|k: u64| #[trigger] r@.contains(NodeId(k)) <==> keys@.contains(k),
        keys@.no_duplicates() ==> r@.no_duplicates(),
{
    let mut out: Vec<NodeId> = Vec::new();
    let mut i: usize = 0;
    while i < keys.len()
        invariant
            i <= keys.len(),
            out@.len() == i,
            forall|j: int| 0 <= j < i ==> #[trigger] out@[j] == NodeId(keys@[j]),
        decreases keys.len() - i,
    {
        out.push(NodeId(keys[i]));
        i = i + 1;
    }
    proof {
        assert forall|k: u64| #[trigger] out@.contains(NodeId(k)) <==> keys@.contains(k) by {
            if out@.contains(NodeId(k)) {
                let j = choose|j: int| 0 <= j < out@.len() && out@[j] == NodeId(k);
                assert(keys@[j] == k);
            }
            if keys@.contains(k) {
                let j = choose|j: int| 0 <= j < keys@.len() && keys@[j] == k;
                assert(out@[j] == NodeId(k));
            }
        }
        if keys@.no_duplicates() {
            assert forall|a: int, b: int|
                0 <= a < out@.len() && 0 <= b < out@.len() && a != b implies out@[a]
                != out@[b] by {
                assert(keys@[a] != keys@[b]);
            }
        }
    }
    out
}

/// The numbers as edges.
pub(crate) fn as_edges(keys: &Vec<u64>) -> (r: Vec<EdgeId>)
    ensures
        r@.len() == keys@.len(),
        forall|k: u64| #[trigger] r@.contains(EdgeId(k)) <==> keys@.contains(k),
        keys@.no_duplicates() ==> r@.no_duplicates(),
{
    let mut out: Vec<EdgeId> = Vec::new();
    let mut i: usize = 0;
    while i < keys.len()
        invariant
            i <= keys.len(),
            out@.len() == i,
            forall|j: int| 0 <= j < i ==> #[trigger] out@[j] == EdgeId(keys@[j]),
        decreases keys.len() - i,
    {
        out.push(EdgeId(keys[i]));
        i = i + 1;
    }
    proof {
        assert forall|k: u64| #[trigger] out@.contains(EdgeId(k)) <==> keys@.contains(k) by {
            if out@.contains(EdgeId(k)) {
                let j = choose|j: int| 0 <= j < out@.len() && out@[j] == EdgeId(k);
                assert(keys@[j] == k);
            }
            if keys@.contains(k) {
                let j = choose|j: int| 0 <= j < keys@.len() && keys@[j] == k;
                assert(out@[j] == EdgeId(k));
            }
        }
        if keys@.no_duplicates() {
            assert forall|a: int, b: int|
                0 <= a < out@.len() && 0 <= b < out@.len() && a != b implies out@[a]
                != out@[b] by {
                assert(keys@[a] != keys@[b]);
            }
        }
    }
    out
}

/// The list names exactly the nodes for which the condition holds, each once.
pub open spec fn names_nodes(r: Seq<NodeId>, holds: spec_fn(u64) -> bool) -> bool {
    &&& r.no_duplicates()
    &&& forall|k: u64| #[trigger] r.contains(NodeId(k)) <==> holds(k)
}

/// The list names exactly the edges for which the condition holds, each once.
pub open spec fn names_edges(r: Seq<EdgeId>, holds: spec_fn(u64) -> bool) -> bool {
    &&& r.no_duplicates()
    &&& forall|k: u64| #[trigger] r.contains(EdgeId(k)) <==> holds(k)
}

/// The list holds a copy of each of the nodes that are listed, in the same order.
pub open spec fn copies_nodes(r: Seq<Node>, ids: Seq<u64>, nodes: Map<u64, Node>) -> bool {
    &&& r.len() == ids.len()
    &&& forall|i: int|
        0 <= i < r.len() ==> nodes.contains_key(ids[i]) && (#[trigger] r[i]).same(nodes[ids[i]])
}

/// The list holds a copy of each of the edges that are listed, in the same order.
pub open spec fn copies_edges(r: Seq<Edge>, ids: Seq<u64>, edges: Map<u64, Edge>) -> bool {
    &&& r.len() == ids.len()
    &&& forall|i: int|
        0 <= i < r.len() ==> edges.contains_key(ids[i]) && (#[trigger] r[i]).same(edges[ids[i]])
}

/// How large the graph is.
#[derive(Clone, Copy, Debug, PartialEq, Eq, Structural)]
pub struct CurrentStats {
    /// How many nodes there are.
    pub node_count: usize,
    /// How many edges there are.
    pub edge_count: usize,
}

/// The graph at one moment.
#[derive(Debug)]
pub struct CurrentStorageSnapshot {
    /// The place in the log that the moment belongs to.
    pub lsn: u64,
    /// The nodes.
    pub nodes: Vec<Node>,
    /// The edges.
    pub edges: Vec<Edge>,
}

impl CurrentStorage {
    /// The node has the label of the given name.
    pub open spec fn has_label(self, k: u64, label: Seq<char>) -> bool {
        &&& self.nodes().contains_key(k)
        &&& Some(self.nodes()[k].label) == self.interner.id_of(label)
    }

    /// How many nodes there are.
    pub fn node_count(&self) -> (r: usize)
        ensures
            r == self.nodes().len(),
    {
        self.indexes.nodes.len()
    }

    /// How many edges there are.
    pub fn edge_count(&self) -> (r: usize)
        ensures
            r == self.edges().len(),
    {
        self.indexes.edges.len()
    }

    /// Edges per node. Zero if there are no nodes.
    pub fn avg_out_degree(&self) -> (r: Ratio)
        ensures
            r.well_formed(),
            self.nodes().len() == 0 ==> r == (Ratio { part: 0, whole: 1 }),
            self.nodes().len() > 0 ==> r.part == self.edges().len() && r.whole
                == self.nodes().len(),
    {
        let nodes: usize = self.node_count();
        if nodes == 0 {
            return Ratio::whole_number(0);
        }
        Ratio { part: self.edge_count() as i128, whole: nodes as u128 }
    }

    /// How large the graph is.
    pub fn stats(&self) -> (r: CurrentStats)
        ensures
            r.node_count == self.nodes().len(),
            r.edge_count == self.edges().len(),
    {
        CurrentStats { node_count: self.node_count(), edge_count: self.edge_count() }
    }

    /// A number above that of every node, and no smaller than it ever was.
    pub fn get_max_node_id(&self) -> (r: u64)
        requires
            self.well_formed(),
        ensures
            r == self.indexes.node_bound,
            forall|k: u64| #[trigger]
                self.nodes().contains_key(k) && k <= MAX_VALID_ID ==> k < r,
    {
        proof {
            assert forall|k: u64| #[trigger]
                self.nodes().contains_key(k) && k <= MAX_VALID_ID implies k
                < self.indexes.node_bound by {
                assert(self.indexes.nodes@.contains_key(k));
            }
        }
        self.indexes.node_bound
    }

    /// Whether there is a node with this number and label. A reserved number is no node's.
    pub fn node_has_label(&self, node_id: u64, label_id: InternedString) -> (r: bool)
        ensures
            r == (node_id <= MAX_VALID_ID && self.nodes().contains_key(node_id)
                && self.nodes()[node_id].label == label_id),
    {
        match NodeId::new(node_id) {
            Ok(id) => match self.indexes.nodes.get(&id.0) {
                Some(node) => node.label == label_id,
                None => false,
            },
            Err(_) => false,
        }
    }

    /// Whether there is a node with this number. A reserved number is no node's.
    pub fn contains_node(&self, node_id: u64) -> (r: bool)
        ensures
            r == (node_id <= MAX_VALID_ID && self.nodes().contains_key(node_id)),
    {
        match NodeId::new(node_id) {
            Ok(id) => self.indexes.nodes.contains_key(&id.0),
            Err(_) => false,
        }
    }

    /// All nodes, each once, in no particular order.
    pub fn get_all_node_ids(&self) -> (r: Vec<NodeId>)
        ensures
            names_nodes(r@, |k: u64| self.nodes().contains_key(k)),
            r@.len() == self.nodes().len(),
    {
        let keys = keys_of(&self.indexes.nodes);
        let r = as_nodes(&keys);
        assert forall|k: u64| #[trigger] r@.contains(NodeId(k)) <==> self.nodes().contains_key(
            k,
        ) by {
            assert(keys@.contains(k) <==> self.nodes().contains_key(k));
        }
        r
    }

    /// All edges, each once, in no particular order.
    pub fn get_all_edge_ids(&self) -> (r: Vec<EdgeId>)
        ensures
            names_edges(r@, |k: u64| self.edges().contains_key(k)),
            r@.len() == self.edges().len(),
    {
        let keys = keys_of(&self.indexes.edges);
        let r = as_edges(&keys);
        assert forall|k: u64| #[trigger] r@.contains(EdgeId(k)) <==> self.edges().contains_key(
            k,
        ) by {
            assert(keys@.contains(k) <==> self.edges().contains_key(k));
        }
        r
    }

    /// Copies of the nodes with the given numbers.
    fn copy_nodes(&self, keys: &Vec<u64>) -> (r: Vec<Node>)
        requires
            forall|i: int|
                0 <= i < keys@.len() ==> self.nodes().contains_key(#[trigger] keys@[i]),
        ensures
            copies_nodes(r@, keys@, self.nodes()),
    {
        let mut out: Vec<Node> = Vec::new();
        let mut i: usize = 0;
        while i < keys.len()
            invariant
                i <= keys.len(),
                out@.len() == i,
                forall|j: int|
                    0 <= j < keys@.len() ==> self.nodes().contains_key(#[trigger] keys@[j]),
                forall|j: int|
                    0 <= j < i ==> self.nodes().contains_key(keys@[j]) && (
                    #[trigger] out@[j]).same(self.nodes()[keys@[j]]),
            decreases keys.len() - i,
        {
            assert(self.nodes().contains_key(keys@[i as int]));
            if let Some(node) = self.indexes.nodes.get(&keys[i]) {
                out.push(node.copied());
            }
            i = i + 1;
        }
        out
    }

    /// Copies of the edges with the given numbers.
    fn copy_edges(&self, keys: &Vec<u64>) -> (r: Vec<Edge>)
        requires
            forall|i: int|
                0 <= i < keys@.len() ==> self.edges().contains_key(#[trigger] keys@[i]),
        ensures
            copies_edges(r@, keys@, self.edges()),
    {
        let mut out: Vec<Edge> = Vec::new();
        let mut i: usize = 0;
        while i < keys.len()
            invariant
                i <= keys.len(),
                out@.len() == i,
                forall|j: int|
                    0 <= j < keys@.len() ==> self.edges().contains_key(#[trigger] keys@[j]),
                forall|j: int|
                    0 <= j < i ==> self.edges().contains_key(keys@[j]) && (
                    #[trigger] out@[j]).same(self.edges()[keys@[j]]),
            decreases keys.len() - i,
        {
            assert(self.edges().contains_key(keys@[i as int]));
            if let Some(edge) = self.indexes.edges.get(&keys[i]) {
                out.push(edge.copied());
            }
            i = i + 1;
        }
        out
    }

    /// Copies of all nodes, in no particular order.
    pub fn get_all_nodes(&self) -> (r: Vec<Node>)
        ensures
            exists|ids: Seq<u64>| #[trigger]
                lists_keys(ids, self.nodes()) && copies_nodes(r@, ids, self.nodes()),
    {
        let keys = keys_of(&self.indexes.nodes);
        let r = self.copy_nodes(&keys);
        assert(lists_keys(keys@, self.nodes()));
        r
    }

    /// Copies of all edges, in no particular order.
    pub fn get_all_edges(&self) -> (r: Vec<Edge>)
        ensures
            exists|ids: Seq<u64>| #[trigger]
                lists_keys(ids, self.edges()) && copies_edges(r@, ids, self.edges()),
    {
        let keys = keys_of(&self.indexes.edges);
        let r = self.copy_edges(&keys);
        assert(lists_keys(keys@, self.edges()));
        r
    }

    /// Folds all nodes, each once, in no particular order.
    pub fn visit_nodes<A, F: Fn(A, &Node) -> A>(&self, from: A, f: F) -> (r: A)
        requires
            forall|a: A, k: u64|
                self.nodes().contains_key(k) ==> #[trigger] call_requires(
                    f,
                    (a, &self.nodes()[k]),
                ),
        ensures
            may_fold(self.nodes(), from, f, r),
    {
        fold_values(&self.indexes.nodes, from, f)
    }

    /// Folds all edges, each once, in no particular order.
    pub fn visit_edges<A, F: Fn(A, &Edge) -> A>(&self, from: A, f: F) -> (r: A)
        requires
            forall|a: A, k: u64|
                self.edges().contains_key(k) ==> #[trigger] call_requires(
                    f,
                    (a, &self.edges()[k]),
                ),
        ensures
            may_fold(self.edges(), from, f, r),
    {
        fold_values(&self.indexes.edges, from, f)
    }

    /// The graph at this moment.
    pub fn create_snapshot(&self, lsn: u64) -> (r: CurrentStorageSnapshot)
        ensures
            r.lsn == lsn,
            exists|ids: Seq<u64>| #[trigger]
                lists_keys(ids, self.nodes()) && copies_nodes(r.nodes@, ids, self.nodes()),
            exists|ids: Seq<u64>| #[trigger]
                lists_keys(ids, self.edges()) && copies_edges(r.edges@, ids, self.edges()),
    {
        CurrentStorageSnapshot { lsn, nodes: self.get_all_nodes(), edges: self.get_all_edges() }
    }

    /// The numbers of the nodes with a label.
    pub(crate) fn labelled(&self, label_id: InternedString) -> (r: Vec<u64>)
        ensures
            r@.no_duplicates(),
            forall|k: u64| #[trigger]
                r@.contains(k) <==> self.nodes().contains_key(k) && self.nodes()[k].label
                    == label_id,
    {
        let test = |node: &Node| -> (b: bool)
            ensures
                b == (node.label == label_id),
            { node.label == label_id };
        select(&self.indexes.nodes, test)
    }

    /// The nodes with a label, each once, in no particular order.
    pub fn get_node_ids_by_label(&self, label: &str) -> (r: Vec<NodeId>)
        requires
            self.well_formed(),
        ensures
            names_nodes(r@, |k: u64| self.has_label(k, label@)),
    {
        match self.interner.get_id(label) {
            Some(label_id) => {
                let keys = self.labelled(label_id);
                let r = as_nodes(&keys);
                assert forall|k: u64| #[trigger] r@.contains(NodeId(k)) <==> self.has_label(
                    k,
                    label@,
                ) by {
                    assert(keys@.contains(k) <==> self.nodes().contains_key(k)
                        && self.nodes()[k].label == label_id);
                }
                r
            },
            None => Vec::new(),
        }
    }

    /// The nodes with a label, each once, in no particular order.
    pub fn scan_nodes_by_label(&self, label: &str) -> (r: Vec<NodeId>)
        requires
            self.well_formed(),
        ensures
            names_nodes(r@, |k: u64| self.has_label(k, label@)),
    {
        self.get_node_ids_by_label(label)
    }

    /// Copies of the nodes with a label, in no particular order.
    pub fn get_nodes_by_label(&self, label: &str) -> (r: Vec<Node>)
        requires
            self.well_formed(),
        ensures
            exists|ids: Seq<u64>|
                {
                    &&& ids.no_duplicates()
                    &&& forall|k: u64| #[trigger] ids.contains(k) <==> self.has_label(k, label@)
                    &&& #[trigger] copies_nodes(r@, ids, self.nodes())
                },
    {
        match self.interner.get_id(label) {
            Some(label_id) => {
                let keys = self.labelled(label_id);
                assert forall|i: int| 0 <= i < keys@.len() implies self.nodes().contains_key(
                    #[trigger] keys@[i],
                ) by {
                    assert(keys@.contains(keys@[i]));
                }
                let r = self.copy_nodes(&keys);
                assert forall|k: u64| #[trigger] keys@.contains(k) <==> self.has_label(
                    k,
                    label@,
                ) by {}
                assert(copies_nodes(r@, keys@, self.nodes()));
                r
            },
            None => {
                let r: Vec<Node> = Vec::new();
                assert(copies_nodes(r@, Seq::<u64>::empty(), self.nodes()));
                r
            },
        }
    }
}

/// A list of nodes that a condition holds of names each of them once: nothing else, and as many as
/// there are.
pub proof fn law_nodes_named_exactly(nodes: Seq<NodeId>, holds: spec_fn(u64) -> bool, k: u64)
    requires
        names_nodes(nodes, holds),
    ensures
        nodes.contains(NodeId(k)) <==> holds(k),
        Set::new(holds).finite(),
        nodes.len() == Set::new(holds).len(),
{
    let a = nodes.map_values(|id: NodeId| id.0);
    assert(a.no_duplicates()) by {
        assert forall|i: int, j: int| 0 <= i < a.len() && 0 <= j < a.len() && i != j implies a[i] != a[j] by {
            assert(nodes[i] != nodes[j]);
        }
    }
    a.unique_seq_to_set();
    assert(a.to_set() =~= Set::new(holds)) by {
        assert forall|x: u64| a.to_set().contains(x) <==> holds(x) by {
            if a.contains(x) {
                let i = choose|i: int| 0 <= i < a.len() && a[i] == x;
                assert(nodes[i] == NodeId(x));
                assert(nodes.contains(NodeId(x)));
            }
            if holds(x) {
                assert(nodes.contains(NodeId(x)));
                let i = choose|i: int| 0 <= i < nodes.len() && nodes[i] == NodeId(x);
                assert(a[i] == x);
            }
        }
    }
}

/// A list of edges that a condition holds of names each of them once: nothing else, and as many as
/// there are.
pub proof fn law_edges_named_exactly(edges: Seq<EdgeId>, holds: spec_fn(u64) -> bool, k: u64)
    requires
        names_edges(edges, holds),
    ensures
        edges.contains(EdgeId(k)) <==> holds(k),
        Set::new(holds).finite(),
        edges.len() == Set::new(holds).len(),
{
    let b = edges.map_values(|id: EdgeId| id.0);
    assert(b.no_duplicates()) by {
        assert forall|i: int, j: int| 0 <= i < b.len() && 0 <= j < b.len() && i != j implies b[i] != b[j] by {
            assert(edges[i] != edges[j]);
        }
    }
    b.unique_seq_to_set();
    assert(b.to_set() =~= Set::new(holds)) by {
        assert forall|x: u64| b.to_set().contains(x) <==> holds(x) by {
            if b.contains(x) {
                let i = choose|i: int| 0 <= i < b.len() && b[i] == x;
                assert(edges[i] == EdgeId(x));
                assert(edges.contains(EdgeId(x)));
            }
            if holds(x) {
                assert(edges.contains(EdgeId(x)));
                let i = choose|i: int| 0 <= i < edges.len() && edges[i] == EdgeId(x);
                assert(b[i] == x);
            }
        }
    }
}

/// A list of copies holds, for each of the numbers, what is stored under it, in their order.
pub proof fn law_copies_hold_the_same(
    nodes: Map<u64, Node>,
    a: Seq<Node>,
    edges: Map<u64, Edge>,
    b: Seq<Edge>,
    ids: Seq<u64>,
    i: int,
)
    requires
        0 <= i < ids.len(),
    ensures
        copies_nodes(a, ids, nodes) ==> {
            &&& a.len() == ids.len()
            &&& a[i].id == nodes[ids[i]].id && a[i].label == nodes[ids[i]].label
            &&& a[i].properties@ == nodes[ids[i]].properties@
        },
        copies_edges(b, ids, edges) ==> {
            &&& b.len() == ids.len()
            &&& b[i].id == edges[ids[i]].id && b[i].label == edges[ids[i]].label
            &&& b[i].source == edges[ids[i]].source && b[i].target == edges[ids[i]].target
            &&& b[i].properties@ == edges[ids[i]].properties@
        },
{
}

} // verus!

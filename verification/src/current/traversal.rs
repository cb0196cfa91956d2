//! Going from node to node along edges.

use super::adjacency::{AdjacencyIndex, AdjacencyStats};
use super::entries::{
    distinct, edge_ids, ends, has_edge, kept, lemma_kept_all, lemma_kept_members, AdjacencyEntry,
};
use super::iterators::{
    IncomingEdgesIter, IncomingEdgesWithLabelIter, OutgoingEdgesIter, OutgoingEdgesWithLabelIter,
};
use super::storage::CurrentStorage;
use crate::ids::{EdgeId, NodeId};
use vstd::prelude::*;

verus! {

broadcast use vstd::std_specs::hash::group_hash_axioms;

/// A view of edges that are all frozen and alive.
pub struct FrozenAdjacencyView<'a> {
    /// The edges.
    pub index: &'a AdjacencyIndex,
}

impl<'a> FrozenAdjacencyView<'a> {
    /// All edges are frozen and alive.
    pub open spec fn well_formed(self) -> bool {
        self.index.well_formed() && self.index.clean()
    }

    /// The edges of a node.
    pub fn get_adjacency(&self, node: NodeId) -> (r: &Vec<AdjacencyEntry>)
        requires
            self.well_formed(),
        ensures
            r@ == self.index.listed(node.0),
    {
        proof {
            lemma_kept_all(self.index.frozen(node.0), self.index.tombstones@);
            assert(!self.index.delta@.contains_key(node.0));
            assert(self.index.listed(node.0) =~= self.index.frozen(node.0));
        }
        self.index.frozen_entries(node.0)
    }
}

/// How full the layers are in which edges are kept.
#[derive(Clone, Copy, Debug, PartialEq, Eq, Structural)]
pub struct AdjacencyIndexStats {
    /// Where edges start.
    pub outgoing: AdjacencyStats,
    /// Where edges end.
    pub incoming: AdjacencyStats,
    /// Whether all edges are frozen and alive.
    pub compacted: bool,
}

impl AdjacencyIndexStats {
    /// Whether all edges are frozen and alive.
    pub fn is_fully_compacted(&self) -> (r: bool)
        ensures
            r == self.compacted,
    {
        self.compacted
    }
}

impl CurrentStorage {
    /// The edges that start at a node.
    pub open spec fn outgoing(self, node: NodeId) -> Seq<AdjacencyEntry> {
        self.indexes.outgoing.listed(node.0)
    }

    /// The edges of one type that start at a node: none where the type is not known.
    pub open spec fn outgoing_labelled(self, node: NodeId, label: Seq<char>) -> Seq<AdjacencyEntry> {
        match self.interner.id_of(label) {
            Some(id) => kept(self.outgoing(node), Set::empty(), Some(id)),
            None => Seq::empty(),
        }
    }

    /// What is listed at a node are the edges that start at it.
    pub proof fn lemma_out_edges(self, node: NodeId)
        requires
            self.well_formed(),
        ensures
            edge_ids(self.outgoing(node)).no_duplicates(),
            forall|k: u64| #[trigger]
                edge_ids(self.outgoing(node)).contains(EdgeId(k)) <==> self.edges().contains_key(k)
                    && self.edges()[k].source == node,
            forall|i: int|
                0 <= i < self.outgoing(node).len() ==> {
                    let entry = #[trigger] self.outgoing(node)[i];
                    &&& self.edges().contains_key(entry.edge_id.0)
                    &&& entry.target == self.edges()[entry.edge_id.0].target
                    &&& entry.label == self.edges()[entry.edge_id.0].label
                },
    {
        let s = self.outgoing(node);
        let ids = edge_ids(s);
        assert(distinct(self.indexes.outgoing.listed(node.0)));
        assert forall|i: int, j: int|
            0 <= i < ids.len() && 0 <= j < ids.len() && i != j implies ids[i] != ids[j] by {
            assert(s[i].edge_id.0 != s[j].edge_id.0);
        }
        assert forall|k: u64| #[trigger] ids.contains(EdgeId(k)) <==> self.edges().contains_key(k)
            && self.edges()[k].source == node by {
            if ids.contains(EdgeId(k)) {
                let i = choose|i: int| 0 <= i < ids.len() && ids[i] == EdgeId(k);
                assert(self.indexes.outgoing.listed(node.0)[i].edge_id.0 == k);
            }
            if self.edges().contains_key(k) && self.edges()[k].source == node {
                assert(has_edge(self.indexes.outgoing.listed(node.0), k));
                let i = choose|i: int| 0 <= i < s.len() && (#[trigger] s[i]).edge_id.0 == k;
                assert(ids[i] == EdgeId(k));
            }
        }
        assert forall|i: int| 0 <= i < s.len() implies {
            let entry = #[trigger] s[i];
            &&& self.edges().contains_key(entry.edge_id.0)
            &&& entry.target == self.edges()[entry.edge_id.0].target
            &&& entry.label == self.edges()[entry.edge_id.0].label
        } by {
            assert(self.indexes.outgoing.listed(node.0)[i] == s[i]);
        }
    }

    /// What is listed at a node under a type are the edges of that type that start at it.
    pub proof fn lemma_out_labelled(self, node: NodeId, label: Seq<char>)
        requires
            self.well_formed(),
        ensures
            edge_ids(self.outgoing_labelled(node, label)).no_duplicates(),
            forall|k: u64| #[trigger]
                edge_ids(self.outgoing_labelled(node, label)).contains(EdgeId(k))
                    <==> self.edges().contains_key(k) && self.edges()[k].source == node && Some(
                    self.edges()[k].label,
                ) == self.interner.id_of(label),
    {
        let all = self.outgoing(node);
        let s = self.outgoing_labelled(node, label);
        let ids = edge_ids(s);
        self.lemma_out_edges(node);
        assert(distinct(self.indexes.outgoing.listed(node.0)));
        lemma_kept_members(all, Set::empty(), self.interner.id_of(label));
        assert forall|i: int, j: int|
            0 <= i < ids.len() && 0 <= j < ids.len() && i != j implies ids[i] != ids[j] by {
            assert(s[i].edge_id.0 != s[j].edge_id.0);
        }
        assert forall|k: u64| #[trigger] ids.contains(EdgeId(k)) <==> self.edges().contains_key(k)
            && self.edges()[k].source == node && Some(self.edges()[k].label)
            == self.interner.id_of(label) by {
            if ids.contains(EdgeId(k)) {
                let i = choose|i: int| 0 <= i < ids.len() && ids[i] == EdgeId(k);
                assert(s.contains(s[i]));
                let j = choose|j: int| 0 <= j < all.len() && all[j] == s[i];
                assert(all[j].edge_id.0 == k);
                assert(edge_ids(all)[j] == EdgeId(k));
                assert(edge_ids(all).contains(EdgeId(k)));
            }
            if self.edges().contains_key(k) && self.edges()[k].source == node && Some(
                self.edges()[k].label,
            ) == self.interner.id_of(label) {
                assert(edge_ids(all).contains(EdgeId(k)));
                let j = choose|j: int| 0 <= j < all.len() && edge_ids(all)[j] == EdgeId(k);
                assert(all[j].edge_id.0 == k);
                assert(all.contains(all[j]));
                assert(s.contains(all[j]));
                let i = choose|i: int| 0 <= i < s.len() && s[i] == all[j];
                assert(ids[i] == EdgeId(k));
            }
        }
    }

    /// The edges that start at a node, each once.
    pub fn get_outgoing_edges(&self, source: NodeId) -> (r: Vec<EdgeId>)
        requires
            self.well_formed(),
        ensures
            r@ == edge_ids(self.outgoing(source)),
            r@.no_duplicates(),
            forall|k: u64| #[trigger]
                r@.contains(EdgeId(k)) <==> self.edges().contains_key(k) && self.edges()[k].source
                    == source,
    {
        proof {
            self.lemma_out_edges(source);
        }
        self.get_outgoing_edges_iter(source).collect()
    }

    /// The edges of one type that start at a node, each once.
    pub fn get_outgoing_edges_with_label(&self, source: NodeId, label: &str) -> (r: Vec<EdgeId>)
        requires
            self.well_formed(),
        ensures
            r@ == edge_ids(self.outgoing_labelled(source, label@)),
            r@.no_duplicates(),
            forall|k: u64| #[trigger]
                r@.contains(EdgeId(k)) <==> self.edges().contains_key(k) && self.edges()[k].source
                    == source && Some(self.edges()[k].label) == self.interner.id_of(label@),
    {
        proof {
            self.lemma_out_labelled(source, label@);
        }
        self.get_outgoing_edges_with_label_iter(source, label).collect()
    }

    /// A walk along the edges that start at a node.
    pub fn get_outgoing_edges_iter(&self, source: NodeId) -> (r: OutgoingEdgesIter<'_>)
        requires
            self.well_formed(),
        ensures
            r.well_formed(),
            r.walk.passed() == 0,
            r.walk.remaining() == self.outgoing(source),
    {
        OutgoingEdgesIter::new(self.indexes.outgoing.guard(source))
    }

    /// A walk along the edges of one type that start at a node.
    pub fn get_outgoing_edges_with_label_iter(&self, source: NodeId, label: &str) -> (r:
        OutgoingEdgesWithLabelIter<'_>)
        requires
            self.well_formed(),
        ensures
            r.well_formed(),
            r.walk.passed() == 0,
            r.remaining() == self.outgoing_labelled(source, label@),
    {
        let label_id = self.interner.get_id(label);
        OutgoingEdgesWithLabelIter::new(self.indexes.outgoing.guard(source), label_id)
    }

    /// The ends of the edges that start at a node, edge by edge.
    pub fn get_outgoing_targets(&self, source: NodeId) -> (r: Vec<NodeId>)
        requires
            self.well_formed(),
        ensures
            r@ == ends(self.outgoing(source)),
            r@.len() == self.outgoing(source).len(),
            forall|i: int|
                0 <= i < r@.len() ==> #[trigger] r@[i] == self.edges()[self.outgoing(
                    source,
                )[i].edge_id.0].target,
    {
        let ids = self.get_outgoing_edges(source);
        let ghost s = self.outgoing(source);
        proof {
            self.lemma_out_edges(source);
        }
        let mut out: Vec<NodeId> = Vec::new();
        let mut i: usize = 0;
        while i < ids.len()
            invariant
                i <= ids.len(),
                ids@ == edge_ids(s),
                out@ == ends(s).take(i as int),
                forall|j: int|
                    0 <= j < s.len() ==> {
                        let entry = #[trigger] s[j];
                        &&& self.edges().contains_key(entry.edge_id.0)
                        &&& entry.target == self.edges()[entry.edge_id.0].target
                    },
            decreases ids.len() - i,
        {
            assert(s[i as int].edge_id == ids@[i as int]);
            if let Some(edge) = self.indexes.edges.get(&ids[i].0) {
                out.push(edge.target);
            }
            i = i + 1;
            assert(out@ =~= ends(s).take(i as int));
        }
        assert(out@ =~= ends(s));
        out
    }

    /// The ends of the edges of one type that start at a node, edge by edge.
    pub fn get_outgoing_targets_with_label(&self, source: NodeId, label: &str) -> (r: Vec<NodeId>)
        requires
            self.well_formed(),
        ensures
            r@ == ends(self.outgoing_labelled(source, label@)),
    {
        let ids = self.get_outgoing_edges_with_label(source, label);
        let ghost all = self.outgoing(source);
        let ghost s = self.outgoing_labelled(source, label@);
        proof {
            self.lemma_out_edges(source);
            lemma_kept_members(all, Set::empty(), self.interner.id_of(label@));
        }
        let mut out: Vec<NodeId> = Vec::new();
        let mut i: usize = 0;
        while i < ids.len()
            invariant
                i <= ids.len(),
                ids@ == edge_ids(s),
                out@ == ends(s).take(i as int),
                forall|entry: AdjacencyEntry| #[trigger] s.contains(entry) ==> all.contains(entry),
                forall|j: int|
                    0 <= j < all.len() ==> {
                        let entry = #[trigger] all[j];
                        &&& self.edges().contains_key(entry.edge_id.0)
                        &&& entry.target == self.edges()[entry.edge_id.0].target
                    },
            decreases ids.len() - i,
        {
            assert(s[i as int].edge_id == ids@[i as int]);
            assert(s.contains(s[i as int]));
            let ghost j = choose|j: int| 0 <= j < all.len() && all[j] == s[i as int];
            assert(all[j] == s[i as int]);
            if let Some(edge) = self.indexes.edges.get(&ids[i].0) {
                out.push(edge.target);
            }
            i = i + 1;
            assert(out@ =~= ends(s).take(i as int));
        }
        assert(out@ =~= ends(s));
        out
    }

    /// How many edges start at a node.
    pub fn out_degree(&self, node: NodeId) -> (r: usize)
        requires
            self.well_formed(),
        ensures
            r == self.outgoing(node).len(),
    {
        self.get_outgoing_edges(node).len()
    }

    /// A view of the edges that start at nodes, where all of them are frozen and alive.
    pub fn frozen_outgoing_view(&self) -> (r: Option<FrozenAdjacencyView<'_>>)
        requires
            self.well_formed(),
        ensures
            r is Some <==> self.indexes.outgoing.clean(),
            r is Some ==> r->Some_0.well_formed() && *r->Some_0.index == self.indexes.outgoing,
    {
        if self.indexes.outgoing.is_clean() {
            Some(FrozenAdjacencyView { index: &self.indexes.outgoing })
        } else {
            None
        }
    }

    /// The edges that end at a node.
    pub open spec fn incoming(self, node: NodeId) -> Seq<AdjacencyEntry> {
        self.indexes.incoming.listed(node.0)
    }

    /// The edges of one type that end at a node: none where the type is not known.
    pub open spec fn incoming_labelled(self, node: NodeId, label: Seq<char>) -> Seq<AdjacencyEntry> {
        match self.interner.id_of(label) {
            Some(id) => kept(self.incoming(node), Set::empty(), Some(id)),
            None => Seq::empty(),
        }
    }

    /// What is listed at a node are the edges that end at it.
    pub proof fn lemma_in_edges(self, node: NodeId)
        requires
            self.well_formed(),
        ensures
            edge_ids(self.incoming(node)).no_duplicates(),
            forall|k: u64| #[trigger]
                edge_ids(self.incoming(node)).contains(EdgeId(k)) <==> self.edges().contains_key(k)
                    && self.edges()[k].target == node,
            forall|i: int|
                0 <= i < self.incoming(node).len() ==> {
                    let entry = #[trigger] self.incoming(node)[i];
                    &&& self.edges().contains_key(entry.edge_id.0)
                    &&& entry.target == self.edges()[entry.edge_id.0].source
                    &&& entry.label == self.edges()[entry.edge_id.0].label
                },
    {
        let s = self.incoming(node);
        let ids = edge_ids(s);
        assert(distinct(self.indexes.incoming.listed(node.0)));
        assert forall|i: int, j: int|
            0 <= i < ids.len() && 0 <= j < ids.len() && i != j implies ids[i] != ids[j] by {
            assert(s[i].edge_id.0 != s[j].edge_id.0);
        }
        assert forall|k: u64| #[trigger] ids.contains(EdgeId(k)) <==> self.edges().contains_key(k)
            && self.edges()[k].target == node by {
            if ids.contains(EdgeId(k)) {
                let i = choose|i: int| 0 <= i < ids.len() && ids[i] == EdgeId(k);
                assert(self.indexes.incoming.listed(node.0)[i].edge_id.0 == k);
            }
            if self.edges().contains_key(k) && self.edges()[k].target == node {
                assert(has_edge(self.indexes.incoming.listed(node.0), k));
                let i = choose|i: int| 0 <= i < s.len() && (#[trigger] s[i]).edge_id.0 == k;
                assert(ids[i] == EdgeId(k));
            }
        }
        assert forall|i: int| 0 <= i < s.len() implies {
            let entry = #[trigger] s[i];
            &&& self.edges().contains_key(entry.edge_id.0)
            &&& entry.target == self.edges()[entry.edge_id.0].source
            &&& entry.label == self.edges()[entry.edge_id.0].label
        } by {
            assert(self.indexes.incoming.listed(node.0)[i] == s[i]);
        }
    }

    /// What is listed at a node under a type are the edges of that type that end at it.
    pub proof fn lemma_in_labelled(self, node: NodeId, label: Seq<char>)
        requires
            self.well_formed(),
        ensures
            edge_ids(self.incoming_labelled(node, label)).no_duplicates(),
            forall|k: u64| #[trigger]
                edge_ids(self.incoming_labelled(node, label)).contains(EdgeId(k))
                    <==> self.edges().contains_key(k) && self.edges()[k].target == node && Some(
                    self.edges()[k].label,
                ) == self.interner.id_of(label),
    {
        let all = self.incoming(node);
        let s = self.incoming_labelled(node, label);
        let ids = edge_ids(s);
        self.lemma_in_edges(node);
        assert(distinct(self.indexes.incoming.listed(node.0)));
        lemma_kept_members(all, Set::empty(), self.interner.id_of(label));
        assert forall|i: int, j: int|
            0 <= i < ids.len() && 0 <= j < ids.len() && i != j implies ids[i] != ids[j] by {
            assert(s[i].edge_id.0 != s[j].edge_id.0);
        }
        assert forall|k: u64| #[trigger] ids.contains(EdgeId(k)) <==> self.edges().contains_key(k)
            && self.edges()[k].target == node && Some(self.edges()[k].label)
            == self.interner.id_of(label) by {
            if ids.contains(EdgeId(k)) {
                let i = choose|i: int| 0 <= i < ids.len() && ids[i] == EdgeId(k);
                assert(s.contains(s[i]));
                let j = choose|j: int| 0 <= j < all.len() && all[j] == s[i];
                assert(all[j].edge_id.0 == k);
                assert(edge_ids(all)[j] == EdgeId(k));
                assert(edge_ids(all).contains(EdgeId(k)));
            }
            if self.edges().contains_key(k) && self.edges()[k].target == node && Some(
                self.edges()[k].label,
            ) == self.interner.id_of(label) {
                assert(edge_ids(all).contains(EdgeId(k)));
                let j = choose|j: int| 0 <= j < all.len() && edge_ids(all)[j] == EdgeId(k);
                assert(all[j].edge_id.0 == k);
                assert(all.contains(all[j]));
                assert(s.contains(all[j]));
                let i = choose|i: int| 0 <= i < s.len() && s[i] == all[j];
                assert(ids[i] == EdgeId(k));
            }
        }
    }

    /// The edges that end at a node, each once.
    pub fn get_incoming_edges(&self, target: NodeId) -> (r: Vec<EdgeId>)
        requires
            self.well_formed(),
        ensures
            r@ == edge_ids(self.incoming(target)),
            r@.no_duplicates(),
            forall|k: u64| #[trigger]
                r@.contains(EdgeId(k)) <==> self.edges().contains_key(k) && self.edges()[k].target
                    == target,
    {
        proof {
            self.lemma_in_edges(target);
        }
        self.get_incoming_edges_iter(target).collect()
    }

    /// The edges of one type that end at a node, each once.
    pub fn get_incoming_edges_with_label(&self, target: NodeId, label: &str) -> (r: Vec<EdgeId>)
        requires
            self.well_formed(),
        ensures
            r@ == edge_ids(self.incoming_labelled(target, label@)),
            r@.no_duplicates(),
            forall|k: u64| #[trigger]
                r@.contains(EdgeId(k)) <==> self.edges().contains_key(k) && self.edges()[k].target
                    == target && Some(self.edges()[k].label) == self.interner.id_of(label@),
    {
        proof {
            self.lemma_in_labelled(target, label@);
        }
        self.get_incoming_edges_with_label_iter(target, label).collect()
    }

    /// A walk along the edges that end at a node.
    pub fn get_incoming_edges_iter(&self, target: NodeId) -> (r: IncomingEdgesIter<'_>)
        requires
            self.well_formed(),
        ensures
            r.well_formed(),
            r.walk.passed() == 0,
            r.walk.remaining() == self.incoming(target),
    {
        IncomingEdgesIter::new(self.indexes.incoming.guard(target))
    }

    /// A walk along the edges of one type that end at a node.
    pub fn get_incoming_edges_with_label_iter(&self, target: NodeId, label: &str) -> (r:
        IncomingEdgesWithLabelIter<'_>)
        requires
            self.well_formed(),
        ensures
            r.well_formed(),
            r.walk.passed() == 0,
            r.remaining() == self.incoming_labelled(target, label@),
    {
        let label_id = self.interner.get_id(label);
        IncomingEdgesWithLabelIter::new(self.indexes.incoming.guard(target), label_id)
    }

    /// The starts of the edges that end at a node, edge by edge.
    pub fn get_incoming_sources(&self, target: NodeId) -> (r: Vec<NodeId>)
        requires
            self.well_formed(),
        ensures
            r@ == ends(self.incoming(target)),
            r@.len() == self.incoming(target).len(),
            forall|i: int|
                0 <= i < r@.len() ==> #[trigger] r@[i] == self.edges()[self.incoming(
                    target,
                )[i].edge_id.0].source,
    {
        let ids = self.get_incoming_edges(target);
        let ghost s = self.incoming(target);
        proof {
            self.lemma_in_edges(target);
        }
        let mut out: Vec<NodeId> = Vec::new();
        let mut i: usize = 0;
        while i < ids.len()
            invariant
                i <= ids.len(),
                ids@ == edge_ids(s),
                out@ == ends(s).take(i as int),
                forall|j: int|
                    0 <= j < s.len() ==> {
                        let entry = #[trigger] s[j];
                        &&& self.edges().contains_key(entry.edge_id.0)
                        &&& entry.target == self.edges()[entry.edge_id.0].source
                    },
            decreases ids.len() - i,
        {
            assert(s[i as int].edge_id == ids@[i as int]);
            if let Some(edge) = self.indexes.edges.get(&ids[i].0) {
                out.push(edge.source);
            }
            i = i + 1;
            assert(out@ =~= ends(s).take(i as int));
        }
        assert(out@ =~= ends(s));
        out
    }

    /// The starts of the edges of one type that end at a node, edge by edge.
    pub fn get_incoming_sources_with_label(&self, target: NodeId, label: &str) -> (r: Vec<NodeId>)
        requires
            self.well_formed(),
        ensures
            r@ == ends(self.incoming_labelled(target, label@)),
    {
        let ids = self.get_incoming_edges_with_label(target, label);
        let ghost all = self.incoming(target);
        let ghost s = self.incoming_labelled(target, label@);
        proof {
            self.lemma_in_edges(target);
            lemma_kept_members(all, Set::empty(), self.interner.id_of(label@));
        }
        let mut out: Vec<NodeId> = Vec::new();
        let mut i: usize = 0;
        while i < ids.len()
            invariant
                i <= ids.len(),
                ids@ == edge_ids(s),
                out@ == ends(s).take(i as int),
                forall|entry: AdjacencyEntry| #[trigger] s.contains(entry) ==> all.contains(entry),
                forall|j: int|
                    0 <= j < all.len() ==> {
                        let entry = #[trigger] all[j];
                        &&& self.edges().contains_key(entry.edge_id.0)
                        &&& entry.target == self.edges()[entry.edge_id.0].source
                    },
            decreases ids.len() - i,
        {
            assert(s[i as int].edge_id == ids@[i as int]);
            assert(s.contains(s[i as int]));
            let ghost j = choose|j: int| 0 <= j < all.len() && all[j] == s[i as int];
            assert(all[j] == s[i as int]);
            if let Some(edge) = self.indexes.edges.get(&ids[i].0) {
                out.push(edge.source);
            }
            i = i + 1;
            assert(out@ =~= ends(s).take(i as int));
        }
        assert(out@ =~= ends(s));
        out
    }

    /// How many edges end at a node.
    pub fn in_degree(&self, node: NodeId) -> (r: usize)
        requires
            self.well_formed(),
        ensures
            r == self.incoming(node).len(),
    {
        self.get_incoming_edges(node).len()
    }

    /// A view of the edges that end at nodes, where all of them are frozen and alive.
    pub fn frozen_incoming_view(&self) -> (r: Option<FrozenAdjacencyView<'_>>)
        requires
            self.well_formed(),
        ensures
            r is Some <==> self.indexes.incoming.clean(),
            r is Some ==> r->Some_0.well_formed() && *r->Some_0.index == self.indexes.incoming,
    {
        if self.indexes.incoming.is_clean() {
            Some(FrozenAdjacencyView { index: &self.indexes.incoming })
        } else {
            None
        }
    }

    /// Moves all edges into the frozen layers. No list of edges changes.
    pub fn compact_adjacency(&mut self)
        requires
            old(self).well_formed(),
        ensures
            final(self).well_formed(),
            final(self).nodes() == old(self).nodes(),
            final(self).edges() == old(self).edges(),
            *final(self) == (CurrentStorage { indexes: final(self).indexes, ..*old(self) }),
            final(self).indexes.same_but_edges(old(self).indexes),
            final(self).indexes.outgoing.clean(),
            final(self).indexes.incoming.clean(),
            forall|n: NodeId| #[trigger] final(self).outgoing(n) == old(self).outgoing(n),
            forall|n: NodeId| #[trigger] final(self).incoming(n) == old(self).incoming(n),
    {
        self.indexes.compact_adjacency();
        proof {
            assert forall|n: NodeId| #[trigger] self.outgoing(n) == old(self).outgoing(n) by {
                assert(self.indexes.outgoing.listed(n.0) == old(self).indexes.outgoing.listed(n.0));
            }
            assert forall|n: NodeId| #[trigger] self.incoming(n) == old(self).incoming(n) by {
                assert(self.indexes.incoming.listed(n.0) == old(self).indexes.incoming.listed(n.0));
            }
        }
    }

    /// Moves all edges into the frozen layers.
    pub fn rebuild_adjacency(&mut self)
        requires
            old(self).well_formed(),
        ensures
            final(self).well_formed(),
            final(self).nodes() == old(self).nodes(),
            final(self).edges() == old(self).edges(),
            *final(self) == (CurrentStorage { indexes: final(self).indexes, ..*old(self) }),
            final(self).indexes.same_but_edges(old(self).indexes),
            final(self).indexes.outgoing.clean(),
            final(self).indexes.incoming.clean(),
            forall|n: NodeId| #[trigger] final(self).outgoing(n) == old(self).outgoing(n),
            forall|n: NodeId| #[trigger] final(self).incoming(n) == old(self).incoming(n),
    {
        self.compact_adjacency();
    }

    /// How full the layers are in which edges are kept.
    pub fn adjacency_stats(&self) -> (r: AdjacencyIndexStats)
        ensures
            r.outgoing.delta_nodes == self.indexes.outgoing.delta@.len(),
            r.outgoing.tombstones == self.indexes.outgoing.tombstones@.len(),
            r.incoming.delta_nodes == self.indexes.incoming.delta@.len(),
            r.incoming.tombstones == self.indexes.incoming.tombstones@.len(),
            r.compacted == (self.indexes.outgoing.clean() && self.indexes.incoming.clean()),
    {
        AdjacencyIndexStats {
            outgoing: self.indexes.outgoing.stats(),
            incoming: self.indexes.incoming.stats(),
            compacted: self.indexes.outgoing.is_clean() && self.indexes.incoming.is_clean(),
        }
    }
}

/// The edges of one type at a node are those that start there, or end there, and whose type has
/// that name: each is listed, and nothing else is.
pub proof fn law_edges_of_one_type(storage: CurrentStorage, node: NodeId, label: Seq<char>, k: u64)
    requires
        storage.well_formed(),
    ensures
        ({
            let edge = storage.edges()[k];
            let texts = storage.interner.strings@;
            let typed = storage.edges().contains_key(k) && edge.label.0 < texts.len()
                && texts[edge.label.0 as int]@ == label;
            &&& edge_ids(storage.outgoing_labelled(node, label)).contains(EdgeId(k)) <==> typed
                && edge.source == node
            &&& edge_ids(storage.incoming_labelled(node, label)).contains(EdgeId(k)) <==> typed
                && edge.target == node
        }),
{
    storage.lemma_out_edges(node);
    storage.lemma_in_edges(node);
    lemma_typed(storage, storage.outgoing(node), label, k);
    lemma_typed(storage, storage.incoming(node), label, k);
}

proof fn lemma_typed(
    storage: CurrentStorage,
    list: Seq<AdjacencyEntry>,
    label: Seq<char>,
    k: u64,
)
    requires
        storage.well_formed(),
        forall|i: int|
            0 <= i < list.len() ==> {
                let entry = #[trigger] list[i];
                &&& storage.edges().contains_key(entry.edge_id.0)
                &&& entry.label == storage.edges()[entry.edge_id.0].label
            },
    ensures
        ({
            let texts = storage.interner.strings@;
            let listed = match storage.interner.id_of(label) {
                Some(id) => kept(list, Set::empty(), Some(id)),
                None => Seq::empty(),
            };
            edge_ids(listed).contains(EdgeId(k)) <==> edge_ids(list).contains(EdgeId(k))
                && storage.edges()[k].label.0 < texts.len() && texts[storage.edges()[k].label.0 as int]@
                == label
        }),
{
    let interner = storage.interner;
    let texts = interner.texts();
    let ids = edge_ids(list);
    if ids.contains(EdgeId(k)) {
        let i = choose|i: int| 0 <= i < ids.len() && ids[i] == EdgeId(k);
        let own = list[i].label;
        assert(storage.edges()[k].label == own);
        if own.0 < texts.len() && texts[own.0 as int] == label {
            assert(texts.contains(label));
            assert(texts[texts.index_of(label)] == label);
            assert(interner.id_of(label) == Some(own));
            super::entries::law_edge_is_kept_iff(list, Set::empty(), Some(own), list[i]);
            assert(list.contains(list[i]));
            let shown = kept(list, Set::empty(), Some(own));
            let j = choose|j: int| 0 <= j < shown.len() && shown[j] == list[i];
            assert(edge_ids(shown)[j] == EdgeId(k));
        }
    }
    if let Some(id) = interner.id_of(label) {
        let shown = kept(list, Set::empty(), Some(id));
        let shown_ids = edge_ids(shown);
        if shown_ids.contains(EdgeId(k)) {
            let j = choose|j: int| 0 <= j < shown_ids.len() && shown_ids[j] == EdgeId(k);
            super::entries::law_edge_is_kept_iff(list, Set::empty(), Some(id), shown[j]);
            assert(shown.contains(shown[j]));
            let i = choose|i: int| 0 <= i < list.len() && list[i] == shown[j];
            assert(ids[i] == EdgeId(k));
            assert(list[i].label == id);
            assert(texts[texts.index_of(label)] == label);
            assert(texts.index_of(label) <= u32::MAX);
        }
    }
}

/// Where an edge is listed, its other end and its type are shown: where it starts, where it ends,
/// and the other way round.
pub proof fn law_other_end_is_shown(storage: CurrentStorage, node: NodeId, i: int)
    requires
        storage.well_formed(),
    ensures
        0 <= i < storage.outgoing(node).len() ==> {
            let edge = storage.edges()[storage.outgoing(node)[i].edge_id.0];
            &&& edge.source == node
            &&& edge_ids(storage.outgoing(node))[i] == storage.outgoing(node)[i].edge_id
            &&& ends(storage.outgoing(node))[i] == edge.target
            &&& storage.outgoing(node)[i].label == edge.label
        },
        0 <= i < storage.incoming(node).len() ==> {
            let edge = storage.edges()[storage.incoming(node)[i].edge_id.0];
            &&& edge.target == node
            &&& edge_ids(storage.incoming(node))[i] == storage.incoming(node)[i].edge_id
            &&& ends(storage.incoming(node))[i] == edge.source
            &&& storage.incoming(node)[i].label == edge.label
        },
{
    storage.lemma_out_edges(node);
    storage.lemma_in_edges(node);
    if 0 <= i < storage.outgoing(node).len() {
        let ids = edge_ids(storage.outgoing(node));
        assert(ids[i] == EdgeId(storage.outgoing(node)[i].edge_id.0));
        assert(ids.contains(EdgeId(storage.outgoing(node)[i].edge_id.0)));
    }
    if 0 <= i < storage.incoming(node).len() {
        let ids = edge_ids(storage.incoming(node));
        assert(ids[i] == EdgeId(storage.incoming(node)[i].edge_id.0));
        assert(ids.contains(EdgeId(storage.incoming(node)[i].edge_id.0)));
    }
}

} // verus!

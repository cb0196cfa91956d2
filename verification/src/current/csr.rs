//! Edges by node, in rows: the nodes in order, where the edges of each begin, and the edges.

use super::adjacency::AdjacencyIndex;
use super::entries::{has_edge, AdjacencyEntry};
use super::indexes::{
    edges_named, in_entry, lemma_absent_end, lemma_absent_start, lemma_end_added,
    lemma_start_added, lists_ends, lists_starts, out_entry, CurrentIndexes,
};
use super::storage::CurrentStorage;
use crate::graph::Edge;
use crate::maps::{keys_of, lists_keys};
use std::collections::{HashMap, HashSet};
use vstd::prelude::*;

verus! {

broadcast use vstd::std_specs::hash::group_hash_axioms;

/// Edges by node, in rows.
#[derive(Debug)]
pub struct Csr {
    /// The nodes, in order.
    pub node_ids: Vec<u64>,
    /// Where the edges of each node begin, and where those of the last node end.
    pub offsets: Vec<u64>,
    /// The edges.
    pub edge_ids: Vec<u64>,
}

/// The edges in both directions.
#[derive(Debug)]
pub struct ExportedCsrPair {
    /// By where they start.
    pub outgoing: Csr,
    /// By where they end.
    pub incoming: Csr,
}

/// The numbers of a list's edges.
pub open spec fn raw_ids(s: Seq<AdjacencyEntry>) -> Seq<u64> {
    Seq::new(s.len(), |i: int| s[i].edge_id.0)
}

impl Csr {
    /// The edges of a row.
    pub open spec fn row(self, i: int) -> Seq<u64> {
        self.edge_ids@.subrange(self.offsets@[i] as int, self.offsets@[i + 1] as int)
    }

    /// The rows tell what an index lists: nodes ascend, each row holds the edges of its node in
    /// order, and nodes without a row have no edges.
    pub open spec fn tells(self, index: AdjacencyIndex) -> bool {
        &&& forall|i: int, j: int|
            0 <= i < j < self.node_ids@.len() ==> (#[trigger] self.node_ids@[i]) < (
            #[trigger] self.node_ids@[j])
        &&& self.offsets@.len() == self.node_ids@.len() + 1
        &&& self.offsets@[0] == 0
        &&& self.offsets@.last() == self.edge_ids@.len()
        &&& forall|i: int, j: int|
            0 <= i <= j < self.offsets@.len() ==> (#[trigger] self.offsets@[i]) <= (
            #[trigger] self.offsets@[j])
        &&& forall|i: int|
            0 <= i < self.node_ids@.len() ==> self.row(i) == raw_ids(
                index.listed(#[trigger] self.node_ids@[i]),
            )
        &&& forall|n: u64|
            !self.node_ids@.contains(n) ==> (#[trigger] index.listed(n)).len() == 0
    }

    /// Where a row begins and ends, as far as there are edges.
    fn bounds(&self, row: usize) -> (r: (usize, usize))
        ensures
            r.0 <= r.1 <= self.edge_ids@.len(),
            row + 1 < self.offsets@.len() && self.offsets@[row as int] <= self.offsets@[row + 1]
                <= self.edge_ids@.len() ==> r.0 == self.offsets@[row as int] && r.1
                == self.offsets@[row + 1],
    {
        if row < self.offsets.len() && row + 1 < self.offsets.len() {
            let from: u64 = self.offsets[row];
            let to: u64 = self.offsets[row + 1];
            if from <= to && to <= self.edge_ids.len() as u64 {
                return (from as usize, to as usize);
            }
        }
        (0, 0)
    }
}

/// Where an edge is listed: where it starts, or where it ends.
pub open spec fn home(edge: Edge, outward: bool) -> u64 {
    if outward {
        edge.source.0
    } else {
        edge.target.0
    }
}

/// What stands for an edge where it is listed.
pub open spec fn side_entry(edge: Edge, outward: bool) -> AdjacencyEntry {
    if outward {
        out_entry(edge)
    } else {
        in_entry(edge)
    }
}

/// The index lists every edge in one direction, and nothing else.
pub open spec fn lists_side(
    index: AdjacencyIndex,
    edges: Map<u64, Edge>,
    outward: bool,
) -> bool {
    if outward {
        lists_starts(index, edges)
    } else {
        lists_ends(index, edges)
    }
}

/// The rows tell the edges in one direction, in the order of the index.
pub open spec fn fits_as(
    csr: Csr,
    edges: Map<u64, Edge>,
    outward: bool,
    index: AdjacencyIndex,
) -> bool {
    &&& index.well_formed()
    &&& lists_side(index, edges, outward)
    &&& csr.tells(index)
}

/// The rows tell the edges in one direction, in some order.
pub open spec fn fits(csr: Csr, edges: Map<u64, Edge>, outward: bool) -> bool {
    exists|index: AdjacencyIndex| #[trigger] fits_as(csr, edges, outward, index)
}

/// What is listed is an edge, in the place where it belongs.
proof fn lemma_side_entry(
    index: AdjacencyIndex,
    edges: Map<u64, Edge>,
    outward: bool,
    n: u64,
    i: int,
)
    requires
        lists_side(index, edges, outward),
        0 <= i < index.listed(n).len(),
    ensures
        edges.contains_key(index.listed(n)[i].edge_id.0),
        home(edges[index.listed(n)[i].edge_id.0], outward) == n,
        index.listed(n)[i] == side_entry(edges[index.listed(n)[i].edge_id.0], outward),
{
}

/// What is listed somewhere is an edge.
proof fn lemma_listed_is_edge(
    index: AdjacencyIndex,
    edges: Map<u64, Edge>,
    outward: bool,
    n: u64,
    id: u64,
)
    requires
        lists_side(index, edges, outward),
        has_edge(index.listed(n), id),
    ensures
        edges.contains_key(id),
{
    if !edges.contains_key(id) {
        if outward {
            lemma_absent_start(index, edges, id, n);
        } else {
            lemma_absent_end(index, edges, id, n);
        }
    }
}

/// Rows tell of an index what they tell of another that lists the same.
proof fn lemma_tells_same(csr: Csr, a: AdjacencyIndex, b: AdjacencyIndex)
    requires
        csr.tells(a),
        forall|n: u64| #[trigger] b.listed(n) == a.listed(n),
    ensures
        csr.tells(b),
{
    assert forall|i: int| 0 <= i < csr.node_ids@.len() implies csr.row(i) == raw_ids(
        b.listed(#[trigger] csr.node_ids@[i]),
    ) by {
        assert(b.listed(csr.node_ids@[i]) == a.listed(csr.node_ids@[i]));
    }
}

/// A list stays the same where its edges do.
proof fn lemma_same_side(
    a: AdjacencyIndex,
    b: AdjacencyIndex,
    edges: Map<u64, Edge>,
    outward: bool,
)
    requires
        lists_side(a, edges, outward),
        forall|n: u64| #[trigger] b.listed(n) == a.listed(n),
    ensures
        lists_side(b, edges, outward),
{
    assert forall|n: u64, j: int| 0 <= j < b.listed(n).len() implies {
        let entry = #[trigger] b.listed(n)[j];
        &&& edges.contains_key(entry.edge_id.0)
        &&& home(edges[entry.edge_id.0], outward) == n
        &&& entry == side_entry(edges[entry.edge_id.0], outward)
    } by {
        assert(b.listed(n) == a.listed(n));
        lemma_side_entry(a, edges, outward, n, j);
    }
    assert forall|k: u64| #[trigger] edges.contains_key(k) implies has_edge(
        b.listed(home(edges[k], outward)),
        k,
    ) by {
        assert(b.listed(home(edges[k], outward)) == a.listed(home(edges[k], outward)));
    }
}

/// Rows fix the lists: two indexes over the same edges of which the same rows tell list the same.
pub proof fn law_rows_fix_the_lists(
    csr: Csr,
    edges: Map<u64, Edge>,
    outward: bool,
    a: AdjacencyIndex,
    b: AdjacencyIndex,
)
    requires
        lists_side(a, edges, outward),
        lists_side(b, edges, outward),
        csr.tells(a),
        csr.tells(b),
    ensures
        forall|n: u64| #[trigger] a.listed(n) == b.listed(n),
{
    assert forall|n: u64| #[trigger] a.listed(n) == b.listed(n) by {
        if csr.node_ids@.contains(n) {
            let i = choose|i: int| 0 <= i < csr.node_ids@.len() && csr.node_ids@[i] == n;
            assert(raw_ids(a.listed(n)) == raw_ids(b.listed(n)));
            assert(a.listed(n).len() == raw_ids(a.listed(n)).len());
            assert(b.listed(n).len() == raw_ids(b.listed(n)).len());
            assert forall|j: int| 0 <= j < a.listed(n).len() implies a.listed(n)[j] == b.listed(
                n,
            )[j] by {
                assert(raw_ids(a.listed(n))[j] == raw_ids(b.listed(n))[j]);
                lemma_side_entry(a, edges, outward, n, j);
                lemma_side_entry(b, edges, outward, n, j);
            }
            assert(a.listed(n) =~= b.listed(n));
        } else {
            assert(a.listed(n).len() == 0 && b.listed(n).len() == 0);
            assert(a.listed(n) =~= b.listed(n));
        }
    }
}

/// Taking rows over undoes writing them: the rows that an index was written to, taken over while
/// the edges are the same, give lists in the order of that index.
pub proof fn law_import_undoes_export(
    csr: Csr,
    edges: Map<u64, Edge>,
    outward: bool,
    before: AdjacencyIndex,
    after: AdjacencyIndex,
)
    requires
        before.well_formed(),
        lists_side(before, edges, outward),
        csr.tells(before),
        lists_side(after, edges, outward),
        fits(csr, edges, outward) ==> csr.tells(after),
    ensures
        forall|n: u64| #[trigger] after.listed(n) == before.listed(n),
{
    assert(fits_as(csr, edges, outward, before));
    law_rows_fix_the_lists(csr, edges, outward, after, before);
}

/// The rows of an index.
fn export(index: &AdjacencyIndex) -> (r: Csr)
    requires
        index.well_formed(),
    ensures
        r.tells(*index),
{
    let node_ids = index.nodes();
    let mut offsets: Vec<u64> = Vec::new();
    let mut edge_ids: Vec<u64> = Vec::new();
    offsets.push(0);
    let mut i: usize = 0;
    while i < node_ids.len()
        invariant
            i <= node_ids.len(),
            index.well_formed(),
            offsets@.len() == i + 1,
            offsets@[0] == 0,
            offsets@[i as int] == edge_ids@.len(),
            forall|a: int, b: int|
                0 <= a <= b < offsets@.len() ==> (#[trigger] offsets@[a]) <= (
                #[trigger] offsets@[b]),
            forall|j: int|
                0 <= j < i ==> edge_ids@.subrange(offsets@[j] as int, offsets@[j + 1] as int)
                    == raw_ids(index.listed(#[trigger] node_ids@[j])),
        decreases node_ids.len() - i,
    {
        let entries = index.list(node_ids[i]);
        let ghost before = edge_ids@;
        let ghost starts = offsets@;
        let mut j: usize = 0;
        while j < entries.len()
            invariant
                j <= entries.len(),
                edge_ids@ == before + raw_ids(entries@).take(j as int),
            decreases entries.len() - j,
        {
            edge_ids.push(entries[j].edge_id.0);
            j = j + 1;
            assert(edge_ids@ =~= before + raw_ids(entries@).take(j as int));
        }
        assert(raw_ids(entries@).take(j as int) =~= raw_ids(entries@));
        offsets.push(edge_ids.len() as u64);
        proof {
            assert(edge_ids@.subrange(before.len() as int, edge_ids@.len() as int) =~= raw_ids(
                entries@,
            ));
            assert forall|x: int| 0 <= x < i + 1 implies edge_ids@.subrange(
                offsets@[x] as int,
                offsets@[x + 1] as int,
            ) == raw_ids(index.listed(#[trigger] node_ids@[x])) by {
                if x < i {
                    assert(offsets@[x] == starts[x] && offsets@[x + 1] == starts[x + 1]);
                    assert(starts[x] <= starts[x + 1] <= starts[i as int]);
                    assert(edge_ids@.subrange(starts[x] as int, starts[x + 1] as int)
                        =~= before.subrange(starts[x] as int, starts[x + 1] as int));
                } else {
                    assert(offsets@[x] == before.len());
                    assert(offsets@[x + 1] == edge_ids@.len());
                }
            }
        }
        i = i + 1;
    }
    Csr { node_ids, offsets, edge_ids }
}

/// One more of the edges makes part of them, too.
proof fn lemma_one_more(known: Map<u64, Edge>, edges: Map<u64, Edge>, id: u64)
    requires
        known.submap_of(edges),
        edges.contains_key(id),
    ensures
        known.insert(id, edges[id]).submap_of(edges),
{
}

/// Lists one more edge in one direction.
fn place(
    index: &mut AdjacencyIndex,
    seen: &mut HashSet<u64>,
    Ghost(known): Ghost<Map<u64, Edge>>,
    edge: &Edge,
    outward: bool,
)
    requires
        old(index).well_formed(),
        lists_side(*old(index), known, outward),
        known.dom() == old(seen)@,
        !known.contains_key(edge.id.0),
    ensures
        final(index).well_formed(),
        lists_side(*final(index), known.insert(edge.id.0, *edge), outward),
        final(seen)@ == old(seen)@.insert(edge.id.0),
        final(index).listed(home(*edge, outward)) == old(index).listed(home(*edge, outward)).push(
            side_entry(*edge, outward),
        ),
        forall|n: u64|
            n != home(*edge, outward) ==> #[trigger] final(index).listed(n) == old(index).listed(n),
{
    let ghost before = *index;
    proof {
        assert forall|n: u64| !has_edge(#[trigger] index.listed(n), edge.id.0) by {
            if has_edge(index.listed(n), edge.id.0) {
                lemma_listed_is_edge(*index, known, outward, n, edge.id.0);
            }
        }
    }
    if outward {
        index.insert(
            edge.source.0,
            AdjacencyEntry { edge_id: edge.id, target: edge.target, label: edge.label },
        );
        proof {
            lemma_start_added(before, *index, known, *edge);
        }
    } else {
        index.insert(
            edge.target.0,
            AdjacencyEntry { edge_id: edge.id, target: edge.source, label: edge.label },
        );
        proof {
            lemma_end_added(before, *index, known, *edge);
        }
    }
    seen.insert(edge.id.0);
}

/// An edge that a row mentions in its place is not listed before the row comes to it.
proof fn lemma_not_yet(
    csr: Csr,
    edges: Map<u64, Edge>,
    outward: bool,
    model: AdjacencyIndex,
    index: AdjacencyIndex,
    known: Map<u64, Edge>,
    row: int,
    at: int,
)
    requires
        fits_as(csr, edges, outward, model),
        edges_named(edges),
        lists_side(index, known, outward),
        known.submap_of(edges),
        0 <= row < csr.node_ids@.len(),
        csr.offsets@[row] <= at < csr.offsets@[row + 1],
        index.listed(csr.node_ids@[row]) == model.listed(csr.node_ids@[row]).take(
            at - csr.offsets@[row],
        ),
    ensures
        edges.contains_key(csr.edge_ids@[at]),
        home(edges[csr.edge_ids@[at]], outward) == csr.node_ids@[row],
        !known.contains_key(csr.edge_ids@[at]),
        model.listed(csr.node_ids@[row])[at - csr.offsets@[row]] == side_entry(
            edges[csr.edge_ids@[at]],
            outward,
        ),
        at - csr.offsets@[row] < model.listed(csr.node_ids@[row]).len(),
{
    let node = csr.node_ids@[row];
    let id = csr.edge_ids@[at];
    let place = at - csr.offsets@[row];
    let listed = model.listed(node);
    assert(csr.offsets@[row + 1] <= csr.offsets@.last());
    assert(csr.row(row) == raw_ids(listed));
    assert(csr.row(row).len() == csr.offsets@[row + 1] - csr.offsets@[row]);
    assert(raw_ids(listed).len() == listed.len());
    assert(csr.row(row)[place] == id);
    assert(raw_ids(listed)[place] == listed[place].edge_id.0);
    lemma_side_entry(model, edges, outward, node, place);
    if known.contains_key(id) {
        assert(home(known[id], outward) == node);
        assert(has_edge(index.listed(node), id));
        let k = choose|k: int|
            0 <= k < index.listed(node).len() && (#[trigger] index.listed(node)[k]).edge_id.0 == id;
        assert(index.listed(node)[k] == listed[k]);
        assert(listed[k].edge_id.0 != listed[place].edge_id.0);
    }
}

/// The index built from the rows that fit the edges, with the edges that no row mentions behind
/// them.
fn import(csr: &Csr, edges: &HashMap<u64, Edge>, outward: bool) -> (r: AdjacencyIndex)
    requires
        edges_named(edges@),
    ensures
        r.well_formed(),
        r.clean(),
        lists_side(r, edges@, outward),
        fits(*csr, edges@, outward) ==> csr.tells(r),
{
    let mut index = AdjacencyIndex::new();
    let mut seen: HashSet<u64> = HashSet::new();
    let ghost mut known = Map::<u64, Edge>::empty();
    let ghost whole = fits(*csr, edges@, outward);
    let ghost model = choose|model: AdjacencyIndex| #[trigger]
        fits_as(*csr, edges@, outward, model);
    assert(known.dom() =~= seen@);
    let mut row: usize = 0;
    while row < csr.node_ids.len()
        invariant
            row <= csr.node_ids.len(),
            edges_named(edges@),
            index.well_formed(),
            lists_side(index, known, outward),
            known.dom() == seen@,
            known.submap_of(edges@),
            whole ==> fits_as(*csr, edges@, outward, model),
            whole ==> forall|r: int|
                0 <= r < row ==> index.listed(#[trigger] csr.node_ids@[r]) == model.listed(
                    csr.node_ids@[r],
                ),
            whole ==> forall|n: u64|
                !csr.node_ids@.take(row as int).contains(n) ==> (#[trigger] index.listed(n)).len()
                    == 0,
        decreases csr.node_ids.len() - row,
    {
        let node: u64 = csr.node_ids[row];
        let (from, to) = csr.bounds(row);
        let ghost start = index;
        proof {
            if whole {
                assert(csr.offsets@[row as int] <= csr.offsets@[row + 1]);
                assert(csr.offsets@[row + 1] <= csr.offsets@.last());
                assert(!csr.node_ids@.take(row as int).contains(node)) by {
                    if csr.node_ids@.take(row as int).contains(node) {
                        let r = choose|r: int|
                            0 <= r < row && csr.node_ids@.take(row as int)[r] == node;
                        assert(csr.node_ids@[r] < csr.node_ids@[row as int]);
                    }
                }
                assert(index.listed(node).len() == 0);
                assert(index.listed(node) =~= model.listed(node).take(0));
            }
        }
        let mut at: usize = from;
        while at < to
            invariant
                from <= at <= to,
                to <= csr.edge_ids.len(),
                row < csr.node_ids.len(),
                node == csr.node_ids@[row as int],
                edges_named(edges@),
                index.well_formed(),
                lists_side(index, known, outward),
                known.dom() == seen@,
                known.submap_of(edges@),
                whole ==> fits_as(*csr, edges@, outward, model),
                whole ==> from == csr.offsets@[row as int] && to == csr.offsets@[row + 1],
                whole ==> index.listed(node) == model.listed(node).take(at - from),
                whole ==> forall|n: u64|
                    n != node ==> #[trigger] index.listed(n) == start.listed(n),
            decreases to - at,
        {
            let id: u64 = csr.edge_ids[at];
            proof {
                if whole {
                    lemma_not_yet(
                        *csr,
                        edges@,
                        outward,
                        model,
                        index,
                        known,
                        row as int,
                        at as int,
                    );
                }
            }
            if !seen.contains(&id) {
                if let Some(edge) = edges.get(&id) {
                    let here: u64 = if outward {
                        edge.source.0
                    } else {
                        edge.target.0
                    };
                    if here == node {
                        assert(edges@.contains_key(id));
                        assert(edge.id.0 == id);
                        place(&mut index, &mut seen, Ghost(known), edge, outward);
                        proof {
                            lemma_one_more(known, edges@, id);
                            known = known.insert(id, *edge);
                            assert(known.dom() =~= seen@);
                            if whole {
                                assert(model.listed(node).take(at - from).push(
                                    side_entry(*edge, outward),
                                ) =~= model.listed(node).take(at + 1 - from));
                            }
                        }
                    }
                }
            }
            at = at + 1;
        }
        proof {
            if whole {
                assert(csr.row(row as int) == raw_ids(model.listed(node)));
                assert(csr.row(row as int).len() == to - from);
                assert(raw_ids(model.listed(node)).len() == model.listed(node).len());
                assert(model.listed(node).take(to - from) =~= model.listed(node));
                assert forall|r: int| 0 <= r < row + 1 implies index.listed(
                    #[trigger] csr.node_ids@[r],
                ) == model.listed(csr.node_ids@[r]) by {
                    if r < row {
                        assert(csr.node_ids@[r] < csr.node_ids@[row as int]);
                        assert(index.listed(csr.node_ids@[r]) == start.listed(csr.node_ids@[r]));
                    }
                }
                assert forall|n: u64|
                    !csr.node_ids@.take(row + 1).contains(n) implies (#[trigger] index.listed(
                    n,
                )).len() == 0 by {
                    let more = csr.node_ids@.take(row + 1);
                    assert(more[row as int] == node);
                    assert(n != node);
                    assert(!csr.node_ids@.take(row as int).contains(n)) by {
                        if csr.node_ids@.take(row as int).contains(n) {
                            let r = choose|r: int|
                                0 <= r < row && csr.node_ids@.take(row as int)[r] == n;
                            assert(more[r] == n);
                        }
                    }
                    assert(index.listed(n) == start.listed(n));
                }
            }
        }
        row = row + 1;
    }
    proof {
        if whole {
            assert(csr.node_ids@.take(row as int) =~= csr.node_ids@);
            assert forall|n: u64| #[trigger] index.listed(n) == model.listed(n) by {
                if csr.node_ids@.contains(n) {
                    let r = choose|r: int| 0 <= r < csr.node_ids@.len() && csr.node_ids@[r] == n;
                    assert(index.listed(csr.node_ids@[r]) == model.listed(csr.node_ids@[r]));
                } else {
                    assert(index.listed(n).len() == 0 && model.listed(n).len() == 0);
                    assert(index.listed(n) =~= model.listed(n));
                }
            }
            assert forall|k: u64| #[trigger] edges@.contains_key(k) implies known.contains_key(
                k,
            ) by {
                let n = home(edges@[k], outward);
                assert(has_edge(model.listed(n), k));
                assert(index.listed(n) == model.listed(n));
                lemma_listed_is_edge(index, known, outward, n, k);
            }
        }
    }
    let keys = keys_of(edges);
    let mut i: usize = 0;
    while i < keys.len()
        invariant
            i <= keys.len(),
            lists_keys(keys@, edges@),
            edges_named(edges@),
            index.well_formed(),
            lists_side(index, known, outward),
            known.dom() == seen@,
            known.submap_of(edges@),
            forall|j: int| 0 <= j < i ==> known.contains_key(#[trigger] keys@[j]),
            whole ==> forall|n: u64| #[trigger] index.listed(n) == model.listed(n),
            whole ==> forall|k: u64| #[trigger]
                edges@.contains_key(k) ==> known.contains_key(k),
        decreases keys.len() - i,
    {
        let id: u64 = keys[i];
        assert(edges@.contains_key(id));
        if !seen.contains(&id) {
            if let Some(edge) = edges.get(&id) {
                assert(edge.id.0 == id);
                place(&mut index, &mut seen, Ghost(known), edge, outward);
                proof {
                    lemma_one_more(known, edges@, id);
                    known = known.insert(id, *edge);
                    assert(known.dom() =~= seen@);
                }
            }
        }
        i = i + 1;
    }
    proof {
        assert(known =~= edges@) by {
            assert forall|k: u64| #[trigger] known.contains_key(k) <==> edges@.contains_key(k) by {
                if edges@.contains_key(k) {
                    assert(keys@.contains(k));
                    let j = choose|j: int| 0 <= j < keys@.len() && keys@[j] == k;
                    assert(known.contains_key(keys@[j]));
                }
            }
        }
    }
    let ghost built = index;
    index.compact();
    proof {
        lemma_same_side(built, index, edges@, outward);
        if whole {
            assert forall|n: u64| #[trigger] index.listed(n) == model.listed(n) by {
                assert(index.listed(n) == built.listed(n));
            }
            lemma_tells_same(*csr, model, index);
        }
    }
    index
}

impl CurrentStorage {
    /// The edges by where they start, in rows: nodes, where the edges of each begin, and edges.
    pub fn export_outgoing_csr(&self) -> (r: (Vec<u64>, Vec<u64>, Vec<u64>))
        requires
            self.well_formed(),
        ensures
            (Csr { node_ids: r.0, offsets: r.1, edge_ids: r.2 }).tells(self.indexes.outgoing),
    {
        let csr = export(&self.indexes.outgoing);
        (csr.node_ids, csr.offsets, csr.edge_ids)
    }

    /// The edges by where they end, in rows: nodes, where the edges of each begin, and edges.
    pub fn export_incoming_csr(&self) -> (r: (Vec<u64>, Vec<u64>, Vec<u64>))
        requires
            self.well_formed(),
        ensures
            (Csr { node_ids: r.0, offsets: r.1, edge_ids: r.2 }).tells(self.indexes.incoming),
    {
        let csr = export(&self.indexes.incoming);
        (csr.node_ids, csr.offsets, csr.edge_ids)
    }

    /// The edges in both directions, in rows, of one and the same moment.
    pub fn export_csr_pair(&self) -> (r: ExportedCsrPair)
        requires
            self.well_formed(),
        ensures
            r.outgoing.tells(self.indexes.outgoing),
            r.incoming.tells(self.indexes.incoming),
    {
        ExportedCsrPair {
            outgoing: export(&self.indexes.outgoing),
            incoming: export(&self.indexes.incoming),
        }
    }

    /// Takes the order of edges over from rows. Rows that do not fit the edges are passed over, and
    /// edges that no row mentions come last, so that every edge is listed at both of its ends
    /// whatever the rows hold. Rows that fit the edges are taken over as they stand.
    pub fn import_csr(
        &mut self,
        outgoing_node_ids: Vec<u64>,
        outgoing_offsets: Vec<u64>,
        outgoing_edge_ids: Vec<u64>,
        incoming_node_ids: Vec<u64>,
        incoming_offsets: Vec<u64>,
        incoming_edge_ids: Vec<u64>,
    )
        requires
            old(self).well_formed(),
        ensures
            final(self).well_formed(),
            final(self).nodes() == old(self).nodes(),
            final(self).edges() == old(self).edges(),
            final(self).indexes == (CurrentIndexes {
                outgoing: final(self).indexes.outgoing,
                incoming: final(self).indexes.incoming,
                ..old(self).indexes
            }),
            *final(self) == (CurrentStorage { indexes: final(self).indexes, ..*old(self) }),
            final(self).indexes.outgoing.clean(),
            final(self).indexes.incoming.clean(),
            ({
                let outgoing = Csr {
                    node_ids: outgoing_node_ids,
                    offsets: outgoing_offsets,
                    edge_ids: outgoing_edge_ids,
                };
                fits(outgoing, old(self).edges(), true) ==> outgoing.tells(
                    final(self).indexes.outgoing,
                )
            }),
            ({
                let incoming = Csr {
                    node_ids: incoming_node_ids,
                    offsets: incoming_offsets,
                    edge_ids: incoming_edge_ids,
                };
                fits(incoming, old(self).edges(), false) ==> incoming.tells(
                    final(self).indexes.incoming,
                )
            }),
    {
        let outgoing = Csr {
            node_ids: outgoing_node_ids,
            offsets: outgoing_offsets,
            edge_ids: outgoing_edge_ids,
        };
        let incoming = Csr {
            node_ids: incoming_node_ids,
            offsets: incoming_offsets,
            edge_ids: incoming_edge_ids,
        };
        self.indexes.outgoing = import(&outgoing, &self.indexes.edges, true);
        self.indexes.incoming = import(&incoming, &self.indexes.edges, false);
    }
}

/// Written to rows, the edges of a node stand one after the other in the order of its list, between
/// where its row begins and where the next begins; nodes come in the order of their numbers, and
/// every node with edges has a row.
pub proof fn law_rows_hold_the_lists(csr: Csr, index: AdjacencyIndex, i: int, j: int, node: u64)
    requires
        csr.tells(index),
        0 <= i < csr.node_ids@.len(),
    ensures
        ({
            let list = index.listed(csr.node_ids@[i]);
            &&& csr.offsets@[i + 1] - csr.offsets@[i] == list.len()
            &&& 0 <= j < list.len() ==> csr.edge_ids@[csr.offsets@[i] + j] == list[j].edge_id.0
        }),
        i > 0 ==> csr.node_ids@[i - 1] < csr.node_ids@[i],
        csr.offsets@[0] == 0,
        csr.offsets@[csr.node_ids@.len() as int] == csr.edge_ids@.len(),
        index.listed(node).len() > 0 ==> csr.node_ids@.contains(node),
{
    let list = index.listed(csr.node_ids@[i]);
    assert(csr.row(i) == raw_ids(list));
    assert(csr.offsets@[i] <= csr.offsets@[i + 1]);
    assert(csr.offsets@[i + 1] <= csr.offsets@[csr.offsets@.len() - 1]);
    if 0 <= j < list.len() {
        assert(csr.row(i)[j] == raw_ids(list)[j]);
    }
}

} // verus!

//! Which edges start, or end, at a node. Edges are kept in two layers: frozen runs, sorted by node,
//! and a delta of edges that came since. An edge that leaves a frozen run leaves a tombstone.

use super::entries::{
    distinct, has_edge, kept, lemma_kept_all, lemma_kept_append, lemma_kept_bury,
    lemma_kept_label, lemma_kept_members, lemma_kept_remove, AdjacencyEntry,
};
use super::iterators::MergedAdjacencyGuard;
use crate::ids::{EdgeId, InternedString, NodeId};
use crate::maps::{keys_of, lists_keys};
use crate::sorting::{ascending, lemma_same_values, sorted, Ranked};
use std::collections::{HashMap, HashSet};
use vstd::prelude::*;

verus! {

broadcast use vstd::std_specs::hash::group_hash_axioms;

/// The edges of one node in the frozen layer.
#[derive(Debug)]
pub struct FrozenRun {
    /// The node.
    pub node: u64,
    /// Its edges.
    pub entries: Vec<AdjacencyEntry>,
}

/// The edges of each node, in two layers.
#[derive(Debug)]
pub struct AdjacencyIndex {
    /// The frozen layer, sorted by node.
    pub runs: Vec<FrozenRun>,
    /// Edges that came since.
    pub delta: HashMap<u64, Vec<AdjacencyEntry>>,
    /// Edges of the frozen layer that are gone.
    pub tombstones: HashSet<u64>,
    /// The edges of a node that has none.
    pub nothing: Vec<AdjacencyEntry>,
}

/// How full the layers are.
#[derive(Clone, Copy, Debug, PartialEq, Eq, Structural)]
pub struct AdjacencyStats {
    /// How many nodes have edges in the delta.
    pub delta_nodes: usize,
    /// How many edges of the frozen layer are gone.
    pub tombstones: usize,
}

/// The frozen edges of a node.
pub open spec fn frozen_in(runs: Seq<FrozenRun>, node: u64) -> Seq<AdjacencyEntry>
    decreases runs.len(),
{
    if runs.len() == 0 {
        Seq::empty()
    } else if runs.last().node == node {
        runs.last().entries@
    } else {
        frozen_in(runs.drop_last(), node)
    }
}

/// The runs are sorted by node, one for each.
pub open spec fn runs_sorted(runs: Seq<FrozenRun>) -> bool {
    forall|i: int, j: int|
        0 <= i < j < runs.len() ==> (#[trigger] runs[i]).node < (#[trigger] runs[j]).node
}

/// The frozen edges of a node are those of its run.
proof fn lemma_frozen_in(runs: Seq<FrozenRun>, node: u64)
    requires
        runs_sorted(runs),
    ensures
        forall|i: int|
            0 <= i < runs.len() && (#[trigger] runs[i]).node == node ==> frozen_in(runs, node)
                == runs[i].entries@,
        (forall|i: int| 0 <= i < runs.len() ==> (#[trigger] runs[i]).node != node) ==> frozen_in(
            runs,
            node,
        ).len() == 0,
    decreases runs.len(),
{
    if runs.len() > 0 {
        let shorter = runs.drop_last();
        assert(runs_sorted(shorter)) by {
            assert forall|i: int, j: int| 0 <= i < j < shorter.len() implies (
            #[trigger] shorter[i]).node < (#[trigger] shorter[j]).node by {
                assert(runs[i].node < runs[j].node);
            }
        }
        lemma_frozen_in(shorter, node);
        assert(runs[runs.len() - 1] == runs.last());
        assert forall|i: int| 0 <= i < runs.len() && (#[trigger] runs[i]).node == node implies frozen_in(
            runs,
            node,
        ) == runs[i].entries@ by {
            if i < shorter.len() {
                assert(shorter[i] == runs[i]);
                assert(runs[i].node < runs[runs.len() - 1].node);
            }
        }
        if forall|i: int| 0 <= i < runs.len() ==> (#[trigger] runs[i]).node != node {
            assert forall|i: int| 0 <= i < shorter.len() implies (#[trigger] shorter[i]).node
                != node by {
                assert(runs[i].node != node);
            }
        }
    }
}

impl AdjacencyIndex {
    /// The frozen edges of a node, dead ones included.
    pub open spec fn frozen(self, node: u64) -> Seq<AdjacencyEntry> {
        frozen_in(self.runs@, node)
    }

    /// The edges of a node that came since.
    pub open spec fn fresh(self, node: u64) -> Seq<AdjacencyEntry> {
        if self.delta@.contains_key(node) {
            self.delta@[node]@
        } else {
            Seq::empty()
        }
    }

    /// The edges of a node.
    pub open spec fn listed(self, node: u64) -> Seq<AdjacencyEntry> {
        kept(self.frozen(node), self.tombstones@, None) + kept(
            self.fresh(node),
            self.tombstones@,
            None,
        )
    }

    /// The runs are sorted, no edge of the delta has a tombstone, and no edge is listed twice,
    /// neither at one node nor at two.
    pub open spec fn well_formed(self) -> bool {
        &&& runs_sorted(self.runs@)
        &&& self.nothing@.len() == 0
        &&& forall|node: u64, i: int|
            0 <= i < self.fresh(node).len() ==> !self.tombstones@.contains(
                (#[trigger] self.fresh(node)[i]).edge_id.0,
            )
        &&& forall|node: u64| distinct(#[trigger] self.listed(node))
        &&& forall|a: u64, b: u64, id: u64|
            #[trigger] has_edge(self.listed(a), id) && #[trigger] has_edge(self.listed(b), id)
                ==> a == b
    }

    /// Nothing is listed.
    pub fn new() -> (r: AdjacencyIndex)
        ensures
            r.well_formed(),
            forall|node: u64| (#[trigger] r.listed(node)).len() == 0,
            r.clean(),
    {
        AdjacencyIndex {
            runs: Vec::new(),
            delta: HashMap::new(),
            tombstones: HashSet::new(),
            nothing: Vec::new(),
        }
    }

    /// There is nothing but the frozen layer, and all of it is alive.
    pub open spec fn clean(self) -> bool {
        &&& self.delta@.is_empty()
        &&& self.tombstones@.len() == 0
        &&& forall|id: u64| !self.tombstones@.contains(id)
    }

    /// The place of a node's run.
    fn find_run(&self, node: u64) -> (r: Option<usize>)
        requires
            runs_sorted(self.runs@),
        ensures
            match r {
                Some(i) => i < self.runs@.len() && self.runs@[i as int].node == node
                    && self.frozen(node) == self.runs@[i as int].entries@,
                None => self.frozen(node).len() == 0,
            },
    {
        let mut low: usize = 0;
        let mut high: usize = self.runs.len();
        while low < high
            invariant
                low <= high <= self.runs.len(),
                runs_sorted(self.runs@),
                forall|i: int| 0 <= i < low ==> (#[trigger] self.runs@[i]).node < node,
                forall|i: int|
                    high <= i < self.runs@.len() ==> (#[trigger] self.runs@[i]).node > node,
            decreases high - low,
        {
            let mid: usize = low + (high - low) / 2;
            let here: u64 = self.runs[mid].node;
            if here == node {
                proof {
                    lemma_frozen_in(self.runs@, node);
                }
                return Some(mid);
            } else if here < node {
                low = mid + 1;
            } else {
                high = mid;
            }
        }
        proof {
            lemma_frozen_in(self.runs@, node);
        }
        None
    }

    /// The frozen edges of a node, dead ones included.
    pub fn frozen_entries(&self, node: u64) -> (r: &Vec<AdjacencyEntry>)
        requires
            self.well_formed(),
        ensures
            r@ == self.frozen(node),
    {
        match self.find_run(node) {
            Some(i) => &self.runs[i].entries,
            None => {
                assert(self.nothing@ =~= self.frozen(node));
                &self.nothing
            },
        }
    }

    /// The edges of a node that came since.
    pub fn fresh_entries(&self, node: u64) -> (r: &Vec<AdjacencyEntry>)
        requires
            self.well_formed(),
        ensures
            r@ == self.fresh(node),
    {
        match self.delta.get(&node) {
            Some(entries) => entries,
            None => {
                assert(self.nothing@ =~= self.fresh(node));
                &self.nothing
            },
        }
    }

    /// The edges of a node.
    pub(crate) fn list(&self, node: u64) -> (r: Vec<AdjacencyEntry>)
        requires
            self.well_formed(),
        ensures
            r@ == self.listed(node),
    {
        let mut out: Vec<AdjacencyEntry> = Vec::new();
        self.push_alive(&mut out, self.frozen_entries(node));
        self.push_alive(&mut out, self.fresh_entries(node));
        assert(out@ =~= self.listed(node));
        out
    }

    /// Appends the entries whose edges have no tombstone.
    fn push_alive(&self, out: &mut Vec<AdjacencyEntry>, entries: &Vec<AdjacencyEntry>)
        ensures
            final(out)@ == old(out)@ + kept(entries@, self.tombstones@, None),
    {
        let mut i: usize = 0;
        assert(out@ =~= old(out)@ + kept(entries@.take(0), self.tombstones@, None));
        while i < entries.len()
            invariant
                i <= entries.len(),
                out@ == old(out)@ + kept(entries@.take(i as int), self.tombstones@, None),
            decreases entries.len() - i,
        {
            if !self.tombstones.contains(&entries[i].edge_id.0) {
                out.push(entries[i]);
            }
            i = i + 1;
            assert(entries@.take(i as int).drop_last() =~= entries@.take(i - 1));
            assert(out@ =~= old(out)@ + kept(entries@.take(i as int), self.tombstones@, None));
        }
        assert(entries@.take(i as int) =~= entries@);
    }

    /// Every node that may have edges, in order, each once.
    pub(crate) fn nodes(&self) -> (r: Vec<u64>)
        requires
            self.well_formed(),
        ensures
            forall|i: int, j: int| 0 <= i < j < r@.len() ==> (#[trigger] r@[i]) < (#[trigger] r@[j]),
            forall|node: u64| !r@.contains(node) ==> (#[trigger] self.listed(node)).len() == 0,
    {
        let mut out = keys_of(&self.delta);
        let ghost keys = out@;
        let mut i: usize = 0;
        while i < self.runs.len()
            invariant
                self.well_formed(),
                i <= self.runs.len(),
                lists_keys(keys, self.delta@),
                out@.no_duplicates(),
                forall|node: u64| #[trigger] keys.contains(node) ==> out@.contains(node),
                forall|j: int| 0 <= j < i ==> out@.contains((#[trigger] self.runs@[j]).node),
                forall|node: u64| #[trigger]
                    out@.contains(node) ==> keys.contains(node) || exists|j: int|
                        0 <= j < i && (#[trigger] self.runs@[j]).node == node,
            decreases self.runs.len() - i,
        {
            let node: u64 = self.runs[i].node;
            let ghost before = out@;
            if !self.delta.contains_key(&node) {
                assert(!before.contains(node)) by {
                    if before.contains(node) {
                        assert(!keys.contains(node));
                        let j = choose|j: int|
                            0 <= j < i && (#[trigger] self.runs@[j]).node == node;
                        assert(self.runs@[j].node < self.runs@[i as int].node);
                    }
                }
                out.push(node);
                assert(out@[before.len() as int] == node);
                assert forall|n: u64| before.contains(n) implies #[trigger] out@.contains(n) by {
                    let j = choose|j: int| 0 <= j < before.len() && before[j] == n;
                    assert(out@[j] == n);
                }
                assert forall|n: u64| #[trigger] out@.contains(n) implies keys.contains(n)
                    || exists|j: int|
                    0 <= j < i + 1 && (#[trigger] self.runs@[j]).node == n by {
                    if n == node {
                        assert(self.runs@[i as int].node == n);
                    } else {
                        let j = choose|j: int| 0 <= j < out@.len() && out@[j] == n;
                        assert(before[j] == n);
                        assert(before.contains(n));
                    }
                }
                assert(out@.no_duplicates()) by {
                    assert forall|a: int, b: int|
                        0 <= a < out@.len() && 0 <= b < out@.len() && a != b implies out@[a]
                        != out@[b] by {
                        if a == before.len() {
                            assert(before[b] == out@[b]);
                            assert(before.contains(before[b]));
                        } else if b == before.len() {
                            assert(before[a] == out@[a]);
                            assert(before.contains(before[a]));
                        } else {
                            assert(before[a] != before[b]);
                        }
                    }
                }
            } else {
                assert(keys.contains(node));
            }
            i = i + 1;
        }
        let r = sorted(&out);
        proof {
            lemma_same_values(r@, out@);
            lemma_sorted_strict(r@, out@);
            assert forall|node: u64| !r@.contains(node) implies (#[trigger] self.listed(node)).len()
                == 0 by {
                assert(!out@.contains(node));
                assert(!keys.contains(node));
                assert(!self.delta@.contains_key(node));
                assert forall|j: int| 0 <= j < self.runs@.len() implies (
                #[trigger] self.runs@[j]).node != node by {
                    assert(out@.contains(self.runs@[j].node));
                }
                lemma_frozen_in(self.runs@, node);
                lemma_kept_members(self.frozen(node), self.tombstones@, None);
            }
        }
        r
    }
}

/// Two indexes that list the same are well-formed alike, as far as the lists go.
proof fn lemma_listed_sound(before: AdjacencyIndex, after: AdjacencyIndex)
    requires
        before.well_formed(),
        forall|node: u64| #[trigger] after.listed(node) == before.listed(node),
    ensures
        forall|node: u64| distinct(#[trigger] after.listed(node)),
        forall|a: u64, b: u64, id: u64|
            #[trigger] has_edge(after.listed(a), id) && #[trigger] has_edge(after.listed(b), id)
                ==> a == b,
{
    assert forall|node: u64| distinct(#[trigger] after.listed(node)) by {
        assert(after.listed(node) == before.listed(node));
    }
    assert forall|a: u64, b: u64, id: u64|
        #[trigger] has_edge(after.listed(a), id) && #[trigger] has_edge(
            after.listed(b),
            id,
        ) implies a == b by {
        assert(has_edge(before.listed(a), id));
        assert(has_edge(before.listed(b), id));
    }
}

/// All that is listed is frozen.
proof fn lemma_listed_frozen(index: AdjacencyIndex, node: u64)
    requires
        index.delta@.is_empty(),
        forall|id: u64| !index.tombstones@.contains(id),
    ensures
        index.listed(node) == index.frozen(node),
{
    lemma_kept_all(index.frozen(node), index.tombstones@);
    assert(!index.delta@.contains_key(node));
    assert(index.listed(node) =~= index.frozen(node));
}

/// Nothing but fresh edges is listed twice, and all fresh edges are listed.
proof fn lemma_fresh_listed(index: AdjacencyIndex, node: u64)
    requires
        index.well_formed(),
    ensures
        index.listed(node) == kept(index.frozen(node), index.tombstones@, None) + index.fresh(node),
        distinct(index.fresh(node)),
{
    let fresh = index.fresh(node);
    assert forall|i: int| 0 <= i < fresh.len() implies !index.tombstones@.contains(
        (#[trigger] fresh[i]).edge_id.0,
    ) by {
        assert(!index.tombstones@.contains(index.fresh(node)[i].edge_id.0));
    }
    lemma_kept_all(fresh, index.tombstones@);
    let old_ones = kept(index.frozen(node), index.tombstones@, None);
    let all = index.listed(node);
    assert(distinct(all));
    assert forall|i: int, j: int| 0 <= i < j < fresh.len() implies (#[trigger] fresh[i]).edge_id.0
        != (#[trigger] fresh[j]).edge_id.0 by {
        assert(all[old_ones.len() + i] == fresh[i]);
        assert(all[old_ones.len() + j] == fresh[j]);
    }
}

impl AdjacencyIndex {
    /// Moves everything into the frozen layer. What is listed stays as it is.
    pub fn compact(&mut self)
        requires
            old(self).well_formed(),
        ensures
            final(self).well_formed(),
            final(self).clean(),
            forall|node: u64| #[trigger] final(self).listed(node) == old(self).listed(node),
    {
        let ghost before = *self;
        let nodes = self.nodes();
        let mut runs: Vec<FrozenRun> = Vec::new();
        let mut i: usize = 0;
        while i < nodes.len()
            invariant
                i <= nodes.len(),
                before == *self,
                self.well_formed(),
                forall|a: int, b: int|
                    0 <= a < b < nodes@.len() ==> (#[trigger] nodes@[a]) < (#[trigger] nodes@[b]),
                runs@.len() == i,
                forall|j: int|
                    0 <= j < i ==> (#[trigger] runs@[j]).node == nodes@[j] && runs@[j].entries@
                        == self.listed(nodes@[j]),
            decreases nodes.len() - i,
        {
            let node: u64 = nodes[i];
            let entries = self.list(node);
            runs.push(FrozenRun { node, entries });
            i = i + 1;
        }
        self.runs = runs;
        self.delta = HashMap::new();
        self.tombstones = HashSet::new();
        proof {
            let after = *self;
            assert(runs_sorted(after.runs@)) by {
                assert forall|a: int, b: int| 0 <= a < b < after.runs@.len() implies (
                #[trigger] after.runs@[a]).node < (#[trigger] after.runs@[b]).node by {
                    assert(nodes@[a] < nodes@[b]);
                }
            }
            assert forall|node: u64| #[trigger] after.listed(node) == before.listed(node) by {
                lemma_frozen_in(after.runs@, node);
                lemma_listed_frozen(after, node);
                if nodes@.contains(node) {
                    let j = choose|j: int| 0 <= j < nodes@.len() && nodes@[j] == node;
                    assert(after.runs@[j].node == node);
                } else {
                    assert(before.listed(node).len() == 0);
                    assert forall|j: int| 0 <= j < after.runs@.len() implies (
                    #[trigger] after.runs@[j]).node != node by {
                        assert(nodes@[j] == after.runs@[j].node);
                        assert(nodes@.contains(nodes@[j]));
                    }
                    assert(after.frozen(node).len() == 0);
                    assert(after.listed(node) =~= before.listed(node));
                }
            }
            lemma_listed_sound(before, after);
        }
    }

    /// Adds an edge that is not listed yet, at the end of its node's list.
    pub fn insert(&mut self, node: u64, entry: AdjacencyEntry)
        requires
            old(self).well_formed(),
            forall|n: u64| !has_edge(#[trigger] old(self).listed(n), entry.edge_id.0),
        ensures
            final(self).well_formed(),
            final(self).listed(node) == old(self).listed(node).push(entry),
            forall|n: u64|
                n != node ==> #[trigger] final(self).listed(n) == old(self).listed(n),
    {
        if self.tombstones.contains(&entry.edge_id.0) {
            self.compact();
        }
        let ghost before = *self;
        let id: Ghost<u64> = Ghost(entry.edge_id.0);
        let mut entries = match self.delta.remove(&node) {
            Some(entries) => entries,
            None => Vec::new(),
        };
        proof {
            lemma_fresh_listed(before, node);
            assert(entries@ =~= before.fresh(node));
        }
        entries.push(entry);
        self.delta.insert(node, entries);
        proof {
            let after = *self;
            assert(after.fresh(node) =~= before.fresh(node).push(entry));
            assert forall|n: u64| n != node implies #[trigger] after.listed(n) == before.listed(
                n,
            ) by {
                assert(after.fresh(n) == before.fresh(n));
            }
            assert forall|n: u64, i: int| 0 <= i < after.fresh(n).len() implies !after.tombstones@.contains(
                (#[trigger] after.fresh(n)[i]).edge_id.0,
            ) by {
                if n == node {
                    if i < before.fresh(n).len() {
                        assert(after.fresh(n)[i] == before.fresh(n)[i]);
                    }
                } else {
                    assert(after.fresh(n)[i] == before.fresh(n)[i]);
                }
            }
            let fresh = after.fresh(node);
            assert forall|i: int| 0 <= i < fresh.len() implies !after.tombstones@.contains(
                (#[trigger] fresh[i]).edge_id.0,
            ) by {
                assert(!after.tombstones@.contains(after.fresh(node)[i].edge_id.0));
            }
            lemma_kept_all(fresh, after.tombstones@);
            assert(after.listed(node) =~= before.listed(node).push(entry));
            assert(!has_edge(before.listed(node), id@));
            assert forall|n: u64| distinct(#[trigger] after.listed(n)) by {
                assert(distinct(before.listed(n)));
                if n == node {
                    let all = after.listed(node);
                    assert forall|i: int, j: int| 0 <= i < j < all.len() implies (
                    #[trigger] all[i]).edge_id.0 != (#[trigger] all[j]).edge_id.0 by {
                        assert(before.listed(node)[i] == all[i]);
                        if j < before.listed(node).len() {
                            assert(before.listed(node)[j] == all[j]);
                        } else {
                            assert(before.listed(node)[i].edge_id.0 != id@);
                        }
                    }
                }
            }
            assert forall|a: u64, b: u64, e: u64|
                #[trigger] has_edge(after.listed(a), e) && #[trigger] has_edge(
                    after.listed(b),
                    e,
                ) implies a == b by {
                lemma_has_after_push(before, after, node, entry, a, e);
                lemma_has_after_push(before, after, node, entry, b, e);
            }
        }
    }

    /// Takes an edge off its node's list.
    pub fn remove(&mut self, node: u64, edge_id: EdgeId)
        requires
            old(self).well_formed(),
            has_edge(old(self).listed(node), edge_id.0),
        ensures
            final(self).well_formed(),
            final(self).listed(node) == kept(
                old(self).listed(node),
                Set::empty().insert(edge_id.0),
                None,
            ),
            forall|n: u64|
                n != node ==> #[trigger] final(self).listed(n) == old(self).listed(n),
    {
        let ghost before = *self;
        let mut entries = match self.delta.remove(&node) {
            Some(entries) => entries,
            None => Vec::new(),
        };
        assert(entries@ =~= before.fresh(node));
        let mut found: Option<usize> = None;
        let mut i: usize = 0;
        while i < entries.len()
            invariant
                i <= entries.len(),
                match found {
                    Some(j) => j < entries.len() && entries@[j as int].edge_id == edge_id,
                    None => forall|j: int|
                        0 <= j < i ==> (#[trigger] entries@[j]).edge_id != edge_id,
                },
            decreases entries.len() - i,
        {
            if entries[i].edge_id == edge_id {
                found = Some(i);
            }
            i = i + 1;
        }
        match found {
            Some(j) => {
                entries.remove(j);
            },
            None => {
                self.tombstones.insert(edge_id.0);
            },
        }
        self.delta.insert(node, entries);
        proof {
            let after = *self;
            assert forall|n: u64| n != node implies #[trigger] after.fresh(n) == before.fresh(
                n,
            ) by {
                assert(after.delta@.contains_key(n) == before.delta@.contains_key(n));
            }
            assert(found is None ==> !has_edge(before.fresh(node), edge_id.0));
            lemma_remove_lists(before, after, node, edge_id, found);
        }
    }
}

/// What a list holds after an entry was added to one of them.
proof fn lemma_has_after_push(
    before: AdjacencyIndex,
    after: AdjacencyIndex,
    node: u64,
    entry: AdjacencyEntry,
    n: u64,
    id: u64,
)
    requires
        after.listed(node) == before.listed(node).push(entry),
        n != node ==> after.listed(n) == before.listed(n),
        has_edge(after.listed(n), id),
        before.well_formed(),
        forall|m: u64| !has_edge(#[trigger] before.listed(m), entry.edge_id.0),
    ensures
        id == entry.edge_id.0 ==> n == node,
        id != entry.edge_id.0 ==> has_edge(before.listed(n), id),
{
    let i = choose|i: int|
        0 <= i < after.listed(n).len() && (#[trigger] after.listed(n)[i]).edge_id.0 == id;
    if n == node {
        if i < before.listed(n).len() {
            assert(before.listed(n)[i].edge_id.0 == id);
        }
    } else {
        assert(before.listed(n)[i].edge_id.0 == id);
    }
}

/// Taking an edge out of the delta, or giving it a tombstone, takes it off its node's list and
/// changes no other list.
proof fn lemma_remove_lists(
    before: AdjacencyIndex,
    after: AdjacencyIndex,
    node: u64,
    edge_id: EdgeId,
    found: Option<usize>,
)
    requires
        before.well_formed(),
        has_edge(before.listed(node), edge_id.0),
        after.runs == before.runs,
        after.nothing == before.nothing,
        forall|n: u64| n != node ==> #[trigger] after.fresh(n) == before.fresh(n),
        match found {
            Some(j) => {
                &&& j < before.fresh(node).len()
                &&& before.fresh(node)[j as int].edge_id == edge_id
                &&& after.fresh(node) == before.fresh(node).remove(j as int)
                &&& after.tombstones@ == before.tombstones@
            },
            None => {
                &&& !has_edge(before.fresh(node), edge_id.0)
                &&& after.fresh(node) == before.fresh(node)
                &&& after.tombstones@ == before.tombstones@.insert(edge_id.0)
            },
        },
    ensures
        after.well_formed(),
        after.listed(node) == kept(before.listed(node), Set::empty().insert(edge_id.0), None),
        forall|n: u64| n != node ==> #[trigger] after.listed(n) == before.listed(n),
{
    let id = edge_id.0;
    let gone = Set::<u64>::empty().insert(id);
    let dead = before.tombstones@;
    lemma_fresh_listed(before, node);
    let old_ones = kept(before.frozen(node), dead, None);
    let fresh = before.fresh(node);
    lemma_kept_append(old_ones, fresh, gone, None);
    match found {
        Some(j) => {
            lemma_kept_remove(fresh, j as int);
            assert(before.listed(node)[old_ones.len() + j] == fresh[j as int]);
            assert forall|i: int| 0 <= i < old_ones.len() implies !gone.contains(
                (#[trigger] old_ones[i]).edge_id.0,
            ) by {
                assert(before.listed(node)[i] == old_ones[i]);
            }
            lemma_kept_all(old_ones, gone);
            assert forall|n: u64, i: int| 0 <= i < after.fresh(n).len() implies !after.tombstones@.contains(
                (#[trigger] after.fresh(n)[i]).edge_id.0,
            ) by {
                if n == node {
                    if i < j {
                        assert(after.fresh(n)[i] == before.fresh(n)[i]);
                    } else {
                        assert(after.fresh(n)[i] == before.fresh(n)[i + 1]);
                    }
                } else {
                    assert(after.fresh(n)[i] == before.fresh(n)[i]);
                }
            }
            let left = after.fresh(node);
            assert forall|i: int| 0 <= i < left.len() implies !dead.contains(
                (#[trigger] left[i]).edge_id.0,
            ) by {
                assert(!after.tombstones@.contains(after.fresh(node)[i].edge_id.0));
            }
            lemma_kept_all(left, dead);
        },
        None => {
            lemma_kept_bury(before.frozen(node), dead, id);
            assert forall|n: u64, i: int| 0 <= i < after.fresh(n).len() implies !after.tombstones@.contains(
                (#[trigger] after.fresh(n)[i]).edge_id.0,
            ) by {
                assert(after.fresh(n)[i] == before.fresh(n)[i]);
                if after.fresh(n)[i].edge_id.0 == id {
                    if n == node {
                        assert(has_edge(before.fresh(node), id));
                    } else {
                        lemma_fresh_listed(before, n);
                        let k = kept(before.frozen(n), dead, None).len() + i;
                        assert(before.listed(n)[k].edge_id.0 == id);
                        assert(has_edge(before.listed(n), id));
                    }
                }
            }
            assert forall|n: u64| #[trigger] after.listed(n) == kept(
                before.listed(n),
                gone,
                None,
            ) by {
                lemma_kept_bury(before.frozen(n), dead, id);
                lemma_kept_bury(before.fresh(n), dead, id);
                lemma_kept_append(
                    kept(before.frozen(n), dead, None),
                    kept(before.fresh(n), dead, None),
                    gone,
                    None,
                );
            }
        },
    }
    assert forall|n: u64| n != node implies #[trigger] after.listed(n) == before.listed(n) by {
        if found is None {
            assert forall|i: int| 0 <= i < before.listed(n).len() implies !gone.contains(
                (#[trigger] before.listed(n)[i]).edge_id.0,
            ) by {
                if before.listed(n)[i].edge_id.0 == id {
                    assert(has_edge(before.listed(n), id));
                }
            }
            lemma_kept_all(before.listed(n), gone);
        }
    }
    assert forall|n: u64| distinct(#[trigger] after.listed(n)) by {
        assert(distinct(before.listed(n)));
        lemma_kept_members(before.listed(n), gone, None);
    }
    assert forall|a: u64, b: u64, e: u64|
        #[trigger] has_edge(after.listed(a), e) && #[trigger] has_edge(
            after.listed(b),
            e,
        ) implies a == b by {
        lemma_has_after_bury(before, after, node, id, a, e);
        lemma_has_after_bury(before, after, node, id, b, e);
    }
}

/// What a list holds after an edge was taken off one of them was there before.
proof fn lemma_has_after_bury(
    before: AdjacencyIndex,
    after: AdjacencyIndex,
    node: u64,
    id: u64,
    n: u64,
    e: u64,
)
    requires
        after.listed(node) == kept(before.listed(node), Set::empty().insert(id), None),
        n != node ==> after.listed(n) == before.listed(n),
        has_edge(after.listed(n), e),
    ensures
        has_edge(before.listed(n), e),
{
    let i = choose|i: int|
        0 <= i < after.listed(n).len() && (#[trigger] after.listed(n)[i]).edge_id.0 == e;
    if n == node {
        lemma_kept_members(before.listed(n), Set::empty().insert(id), None);
        assert(after.listed(n).contains(after.listed(n)[i]));
        let j = choose|j: int|
            0 <= j < before.listed(n).len() && before.listed(n)[j] == after.listed(n)[i];
        assert(before.listed(n)[j].edge_id.0 == e);
    } else {
        assert(before.listed(n)[i].edge_id.0 == e);
    }
}

impl AdjacencyIndex {
    /// The layers in which the edges of a node are kept.
    pub fn guard(&self, node: NodeId) -> (r: MergedAdjacencyGuard<'_>)
        requires
            self.well_formed(),
        ensures
            r.frozen@ == self.frozen(node.0),
            r.delta@ == self.fresh(node.0),
            r.tombstones@ == self.tombstones@,
            !r.publishing,
            r.listing(None) == self.listed(node.0),
            forall|label: Option<InternedString>| #[trigger]
                r.listing(label) == kept(self.listed(node.0), Set::empty(), label),
    {
        let guard = MergedAdjacencyGuard {
            frozen: self.frozen_entries(node.0),
            delta: self.fresh_entries(node.0),
            tombstones: &self.tombstones,
            publishing: false,
        };
        proof {
            assert forall|label: Option<InternedString>| #[trigger] guard.listing(label) == kept(
                self.listed(node.0),
                Set::empty(),
                label,
            ) by {
                lemma_kept_label(self.frozen(node.0), self.tombstones@, label);
                lemma_kept_label(self.fresh(node.0), self.tombstones@, label);
                lemma_kept_append(
                    kept(self.frozen(node.0), self.tombstones@, None),
                    kept(self.fresh(node.0), self.tombstones@, None),
                    Set::empty(),
                    label,
                );
            }
        }
        guard
    }

    /// Whether there is nothing but the frozen layer, and all of it is alive.
    pub fn is_clean(&self) -> (r: bool)
        ensures
            r == self.clean(),
    {
        let r = self.delta.is_empty() && self.tombstones.is_empty();
        proof {
            if r {
                assert(self.tombstones@ =~= Set::empty());
            }
            if self.clean() {
                assert(self.tombstones@ =~= Set::empty());
            }
        }
        r
    }

    /// How full the layers are.
    pub fn stats(&self) -> (r: AdjacencyStats)
        ensures
            r.delta_nodes == self.delta@.len(),
            r.tombstones == self.tombstones@.len(),
    {
        AdjacencyStats { delta_nodes: self.delta.len(), tombstones: self.tombstones.len() }
    }
}

/// A sorted list of different values ascends strictly.
proof fn lemma_sorted_strict(r: Seq<u64>, v: Seq<u64>)
    requires
        ascending(r),
        r.to_multiset() == v.to_multiset(),
        v.no_duplicates(),
    ensures
        forall|i: int, j: int| 0 <= i < j < r.len() ==> (#[trigger] r[i]) < (#[trigger] r[j]),
{
    v.lemma_multiset_has_no_duplicates();
    assert(r.no_duplicates()) by {
        r.lemma_multiset_has_no_duplicates_conv();
    }
    assert forall|i: int, j: int| 0 <= i < j < r.len() implies (#[trigger] r[i]) < (
    #[trigger] r[j]) by {
        assert(r[i] != r[j]);
        assert(r[i].rank() <= r[j].rank());
    }
}

/// The frozen edges of a node are those of the run that bears its number; a node without a run has
/// none.
pub proof fn law_frozen_edges_of_a_node(index: AdjacencyIndex, node: u64, i: int)
    requires
        index.well_formed(),
    ensures
        0 <= i < index.runs@.len() && index.runs@[i].node == node ==> index.frozen(node)
            == index.runs@[i].entries@,
        (forall|j: int| 0 <= j < index.runs@.len() ==> (#[trigger] index.runs@[j]).node != node)
            ==> index.frozen(node).len() == 0,
{
    lemma_frozen_in(index.runs@, node);
}

/// An edge is listed at a node exactly if it is frozen there or came since, and is not dead.
pub proof fn law_listed_edges_are_alive(index: AdjacencyIndex, node: u64, e: AdjacencyEntry)
    ensures
        index.listed(node).contains(e) <==> !index.tombstones@.contains(e.edge_id.0) && (index.frozen(
            node,
        ).contains(e) || (index.delta@.contains_key(node) && index.delta@[node]@.contains(e))),
{
    let dead = index.tombstones@;
    let a = kept(index.frozen(node), dead, None);
    let b = kept(index.fresh(node), dead, None);
    super::entries::law_edge_is_kept_iff(index.frozen(node), dead, None, e);
    super::entries::law_edge_is_kept_iff(index.fresh(node), dead, None, e);
    let all = index.listed(node);
    assert(all.contains(e) <==> a.contains(e) || b.contains(e)) by {
        if all.contains(e) {
            let i = choose|i: int| 0 <= i < all.len() && all[i] == e;
            if i < a.len() {
                assert(a[i] == e);
            } else {
                assert(b[i - a.len()] == e);
            }
        }
        if a.contains(e) {
            let i = choose|i: int| 0 <= i < a.len() && a[i] == e;
            assert(all[i] == e);
        }
        if b.contains(e) {
            let i = choose|i: int| 0 <= i < b.len() && b[i] == e;
            assert(all[a.len() + i] == e);
        }
    }
}

/// Where nothing but the frozen layer is there and all of it is alive, the frozen edges are what is
/// listed.
pub proof fn law_clean_index_lists_the_frozen(index: AdjacencyIndex, node: u64, id: u64)
    requires
        index.clean(),
    ensures
        index.listed(node) == index.frozen(node),
        !index.tombstones@.contains(id),
        !index.delta@.contains_key(node),
{
    lemma_kept_all(index.frozen(node), index.tombstones@);
    assert(!index.delta@.dom().contains(node));
    assert(kept(index.fresh(node), index.tombstones@, None) =~= Seq::empty());
    assert(index.listed(node) =~= index.frozen(node));
}

} // verus!

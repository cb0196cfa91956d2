//! Walking the edges of a node, one at a time.

use super::entries::{
    distinct, edge_ids, edge_set, has_edge, kept, lemma_kept_all, lemma_kept_members, lemma_kept_skip,
    passes, AdjacencyEntry,
};
use crate::ids::{EdgeId, InternedString};
use std::collections::HashSet;
use vstd::prelude::*;

verus! {

broadcast use vstd::std_specs::hash::group_hash_axioms;

/// The layers in which the edges of one node are kept.
#[derive(Clone, Copy)]
pub struct MergedAdjacencyGuard<'a> {
    /// The frozen edges, dead ones included.
    pub frozen: &'a Vec<AdjacencyEntry>,
    /// The edges that came since.
    pub delta: &'a Vec<AdjacencyEntry>,
    /// The dead edges.
    pub tombstones: &'a HashSet<u64>,
    /// Whether the delta is just being frozen, so that an edge may be in both layers.
    pub publishing: bool,
}

impl<'a> MergedAdjacencyGuard<'a> {
    /// The edges of the delta that are not shown: dead ones and, while the delta is being frozen,
    /// those that are frozen already.
    pub open spec fn hidden(self) -> Set<u64> {
        if self.publishing {
            self.tombstones@.union(edge_set(self.frozen@))
        } else {
            self.tombstones@
        }
    }

    /// The edges with a label, or all of them.
    pub open spec fn listing(self, label: Option<InternedString>) -> Seq<AdjacencyEntry> {
        kept(self.frozen@, self.tombstones@, label) + kept(self.delta@, self.hidden(), label)
    }

    /// All edges are frozen and alive.
    pub open spec fn fast(self) -> bool {
        self.tombstones@.is_empty() && self.delta@.len() == 0 && !self.publishing
    }

    /// Whether the edge is dead.
    pub fn is_tombstoned(&self, edge_id: EdgeId) -> (r: bool)
        ensures
            r == self.tombstones@.contains(edge_id.0),
    {
        self.tombstones.contains(&edge_id.0)
    }

    /// Whether an edge of the delta is frozen already while the delta is being frozen.
    pub fn delta_entry_is_duplicate(&self, entry: &AdjacencyEntry) -> (r: bool)
        ensures
            r == (self.publishing && has_edge(self.frozen@, entry.edge_id.0)),
    {
        if !self.publishing {
            return false;
        }
        let mut i: usize = 0;
        while i < self.frozen.len()
            invariant
                i <= self.frozen.len(),
                self.publishing,
                forall|j: int|
                    0 <= j < i ==> (#[trigger] self.frozen@[j]).edge_id.0 != entry.edge_id.0,
            decreases self.frozen.len() - i,
        {
            if self.frozen[i].edge_id.0 == entry.edge_id.0 {
                assert(has_edge(self.frozen@, entry.edge_id.0));
                return true;
            }
            i = i + 1;
        }
        false
    }

    /// How many edges there may be at most.
    pub fn capacity_hint(&self) -> (r: usize)
        ensures
            r == (if self.frozen@.len() + self.delta@.len() <= usize::MAX {
                (self.frozen@.len() + self.delta@.len()) as usize
            } else {
                usize::MAX
            }),
    {
        self.frozen.len().saturating_add(self.delta.len())
    }

    /// How many edges there are, where no edge has to be looked at to tell.
    pub fn fast_len(&self) -> (r: Option<usize>)
        ensures
            match r {
                Some(len) => {
                    &&& self.fast()
                    &&& len == self.frozen@.len()
                    &&& len == self.listing(None).len()
                },
                None => !self.fast(),
            },
    {
        if self.tombstones.is_empty() && self.delta.len() == 0 && !self.publishing {
            proof {
                assert forall|i: int| 0 <= i < self.frozen@.len() implies !self.tombstones@.contains(
                    (#[trigger] self.frozen@[i]).edge_id.0,
                ) by {
                    assert(self.tombstones@ =~= Set::empty());
                }
                lemma_kept_all(self.frozen@, self.tombstones@);
            }
            Some(self.frozen.len())
        } else {
            None
        }
    }

    /// How many edges there are, as far as they can be counted.
    pub fn len(&self) -> (r: usize)
        ensures
            r == (if self.listing(None).len() <= usize::MAX {
                self.listing(None).len() as usize
            } else {
                usize::MAX
            }),
    {
        let mut walk = EdgeWalk::new(*self, None);
        let ghost total = walk.remaining();
        assert(total =~= self.listing(None)) by {
            assert(self.frozen@.skip(0) =~= self.frozen@);
            assert(self.delta@.skip(0) =~= self.delta@);
        }
        let mut count: usize = 0;
        let ghost mut seen: nat = 0;
        loop
            invariant
                walk.well_formed(),
                seen + walk.remaining().len() == total.len(),
                count == (if seen <= usize::MAX {
                    seen as usize
                } else {
                    usize::MAX
                }),
            ensures
                walk.remaining().len() == 0,
            decreases walk.remaining().len(),
        {
            match walk.next() {
                Some(_) => {
                    count = count.saturating_add(1);
                    proof {
                        seen = seen + 1;
                    }
                },
                None => {
                    break;
                },
            }
        }
        count
    }
}

/// A walk along the edges of a node.
pub struct EdgeWalk<'a> {
    /// The edges.
    pub guard: MergedAdjacencyGuard<'a>,
    /// The label that is asked for.
    pub label: Option<InternedString>,
    /// How many frozen edges have been passed.
    pub frozen_index: usize,
    /// How many edges of the delta have been passed.
    pub delta_index: usize,
}

impl<'a> EdgeWalk<'a> {
    /// The walk is within its layers.
    pub open spec fn well_formed(self) -> bool {
        &&& self.frozen_index <= self.guard.frozen@.len()
        &&& self.delta_index <= self.guard.delta@.len()
    }

    /// The edges that are still to come.
    pub open spec fn remaining(self) -> Seq<AdjacencyEntry> {
        kept(
            self.guard.frozen@.skip(self.frozen_index as int),
            self.guard.tombstones@,
            self.label,
        ) + kept(
            self.guard.delta@.skip(self.delta_index as int),
            self.guard.hidden(),
            self.label,
        )
    }

    /// How many entries have been passed, as far as they can be counted.
    pub open spec fn passed(self) -> usize {
        if self.frozen_index + self.delta_index <= usize::MAX {
            (self.frozen_index + self.delta_index) as usize
        } else {
            usize::MAX
        }
    }

    /// A walk along all edges, or along those with a label.
    pub fn new(guard: MergedAdjacencyGuard<'a>, label: Option<InternedString>) -> (r: EdgeWalk<'a>)
        ensures
            r.well_formed(),
            r.guard == guard,
            r.label == label,
            r.passed() == 0,
            r.remaining() == guard.listing(label),
    {
        let walk = EdgeWalk { guard, label, frozen_index: 0, delta_index: 0 };
        assert(guard.frozen@.skip(0) =~= guard.frozen@);
        assert(guard.delta@.skip(0) =~= guard.delta@);
        walk
    }

    /// How many entries have been passed, as far as they can be counted.
    pub fn index(&self) -> (r: usize)
        ensures
            r == self.passed(),
    {
        self.frozen_index.saturating_add(self.delta_index)
    }

    /// Whether the entry has the label that is asked for.
    fn wanted(&self, entry: &AdjacencyEntry) -> (r: bool)
        ensures
            r == (self.label is Some ==> entry.label == self.label->Some_0),
    {
        match self.label {
            Some(label) => entry.label == label,
            None => true,
        }
    }

    /// The next edge.
    pub fn next(&mut self) -> (r: Option<EdgeId>)
        requires
            old(self).well_formed(),
        ensures
            final(self).well_formed(),
            final(self).guard == old(self).guard,
            final(self).label == old(self).label,
            match r {
                Some(edge_id) => {
                    &&& old(self).remaining().len() > 0
                    &&& edge_id == old(self).remaining()[0].edge_id
                    &&& final(self).remaining() == old(self).remaining().skip(1)
                },
                None => {
                    &&& old(self).remaining().len() == 0
                    &&& final(self).remaining().len() == 0
                },
            },
    {
        while self.frozen_index < self.guard.frozen.len()
            invariant
                self.well_formed(),
                self.guard == old(self).guard,
                self.label == old(self).label,
                self.remaining() == old(self).remaining(),
            decreases self.guard.frozen@.len() - self.frozen_index,
        {
            let entry = self.guard.frozen[self.frozen_index];
            let ghost before = *self;
            proof {
                lemma_kept_skip(
                    self.guard.frozen@,
                    self.frozen_index as int,
                    self.guard.tombstones@,
                    self.label,
                );
            }
            self.frozen_index = self.frozen_index + 1;
            if self.wanted(&entry) && !self.guard.is_tombstoned(entry.edge_id) {
                assert(before.remaining() =~= seq![entry] + self.remaining());
                assert(before.remaining().skip(1) =~= self.remaining());
                return Some(entry.edge_id);
            }
        }
        while self.delta_index < self.guard.delta.len()
            invariant
                self.well_formed(),
                self.frozen_index == self.guard.frozen@.len(),
                self.guard == old(self).guard,
                self.label == old(self).label,
                self.remaining() == old(self).remaining(),
            decreases self.guard.delta@.len() - self.delta_index,
        {
            let entry = self.guard.delta[self.delta_index];
            let ghost before = *self;
            proof {
                lemma_kept_skip(
                    self.guard.delta@,
                    self.delta_index as int,
                    self.guard.hidden(),
                    self.label,
                );
                assert(self.guard.frozen@.skip(self.frozen_index as int).len() == 0);
            }
            self.delta_index = self.delta_index + 1;
            if self.wanted(&entry) && !self.guard.is_tombstoned(entry.edge_id)
                && !self.guard.delta_entry_is_duplicate(&entry) {
                assert(passes(entry, self.guard.hidden(), self.label));
                assert(before.remaining() =~= seq![entry] + self.remaining());
                assert(before.remaining().skip(1) =~= self.remaining());
                return Some(entry.edge_id);
            }
            assert(!passes(entry, self.guard.hidden(), self.label));
            assert(before.remaining() =~= self.remaining());
        }
        assert(self.guard.frozen@.skip(self.frozen_index as int).len() == 0);
        assert(self.guard.delta@.skip(self.delta_index as int).len() == 0);
        None
    }

    /// The edges that are still to come.
    pub fn rest(&mut self) -> (r: Vec<EdgeId>)
        requires
            old(self).well_formed(),
        ensures
            final(self).well_formed(),
            final(self).guard == old(self).guard,
            final(self).label == old(self).label,
            r@ == edge_ids(old(self).remaining()),
            final(self).remaining().len() == 0,
    {
        let ghost all = self.remaining();
        let mut out: Vec<EdgeId> = Vec::new();
        assert(all.skip(0) =~= all);
        loop
            invariant
                self.well_formed(),
                self.guard == old(self).guard,
                self.label == old(self).label,
                out@.len() <= all.len(),
                self.remaining() == all.skip(out@.len() as int),
                out@ == edge_ids(all).take(out@.len() as int),
            ensures
                self.remaining().len() == 0,
            decreases self.remaining().len(),
        {
            let ghost before = self.remaining();
            match self.next() {
                Some(edge_id) => {
                    out.push(edge_id);
                    assert(before[0] == all[out@.len() - 1]);
                    assert(before.skip(1) =~= all.skip(out@.len() as int));
                    assert(out@ =~= edge_ids(all).take(out@.len() as int));
                },
                None => {
                    break;
                },
            }
        }
        assert(out@ =~= edge_ids(all));
        out
    }

    /// How many edges are still to come, at least and at most: exactly known where all edges are
    /// frozen and alive.
    fn bounds(&self) -> (r: (usize, Option<usize>))
        requires
            self.well_formed(),
        ensures
            r.0 == self.least(),
            r.1 == Some(self.most()),
    {
        match self.guard.fast_len() {
            Some(len) => {
                let remaining: usize = len.saturating_sub(self.index());
                (remaining, Some(remaining))
            },
            None => {
                let most: usize = self.guard.capacity_hint().saturating_sub(self.index());
                (0, Some(most))
            },
        }
    }

    /// A difference that stops at zero.
    pub open spec fn beyond(total: nat, passed: usize) -> usize {
        if total <= passed {
            0
        } else if total <= usize::MAX {
            (total - passed) as usize
        } else {
            (usize::MAX - passed) as usize
        }
    }

    /// How many edges are still to come at least.
    pub open spec fn least(self) -> usize {
        if self.guard.fast() {
            EdgeWalk::beyond(self.guard.frozen@.len(), self.passed())
        } else {
            0
        }
    }

    /// How many edges are still to come at most.
    pub open spec fn most(self) -> usize {
        EdgeWalk::beyond(self.guard.frozen@.len() + self.guard.delta@.len(), self.passed())
    }

    /// The number of edges less the number of entries that have been passed.
    pub open spec fn spec_len(self) -> usize {
        EdgeWalk::beyond(self.guard.listing(None).len(), self.passed())
    }

    /// The number of edges less the number of entries that have been passed.
    fn count_left(&self) -> (r: usize)
        requires
            self.well_formed(),
        ensures
            r == self.spec_len(),
    {
        match self.guard.fast_len() {
            Some(len) => len.saturating_sub(self.index()),
            None => self.guard.len().saturating_sub(self.index()),
        }
    }
}

/// Walks the edges that start at a node.
pub struct OutgoingEdgesIter<'a> {
    /// The walk.
    pub walk: EdgeWalk<'a>,
}

impl<'a> OutgoingEdgesIter<'a> {
    /// The walk is within its layers, and no label is asked for.
    pub open spec fn well_formed(self) -> bool {
        self.walk.well_formed() && self.walk.label is None
    }

    /// A walk along all edges.
    pub fn new(guard: MergedAdjacencyGuard<'a>) -> (r: OutgoingEdgesIter<'a>)
        ensures
            r.well_formed(),
            r.walk.guard == guard,
            r.walk.passed() == 0,
            r.walk.remaining() == guard.listing(None),
    {
        OutgoingEdgesIter { walk: EdgeWalk::new(guard, None) }
    }

    /// The next edge.
    pub fn next(&mut self) -> (r: Option<EdgeId>)
        requires
            old(self).well_formed(),
        ensures
            final(self).well_formed(),
            final(self).walk.guard == old(self).walk.guard,
            final(self).walk.label == old(self).walk.label,
            match r {
                Some(edge_id) => {
                    &&& old(self).walk.remaining().len() > 0
                    &&& edge_id == old(self).walk.remaining()[0].edge_id
                    &&& final(self).walk.remaining() == old(self).walk.remaining().skip(1)
                },
                None => {
                    &&& old(self).walk.remaining().len() == 0
                    &&& final(self).walk.remaining().len() == 0
                },
            },
    {
        self.walk.next()
    }

    /// The edges that are still to come.
    pub fn collect(self) -> (r: Vec<EdgeId>)
        requires
            self.well_formed(),
        ensures
            r@ == edge_ids(self.walk.remaining()),
    {
        let mut walk = self.walk;
        walk.rest()
    }

    /// How many edges are still to come, at least and at most.
    pub fn size_hint(&self) -> (r: (usize, Option<usize>))
        requires
            self.well_formed(),
        ensures
            r.0 == self.walk.least(),
            r.1 == Some(self.walk.most()),
    {
        self.walk.bounds()
    }

    /// The number of edges less the number of entries that have been passed. Where all edges are
    /// frozen and alive, this is how many are still to come.
    pub fn len(&self) -> (r: usize)
        requires
            self.well_formed(),
        ensures
            r == self.walk.spec_len(),
    {
        self.walk.count_left()
    }
}

/// Walks the edges that end at a node.
pub struct IncomingEdgesIter<'a> {
    /// The walk.
    pub walk: EdgeWalk<'a>,
}

impl<'a> IncomingEdgesIter<'a> {
    /// The walk is within its layers, and no label is asked for.
    pub open spec fn well_formed(self) -> bool {
        self.walk.well_formed() && self.walk.label is None
    }

    /// A walk along all edges.
    pub fn new(guard: MergedAdjacencyGuard<'a>) -> (r: IncomingEdgesIter<'a>)
        ensures
            r.well_formed(),
            r.walk.guard == guard,
            r.walk.passed() == 0,
            r.walk.remaining() == guard.listing(None),
    {
        IncomingEdgesIter { walk: EdgeWalk::new(guard, None) }
    }

    /// The next edge.
    pub fn next(&mut self) -> (r: Option<EdgeId>)
        requires
            old(self).well_formed(),
        ensures
            final(self).well_formed(),
            final(self).walk.guard == old(self).walk.guard,
            final(self).walk.label == old(self).walk.label,
            match r {
                Some(edge_id) => {
                    &&& old(self).walk.remaining().len() > 0
                    &&& edge_id == old(self).walk.remaining()[0].edge_id
                    &&& final(self).walk.remaining() == old(self).walk.remaining().skip(1)
                },
                None => {
                    &&& old(self).walk.remaining().len() == 0
                    &&& final(self).walk.remaining().len() == 0
                },
            },
    {
        self.walk.next()
    }

    /// The edges that are still to come.
    pub fn collect(self) -> (r: Vec<EdgeId>)
        requires
            self.well_formed(),
        ensures
            r@ == edge_ids(self.walk.remaining()),
    {
        let mut walk = self.walk;
        walk.rest()
    }

    /// How many edges are still to come, at least and at most.
    pub fn size_hint(&self) -> (r: (usize, Option<usize>))
        requires
            self.well_formed(),
        ensures
            r.0 == self.walk.least(),
            r.1 == Some(self.walk.most()),
    {
        self.walk.bounds()
    }

    /// The number of edges less the number of entries that have been passed. Where all edges are
    /// frozen and alive, this is how many are still to come.
    pub fn len(&self) -> (r: usize)
        requires
            self.well_formed(),
        ensures
            r == self.walk.spec_len(),
    {
        self.walk.count_left()
    }
}

/// Walks the edges with one label that start at a node.
pub struct OutgoingEdgesWithLabelIter<'a> {
    /// The walk.
    pub walk: EdgeWalk<'a>,
    /// Whether the label is known at all.
    pub known: bool,
}

impl<'a> OutgoingEdgesWithLabelIter<'a> {
    /// The walk is within its layers, and a label is asked for if it is known.
    pub open spec fn well_formed(self) -> bool {
        self.walk.well_formed() && self.known == (self.walk.label is Some)
    }

    /// The edges that are still to come: none where the label is not known.
    pub open spec fn remaining(self) -> Seq<AdjacencyEntry> {
        if self.known {
            self.walk.remaining()
        } else {
            Seq::empty()
        }
    }

    /// A walk along the edges with a label.
    pub fn new(guard: MergedAdjacencyGuard<'a>, label: Option<InternedString>) -> (r:
        OutgoingEdgesWithLabelIter<'a>)
        ensures
            r.well_formed(),
            r.walk.guard == guard,
            r.walk.label == label,
            r.walk.passed() == 0,
            r.remaining() == (if label is Some {
                guard.listing(label)
            } else {
                Seq::empty()
            }),
    {
        OutgoingEdgesWithLabelIter { walk: EdgeWalk::new(guard, label), known: label.is_some() }
    }

    /// The next edge.
    pub fn next(&mut self) -> (r: Option<EdgeId>)
        requires
            old(self).well_formed(),
        ensures
            final(self).well_formed(),
            final(self).walk.guard == old(self).walk.guard,
            final(self).walk.label == old(self).walk.label,
            match r {
                Some(edge_id) => {
                    &&& old(self).remaining().len() > 0
                    &&& edge_id == old(self).remaining()[0].edge_id
                    &&& final(self).remaining() == old(self).remaining().skip(1)
                },
                None => old(self).remaining().len() == 0 && final(self).remaining().len() == 0,
            },
    {
        if self.known {
            self.walk.next()
        } else {
            None
        }
    }

    /// The edges that are still to come.
    pub fn collect(self) -> (r: Vec<EdgeId>)
        requires
            self.well_formed(),
        ensures
            r@ == edge_ids(self.remaining()),
    {
        if self.known {
            let mut walk = self.walk;
            walk.rest()
        } else {
            let none: Vec<EdgeId> = Vec::new();
            assert(none@ =~= edge_ids(self.remaining()));
            none
        }
    }

    /// How many edges are still to come, at least and at most: any of them may have another label.
    pub fn size_hint(&self) -> (r: (usize, Option<usize>))
        requires
            self.well_formed(),
        ensures
            r.0 == 0,
            r.1 == Some(self.walk.most()),
    {
        let most: usize = self.walk.guard.capacity_hint().saturating_sub(self.walk.index());
        (0, Some(most))
    }
}

/// Walks the edges with one label that end at a node.
pub struct IncomingEdgesWithLabelIter<'a> {
    /// The walk.
    pub walk: EdgeWalk<'a>,
    /// Whether the label is known at all.
    pub known: bool,
}

impl<'a> IncomingEdgesWithLabelIter<'a> {
    /// The walk is within its layers, and a label is asked for if it is known.
    pub open spec fn well_formed(self) -> bool {
        self.walk.well_formed() && self.known == (self.walk.label is Some)
    }

    /// The edges that are still to come: none where the label is not known.
    pub open spec fn remaining(self) -> Seq<AdjacencyEntry> {
        if self.known {
            self.walk.remaining()
        } else {
            Seq::empty()
        }
    }

    /// A walk along the edges with a label.
    pub fn new(guard: MergedAdjacencyGuard<'a>, label: Option<InternedString>) -> (r:
        IncomingEdgesWithLabelIter<'a>)
        ensures
            r.well_formed(),
            r.walk.guard == guard,
            r.walk.label == label,
            r.walk.passed() == 0,
            r.remaining() == (if label is Some {
                guard.listing(label)
            } else {
                Seq::empty()
            }),
    {
        IncomingEdgesWithLabelIter { walk: EdgeWalk::new(guard, label), known: label.is_some() }
    }

    /// The next edge.
    pub fn next(&mut self) -> (r: Option<EdgeId>)
        requires
            old(self).well_formed(),
        ensures
            final(self).well_formed(),
            final(self).walk.guard == old(self).walk.guard,
            final(self).walk.label == old(self).walk.label,
            match r {
                Some(edge_id) => {
                    &&& old(self).remaining().len() > 0
                    &&& edge_id == old(self).remaining()[0].edge_id
                    &&& final(self).remaining() == old(self).remaining().skip(1)
                },
                None => old(self).remaining().len() == 0 && final(self).remaining().len() == 0,
            },
    {
        if self.known {
            self.walk.next()
        } else {
            None
        }
    }

    /// The edges that are still to come.
    pub fn collect(self) -> (r: Vec<EdgeId>)
        requires
            self.well_formed(),
        ensures
            r@ == edge_ids(self.remaining()),
    {
        if self.known {
            let mut walk = self.walk;
            walk.rest()
        } else {
            let none: Vec<EdgeId> = Vec::new();
            assert(none@ =~= edge_ids(self.remaining()));
            none
        }
    }

    /// How many edges are still to come, at least and at most: any of them may have another label.
    pub fn size_hint(&self) -> (r: (usize, Option<usize>))
        requires
            self.well_formed(),
        ensures
            r.0 == 0,
            r.1 == Some(self.walk.most()),
    {
        let most: usize = self.walk.guard.capacity_hint().saturating_sub(self.walk.index());
        (0, Some(most))
    }
}

/// The bounds on how many edges are still to come hold.
pub proof fn law_size_hint_is_sound(walk: EdgeWalk)
    requires
        walk.well_formed(),
        walk.guard.frozen@.len() + walk.guard.delta@.len() <= usize::MAX,
    ensures
        walk.label is None ==> walk.least() <= walk.remaining().len(),
        walk.remaining().len() <= walk.most(),
{
    let frozen = walk.guard.frozen@.skip(walk.frozen_index as int);
    let delta = walk.guard.delta@.skip(walk.delta_index as int);
    lemma_kept_members(frozen, walk.guard.tombstones@, walk.label);
    lemma_kept_members(delta, walk.guard.hidden(), walk.label);
    if walk.guard.fast() && walk.label is None {
        assert forall|i: int| 0 <= i < frozen.len() implies !walk.guard.tombstones@.contains(
            (#[trigger] frozen[i]).edge_id.0,
        ) by {
            assert(walk.guard.tombstones@ =~= Set::empty());
        }
        lemma_kept_all(frozen, walk.guard.tombstones@);
    }
}

/// Where all edges are frozen and alive, the length of a walk is how many edges are still to come.
pub proof fn law_len_is_exact_when_frozen(walk: EdgeWalk)
    requires
        walk.well_formed(),
        walk.label is None,
        walk.guard.fast(),
        walk.guard.frozen@.len() <= usize::MAX,
    ensures
        walk.spec_len() == walk.remaining().len(),
{
    let frozen = walk.guard.frozen@.skip(walk.frozen_index as int);
    assert forall|i: int| 0 <= i < walk.guard.frozen@.len() implies !walk.guard.tombstones@.contains(
        (#[trigger] walk.guard.frozen@[i]).edge_id.0,
    ) by {
        assert(walk.guard.tombstones@ =~= Set::empty());
    }
    assert forall|i: int| 0 <= i < frozen.len() implies !walk.guard.tombstones@.contains(
        (#[trigger] frozen[i]).edge_id.0,
    ) by {
        assert(walk.guard.tombstones@ =~= Set::empty());
    }
    lemma_kept_all(walk.guard.frozen@, walk.guard.tombstones@);
    lemma_kept_all(frozen, walk.guard.tombstones@);
    assert(walk.guard.delta@.skip(walk.delta_index as int).len() == 0);
}

/// An edge is listed exactly if it is in one of the two layers and not dead. While the delta is
/// being frozen, an edge that is in both is listed once.
pub proof fn law_each_edge_is_listed_once(guard: MergedAdjacencyGuard, id: u64)
    ensures
        has_edge(guard.listing(None), id) <==> !guard.tombstones@.contains(id) && (has_edge(
            guard.frozen@,
            id,
        ) || has_edge(guard.delta@, id)),
        guard.publishing && distinct(guard.frozen@) && distinct(guard.delta@) ==> distinct(
            guard.listing(None),
        ),
{
    let a = kept(guard.frozen@, guard.tombstones@, None);
    let b = kept(guard.delta@, guard.hidden(), None);
    let all = guard.listing(None);
    lemma_kept_members(guard.frozen@, guard.tombstones@, None);
    lemma_kept_members(guard.delta@, guard.hidden(), None);
    if has_edge(all, id) {
        let i = choose|i: int| 0 <= i < all.len() && (#[trigger] all[i]).edge_id.0 == id;
        if i < a.len() {
            super::entries::law_edge_is_kept_iff(guard.frozen@, guard.tombstones@, None, a[i]);
            assert(a.contains(a[i]));
            let j = choose|j: int| 0 <= j < guard.frozen@.len() && guard.frozen@[j] == a[i];
            assert(guard.frozen@[j].edge_id.0 == id);
        } else {
            let e = b[i - a.len()];
            super::entries::law_edge_is_kept_iff(guard.delta@, guard.hidden(), None, e);
            assert(b.contains(e));
            let j = choose|j: int| 0 <= j < guard.delta@.len() && guard.delta@[j] == e;
            assert(guard.delta@[j].edge_id.0 == id);
        }
    }
    if !guard.tombstones@.contains(id) && has_edge(guard.frozen@, id) {
        let j = choose|j: int| 0 <= j < guard.frozen@.len() && (#[trigger] guard.frozen@[j]).edge_id.0 == id;
        let e = guard.frozen@[j];
        super::entries::law_edge_is_kept_iff(guard.frozen@, guard.tombstones@, None, e);
        assert(guard.frozen@.contains(e));
        let i = choose|i: int| 0 <= i < a.len() && a[i] == e;
        assert(all[i] == e);
    } else if !guard.tombstones@.contains(id) && has_edge(guard.delta@, id) {
        let j = choose|j: int| 0 <= j < guard.delta@.len() && (#[trigger] guard.delta@[j]).edge_id.0 == id;
        let e = guard.delta@[j];
        super::entries::law_edge_is_kept_iff(guard.delta@, guard.hidden(), None, e);
        assert(guard.delta@.contains(e));
        let i = choose|i: int| 0 <= i < b.len() && b[i] == e;
        assert(all[a.len() + i] == e);
    }
    if guard.publishing && distinct(guard.frozen@) && distinct(guard.delta@) {
        assert forall|i: int, j: int| 0 <= i < j < all.len() implies (#[trigger] all[i]).edge_id.0 != (
        #[trigger] all[j]).edge_id.0 by {
            if j < a.len() {
                assert(a[i].edge_id.0 != a[j].edge_id.0);
            } else if i >= a.len() {
                assert(b[i - a.len()].edge_id.0 != b[j - a.len()].edge_id.0);
            } else {
                super::entries::law_edge_is_kept_iff(guard.frozen@, guard.tombstones@, None, a[i]);
                assert(a.contains(a[i]));
                let x = choose|x: int| 0 <= x < guard.frozen@.len() && guard.frozen@[x] == a[i];
                assert(has_edge(guard.frozen@, a[i].edge_id.0));
                let e = b[j - a.len()];
                super::entries::law_edge_is_kept_iff(guard.delta@, guard.hidden(), None, e);
                assert(b.contains(e));
            }
        }
    }
}

/// A walk that has passed nothing has all edges to come, with the label that it goes by.
pub proof fn law_walk_begins_with_all(walk: EdgeWalk)
    requires
        walk.frozen_index == 0,
        walk.delta_index == 0,
    ensures
        walk.remaining() == walk.guard.listing(walk.label),
        walk.passed() == 0,
{
    assert(walk.guard.frozen@.skip(0) =~= walk.guard.frozen@);
    assert(walk.guard.delta@.skip(0) =~= walk.guard.delta@);
}

/// What lies beyond what was passed is the rest, and nothing once all was passed.
pub proof fn law_beyond_is_the_rest(total: usize, passed: usize)
    ensures
        passed <= total ==> EdgeWalk::beyond(total as nat, passed) == total - passed,
        passed >= total ==> EdgeWalk::beyond(total as nat, passed) == 0,
{
}

/// The edges with a label are those of all edges that have it.
pub proof fn law_labelled_listing(guard: MergedAdjacencyGuard, label: InternedString, e: AdjacencyEntry)
    ensures
        guard.listing(Some(label)).contains(e) <==> guard.listing(None).contains(e) && e.label == label,
{
    let (a, b) = (
        kept(guard.frozen@, guard.tombstones@, Some(label)),
        kept(guard.delta@, guard.hidden(), Some(label)),
    );
    let (c, d) = (
        kept(guard.frozen@, guard.tombstones@, None),
        kept(guard.delta@, guard.hidden(), None),
    );
    super::entries::law_edge_is_kept_iff(guard.frozen@, guard.tombstones@, Some(label), e);
    super::entries::law_edge_is_kept_iff(guard.delta@, guard.hidden(), Some(label), e);
    super::entries::law_edge_is_kept_iff(guard.frozen@, guard.tombstones@, None, e);
    super::entries::law_edge_is_kept_iff(guard.delta@, guard.hidden(), None, e);
    lemma_in_either(a, b, e);
    lemma_in_either(c, d, e);
}

proof fn lemma_in_either(a: Seq<AdjacencyEntry>, b: Seq<AdjacencyEntry>, e: AdjacencyEntry)
    ensures
        (a + b).contains(e) <==> a.contains(e) || b.contains(e),
{
    let all = a + b;
    if all.contains(e) {
        let i = choose|i: int| 0 <= i < all.len() && all[i] == e;
        if i < a.len() {
            assert(a[i] == e);
        } else {
            assert(b[i - a.len()] == e);
        }
    }
    if a.contains(e) {
        let i = choose|i: int| 0 <= i < a.len() && a[i] == e;
        assert(all[i] == e);
    }
    if b.contains(e) {
        let i = choose|i: int| 0 <= i < b.len() && b[i] == e;
        assert(all[a.len() + i] == e);
    }
}

} // verus!

//! Edges, seen from one of their ends, in lists from which dead edges are left out.

use crate::ids::{EdgeId, InternedString, NodeId};
use vstd::prelude::*;

verus! {

/// An edge, seen from one of its ends.
#[derive(Clone, Copy, Debug, PartialEq, Eq, Structural)]
pub struct AdjacencyEntry {
    /// The edge.
    pub edge_id: EdgeId,
    /// Its other end.
    pub target: NodeId,
    /// Its type.
    pub label: InternedString,
}

/// The entries whose edges are not dead and, where a label is asked for, have that label.
pub open spec fn kept(
    s: Seq<AdjacencyEntry>,
    dead: Set<u64>,
    label: Option<InternedString>,
) -> Seq<AdjacencyEntry>
    decreases s.len(),
{
    if s.len() == 0 {
        Seq::empty()
    } else if passes(s.last(), dead, label) {
        kept(s.drop_last(), dead, label).push(s.last())
    } else {
        kept(s.drop_last(), dead, label)
    }
}

/// The edge is not dead and, where a label is asked for, has that label.
pub open spec fn passes(
    entry: AdjacencyEntry,
    dead: Set<u64>,
    label: Option<InternedString>,
) -> bool {
    &&& !dead.contains(entry.edge_id.0)
    &&& label is Some ==> entry.label == label->Some_0
}

/// The sequence holds an entry of the edge.
pub open spec fn has_edge(s: Seq<AdjacencyEntry>, id: u64) -> bool {
    exists|i: int| 0 <= i < s.len() && (#[trigger] s[i]).edge_id.0 == id
}

/// The edges of a sequence.
pub open spec fn edge_set(s: Seq<AdjacencyEntry>) -> Set<u64> {
    Set::new(|id: u64| has_edge(s, id))
}

/// The edges of a sequence, in order.
pub open spec fn edge_ids(s: Seq<AdjacencyEntry>) -> Seq<EdgeId> {
    Seq::new(s.len(), |i: int| s[i].edge_id)
}

/// The other ends of a sequence's edges, in order.
pub open spec fn ends(s: Seq<AdjacencyEntry>) -> Seq<NodeId> {
    Seq::new(s.len(), |i: int| s[i].target)
}

/// No edge occurs twice.
pub open spec fn distinct(s: Seq<AdjacencyEntry>) -> bool {
    forall|i: int, j: int|
        0 <= i < j < s.len() ==> (#[trigger] s[i]).edge_id.0 != (#[trigger] s[j]).edge_id.0
}

/// What is kept of two sequences in a row.
pub proof fn lemma_kept_append(
    s: Seq<AdjacencyEntry>,
    t: Seq<AdjacencyEntry>,
    dead: Set<u64>,
    label: Option<InternedString>,
)
    ensures
        kept(s + t, dead, label) == kept(s, dead, label) + kept(t, dead, label),
    decreases t.len(),
{
    if t.len() == 0 {
        assert(s + t =~= s);
        assert(kept(s, dead, label) + kept(t, dead, label) =~= kept(s, dead, label));
    } else {
        lemma_kept_append(s, t.drop_last(), dead, label);
        assert((s + t).drop_last() =~= s + t.drop_last());
        assert((s + t).last() == t.last());
        assert(kept(s + t, dead, label) =~= kept(s, dead, label) + kept(t, dead, label));
    }
}

/// What is kept of a sequence from some place on.
pub proof fn lemma_kept_skip(
    s: Seq<AdjacencyEntry>,
    i: int,
    dead: Set<u64>,
    label: Option<InternedString>,
)
    requires
        0 <= i < s.len(),
    ensures
        kept(s.skip(i), dead, label) == (if passes(s[i], dead, label) {
            seq![s[i]] + kept(s.skip(i + 1), dead, label)
        } else {
            kept(s.skip(i + 1), dead, label)
        }),
{
    assert(s.skip(i) =~= seq![s[i]] + s.skip(i + 1));
    lemma_kept_append(seq![s[i]], s.skip(i + 1), dead, label);
    let one = seq![s[i]];
    assert(one.drop_last() =~= Seq::<AdjacencyEntry>::empty());
    assert(one.last() == s[i]);
    assert(kept(one.drop_last(), dead, label).len() == 0);
    if passes(s[i], dead, label) {
        assert(kept(one, dead, label) =~= one);
    } else {
        assert(kept(one, dead, label) =~= Seq::<AdjacencyEntry>::empty());
        assert(kept(s.skip(i), dead, label) =~= kept(s.skip(i + 1), dead, label));
    }
}

/// What is kept are the entries that pass.
pub proof fn lemma_kept_members(
    s: Seq<AdjacencyEntry>,
    dead: Set<u64>,
    label: Option<InternedString>,
)
    ensures
        forall|e: AdjacencyEntry| #[trigger]
            kept(s, dead, label).contains(e) <==> s.contains(e) && passes(e, dead, label),
        kept(s, dead, label).len() <= s.len(),
        distinct(s) ==> distinct(kept(s, dead, label)),
    decreases s.len(),
{
    if s.len() > 0 {
        let shorter = s.drop_last();
        let k = kept(s, dead, label);
        let before = kept(shorter, dead, label);
        lemma_kept_members(shorter, dead, label);
        assert forall|e: AdjacencyEntry| #[trigger] k.contains(e) <==> s.contains(e) && passes(
            e,
            dead,
            label,
        ) by {
            assert(s.contains(e) <==> shorter.contains(e) || e == s.last()) by {
                if s.contains(e) {
                    let i = choose|i: int| 0 <= i < s.len() && s[i] == e;
                    if i < shorter.len() {
                        assert(shorter[i] == e);
                    }
                }
                if shorter.contains(e) {
                    let i = choose|i: int| 0 <= i < shorter.len() && shorter[i] == e;
                    assert(s[i] == e);
                }
                assert(s[s.len() - 1] == s.last());
            }
            assert(before.contains(e) <==> shorter.contains(e) && passes(e, dead, label));
            if passes(s.last(), dead, label) {
                assert(k == before.push(s.last()));
                assert(k.contains(e) <==> before.contains(e) || e == s.last()) by {
                    if before.contains(e) {
                        let i = choose|i: int| 0 <= i < before.len() && before[i] == e;
                        assert(k[i] == e);
                    }
                    assert(k[before.len() as int] == s.last());
                    if k.contains(e) {
                        let i = choose|i: int| 0 <= i < k.len() && k[i] == e;
                        if i < before.len() {
                            assert(before[i] == e);
                        }
                    }
                }
            } else {
                assert(k == before);
            }
        }
        if distinct(s) {
            assert(distinct(shorter)) by {
                assert forall|i: int, j: int| 0 <= i < j < shorter.len() implies (
                #[trigger] shorter[i]).edge_id.0 != (#[trigger] shorter[j]).edge_id.0 by {
                    assert(s[i].edge_id.0 != s[j].edge_id.0);
                }
            }
            if passes(s.last(), dead, label) {
                assert forall|i: int, j: int| 0 <= i < j < k.len() implies (
                #[trigger] k[i]).edge_id.0 != (#[trigger] k[j]).edge_id.0 by {
                    if j < before.len() {
                        assert(before[i].edge_id.0 != before[j].edge_id.0);
                    } else {
                        assert(before.contains(before[i]));
                        let m = choose|m: int| 0 <= m < shorter.len() && shorter[m] == before[i];
                        assert(s[m].edge_id.0 != s[s.len() - 1].edge_id.0);
                    }
                }
            }
        }
    }
}

/// One more dead edge is one more that is not kept.
pub proof fn lemma_kept_bury(s: Seq<AdjacencyEntry>, dead: Set<u64>, id: u64)
    ensures
        kept(s, dead.insert(id), None) == kept(kept(s, dead, None), Set::empty().insert(id), None),
    decreases s.len(),
{
    if s.len() > 0 {
        let shorter = s.drop_last();
        lemma_kept_bury(shorter, dead, id);
        let inner = kept(s, dead, None);
        if passes(s.last(), dead, None) {
            assert(inner.drop_last() =~= kept(shorter, dead, None));
            assert(inner.last() == s.last());
        }
    }
}

/// Dead edges can be left out first, and those without the label then.
pub proof fn lemma_kept_label(
    s: Seq<AdjacencyEntry>,
    dead: Set<u64>,
    label: Option<InternedString>,
)
    ensures
        kept(s, dead, label) == kept(kept(s, dead, None), Set::empty(), label),
    decreases s.len(),
{
    if s.len() > 0 {
        let shorter = s.drop_last();
        lemma_kept_label(shorter, dead, label);
        let inner = kept(s, dead, None);
        if passes(s.last(), dead, None) {
            assert(inner.drop_last() =~= kept(shorter, dead, None));
            assert(inner.last() == s.last());
        }
    }
}

/// Where nothing is dead and no label is asked for, everything is kept.
pub proof fn lemma_kept_all(s: Seq<AdjacencyEntry>, dead: Set<u64>)
    requires
        forall|i: int| 0 <= i < s.len() ==> !dead.contains((#[trigger] s[i]).edge_id.0),
    ensures
        kept(s, dead, None) == s,
    decreases s.len(),
{
    if s.len() > 0 {
        let shorter = s.drop_last();
        assert forall|i: int| 0 <= i < shorter.len() implies !dead.contains(
            (#[trigger] shorter[i]).edge_id.0,
        ) by {
            assert(s[i] == shorter[i]);
        }
        lemma_kept_all(shorter, dead);
        assert(s[s.len() - 1] == s.last());
        assert(shorter.push(s.last()) =~= s);
    }
}

/// Where an edge occurs once, leaving it out is taking it out of its place.
pub proof fn lemma_kept_remove(s: Seq<AdjacencyEntry>, i: int)
    requires
        distinct(s),
        0 <= i < s.len(),
    ensures
        kept(s, Set::empty().insert(s[i].edge_id.0), None) == s.remove(i),
{
    let dead = Set::<u64>::empty().insert(s[i].edge_id.0);
    let before = s.take(i);
    let after = s.skip(i + 1);
    assert(s =~= before + s.skip(i));
    lemma_kept_append(before, s.skip(i), dead, None);
    lemma_kept_skip(s, i, dead, None);
    assert forall|j: int| 0 <= j < before.len() implies !dead.contains(
        (#[trigger] before[j]).edge_id.0,
    ) by {
        assert(s[j].edge_id.0 != s[i].edge_id.0);
    }
    assert forall|j: int| 0 <= j < after.len() implies !dead.contains(
        (#[trigger] after[j]).edge_id.0,
    ) by {
        assert(after[j] == s[i + 1 + j]);
        assert(s[i].edge_id.0 != s[i + 1 + j].edge_id.0);
    }
    lemma_kept_all(before, dead);
    lemma_kept_all(after, dead);
    assert(s.remove(i) =~= before + after);
}

/// What is kept of a list are the entries of edges that are not dead and, where a label is asked
/// for, have that label, in their order.
pub proof fn law_kept_entries(
    s: Seq<AdjacencyEntry>,
    dead: Set<u64>,
    label: Option<InternedString>,
)
    ensures
        kept(s, dead, label) == s.filter(
            |e: AdjacencyEntry|
                !dead.contains(e.edge_id.0) && (label matches Some(l) ==> e.label == l),
        ),
    decreases s.len(),
{
    reveal(Seq::filter);
    if s.len() > 0 {
        law_kept_entries(s.drop_last(), dead, label);
    } else {
        assert(kept(s, dead, label) =~= s);
    }
}

/// An edge is kept exactly if it is in the list, is not dead and, where a label is asked for, is
/// listed with that label.
pub proof fn law_edge_is_kept_iff(
    s: Seq<AdjacencyEntry>,
    dead: Set<u64>,
    label: Option<InternedString>,
    e: AdjacencyEntry,
)
    ensures
        kept(s, dead, label).contains(e) <==> s.contains(e) && !dead.contains(e.edge_id.0) && (
        label matches Some(l) ==> e.label == l),
{
    lemma_kept_members(s, dead, label);
}

} // verus!

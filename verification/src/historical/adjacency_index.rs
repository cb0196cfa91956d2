//! An index of edges by their ends and by when they hold and are known.

use crate::ids::{EdgeId, InternedString, NodeId};
use crate::temporal::{BiTemporalInterval, TimeRange, Timestamp};
use crate::version::EdgeEnds;
use vstd::prelude::*;

verus! {

/// One version of an edge, as the index knows it.
#[derive(Clone, Copy, Debug, PartialEq, Eq, Structural)]
pub struct AdjacencyRecord {
    /// The edge.
    pub edge: EdgeId,
    /// Its ends.
    pub ends: EdgeEnds,
    /// Its type.
    pub label: InternedString,
    /// When the version holds and is known.
    pub interval: BiTemporalInterval,
}

/// Versions of edges in the order in which they were recorded.
pub struct TemporalAdjacencyIndex {
    /// The recorded versions.
    pub records: Vec<AdjacencyRecord>,
}

/// A record after the transaction time of the edge was closed: an open record of that edge
/// between those ends ends there.
pub open spec fn record_closed(
    r: AdjacencyRecord,
    edge: EdgeId,
    ends: EdgeEnds,
    end: Timestamp,
) -> AdjacencyRecord {
    if r.edge == edge && r.ends == ends && r.interval.transaction_time.open_ended() {
        AdjacencyRecord { interval: r.interval.with_tx_end(end), ..r }
    } else {
        r
    }
}

/// All records after the transaction time of an edge was closed.
pub open spec fn records_closed(
    s: Seq<AdjacencyRecord>,
    edge: EdgeId,
    ends: EdgeEnds,
    end: Timestamp,
) -> Seq<AdjacencyRecord> {
    s.map_values(|r: AdjacencyRecord| record_closed(r, edge, ends, end))
}

/// The edges of those records that touch the node, on the given side, and are visible at the
/// point.
pub open spec fn edges_at(
    s: Seq<AdjacencyRecord>,
    node: NodeId,
    outgoing: bool,
    valid_time: Timestamp,
    transaction_time: Timestamp,
) -> Seq<EdgeId>
    decreases s.len(),
{
    if s.len() == 0 {
        Seq::empty()
    } else {
        let before = edges_at(s.drop_last(), node, outgoing, valid_time, transaction_time);
        let r = s.last();
        let at_node = if outgoing {
            r.ends.source == node
        } else {
            r.ends.target == node
        };
        if at_node && r.interval.visible(valid_time, transaction_time) {
            before.push(r.edge)
        } else {
            before
        }
    }
}

impl TemporalAdjacencyIndex {
    /// An index of nothing.
    pub fn new() -> (r: TemporalAdjacencyIndex)
        ensures
            r.records@ == Seq::<AdjacencyRecord>::empty(),
    {
        TemporalAdjacencyIndex { records: Vec::new() }
    }

    /// Records a version of an edge.
    pub fn insert_edge(
        &mut self,
        edge: EdgeId,
        ends: EdgeEnds,
        label: InternedString,
        interval: BiTemporalInterval,
    )
        ensures
            final(self).records@ == old(self).records@.push(
                AdjacencyRecord { edge, ends, label, interval },
            ),
    {
        self.records.push(AdjacencyRecord { edge, ends, label, interval });
    }

    /// Closes the transaction time of the open records of an edge between two ends.
    pub fn close_edge_transaction_time(&mut self, edge: EdgeId, ends: EdgeEnds, end: Timestamp)
        ensures
            final(self).records@ == records_closed(old(self).records@, edge, ends, end),
    {
        let ghost before = self.records@;
        let mut i: usize = 0;
        while i < self.records.len()
            invariant
                i <= self.records.len(),
                self.records@.len() == before.len(),
                forall|j: int|
                    0 <= j < i ==> self.records@[j] == record_closed(
                        #[trigger] before[j],
                        edge,
                        ends,
                        end,
                    ),
                forall|j: int| i <= j < before.len() ==> self.records@[j] == before[j],
            decreases self.records.len() - i,
        {
            let r: AdjacencyRecord = self.records[i];
            if r.edge == edge && r.ends == ends && r.interval.transaction_time.is_current() {
                let transaction_time = TimeRange {
                    start: r.interval.transaction_time.start,
                    end,
                };
                let interval = BiTemporalInterval {
                    valid_time: r.interval.valid_time,
                    transaction_time,
                };
                self.records.set(
                    i,
                    AdjacencyRecord { edge: r.edge, ends: r.ends, label: r.label, interval },
                );
            }
            i = i + 1;
        }
        assert(self.records@ =~= records_closed(before, edge, ends, end));
    }

    fn collect_at(
        &self,
        node: NodeId,
        outgoing: bool,
        valid_time: Timestamp,
        transaction_time: Timestamp,
    ) -> (r: Vec<EdgeId>)
        ensures
            r@ == edges_at(self.records@, node, outgoing, valid_time, transaction_time),
    {
        let mut out: Vec<EdgeId> = Vec::new();
        let mut i: usize = 0;
        while i < self.records.len()
            invariant
                i <= self.records.len(),
                out@ == edges_at(
                    self.records@.take(i as int),
                    node,
                    outgoing,
                    valid_time,
                    transaction_time,
                ),
            decreases self.records.len() - i,
        {
            let r: AdjacencyRecord = self.records[i];
            assert(self.records@.take(i + 1).drop_last() =~= self.records@.take(i as int));
            assert(self.records@.take(i + 1).last() == r);
            let at_node = if outgoing {
                r.ends.source == node
            } else {
                r.ends.target == node
            };
            if at_node && r.interval.is_visible_at(valid_time, transaction_time) {
                out.push(r.edge);
            }
            i = i + 1;
        }
        assert(self.records@.take(i as int) =~= self.records@);
        out
    }

    /// The edges that start at the node and are visible at the point.
    pub fn get_outgoing_at_time(
        &self,
        source: NodeId,
        valid_time: Timestamp,
        transaction_time: Timestamp,
    ) -> (r: Vec<EdgeId>)
        ensures
            r@ == edges_at(self.records@, source, true, valid_time, transaction_time),
    {
        self.collect_at(source, true, valid_time, transaction_time)
    }

    /// The edges that end at the node and are visible at the point.
    pub fn get_incoming_at_time(
        &self,
        target: NodeId,
        valid_time: Timestamp,
        transaction_time: Timestamp,
    ) -> (r: Vec<EdgeId>)
        ensures
            r@ == edges_at(self.records@, target, false, valid_time, transaction_time),
    {
        self.collect_at(target, false, valid_time, transaction_time)
    }
}

/// The edges listed at a node are those of the records that have the node on that side, hold at the
/// valid time and are known at the transaction time: one for each such record, in their order.
pub proof fn law_listed_edges_are_recorded(
    s: Seq<AdjacencyRecord>,
    node: NodeId,
    outgoing: bool,
    valid_time: Timestamp,
    transaction_time: Timestamp,
)
    ensures
        edges_at(s, node, outgoing, valid_time, transaction_time) == s.filter(
            |r: AdjacencyRecord|
                {
                    &&& outgoing ==> r.ends.source == node
                    &&& !outgoing ==> r.ends.target == node
                    &&& r.interval.valid_time.start.key() <= valid_time.key()
                    &&& valid_time.key() < r.interval.valid_time.end.key()
                    &&& r.interval.transaction_time.start.key() <= transaction_time.key()
                    &&& transaction_time.key() < r.interval.transaction_time.end.key()
                },
        ).map_values(|r: AdjacencyRecord| r.edge),
    decreases s.len(),
{
    reveal(Seq::filter);
    let pick = |r: AdjacencyRecord|
        {
            &&& outgoing ==> r.ends.source == node
            &&& !outgoing ==> r.ends.target == node
            &&& r.interval.valid_time.start.key() <= valid_time.key()
            &&& valid_time.key() < r.interval.valid_time.end.key()
            &&& r.interval.transaction_time.start.key() <= transaction_time.key()
            &&& transaction_time.key() < r.interval.transaction_time.end.key()
        };
    let tell = |r: AdjacencyRecord| r.edge;
    if s.len() == 0 {
        assert(s.filter(pick).map_values(tell) =~= Seq::<EdgeId>::empty());
    } else {
        law_listed_edges_are_recorded(s.drop_last(), node, outgoing, valid_time, transaction_time);
        let before = s.drop_last().filter(pick);
        if pick(s.last()) {
            assert(before.push(s.last()).map_values(tell) =~= before.map_values(tell).push(
                s.last().edge,
            ));
        }
    }
}

/// An edge is listed at a node, on a side, exactly if some record of that edge has the node on that
/// side, holds at the valid time and is known at the transaction time.
pub proof fn law_edge_listed_iff_recorded(
    s: Seq<AdjacencyRecord>,
    node: NodeId,
    outgoing: bool,
    valid_time: Timestamp,
    transaction_time: Timestamp,
    edge: EdgeId,
)
    ensures
        edges_at(s, node, outgoing, valid_time, transaction_time).contains(edge) <==> exists|i: int|
            {
                &&& 0 <= i < s.len()
                &&& (#[trigger] s[i]).edge == edge
                &&& if outgoing {
                    s[i].ends.source == node
                } else {
                    s[i].ends.target == node
                }
                &&& s[i].interval.valid_time.start.key() <= valid_time.key()
                &&& valid_time.key() < s[i].interval.valid_time.end.key()
                &&& s[i].interval.transaction_time.start.key() <= transaction_time.key()
                &&& transaction_time.key() < s[i].interval.transaction_time.end.key()
            },
    decreases s.len(),
{
    let all = edges_at(s, node, outgoing, valid_time, transaction_time);
    if s.len() > 0 {
        let shorter = s.drop_last();
        let before = edges_at(shorter, node, outgoing, valid_time, transaction_time);
        law_edge_listed_iff_recorded(shorter, node, outgoing, valid_time, transaction_time, edge);
        assert(s[s.len() - 1] == s.last());
        assert forall|i: int| 0 <= i < shorter.len() implies shorter[i] == #[trigger] s[i] by {}
        if all.contains(edge) {
            let k = choose|k: int| 0 <= k < all.len() && all[k] == edge;
            if k < before.len() {
                assert(before[k] == edge);
                assert(before.contains(edge));
            }
        }
        if before.contains(edge) {
            let k = choose|k: int| 0 <= k < before.len() && before[k] == edge;
            assert(all[k] == edge);
        }
        if all.len() > before.len() {
            assert(all[before.len() as int] == s.last().edge);
        }
    }
}

/// An edge whose records all have the same ends leaves its source exactly when it reaches its
/// target.
pub proof fn law_both_sides_list_alike(
    s: Seq<AdjacencyRecord>,
    edge: EdgeId,
    ends: EdgeEnds,
    valid_time: Timestamp,
    transaction_time: Timestamp,
)
    requires
        forall|i: int| 0 <= i < s.len() && (#[trigger] s[i]).edge == edge ==> s[i].ends == ends,
    ensures
        edges_at(s, ends.source, true, valid_time, transaction_time).contains(edge) <==> edges_at(
            s,
            ends.target,
            false,
            valid_time,
            transaction_time,
        ).contains(edge),
{
    law_edge_listed_iff_recorded(s, ends.source, true, valid_time, transaction_time, edge);
    law_edge_listed_iff_recorded(s, ends.target, false, valid_time, transaction_time, edge);
}

/// Once the transaction time of an edge was closed at a moment, no record of it that was still open
/// is known from that moment on; everything else that is known stays so, and what was known before
/// that moment is known before it still.
pub proof fn law_closing_ends_open_records(
    s: Seq<AdjacencyRecord>,
    edge: EdgeId,
    ends: EdgeEnds,
    end: Timestamp,
    i: int,
    transaction_time: Timestamp,
)
    requires
        0 <= i < s.len(),
        end != crate::temporal::HybridTimestamp::spec_max(),
    ensures
        ({
            let before = s[i];
            let after = records_closed(s, edge, ends, end)[i];
            let was_known = before.interval.transaction_time.start.key() <= transaction_time.key()
                && transaction_time.key() < before.interval.transaction_time.end.key();
            let is_known = after.interval.transaction_time.start.key() <= transaction_time.key()
                && transaction_time.key() < after.interval.transaction_time.end.key();
            let open = before.edge == edge && before.ends == ends
                && before.interval.transaction_time.end
                == crate::temporal::HybridTimestamp::spec_max();
            &&& records_closed(s, edge, ends, end).len() == s.len()
            &&& after.edge == before.edge && after.ends == before.ends && after.label == before.label
            &&& after.interval.valid_time == before.interval.valid_time
            &&& is_known <==> was_known && (open ==> transaction_time.key() < end.key())
        }),
{
    crate::temporal::lemma_timestamp_order(end, crate::temporal::HybridTimestamp::spec_max());
}

} // verus!

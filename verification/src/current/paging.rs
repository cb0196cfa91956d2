//! Going through all nodes page by page, by ascending number.

use super::storage::CurrentStorage;
use crate::ids::{InternedString, NodeId, MAX_VALID_ID};
use crate::maps::{keys_of, lemma_take_contains};
use vstd::prelude::*;

verus! {

broadcast use vstd::std_specs::hash::group_hash_axioms;

/// The number comes after the last one of the page before.
pub open spec fn comes_after(after: Option<u64>, k: u64) -> bool {
    after is Some ==> k > after->Some_0
}

/// The page holds the smallest numbers that come after the page before, in ascending order: no
/// more than `limit`, and all of them if there are no more than that.
pub open spec fn is_page(
    live: Set<u64>,
    after: Option<u64>,
    limit: usize,
    page: Seq<u64>,
) -> bool {
    &&& page.len() <= limit
    &&& forall|i: int, j: int| 0 <= i < j < page.len() ==> (#[trigger] page[i]) < (#[trigger] page[j])
    &&& forall|i: int|
        0 <= i < page.len() ==> live.contains(#[trigger] page[i]) && comes_after(after, page[i])
    &&& forall|k: u64| #[trigger]
        live.contains(k) && comes_after(after, k) && !page.contains(k) ==> page.len() == limit
            && forall|i: int| 0 <= i < page.len() ==> (#[trigger] page[i]) < k
}

/// The numbers of a page that nodes can have.
pub open spec fn as_ids(page: Seq<u64>) -> Seq<NodeId>
    decreases page.len(),
{
    if page.len() == 0 {
        Seq::empty()
    } else if page.last() <= MAX_VALID_ID {
        as_ids(page.drop_last()).push(NodeId(page.last()))
    } else {
        as_ids(page.drop_last())
    }
}

/// Where every number is one that nodes can have, a page gives all of its numbers.
pub proof fn law_valid_page_is_whole(page: Seq<u64>)
    requires
        forall|i: int| 0 <= i < page.len() ==> (#[trigger] page[i]) <= MAX_VALID_ID,
    ensures
        as_ids(page).len() == page.len(),
        forall|i: int| 0 <= i < page.len() ==> (#[trigger] as_ids(page)[i]) == NodeId(page[i]),
    decreases page.len(),
{
    if page.len() > 0 {
        let shorter = page.drop_last();
        assert forall|i: int| 0 <= i < shorter.len() implies (#[trigger] shorter[i])
            <= MAX_VALID_ID by {
            assert(page[i] <= MAX_VALID_ID);
        }
        law_valid_page_is_whole(shorter);
        assert(page[page.len() - 1] == page.last());
        assert forall|i: int| 0 <= i < page.len() implies (#[trigger] as_ids(page)[i]) == NodeId(
            page[i],
        ) by {
            if i < shorter.len() {
                assert(as_ids(shorter)[i] == NodeId(shorter[i]));
            }
        }
    }
}

/// No number is passed over: up to its last number, a page holds every number that comes after the
/// page before.
pub proof fn law_pages_have_no_gaps(
    live: Set<u64>,
    after: Option<u64>,
    limit: usize,
    page: Seq<u64>,
    k: u64,
)
    requires
        is_page(live, after, limit, page),
        live.contains(k),
        comes_after(after, k),
        page.len() == 0 ==> limit > 0,
        page.len() > 0 ==> k <= page.last(),
    ensures
        page.contains(k),
{
    if !page.contains(k) {
        assert(page.len() == limit);
        if page.len() > 0 {
            assert(page[page.len() - 1] < k);
        }
    }
}

/// A page that is not full is the last one.
pub proof fn law_short_page_is_last(
    live: Set<u64>,
    after: Option<u64>,
    limit: usize,
    page: Seq<u64>,
    next: Seq<u64>,
)
    requires
        is_page(live, after, limit, page),
        0 < page.len() < limit,
        is_page(live, Some(page.last()), limit, next),
    ensures
        next.len() == 0,
{
    if next.len() > 0 {
        let k = next[0];
        assert(live.contains(k));
        assert(page[page.len() - 1] == page.last());
        assert(comes_after(after, page[page.len() - 1]));
        assert(comes_after(after, k));
        if page.contains(k) {
            let i = choose|i: int| 0 <= i < page.len() && page[i] == k;
            if i < page.len() - 1 {
                assert(page[i] < page[page.len() - 1]);
            }
        }
    }
}

/// Pages do not overlap: every number of a page is above all numbers of the page before.
pub proof fn law_pages_do_not_overlap(
    live: Set<u64>,
    after: Option<u64>,
    limit: usize,
    page: Seq<u64>,
    next: Seq<u64>,
    i: int,
    j: int,
)
    requires
        is_page(live, after, limit, page),
        page.len() > 0,
        is_page(live, Some(page.last()), limit, next),
        0 <= i < page.len(),
        0 <= j < next.len(),
    ensures
        page[i] < next[j],
{
    assert(comes_after(Some(page.last()), next[j]));
    if i < page.len() - 1 {
        assert(page[i] < page[page.len() - 1]);
    }
}

/// There is only one such page.
pub proof fn law_page_is_unique(
    live: Set<u64>,
    after: Option<u64>,
    limit: usize,
    a: Seq<u64>,
    b: Seq<u64>,
)
    requires
        is_page(live, after, limit, a),
        is_page(live, after, limit, b),
    ensures
        a == b,
{
    lemma_page_prefix(live, after, limit, a, b, a.len() as int);
    lemma_page_prefix(live, after, limit, b, a, b.len() as int);
    assert(a =~= b);
}

/// Two such pages agree as far as the first one goes.
proof fn lemma_page_prefix(
    live: Set<u64>,
    after: Option<u64>,
    limit: usize,
    a: Seq<u64>,
    b: Seq<u64>,
    n: int,
)
    requires
        is_page(live, after, limit, a),
        is_page(live, after, limit, b),
        0 <= n <= a.len(),
    ensures
        n <= b.len(),
        forall|i: int| 0 <= i < n ==> (#[trigger] a[i]) == b[i],
    decreases n,
{
    if n > 0 {
        lemma_page_prefix(live, after, limit, a, b, n - 1);
        let x = a[n - 1];
        assert(live.contains(x) && comes_after(after, x));
        if n - 1 == b.len() {
            if b.contains(x) {
                let i = choose|i: int| 0 <= i < b.len() && b[i] == x;
                assert(a[i] == b[i]);
                assert(a[i] < a[n - 1]);
            }
            assert(b.len() == limit);
            assert(a.len() <= limit);
        } else {
            let y = b[n - 1];
            assert(live.contains(y) && comes_after(after, y));
            if x < y {
                if b.contains(x) {
                    let i = choose|i: int| 0 <= i < b.len() && b[i] == x;
                    if i < n - 1 {
                        assert(a[i] == b[i]);
                        assert(a[i] < a[n - 1]);
                    } else if i > n - 1 {
                        assert(b[n - 1] < b[i]);
                    }
                }
                assert(b[n - 1] < x);
            } else if y < x {
                if a.contains(y) {
                    let i = choose|i: int| 0 <= i < a.len() && a[i] == y;
                    if i < n - 1 {
                        assert(a[i] == b[i]);
                        assert(b[i] < b[n - 1]);
                    } else if i > n - 1 {
                        assert(a[n - 1] < a[i]);
                    }
                }
                assert(a[n - 1] < y);
            }
        }
    }
}

/// Takes one more number into account.
fn consider(page: &mut Vec<u64>, after: Option<u64>, limit: usize, value: u64, seen: Ghost<Set<u64>>)
    requires
        limit > 0,
        is_page(seen@, after, limit, old(page)@),
        !seen@.contains(value),
    ensures
        is_page(seen@.insert(value), after, limit, final(page)@),
{
    let ghost all = seen@.insert(value);
    let ghost start = page@;
    if let Some(a) = after {
        if value <= a {
            proof {
                assert forall|k: u64| #[trigger]
                    all.contains(k) && comes_after(after, k) && !page@.contains(k) implies page@.len()
                    == limit && forall|i: int| 0 <= i < page@.len() ==> (#[trigger] page@[i])
                    < k by {
                    assert(seen@.contains(k));
                }
            }
            return;
        }
    }
    assert(comes_after(after, value));
    if page.len() >= limit {
        if page[page.len() - 1] < value {
            proof {
                assert forall|k: u64| #[trigger]
                    all.contains(k) && comes_after(after, k) && !page@.contains(k) implies page@.len()
                    == limit && forall|i: int| 0 <= i < page@.len() ==> (#[trigger] page@[i])
                    < k by {
                    if k == value {
                        assert forall|i: int| 0 <= i < page@.len() implies (#[trigger] page@[i])
                            < k by {
                            if i < page@.len() - 1 {
                                assert(page@[i] < page@[page@.len() - 1]);
                            }
                        }
                    } else {
                        assert(seen@.contains(k));
                    }
                }
            }
            return;
        }
        assert(start[start.len() - 1] != value) by {
            assert(seen@.contains(start[start.len() - 1]));
        }
        page.pop();
    }
    let ghost kept = page@;
    let mut at: usize = 0;
    while at < page.len() && page[at] < value
        invariant
            at <= page.len(),
            page@ == kept,
            forall|i: int| 0 <= i < at ==> (#[trigger] page@[i]) < value,
        decreases page.len() - at,
    {
        at = at + 1;
    }
    page.insert(at, value);
    proof {
        assert forall|i: int| 0 <= i < kept.len() implies (#[trigger] kept[i]) == start[i] by {}
        assert(kept.len() <= start.len());
        let now = page@;
        assert forall|i: int| 0 <= i < kept.len() implies (#[trigger] kept[i]) != value by {
            assert(seen@.contains(start[i]));
        }
        assert forall|i: int| at <= i < kept.len() implies (#[trigger] kept[i]) > value by {
            if i > at {
                assert(start[at as int] < start[i]);
            }
        }
        assert forall|i: int, j: int| 0 <= i < j < now.len() implies (#[trigger] now[i]) < (
        #[trigger] now[j]) by {
            if j < at {
                assert(start[i] < start[j]);
            } else if j == at {
                assert(kept[i] < value);
            } else if i < at {
                assert(start[i] < start[j - 1]);
            } else if i == at {
                assert(kept[j - 1] > value);
            } else {
                assert(start[i - 1] < start[j - 1]);
            }
        }
        assert forall|i: int| 0 <= i < now.len() implies all.contains(#[trigger] now[i])
            && comes_after(after, now[i]) by {
            if i < at {
                assert(now[i] == start[i]);
            } else if i > at {
                assert(now[i] == start[i - 1]);
            }
        }
        assert forall|k: u64| #[trigger]
            all.contains(k) && comes_after(after, k) && !now.contains(k) implies now.len() == limit
            && forall|i: int| 0 <= i < now.len() ==> (#[trigger] now[i]) < k by {
            assert(now[at as int] == value);
            assert(k != value);
            assert(seen@.contains(k));
            if start.contains(k) {
                let i = choose|i: int| 0 <= i < start.len() && start[i] == k;
                if i < kept.len() {
                    if i < at {
                        assert(now[i] == k);
                    } else {
                        assert(now[i + 1] == k);
                    }
                }
                assert(i == start.len() - 1 && kept.len() == start.len() - 1);
                assert(start.len() == limit);
                assert forall|j: int| 0 <= j < now.len() implies (#[trigger] now[j]) < k by {
                    if j < at {
                        assert(start[j] < start[i]);
                    } else if j == at {
                        assert(value < k);
                    } else {
                        assert(start[j - 1] < start[i]);
                    }
                }
            } else {
                assert(start.len() == limit);
                assert(forall|i: int| 0 <= i < start.len() ==> (#[trigger] start[i]) < k);
                assert(start[start.len() - 1] < k);
                assert forall|j: int| 0 <= j < now.len() implies (#[trigger] now[j]) < k by {
                    if j < at {
                        assert(start[j] < k);
                    } else if j > at {
                        assert(start[j - 1] < k);
                    }
                }
            }
        }
    }
}

impl CurrentStorage {
    /// The numbers of the nodes with a label, or of all nodes.
    pub open spec fn live(self, label: Option<InternedString>) -> Set<u64> {
        Set::new(
            |k: u64|
                self.nodes().contains_key(k) && (label is Some ==> self.nodes()[k].label
                    == label->Some_0),
        )
    }

    /// One page of nodes.
    pub fn collect_node_id_page(
        &self,
        after: Option<u64>,
        limit: usize,
        label: Option<InternedString>,
    ) -> (r: Vec<NodeId>)
        ensures
            exists|page: Seq<u64>| #[trigger]
                is_page(self.live(label), after, limit, page) && r@ == as_ids(page),
    {
        self.collect_node_id_page_counted(after, limit, label).0
    }

    /// One page of nodes, and how many nodes were looked at to find it: all that have the label.
    pub fn collect_node_id_page_counted(
        &self,
        after: Option<u64>,
        limit: usize,
        label: Option<InternedString>,
    ) -> (r: (Vec<NodeId>, u64))
        ensures
            exists|page: Seq<u64>| #[trigger]
                is_page(self.live(label), after, limit, page) && r.0@ == as_ids(page),
            limit == 0 ==> r.1 == 0,
            limit > 0 ==> r.1 == self.live(label).len(),
    {
        if limit == 0 {
            let none: Vec<NodeId> = Vec::new();
            assert(is_page(self.live(label), after, limit, Seq::empty()));
            assert(none@ =~= as_ids(Seq::empty()));
            return (none, 0);
        }
        let keys = match label {
            Some(label_id) => self.labelled(label_id),
            None => keys_of(&self.indexes.nodes),
        };
        proof {
            assert forall|k: u64| #[trigger] self.live(label).contains(k) <==> keys@.contains(
                k,
            ) by {}
            assert(self.live(label) =~= keys@.to_set());
            keys@.unique_seq_to_set();
        }
        let mut page: Vec<u64> = Vec::new();
        let mut i: usize = 0;
        assert(keys@.take(0).to_set() =~= Set::empty());
        while i < keys.len()
            invariant
                i <= keys.len(),
                limit > 0,
                keys@.no_duplicates(),
                is_page(keys@.take(i as int).to_set(), after, limit, page@),
            decreases keys.len() - i,
        {
            let value: u64 = keys[i];
            let ghost seen = keys@.take(i as int).to_set();
            proof {
                lemma_take_contains(keys@, i as int);
                assert(keys@.take(i as int + 1).to_set() =~= seen.insert(value));
                assert(!seen.contains(value)) by {
                    if keys@.take(i as int).contains(value) {
                        let j = choose|j: int|
                            0 <= j < keys@.take(i as int).len() && keys@.take(i as int)[j] == value;
                        assert(keys@[j] == keys@[i as int]);
                    }
                }
            }
            consider(&mut page, after, limit, value, Ghost(seen));
            i = i + 1;
        }
        assert(keys@.take(i as int) =~= keys@);
        let mut out: Vec<NodeId> = Vec::new();
        let mut j: usize = 0;
        assert(out@ =~= as_ids(page@.take(0)));
        while j < page.len()
            invariant
                j <= page.len(),
                out@ == as_ids(page@.take(j as int)),
            decreases page.len() - j,
        {
            if let Ok(id) = NodeId::new(page[j]) {
                out.push(id);
            }
            j = j + 1;
            assert(page@.take(j as int).drop_last() =~= page@.take(j - 1));
        }
        assert(page@.take(j as int) =~= page@);
        (out, keys.len() as u64)
    }
}

/// The nodes that are paged through are all of them or, where a label is asked for, those that have
/// it.
pub proof fn law_nodes_that_are_paged(storage: CurrentStorage, label: InternedString, k: u64)
    ensures
        storage.live(None).contains(k) <==> storage.nodes().contains_key(k),
        storage.live(Some(label)).contains(k) <==> storage.nodes().contains_key(k)
            && storage.nodes()[k].label == label,
{
}

} // verus!

//! What comes before and after a search for similar vectors: how many candidates to ask for, and
//! which of them to keep.

use crate::counting::next_u64;
use crate::ids::NodeId;
use vstd::prelude::*;

verus! {

/// How many candidates are asked for beyond what is wanted, at least.
pub const MIN_ABSOLUTE_OVERFETCH: usize = 20;

/// How many candidates are asked for beyond what is wanted, at most.
pub const MAX_ABSOLUTE_OVERFETCH: usize = 1000;

/// How searches for one label went. The counts wrap around.
#[derive(Clone, Copy, Debug, PartialEq, Eq, Structural)]
pub struct FilterStats {
    /// How many searches there were.
    pub search_count: u64,
    /// How many candidates came back.
    pub total_candidates: u64,
    /// How many of them were kept.
    pub total_results: u64,
}

/// A sum that wraps around.
pub open spec fn wrapped(a: u64, b: usize) -> u64 {
    if a + b > u64::MAX {
        (a + b - u64::MAX - 1) as u64
    } else {
        (a + b) as u64
    }
}

impl FilterStats {
    /// No searches yet.
    pub fn new() -> (r: FilterStats)
        ensures
            r == (FilterStats { search_count: 0, total_candidates: 0, total_results: 0 }),
    {
        FilterStats { search_count: 0, total_candidates: 0, total_results: 0 }
    }

    /// After one more search.
    pub open spec fn after(self, candidates: usize, results: usize) -> FilterStats {
        FilterStats {
            search_count: next_u64(self.search_count),
            total_candidates: wrapped(self.total_candidates, candidates),
            total_results: wrapped(self.total_results, results),
        }
    }

    /// Counts a search.
    pub fn record_search(self, candidates: usize, results: usize) -> (r: FilterStats)
        ensures
            r == self.after(candidates, results),
    {
        FilterStats {
            search_count: self.search_count.wrapping_add(1),
            total_candidates: self.total_candidates.wrapping_add(candidates as u64),
            total_results: self.total_results.wrapping_add(results as u64),
        }
    }
}

/// How many candidates to ask for when `k` are wanted and `scaled` are thought to be needed: at
/// least twenty more than wanted, at most a thousand more.
pub open spec fn bounded_candidates(k: usize, scaled: usize) -> usize {
    if scaled < k + MIN_ABSOLUTE_OVERFETCH {
        (k + MIN_ABSOLUTE_OVERFETCH) as usize
    } else if scaled > k + MAX_ABSOLUTE_OVERFETCH {
        (k + MAX_ABSOLUTE_OVERFETCH) as usize
    } else {
        scaled
    }
}

/// How many candidates to ask for when `k` are wanted and `scaled` are thought to be needed.
pub fn bound_candidates(k: usize, scaled: usize) -> (r: usize)
    requires
        k + MAX_ABSOLUTE_OVERFETCH <= usize::MAX,
    ensures
        r == bounded_candidates(k, scaled),
        k < r,
        k + MIN_ABSOLUTE_OVERFETCH <= r <= k + MAX_ABSOLUTE_OVERFETCH,
{
    let least: usize = k + MIN_ABSOLUTE_OVERFETCH;
    let most: usize = k + MAX_ABSOLUTE_OVERFETCH;
    let mut candidates: usize = scaled;
    if candidates < least {
        candidates = least;
    }
    if candidates > most {
        candidates = most;
    }
    candidates
}

/// How many candidates to ask for when `k` are wanted whatever their label: one more where the node
/// that is compared with may come back itself.
pub fn plain_candidates(k: usize, excluding: bool) -> (r: usize)
    requires
        excluding ==> k < usize::MAX,
    ensures
        r == (if excluding {
            k + 1
        } else {
            k as int
        }),
{
    if excluding {
        k + 1
    } else {
        k
    }
}

/// A node and how similar it is, the latter by its bit pattern.
#[derive(Clone, Copy, Debug, PartialEq, Eq, Structural)]
pub struct Candidate {
    /// The node.
    pub node: NodeId,
    /// The bit pattern of the similarity.
    pub similarity: u32,
}

/// The candidates that are neither excluded nor, where one of `labelled` is asked for, outside it.
pub open spec fn kept_candidates(
    candidates: Seq<Candidate>,
    labelled: Option<Set<u64>>,
    exclude: Option<NodeId>,
) -> Seq<Candidate>
    decreases candidates.len(),
{
    if candidates.len() == 0 {
        Seq::empty()
    } else {
        let before = kept_candidates(candidates.drop_last(), labelled, exclude);
        let last = candidates.last();
        if (labelled is Some ==> labelled->Some_0.contains(last.node.0)) && (exclude is Some
            ==> last.node != exclude->Some_0) {
            before.push(last)
        } else {
            before
        }
    }
}

/// The first `k` of a sequence, or all of it.
pub open spec fn first_of(s: Seq<Candidate>, k: usize) -> Seq<Candidate> {
    if s.len() <= k {
        s
    } else {
        s.take(k as int)
    }
}

/// Cuts a list off after `k` candidates.
pub fn cut_off(candidates: &Vec<Candidate>, k: usize) -> (r: Vec<Candidate>)
    ensures
        r@ == first_of(candidates@, k),
{
    let mut out: Vec<Candidate> = Vec::new();
    let mut i: usize = 0;
    while i < candidates.len() && i < k
        invariant
            i <= candidates.len(),
            i <= k,
            out@ == candidates@.take(i as int),
        decreases candidates.len() - i,
    {
        out.push(candidates[i]);
        i = i + 1;
        assert(out@ =~= candidates@.take(i as int));
    }
    assert(out@ =~= first_of(candidates@, k));
    out
}

/// The kept candidates are those that pass, and none that is excluded is among them.
pub proof fn law_kept_candidates(
    candidates: Seq<Candidate>,
    labelled: Option<Set<u64>>,
    exclude: Option<NodeId>,
)
    ensures
        forall|i: int|
            0 <= i < kept_candidates(candidates, labelled, exclude).len() ==> {
                let c = #[trigger] kept_candidates(candidates, labelled, exclude)[i];
                &&& candidates.contains(c)
                &&& labelled is Some ==> labelled->Some_0.contains(c.node.0)
                &&& exclude is Some ==> c.node != exclude->Some_0
            },
        forall|i: int|
            0 <= i < candidates.len() ==> {
                let c = #[trigger] candidates[i];
                (labelled is Some ==> labelled->Some_0.contains(c.node.0)) && (exclude is Some
                    ==> c.node != exclude->Some_0) ==> kept_candidates(
                    candidates,
                    labelled,
                    exclude,
                ).contains(c)
            },
    decreases candidates.len(),
{
    if candidates.len() > 0 {
        let shorter = candidates.drop_last();
        let before = kept_candidates(shorter, labelled, exclude);
        let all = kept_candidates(candidates, labelled, exclude);
        law_kept_candidates(shorter, labelled, exclude);
        assert forall|i: int| 0 <= i < all.len() implies {
            let c = #[trigger] all[i];
            &&& candidates.contains(c)
            &&& labelled is Some ==> labelled->Some_0.contains(c.node.0)
            &&& exclude is Some ==> c.node != exclude->Some_0
        } by {
            if i < before.len() {
                assert(all[i] == before[i]);
                let j = choose|j: int| 0 <= j < shorter.len() && shorter[j] == before[i];
                assert(candidates[j] == before[i]);
            } else {
                assert(candidates[candidates.len() - 1] == all[i]);
            }
        }
        assert forall|i: int| 0 <= i < candidates.len() implies {
            let c = #[trigger] candidates[i];
            (labelled is Some ==> labelled->Some_0.contains(c.node.0)) && (exclude is Some
                ==> c.node != exclude->Some_0) ==> all.contains(c)
        } by {
            let c = candidates[i];
            if i < shorter.len() {
                assert(shorter[i] == c);
                if before.contains(c) {
                    let j = choose|j: int| 0 <= j < before.len() && before[j] == c;
                    assert(all[j] == c);
                }
            } else if all.len() > before.len() {
                assert(all[before.len() as int] == c);
            }
        }
    }
}

/// The kept candidates come in the order in which they came, each as often as it came.
pub proof fn law_kept_candidates_in_order(
    candidates: Seq<Candidate>,
    labelled: Option<Set<u64>>,
    exclude: Option<NodeId>,
)
    ensures
        kept_candidates(candidates, labelled, exclude) == candidates.filter(
            |c: Candidate|
                (labelled matches Some(nodes) ==> nodes.contains(c.node.0)) && exclude != Some(
                    c.node,
                ),
        ),
    decreases candidates.len(),
{
    reveal(Seq::filter);
    if candidates.len() > 0 {
        law_kept_candidates_in_order(candidates.drop_last(), labelled, exclude);
    }
}

/// A list is cut off at its front: what is left begins like the list and is as long as it may be.
pub proof fn law_cut_off_keeps_the_front(s: Seq<Candidate>, k: usize, i: int)
    ensures
        first_of(s, k).len() == (if s.len() < k {
            s.len()
        } else {
            k as nat
        }),
        0 <= i < first_of(s, k).len() ==> first_of(s, k)[i] == s[i],
{
}

/// A search is counted once, with its candidates and its results, as long as the counts are not
/// full.
pub proof fn law_search_is_counted(stats: FilterStats, candidates: usize, results: usize)
    requires
        stats.search_count < u64::MAX,
        stats.total_candidates + candidates <= u64::MAX,
        stats.total_results + results <= u64::MAX,
    ensures
        stats.after(candidates, results).search_count == stats.search_count + 1,
        stats.after(candidates, results).total_candidates == stats.total_candidates + candidates,
        stats.after(candidates, results).total_results == stats.total_results + results,
{
}

/// As many candidates are asked for as are thought to be needed, but no fewer than twenty and no
/// more than a thousand above what is wanted.
pub proof fn law_candidates_stay_in_bounds(k: usize, scaled: usize)
    requires
        k + 1_000 <= usize::MAX,
    ensures
        k + 20 <= bounded_candidates(k, scaled) <= k + 1_000,
        k + 20 <= scaled <= k + 1_000 ==> bounded_candidates(k, scaled) == scaled,
        scaled < k + 20 ==> bounded_candidates(k, scaled) == k + 20,
        scaled > k + 1_000 ==> bounded_candidates(k, scaled) == k + 1_000,
{
}

/// Sums that no longer fit wrap around.
pub proof fn law_sums_wrap_around(a: u64, b: usize)
    ensures
        a + b < 0x1_0000_0000_0000_0000 ==> wrapped(a, b) == a + b,
        a + b >= 0x1_0000_0000_0000_0000 ==> wrapped(a, b) == a + b - 0x1_0000_0000_0000_0000,
{
}

} // verus!

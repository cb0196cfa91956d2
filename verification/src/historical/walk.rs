//! Walking a version chain back to its latest anchor.

use crate::version::EntityVersion;
use std::collections::HashMap;
use vstd::prelude::*;

verus! {

broadcast use vstd::std_specs::hash::group_hash_axioms;

/// How many deltas lie between a version and the anchor behind it, the version included; the walk
/// also ends at a version that is not in memory and at one without a predecessor. `None` when the
/// walk takes more than `fuel` steps.
pub open spec fn deltas_back<E>(
    m: Map<u64, EntityVersion<E>>,
    id: u64,
    fuel: nat,
) -> Option<nat>
    decreases fuel,
{
    if !m.contains_key(id) || m[id].anchored() {
        Some(0)
    } else {
        match m[id].prev_version {
            None => Some(1),
            Some(prev) => if fuel == 0 {
                None
            } else {
                match deltas_back(m, prev, (fuel - 1) as nat) {
                    Some(n) => Some(n + 1),
                    None => None,
                }
            },
        }
    }
}

/// The walk back to the latest anchor ends: the chain does not run in a circle.
pub open spec fn walk_ends<E>(m: Map<u64, EntityVersion<E>>, id: u64) -> bool {
    exists|fuel: nat| (#[trigger] deltas_back(m, id, fuel)) is Some
}

/// How many deltas lie between a version and the anchor behind it, when the walk ends.
pub open spec fn since_anchor_of<E>(m: Map<u64, EntityVersion<E>>, id: u64) -> nat {
    deltas_back(m, id, choose|fuel: nat| (#[trigger] deltas_back(m, id, fuel)) is Some)->0
}

proof fn lemma_fuel<E>(m: Map<u64, EntityVersion<E>>, id: u64, a: nat, b: nat)
    requires
        deltas_back(m, id, a) is Some,
        deltas_back(m, id, b) is Some,
    ensures
        deltas_back(m, id, a) == deltas_back(m, id, b),
    decreases a,
{
    if m.contains_key(id) && !m[id].anchored() && m[id].prev_version is Some && a > 0 && b
        > 0 {
        lemma_fuel(m, m[id].prev_version->0, (a - 1) as nat, (b - 1) as nat);
    }
}

/// A walk that ends, ends the same way whatever it was given to spend.
pub proof fn lemma_since_anchor<E>(m: Map<u64, EntityVersion<E>>, id: u64, fuel: nat)
    requires
        deltas_back(m, id, fuel) is Some,
    ensures
        walk_ends(m, id),
        deltas_back(m, id, fuel) == Some(since_anchor_of(m, id)),
{
    lemma_fuel(m, id, fuel, choose|f: nat| (#[trigger] deltas_back(m, id, f)) is Some);
}

/// One step of a walk that ends.
pub proof fn lemma_walk_step<E>(m: Map<u64, EntityVersion<E>>, id: u64)
    requires
        walk_ends(m, id),
    ensures
        !m.contains_key(id) || m[id].anchored() ==> since_anchor_of(m, id) == 0,
        m.contains_key(id) && !m[id].anchored() ==> since_anchor_of(m, id) > 0,
        m.contains_key(id) && !m[id].anchored() && m[id].prev_version is None
            ==> since_anchor_of(m, id) == 1,
        m.contains_key(id) && !m[id].anchored() && m[id].prev_version is Some ==> walk_ends(
            m,
            m[id].prev_version->0,
        ) && since_anchor_of(m, id) == since_anchor_of(m, m[id].prev_version->0) + 1,
{
    let fuel = choose|f: nat| (#[trigger] deltas_back(m, id, f)) is Some;
    lemma_since_anchor(m, id, fuel);
    if m.contains_key(id) && !m[id].anchored() && m[id].prev_version is Some {
        lemma_since_anchor(m, m[id].prev_version->0, (fuel - 1) as nat);
    }
}

/// A walk that ends meets no version twice, so it is no longer than there are versions.
proof fn lemma_walk_bound<E>(m: Map<u64, EntityVersion<E>>, id: u64, met: Set<u64>)
    requires
        m.dom().finite(),
        walk_ends(m, id),
        met.subset_of(m.dom()),
        forall|other: u64| #[trigger]
            met.contains(other) ==> walk_ends(m, other) && since_anchor_of(m, other)
                > since_anchor_of(m, id),
    ensures
        since_anchor_of(m, id) + met.len() <= m.dom().len(),
    decreases since_anchor_of(m, id),
{
    lemma_walk_step(m, id);
    if since_anchor_of(m, id) == 0 {
        vstd::set_lib::lemma_len_subset(met, m.dom());
    } else {
        assert(!met.contains(id));
        vstd::set_lib::lemma_len_subset(met, m.dom());
        let more = met.insert(id);
        assert(more.subset_of(m.dom()));
        vstd::set_lib::lemma_len_subset(more, m.dom());
        if m[id].prev_version is Some {
            lemma_walk_bound(m, m[id].prev_version->0, more);
        }
    }
}

/// A walk that ends is no longer than there are versions.
pub proof fn law_walk_is_bounded<E>(m: Map<u64, EntityVersion<E>>, id: u64)
    requires
        m.dom().finite(),
        walk_ends(m, id),
    ensures
        since_anchor_of(m, id) <= m.dom().len(),
{
    lemma_walk_bound(m, id, Set::empty());
}

/// Counts the deltas between a version and the anchor behind it.
pub fn count_versions_since_anchor<E>(
    versions: &HashMap<u64, EntityVersion<E>>,
    version_id: u64,
) -> (r: usize)
    requires
        walk_ends(versions@, version_id),
    ensures
        r == since_anchor_of(versions@, version_id),
{
    let ghost m = versions@;
    let ghost total = since_anchor_of(m, version_id);
    proof {
        law_walk_is_bounded(m, version_id);
        assert(versions.len() == m.len());
    }
    let mut count: usize = 0;
    let mut current: u64 = version_id;
    loop
        invariant_except_break
            walk_ends(m, current),
            count + since_anchor_of(m, current) == total,
        invariant
            m == versions@,
            total <= usize::MAX,
        ensures
            count == total,
        decreases since_anchor_of(m, current),
    {
        proof {
            lemma_walk_step(m, current);
        }
        match versions.get(&current) {
            None => {
                break ;
            },
            Some(version) => {
                if version.is_anchor() {
                    break ;
                }
                count = count + 1;
                match version.prev_version {
                    Some(prev) => {
                        current = prev;
                    },
                    None => {
                        break ;
                    },
                }
            },
        }
    }
    count
}

/// The deltas behind a version are those on the way back before the first anchor: where versions
/// that lead back are deltas until one that is an anchor or is not in memory, there are as many as
/// come before it; where the last of them is a delta without a link, there are as many as there are
/// of them.
pub proof fn law_deltas_before_the_anchor<E>(m: Map<u64, EntityVersion<E>>, ids: Seq<u64>)
    requires
        ids.len() > 0,
        forall|i: int|
            0 <= i < ids.len() - 1 ==> m.contains_key(#[trigger] ids[i]) && !m[ids[i]].anchored()
                && m[ids[i]].prev_version == Some(ids[i + 1]),
        !m.contains_key(ids.last()) || m[ids.last()].anchored() || m[ids.last()].prev_version is None,
    ensures
        walk_ends(m, ids[0]),
        since_anchor_of(m, ids[0]) == (if !m.contains_key(ids.last()) || m[ids.last()].anchored() {
            ids.len() - 1
        } else {
            ids.len() as int
        }),
    decreases ids.len(),
{
    let id = ids[0];
    if ids.len() == 1 {
        assert(deltas_back(m, id, 0) is Some);
        let fuel = choose|fuel: nat| (#[trigger] deltas_back(m, id, fuel)) is Some;
        lemma_fuel(m, id, fuel, 0);
    } else {
        let rest = ids.skip(1);
        assert(m.contains_key(ids[0]) && !m[ids[0]].anchored() && m[ids[0]].prev_version == Some(ids[1]));
        assert forall|i: int| 0 <= i < rest.len() - 1 implies m.contains_key(#[trigger] rest[i])
            && !m[rest[i]].anchored() && m[rest[i]].prev_version == Some(rest[i + 1]) by {
            assert(rest[i] == ids[i + 1]);
        }
        law_deltas_before_the_anchor(m, rest);
        let below = choose|fuel: nat| (#[trigger] deltas_back(m, rest[0], fuel)) is Some;
        assert(deltas_back(m, id, below + 1) is Some);
        let fuel = choose|fuel: nat| (#[trigger] deltas_back(m, id, fuel)) is Some;
        lemma_fuel(m, id, fuel, below + 1);
    }
}

} // verus!

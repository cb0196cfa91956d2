//! Looking at single versions, wherever they are stored, and at all versions in memory.

use super::chain::{find_in_tiers, tiers_of, ColdTier};
use super::lookup::{
    chain_ids, law_chain_follows_the_links, leads_back, lemma_chain_in_memory, links_end,
};
use super::table::{entry_of, VersionTable};
use crate::error::{Error, ErrorView, StorageError};
use crate::ids::VersionId;
use crate::maps::{keys_of, lemma_take_contains, lists_keys};
use crate::temporal::{BiTemporalInterval, Timestamp};
use crate::version::{EntityVersion, Provenance};
use std::collections::HashMap;
use std::sync::Arc;
use vstd::prelude::*;

verus! {

broadcast use vstd::std_specs::hash::group_hash_axioms;

/// When an entity came to be: from when on its oldest version holds.
pub open spec fn born<E>(m: Map<u64, EntityVersion<E>>, head: u64) -> Option<Timestamp> {
    let oldest = chain_ids(m, head).last();
    if m.contains_key(oldest) {
        Some(m[oldest].temporal.valid_time.start)
    } else {
        None
    }
}

/// What is known of a version: who wrote it, and when it holds and is known.
pub type ReadMetadata = (Option<Arc<Provenance>>, BiTemporalInterval);

/// The versions of each entity, by entity; every version in memory is listed once.
pub open spec fn groups_versions<E>(
    m: Map<u64, EntityVersion<E>>,
    ids: Seq<u64>,
    g: Map<u64, Vec<u64>>,
) -> bool {
    &&& forall|entity: u64| #[trigger]
        g.contains_key(entity) ==> g[entity]@.len() > 0 && g[entity]@.no_duplicates() && forall|
            i: int,
        |
            0 <= i < g[entity]@.len() ==> ids.contains(#[trigger] g[entity]@[i])
                && m[g[entity]@[i]].entity == entity
    &&& forall|id: u64| #[trigger]
        ids.contains(id) ==> g.contains_key(m[id].entity) && g[m[id].entity]@.contains(id)
}

impl<E> VersionTable<E> {
    /// The provenance of a version, or the error for one that cannot be found.
    pub open spec fn provenance_of(self, id: u64) -> Result<Option<Arc<Provenance>>, ErrorView> {
        match self.tiers().lookup(id) {
            Ok(Some(v)) => Ok(v.provenance),
            Ok(None) => Err(ErrorView::VersionNotFound(VersionId(id))),
            Err(e) => Err(e),
        }
    }

    /// When the entity came to be.
    pub fn creation_time(&self, entity: u64) -> (r: Option<Timestamp>)
        requires
            entry_of(self.heads@, entity) matches Some(head) ==> links_end(self.versions@, head),
        ensures
            r == (match entry_of(self.heads@, entity) {
                Some(head) => born(self.versions@, head),
                None => None,
            }),
    {
        let head: u64 = match self.heads.get(&entity) {
            Some(h) => *h,
            None => {
                return None;
            },
        };
        let ids: Vec<u64> = self.chain_from_oldest(head);
        proof {
            lemma_chain_in_memory(self.versions@, head);
        }
        match self.versions.get(&ids[0]) {
            Some(v) => Some(v.temporal.valid_time.start),
            None => None,
        }
    }

    /// Who wrote a version, wherever it is stored.
    pub fn provenance(&self, id: u64) -> (r: Result<Option<Arc<Provenance>>, Error>)
        ensures
            match (r, self.provenance_of(id)) {
                (Ok(p), Ok(q)) => p == q,
                (Err(e), Err(f)) => e@ == f,
                _ => false,
            },
    {
        match find_in_tiers(&self.versions, &self.cold, id) {
            Ok(Some(v)) => Ok(
                match &v.provenance {
                    Some(p) => Some(p.clone()),
                    None => None,
                },
            ),
            Ok(None) => Err(Error::Storage(StorageError::VersionNotFound(VersionId(id)))),
            Err(e) => Err(e),
        }
    }

    /// Who wrote a version, and when it holds and is known; `None` for a version that is nowhere.
    pub fn read_metadata(&self, id: u64) -> (r: Result<Option<ReadMetadata>, Error>)
        ensures
            match (r, self.tiers().lookup(id)) {
                (Ok(Some(found)), Ok(Some(v))) => found == (v.provenance, v.temporal),
                (Ok(None), Ok(None)) => true,
                (Err(e), Err(f)) => e@ == f,
                _ => false,
            },
    {
        match find_in_tiers(&self.versions, &self.cold, id) {
            Ok(Some(v)) => Ok(
                Some(
                    (
                        match &v.provenance {
                            Some(p) => Some(p.clone()),
                            None => None,
                        },
                        v.temporal,
                    ),
                ),
            ),
            Ok(None) => Ok(None),
            Err(e) => Err(e),
        }
    }

    /// The versions in memory, by entity.
    pub fn grouped(&self) -> (r: HashMap<u64, Vec<u64>>)
        ensures
            forall|entity: u64| #[trigger]
                r@.contains_key(entity) ==> r@[entity]@.len() > 0 && r@[entity]@.no_duplicates()
                    && forall|i: int|
                    0 <= i < r@[entity]@.len() ==> self.versions@.contains_key(
                        #[trigger] r@[entity]@[i],
                    ) && self.versions@[r@[entity]@[i]].entity == entity,
            forall|id: u64| #[trigger]
                self.versions@.contains_key(id) ==> r@.contains_key(self.versions@[id].entity)
                    && r@[self.versions@[id].entity]@.contains(id),
    {
        let ghost m = self.versions@;
        let ids: Vec<u64> = keys_of(&self.versions);
        let mut groups: HashMap<u64, Vec<u64>> = HashMap::new();
        let mut i: usize = 0;
        while i < ids.len()
            invariant
                i <= ids.len(),
                m == self.versions@,
                lists_keys(ids@, m),
                groups_versions(m, ids@.take(i as int), groups@),
            decreases ids.len() - i,
        {
            let id: u64 = ids[i];
            proof {
                lemma_take_contains(ids@, i as int);
                assert(m.contains_key(ids@[i as int]));
            }
            let ghost before = groups@;
            let ghost earlier = ids@.take(i as int);
            if let Some(v) = self.versions.get(&id) {
                let mut list: Vec<u64> = match groups.remove(&v.entity) {
                    Some(l) => l,
                    None => Vec::new(),
                };
                let ghost shorter = list@;
                list.push(id);
                proof {
                    assert(!earlier.contains(id)) by {
                        if earlier.contains(id) {
                            let j = choose|j: int| 0 <= j < earlier.len() && earlier[j] == id;
                            assert(ids@[j] == ids@[i as int]);
                        }
                    }
                    assert(list@.no_duplicates()) by {
                        assert forall|a: int, b: int|
                            0 <= a < list@.len() && 0 <= b < list@.len() && a != b implies list@[a]
                            != list@[b] by {
                            if a < shorter.len() {
                                assert(earlier.contains(before[v.entity]@[a]));
                            }
                            if b < shorter.len() {
                                assert(earlier.contains(before[v.entity]@[b]));
                            }
                        }
                    }
                }
                let ghost full = list@;
                groups.insert(v.entity, list);
                proof {
                    assert forall|entity: u64| #[trigger]
                        groups@.contains_key(entity) implies groups@[entity]@.len() > 0
                        && groups@[entity]@.no_duplicates() && (forall|k: int|
                        0 <= k < groups@[entity]@.len() ==> ids@.take(i + 1).contains(
                            #[trigger] groups@[entity]@[k],
                        ) && m[groups@[entity]@[k]].entity == entity) by {
                        if entity == v.entity {
                            assert forall|k: int| 0 <= k < full.len() implies ids@.take(
                                i + 1,
                            ).contains(#[trigger] full[k]) && m[full[k]].entity == entity by {
                                if k < shorter.len() {
                                    assert(earlier.contains(before[entity]@[k]));
                                }
                            }
                        } else {
                            assert(before.contains_key(entity));
                            assert forall|k: int|
                                0 <= k < groups@[entity]@.len() implies ids@.take(
                                i + 1,
                            ).contains(#[trigger] groups@[entity]@[k])
                                && m[groups@[entity]@[k]].entity == entity by {
                                assert(earlier.contains(before[entity]@[k]));
                            }
                        }
                    }
                    assert forall|x: u64| #[trigger]
                        ids@.take(i + 1).contains(x) implies groups@.contains_key(m[x].entity)
                        && groups@[m[x].entity]@.contains(x) by {
                        if x == id {
                            assert(full[full.len() - 1] == id);
                        } else {
                            assert(earlier.contains(x));
                            if m[x].entity == v.entity {
                                let k = choose|k: int|
                                    0 <= k < shorter.len() && shorter[k] == x;
                                assert(full[k] == x);
                            }
                        }
                    }
                }
            }
            i = i + 1;
        }
        assert(ids@.take(i as int) =~= ids@);
        proof {
            assert forall|id: u64| #[trigger] m.contains_key(id) implies groups@.contains_key(
                m[id].entity,
            ) && groups@[m[id].entity]@.contains(id) by {
                assert(ids@.contains(id));
            }
        }
        groups
    }
}

impl<E> VersionTable<E> {
    /// The table after a version was looked up in all tiers: nothing changes but that the cold tier
    /// counts a version found in memory.
    pub open spec fn looked_up(self, id: u64, after: VersionTable<E>) -> bool {
        after == (VersionTable {
            cold: match self.cold {
                Some(tier) => Some(
                    ColdTier {
                        hot_hits: if self.versions@.contains_key(id) {
                            tier.hot_hits.wrapping_add(1)
                        } else {
                            tier.hot_hits
                        },
                        ..tier
                    },
                ),
                None => None,
            },
            ..self
        })
    }
}

impl<E: Copy> VersionTable<E> {
    /// A version, wherever it is stored. A version found in memory counts as a hot hit.
    pub fn version_tiered(&mut self, id: u64) -> (r: Result<Option<EntityVersion<E>>, Error>)
        ensures
            match (r, old(self).tiers().lookup(id)) {
                (Ok(found), Ok(expected)) => found == expected,
                (Err(e), Err(f)) => e@ == f,
                _ => false,
            },
            old(self).looked_up(id, *final(self)),
    {
        if self.versions.contains_key(&id) {
            if let Some(mut tier) = self.cold.take() {
                tier.hot_hits = tier.hot_hits.wrapping_add(1);
                self.cold = Some(tier);
            }
        }
        match find_in_tiers(&self.versions, &self.cold, id) {
            Ok(Some(v)) => Ok(Some(v.copied())),
            Ok(None) => Ok(None),
            Err(e) => Err(e),
        }
    }

    /// All versions in memory, in no particular order.
    pub fn all_versions(&self) -> (r: Vec<EntityVersion<E>>)
        ensures
            r@.len() == self.versions@.len(),
            exists|ids: Seq<u64>| #[trigger]
                lists_keys(ids, self.versions@) && ids.len() == r@.len() && forall|i: int|
                    0 <= i < r@.len() ==> #[trigger] r@[i] == self.versions@[ids[i]],
    {
        let ids: Vec<u64> = keys_of(&self.versions);
        let mut out: Vec<EntityVersion<E>> = Vec::new();
        let mut i: usize = 0;
        while i < ids.len()
            invariant
                i <= ids.len(),
                lists_keys(ids@, self.versions@),
                out@.len() == i,
                forall|j: int| 0 <= j < i ==> #[trigger] out@[j] == self.versions@[ids@[j]],
            decreases ids.len() - i,
        {
            assert(self.versions@.contains_key(ids@[i as int]));
            if let Some(v) = self.versions.get(&ids[i]) {
                out.push(v.copied());
            }
            i = i + 1;
        }
        assert(lists_keys(ids@, self.versions@));
        out
    }
}

/// An entity came to be when its oldest version began to hold: the last of the versions that lead
/// back from its latest one, if that is in memory.
pub proof fn law_born_with_the_oldest<E>(m: Map<u64, EntityVersion<E>>, ids: Seq<u64>)
    requires
        leads_back(m, ids[0], ids),
        !m.contains_key(ids.last()) || m[ids.last()].prev_version is None,
    ensures
        born(m, ids[0]) == (if m.contains_key(ids.last()) {
            Some(m[ids.last()].temporal.valid_time.start)
        } else {
            None
        }),
{
    law_chain_follows_the_links(m, ids);
}

/// A version is found in memory before it is looked for in the cold store; there, one whose read
/// fails is an error, whatever the store holds; and one that is in neither is not found.
pub proof fn law_memory_before_cold_store<E>(
    hot: Map<u64, EntityVersion<E>>,
    cold: ColdTier<E>,
    id: u64,
)
    ensures
        ({
            let with = tiers_of(hot, Some(cold)).lookup(id);
            let without = tiers_of(hot, None).lookup(id);
            &&& hot.contains_key(id) ==> with == Ok::<Option<EntityVersion<E>>, ErrorView>(
                Some(hot[id]),
            ) && without == with
            &&& !hot.contains_key(id) ==> {
                &&& without == Ok::<Option<EntityVersion<E>>, ErrorView>(None)
                &&& with is Err <==> cold.faults@.contains_key(id)
                &&& with matches Ok(found) ==> (found is Some <==> cold.versions@.contains_key(id))
                    && (found matches Some(v) ==> v == cold.versions@[id])
            }
        }),
{
}

/// Who wrote a version is told wherever it is stored; of a version that is nowhere it is told that
/// it was not found.
pub proof fn law_provenance_is_told<E>(t: VersionTable<E>, id: u64)
    ensures
        t.versions@.contains_key(id) ==> t.provenance_of(id) == Ok::<Option<Arc<Provenance>>, ErrorView>(
            t.versions@[id].provenance,
        ),
        !t.versions@.contains_key(id) && t.cold is None ==> t.provenance_of(id) == Err::<
            Option<Arc<Provenance>>,
            ErrorView,
        >(ErrorView::VersionNotFound(VersionId(id))),
        !t.versions@.contains_key(id) && t.cold is Some && t.cold->0.versions@.contains_key(id)
            && !t.cold->0.faults@.contains_key(id) ==> t.provenance_of(id) == Ok::<
            Option<Arc<Provenance>>,
            ErrorView,
        >(t.cold->0.versions@[id].provenance),
{
}

/// Looking a version up changes nothing but that a cold tier counts one that is in memory.
pub proof fn law_lookup_only_counts<E>(t: VersionTable<E>, id: u64, after: VersionTable<E>)
    requires
        t.looked_up(id, after),
    ensures
        after.versions == t.versions && after.heads == t.heads && after.counts == t.counts,
        after.cold is Some <==> t.cold is Some,
        t.cold matches Some(tier) ==> {
            let counted: int = if t.versions@.contains_key(id) {
                1
            } else {
                0
            };
            &&& after.cold->0.versions == tier.versions
            &&& after.cold->0.cursors == tier.cursors
            &&& tier.hot_hits < u64::MAX ==> after.cold->0.hot_hits == tier.hot_hits + counted
        },
{
}

} // verus!

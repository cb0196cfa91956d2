//! Version chains: how the properties of a version follow from the anchors and deltas behind it.

use crate::error::{Error, ErrorView, StorageError, TemporalError};
use crate::ids::VersionId;
use crate::maps::{keys_of, lemma_take_contains, lists_keys};
use crate::property::{delta_applied, Properties, PropertyMap};
use crate::temporal::Timestamp;
use crate::text::{decimal, decimal_string, framed_number};
use crate::version::{EntityKind, EntityVersion, VersionData};
use std::collections::HashMap;
use vstd::prelude::*;

verus! {

broadcast use vstd::std_specs::hash::group_hash_axioms;

/// Depth that an error about too deep a chain reports, and the default limit on that depth.
pub const MAX_RECONSTRUCTION_DEPTH: usize = 1_000;

/// Position of a version in the feed of changes.
#[derive(Clone, Copy, Debug, PartialEq, Eq, Structural)]
pub struct ChangeCursor {
    /// When the version became known.
    pub commit_timestamp: Timestamp,
    /// The kind of entity.
    pub kind: EntityKind,
    /// The entity.
    pub entity: u64,
    /// The version.
    pub version: u64,
}

/// The cold tier: what the cold store answers for the versions that were moved to it.
pub struct ColdTier<E> {
    /// Versions that the cold store holds.
    pub versions: HashMap<u64, EntityVersion<E>>,
    /// Versions whose read from the cold store fails, with the reason.
    pub faults: HashMap<u64, String>,
    /// Positions of the moved versions in the feed of changes, in the order of moving.
    pub cursors: Vec<ChangeCursor>,
    /// Lookups that memory served.
    pub hot_hits: u64,
}

impl<E> ColdTier<E> {
    /// A cold tier that holds nothing.
    pub fn new() -> (r: ColdTier<E>)
        ensures
            r.versions@ == Map::<u64, EntityVersion<E>>::empty(),
            r.faults@ == Map::<u64, String>::empty(),
            r.cursors@ == Seq::<ChangeCursor>::empty(),
            r.hot_hits == 0,
    {
        ColdTier {
            versions: HashMap::new(),
            faults: HashMap::new(),
            cursors: Vec::new(),
            hot_hits: 0,
        }
    }
}

/// The same versions have a text in both maps, and the texts read the same.
pub open spec fn same_texts(a: Map<u64, String>, b: Map<u64, String>) -> bool {
    &&& a.dom() == b.dom()
    &&& forall|id: u64| #[trigger] a.contains_key(id) ==> a[id]@ == b[id]@
}

impl<E> ColdTier<E> {
    /// The other tier holds, answers and has counted the same.
    pub open spec fn says_the_same(self, other: ColdTier<E>) -> bool {
        &&& self.versions@ == other.versions@
        &&& same_texts(self.faults@, other.faults@)
        &&& self.cursors@ == other.cursors@
        &&& self.hot_hits == other.hot_hits
    }
}

impl<E: Copy> ColdTier<E> {
    /// A tier of its own that says the same.
    pub fn copied(&self) -> (r: ColdTier<E>)
        ensures
            r.says_the_same(*self),
    {
        let mut r: ColdTier<E> = ColdTier::new();
        let ids: Vec<u64> = keys_of(&self.versions);
        let mut i: usize = 0;
        while i < ids.len()
            invariant
                i <= ids.len(),
                lists_keys(ids@, self.versions@),
                forall|id: u64| #[trigger]
                    r.versions@.contains_key(id) <==> ids@.take(i as int).contains(id),
                forall|id: u64| #[trigger]
                    r.versions@.contains_key(id) ==> r.versions@[id] == self.versions@[id],
                r.faults@ == Map::<u64, String>::empty(),
                r.cursors@ == Seq::<ChangeCursor>::empty(),
            decreases ids.len() - i,
        {
            proof {
                lemma_take_contains(ids@, i as int);
            }
            if let Some(version) = self.versions.get(&ids[i]) {
                r.versions.insert(ids[i], version.copied());
            }
            i += 1;
        }
        assert(ids@.take(ids@.len() as int) =~= ids@);
        assert(r.versions@ =~= self.versions@);
        let ghost versions = r.versions@;
        let ids: Vec<u64> = keys_of(&self.faults);
        let mut i: usize = 0;
        while i < ids.len()
            invariant
                i <= ids.len(),
                lists_keys(ids@, self.faults@),
                forall|id: u64| #[trigger]
                    r.faults@.contains_key(id) <==> ids@.take(i as int).contains(id),
                forall|id: u64| #[trigger]
                    r.faults@.contains_key(id) ==> r.faults@[id]@ == self.faults@[id]@,
                r.versions@ == versions,
                r.cursors@ == Seq::<ChangeCursor>::empty(),
            decreases ids.len() - i,
        {
            proof {
                lemma_take_contains(ids@, i as int);
            }
            if let Some(text) = self.faults.get(&ids[i]) {
                r.faults.insert(ids[i], text.clone());
            }
            i += 1;
        }
        assert(ids@.take(ids@.len() as int) =~= ids@);
        assert(r.faults@.dom() =~= self.faults@.dom());
        let ghost faults = r.faults@;
        let mut i: usize = 0;
        while i < self.cursors.len()
            invariant
                i <= self.cursors.len(),
                r.cursors@ == self.cursors@.take(i as int),
                r.versions@ == versions,
                r.faults@ == faults,
            decreases self.cursors.len() - i,
        {
            r.cursors.push(self.cursors[i]);
            assert(self.cursors@.take(i + 1) =~= self.cursors@.take(i as int).push(
                self.cursors@[i as int],
            ));
            i += 1;
        }
        assert(self.cursors@.take(self.cursors@.len() as int) =~= self.cursors@);
        r.hot_hits = self.hot_hits;
        r
    }
}

/// All stored versions of one kind of entity, by tier.
pub struct Tiers<E> {
    /// Versions in memory.
    pub hot: Map<u64, EntityVersion<E>>,
    /// Versions in the cold store.
    pub cold: Map<u64, EntityVersion<E>>,
    /// Versions whose read from the cold store fails, with the reason.
    pub faults: Map<u64, String>,
}

impl<E> Tiers<E> {
    /// What a lookup of a version gives: memory first, then the cold store.
    pub open spec fn lookup(self, id: u64) -> Result<Option<EntityVersion<E>>, ErrorView> {
        if self.hot.contains_key(id) {
            Ok(Some(self.hot[id]))
        } else if self.faults.contains_key(id) {
            Err(ErrorView::PersistenceError(self.faults[id]@))
        } else if self.cold.contains_key(id) {
            Ok(Some(self.cold[id]))
        } else {
            Ok(None)
        }
    }
}

/// The tiers that a table of hot versions and an optional cold tier make up.
pub open spec fn tiers_of<E>(
    hot: Map<u64, EntityVersion<E>>,
    cold: Option<ColdTier<E>>,
) -> Tiers<E> {
    match cold {
        Some(c) => Tiers { hot, cold: c.versions@, faults: c.faults@ },
        None => Tiers { hot, cold: Map::empty(), faults: Map::empty() },
    }
}

/// How an error names the entity of a version: by its number where the version is in memory.
pub open spec fn entity_name<E>(t: Tiers<E>, id: u64) -> Seq<char> {
    if t.hot.contains_key(id) {
        decimal(t.hot[id].entity as nat)
    } else {
        "version "@ + decimal(id as nat) + ""@
    }
}

/// What a delta version adds to the properties of the version before it.
pub open spec fn step<E>(
    version: EntityVersion<E>,
    base: Result<Properties, ErrorView>,
) -> Result<Properties, ErrorView> {
    match (base, *version.data) {
        (Ok(p), VersionData::Delta { delta }) => Ok(delta_applied(p, delta@)),
        (_, _) => base,
    }
}

/// The properties of version `id`, which lies `depth` steps behind version `origin`: those of an
/// anchor itself; those of a delta applied to the version before it. A chain of more than `limit`
/// deltas, one that ends without an anchor, and one that leads to a version that is gone have
/// none.
pub open spec fn chain_result<E>(
    t: Tiers<E>,
    origin: u64,
    id: u64,
    depth: nat,
    limit: nat,
) -> Result<Properties, ErrorView>
    decreases limit + 1 - depth,
{
    if depth > limit {
        Err(
            ErrorView::MaxDepthExceeded {
                max_depth: MAX_RECONSTRUCTION_DEPTH,
                entity_id: entity_name(t, origin),
            },
        )
    } else {
        match t.lookup(id) {
            Err(e) => Err(e),
            Ok(None) => if depth == 0 {
                Err(ErrorView::VersionNotFound(VersionId(id)))
            } else {
                Err(
                    ErrorView::MissingAnchor {
                        entity_id: decimal(t.lookup(origin)->Ok_0->Some_0.entity as nat),
                    },
                )
            },
            Ok(Some(version)) => match *version.data {
                VersionData::Anchor { properties, .. } => Ok(properties@),
                VersionData::Delta { .. } => match version.prev_version {
                    Some(prev) => step(version, chain_result(t, origin, prev, depth + 1, limit)),
                    None => Err(
                        ErrorView::CorruptedVersionChain {
                            entity_id: decimal(version.entity as nat),
                            reason: "Delta version has no previous version"@,
                        },
                    ),
                },
            },
        }
    }
}

/// The properties of a version, as its chain gives them.
pub open spec fn chain_properties<E>(t: Tiers<E>, id: u64, limit: nat) -> Result<
    Properties,
    ErrorView,
> {
    chain_result(t, id, id, 0, limit)
}

/// The steps of the given versions, applied in turn from the last to the first.
pub open spec fn steps_from<E>(
    t: Tiers<E>,
    ids: Seq<u64>,
    base: Result<Properties, ErrorView>,
) -> Result<Properties, ErrorView>
    decreases ids.len(),
{
    if ids.len() == 0 {
        base
    } else {
        steps_from(t, ids.drop_last(), step(t.lookup(ids.last())->Ok_0->Some_0, base))
    }
}

proof fn lemma_steps_keep_error<E>(t: Tiers<E>, ids: Seq<u64>, e: ErrorView)
    ensures
        steps_from(t, ids, Err(e)) == Err::<Properties, ErrorView>(e),
    decreases ids.len(),
{
    if ids.len() > 0 {
        lemma_steps_keep_error(t, ids.drop_last(), e);
    }
}

/// Whether the version is found, with a result for a broken read of the cold store.
pub open spec fn found_as<E>(
    r: Result<Option<&EntityVersion<E>>, Error>,
    expected: Result<Option<EntityVersion<E>>, ErrorView>,
) -> bool {
    match (r, expected) {
        (Ok(Some(v)), Ok(Some(w))) => *v == w,
        (Ok(None), Ok(None)) => true,
        (Err(e), Err(f)) => e@ == f,
        _ => false,
    }
}

/// Looks a version up: memory first, then the cold store.
pub fn find_in_tiers<'a, E>(
    hot: &'a HashMap<u64, EntityVersion<E>>,
    cold: &'a Option<ColdTier<E>>,
    id: u64,
) -> (r: Result<Option<&'a EntityVersion<E>>, Error>)
    ensures
        found_as(r, tiers_of(hot@, *cold).lookup(id)),
{
    match hot.get(&id) {
        Some(v) => Ok(Some(v)),
        None => match cold {
            Some(tier) => match tier.faults.get(&id) {
                Some(reason) => Err(
                    Error::Storage(StorageError::PersistenceError(reason.clone())),
                ),
                None => Ok(tier.versions.get(&id)),
            },
            None => Ok(None),
        },
    }
}

fn name_entity<E>(
    hot: &HashMap<u64, EntityVersion<E>>,
    cold: &Option<ColdTier<E>>,
    id: u64,
) -> (r: String)
    ensures
        r@ == entity_name(tiers_of(hot@, *cold), id),
{
    match hot.get(&id) {
        Some(v) => decimal_string(v.entity),
        None => framed_number("version ", id, ""),
    }
}

/// The result holds the expected properties or error.
pub open spec fn gives(
    r: Result<PropertyMap, Error>,
    expected: Result<Properties, ErrorView>,
) -> bool {
    match (r, expected) {
        (Ok(p), Ok(q)) => p@ == q,
        (Err(e), Err(f)) => e@ == f,
        _ => false,
    }
}

/// Reconstructs the properties of a version: walks back to the nearest anchor, then applies the
/// deltas forward.
pub fn reconstruct_iterative<E>(
    hot: &HashMap<u64, EntityVersion<E>>,
    cold: &Option<ColdTier<E>>,
    version_id: u64,
    max_depth: usize,
) -> (r: Result<PropertyMap, Error>)
    ensures
        gives(r, chain_properties(tiers_of(hot@, *cold), version_id, max_depth as nat)),
{
    let ghost t = tiers_of(hot@, *cold);
    let ghost limit = max_depth as nat;
    let ghost goal = chain_properties(t, version_id, limit);
    let mut ids: Vec<u64> = Vec::new();
    let mut current: u64 = version_id;
    let mut properties: PropertyMap;
    loop
        invariant
            t == tiers_of(hot@, *cold),
            limit == max_depth,
            goal == chain_properties(t, version_id, limit),
            ids@.len() <= limit + 1,
            ids@.len() == 0 ==> current == version_id,
            ids@.len() > 0 ==> ids@[0] == version_id,
            forall|i: int|
                0 <= i < ids@.len() ==> (#[trigger] t.lookup(ids@[i]) matches Ok(Some(v))
                    && *v.data is Delta),
            goal == steps_from(
                t,
                ids@,
                chain_result(t, version_id, current, ids@.len(), limit),
            ),
        ensures
            goal == steps_from(t, ids@, Ok(properties@)),
        decreases limit + 1 - ids@.len(),
    {
        if ids.len() > max_depth {
            let entity_id = name_entity(hot, cold, version_id);
            proof {
                lemma_steps_keep_error(
                    t,
                    ids@,
                    chain_result(t, version_id, current, ids@.len(), limit)->Err_0,
                );
            }
            return Err(
                Error::Temporal(
                    TemporalError::MaxDepthExceeded {
                        max_depth: MAX_RECONSTRUCTION_DEPTH,
                        entity_id,
                    },
                ),
            );
        }
        let version = match find_in_tiers(hot, cold, current) {
            Err(e) => {
                proof {
                    lemma_steps_keep_error(t, ids@, e@);
                }
                return Err(e);
            },
            Ok(None) => {
                proof {
                    lemma_steps_keep_error(
                        t,
                        ids@,
                        chain_result(t, version_id, current, ids@.len(), limit)->Err_0,
                    );
                }
                if ids.len() == 0 {
                    return Err(Error::Storage(StorageError::VersionNotFound(VersionId(current))));
                }
                assert(t.lookup(ids@[0]) is Ok);
                let entity_id = match find_in_tiers(hot, cold, ids[0]) {
                    Ok(Some(v)) => decimal_string(v.entity),
                    _ => framed_number("version ", version_id, ""),
                };
                return Err(Error::Temporal(TemporalError::MissingAnchor { entity_id }));
            },
            Ok(Some(v)) => v,
        };
        match &*version.data {
            VersionData::Anchor { properties: anchored, .. } => {
                properties = anchored.copied();
                break ;
            },
            VersionData::Delta { .. } => {},
        }
        match version.prev_version {
            None => {
                proof {
                    lemma_steps_keep_error(
                        t,
                        ids@,
                        chain_result(t, version_id, current, ids@.len(), limit)->Err_0,
                    );
                }
                return Err(
                    Error::Temporal(
                        TemporalError::CorruptedVersionChain {
                            entity_id: decimal_string(version.entity),
                            reason: String::from_str("Delta version has no previous version"),
                        },
                    ),
                );
            },
            Some(prev) => {
                let ghost before = ids@;
                ids.push(current);
                assert(ids@.drop_last() =~= before);
                current = prev;
            },
        }
    }
    let mut left: usize = ids.len();
    assert(ids@.take(left as int) =~= ids@);
    while left > 0
        invariant
            t == tiers_of(hot@, *cold),
            left <= ids@.len(),
            forall|i: int|
                0 <= i < ids@.len() ==> (#[trigger] t.lookup(ids@[i]) matches Ok(Some(v))
                    && *v.data is Delta),
            goal == steps_from(t, ids@.take(left as int), Ok(properties@)),
        decreases left,
    {
        let ghost remaining = ids@.take(left as int);
        let id: u64 = ids[left - 1];
        assert(remaining.last() == id);
        assert(remaining.drop_last() =~= ids@.take(left - 1));
        assert(t.lookup(ids@[left - 1]) is Ok);
        if let Ok(Some(version)) = find_in_tiers(hot, cold, id) {
            if let VersionData::Delta { delta } = &*version.data {
                properties = delta.apply(&properties);
            }
        }
        left = left - 1;
    }
    Ok(properties)
}

proof fn lemma_chain_breaks<E>(t: Tiers<E>, ids: Seq<u64>, i: int, limit: nat)
    requires
        0 <= i < ids.len(),
        ids.len() <= limit + 1,
        forall|j: int|
            0 <= j < ids.len() - 1 ==> {
                &&& (t.lookup(#[trigger] ids[j]) matches Ok(Some(v)) && *v.data is Delta && v.prev_version
                    == Some(ids[j + 1]))
            },
        match t.lookup(ids.last()) {
            Ok(Some(v)) => *v.data is Delta && v.prev_version is None,
            _ => true,
        },
    ensures
        chain_result(t, ids[0], ids[i], i as nat, limit) == Err::<Properties, ErrorView>(
            match t.lookup(ids.last()) {
                Err(e) => e,
                Ok(None) => if ids.len() == 1 {
                    ErrorView::VersionNotFound(VersionId(ids[0]))
                } else {
                    ErrorView::MissingAnchor {
                        entity_id: decimal(t.lookup(ids[0])->Ok_0->Some_0.entity as nat),
                    }
                },
                Ok(Some(v)) => ErrorView::CorruptedVersionChain {
                    entity_id: decimal(v.entity as nat),
                    reason: "Delta version has no previous version"@,
                },
            },
        ),
    decreases ids.len() - i,
{
    if i < ids.len() - 1 {
        assert(t.lookup(ids[i]) matches Ok(Some(v)) && *v.data is Delta && v.prev_version == Some(
            ids[i + 1],
        ));
        lemma_chain_breaks(t, ids, i + 1, limit);
    }
}

/// A chain that breaks is told by how it breaks: where deltas lead back to a version whose read
/// fails, as that read fails; to a version that is gone, as one that was not found if it is the
/// first, and as a chain without an anchor if it is not; to a delta without a link, as a corrupted
/// chain of its entity.
pub proof fn law_how_a_chain_breaks<E>(t: Tiers<E>, ids: Seq<u64>, limit: nat)
    requires
        0 < ids.len() <= limit + 1,
        forall|j: int|
            0 <= j < ids.len() - 1 ==> {
                &&& (t.lookup(#[trigger] ids[j]) matches Ok(Some(v)) && *v.data is Delta && v.prev_version
                    == Some(ids[j + 1]))
            },
        match t.lookup(ids.last()) {
            Ok(Some(v)) => *v.data is Delta && v.prev_version is None,
            _ => true,
        },
    ensures
        chain_properties(t, ids[0], limit) == Err::<Properties, ErrorView>(
            match t.lookup(ids.last()) {
                Err(e) => e,
                Ok(None) => if ids.len() == 1 {
                    ErrorView::VersionNotFound(VersionId(ids[0]))
                } else {
                    ErrorView::MissingAnchor {
                        entity_id: decimal(t.lookup(ids[0])->Ok_0->Some_0.entity as nat),
                    }
                },
                Ok(Some(v)) => ErrorView::CorruptedVersionChain {
                    entity_id: decimal(v.entity as nat),
                    reason: "Delta version has no previous version"@,
                },
            },
        ),
{
    lemma_chain_breaks(t, ids, 0, limit);
}

proof fn lemma_chain_holds<E>(t: Tiers<E>, ids: Seq<u64>, i: int, limit: nat, states: Seq<Properties>)
    requires
        0 <= i < ids.len(),
        ids.len() <= limit + 1,
        states.len() == ids.len(),
        forall|j: int|
            0 <= j < ids.len() - 1 ==> {
                &&& (t.lookup(#[trigger] ids[j]) matches Ok(Some(v)) && (*v.data matches VersionData::Delta {
                    delta,
                } && v.prev_version == Some(ids[j + 1]) && states[j] == delta_applied(
                    states[j + 1],
                    delta@,
                )))
            },
        t.lookup(ids.last()) matches Ok(Some(v)) && (*v.data matches VersionData::Anchor {
            properties,
            ..
        } && states.last() == properties@),
    ensures
        chain_result(t, ids[0], ids[i], i as nat, limit) == Ok::<Properties, ErrorView>(states[i]),
    decreases ids.len() - i,
{
    if i < ids.len() - 1 {
        assert(t.lookup(ids[i]) matches Ok(Some(v)) && v.prev_version == Some(ids[i + 1]));
        lemma_chain_holds(t, ids, i + 1, limit, states);
    }
}

/// A chain that holds gives the properties of its anchor with every delta since applied to them in
/// turn: where deltas lead back to an anchor, within the limit, and each state is the one before it
/// with the delta applied, the first state is what the version has.
pub proof fn law_deltas_apply_in_turn<E>(
    t: Tiers<E>,
    ids: Seq<u64>,
    limit: nat,
    states: Seq<Properties>,
)
    requires
        0 < ids.len() <= limit + 1,
        states.len() == ids.len(),
        forall|j: int|
            0 <= j < ids.len() - 1 ==> {
                &&& (t.lookup(#[trigger] ids[j]) matches Ok(Some(v)) && (*v.data matches VersionData::Delta {
                    delta,
                } && v.prev_version == Some(ids[j + 1]) && states[j] == delta_applied(
                    states[j + 1],
                    delta@,
                )))
            },
        t.lookup(ids.last()) matches Ok(Some(v)) && (*v.data matches VersionData::Anchor {
            properties,
            ..
        } && states.last() == properties@),
    ensures
        chain_properties(t, ids[0], limit) == Ok::<Properties, ErrorView>(states[0]),
{
    lemma_chain_holds(t, ids, 0, limit, states);
}

/// A tier that says the same as another holds the same versions, fails on the same ones with the
/// same words, and has counted the same.
pub proof fn law_copied_tier_says_the_same<E>(a: ColdTier<E>, b: ColdTier<E>, id: u64)
    requires
        a.says_the_same(b),
    ensures
        tiers_of(Map::empty(), Some(a)).lookup(id) == tiers_of(Map::empty(), Some(b)).lookup(id),
        a.cursors@ == b.cursors@,
        a.hot_hits == b.hot_hits,
{
    assert(a.faults@.dom().contains(id) == b.faults@.dom().contains(id));
    if a.faults@.contains_key(id) {
        assert(a.faults@[id]@ == b.faults@[id]@);
    }
}

} // verus!

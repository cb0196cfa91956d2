//! Finding the version of an entity that was visible at a bi-temporal point, and listing the
//! versions of an entity.

use super::interval_index::{indexed, newest_visible};
use super::table::{entry_of, VersionTable};
use crate::error::{Error, ErrorView, StorageError};
use crate::ids::{EdgeId, NodeId};
use crate::temporal::Timestamp;
use crate::version::{EntityKind, EntityVersion};
use vstd::prelude::*;

verus! {

broadcast use vstd::std_specs::hash::group_hash_axioms;

/// The first version, walking back from `id` by at most `fuel` links, that is visible at the
/// point. The walk ends where a version is not in memory or has no predecessor.
pub open spec fn scan_back<E>(
    m: Map<u64, EntityVersion<E>>,
    id: u64,
    valid_time: Timestamp,
    transaction_time: Timestamp,
    fuel: nat,
) -> Option<u64>
    decreases fuel,
{
    if !m.contains_key(id) {
        None
    } else if m[id].temporal.visible(valid_time, transaction_time) {
        Some(id)
    } else {
        match m[id].prev_version {
            None => None,
            Some(prev) => if fuel == 0 {
                None
            } else {
                scan_back(m, prev, valid_time, transaction_time, (fuel - 1) as nat)
            },
        }
    }
}

/// What a scan finds is in memory and visible at the point.
pub proof fn lemma_scan_finds_visible<E>(
    m: Map<u64, EntityVersion<E>>,
    id: u64,
    valid_time: Timestamp,
    transaction_time: Timestamp,
    fuel: nat,
)
    ensures
        scan_back(m, id, valid_time, transaction_time, fuel) matches Some(v) ==> m.contains_key(v)
            && m[v].temporal.visible(valid_time, transaction_time),
    decreases fuel,
{
    if m.contains_key(id) && m[id].prev_version is Some && fuel > 0 {
        lemma_scan_finds_visible(
            m,
            m[id].prev_version->0,
            valid_time,
            transaction_time,
            (fuel - 1) as nat,
        );
    }
}

proof fn lemma_index_finds_visible<E>(
    list: Seq<super::interval_index::IndexEntry>,
    m: Map<u64, EntityVersion<E>>,
    valid_time: Timestamp,
    transaction_time: Timestamp,
)
    ensures
        newest_visible(list, m, valid_time, transaction_time) matches Some(v) ==> m.contains_key(v)
            && m[v].temporal.visible(valid_time, transaction_time),
    decreases list.len(),
{
    if list.len() > 0 {
        lemma_index_finds_visible(list.drop_last(), m, valid_time, transaction_time);
    }
}

/// The versions met on the way back from `id`, the latest first; `None` when there are more than
/// `fuel` links to follow.
pub open spec fn links_back<E>(m: Map<u64, EntityVersion<E>>, id: u64, fuel: nat) -> Option<
    Seq<u64>,
>
    decreases fuel,
{
    if m.contains_key(id) && m[id].prev_version is Some {
        if fuel == 0 {
            None
        } else {
            match links_back(m, m[id].prev_version->0, (fuel - 1) as nat) {
                Some(rest) => Some(seq![id] + rest),
                None => None,
            }
        }
    } else {
        Some(seq![id])
    }
}

/// Following the links back from `id` comes to an end: the chain does not run in a circle.
pub open spec fn links_end<E>(m: Map<u64, EntityVersion<E>>, id: u64) -> bool {
    exists|fuel: nat| (#[trigger] links_back(m, id, fuel)) is Some
}

/// The versions of the chain that ends in `id`, the latest first.
pub open spec fn chain_ids<E>(m: Map<u64, EntityVersion<E>>, id: u64) -> Seq<u64> {
    links_back(m, id, choose|fuel: nat| (#[trigger] links_back(m, id, fuel)) is Some)->0
}

/// However many links may be followed, the chain is the same.
pub proof fn lemma_links_fuel<E>(m: Map<u64, EntityVersion<E>>, id: u64, a: nat, b: nat)
    requires
        links_back(m, id, a) is Some,
        links_back(m, id, b) is Some,
    ensures
        links_back(m, id, a) == links_back(m, id, b),
    decreases a,
{
    if m.contains_key(id) && m[id].prev_version is Some {
        lemma_links_fuel(m, m[id].prev_version->0, (a - 1) as nat, (b - 1) as nat);
    }
}

/// One step of a chain that comes to an end.
pub proof fn lemma_chain_step<E>(m: Map<u64, EntityVersion<E>>, id: u64)
    requires
        links_end(m, id),
    ensures
        m.contains_key(id) && m[id].prev_version is Some ==> links_end(m, m[id].prev_version->0)
            && chain_ids(m, id) == seq![id] + chain_ids(m, m[id].prev_version->0),
        !(m.contains_key(id) && m[id].prev_version is Some) ==> chain_ids(m, id) == seq![id],
{
    let fuel = choose|f: nat| (#[trigger] links_back(m, id, f)) is Some;
    if m.contains_key(id) && m[id].prev_version is Some {
        let prev = m[id].prev_version->0;
        assert(links_back(m, prev, (fuel - 1) as nat) is Some);
        let other = choose|f: nat| (#[trigger] links_back(m, prev, f)) is Some;
        lemma_links_fuel(m, prev, (fuel - 1) as nat, other);
    }
}

/// Every version of a chain but its oldest is in memory.
pub proof fn lemma_chain_in_memory<E>(m: Map<u64, EntityVersion<E>>, id: u64)
    requires
        links_end(m, id),
    ensures
        chain_ids(m, id).len() > 0,
        chain_ids(m, id)[0] == id,
        forall|i: int|
            0 <= i < chain_ids(m, id).len() - 1 ==> m.contains_key(#[trigger] chain_ids(m, id)[i]),
    decreases chain_ids(m, id).len(),
{
    lemma_chain_step(m, id);
    if m.contains_key(id) && m[id].prev_version is Some {
        let prev = m[id].prev_version->0;
        let rest = chain_ids(m, prev);
        assert((seq![id] + rest).len() == rest.len() + 1);
        lemma_chain_in_memory(m, prev);
        assert forall|i: int| 0 <= i < chain_ids(m, id).len() - 1 implies m.contains_key(
            #[trigger] chain_ids(m, id)[i],
        ) by {
            if i > 0 {
                assert(chain_ids(m, id)[i] == rest[i - 1]);
            }
        }
    }
}

/// The error for an entity that is not there.
pub open spec fn not_found(kind: EntityKind, entity: u64) -> ErrorView {
    match kind {
        EntityKind::Node => ErrorView::NodeNotFound(NodeId(entity)),
        EntityKind::Edge => ErrorView::EdgeNotFound(EdgeId(entity)),
    }
}

/// The error for an entity that is not there.
pub fn not_found_error(kind: EntityKind, entity: u64) -> (r: Error)
    ensures
        r@ == not_found(kind, entity),
{
    match kind {
        EntityKind::Node => Error::Storage(StorageError::NodeNotFound(NodeId(entity))),
        EntityKind::Edge => Error::Storage(StorageError::EdgeNotFound(EdgeId(entity))),
    }
}

impl<E> VersionTable<E> {
    /// The version of an entity that is visible at the point. With an index: the most recently
    /// indexed one. Without: the first on the way back from the latest version.
    pub open spec fn version_at(
        self,
        entity: u64,
        valid_time: Timestamp,
        transaction_time: Timestamp,
    ) -> Option<u64> {
        match self.index {
            Some(index) => newest_visible(
                indexed(index@, entity),
                self.versions@,
                valid_time,
                transaction_time,
            ),
            None => match entry_of(self.heads@, entity) {
                Some(head) => scan_back(
                    self.versions@,
                    head,
                    valid_time,
                    transaction_time,
                    self.versions@.len() + 1,
                ),
                None => None,
            },
        }
    }

    /// A version that is found at a point is in memory and visible there.
    pub proof fn law_found_is_visible(
        self,
        entity: u64,
        valid_time: Timestamp,
        transaction_time: Timestamp,
    )
        ensures
            self.version_at(entity, valid_time, transaction_time) matches Some(v)
                ==> self.versions@.contains_key(v) && self.versions@[v].temporal.visible(
                valid_time,
                transaction_time,
            ),
    {
        if self.index is Some {
            lemma_index_finds_visible(
                indexed(self.index->0@, entity),
                self.versions@,
                valid_time,
                transaction_time,
            );
        } else if self.heads@.contains_key(entity) {
            lemma_scan_finds_visible(
                self.versions@,
                self.heads@[entity],
                valid_time,
                transaction_time,
                self.versions@.len() + 1,
            );
        }
    }

    /// Finds the version of an entity that is visible at the point.
    pub fn find_version_at_time(
        &self,
        entity: u64,
        valid_time: Timestamp,
        transaction_time: Timestamp,
    ) -> (r: Option<u64>)
        ensures
            r == self.version_at(entity, valid_time, transaction_time),
    {
        if let Some(index) = &self.index {
            return index.find_at(entity, &self.versions, valid_time, transaction_time);
        }
        let mut current: u64 = match self.heads.get(&entity) {
            Some(head) => *head,
            None => {
                return None;
            },
        };
        let max_iterations: u128 = self.versions.len() as u128 + 1;
        let mut iterations: u128 = 0;
        let ghost goal = self.version_at(entity, valid_time, transaction_time);
        loop
            invariant
                goal == self.version_at(entity, valid_time, transaction_time),
                iterations <= max_iterations,
                max_iterations <= 0x1_0000_0000_0000_0000,
                goal == scan_back(
                    self.versions@,
                    current,
                    valid_time,
                    transaction_time,
                    (max_iterations - iterations) as nat,
                ),
            decreases max_iterations - iterations,
        {
            match self.versions.get(&current) {
                None => {
                    return None;
                },
                Some(version) => {
                    if version.temporal.is_visible_at(valid_time, transaction_time) {
                        return Some(current);
                    }
                    match version.prev_version {
                        None => {
                            return None;
                        },
                        Some(prev) => {
                            current = prev;
                        },
                    }
                },
            }
            iterations = iterations + 1;
            if iterations > max_iterations {
                return None;
            }
        }
    }

    /// The versions of the chain that ends in `head`, the oldest first.
    pub fn chain_from_oldest(&self, head: u64) -> (r: Vec<u64>)
        requires
            links_end(self.versions@, head),
        ensures
            r@ == chain_ids(self.versions@, head).reverse(),
    {
        let ghost m = self.versions@;
        let ghost all = chain_ids(m, head);
        let mut ids: Vec<u64> = Vec::new();
        let mut current: u64 = head;
        loop
            invariant_except_break
                links_end(m, current),
                all == ids@ + chain_ids(m, current),
            invariant
                m == self.versions@,
            ensures
                all == ids@,
            decreases chain_ids(m, current).len(),
        {
            proof {
                lemma_chain_step(m, current);
            }
            let ghost before = ids@;
            ids.push(current);
            assert(before + seq![current] =~= ids@);
            let prev: Option<u64> = match self.versions.get(&current) {
                Some(version) => version.prev_version,
                None => None,
            };
            match prev {
                Some(p) => {
                    assert(before + (seq![current] + chain_ids(m, p)) =~= ids@ + chain_ids(m, p));
                    assert(chain_ids(m, current).len() == chain_ids(m, p).len() + 1);
                    current = p;
                },
                None => {
                    break ;
                },
            }
        }
        let mut oldest_first: Vec<u64> = Vec::new();
        let mut left: usize = ids.len();
        while left > 0
            invariant
                left <= ids.len(),
                oldest_first@.len() == ids@.len() - left,
                forall|i: int|
                    0 <= i < oldest_first@.len() ==> oldest_first@[i] == ids@[ids@.len() - 1 - i],
            decreases left,
        {
            left = left - 1;
            oldest_first.push(ids[left]);
        }
        assert(oldest_first@ =~= all.reverse());
        oldest_first
    }
}

/// Versions that lead back from `head`, each in memory and linked to the one after it, none met
/// twice. The last one may be anything that the one before it links to.
pub open spec fn leads_back<E>(m: Map<u64, EntityVersion<E>>, head: u64, ids: Seq<u64>) -> bool {
    &&& ids.len() > 0
    &&& ids[0] == head
    &&& ids.no_duplicates()
    &&& forall|i: int|
        0 <= i < ids.len() - 1 ==> m.contains_key(#[trigger] ids[i]) && m[ids[i]].prev_version
            == Some(ids[i + 1])
}

/// A scan along versions that lead back finds the first that is visible.
pub proof fn lemma_scan_along<E>(
    m: Map<u64, EntityVersion<E>>,
    ids: Seq<u64>,
    from: int,
    valid_time: Timestamp,
    transaction_time: Timestamp,
    fuel: nat,
    at: int,
)
    requires
        leads_back(m, ids[0], ids),
        0 <= from <= at < ids.len(),
        m.contains_key(ids[at]),
        m[ids[at]].temporal.visible(valid_time, transaction_time),
        forall|j: int|
            from <= j < at ==> !m[#[trigger] ids[j]].temporal.visible(valid_time, transaction_time),
        fuel >= at - from,
    ensures
        scan_back(m, ids[from], valid_time, transaction_time, fuel) == Some(ids[at]),
    decreases at - from,
{
    if from < at {
        assert(m.contains_key(ids[from]) && m[ids[from]].prev_version == Some(ids[from + 1]));
        lemma_scan_along(
            m,
            ids,
            from + 1,
            valid_time,
            transaction_time,
            (fuel - 1) as nat,
            at,
        );
    }
}

/// A scan along versions that lead back to an end finds nothing where none is visible.
pub proof fn lemma_scan_nothing<E>(
    m: Map<u64, EntityVersion<E>>,
    ids: Seq<u64>,
    from: int,
    valid_time: Timestamp,
    transaction_time: Timestamp,
    fuel: nat,
)
    requires
        leads_back(m, ids[0], ids),
        0 <= from < ids.len(),
        !m.contains_key(ids.last()) || m[ids.last()].prev_version is None,
        forall|j: int|
            from <= j < ids.len() ==> m.contains_key(#[trigger] ids[j]) ==> !m[ids[j]].temporal.visible(
                valid_time,
                transaction_time,
            ),
    ensures
        scan_back(m, ids[from], valid_time, transaction_time, fuel) is None,
    decreases ids.len() - from,
{
    if from < ids.len() - 1 && fuel > 0 {
        assert(m.contains_key(ids[from]) && m[ids[from]].prev_version == Some(ids[from + 1]));
        lemma_scan_nothing(m, ids, from + 1, valid_time, transaction_time, (fuel - 1) as nat);
    }
}

/// So many versions that lead back are at most as many as there are in memory.
pub proof fn lemma_as_many_as_versions<E>(m: Map<u64, EntityVersion<E>>, ids: Seq<u64>, n: int)
    requires
        m.dom().finite(),
        leads_back(m, ids[0], ids),
        0 <= n <= ids.len() - 1,
    ensures
        n <= m.len(),
{
    let first = ids.take(n);
    assert(first.no_duplicates());
    first.unique_seq_to_set();
    assert(first.to_set().subset_of(m.dom())) by {
        assert forall|id: u64| first.to_set().contains(id) implies m.dom().contains(id) by {
            let j = choose|j: int| 0 <= j < first.len() && first[j] == id;
            assert(ids[j] == id);
        }
    }
    vstd::set_lib::lemma_len_subset(first.to_set(), m.dom());
}

/// Without an index, what is visible is found: of the versions that lead back from the latest
/// version of an entity, however far, the lookup gives the first that holds at the valid time and
/// is known at the transaction time, and nothing exactly if there is none.
pub proof fn law_visible_is_found<E>(
    t: VersionTable<E>,
    entity: u64,
    ids: Seq<u64>,
    valid_time: Timestamp,
    transaction_time: Timestamp,
    at: int,
)
    requires
        t.index is None,
        t.versions@.dom().finite(),
        t.heads@.contains_key(entity),
        leads_back(t.versions@, t.heads@[entity], ids),
    ensures
        ({
            let m = t.versions@;
            let shows = |i: int|
                {
                    let when_known = m[ids[i]].temporal;
                    &&& m.contains_key(ids[i])
                    &&& when_known.valid_time.start.key() <= valid_time.key()
                    &&& valid_time.key() < when_known.valid_time.end.key()
                    &&& when_known.transaction_time.start.key() <= transaction_time.key()
                    &&& transaction_time.key() < when_known.transaction_time.end.key()
                };
            &&& 0 <= at < ids.len() && shows(at) && (forall|j: int| 0 <= j < at ==> !#[trigger] shows(j))
                ==> t.version_at(entity, valid_time, transaction_time) == Some(ids[at])
            &&& (!m.contains_key(ids.last()) || m[ids.last()].prev_version is None) && (forall|j: int|
                0 <= j < ids.len() ==> !#[trigger] shows(j)) ==> t.version_at(
                entity,
                valid_time,
                transaction_time,
            ) is None
        }),
{
    let m = t.versions@;
    let shows = |i: int|
        {
            let when_known = m[ids[i]].temporal;
            &&& m.contains_key(ids[i])
            &&& when_known.valid_time.start.key() <= valid_time.key()
            &&& valid_time.key() < when_known.valid_time.end.key()
            &&& when_known.transaction_time.start.key() <= transaction_time.key()
            &&& transaction_time.key() < when_known.transaction_time.end.key()
        };
    if 0 <= at < ids.len() && shows(at) && (forall|j: int| 0 <= j < at ==> !#[trigger] shows(j)) {
        assert forall|j: int| 0 <= j < at implies !m[#[trigger] ids[j]].temporal.visible(
            valid_time,
            transaction_time,
        ) by {
            assert(!shows(j));
        }
        lemma_as_many_as_versions(m, ids, at);
        lemma_scan_along(m, ids, 0, valid_time, transaction_time, m.len() + 1, at);
    }
    if (!m.contains_key(ids.last()) || m[ids.last()].prev_version is None) && (forall|j: int|
        0 <= j < ids.len() ==> !#[trigger] shows(j)) {
        assert forall|j: int|
            0 <= j < ids.len() implies m.contains_key(#[trigger] ids[j]) ==> !m[ids[j]].temporal.visible(
            valid_time,
            transaction_time,
        ) by {
            assert(!shows(j));
        }
        lemma_scan_nothing(m, ids, 0, valid_time, transaction_time, m.len() + 1);
    }
}

proof fn lemma_newest_along<E>(
    list: Seq<super::interval_index::IndexEntry>,
    m: Map<u64, EntityVersion<E>>,
    valid_time: Timestamp,
    transaction_time: Timestamp,
    at: int,
)
    requires
        0 <= at < list.len(),
        super::interval_index::entry_visible(list[at], m, valid_time, transaction_time),
        forall|j: int|
            at < j < list.len() ==> !super::interval_index::entry_visible(
                #[trigger] list[j],
                m,
                valid_time,
                transaction_time,
            ),
    ensures
        newest_visible(list, m, valid_time, transaction_time) == Some(list[at].version),
    decreases list.len(),
{
    let last = list.len() - 1;
    if at < last {
        assert(!super::interval_index::entry_visible(list[last], m, valid_time, transaction_time));
        let shorter = list.drop_last();
        assert forall|j: int|
            at < j < shorter.len() implies !super::interval_index::entry_visible(
            #[trigger] shorter[j],
            m,
            valid_time,
            transaction_time,
        ) by {
            assert(shorter[j] == list[j]);
        }
        lemma_newest_along(shorter, m, valid_time, transaction_time, at);
    }
}

/// With an index, what is visible is found: of the indexed versions of an entity that are in memory
/// and visible at the point, both by the index and by the version, the lookup gives the one that
/// was indexed last.
pub proof fn law_indexed_is_found<E>(
    t: VersionTable<E>,
    entity: u64,
    valid_time: Timestamp,
    transaction_time: Timestamp,
    at: int,
)
    requires
        t.index is Some,
        t.index->0@.contains_key(entity),
    ensures
        ({
            let list = t.index->0@[entity];
            let m = t.versions@;
            let shows = |i: int|
                {
                    let noted = list[i].interval;
                    let known = m[list[i].version].temporal;
                    &&& m.contains_key(list[i].version)
                    &&& noted.valid_time.start.key() <= valid_time.key()
                    &&& valid_time.key() < noted.valid_time.end.key()
                    &&& noted.transaction_time.start.key() <= transaction_time.key()
                    &&& transaction_time.key() < noted.transaction_time.end.key()
                    &&& known.valid_time.start.key() <= valid_time.key()
                    &&& valid_time.key() < known.valid_time.end.key()
                    &&& known.transaction_time.start.key() <= transaction_time.key()
                    &&& transaction_time.key() < known.transaction_time.end.key()
                };
            0 <= at < list.len() && shows(at) && (forall|j: int|
                at < j < list.len() ==> !#[trigger] shows(j)) ==> t.version_at(
                entity,
                valid_time,
                transaction_time,
            ) == Some(list[at].version)
        }),
{
    let list = t.index->0@[entity];
    let m = t.versions@;
    let shows = |i: int|
        {
            let noted = list[i].interval;
            let known = m[list[i].version].temporal;
            &&& m.contains_key(list[i].version)
            &&& noted.valid_time.start.key() <= valid_time.key()
            &&& valid_time.key() < noted.valid_time.end.key()
            &&& noted.transaction_time.start.key() <= transaction_time.key()
            &&& transaction_time.key() < noted.transaction_time.end.key()
            &&& known.valid_time.start.key() <= valid_time.key()
            &&& valid_time.key() < known.valid_time.end.key()
            &&& known.transaction_time.start.key() <= transaction_time.key()
            &&& transaction_time.key() < known.transaction_time.end.key()
        };
    if 0 <= at < list.len() && shows(at) && (forall|j: int|
        at < j < list.len() ==> !#[trigger] shows(j)) {
        assert forall|j: int|
            at < j < list.len() implies !super::interval_index::entry_visible(
            #[trigger] list[j],
            m,
            valid_time,
            transaction_time,
        ) by {
            assert(!shows(j));
        }
        lemma_newest_along(list, m, valid_time, transaction_time, at);
    }
}

/// The chain of a version is made of the versions that lead back from it until there is no link or
/// nothing in memory to follow, and of no other.
pub proof fn law_chain_follows_the_links<E>(m: Map<u64, EntityVersion<E>>, ids: Seq<u64>)
    requires
        leads_back(m, ids[0], ids),
        !m.contains_key(ids.last()) || m[ids.last()].prev_version is None,
    ensures
        links_end(m, ids[0]),
        chain_ids(m, ids[0]) == ids,
    decreases ids.len(),
{
    if ids.len() == 1 {
        assert(links_back(m, ids[0], 0) is Some);
        lemma_chain_step(m, ids[0]);
        assert(seq![ids[0]] =~= ids);
    } else {
        let rest = ids.skip(1);
        assert(m.contains_key(ids[0]) && m[ids[0]].prev_version == Some(ids[1]));
        assert(leads_back(m, rest[0], rest)) by {
            assert forall|i: int| 0 <= i < rest.len() - 1 implies m.contains_key(#[trigger] rest[i])
                && m[rest[i]].prev_version == Some(rest[i + 1]) by {
                assert(ids[i + 1] == rest[i]);
            }
        }
        law_chain_follows_the_links(m, rest);
        let fuel = choose|f: nat| (#[trigger] links_back(m, rest[0], f)) is Some;
        assert(links_back(m, ids[0], fuel + 1) is Some);
        lemma_chain_step(m, ids[0]);
        assert(seq![ids[0]] + rest =~= ids);
    }
}

/// What is missing is told by its kind and number.
pub proof fn law_missing_entity_is_named(entity: u64)
    ensures
        not_found(EntityKind::Node, entity) == ErrorView::NodeNotFound(NodeId(entity)),
        not_found(EntityKind::Edge, entity) == ErrorView::EdgeNotFound(EdgeId(entity)),
{
}

} // verus!

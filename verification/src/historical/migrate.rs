//! Moving versions between tiers, restoring them, and closing their transaction time.

use super::chain::ChangeCursor;
use super::interval_index::index_closed;
use super::table::{number_of, VersionTable};
use crate::error::{Error, ErrorView, StorageError};
use crate::ids::VersionId;
use crate::temporal::Timestamp;
use crate::version::{EntityKind, EntityVersion};
use vstd::prelude::*;

verus! {

broadcast use vstd::std_specs::hash::group_hash_axioms;

/// What the migration service decided and did: the versions it picked, and how many of them, from
/// the first on, are in the cold store now.
pub struct MigrationRun {
    /// The versions to move.
    pub candidates: Vec<u64>,
    /// How many were moved, or why the move failed.
    pub outcome: Result<usize, Error>,
}

/// The versions of the candidates that are in memory, in the order of the candidates.
pub open spec fn batch_of<E>(m: Map<u64, EntityVersion<E>>, candidates: Seq<u64>) -> Seq<
    EntityVersion<E>,
>
    decreases candidates.len(),
{
    if candidates.len() == 0 {
        Seq::empty()
    } else {
        let before = batch_of(m, candidates.drop_last());
        if m.contains_key(candidates.last()) {
            before.push(m[candidates.last()])
        } else {
            before
        }
    }
}

/// The candidates are distinct versions in memory, as a service finds them that goes through
/// memory.
pub open spec fn drawn_from<E>(candidates: Seq<u64>, m: Map<u64, EntityVersion<E>>) -> bool {
    &&& candidates.no_duplicates()
    &&& forall|i: int| 0 <= i < candidates.len() ==> m.contains_key(#[trigger] candidates[i])
}

impl MigrationRun {
    /// A run that went through the given versions: its candidates are among them, each once, and it
    /// moved no more than those.
    pub open spec fn ran_over<E>(self, m: Map<u64, EntityVersion<E>>) -> bool {
        &&& drawn_from(self.candidates@, m)
        &&& self.outcome matches Ok(n) ==> n <= self.candidates@.len()
    }
}

/// Where all candidates are in memory, the batch is made of their versions.
pub proof fn lemma_batch_is_complete<E>(m: Map<u64, EntityVersion<E>>, ids: Seq<u64>)
    requires
        forall|i: int| 0 <= i < ids.len() ==> m.contains_key(#[trigger] ids[i]),
    ensures
        batch_of(m, ids).len() == ids.len(),
        forall|i: int| 0 <= i < ids.len() ==> #[trigger] batch_of(m, ids)[i] == m[ids[i]],
    decreases ids.len(),
{
    if ids.len() > 0 {
        assert(m.contains_key(ids[ids.len() - 1]));
        assert forall|i: int| 0 <= i < ids.drop_last().len() implies m.contains_key(
            #[trigger] ids.drop_last()[i],
        ) by {
            assert(m.contains_key(ids[i]));
        }
        lemma_batch_is_complete(m, ids.drop_last());
    }
}

/// The position of a version in the feed of changes.
pub open spec fn cursor_of<E>(kind: EntityKind, v: EntityVersion<E>) -> ChangeCursor {
    ChangeCursor {
        commit_timestamp: v.temporal.transaction_time.start,
        kind,
        entity: v.entity,
        version: v.id,
    }
}

/// The part of a table that moving versions out of memory changes.
pub struct HotPart<E> {
    /// The versions in memory.
    pub versions: Map<u64, EntityVersion<E>>,
    /// How many versions of each entity are in memory.
    pub counts: Map<u64, usize>,
    /// How many versions in memory are anchors.
    pub anchor_count: usize,
    /// How many versions in memory are deltas.
    pub delta_count: usize,
}

/// One less, but not below zero.
pub open spec fn one_less(n: usize) -> usize {
    if n > 0 {
        (n - 1) as usize
    } else {
        0
    }
}

impl<E> HotPart<E> {
    /// What is left after a version was moved out of memory. For an edge without a count, the
    /// totals stay as they are.
    pub open spec fn without(self, kind: EntityKind, id: u64) -> HotPart<E> {
        if !self.versions.contains_key(id) {
            self
        } else {
            let v = self.versions[id];
            let counted = self.counts.contains_key(v.entity);
            let totals = kind == EntityKind::Node || counted;
            HotPart {
                versions: self.versions.remove(id),
                counts: if counted {
                    self.counts.insert(v.entity, one_less(self.counts[v.entity]))
                } else {
                    self.counts
                },
                anchor_count: if totals && v.anchored() {
                    one_less(self.anchor_count)
                } else {
                    self.anchor_count
                },
                delta_count: if totals && !v.anchored() {
                    one_less(self.delta_count)
                } else {
                    self.delta_count
                },
            }
        }
    }

    /// What is left after several versions were moved out of memory, one after the other.
    pub open spec fn without_all(self, kind: EntityKind, ids: Seq<u64>) -> HotPart<E>
        decreases ids.len(),
    {
        if ids.len() == 0 {
            self
        } else {
            self.without_all(kind, ids.drop_last()).without(kind, ids.last())
        }
    }
}

/// What is left in memory after versions were moved out of it.
pub proof fn lemma_memory_after_migration<E>(h: HotPart<E>, kind: EntityKind, ids: Seq<u64>)
    ensures
        h.without_all(kind, ids).versions == h.versions.remove_keys(ids.to_set()),
    decreases ids.len(),
{
    if ids.len() == 0 {
        assert(h.versions.remove_keys(ids.to_set()) =~= h.versions);
    } else {
        lemma_memory_after_migration(h, kind, ids.drop_last());
        assert forall|x: u64| #[trigger] ids.to_set().contains(x) <==> x == ids.last()
            || ids.drop_last().to_set().contains(x) by {
            if ids.drop_last().contains(x) {
                let j = choose|j: int| 0 <= j < ids.drop_last().len() && ids.drop_last()[j] == x;
                assert(ids[j] == x);
            }
            if ids.contains(x) && x != ids.last() {
                let j = choose|j: int| 0 <= j < ids.len() && ids[j] == x;
                assert(ids.drop_last()[j] == x);
            }
        }
        assert(h.without_all(kind, ids).versions =~= h.versions.remove_keys(ids.to_set()));
    }
}

/// Distinct versions that are moved out of memory make it smaller by as many.
pub proof fn lemma_memory_shrinks<E>(h: HotPart<E>, kind: EntityKind, ids: Seq<u64>)
    requires
        h.versions.dom().finite(),
        drawn_from(ids, h.versions),
    ensures
        h.without_all(kind, ids).versions.len() == h.versions.len() - ids.len(),
{
    lemma_memory_after_migration(h, kind, ids);
    ids.unique_seq_to_set();
    assert forall|k: u64| #[trigger] ids.to_set().contains(k) implies h.versions.contains_key(k) by {
        let i = choose|i: int| 0 <= i < ids.len() && ids[i] == k;
        assert(h.versions.contains_key(ids[i]));
    }
    h.versions.lemma_remove_keys_len(ids.to_set());
}

/// The versions of the cold store after a batch was written to it.
pub open spec fn cold_with<E>(
    cold: Map<u64, EntityVersion<E>>,
    batch: Seq<EntityVersion<E>>,
) -> Map<u64, EntityVersion<E>>
    decreases batch.len(),
{
    if batch.len() == 0 {
        cold
    } else {
        cold_with(cold, batch.drop_last()).insert(batch.last().id, batch.last())
    }
}

impl<E> VersionTable<E> {
    /// The part of the table that moving versions out of memory changes.
    pub open spec fn hot_part(self) -> HotPart<E> {
        HotPart {
            versions: self.versions@,
            counts: self.counts@,
            anchor_count: self.anchor_count,
            delta_count: self.delta_count,
        }
    }

    /// The two tables differ at most in that part, and in the cold tier.
    pub open spec fn same_but_tiers(self, other: VersionTable<E>) -> bool {
        &&& self.kind == other.kind
        &&& self.heads == other.heads
        &&& self.since_anchor == other.since_anchor
        &&& self.property_cache == other.property_cache
        &&& self.anchor_cache == other.anchor_cache
        &&& self.index == other.index
        &&& self.policies == other.policies
        &&& self.hooks == other.hooks
    }

    /// What a migration run comes to: its own outcome, unless there was nothing to move.
    pub open spec fn migration_of(self, run: MigrationRun) -> Result<usize, Error> {
        if run.candidates@.len() == 0 {
            Ok(0)
        } else {
            run.outcome
        }
    }

    /// What a migration run makes of the table: nothing where there was nothing to move or the run
    /// failed.
    pub open spec fn migration_done(self, run: MigrationRun, after: VersionTable<E>) -> bool {
        match self.migration_of(run) {
            Ok(n) => if run.candidates@.len() == 0 {
                after == self
            } else {
                self.migrated(run.candidates@, n as int, after)
            },
            Err(_) => after == self,
        }
    }

    /// The table after `n` of the candidates were moved to the cold tier.
    pub open spec fn migrated(self, candidates: Seq<u64>, n: int, after: VersionTable<E>) -> bool {
        let batch = batch_of(self.versions@, candidates).take(n);
        &&& after.hot_part() == self.hot_part().without_all(self.kind, candidates.take(n))
        &&& after.same_but_tiers(self)
        &&& match (self.cold, after.cold) {
            (Some(before), Some(now)) => {
                &&& now.versions@ == cold_with(before.versions@, batch)
                &&& now.faults == before.faults
                &&& now.hot_hits == before.hot_hits
                &&& now.cursors@ == before.cursors@ + batch.map_values(
                    |v: EntityVersion<E>| cursor_of(self.kind, v),
                )
            },
            (before, now) => before == now,
        }
    }
}

impl<E: Copy> VersionTable<E> {
    /// The versions of the candidates that are in memory.
    pub fn migration_batch(&self, candidates: &Vec<u64>) -> (r: Vec<EntityVersion<E>>)
        ensures
            r@ == batch_of(self.versions@, candidates@),
    {
        let mut batch: Vec<EntityVersion<E>> = Vec::new();
        let mut i: usize = 0;
        while i < candidates.len()
            invariant
                i <= candidates.len(),
                batch@ == batch_of(self.versions@, candidates@.take(i as int)),
            decreases candidates.len() - i,
        {
            assert(candidates@.take(i + 1).drop_last() =~= candidates@.take(i as int));
            if let Some(v) = self.versions.get(&candidates[i]) {
                batch.push(v.copied());
            }
            i = i + 1;
        }
        assert(candidates@.take(i as int) =~= candidates@);
        batch
    }

    fn record_cold(&mut self, batch: &Vec<EntityVersion<E>>, n: usize)
        requires
            n <= batch@.len(),
        ensures
            final(self).hot_part() == old(self).hot_part(),
            final(self).same_but_tiers(*old(self)),
            match (old(self).cold, final(self).cold) {
                (Some(before), Some(now)) => {
                    &&& now.versions@ == cold_with(before.versions@, batch@.take(n as int))
                    &&& now.faults == before.faults
                    &&& now.hot_hits == before.hot_hits
                    &&& now.cursors@ == before.cursors@ + batch@.take(n as int).map_values(
                        |v: EntityVersion<E>| cursor_of(old(self).kind, v),
                    )
                },
                (before, now) => before == now,
            },
    {
        if let Some(mut tier) = self.cold.take() {
            let ghost before = tier;
            let ghost cursor = |v: EntityVersion<E>| cursor_of(old(self).kind, v);
            assert(before.cursors@ + batch@.take(0).map_values(cursor) =~= before.cursors@);
            let mut i: usize = 0;
            while i < n
                invariant
                    i <= n <= batch@.len(),
                    self.kind == old(self).kind,
                    cursor == (|v: EntityVersion<E>| cursor_of(old(self).kind, v)),
                    tier.versions@ == cold_with(before.versions@, batch@.take(i as int)),
                    tier.faults == before.faults,
                    tier.hot_hits == before.hot_hits,
                    tier.cursors@ == before.cursors@ + batch@.take(i as int).map_values(cursor),
                decreases n - i,
            {
                let v = &batch[i];
                assert(batch@.take(i + 1).drop_last() =~= batch@.take(i as int));
                assert(batch@.take(i + 1).last() == *v);
                let ghost cursors = tier.cursors@;
                tier.versions.insert(v.id, v.copied());
                tier.cursors.push(
                    ChangeCursor {
                        commit_timestamp: v.temporal.transaction_time.start,
                        kind: self.kind,
                        entity: v.entity,
                        version: v.id,
                    },
                );
                assert(cursors.push(cursor_of(old(self).kind, *v)) =~= before.cursors@
                    + batch@.take(i + 1).map_values(cursor));
                i = i + 1;
            }
            self.cold = Some(tier);
        }
    }

    fn drop_from_memory(&mut self, id: u64)
        ensures
            final(self).hot_part() == old(self).hot_part().without(old(self).kind, id),
            final(self).same_but_tiers(*old(self)),
            final(self).cold == old(self).cold,
    {
        if let Some(v) = self.versions.remove(&id) {
            let mut totals = match self.kind {
                EntityKind::Node => true,
                EntityKind::Edge => false,
            };
            let count: Option<usize> = match self.counts.get(&v.entity) {
                Some(c) => Some(*c),
                None => None,
            };
            if let Some(c) = count {
                self.counts.insert(v.entity, c.saturating_sub(1));
                totals = true;
            }
            if totals {
                if v.is_anchor() {
                    self.anchor_count = self.anchor_count.saturating_sub(1);
                } else {
                    self.delta_count = self.delta_count.saturating_sub(1);
                }
            }
        } else {
            assert(self.versions@ =~= old(self).versions@);
        }
    }

    /// Takes note of a migration run: of the versions that are in the cold store now, first the
    /// cold tier learns, so that each is always found in one tier; then they leave memory. A
    /// failed run changes nothing.
    pub fn migrate(&mut self, run: MigrationRun) -> (r: Result<usize, Error>)
        requires
            run.ran_over(old(self).versions@),
        ensures
            r == old(self).migration_of(run),
            old(self).migration_done(run, *final(self)),
            r matches Ok(n) ==> final(self).versions@.len() == old(self).versions@.len() - n,
    {
        let batch = self.migration_batch(&run.candidates);
        proof {
            lemma_batch_is_complete(self.versions@, run.candidates@);
        }
        if batch.len() == 0 {
            return Ok(0);
        }
        let n: usize = match run.outcome {
            Ok(n) => n,
            Err(e) => {
                return Err(e);
            },
        };
        self.record_cold(&batch, n);
        let ghost recorded = *self;
        let mut i: usize = 0;
        while i < n
            invariant
                i <= n <= run.candidates@.len(),
                self.hot_part() == recorded.hot_part().without_all(
                    recorded.kind,
                    run.candidates@.take(i as int),
                ),
                self.same_but_tiers(recorded),
                self.cold == recorded.cold,
            decreases n - i,
        {
            assert(run.candidates@.take(i + 1).drop_last() =~= run.candidates@.take(i as int));
            self.drop_from_memory(run.candidates[i]);
            i = i + 1;
        }
        proof {
            let moved = run.candidates@.take(n as int);
            assert(drawn_from(moved, recorded.versions@)) by {
                assert forall|j: int| 0 <= j < moved.len() implies recorded.versions@.contains_key(
                    #[trigger] moved[j],
                ) by {
                    assert(recorded.versions@ == recorded.hot_part().versions);
                    assert(old(self).versions@ == old(self).hot_part().versions);
                    assert(old(self).versions@.contains_key(run.candidates@[j]));
                }
            }
            lemma_memory_shrinks(recorded.hot_part(), recorded.kind, moved);
            assert(self.versions@ == self.hot_part().versions);
            assert(old(self).versions@ == old(self).hot_part().versions);
        }
        Ok(n)
    }

    /// Puts a restored version into memory as the latest of its entity.
    pub fn insert_restored(&mut self, version: EntityVersion<E>)
        requires
            number_of(old(self).counts@, version.entity) < usize::MAX,
            old(self).anchor_count < usize::MAX,
            old(self).delta_count < usize::MAX,
        ensures
            final(self).versions@ == old(self).versions@.insert(version.id, version),
            final(self).heads@ == old(self).heads@.insert(version.entity, version.id),
            final(self).counts@ == old(self).counts@.insert(
                version.entity,
                (number_of(old(self).counts@, version.entity) + 1) as usize,
            ),
            final(self).anchor_count == old(self).anchor_count + if version.anchored() {
                1int
            } else {
                0
            },
            final(self).delta_count == old(self).delta_count + if version.anchored() {
                0int
            } else {
                1
            },
            final(self).kind == old(self).kind,
            final(self).since_anchor == old(self).since_anchor,
            final(self).property_cache == old(self).property_cache,
            final(self).anchor_cache == old(self).anchor_cache,
            final(self).index == old(self).index,
            final(self).cold == old(self).cold,
            final(self).policies == old(self).policies,
            final(self).hooks == old(self).hooks,
    {
        let id: u64 = version.id;
        let entity: u64 = version.entity;
        let is_anchor = version.is_anchor();
        let count: usize = match self.counts.get(&entity) {
            Some(c) => *c,
            None => 0,
        };
        self.versions.insert(id, version);
        self.heads.insert(entity, id);
        self.counts.insert(entity, count + 1);
        if is_anchor {
            self.anchor_count = self.anchor_count + 1;
        } else {
            self.delta_count = self.delta_count + 1;
        }
    }

    /// Ends the transaction time of a version, in memory and in the index. Gives back the entity
    /// and what is particular to its kind.
    pub fn close_transaction_time(&mut self, id: u64, end: Timestamp) -> (r: Result<
        (u64, E),
        Error,
    >)
        ensures
            old(self).closed_version(id, end, r, *final(self)),
    {
        let (entity, ends, temporal) = match self.versions.get(&id) {
            Some(v) => (v.entity, v.ends, v.temporal),
            None => {
                return Err(Error::Storage(StorageError::VersionNotFound(VersionId(id))));
            },
        };
        let closed = match temporal.close_transaction_time(end) {
            Ok(t) => t,
            Err(e) => {
                return Err(Error::Temporal(e));
            },
        };
        if let Some(mut version) = self.versions.remove(&id) {
            version.temporal = closed;
            self.versions.insert(id, version);
        }
        assert(self.versions@ =~= old(self).versions@.insert(
            id,
            EntityVersion {
                temporal: old(self).versions@[id].temporal.with_tx_end(end),
                ..old(self).versions@[id]
            },
        ));
        if let Some(mut index) = self.index.take() {
            index.close_transaction_time(entity, id, end);
            self.index = Some(index);
        }
        Ok((entity, ends))
    }
}

impl<E> VersionTable<E> {
    /// The outcome of closing a version's transaction time: refused for a version that is not in
    /// memory and for an end before the start; else only that end changes.
    pub open spec fn closed_version(
        self,
        id: u64,
        end: Timestamp,
        r: Result<(u64, E), Error>,
        after: VersionTable<E>,
    ) -> bool {
        let v = self.versions@[id];
        let start = v.temporal.transaction_time.start;
        if !self.versions@.contains_key(id) {
            r matches Err(e) && e@ == ErrorView::VersionNotFound(VersionId(id)) && after == self
        } else if end.key() < start.key() {
            r matches Err(e) && e@ == (ErrorView::InvalidTimeRange { start, end }) && after == self
        } else {
            &&& r matches Ok(found) && found == (v.entity, v.ends)
            &&& after.versions@ == self.versions@.insert(
                id,
                EntityVersion { temporal: v.temporal.with_tx_end(end), ..v },
            )
            &&& match (self.index, after.index) {
                (Some(i), Some(j)) => j@ == index_closed(i@, v.entity, id, end),
                (i, j) => i == j,
            }
            &&& after.kind == self.kind
            &&& after.heads == self.heads
            &&& after.counts == self.counts
            &&& after.since_anchor == self.since_anchor
            &&& after.anchor_count == self.anchor_count
            &&& after.delta_count == self.delta_count
            &&& after.property_cache == self.property_cache
            &&& after.anchor_cache == self.anchor_cache
            &&& after.cold == self.cold
            &&& after.policies == self.policies
            &&& after.hooks == self.hooks
        }
    }
}

/// What is written to the cold store are the versions of the candidates that are in memory, in the
/// order of the candidates.
pub proof fn law_batch_is_what_is_in_memory<E>(m: Map<u64, EntityVersion<E>>, candidates: Seq<u64>)
    ensures
        batch_of(m, candidates) == candidates.filter(|id: u64| m.contains_key(id)).map_values(
            |id: u64| m[id],
        ),
    decreases candidates.len(),
{
    reveal(Seq::filter);
    let pick = |id: u64| m.contains_key(id);
    let tell = |id: u64| m[id];
    if candidates.len() == 0 {
        assert(candidates.filter(pick).map_values(tell) =~= Seq::empty());
    } else {
        law_batch_is_what_is_in_memory(m, candidates.drop_last());
        let before = candidates.drop_last().filter(pick);
        let last = candidates.last();
        if pick(last) {
            assert(before.push(last).map_values(tell) =~= before.map_values(tell).push(tell(last)));
        }
    }
}

/// A version whose transaction time is closed is known until that end and no longer, from when it
/// was known on; it is closed exactly if it is in memory and the end does not lie before its start.
/// No other version changes, and nothing else of that one.
pub proof fn law_closed_version_is_known_until_then<E>(
    t: VersionTable<E>,
    id: u64,
    end: Timestamp,
    r: Result<(u64, E), Error>,
    after: VersionTable<E>,
    valid_time: Timestamp,
    transaction_time: Timestamp,
    other: u64,
)
    requires
        t.closed_version(id, end, r, after),
    ensures
        r is Ok <==> t.versions@.contains_key(id) && t.versions@[id].temporal.transaction_time.start.key()
            <= end.key(),
        r is Err ==> after == t,
        r is Ok ==> {
            let was = t.versions@[id];
            let now = after.versions@[id];
            &&& after.versions@.contains_key(id)
            &&& now.temporal.valid_time.start.key() <= valid_time.key() && valid_time.key()
                < now.temporal.valid_time.end.key() <==> was.temporal.valid_time.start.key()
                <= valid_time.key() && valid_time.key() < was.temporal.valid_time.end.key()
            &&& now.temporal.transaction_time.start.key() <= transaction_time.key()
                && transaction_time.key() < now.temporal.transaction_time.end.key()
                <==> was.temporal.transaction_time.start.key() <= transaction_time.key()
                && transaction_time.key() < end.key()
            &&& now.data == was.data && now.prev_version == was.prev_version && now.next_version
                == was.next_version && now.label == was.label && now.ends == was.ends
            &&& other != id ==> after.versions@.contains_key(other) == t.versions@.contains_key(other)
                && (t.versions@.contains_key(other) ==> after.versions@[other] == t.versions@[other])
        },
{
}

/// A migration that had nothing to move moved none, and one that failed or had nothing to move
/// changed nothing. One that moved some tells how many.
pub proof fn law_what_a_migration_comes_to<E>(
    t: VersionTable<E>,
    run: MigrationRun,
    after: VersionTable<E>,
)
    requires
        t.migration_done(run, after),
    ensures
        run.candidates@.len() == 0 ==> t.migration_of(run) == Ok::<usize, Error>(0) && after == t,
        run.candidates@.len() > 0 ==> t.migration_of(run) == run.outcome,
        run.candidates@.len() > 0 && run.outcome is Err ==> after == t,
        after.heads == t.heads,
        after.since_anchor == t.since_anchor,
        after.index == t.index,
{
}

} // verus!

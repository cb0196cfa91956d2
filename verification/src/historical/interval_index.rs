//! An index from entities to the intervals of their versions.

use crate::temporal::{BiTemporalInterval, Timestamp};
use crate::version::EntityVersion;
use std::collections::HashMap;
use vstd::prelude::*;

verus! {

broadcast use vstd::std_specs::hash::group_hash_axioms;

/// The interval of a version.
#[derive(Clone, Copy, Debug, PartialEq, Eq, Structural)]
pub struct IndexEntry {
    /// The version.
    pub version: u64,
    /// Its interval.
    pub interval: BiTemporalInterval,
}

/// The intervals of the versions of every entity, in the order of insertion.
pub struct TemporalIndex {
    /// Intervals by entity.
    pub entries: HashMap<u64, Vec<IndexEntry>>,
}

impl View for TemporalIndex {
    type V = Map<u64, Seq<IndexEntry>>;

    open spec fn view(&self) -> Map<u64, Seq<IndexEntry>> {
        self.entries@.map_values(|v: Vec<IndexEntry>| v@)
    }
}

/// The indexed intervals of an entity.
pub open spec fn indexed(m: Map<u64, Seq<IndexEntry>>, entity: u64) -> Seq<IndexEntry> {
    if m.contains_key(entity) {
        m[entity]
    } else {
        Seq::empty()
    }
}

/// The version is among the indexed ones.
pub open spec fn indexes_version(list: Seq<IndexEntry>, version: u64) -> bool {
    exists|i: int| 0 <= i < list.len() && (#[trigger] list[i]).version == version
}

/// The index after a version is added; a version that is there already stays as it is.
pub open spec fn index_with(
    m: Map<u64, Seq<IndexEntry>>,
    entity: u64,
    version: u64,
    interval: BiTemporalInterval,
) -> Map<u64, Seq<IndexEntry>> {
    if indexes_version(indexed(m, entity), version) {
        m
    } else {
        m.insert(entity, indexed(m, entity).push(IndexEntry { version, interval }))
    }
}

/// The entry, with its transaction time ending at `end` if it is of the version.
pub open spec fn entry_closed(e: IndexEntry, version: u64, end: Timestamp) -> IndexEntry {
    if e.version == version {
        IndexEntry { version: e.version, interval: e.interval.with_tx_end(end) }
    } else {
        e
    }
}

/// The index after the transaction time of a version is closed.
pub open spec fn index_closed(
    m: Map<u64, Seq<IndexEntry>>,
    entity: u64,
    version: u64,
    end: Timestamp,
) -> Map<u64, Seq<IndexEntry>> {
    if m.contains_key(entity) {
        m.insert(entity, m[entity].map_values(|e: IndexEntry| entry_closed(e, version, end)))
    } else {
        m
    }
}

/// The version of the entry is visible at the point, by the index and by the version itself.
pub open spec fn entry_visible<E>(
    e: IndexEntry,
    hot: Map<u64, EntityVersion<E>>,
    valid_time: Timestamp,
    transaction_time: Timestamp,
) -> bool {
    &&& e.interval.visible(valid_time, transaction_time)
    &&& hot.contains_key(e.version)
    &&& hot[e.version].temporal.visible(valid_time, transaction_time)
}

/// The most recently added version that is visible at the point.
pub open spec fn newest_visible<E>(
    list: Seq<IndexEntry>,
    hot: Map<u64, EntityVersion<E>>,
    valid_time: Timestamp,
    transaction_time: Timestamp,
) -> Option<u64>
    decreases list.len(),
{
    if list.len() == 0 {
        None
    } else if entry_visible(list.last(), hot, valid_time, transaction_time) {
        Some(list.last().version)
    } else {
        newest_visible(list.drop_last(), hot, valid_time, transaction_time)
    }
}

impl TemporalIndex {
    /// An index of nothing.
    pub fn new() -> (r: TemporalIndex)
        ensures
            r@ == Map::<u64, Seq<IndexEntry>>::empty(),
    {
        let r = TemporalIndex { entries: HashMap::new() };
        assert(r@ =~= Map::<u64, Seq<IndexEntry>>::empty());
        r
    }

    /// Adds a version; one that is there already stays as it is.
    pub fn insert(&mut self, entity: u64, version: u64, interval: BiTemporalInterval)
        ensures
            final(self)@ == index_with(old(self)@, entity, version, interval),
    {
        let mut list: Vec<IndexEntry> = match self.entries.remove(&entity) {
            Some(v) => v,
            None => Vec::new(),
        };
        let ghost before = list@;
        assert(before == indexed(old(self)@, entity));
        let mut present = false;
        let mut i: usize = 0;
        while i < list.len()
            invariant
                i <= list.len(),
                list@ == before,
                present == exists|j: int| 0 <= j < i && (#[trigger] before[j]).version == version,
            decreases list.len() - i,
        {
            if list[i].version == version {
                present = true;
            }
            i = i + 1;
        }
        if !present {
            list.push(IndexEntry { version, interval });
            self.entries.insert(entity, list);
            assert(self@ =~= index_with(old(self)@, entity, version, interval));
        } else {
            self.entries.insert(entity, list);
            assert(self@ =~= old(self)@);
        }
    }

    /// Closes the transaction time of a version.
    pub fn close_transaction_time(&mut self, entity: u64, version: u64, end: Timestamp)
        ensures
            final(self)@ == index_closed(old(self)@, entity, version, end),
    {
        if let Some(mut list) = self.entries.remove(&entity) {
            let ghost before = list@;
            let mut i: usize = 0;
            while i < list.len()
                invariant
                    i <= list.len(),
                    list@.len() == before.len(),
                    forall|j: int|
                        0 <= j < i ==> list@[j] == entry_closed(#[trigger] before[j], version, end),
                    forall|j: int| i <= j < list@.len() ==> list@[j] == before[j],
                decreases list.len() - i,
            {
                let e: IndexEntry = list[i];
                if e.version == version {
                    let interval = BiTemporalInterval {
                        valid_time: e.interval.valid_time,
                        transaction_time: crate::temporal::TimeRange {
                            start: e.interval.transaction_time.start,
                            end,
                        },
                    };
                    list.set(i, IndexEntry { version: e.version, interval });
                }
                i = i + 1;
            }
            assert(list@ =~= before.map_values(|e: IndexEntry| entry_closed(e, version, end)));
            self.entries.insert(entity, list);
        }
        assert(self@ =~= index_closed(old(self)@, entity, version, end));
    }

    /// The most recently added version of an entity that is visible at the point.
    pub fn find_at<E>(
        &self,
        entity: u64,
        hot: &HashMap<u64, EntityVersion<E>>,
        valid_time: Timestamp,
        transaction_time: Timestamp,
    ) -> (r: Option<u64>)
        ensures
            r == newest_visible(indexed(self@, entity), hot@, valid_time, transaction_time),
    {
        match self.entries.get(&entity) {
            None => None,
            Some(list) => {
                let mut left: usize = list.len();
                assert(list@.take(left as int) =~= list@);
                while left > 0
                    invariant
                        left <= list.len(),
                        list@ == indexed(self@, entity),
                        newest_visible(list@, hot@, valid_time, transaction_time)
                            == newest_visible(
                            list@.take(left as int),
                            hot@,
                            valid_time,
                            transaction_time,
                        ),
                    decreases left,
                {
                    let e: IndexEntry = list[left - 1];
                    assert(list@.take(left as int).last() == e);
                    assert(list@.take(left as int).drop_last() =~= list@.take(left - 1));
                    if e.interval.is_visible_at(valid_time, transaction_time) {
                        if let Some(v) = hot.get(&e.version) {
                            if v.temporal.is_visible_at(valid_time, transaction_time) {
                                return Some(e.version);
                            }
                        }
                    }
                    left = left - 1;
                }
                None
            },
        }
    }
}

/// A version that is added is indexed with its interval behind those that were there, and one that
/// was there keeps the interval that it had. Nothing else in the index changes.
pub proof fn law_added_version_is_indexed(
    m: Map<u64, Seq<IndexEntry>>,
    entity: u64,
    version: u64,
    interval: BiTemporalInterval,
    before: Seq<IndexEntry>,
    other: u64,
)
    requires
        m.contains_key(entity) ==> before == m[entity],
        !m.contains_key(entity) ==> before == Seq::<IndexEntry>::empty(),
    ensures
        ({
            let after = index_with(m, entity, version, interval);
            let there = exists|i: int|
                0 <= i < before.len() && (#[trigger] before[i]).version == version;
            &&& there ==> after == m
            &&& !there ==> after.contains_key(entity) && after[entity] == before.push(
                IndexEntry { version, interval },
            )
            &&& other != entity ==> after.contains_key(other) == m.contains_key(other) && (
            m.contains_key(other) ==> after[other] == m[other])
        }),
{
    assert(indexed(m, entity) == before);
}

/// Once the transaction time of a version was closed, the index shows it before that moment as it
/// did, if it was known until then, and not from that moment on. Every other entry stays.
pub proof fn law_closed_version_is_hidden(
    m: Map<u64, Seq<IndexEntry>>,
    entity: u64,
    version: u64,
    end: Timestamp,
    other: u64,
    i: int,
    valid_time: Timestamp,
    transaction_time: Timestamp,
)
    requires
        m.contains_key(entity),
        m.contains_key(other),
        0 <= i < m[other].len(),
    ensures
        ({
            let was = m[other][i];
            let now = index_closed(m, entity, version, end)[other][i];
            &&& index_closed(m, entity, version, end)[other].len() == m[other].len()
            &&& now.version == was.version
            &&& other != entity || was.version != version ==> now == was
            &&& other == entity && was.version == version ==> {
                &&& end.key() <= transaction_time.key() ==> !now.interval.visible(
                    valid_time,
                    transaction_time,
                )
                &&& transaction_time.key() < end.key() && end.key()
                    <= was.interval.transaction_time.end.key() ==> (now.interval.visible(
                    valid_time,
                    transaction_time,
                ) <==> was.interval.visible(valid_time, transaction_time))
            }
        }),
{
}

} // verus!

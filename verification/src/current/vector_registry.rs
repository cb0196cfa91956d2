//! Vector stores by property name.

use super::named::Named;
use super::vectors::{
    change_between, changed, misfit, possible, Change, StoreView, VectorStore,
};
use crate::error::{Error, ErrorView};
use crate::ids::NodeId;
use crate::interning::{texts_of, StringInterner};
use crate::property::{vectors_compare_equal, Properties, PropertyMap, PropertyValue, ValueView};
use crate::temporal::Timestamp;
use vstd::prelude::*;

verus! {

/// The vector that properties hold under a name.
pub open spec fn vector_at(
    interner: StringInterner,
    properties: Properties,
    name: Seq<char>,
) -> Option<Seq<u32>> {
    match interner.id_of(name) {
        Some(id) => if properties.contains_key(id.0) {
            match properties[id.0] {
                ValueView::Vector(v) => Some(v),
                _ => None,
            }
        } else {
            None
        },
        None => None,
    }
}

/// What is to be done about a node's vector of this name when its properties change; `None` where
/// the node is new.
pub open spec fn change_of(
    interner: StringInterner,
    old_properties: Option<Properties>,
    new_properties: Properties,
    name: Seq<char>,
) -> Change {
    change_between(
        match old_properties {
            Some(properties) => vector_at(interner, properties, name),
            None => None,
        },
        vector_at(interner, new_properties, name),
    )
}

/// The vector that properties hold under a name.
pub fn find_vector<'a>(
    interner: &StringInterner,
    properties: &'a PropertyMap,
    name: &str,
) -> (r: Option<&'a Vec<u32>>)
    requires
        interner.well_formed(),
    ensures
        match r {
            Some(v) => vector_at(*interner, properties@, name@) == Some(v@),
            None => vector_at(*interner, properties@, name@) is None,
        },
{
    match interner.get_id(name) {
        Some(id) => match properties.get(id) {
            Some(PropertyValue::Vector(v)) => Some(v),
            _ => None,
        },
        None => None,
    }
}

/// All changes were made.
pub open spec fn all_changed(
    before: Map<Seq<char>, StoreView>,
    after: Map<Seq<char>, StoreView>,
    node: u64,
    changes: spec_fn(Seq<char>) -> Change,
    at: Timestamp,
    over_time: bool,
) -> bool {
    &&& after.dom() == before.dom()
    &&& forall|name: Seq<char>| #[trigger]
        before.contains_key(name) ==> possible(before[name], changes(name)) && after[name]
            == changed(before[name], node, changes(name), at, over_time)
}

/// A change could not be made: the vector of that name does not fit. Any of the others may have
/// been made.
pub open spec fn some_changed(
    before: Map<Seq<char>, StoreView>,
    after: Map<Seq<char>, StoreView>,
    node: u64,
    changes: spec_fn(Seq<char>) -> Change,
    at: Timestamp,
    over_time: bool,
    name: Seq<char>,
    error: ErrorView,
) -> bool {
    &&& after.dom() == before.dom()
    &&& before.contains_key(name)
    &&& !possible(before[name], changes(name))
    &&& error == misfit(before[name].config, changes(name)->Put_0.len())
    &&& after[name] == before[name]
    &&& forall|other: Seq<char>| #[trigger]
        before.contains_key(other) ==> after[other] == before[other] || (possible(
            before[other],
            changes(other),
        ) && after[other] == changed(before[other], node, changes(other), at, over_time))
}

impl<T: VectorStore> Named<T> {
    /// What the stores hold, by name.
    pub open spec fn state(self) -> Map<Seq<char>, StoreView> {
        Map::new(
            |name: Seq<char>| self.items().contains_key(name),
            |name: Seq<char>| self.items()[name].state(),
        )
    }

    /// Giving a name a store changes what that one holds.
    pub proof fn lemma_store_set(before: Self, after: Self, name: Seq<char>, store: T)
        requires
            after.items() == before.items().insert(name, store),
        ensures
            after.state() == before.state().insert(name, store.state()),
    {
        assert(after.state() =~= before.state().insert(name, store.state()));
    }

    /// Makes the changes that a node's new properties ask of every store. Stops at the first
    /// vector that does not fit; stores that were visited earlier have been changed by then.
    pub fn apply(
        &mut self,
        interner: &StringInterner,
        node: NodeId,
        old_properties: Option<&PropertyMap>,
        new_properties: &PropertyMap,
        at: Timestamp,
    ) -> (r: Result<bool, Error>)
        requires
            old(self).well_formed(),
            interner.well_formed(),
        ensures
            final(self).well_formed(),
            final(self).registry == old(self).registry,
            ({
                let changes = changes_of(*interner, old_properties, *new_properties);
                match r {
                    Ok(any) => {
                        &&& all_changed(
                            old(self).state(),
                            final(self).state(),
                            node.0,
                            changes,
                            at,
                            T::over_time(),
                        )
                        &&& any == exists|name: Seq<char>| #[trigger]
                            old(self).state().contains_key(name) && changes(name) is Put
                    },
                    Err(error) => exists|name: Seq<char>| #[trigger]
                        some_changed(
                            old(self).state(),
                            final(self).state(),
                            node.0,
                            changes,
                            at,
                            T::over_time(),
                            name,
                            error@,
                        ),
                }
            }),
    {
        let ghost changes = changes_of(*interner, old_properties, *new_properties);
        let ghost before = self.state();
        let names = self.names();
        let ghost texts = texts_of(names@);
        let mut any: bool = false;
        let mut i: usize = 0;
        while i < names.len()
            invariant
                i <= names.len(),
                self.well_formed(),
                interner.well_formed(),
                self.registry == old(self).registry,
                before == old(self).state(),
                texts == texts_of(names@),
                texts.no_duplicates(),
                changes == changes_of(*interner, old_properties, *new_properties),
                forall|name: Seq<char>| #[trigger]
                    texts.contains(name) <==> before.contains_key(name),
                self.state().dom() == before.dom(),
                forall|j: int|
                    0 <= j < i ==> possible(before[#[trigger] texts[j]], changes(texts[j]))
                        && self.state()[texts[j]] == changed(
                        before[texts[j]],
                        node.0,
                        changes(texts[j]),
                        at,
                        T::over_time(),
                    ),
                forall|j: int|
                    i <= j < texts.len() ==> self.state()[#[trigger] texts[j]] == before[texts[j]],
                any == exists|j: int| 0 <= j < i && changes(#[trigger] texts[j]) is Put,
            decreases names.len() - i,
        {
            let name = names[i].as_str();
            let ghost here = *self;
            assert(texts[i as int] == name@);
            assert(texts.contains(name@));
            assert(before.contains_key(name@));
            assert(self.state().contains_key(name@));
            let old_vector = match old_properties {
                Some(properties) => find_vector(interner, properties, name),
                None => None,
            };
            let new_vector = find_vector(interner, new_properties, name);
            match self.registry.get(name) {
                None => {
                    assert(false);
                },
                Some(slot) => {
                    match new_vector {
                        Some(vector) => {
                            let same = match old_vector {
                                Some(o) => vectors_compare_equal(o, vector),
                                None => false,
                            };
                            if !same {
                                assert(changes(name@) == Change::Put(vector@));
                                let r = self.slots[slot].put(node, vector, at);
                                proof {
                                    Self::lemma_slot_changed(
                                        here,
                                        *self,
                                        name@,
                                        self.slots@[slot as int],
                                    );
                                    Self::lemma_store_set(
                                        here,
                                        *self,
                                        name@,
                                        self.slots@[slot as int],
                                    );
                                }
                                if let Err(error) = r {
                                    proof {
                                        assert(self.state() =~= here.state());
                                        assert forall|other: Seq<char>| #[trigger]
                                            before.contains_key(other) implies self.state()[other]
                                            == before[other] || (possible(
                                            before[other],
                                            changes(other),
                                        ) && self.state()[other] == changed(
                                            before[other],
                                            node.0,
                                            changes(other),
                                            at,
                                            T::over_time(),
                                        )) by {
                                            assert(texts.contains(other));
                                            let j = choose|j: int|
                                                0 <= j < texts.len() && texts[j] == other;
                                            assert(texts[j] == other);
                                        }
                                        assert(some_changed(
                                            before,
                                            self.state(),
                                            node.0,
                                            changes,
                                            at,
                                            T::over_time(),
                                            name@,
                                            error@,
                                        ));
                                    }
                                    return Err(error);
                                }
                                any = true;
                            }
                        },
                        None => {
                            if old_vector.is_some() {
                                assert(changes(name@) == Change::Drop);
                                self.slots[slot].take_away(node, at);
                                proof {
                                    Self::lemma_slot_changed(
                                        here,
                                        *self,
                                        name@,
                                        self.slots@[slot as int],
                                    );
                                    Self::lemma_store_set(
                                        here,
                                        *self,
                                        name@,
                                        self.slots@[slot as int],
                                    );
                                }
                            }
                        },
                    }
                },
            }
            i = i + 1;
            proof {
                assert forall|j: int| 0 <= j < i implies possible(
                    before[#[trigger] texts[j]],
                    changes(texts[j]),
                ) && self.state()[texts[j]] == changed(
                    before[texts[j]],
                    node.0,
                    changes(texts[j]),
                    at,
                    T::over_time(),
                ) by {
                    if j < i - 1 {
                        assert(texts[j] != texts[i - 1]);
                    }
                }
                assert forall|j: int| i <= j < texts.len() implies self.state()[#[trigger] texts[j]]
                    == before[texts[j]] by {
                    assert(texts[j] != texts[i - 1]);
                }
                assert(self.state().dom() =~= before.dom());
                if any {
                    if exists|j: int| 0 <= j < i - 1 && changes(#[trigger] texts[j]) is Put {
                        let j = choose|j: int|
                            0 <= j < i - 1 && changes(#[trigger] texts[j]) is Put;
                        assert(0 <= j < i && changes(texts[j]) is Put);
                    } else {
                        assert(changes(texts[i - 1]) is Put);
                    }
                }
            }
        }
        proof {
            assert forall|name: Seq<char>| #[trigger] before.contains_key(name) implies possible(
                before[name],
                changes(name),
            ) && self.state()[name] == changed(
                before[name],
                node.0,
                changes(name),
                at,
                T::over_time(),
            ) by {
                assert(texts.contains(name));
                let j = choose|j: int| 0 <= j < texts.len() && texts[j] == name;
                assert(texts[j] == name);
            }
            if exists|name: Seq<char>| #[trigger]
                before.contains_key(name) && changes(name) is Put {
                let name = choose|name: Seq<char>| #[trigger]
                    before.contains_key(name) && changes(name) is Put;
                assert(texts.contains(name));
                let j = choose|j: int| 0 <= j < texts.len() && texts[j] == name;
                assert(changes(texts[j]) is Put);
            }
            if any {
                let j = choose|j: int| 0 <= j < i && changes(#[trigger] texts[j]) is Put;
                assert(texts.contains(texts[j]));
                assert(before.contains_key(texts[j]));
            }
        }
        Ok(any)
    }

    /// Takes a node's vectors out of every store.
    pub fn take_from_all(&mut self, node: NodeId, at: Timestamp)
        requires
            old(self).well_formed(),
        ensures
            final(self).well_formed(),
            final(self).registry == old(self).registry,
            all_changed(
                old(self).state(),
                final(self).state(),
                node.0,
                |name: Seq<char>| Change::Drop,
                at,
                T::over_time(),
            ),
    {
        let ghost before = self.state();
        let names = self.names();
        let ghost texts = texts_of(names@);
        let mut i: usize = 0;
        while i < names.len()
            invariant
                i <= names.len(),
                self.well_formed(),
                self.registry == old(self).registry,
                before == old(self).state(),
                texts == texts_of(names@),
                texts.no_duplicates(),
                forall|name: Seq<char>| #[trigger]
                    texts.contains(name) <==> before.contains_key(name),
                self.state().dom() == before.dom(),
                forall|j: int|
                    0 <= j < i ==> self.state()[#[trigger] texts[j]] == before[texts[j]].without(
                        node.0,
                        at,
                        T::over_time(),
                    ),
                forall|j: int|
                    i <= j < texts.len() ==> self.state()[#[trigger] texts[j]] == before[texts[j]],
            decreases names.len() - i,
        {
            let name = names[i].as_str();
            let ghost here = *self;
            assert(texts[i as int] == name@);
            assert(texts.contains(name@));
            assert(self.state().contains_key(name@));
            if let Some(slot) = self.registry.get(name) {
                self.slots[slot].take_away(node, at);
                proof {
                    Self::lemma_slot_changed(here, *self, name@, self.slots@[slot as int]);
                    Self::lemma_store_set(here, *self, name@, self.slots@[slot as int]);
                }
            }
            i = i + 1;
            proof {
                assert forall|j: int| 0 <= j < i implies self.state()[#[trigger] texts[j]]
                    == before[texts[j]].without(node.0, at, T::over_time()) by {
                    if j < i - 1 {
                        assert(texts[j] != texts[i - 1]);
                    }
                }
                assert forall|j: int| i <= j < texts.len() implies self.state()[#[trigger] texts[j]]
                    == before[texts[j]] by {
                    assert(texts[j] != texts[i - 1]);
                }
                assert(self.state().dom() =~= before.dom());
            }
        }
        proof {
            assert forall|name: Seq<char>| #[trigger] before.contains_key(name) implies self.state()[name]
                == before[name].without(node.0, at, T::over_time()) by {
                assert(texts.contains(name));
                let j = choose|j: int| 0 <= j < texts.len() && texts[j] == name;
                assert(texts[j] == name);
            }
        }
    }
}

/// What is to be done about a node's vectors, by name, when its properties change.
pub open spec fn changes_of(
    interner: StringInterner,
    old_properties: Option<&PropertyMap>,
    new_properties: PropertyMap,
) -> spec_fn(Seq<char>) -> Change {
    |name: Seq<char>|
        change_of(
            interner,
            match old_properties {
                Some(properties) => Some(properties@),
                None => None,
            },
            new_properties@,
            name,
        )
}

/// Properties hold a vector under a name exactly if they have it under the number of that name, as
/// a vector.
pub proof fn law_vector_under_a_name(
    interner: StringInterner,
    properties: Properties,
    name: Seq<char>,
    i: u32,
)
    requires
        interner.well_formed(),
        i < interner.strings@.len(),
        interner.strings@[i as int]@ == name,
    ensures
        vector_at(interner, properties, name) is Some <==> properties.contains_key(i) && properties[i] is Vector,
        vector_at(interner, properties, name) matches Some(v) ==> properties[i] == ValueView::Vector(v),
{
    let texts = interner.texts();
    assert(texts[i as int] == name);
    assert(texts[texts.index_of(name)] == name);
}

/// Where a change could not be made, the error tells that a vector does not fit, the vectors of that
/// name stay as they were, and those of every other name stay or are changed as they were to be.
pub proof fn law_change_that_could_not_be_made(
    before: Map<Seq<char>, StoreView>,
    after: Map<Seq<char>, StoreView>,
    node: u64,
    changes: spec_fn(Seq<char>) -> Change,
    at: Timestamp,
    over_time: bool,
    name: Seq<char>,
    error: ErrorView,
    other: Seq<char>,
)
    requires
        some_changed(before, after, node, changes, at, over_time, name, error),
    ensures
        changes(name) is Put,
        before[name].config is Some && before[name].config->0.dimensions != changes(name)->Put_0.len(),
        error matches ErrorView::DimensionMismatch { expected, .. } && expected
            == before[name].config->0.dimensions,
        after[name] == before[name],
        before.contains_key(other) <==> after.contains_key(other),
        before.contains_key(other) ==> after[other] == before[other] || after[other] == changed(
            before[other],
            node,
            changes(other),
            at,
            over_time,
        ),
{
    assert(before.dom().contains(other) == after.dom().contains(other));
}

/// Where all changes were made, every name is there still, with its vectors changed as they were to
/// be.
pub proof fn law_changes_that_were_made(
    before: Map<Seq<char>, StoreView>,
    after: Map<Seq<char>, StoreView>,
    node: u64,
    changes: spec_fn(Seq<char>) -> Change,
    at: Timestamp,
    over_time: bool,
    name: Seq<char>,
)
    requires
        all_changed(before, after, node, changes, at, over_time),
        before.contains_key(name),
    ensures
        after.contains_key(name),
        changes(name) matches Change::Put(v) ==> after[name].vectors.contains_key(node)
            && after[name].vectors[node] == v,
        changes(name) is Drop ==> !after[name].vectors.contains_key(node),
        changes(name) is Keep ==> after[name] == before[name],
{
    assert(after.dom().contains(name) == before.dom().contains(name));
}

} // verus!

//! Things by name.

use super::registry::NameTable;
use crate::interning::texts_of;
use crate::text::{in_order, law_byte_order_is_total, law_byte_order_is_transitive, texts_in_order};
use vstd::prelude::*;
use vstd::utf8::*;

verus! {

/// Things by name.
pub struct Named<T> {
    /// The place of each.
    pub registry: NameTable,
    /// The things.
    pub slots: Vec<T>,
}

impl<T> Named<T> {
    /// Every name has an item of its own.
    pub open spec fn well_formed(self) -> bool {
        &&& forall|name: Seq<char>| #[trigger]
            self.registry.places().contains_key(name) ==> self.registry.places()[name]
                < self.slots@.len()
        &&& forall|a: Seq<char>, b: Seq<char>|
            #[trigger] self.registry.places().contains_key(a) && #[trigger] self.registry.places().contains_key(b) && self.registry.places()[a] == self.registry.places()[b]
                ==> a == b
    }

    /// The items, by name.
    pub open spec fn items(self) -> Map<Seq<char>, T> {
        Map::new(
            |name: Seq<char>| self.registry.places().contains_key(name),
            |name: Seq<char>| self.slots@[self.registry.places()[name] as int],
        )
    }

    /// No items.
    pub fn new() -> (r: Named<T>)
        ensures
            r.well_formed(),
            r.items().is_empty(),
    {
        let r = Named { registry: NameTable::new(), slots: Vec::new() };
        assert(r.items() =~= Map::empty());
        r
    }

    /// How many items there are.
    pub fn len(&self) -> (r: usize)
        ensures
            r == self.items().len(),
    {
        assert(self.items().dom() =~= self.registry.places().dom());
        self.registry.len()
    }

    /// Whether there are none.
    pub fn is_empty(&self) -> (r: bool)
        ensures
            r == self.items().is_empty(),
    {
        proof {
            assert(self.items().dom() =~= self.registry.places().dom());
            assert(self.items().is_empty() == self.items().dom().is_empty());
            assert(self.registry.places().is_empty() == self.registry.places().dom().is_empty());
        }
        self.registry.is_empty()
    }

    /// Whether there is an item of this name.
    pub fn contains(&self, name: &str) -> (r: bool)
        ensures
            r == self.items().contains_key(name@),
    {
        self.registry.contains(name)
    }

    /// The item of this name.
    pub fn get(&self, name: &str) -> (r: Option<&T>)
        requires
            self.well_formed(),
        ensures
            match r {
                Some(item) => self.items().contains_key(name@) && *item == self.items()[name@],
                None => !self.items().contains_key(name@),
            },
    {
        match self.registry.get(name) {
            Some(slot) => Some(&self.slots[slot]),
            None => None,
        }
    }

    /// Gives a name an item, in place of the one that it had.
    pub fn set(&mut self, name: &str, item: T)
        requires
            old(self).well_formed(),
        ensures
            final(self).well_formed(),
            final(self).items() == old(self).items().insert(name@, item),
    {
        match self.registry.get(name) {
            Some(slot) => {
                self.slots.set(slot, item);
            },
            None => {
                let slot: usize = self.slots.len();
                self.slots.push(item);
                self.registry.insert(String::from_str(name), slot);
            },
        }
        assert(self.items() =~= old(self).items().insert(name@, item));
    }

    /// The names, each once, in no particular order.
    pub fn names(&self) -> (r: Vec<String>)
        ensures
            texts_of(r@).no_duplicates(),
            forall|name: Seq<char>| #[trigger]
                texts_of(r@).contains(name) <==> self.items().contains_key(name),
    {
        self.registry.names()
    }

    /// The name comes first in the alphabet.
    pub open spec fn is_first(self, name: Seq<char>) -> bool {
        &&& self.items().contains_key(name)
        &&& forall|other: Seq<char>| #[trigger]
            self.items().contains_key(other) ==> in_order(name, other)
    }

    /// The name that comes first in the alphabet.
    pub fn default_name(&self) -> (r: Option<String>)
        ensures
            match r {
                Some(name) => self.is_first(name@),
                None => self.items().is_empty(),
            },
    {
        if self.is_empty() {
            return None;
        }
        let names = self.names();
        let ghost texts = texts_of(names@);
        if names.len() == 0 {
            proof {
                assert(self.items() =~= Map::empty()) by {
                    assert forall|name: Seq<char>| !(#[trigger] self.items().contains_key(
                        name,
                    )) by {
                        assert(!texts.contains(name));
                    }
                }
            }
            return None;
        }
        let mut best: usize = 0;
        let mut i: usize = 1;
        proof {
            law_byte_order_is_total(encode_utf8(names@[0]@), encode_utf8(names@[0]@));
        }
        while i < names.len()
            invariant
                best < names.len(),
                i <= names.len(),
                forall|j: int| 0 <= j < i ==> in_order(names@[best as int]@, (#[trigger] names@[j])@),
            decreases names.len() - i,
        {
            if !texts_in_order(names[best].as_str(), names[i].as_str()) {
                proof {
                    law_byte_order_is_total(
                        encode_utf8(names@[best as int]@),
                        encode_utf8(names@[i as int]@),
                    );
                    law_byte_order_is_total(
                        encode_utf8(names@[i as int]@),
                        encode_utf8(names@[i as int]@),
                    );
                    assert forall|j: int| 0 <= j < i implies in_order(
                        names@[i as int]@,
                        (#[trigger] names@[j])@,
                    ) by {
                        law_byte_order_is_transitive(
                            encode_utf8(names@[i as int]@),
                            encode_utf8(names@[best as int]@),
                            encode_utf8(names@[j]@),
                        );
                    }
                }
                best = i;
            }
            i = i + 1;
        }
        proof {
            let first = names@[best as int]@;
            assert(texts[best as int] == first);
            assert(texts.contains(first));
            assert forall|other: Seq<char>| #[trigger] self.items().contains_key(
                other,
            ) implies in_order(first, other) by {
                assert(texts.contains(other));
                let j = choose|j: int| 0 <= j < texts.len() && texts[j] == other;
                assert(names@[j]@ == other);
            }
        }
        Some(String::from_str(names[best].as_str()))
    }

    /// Changing the item of one name changes no other.
    pub proof fn lemma_slot_changed(before: Self, after: Self, name: Seq<char>, item: T)
        requires
            before.well_formed(),
            before.registry.places().contains_key(name),
            after.registry == before.registry,
            after.slots@ == before.slots@.update(before.registry.places()[name] as int, item),
        ensures
            after.well_formed(),
            after.items() == before.items().insert(name, item),
    {
        assert forall|other: Seq<char>| #[trigger]
            before.registry.places().contains_key(other) && other != name implies before.registry.places()[other] != before.registry.places()[name] by {}
        assert(after.items() =~= before.items().insert(name, item));
    }
}

/// The first name in the alphabet does not depend on the order in which names are looked at.
pub proof fn law_default_is_unique<T>(
    registry: Named<T>,
    a: Seq<char>,
    b: Seq<char>,
)
    requires
        registry.is_first(a),
        registry.is_first(b),
    ensures
        a == b,
{
    law_byte_order_is_total(encode_utf8(a), encode_utf8(b));
    encode_utf8_decode_utf8(a);
    encode_utf8_decode_utf8(b);
}

} // verus!

//! Property values, property maps, and the deltas between two property maps.

use crate::ids::InternedString;
use crate::maps::{keys_of, lemma_take_contains};
use std::collections::HashMap;
use vstd::prelude::*;

verus! {

broadcast use vstd::std_specs::hash::group_hash_axioms;

/// A property value. Floating-point numbers are held by their IEEE 754 bit patterns.
#[derive(Clone, Debug)]
pub enum PropertyValue {
    /// No value.
    Null,
    /// A truth value.
    Bool(bool),
    /// An integer.
    Int(i64),
    /// A double-precision number, by its bit pattern.
    Float(u64),
    /// A text.
    Text(String),
    /// A vector of single-precision numbers, by their bit patterns.
    Vector(Vec<u32>),
}

/// What a [`PropertyValue`] holds.
pub enum ValueView {
    /// No value.
    Null,
    /// A truth value.
    Bool(bool),
    /// An integer.
    Int(i64),
    /// A double-precision number, by its bit pattern.
    Float(u64),
    /// A text.
    Text(Seq<char>),
    /// A vector of single-precision numbers, by their bit patterns.
    Vector(Seq<u32>),
}

impl View for PropertyValue {
    type V = ValueView;

    open spec fn view(&self) -> ValueView {
        match *self {
            PropertyValue::Null => ValueView::Null,
            PropertyValue::Bool(b) => ValueView::Bool(b),
            PropertyValue::Int(i) => ValueView::Int(i),
            PropertyValue::Float(bits) => ValueView::Float(bits),
            PropertyValue::Text(s) => ValueView::Text(s@),
            PropertyValue::Vector(v) => ValueView::Vector(v@),
        }
    }
}

/// Two double-precision numbers compare equal: neither is a NaN, and they have the same bits or
/// are both zero (the sign of a zero does not count).
pub open spec fn float64_equal(a: u64, b: u64) -> bool {
    let mag_a = a % 0x8000_0000_0000_0000;
    let mag_b = b % 0x8000_0000_0000_0000;
    &&& mag_a <= 0x7ff0_0000_0000_0000
    &&& mag_b <= 0x7ff0_0000_0000_0000
    &&& a == b || (mag_a == 0 && mag_b == 0)
}

/// Two single-precision numbers compare equal: neither is a NaN, and they have the same bits or
/// are both zero (the sign of a zero does not count).
pub open spec fn float32_equal(a: u32, b: u32) -> bool {
    let mag_a = a % 0x8000_0000;
    let mag_b = b % 0x8000_0000;
    &&& mag_a <= 0x7f80_0000
    &&& mag_b <= 0x7f80_0000
    &&& a == b || (mag_a == 0 && mag_b == 0)
}

/// Two vectors compare equal: they have the same length and equal components.
pub open spec fn vectors_equal(a: Seq<u32>, b: Seq<u32>) -> bool {
    a.len() == b.len() && forall|i: int|
        0 <= i < a.len() ==> float32_equal(#[trigger] a[i], b[i])
}

impl ValueView {
    /// Two values compare equal, numbers by value.
    pub open spec fn equals(self, other: ValueView) -> bool {
        match (self, other) {
            (ValueView::Float(a), ValueView::Float(b)) => float64_equal(a, b),
            (ValueView::Vector(a), ValueView::Vector(b)) => vectors_equal(a, b),
            (a, b) => a == b,
        }
    }
}

/// Whether two vectors compare equal.
pub fn vectors_compare_equal(a: &Vec<u32>, b: &Vec<u32>) -> (r: bool)
    ensures
        r == vectors_equal(a@, b@),
{
    if a.len() != b.len() {
        return false;
    }
    let mut i: usize = 0;
    while i < a.len()
        invariant
            i <= a.len(),
            a.len() == b.len(),
            forall|j: int| 0 <= j < i ==> float32_equal(#[trigger] a@[j], b@[j]),
        decreases a.len() - i,
    {
        let mag_a: u32 = a[i] % 0x8000_0000;
        let mag_b: u32 = b[i] % 0x8000_0000;
        let same = a[i] == b[i] || (mag_a == 0 && mag_b == 0);
        if mag_a > 0x7f80_0000 || mag_b > 0x7f80_0000 || !same {
            assert(!float32_equal(a@[i as int], b@[i as int]));
            return false;
        }
        i = i + 1;
    }
    true
}

fn same_bits(a: &Vec<u32>, b: &Vec<u32>) -> (r: bool)
    ensures
        r == (a@ == b@),
{
    if a.len() != b.len() {
        return false;
    }
    let mut i: usize = 0;
    while i < a.len()
        invariant
            i <= a.len(),
            a.len() == b.len(),
            forall|j: int| 0 <= j < i ==> a@[j] == b@[j],
        decreases a.len() - i,
    {
        if a[i] != b[i] {
            return false;
        }
        i = i + 1;
    }
    assert(a@ =~= b@);
    true
}

impl PropertyValue {
    /// Whether the two hold the very same thing, down to the bits of numbers.
    pub fn is_same(&self, other: &PropertyValue) -> (r: bool)
        ensures
            r == (self@ == other@),
    {
        match (self, other) {
            (PropertyValue::Null, PropertyValue::Null) => true,
            (PropertyValue::Bool(a), PropertyValue::Bool(b)) => *a == *b,
            (PropertyValue::Int(a), PropertyValue::Int(b)) => *a == *b,
            (PropertyValue::Float(a), PropertyValue::Float(b)) => *a == *b,
            (PropertyValue::Text(a), PropertyValue::Text(b)) => *a == *b,
            (PropertyValue::Vector(a), PropertyValue::Vector(b)) => same_bits(a, b),
            _ => false,
        }
    }

    /// Whether the two compare equal, numbers by value: a NaN equals nothing, and the two zeros
    /// are equal.
    pub fn equals(&self, other: &PropertyValue) -> (r: bool)
        ensures
            r == self@.equals(other@),
    {
        match (self, other) {
            (PropertyValue::Float(a), PropertyValue::Float(b)) => {
                let mag_a: u64 = *a % 0x8000_0000_0000_0000;
                let mag_b: u64 = *b % 0x8000_0000_0000_0000;
                mag_a <= 0x7ff0_0000_0000_0000 && mag_b <= 0x7ff0_0000_0000_0000 && (*a == *b || (
                mag_a == 0 && mag_b == 0))
            },
            (PropertyValue::Vector(a), PropertyValue::Vector(b)) => vectors_compare_equal(a, b),
            _ => self.is_same(other),
        }
    }

    /// A copy of the value.
    pub fn copied(&self) -> (r: PropertyValue)
        ensures
            r@ == self@,
    {
        match self {
            PropertyValue::Null => PropertyValue::Null,
            PropertyValue::Bool(b) => PropertyValue::Bool(*b),
            PropertyValue::Int(i) => PropertyValue::Int(*i),
            PropertyValue::Float(bits) => PropertyValue::Float(*bits),
            PropertyValue::Text(s) => PropertyValue::Text(s.clone()),
            PropertyValue::Vector(v) => {
                let copy = v.clone();
                assert(copy@ =~= v@);
                PropertyValue::Vector(copy)
            },
        }
    }
}

/// The properties of an entity: values by interned name.
#[derive(Debug)]
pub struct PropertyMap {
    /// The values.
    pub values: HashMap<u32, PropertyValue>,
}

/// Property values by name.
pub type Properties = Map<u32, ValueView>;

/// The values of an executable map, as what they hold.
pub open spec fn held(m: Map<u32, PropertyValue>) -> Properties {
    m.map_values(|v: PropertyValue| v@)
}

impl View for PropertyMap {
    type V = Properties;

    open spec fn view(&self) -> Properties {
        held(self.values@)
    }
}

impl PropertyMap {
    /// No properties.
    pub fn new() -> (r: PropertyMap)
        ensures
            r@ == Map::<u32, ValueView>::empty(),
    {
        let r = PropertyMap { values: HashMap::new() };
        assert(r@ =~= Map::<u32, ValueView>::empty());
        r
    }

    /// Sets a property.
    pub fn insert(&mut self, name: InternedString, value: PropertyValue)
        ensures
            final(self)@ == old(self)@.insert(name.0, value@),
    {
        self.values.insert(name.0, value);
        assert(self@ =~= old(self)@.insert(name.0, value@));
    }

    /// Removes a property.
    pub fn remove(&mut self, name: InternedString)
        ensures
            final(self)@ == old(self)@.remove(name.0),
    {
        self.values.remove(&name.0);
        assert(self@ =~= old(self)@.remove(name.0));
    }

    /// The value of a property, if it is set.
    pub fn get(&self, name: InternedString) -> (r: Option<&PropertyValue>)
        ensures
            match r {
                Some(v) => self@.contains_key(name.0) && v@ == self@[name.0],
                None => !self@.contains_key(name.0),
            },
    {
        self.values.get(&name.0)
    }

    /// How many properties are set.
    pub fn len(&self) -> (r: usize)
        ensures
            r == self@.len(),
    {
        assert(self@.dom() =~= self.values@.dom());
        self.values.len()
    }

    /// A copy of the map.
    pub fn copied(&self) -> (r: PropertyMap)
        ensures
            r@ == self@,
    {
        let r = PropertyMap { values: self.values.clone() };
        assert(r@ =~= self@);
        r
    }
}

/// The properties that differ between two property maps.
#[derive(Debug)]
pub struct PropertyDelta {
    /// Properties that are new or have another value.
    pub changed: HashMap<u32, PropertyValue>,
    /// Properties that are gone.
    pub removed: HashMap<u32, ()>,
}

/// What a [`PropertyDelta`] says.
#[verifier::ext_equal]
pub struct DeltaView {
    /// Properties that are new or have another value.
    pub changed: Properties,
    /// Properties that are gone.
    pub removed: Set<u32>,
}

impl View for PropertyDelta {
    type V = DeltaView;

    open spec fn view(&self) -> DeltaView {
        DeltaView { changed: held(self.changed@), removed: self.removed@.dom() }
    }
}

/// The property has the same value in both maps.
pub open spec fn unchanged(from: Properties, to: Properties, name: u32) -> bool {
    from.contains_key(name) && to.contains_key(name) && from[name] == to[name]
}

/// What changes from `from` to `to`.
pub open spec fn delta_between(from: Properties, to: Properties) -> DeltaView {
    DeltaView {
        changed: to.restrict(Set::new(|name: u32| !unchanged(from, to, name))),
        removed: from.dom().difference(to.dom()),
    }
}

/// The properties that `base` becomes when `delta` happens to it.
pub open spec fn delta_applied(base: Properties, delta: DeltaView) -> Properties {
    base.remove_keys(delta.removed).union_prefer_right(delta.changed)
}

/// A delta turns the map it was taken from into the map it was taken to.
pub proof fn law_delta_round_trip(from: Properties, to: Properties)
    ensures
        delta_applied(from, delta_between(from, to)) == to,
{
    assert(delta_applied(from, delta_between(from, to)) =~= to);
}

impl PropertyDelta {
    /// What changes from `from` to `to`.
    pub fn compute(from: &PropertyMap, to: &PropertyMap) -> (r: PropertyDelta)
        ensures
            r@ == delta_between(from@, to@),
    {
        let mut changed: HashMap<u32, PropertyValue> = HashMap::new();
        let mut removed: HashMap<u32, ()> = HashMap::new();
        let new_names: Vec<u32> = keys_of(&to.values);
        let mut i: usize = 0;
        while i < new_names.len()
            invariant
                i <= new_names.len(),
                forall|j: int| 0 <= j < new_names@.len() ==> to@.contains_key(#[trigger] new_names@[j]),
                forall|name: u32|
                    held(changed@).contains_key(name) <==> !unchanged(from@, to@, name)
                        && new_names@.take(i as int).contains(name),
                forall|name: u32|
                    held(changed@).contains_key(name) ==> #[trigger] held(changed@)[name]
                        == to@[name],
            decreases new_names.len() - i,
        {
            let name: u32 = new_names[i];
            proof {
                lemma_take_contains(new_names@, i as int);
            }
            let ghost changed_before = changed@;
            assert(to@.contains_key(new_names@[i as int]));
            match to.values.get(&name) {
                Some(value) => {
                    let same = match from.values.get(&name) {
                        Some(old_value) => old_value.is_same(value),
                        None => false,
                    };
                    if !same {
                        changed.insert(name, value.copied());
                        assert(held(changed@) =~= held(changed_before).insert(name, to@[name]));
                    }
                },
                None => {},
            }
            i = i + 1;
        }
        assert(new_names@.take(i as int) =~= new_names@);
        let old_names: Vec<u32> = keys_of(&from.values);
        let mut k: usize = 0;
        while k < old_names.len()
            invariant
                k <= old_names.len(),
                forall|name: u32|
                    #[trigger] removed@.contains_key(name) <==> !to@.contains_key(name)
                        && old_names@.take(k as int).contains(name),
            decreases old_names.len() - k,
        {
            let name: u32 = old_names[k];
            proof {
                lemma_take_contains(old_names@, k as int);
            }
            if !to.values.contains_key(&name) {
                removed.insert(name, ());
            }
            k = k + 1;
        }
        assert(old_names@.take(k as int) =~= old_names@);
        let r = PropertyDelta { changed, removed };
        assert(r@.changed =~= delta_between(from@, to@).changed);
        assert(r@.removed =~= delta_between(from@, to@).removed);
        r
    }

    /// What `base` becomes when this delta happens to it.
    pub fn apply(&self, base: &PropertyMap) -> (r: PropertyMap)
        ensures
            r@ == delta_applied(base@, self@),
    {
        let mut out = base.copied();
        let gone: Vec<u32> = keys_of(&self.removed);
        let mut i: usize = 0;
        while i < gone.len()
            invariant
                i <= gone.len(),
                out@ == base@.remove_keys(gone@.take(i as int).to_set()),
            decreases gone.len() - i,
        {
            let ghost before = gone@.take(i as int);
            assert(gone@.take(i + 1) =~= before.push(gone@[i as int]));
            out.remove(InternedString(gone[i]));
            assert(before.push(gone@[i as int]).to_set() =~= before.to_set().insert(
                gone@[i as int],
            )) by {
                broadcast use vstd::seq_lib::group_seq_properties;

            }
            assert(out@ =~= base@.remove_keys(gone@.take(i + 1).to_set()));
            i = i + 1;
        }
        assert(gone@.take(i as int) =~= gone@);
        assert(gone@.to_set() =~= self@.removed);
        let ghost stripped = out@;
        let names: Vec<u32> = keys_of(&self.changed);
        assert forall|name: u32| #[trigger] self@.changed.contains_key(name) implies names@.contains(
            name,
        ) by {
            assert(self.changed@.contains_key(name));
        }
        let mut k: usize = 0;
        while k < names.len()
            invariant
                k <= names.len(),
                lists_changed(names@, self@.changed),
                out@ == stripped.union_prefer_right(
                    self@.changed.restrict(names@.take(k as int).to_set()),
                ),
            decreases names.len() - k,
        {
            let name: u32 = names[k];
            let ghost before = names@.take(k as int);
            assert(names@.take(k + 1) =~= before.push(name));
            assert(before.push(name).to_set() =~= before.to_set().insert(name)) by {
                broadcast use vstd::seq_lib::group_seq_properties;

            }
            assert(self@.changed.contains_key(names@[k as int]));
            match self.changed.get(&name) {
                Some(value) => {
                    out.insert(InternedString(name), value.copied());
                },
                None => {},
            }
            assert(out@ =~= stripped.union_prefer_right(
                self@.changed.restrict(names@.take(k + 1).to_set()),
            ));
            k = k + 1;
        }
        assert(names@.take(k as int) =~= names@);
        assert(self@.changed.restrict(names@.to_set()) =~= self@.changed);
        out
    }
}

/// Every listed name is changed, and every changed name is listed.
pub open spec fn lists_changed(names: Seq<u32>, changed: Properties) -> bool {
    &&& forall|i: int| 0 <= i < names.len() ==> changed.contains_key(#[trigger] names[i])
    &&& forall|name: u32| #[trigger] changed.contains_key(name) ==> names.contains(name)
}

/// A delta names what differs and nothing else: a property is among the changed ones exactly if the
/// later map has it with a value that the earlier one does not have, and then with that value; it
/// is among the removed ones exactly if only the earlier map has it.
pub proof fn law_delta_names_what_differs(from: Properties, to: Properties, name: u32)
    ensures
        ({
            let d = delta_between(from, to);
            &&& d.changed.contains_key(name) <==> to.contains_key(name) && !(from.contains_key(name)
                && from[name] == to[name])
            &&& d.changed.contains_key(name) ==> d.changed[name] == to[name]
            &&& d.removed.contains(name) <==> from.contains_key(name) && !to.contains_key(name)
        }),
{
}

/// What a delta happens to has afterwards the changed properties with their new values, none of the
/// removed ones unless it is changed as well, and the others as they were.
pub proof fn law_delta_applies_name_by_name(base: Properties, delta: DeltaView, name: u32)
    ensures
        ({
            let after = delta_applied(base, delta);
            &&& delta.changed.contains_key(name) ==> after.contains_key(name) && after[name]
                == delta.changed[name]
            &&& !delta.changed.contains_key(name) && delta.removed.contains(name)
                ==> !after.contains_key(name)
            &&& !delta.changed.contains_key(name) && !delta.removed.contains(name) ==> (
            after.contains_key(name) <==> base.contains_key(name)) && (base.contains_key(name)
                ==> after[name] == base[name])
        }),
{
}

/// Numbers compare as numbers: one equals itself unless it is not a number, equality goes both
/// ways, the two zeros are equal, and numbers of different bits are not unless both are zeros.
pub proof fn law_numbers_compare_by_value(a: u64, b: u64)
    ensures
        ({
            let (x, y) = (ValueView::Float(a), ValueView::Float(b));
            let nan = |bits: u64| bits % 0x8000_0000_0000_0000 > 0x7ff0_0000_0000_0000;
            &&& x.equals(x) <==> !nan(a)
            &&& x.equals(y) <==> y.equals(x)
            &&& nan(a) ==> !x.equals(y)
            &&& ValueView::Float(0).equals(ValueView::Float(0x8000_0000_0000_0000))
            &&& a != b && a % 0x8000_0000_0000_0000 != 0 ==> !x.equals(y)
        }),
{
}

/// Vectors compare number by number: those of different lengths are never equal, one equals itself
/// unless it holds something that is not a number, and one that differs in a number from another is
/// not equal to it.
pub proof fn law_vectors_compare_by_value(a: Seq<u32>, b: Seq<u32>, i: int)
    ensures
        ({
            let (x, y) = (ValueView::Vector(a), ValueView::Vector(b));
            let nan = |bits: u32| bits % 0x8000_0000 > 0x7f80_0000;
            &&& a.len() != b.len() ==> !x.equals(y)
            &&& x.equals(y) <==> y.equals(x)
            &&& x.equals(x) <==> forall|j: int| 0 <= j < a.len() ==> !nan(#[trigger] a[j])
            &&& 0 <= i < a.len() && a[i] != b[i] && a[i] % 0x8000_0000 != 0 ==> !x.equals(y)
        }),
{
    if vectors_equal(a, b) {
        assert forall|j: int| 0 <= j < b.len() implies float32_equal(#[trigger] b[j], a[j]) by {
            assert(float32_equal(a[j], b[j]));
        }
        if 0 <= i < a.len() {
            assert(float32_equal(a[i], b[i]));
        }
    }
    if vectors_equal(b, a) {
        assert forall|j: int| 0 <= j < a.len() implies float32_equal(#[trigger] a[j], b[j]) by {
            assert(float32_equal(b[j], a[j]));
        }
    }
    if vectors_equal(a, a) {
        assert forall|j: int| 0 <= j < a.len() implies !((#[trigger] a[j]) % 0x8000_0000 > 0x7f80_0000) by {
            assert(float32_equal(a[j], a[j]));
        }
    }
    let nan = |bits: u32| bits % 0x8000_0000 > 0x7f80_0000;
    if forall|j: int| 0 <= j < a.len() ==> !nan(#[trigger] a[j]) {
        assert forall|j: int| 0 <= j < a.len() implies float32_equal(#[trigger] a[j], a[j]) by {
            assert(!nan(a[j]));
        }
    }
}

/// Values of different kinds are never equal, and other values than numbers are equal exactly if
/// they are the same.
pub proof fn law_other_values_compare_as_they_are(a: ValueView, b: ValueView)
    requires
        !(a is Float && b is Float),
        !(a is Vector && b is Vector),
    ensures
        a.equals(b) <==> a == b,
{
}

} // verus!

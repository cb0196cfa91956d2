//! Numbers by name, in the concurrent maps that `dashmap` provides.

use crate::interning::texts_of;
use dashmap::DashMap;
use vstd::prelude::*;

verus! {

/// A number for each of some names.
pub type Registry = DashMap<String, usize>;

/// Declares `dashmap::DashMap`.
#[verifier::external_type_specification]
#[verifier::external_body]
#[verifier::reject_recursive_types(K)]
#[verifier::reject_recursive_types(V)]
#[verifier::reject_recursive_types(S)]
pub struct ExDashMap<K, V, S>(DashMap<K, V, S>);

/// The numbers that a registry holds, by name.
pub uninterp spec fn registered(registry: Registry) -> Map<Seq<char>, usize>;

/// `dashmap::DashMap::new`: the new map is empty.
#[verifier::external_body]
pub(crate) fn registry_new() -> (r: Registry)
    ensures
        registered(r).is_empty(),
{
    DashMap::new()
}

/// `dashmap::DashMap::len`: how many names the map holds.
#[verifier::external_body]
pub(crate) fn registry_len(registry: &Registry) -> (r: usize)
    ensures
        r == registered(*registry).len(),
{
    registry.len()
}

/// `dashmap::DashMap::is_empty`: whether the map holds no name.
#[verifier::external_body]
pub(crate) fn registry_is_empty(registry: &Registry) -> (r: bool)
    ensures
        r == registered(*registry).is_empty(),
{
    registry.is_empty()
}

/// `dashmap::DashMap::contains_key`: whether the map holds the name.
#[verifier::external_body]
pub(crate) fn registry_contains(registry: &Registry, name: &str) -> (r: bool)
    ensures
        r == registered(*registry).contains_key(name@),
{
    registry.contains_key(name)
}

/// `dashmap::DashMap::get`: the number that the map holds for the name, if it holds one.
#[verifier::external_body]
pub(crate) fn registry_get(registry: &Registry, name: &str) -> (r: Option<usize>)
    ensures
        match r {
            Some(n) => registered(*registry).contains_key(name@) && n == registered(
                *registry,
            )[name@],
            None => !registered(*registry).contains_key(name@),
        },
{
    registry.get(name).map(|entry| *entry.value())
}

/// `dashmap::DashMap::insert`: the map then holds the number for the name, and everything else as
/// before.
#[verifier::external_body]
pub(crate) fn registry_insert(registry: &mut Registry, name: String, number: usize)
    ensures
        registered(*final(registry)) == registered(*old(registry)).insert(name@, number),
{
    registry.insert(name, number);
}

/// `dashmap::DashMap::iter`: the names that the map holds, each once, in no particular order.
#[verifier::external_body]
pub(crate) fn registry_names(registry: &Registry) -> (r: Vec<String>)
    ensures
        texts_of(r@).no_duplicates(),
        forall|name: Seq<char>| #[trigger]
            texts_of(r@).contains(name) <==> registered(*registry).contains_key(name),
{
    registry.iter().map(|entry| entry.key().clone()).collect()
}

/// A table of places by name. Only its own methods reach the map behind it.
#[derive(Debug)]
pub struct NameTable {
    map: Registry,
}

impl NameTable {
    /// The places, by name.
    pub closed spec fn places(self) -> Map<Seq<char>, usize> {
        registered(self.map)
    }

    /// No names.
    pub fn new() -> (r: NameTable)
        ensures
            r.places().is_empty(),
    {
        NameTable { map: registry_new() }
    }

    /// How many names there are.
    pub fn len(&self) -> (r: usize)
        ensures
            r == self.places().len(),
    {
        registry_len(&self.map)
    }

    /// Whether there are none.
    pub fn is_empty(&self) -> (r: bool)
        ensures
            r == self.places().is_empty(),
    {
        registry_is_empty(&self.map)
    }

    /// Whether there is such a name.
    pub fn contains(&self, name: &str) -> (r: bool)
        ensures
            r == self.places().contains_key(name@),
    {
        registry_contains(&self.map, name)
    }

    /// The place of a name.
    pub fn get(&self, name: &str) -> (r: Option<usize>)
        ensures
            match r {
                Some(slot) => self.places().contains_key(name@) && self.places()[name@] == slot,
                None => !self.places().contains_key(name@),
            },
    {
        registry_get(&self.map, name)
    }

    /// Gives a name a place.
    pub fn insert(&mut self, name: String, slot: usize)
        ensures
            final(self).places() == old(self).places().insert(name@, slot),
    {
        registry_insert(&mut self.map, name, slot);
    }

    /// All names, each once, in no particular order.
    pub fn names(&self) -> (r: Vec<String>)
        ensures
            texts_of(r@).no_duplicates(),
            forall|name: Seq<char>| #[trigger]
                texts_of(r@).contains(name) <==> self.places().contains_key(name),
    {
        registry_names(&self.map)
    }
}

} // verus!

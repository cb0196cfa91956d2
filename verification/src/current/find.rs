//! Finding nodes by what they hold.

use super::indexes::CurrentIndexes;
use super::property_index::{is_indexable, matches_value, PropertyIndex};
use super::scan::{as_nodes, names_nodes, select};
use super::storage::CurrentStorage;
use crate::error::{Error, ErrorView};
use crate::graph::Node;
use crate::ids::{InternedString, NodeId};
use crate::interning::StringInterner;
use crate::maps::{keys_of, lists_keys};
use crate::property::PropertyValue;
use std::collections::HashMap;
use vstd::prelude::*;

verus! {

broadcast use vstd::std_specs::hash::group_hash_axioms;

/// A property that is indexed.
#[derive(Debug)]
pub struct PropertyIndexInfo {
    /// The label.
    pub label: String,
    /// The property.
    pub property: String,
}

/// The message that a property is indexed already.
pub open spec fn already_indexed(label: Seq<char>, property: Seq<char>) -> Seq<char> {
    "property index already enabled for ("@ + label + ", "@ + property + ")"@
}

/// The message that a property is not indexed.
pub open spec fn not_indexed(label: Seq<char>, property: Seq<char>) -> Seq<char> {
    "no property index enabled for ("@ + label + ", "@ + property + ")"@
}

/// The error that a property is not indexed.
fn not_indexed_error(label: &str, property: &str) -> (r: Error)
    ensures
        r@ == ErrorView::FailedPrecondition(not_indexed(label@, property@)),
{
    let mut text = String::from_str("no property index enabled for (");
    text.append(label);
    text.append(", ");
    text.append(property);
    text.append(")");
    Error::FailedPrecondition(text)
}

impl CurrentIndexes {
    /// The place of the index of a property.
    fn find_property_index(&self, label: InternedString, key: InternedString) -> (r: Option<usize>)
        ensures
            match r {
                Some(i) => i < self.property_indexes@.len() && self.indexed_pairs()[i as int] == (
                    label,
                    key,
                ),
                None => !self.indexed_pairs().contains((label, key)),
            },
            r is Some ==> self.indexed_pairs().contains((label, key)),
    {
        let mut i: usize = 0;
        while i < self.property_indexes.len()
            invariant
                i <= self.property_indexes.len(),
                forall|j: int| 0 <= j < i ==> #[trigger] self.indexed_pairs()[j] != (label, key),
            decreases self.property_indexes.len() - i,
        {
            if self.property_indexes[i].label == label && self.property_indexes[i].key == key {
                assert(self.indexed_pairs()[i as int] == (label, key));
                return Some(i);
            }
            i = i + 1;
        }
        None
    }
}

/// How many nodes have a label.
pub open spec fn label_population(nodes: Map<u64, Node>, label: u32) -> Set<u64> {
    Set::new(|k: u64| nodes.contains_key(k) && nodes[k].label.0 == label)
}

/// Of the nodes listed so far, those that have a label.
spec fn population_so_far(
    nodes: Map<u64, Node>,
    keys: Seq<u64>,
    i: int,
    label: u32,
) -> Set<u64>
    decreases i,
{
    if i <= 0 {
        Set::empty()
    } else if nodes[keys[i - 1]].label.0 == label {
        population_so_far(nodes, keys, i - 1, label).insert(keys[i - 1])
    } else {
        population_so_far(nodes, keys, i - 1, label)
    }
}

/// What the nodes listed so far are that have a label.
proof fn lemma_population_so_far(nodes: Map<u64, Node>, keys: Seq<u64>, i: int, label: u32)
    requires
        0 <= i <= keys.len(),
        keys.no_duplicates(),
    ensures
        population_so_far(nodes, keys, i, label).finite(),
        population_so_far(nodes, keys, i, label).len() <= i,
        forall|k: u64| #[trigger]
            population_so_far(nodes, keys, i, label).contains(k) <==> nodes[k].label.0 == label
                && exists|j: int| 0 <= j < i && keys[j] == k,
        i < keys.len() ==> !population_so_far(nodes, keys, i, label).contains(keys[i]),
    decreases i,
{
    if i > 0 {
        lemma_population_so_far(nodes, keys, i - 1, label);
        let before = population_so_far(nodes, keys, i - 1, label);
        let now = population_so_far(nodes, keys, i, label);
        assert forall|k: u64| #[trigger] now.contains(k) <==> nodes[k].label.0 == label
            && exists|j: int| 0 <= j < i && keys[j] == k by {
            assert(before.contains(k) <==> nodes[k].label.0 == label && exists|j: int|
                0 <= j < i - 1 && keys[j] == k);
            if exists|j: int| 0 <= j < i - 1 && keys[j] == k {
                let j = choose|j: int| 0 <= j < i - 1 && keys[j] == k;
                assert(0 <= j < i && keys[j] == k);
            }
            if exists|j: int| 0 <= j < i && keys[j] == k {
                let j = choose|j: int| 0 <= j < i && keys[j] == k;
                if j == i - 1 {
                    assert(keys[i - 1] == k);
                } else {
                    assert(0 <= j < i - 1 && keys[j] == k);
                }
            }
            assert(keys[i - 1] == keys[i - 1]);
        }
    }
    if i < keys.len() && population_so_far(nodes, keys, i, label).contains(keys[i]) {
        let j = choose|j: int| 0 <= j < i && keys[j] == keys[i];
        assert(keys[j] == keys[i]);
    }
}

impl CurrentStorage {
    /// The property is indexed.
    pub open spec fn is_indexed(self, label: Seq<char>, property: Seq<char>) -> bool {
        &&& self.interner.id_of(label) is Some
        &&& self.interner.id_of(property) is Some
        &&& self.indexes.indexed_pairs().contains(
            (self.interner.id_of(label)->Some_0, self.interner.id_of(property)->Some_0),
        )
    }

    /// The node has the label and, under the property, an equal value.
    pub open spec fn holds_value(
        self,
        k: u64,
        label: Seq<char>,
        property: Seq<char>,
        value: PropertyValue,
    ) -> bool {
        &&& self.nodes().contains_key(k)
        &&& self.interner.id_of(label) is Some
        &&& self.interner.id_of(property) is Some
        &&& matches_value(
            self.nodes()[k],
            self.interner.id_of(label)->Some_0,
            self.interner.id_of(property)->Some_0,
            value@,
        )
    }

    /// The nodes with a label that have an equal value under a property, each once, in no
    /// particular order. The answer is the same whether the property is indexed or not.
    pub fn find_nodes_by_property(
        &self,
        label: &str,
        property_key: &str,
        property_value: &PropertyValue,
    ) -> (r: Vec<NodeId>)
        requires
            self.well_formed(),
        ensures
            names_nodes(
                r@,
                |k: u64| self.holds_value(k, label@, property_key@, *property_value),
            ),
    {
        let label_id = match self.interner.get_id(label) {
            Some(id) => id,
            None => {
                return Vec::new();
            },
        };
        let key_id = match self.interner.get_id(property_key) {
            Some(id) => id,
            None => {
                return Vec::new();
            },
        };
        if is_indexable(property_value) {
            if let Some(i) = self.indexes.find_property_index(label_id, key_id) {
                let index = &self.indexes.property_indexes[i];
                assert(self.indexes.indexed_pairs()[i as int] == (label_id, key_id));
                assert(index.tells(self.nodes()));
                let r = index.find(Ghost(self.nodes()), property_value);
                assert forall|k: u64| #[trigger] r@.contains(NodeId(k)) <==> self.holds_value(
                    k,
                    label@,
                    property_key@,
                    *property_value,
                ) by {}
                return r;
            }
        }
        let test = |node: &Node| -> (b: bool)
            ensures
                b == matches_value(*node, label_id, key_id, property_value@),
            {
                node.label == label_id && match node.properties.get(key_id) {
                    Some(value) => value.equals(property_value),
                    None => false,
                }
            };
        let keys = select(&self.indexes.nodes, test);
        let r = as_nodes(&keys);
        assert forall|k: u64| #[trigger] r@.contains(NodeId(k)) <==> self.holds_value(
            k,
            label@,
            property_key@,
            *property_value,
        ) by {
            assert(keys@.contains(k) <==> r@.contains(NodeId(k)));
            if self.nodes().contains_key(k) && !keys@.contains(k) {
                assert(call_ensures(test, (&self.nodes()[k],), false));
            }
        }
        r
    }

    /// The strings cannot both be interned.
    pub open spec fn lacks_room(self, a: Seq<char>, b: Seq<char>) -> bool {
        let first: int = if self.interner.id_of(a) is None {
            1
        } else {
            0
        };
        let second: int = if self.interner.id_of(b) is None && b != a {
            1
        } else {
            0
        };
        self.interner.strings@.len() + first + second > self.interner.limit
    }

    /// Indexes a property of the nodes with a label, unless it is indexed already.
    pub fn enable_property_index(&mut self, label: &str, property: &str) -> (r: Result<(), Error>)
        requires
            old(self).well_formed(),
        ensures
            final(self).well_formed(),
            final(self).nodes() == old(self).nodes(),
            final(self).edges() == old(self).edges(),
            *final(self) == (CurrentStorage {
                indexes: final(self).indexes,
                interner: final(self).interner,
                ..*old(self)
            }),
            exists|mid: StringInterner|
                old(self).interner.after_intern(label@, mid) && #[trigger] mid.after_intern(
                    property@,
                    final(self).interner,
                ),
            match r {
                Ok(_) => {
                    &&& !old(self).is_indexed(label@, property@)
                    &&& final(self).is_indexed(label@, property@)
                    &&& final(self).indexes.indexed_pairs() == old(self).indexes.indexed_pairs().push(
                        (
                            final(self).interner.id_of(label@)->Some_0,
                            final(self).interner.id_of(property@)->Some_0,
                        ),
                    )
                },
                Err(error) => {
                    &&& final(self).indexes == old(self).indexes
                    &&& if old(self).is_indexed(label@, property@) {
                        error@ == ErrorView::FailedPrecondition(already_indexed(label@, property@))
                    } else {
                        &&& old(self).lacks_room(label@, property@)
                        &&& error@ == final(self).no_more_strings()
                    }
                },
            },
    {
        let label_id = match self.interner.intern(label) {
            Ok(id) => id,
            Err(error) => {
                assert(self.interner.after_intern(property@, self.interner));
                return Err(error);
            },
        };
        let ghost mid = self.interner;
        let key_id = match self.interner.intern(property) {
            Ok(id) => id,
            Err(error) => {
                assert(mid.after_intern(property@, self.interner));
                return Err(error);
            },
        };
        assert(mid.after_intern(property@, self.interner));
        if self.indexes.find_property_index(label_id, key_id).is_some() {
            let mut text = String::from_str("property index already enabled for (");
            text.append(label);
            text.append(", ");
            text.append(property);
            text.append(")");
            return Err(Error::FailedPrecondition(text));
        }
        let ghost before = self.indexes;
        let mut index = PropertyIndex::new(label_id, key_id);
        index.fill(&self.indexes.nodes);
        self.indexes.property_indexes.push(index);
        proof {
            assert(self.indexes.indexed_pairs() =~= before.indexed_pairs().push(
                (label_id, key_id),
            ));
            assert(self.indexes.indexed_pairs()[before.property_indexes@.len() as int] == (
                label_id,
                key_id,
            ));
        }
        Ok(())
    }

    /// Whether a property is indexed.
    pub fn has_property_index(&self, label: &str, property: &str) -> (r: bool)
        requires
            self.well_formed(),
        ensures
            r == self.is_indexed(label@, property@),
    {
        match (self.interner.get_id(label), self.interner.get_id(property)) {
            (Some(label_id), Some(key_id)) => self.indexes.find_property_index(
                label_id,
                key_id,
            ).is_some(),
            _ => false,
        }
    }

    /// Stops indexing a property.
    pub fn drop_property_index(&mut self, label: &str, property: &str) -> (r: Result<(), Error>)
        requires
            old(self).well_formed(),
        ensures
            final(self).well_formed(),
            final(self).nodes() == old(self).nodes(),
            final(self).edges() == old(self).edges(),
            *final(self) == (CurrentStorage { indexes: final(self).indexes, ..*old(self) }),
            match r {
                Ok(_) => {
                    &&& old(self).is_indexed(label@, property@)
                    &&& exists|i: int|
                        {
                            &&& 0 <= i < old(self).indexes.indexed_pairs().len()
                            &&& #[trigger] old(self).indexes.indexed_pairs()[i] == (
                                old(self).interner.id_of(label@)->Some_0,
                                old(self).interner.id_of(property@)->Some_0,
                            )
                            &&& final(self).indexes.indexed_pairs() == old(self).indexes.indexed_pairs().remove(i)
                        }
                },
                Err(error) => {
                    &&& !old(self).is_indexed(label@, property@)
                    &&& error@ == ErrorView::FailedPrecondition(not_indexed(label@, property@))
                    &&& *final(self) == *old(self)
                },
            },
    {
        match (self.interner.get_id(label), self.interner.get_id(property)) {
            (Some(label_id), Some(key_id)) => match self.indexes.find_property_index(
                label_id,
                key_id,
            ) {
                Some(i) => {
                    let ghost before = self.indexes;
                    self.indexes.property_indexes.remove(i);
                    proof {
                        assert(before.indexed_pairs()[i as int] == (label_id, key_id));
                        assert(self.indexes.indexed_pairs() =~= before.indexed_pairs().remove(
                            i as int,
                        ));
                        assert forall|j: int|
                            0 <= j < self.indexes.property_indexes@.len() implies (
                        #[trigger] self.indexes.property_indexes@[j]).tells(
                            self.indexes.nodes@,
                        ) by {
                            if j < i {
                                assert(before.property_indexes@[j].tells(before.nodes@));
                            } else {
                                assert(before.property_indexes@[j + 1].tells(before.nodes@));
                            }
                        }
                    }
                    Ok(())
                },
                None => Err(not_indexed_error(label, property)),
            },
            _ => Err(not_indexed_error(label, property)),
        }
    }

    /// The properties that are indexed, as far as their names are known.
    pub fn list_property_indexes(&self) -> (r: Vec<PropertyIndexInfo>)
        requires
            self.well_formed(),
        ensures
            listed_infos(self.interner.texts(), self.indexes.indexed_pairs(), r@),
    {
        let mut out: Vec<PropertyIndexInfo> = Vec::new();
        let ghost pairs = self.indexes.indexed_pairs();
        let mut i: usize = 0;
        while i < self.indexes.property_indexes.len()
            invariant
                i <= self.indexes.property_indexes.len(),
                self.well_formed(),
                pairs == self.indexes.indexed_pairs(),
                listed_infos(self.interner.texts(), pairs.take(i as int), out@),
            decreases self.indexes.property_indexes.len() - i,
        {
            let index = &self.indexes.property_indexes[i];
            let label = self.interner.resolve(index.label);
            let property = self.interner.resolve(index.key);
            let ghost before = out@;
            if let Some(label) = label {
                if let Some(property) = property {
                    out.push(
                        PropertyIndexInfo {
                            label: String::from_str(label.as_str()),
                            property: String::from_str(property.as_str()),
                        },
                    );
                    assert(out@.drop_last() =~= before);
                }
            }
            i = i + 1;
            assert(pairs.take(i as int).drop_last() =~= pairs.take(i - 1));
            assert(pairs.take(i as int).last() == pairs[i - 1]);
        }
        assert(pairs.take(i as int) =~= pairs);
        out
    }

    /// How many nodes have each label, each label that occurs once, in no particular order.
    pub fn label_counts(&self) -> (r: Vec<(InternedString, usize)>)
        ensures
            forall|i: int|
                0 <= i < r@.len() ==> {
                    &&& (#[trigger] r@[i]).1 == label_population(self.nodes(), r@[i].0.0).len()
                    &&& r@[i].1 > 0
                },
            forall|i: int, j: int|
                0 <= i < j < r@.len() ==> (#[trigger] r@[i]).0 != (#[trigger] r@[j]).0,
            forall|k: u64| #[trigger]
                self.nodes().contains_key(k) ==> exists|i: int|
                    0 <= i < r@.len() && (#[trigger] r@[i]).0 == self.nodes()[k].label,
    {
        let ghost nodes = self.nodes();
        let keys = keys_of(&self.indexes.nodes);
        let mut counts: HashMap<u32, usize> = HashMap::new();
        let mut i: usize = 0;
        while i < keys.len()
            invariant
                i <= keys.len(),
                nodes == self.nodes(),
                lists_keys(keys@, nodes),
                forall|l: u32| #[trigger]
                    counts@.contains_key(l) ==> counts@[l] == population_so_far(
                        nodes,
                        keys@,
                        i as int,
                        l,
                    ).len() && counts@[l] > 0,
                forall|l: u32|
                    !(#[trigger] counts@.contains_key(l)) ==> population_so_far(
                        nodes,
                        keys@,
                        i as int,
                        l,
                    ).len() == 0,
                forall|j: int|
                    0 <= j < i ==> counts@.contains_key(nodes[#[trigger] keys@[j]].label.0),
            decreases keys.len() - i,
        {
            let k: u64 = keys[i];
            assert(nodes.contains_key(k));
            let ghost before = counts@;
            if let Some(node) = self.indexes.nodes.get(&k) {
                let label: u32 = node.label.0;
                let count: usize = match counts.get(&label) {
                    Some(n) => *n,
                    None => 0,
                };
                proof {
                    lemma_population_so_far(nodes, keys@, i as int, label);
                }
                counts.insert(label, count + 1);
                proof {
                    assert forall|l: u32| #[trigger] counts@.contains_key(l) implies counts@[l]
                        == population_so_far(nodes, keys@, i as int + 1, l).len() && counts@[l]
                        > 0 by {
                        if l != label {
                            assert(before.contains_key(l));
                        }
                    }
                    assert forall|l: u32| !(#[trigger] counts@.contains_key(
                        l,
                    )) implies population_so_far(nodes, keys@, i as int + 1, l).len() == 0 by {
                        assert(!before.contains_key(l));
                    }
                }
            }
            i = i + 1;
        }
        let labels = keys_of(&counts);
        let mut out: Vec<(InternedString, usize)> = Vec::new();
        let mut j: usize = 0;
        while j < labels.len()
            invariant
                j <= labels.len(),
                lists_keys(labels@, counts@),
                out@.len() == j,
                forall|a: int|
                    0 <= a < j ==> (#[trigger] out@[a]).0.0 == labels@[a] && out@[a].1
                        == counts@[labels@[a]],
            decreases labels.len() - j,
        {
            assert(counts@.contains_key(labels@[j as int]));
            if let Some(count) = counts.get(&labels[j]) {
                out.push((InternedString(labels[j]), *count));
            }
            j = j + 1;
        }
        proof {
            assert forall|a: int| 0 <= a < out@.len() implies {
                &&& (#[trigger] out@[a]).1 == label_population(nodes, out@[a].0.0).len()
                &&& out@[a].1 > 0
            } by {
                let l = labels@[a];
                assert(counts@.contains_key(l));
                lemma_population_so_far(nodes, keys@, keys@.len() as int, l);
                assert(population_so_far(nodes, keys@, keys@.len() as int, l) =~= label_population(
                    nodes,
                    l,
                )) by {
                    assert forall|k: u64|
                        population_so_far(nodes, keys@, keys@.len() as int, l).contains(k)
                            <==> #[trigger] label_population(nodes, l).contains(k) by {
                        assert(keys@.contains(k) <==> nodes.contains_key(k));
                        if keys@.contains(k) {
                            let b = choose|b: int| 0 <= b < keys@.len() && keys@[b] == k;
                            assert(keys@[b] == k);
                        }
                    }
                }
            }
            assert forall|a: int, b: int| 0 <= a < b < out@.len() implies (#[trigger] out@[a]).0
                != (#[trigger] out@[b]).0 by {
                assert(labels@[a] != labels@[b]);
            }
            assert forall|k: u64| #[trigger] self.nodes().contains_key(k) implies exists|a: int|
                0 <= a < out@.len() && (#[trigger] out@[a]).0 == self.nodes()[k].label by {
                assert(keys@.contains(k));
                let b = choose|b: int| 0 <= b < keys@.len() && keys@[b] == k;
                assert(counts@.contains_key(nodes[keys@[b]].label.0));
                assert(labels@.contains(nodes[k].label.0));
                let a = choose|a: int| 0 <= a < labels@.len() && labels@[a] == nodes[k].label.0;
                assert(out@[a].0 == self.nodes()[k].label);
            }
        }
        out
    }
}

/// The list gives the names of the pairs whose names are known, in order.
pub open spec fn listed_infos(
    texts: Seq<Seq<char>>,
    pairs: Seq<(InternedString, InternedString)>,
    r: Seq<PropertyIndexInfo>,
) -> bool
    decreases pairs.len(),
{
    if pairs.len() == 0 {
        r.len() == 0
    } else {
        let (label, key) = pairs.last();
        if label.0 < texts.len() && key.0 < texts.len() {
            &&& r.len() > 0
            &&& r.last().label@ == texts[label.0 as int]
            &&& r.last().property@ == texts[key.0 as int]
            &&& listed_infos(texts, pairs.drop_last(), r.drop_last())
        } else {
            listed_infos(texts, pairs.drop_last(), r)
        }
    }
}

/// A node is found by a property exactly if it is there, its label has the name that is asked for,
/// and under the property of that name it has an equal value.
pub proof fn law_found_by_property(
    storage: CurrentStorage,
    k: u64,
    label: Seq<char>,
    property: Seq<char>,
    key: InternedString,
    value: PropertyValue,
)
    requires
        storage.well_formed(),
        storage.nodes().contains_key(k),
        key.0 < storage.interner.strings@.len(),
        storage.interner.strings@[key.0 as int]@ == property,
    ensures
        ({
            let node = storage.nodes()[k];
            let texts = storage.interner.strings@;
            storage.holds_value(k, label, property, value) <==> node.label.0 < texts.len()
                && texts[node.label.0 as int]@ == label && node.properties@.contains_key(key.0)
                && node.properties@[key.0].equals(value@)
        }),
        storage.has_label(k, label) <==> storage.nodes()[k].label.0 < storage.interner.strings@.len()
            && storage.interner.strings@[storage.nodes()[k].label.0 as int]@ == label,
{
    let texts = storage.interner.texts();
    let own = storage.nodes()[k].label;
    assert(texts[key.0 as int] == property);
    assert(texts[texts.index_of(property)] == property);
    assert(storage.interner.id_of(property) == Some(key));
    if own.0 < texts.len() && texts[own.0 as int] == label {
        assert(texts[texts.index_of(label)] == label);
    }
    if texts.contains(label) {
        assert(texts[texts.index_of(label)] == label);
        assert(texts.index_of(label) <= u32::MAX);
    }
}

/// Two strings can both be interned exactly if there is room for those of them that are new; a
/// string that is asked for twice is new once.
pub proof fn law_room_for_two_strings(storage: CurrentStorage, a: Seq<char>, b: Seq<char>)
    ensures
        ({
            let texts = storage.interner.texts();
            let room = storage.interner.limit - storage.interner.strings@.len();
            &&& texts.contains(a) && texts.contains(b) ==> (storage.lacks_room(a, b) <==> room < 0)
            &&& texts.contains(a) != texts.contains(b) ==> (storage.lacks_room(a, b) <==> room < 1)
            &&& !texts.contains(a) && !texts.contains(b) && a != b ==> (storage.lacks_room(a, b)
                <==> room < 2)
            &&& !texts.contains(a) && a == b ==> (storage.lacks_room(a, b) <==> room < 1)
        }),
{
}

/// The properties that are indexed are told by their names, one for each, in order.
pub proof fn law_indexed_properties_are_told(
    texts: Seq<Seq<char>>,
    pairs: Seq<(InternedString, InternedString)>,
    r: Seq<PropertyIndexInfo>,
)
    requires
        listed_infos(texts, pairs, r),
        forall|i: int|
            0 <= i < pairs.len() ==> (#[trigger] pairs[i]).0.0 < texts.len() && pairs[i].1.0
                < texts.len(),
    ensures
        r.len() == pairs.len(),
        forall|i: int|
            0 <= i < pairs.len() ==> (#[trigger] r[i]).label@ == texts[pairs[i].0.0 as int]
                && r[i].property@ == texts[pairs[i].1.0 as int],
    decreases pairs.len(),
{
    if pairs.len() > 0 {
        let last = pairs.len() - 1;
        let fewer = pairs.drop_last();
        assert(pairs[last] == pairs.last());
        assert forall|i: int| 0 <= i < fewer.len() implies (#[trigger] fewer[i]).0.0 < texts.len()
            && fewer[i].1.0 < texts.len() by {
            assert(fewer[i] == pairs[i]);
        }
        law_indexed_properties_are_told(texts, fewer, r.drop_last());
        assert forall|i: int| 0 <= i < pairs.len() implies (#[trigger] r[i]).label@
            == texts[pairs[i].0.0 as int] && r[i].property@ == texts[pairs[i].1.0 as int] by {
            if i < last {
                assert(r.drop_last()[i] == r[i]);
                assert(fewer[i] == pairs[i]);
            }
        }
    }
}

/// A node counts for the label that it has and for no other.
pub proof fn law_label_population(nodes: Map<u64, Node>, label: u32, other: u32, k: u64)
    ensures
        label_population(nodes, label).contains(k) <==> nodes.contains_key(k) && nodes[k].label.0
            == label,
        label != other ==> !(label_population(nodes, label).contains(k) && label_population(
            nodes,
            other,
        ).contains(k)),
{
}

/// A property is indexed exactly if one of the indexes is of its label and of its name.
pub proof fn law_indexed_by_name(storage: CurrentStorage, label: Seq<char>, property: Seq<char>, i: int)
    requires
        storage.well_formed(),
    ensures
        ({
            let texts = storage.interner.strings@;
            let indexes = storage.indexes.property_indexes@;
            &&& 0 <= i < indexes.len() && texts[indexes[i].label.0 as int]@ == label
                && texts[indexes[i].key.0 as int]@ == property ==> storage.is_indexed(label, property)
            &&& storage.is_indexed(label, property) ==> exists|j: int|
                0 <= j < indexes.len() && texts[(#[trigger] indexes[j]).label.0 as int]@ == label
                    && texts[indexes[j].key.0 as int]@ == property
        }),
{
    let texts = storage.interner.texts();
    let indexes = storage.indexes.property_indexes@;
    let pairs = storage.indexes.indexed_pairs();
    if 0 <= i < indexes.len() {
        assert(pairs[i].0.0 < texts.len() && pairs[i].1.0 < texts.len());
        assert(pairs[i] == (indexes[i].label, indexes[i].key));
    }
    if 0 <= i < indexes.len() && texts[indexes[i].label.0 as int] == label && texts[indexes[i].key.0 as int]
        == property {
        assert(texts.contains(label) && texts.contains(property));
        assert(texts[texts.index_of(label)] == label);
        assert(texts[texts.index_of(property)] == property);
        assert(pairs.contains((indexes[i].label, indexes[i].key)));
    }
    if storage.is_indexed(label, property) {
        let pair = (storage.interner.id_of(label)->Some_0, storage.interner.id_of(property)->Some_0);
        let j = choose|j: int| 0 <= j < pairs.len() && pairs[j] == pair;
        assert(texts[texts.index_of(label)] == label);
        assert(texts[texts.index_of(property)] == property);
        assert(texts.index_of(label) <= u32::MAX);
        assert(texts.index_of(property) <= u32::MAX);
        assert(indexes[j].label == pair.0 && indexes[j].key == pair.1);
    }
}

} // verus!

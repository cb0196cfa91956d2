//! Finding nodes by label and property value.

use crate::graph::Node;
use crate::ids::{InternedString, NodeId};
use crate::maps::{keys_of, lists_keys};
use crate::property::{PropertyValue, ValueView};
use std::collections::HashMap;
use vstd::prelude::*;

verus! {

broadcast use vstd::std_specs::hash::group_hash_axioms;

/// Whether values of this kind are indexed: texts, integers and truth values are.
pub open spec fn indexable(value: ValueView) -> bool {
    value is Text || value is Int || value is Bool
}

/// Whether values of this kind are indexed.
pub fn is_indexable(value: &PropertyValue) -> (r: bool)
    ensures
        r == indexable(value@),
{
    match value {
        PropertyValue::Text(_) => true,
        PropertyValue::Int(_) => true,
        PropertyValue::Bool(_) => true,
        _ => false,
    }
}

/// The node has the label and, under the key, an equal value.
pub open spec fn matches_value(
    node: Node,
    label: InternedString,
    key: InternedString,
    value: ValueView,
) -> bool {
    &&& node.label == label
    &&& node.properties@.contains_key(key.0)
    &&& node.properties@[key.0].equals(value)
}

/// The values of one property of the nodes with one label, as far as they are indexed.
#[derive(Debug)]
pub struct PropertyIndex {
    /// The label.
    pub label: InternedString,
    /// The property.
    pub key: InternedString,
    /// The values, by node.
    pub members: HashMap<u64, PropertyValue>,
}

impl PropertyIndex {
    /// Whether the index covers the node.
    pub open spec fn covers(self, node: Node) -> bool {
        &&& node.label == self.label
        &&& node.properties@.contains_key(self.key.0)
        &&& indexable(node.properties@[self.key.0])
    }

    /// The index holds exactly the values of the nodes that it covers.
    pub open spec fn tells(self, nodes: Map<u64, Node>) -> bool {
        &&& forall|k: u64| #[trigger]
            self.members@.contains_key(k) <==> nodes.contains_key(k) && self.covers(nodes[k])
        &&& forall|k: u64| #[trigger]
            self.members@.contains_key(k) ==> self.members@[k]@
                == nodes[k].properties@[self.key.0]
    }

    /// An index that covers no nodes yet.
    pub fn new(label: InternedString, key: InternedString) -> (r: PropertyIndex)
        ensures
            r.label == label,
            r.key == key,
            r.members@.is_empty(),
    {
        PropertyIndex { label, key, members: HashMap::new() }
    }

    /// Takes in a node, in place of what it was before.
    pub fn note(&mut self, node: &Node)
        ensures
            final(self).label == old(self).label,
            final(self).key == old(self).key,
            forall|nodes: Map<u64, Node>|
                old(self).tells(nodes) ==> final(self).tells(
                    #[trigger] nodes.insert(node.id.0, *node),
                ),
    {
        let id: u64 = node.id.0;
        self.members.remove(&id);
        if node.label == self.label {
            if let Some(value) = node.properties.get(self.key) {
                if is_indexable(value) {
                    self.members.insert(id, value.copied());
                }
            }
        }
        proof {
            assert forall|nodes: Map<u64, Node>| old(self).tells(nodes) implies self.tells(
                #[trigger] nodes.insert(id, *node),
            ) by {
                let after = nodes.insert(id, *node);
                assert forall|k: u64| #[trigger] self.members@.contains_key(k) <==> after.contains_key(
                    k,
                ) && self.covers(after[k]) by {
                    assert(old(self).members@.contains_key(k) <==> nodes.contains_key(k) && old(
                        self,
                    ).covers(nodes[k]));
                }
                assert forall|k: u64| #[trigger] self.members@.contains_key(k) implies self.members@[k]@
                    == after[k].properties@[self.key.0] by {
                    if k != id {
                        assert(old(self).members@.contains_key(k));
                    }
                }
            }
        }
    }

    /// Forgets a node.
    pub fn forget(&mut self, id: NodeId)
        ensures
            final(self).label == old(self).label,
            final(self).key == old(self).key,
            forall|nodes: Map<u64, Node>|
                old(self).tells(nodes) ==> final(self).tells(#[trigger] nodes.remove(id.0)),
    {
        self.members.remove(&id.0);
        proof {
            assert forall|nodes: Map<u64, Node>| old(self).tells(nodes) implies self.tells(
                #[trigger] nodes.remove(id.0),
            ) by {
                let after = nodes.remove(id.0);
                assert forall|k: u64| #[trigger] self.members@.contains_key(k) <==> after.contains_key(
                    k,
                ) && self.covers(after[k]) by {
                    assert(old(self).members@.contains_key(k) <==> nodes.contains_key(k) && old(
                        self,
                    ).covers(nodes[k]));
                }
                assert forall|k: u64| #[trigger] self.members@.contains_key(k) implies self.members@[k]@
                    == after[k].properties@[self.key.0] by {
                    assert(old(self).members@.contains_key(k));
                }
            }
        }
    }

    /// Takes in all nodes.
    pub fn fill(&mut self, nodes: &HashMap<u64, Node>)
        requires
            old(self).members@.is_empty(),
            forall|k: u64| #[trigger]
                nodes@.contains_key(k) ==> nodes@[k].id.0 == k,
        ensures
            final(self).label == old(self).label,
            final(self).key == old(self).key,
            final(self).tells(nodes@),
    {
        let keys = keys_of(nodes);
        let ghost mut done = Map::<u64, Node>::empty();
        let mut i: usize = 0;
        while i < keys.len()
            invariant
                i <= keys.len(),
                lists_keys(keys@, nodes@),
                forall|k: u64| #[trigger]
                    nodes@.contains_key(k) ==> nodes@[k].id.0 == k,
                self.label == old(self).label,
                self.key == old(self).key,
                self.tells(done),
                forall|k: u64| #[trigger]
                    done.contains_key(k) <==> exists|j: int| 0 <= j < i && keys@[j] == k,
                forall|k: u64| #[trigger]
                    done.contains_key(k) ==> nodes@.contains_key(k) && done[k] == nodes@[k],
            decreases keys.len() - i,
        {
            let k: u64 = keys[i];
            let ghost before = done;
            if let Some(node) = nodes.get(&k) {
                self.note(node);
                proof {
                    done = done.insert(k, *node);
                }
            }
            i = i + 1;
            proof {
                assert(nodes@.contains_key(k));
                assert forall|x: u64| #[trigger] done.contains_key(x) <==> exists|j: int|
                    0 <= j < i && keys@[j] == x by {
                    if x == k {
                        assert(keys@[i - 1] == x);
                    } else {
                        if before.contains_key(x) {
                            let j = choose|j: int| 0 <= j < i - 1 && keys@[j] == x;
                            assert(keys@[j] == x);
                        }
                        if exists|j: int| 0 <= j < i && keys@[j] == x {
                            let j = choose|j: int| 0 <= j < i && keys@[j] == x;
                            assert(0 <= j < i - 1);
                            assert(before.contains_key(x));
                        }
                    }
                }
            }
        }
        assert(done =~= nodes@) by {
            assert forall|k: u64| #[trigger] done.contains_key(k) <==> nodes@.contains_key(k) by {
                if nodes@.contains_key(k) {
                    assert(keys@.contains(k));
                    let j = choose|j: int| 0 <= j < keys@.len() && keys@[j] == k;
                    assert(keys@[j] == k);
                }
            }
        }
    }

    /// The nodes with an equal value, each once, in no particular order.
    pub(crate) fn find(&self, nodes: Ghost<Map<u64, Node>>, value: &PropertyValue) -> (r: Vec<NodeId>)
        requires
            self.tells(nodes@),
            indexable(value@),
        ensures
            r@.no_duplicates(),
            forall|k: u64| #[trigger]
                r@.contains(NodeId(k)) <==> nodes@.contains_key(k) && matches_value(
                    nodes@[k],
                    self.label,
                    self.key,
                    value@,
                ),
    {
        let keys = keys_of(&self.members);
        let mut out: Vec<NodeId> = Vec::new();
        let mut i: usize = 0;
        while i < keys.len()
            invariant
                i <= keys.len(),
                lists_keys(keys@, self.members@),
                self.tells(nodes@),
                out@.no_duplicates(),
                forall|k: u64| #[trigger]
                    out@.contains(NodeId(k)) <==> exists|j: int|
                        0 <= j < i && keys@[j] == k && self.members@[k]@.equals(value@),
            decreases keys.len() - i,
        {
            let k: u64 = keys[i];
            let ghost before = out@;
            assert(self.members@.contains_key(k));
            assert(!before.contains(NodeId(k))) by {
                if before.contains(NodeId(k)) {
                    let j = choose|j: int|
                        0 <= j < i && keys@[j] == k && self.members@[k]@.equals(value@);
                    assert(keys@[j] == keys@[i as int]);
                }
            }
            if let Some(held) = self.members.get(&k) {
                if held.equals(value) {
                    out.push(NodeId(k));
                }
            }
            i = i + 1;
            proof {
                assert forall|x: u64| #[trigger] out@.contains(NodeId(x)) <==> exists|j: int|
                    0 <= j < i && keys@[j] == x && self.members@[x]@.equals(value@) by {
                    lemma_contains_push(before, NodeId(k), NodeId(x));
                    if x == k {
                        assert(keys@[i - 1] == x);
                    } else {
                        if before.contains(NodeId(x)) {
                            let j = choose|j: int|
                                0 <= j < i - 1 && keys@[j] == x && self.members@[x]@.equals(value@);
                            assert(keys@[j] == x);
                        }
                        if exists|j: int|
                            0 <= j < i && keys@[j] == x && self.members@[x]@.equals(value@) {
                            let j = choose|j: int|
                                0 <= j < i && keys@[j] == x && self.members@[x]@.equals(value@);
                            assert(0 <= j < i - 1);
                            assert(before.contains(NodeId(x)));
                        }
                    }
                }
            }
        }
        proof {
            assert forall|k: u64| #[trigger] out@.contains(NodeId(k)) <==> nodes@.contains_key(k)
                && matches_value(nodes@[k], self.label, self.key, value@) by {
                if nodes@.contains_key(k) && matches_value(
                    nodes@[k],
                    self.label,
                    self.key,
                    value@,
                ) {
                    assert(self.covers(nodes@[k]));
                    assert(self.members@.contains_key(k));
                    assert(keys@.contains(k));
                    let j = choose|j: int| 0 <= j < keys@.len() && keys@[j] == k;
                    assert(keys@[j] == k && self.members@[k]@.equals(value@));
                }
                if out@.contains(NodeId(k)) {
                    let j = choose|j: int|
                        0 <= j < i && keys@[j] == k && self.members@[k]@.equals(value@);
                    assert(self.members@.contains_key(keys@[j]));
                }
            }
        }
        out
    }
}

/// What a longer list holds.
pub proof fn lemma_contains_push<T>(s: Seq<T>, last: T, x: T)
    ensures
        s.push(last).contains(x) <==> x == last || s.contains(x),
{
    let longer = s.push(last);
    if s.contains(x) {
        let j = choose|j: int| 0 <= j < s.len() && s[j] == x;
        assert(longer[j] == x);
    }
    assert(longer[s.len() as int] == last);
    if longer.contains(x) && x != last {
        let j = choose|j: int| 0 <= j < longer.len() && longer[j] == x;
        assert(s[j] == x);
    }
}

/// Texts, integers and truth values are indexed, and nothing else is.
pub proof fn law_what_is_indexed(value: ValueView)
    ensures
        value is Text || value is Int || value is Bool ==> indexable(value),
        value is Null || value is Float || value is Vector ==> !indexable(value),
{
}

/// An index holds the value of every node that has its label and an indexable value under its
/// property, and of no other.
pub proof fn law_index_holds_what_it_covers(index: PropertyIndex, nodes: Map<u64, Node>, k: u64)
    requires
        index.tells(nodes),
        nodes.contains_key(k),
    ensures
        ({
            let own = nodes[k].properties@;
            let value = own[index.key.0];
            let covered = nodes[k].label == index.label && own.contains_key(index.key.0) && (value is Text
                || value is Int || value is Bool);
            &&& index.members@.contains_key(k) <==> covered
            &&& covered ==> index.members@[k]@ == value
        }),
{
}

} // verus!

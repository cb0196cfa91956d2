//! Which nodes and edges live in which namespace.

use super::scan::{as_edges, as_nodes, names_edges, names_nodes, select};
use super::storage::CurrentStorage;
use crate::error::Error;
use crate::graph::{Edge, Node};
use crate::historical::changes::{namespace_in, namespace_of, Namespace, NamespaceView};
use crate::ids::{EdgeId, InternedString, NodeId};
use crate::maps::{keys_of, lists_keys};
use crate::property::{Properties, PropertyMap, ValueView};
use crate::text::{
    in_order, law_byte_order_is_total, law_byte_order_is_transitive, texts_in_order,
};
use vstd::prelude::*;
use vstd::utf8::encode_utf8;

verus! {

broadcast use vstd::std_specs::hash::group_hash_axioms;

impl Namespace {
    /// Whether this is the same namespace.
    pub fn is_same(&self, other: &Namespace) -> (r: bool)
        ensures
            r == (self@ == other@),
    {
        match (self, other) {
            (Namespace::Default, Namespace::Default) => true,
            (Namespace::Named(a), Namespace::Named(b)) => *a == *b,
            (Namespace::Unresolved, Namespace::Unresolved) => true,
            _ => false,
        }
    }
}

/// The first namespace comes no later than the second one: the default comes first, then those with
/// names in the order of the alphabet, and what could not be read comes last.
pub open spec fn namespace_in_order(a: NamespaceView, b: NamespaceView) -> bool {
    match (a, b) {
        (NamespaceView::Default, _) => true,
        (NamespaceView::Named(x), NamespaceView::Named(y)) => in_order(x, y),
        (NamespaceView::Named(_), NamespaceView::Unresolved) => true,
        (NamespaceView::Unresolved, NamespaceView::Unresolved) => true,
        _ => false,
    }
}

/// The namespaces are listed in order.
pub open spec fn namespaces_in_order(list: Seq<NamespaceView>) -> bool {
    forall|i: int, j: int|
        0 <= i <= j < list.len() ==> namespace_in_order(#[trigger] list[i], #[trigger] list[j])
}

proof fn lemma_namespace_order(a: NamespaceView, b: NamespaceView, c: NamespaceView)
    ensures
        namespace_in_order(a, b) || namespace_in_order(b, a),
        namespace_in_order(a, b) && namespace_in_order(b, c) ==> namespace_in_order(a, c),
{
    match (a, b) {
        (NamespaceView::Named(x), NamespaceView::Named(y)) => {
            law_byte_order_is_total(encode_utf8(x), encode_utf8(y));
            if let NamespaceView::Named(z) = c {
                if in_order(x, y) && in_order(y, z) {
                    law_byte_order_is_transitive(encode_utf8(x), encode_utf8(y), encode_utf8(z));
                }
            }
        },
        _ => {},
    }
}

impl Namespace {
    /// Whether this namespace comes no later than another.
    pub fn comes_within(&self, other: &Namespace) -> (r: bool)
        ensures
            r == namespace_in_order(self@, other@),
    {
        match (self, other) {
            (Namespace::Default, _) => true,
            (Namespace::Named(a), Namespace::Named(b)) => texts_in_order(a.as_str(), b.as_str()),
            (Namespace::Named(_), Namespace::Unresolved) => true,
            (Namespace::Unresolved, Namespace::Unresolved) => true,
            _ => false,
        }
    }
}

/// A namespace whose name is interned.
#[derive(Clone, Copy, Debug, PartialEq, Eq, Structural)]
pub enum NamespaceId {
    /// See [`Namespace::Default`].
    Default,
    /// See [`Namespace::Named`].
    Named(InternedString),
    /// See [`Namespace::Unresolved`].
    Unresolved,
}

/// The namespaces as text.
pub open spec fn namespace_views(list: Seq<Namespace>) -> Seq<NamespaceView> {
    Seq::new(list.len(), |i: int| list[i]@)
}

impl CurrentStorage {
    /// The node is there and lives in the namespace.
    pub open spec fn node_lives_in(self, k: u64, namespace: NamespaceView) -> bool {
        &&& self.nodes().contains_key(k)
        &&& namespace_in(self.nodes()[k].properties@) == namespace
    }

    /// The edge is there and lives in the namespace.
    pub open spec fn edge_lives_in(self, k: u64, namespace: NamespaceView) -> bool {
        &&& self.edges().contains_key(k)
        &&& namespace_in(self.edges()[k].properties@) == namespace
    }

    /// The numbers of the nodes that live in a namespace.
    pub open spec fn nodes_in(self, namespace: NamespaceView) -> Set<u64> {
        Set::new(|k: u64| self.node_lives_in(k, namespace))
    }

    /// The numbers of the nodes that live in a namespace, each once.
    fn select_nodes(&self, namespace: &Namespace) -> (r: Vec<u64>)
        ensures
            r@.no_duplicates(),
            forall|k: u64| #[trigger] r@.contains(k) <==> self.node_lives_in(k, namespace@),
    {
        let test = |node: &Node| -> (b: bool)
            ensures
                b == (namespace_in(node.properties@) == namespace@),
            { namespace_of(&node.properties).is_same(namespace) };
        let keys = select(&self.indexes.nodes, test);
        assert forall|k: u64| #[trigger] keys@.contains(k) <==> self.node_lives_in(
            k,
            namespace@,
        ) by {
            if self.nodes().contains_key(k) && !keys@.contains(k) {
                assert(call_ensures(test, (&self.nodes()[k],), false));
            }
        }
        keys
    }

    /// The nodes that live in a namespace, each once, in no particular order.
    pub fn namespace_node_ids(&self, namespace: &Namespace) -> (r: Vec<NodeId>)
        ensures
            names_nodes(r@, |k: u64| self.node_lives_in(k, namespace@)),
    {
        let keys = self.select_nodes(namespace);
        let r = as_nodes(&keys);
        assert forall|k: u64| #[trigger] r@.contains(NodeId(k)) <==> self.node_lives_in(
            k,
            namespace@,
        ) by {
            assert(keys@.contains(k) <==> r@.contains(NodeId(k)));
        }
        r
    }

    /// The numbers of the edges that live in a namespace.
    pub open spec fn edges_in(self, namespace: NamespaceView) -> Set<u64> {
        Set::new(|k: u64| self.edge_lives_in(k, namespace))
    }

    /// The numbers of the edges that live in a namespace, each once.
    fn select_edges(&self, namespace: &Namespace) -> (r: Vec<u64>)
        ensures
            r@.no_duplicates(),
            forall|k: u64| #[trigger] r@.contains(k) <==> self.edge_lives_in(k, namespace@),
    {
        let test = |edge: &Edge| -> (b: bool)
            ensures
                b == (namespace_in(edge.properties@) == namespace@),
            { namespace_of(&edge.properties).is_same(namespace) };
        let keys = select(&self.indexes.edges, test);
        assert forall|k: u64| #[trigger] keys@.contains(k) <==> self.edge_lives_in(
            k,
            namespace@,
        ) by {
            if self.edges().contains_key(k) && !keys@.contains(k) {
                assert(call_ensures(test, (&self.edges()[k],), false));
            }
        }
        keys
    }

    /// The edges that live in a namespace, each once, in no particular order.
    pub fn namespace_edge_ids(&self, namespace: &Namespace) -> (r: Vec<EdgeId>)
        ensures
            names_edges(r@, |k: u64| self.edge_lives_in(k, namespace@)),
    {
        let keys = self.select_edges(namespace);
        let r = as_edges(&keys);
        assert forall|k: u64| #[trigger] r@.contains(EdgeId(k)) <==> self.edge_lives_in(
            k,
            namespace@,
        ) by {
            assert(keys@.contains(k) <==> r@.contains(EdgeId(k)));
        }
        r
    }

    /// Whether a node lives in a namespace.
    pub fn node_in_namespace(&self, node_id: NodeId, namespace: &Namespace) -> (r: bool)
        ensures
            r == self.node_lives_in(node_id.0, namespace@),
    {
        match self.indexes.nodes.get(&node_id.0) {
            Some(node) => namespace_of(&node.properties).is_same(namespace),
            None => false,
        }
    }

    /// Whether an edge lives in a namespace.
    pub fn edge_in_namespace(&self, edge_id: EdgeId, namespace: &Namespace) -> (r: bool)
        ensures
            r == self.edge_lives_in(edge_id.0, namespace@),
    {
        match self.indexes.edges.get(&edge_id.0) {
            Some(edge) => namespace_of(&edge.properties).is_same(namespace),
            None => false,
        }
    }

    /// The namespace with an interned name, unless no string has that number.
    pub open spec fn namespace_behind(self, ns_id: NamespaceId) -> Option<NamespaceView> {
        match ns_id {
            NamespaceId::Default => Some(NamespaceView::Default),
            NamespaceId::Named(name) => if name.0 < self.interner.strings@.len() {
                Some(NamespaceView::Named(self.interner.strings@[name.0 as int]@))
            } else {
                None
            },
            NamespaceId::Unresolved => Some(NamespaceView::Unresolved),
        }
    }

    /// Interns the name of a namespace, if there is room for it.
    pub fn intern_namespace(&mut self, namespace: &Namespace) -> (r: Result<NamespaceId, Error>)
        requires
            old(self).well_formed(),
        ensures
            final(self).well_formed(),
            *final(self) == (CurrentStorage { interner: final(self).interner, ..*old(self) }),
            match namespace@ {
                NamespaceView::Named(name) => {
                    &&& old(self).interner.after_intern(name, final(self).interner)
                    &&& r is Err <==> old(self).interner.id_of(name) is None
                        && old(self).interner.strings@.len() >= old(self).interner.limit
                    &&& r is Err ==> r->Err_0@ == old(self).no_more_strings()
                },
                _ => r is Ok && final(self).interner == old(self).interner,
            },
            r is Ok ==> final(self).namespace_behind(r->Ok_0) == Some(namespace@),
    {
        match namespace {
            Namespace::Default => Ok(NamespaceId::Default),
            Namespace::Unresolved => Ok(NamespaceId::Unresolved),
            Namespace::Named(name) => match self.intern(name.as_str()) {
                Ok(id) => {
                    proof {
                        let texts = self.interner.texts();
                        assert(texts.contains(name@));
                        let at = texts.index_of(name@);
                        assert(texts[at] == name@);
                        assert(at <= u32::MAX);
                        assert(self.interner.strings@[at]@ == name@);
                    }
                    Ok(NamespaceId::Named(id))
                },
                Err(error) => Err(error),
            },
        }
    }

    /// Whether properties place an entity in the namespace with an interned name.
    fn placed_in(&self, properties: &PropertyMap, ns_id: NamespaceId) -> (r: bool)
        ensures
            r == (self.namespace_behind(ns_id) == Some(namespace_in(properties@))),
    {
        match (namespace_of(properties), ns_id) {
            (Namespace::Default, NamespaceId::Default) => true,
            (Namespace::Unresolved, NamespaceId::Unresolved) => true,
            (Namespace::Named(name), NamespaceId::Named(id)) => match self.interner.resolve(id) {
                Some(text) => *text == name,
                None => false,
            },
            _ => false,
        }
    }

    /// Whether a node lives in the namespace with an interned name.
    pub fn node_in_namespace_id(&self, node_id: NodeId, ns_id: NamespaceId) -> (r: bool)
        ensures
            r == (self.namespace_behind(ns_id) matches Some(namespace) && self.node_lives_in(
                node_id.0,
                namespace,
            )),
    {
        match self.indexes.nodes.get(&node_id.0) {
            Some(node) => self.placed_in(&node.properties, ns_id),
            None => false,
        }
    }

    /// Whether an edge lives in the namespace with an interned name.
    pub fn edge_in_namespace_id(&self, edge_id: EdgeId, ns_id: NamespaceId) -> (r: bool)
        ensures
            r == (self.namespace_behind(ns_id) matches Some(namespace) && self.edge_lives_in(
                edge_id.0,
                namespace,
            )),
    {
        match self.indexes.edges.get(&edge_id.0) {
            Some(edge) => self.placed_in(&edge.properties, ns_id),
            None => false,
        }
    }

    /// How many nodes live in a namespace.
    pub fn namespace_node_count(&self, namespace: &Namespace) -> (r: usize)
        ensures
            r == self.nodes_in(namespace@).len(),
    {
        let keys = self.select_nodes(namespace);
        proof {
            assert(self.nodes_in(namespace@) =~= keys@.to_set());
            keys@.unique_seq_to_set();
        }
        keys.len()
    }

    /// How many edges live in a namespace.
    pub fn namespace_edge_count(&self, namespace: &Namespace) -> (r: usize)
        ensures
            r == self.edges_in(namespace@).len(),
    {
        let keys = self.select_edges(namespace);
        proof {
            assert(self.edges_in(namespace@) =~= keys@.to_set());
            keys@.unique_seq_to_set();
        }
        keys.len()
    }

    /// The namespaces in which anything lives, each once, in order.
    pub fn populated_namespaces(&self) -> (r: Vec<Namespace>)
        ensures
            namespace_views(r@).no_duplicates(),
            namespaces_in_order(namespace_views(r@)),
            forall|ns: NamespaceView| #[trigger]
                namespace_views(r@).contains(ns) <==> (exists|k: u64| #[trigger]
                    self.node_lives_in(k, ns)) || (exists|k: u64| #[trigger]
                    self.edge_lives_in(k, ns)),
    {
        let mut out: Vec<Namespace> = Vec::new();
        let nodes = keys_of(&self.indexes.nodes);
        let edges = keys_of(&self.indexes.edges);
        let mut i: usize = 0;
        while i < nodes.len()
            invariant
                i <= nodes.len(),
                lists_keys(nodes@, self.nodes()),
                namespace_views(out@).no_duplicates(),
                namespaces_in_order(namespace_views(out@)),
                forall|ns: NamespaceView| #[trigger]
                    namespace_views(out@).contains(ns) ==> exists|k: u64| #[trigger]
                        self.node_lives_in(k, ns),
                forall|j: int|
                    0 <= j < i ==> namespace_views(out@).contains(
                        namespace_in(self.nodes()[#[trigger] nodes@[j]].properties@),
                    ),
            decreases nodes.len() - i,
        {
            let k: u64 = nodes[i];
            let ghost before = out@;
            assert(self.nodes().contains_key(k));
            if let Some(node) = self.indexes.nodes.get(&k) {
                let namespace = namespace_of(&node.properties);
                assert(self.node_lives_in(k, namespace@));
                note_namespace(&mut out, namespace);
            }
            i = i + 1;
        }
        let ghost from_nodes = out@;
        let mut j: usize = 0;
        while j < edges.len()
            invariant
                j <= edges.len(),
                lists_keys(edges@, self.edges()),
                namespace_views(out@).no_duplicates(),
                namespaces_in_order(namespace_views(out@)),
                forall|ns: NamespaceView| #[trigger]
                    namespace_views(out@).contains(ns) ==> (exists|k: u64| #[trigger]
                        self.node_lives_in(k, ns)) || (exists|k: u64| #[trigger]
                        self.edge_lives_in(k, ns)),
                forall|ns: NamespaceView|
                    namespace_views(from_nodes).contains(ns) ==> #[trigger] namespace_views(
                        out@,
                    ).contains(ns),
                forall|x: int|
                    0 <= x < j ==> namespace_views(out@).contains(
                        namespace_in(self.edges()[#[trigger] edges@[x]].properties@),
                    ),
            decreases edges.len() - j,
        {
            let k: u64 = edges[j];
            assert(self.edges().contains_key(k));
            if let Some(edge) = self.indexes.edges.get(&k) {
                let namespace = namespace_of(&edge.properties);
                assert(self.edge_lives_in(k, namespace@));
                note_namespace(&mut out, namespace);
            }
            j = j + 1;
        }
        proof {
            assert forall|ns: NamespaceView| #[trigger] namespace_views(out@).contains(ns) <==> (
            exists|k: u64| #[trigger] self.node_lives_in(k, ns)) || (exists|k: u64| #[trigger]
                self.edge_lives_in(k, ns)) by {
                if exists|k: u64| #[trigger] self.node_lives_in(k, ns) {
                    let k = choose|k: u64| #[trigger] self.node_lives_in(k, ns);
                    assert(nodes@.contains(k));
                    let x = choose|x: int| 0 <= x < nodes@.len() && nodes@[x] == k;
                    assert(namespace_views(from_nodes).contains(
                        namespace_in(self.nodes()[nodes@[x]].properties@),
                    ));
                }
                if exists|k: u64| #[trigger] self.edge_lives_in(k, ns) {
                    let k = choose|k: u64| #[trigger] self.edge_lives_in(k, ns);
                    assert(edges@.contains(k));
                    let x = choose|x: int| 0 <= x < edges@.len() && edges@[x] == k;
                    assert(namespace_views(out@).contains(
                        namespace_in(self.edges()[edges@[x]].properties@),
                    ));
                }
            }
        }
        out
    }
}

/// Adds a namespace to a list that does not hold it yet, where it belongs.
fn note_namespace(list: &mut Vec<Namespace>, namespace: Namespace)
    requires
        namespace_views(old(list)@).no_duplicates(),
        namespaces_in_order(namespace_views(old(list)@)),
    ensures
        namespace_views(final(list)@).no_duplicates(),
        namespaces_in_order(namespace_views(final(list)@)),
        forall|ns: NamespaceView| #[trigger]
            namespace_views(final(list)@).contains(ns) <==> ns == namespace@ || namespace_views(
                old(list)@,
            ).contains(ns),
{
    let ghost before = namespace_views(list@);
    let ghost view = namespace@;
    let mut i: usize = 0;
    while i < list.len() && list[i].comes_within(&namespace)
        invariant
            i <= list.len(),
            view == namespace@,
            before == namespace_views(list@),
            before == namespace_views(old(list)@),
            before.no_duplicates(),
            namespaces_in_order(before),
            forall|j: int| 0 <= j < i ==> (#[trigger] before[j]) != view,
            forall|j: int| 0 <= j < i ==> namespace_in_order(#[trigger] before[j], view),
        decreases list.len() - i,
    {
        assert(before[i as int] == list@[i as int]@);
        if list[i].is_same(&namespace) {
            assert(before.contains(view));
            return;
        }
        i = i + 1;
    }
    proof {
        if i < list@.len() {
            assert(before[i as int] == list@[i as int]@);
            lemma_namespace_order(before[i as int], view, view);
        }
        assert forall|j: int| i <= j < before.len() implies namespace_in_order(
            view,
            #[trigger] before[j],
        ) && before[j] != view by {
            assert(namespace_in_order(before[i as int], before[j]));
            lemma_namespace_order(view, before[i as int], before[j]);
        }
    }
    list.insert(i, namespace);
    proof {
        let after = namespace_views(list@);
        assert(after =~= before.insert(i as int, view));
        assert forall|x: int, y: int| 0 <= x < after.len() && 0 <= y < after.len() && x
            != y implies after[x] != after[y] by {
            let u = if x < i {
                x
            } else {
                x - 1
            };
            let w = if y < i {
                y
            } else {
                y - 1
            };
            if x != i && y != i {
                assert(before[u] != before[w]);
            }
        }
        lemma_namespace_order(view, view, view);
        assert forall|x: int, y: int| 0 <= x <= y < after.len() implies namespace_in_order(
            #[trigger] after[x],
            #[trigger] after[y],
        ) by {
            let u = if x < i {
                x
            } else {
                x - 1
            };
            let w = if y < i {
                y
            } else {
                y - 1
            };
            if x != i && y != i {
                assert(namespace_in_order(before[u], before[w]));
            }
        }
        assert forall|ns: NamespaceView| #[trigger] after.contains(ns) <==> ns == view
            || before.contains(ns) by {
            if before.contains(ns) {
                let j = choose|j: int| 0 <= j < before.len() && before[j] == ns;
                if j < i {
                    assert(after[j] == ns);
                } else {
                    assert(after[j + 1] == ns);
                }
            }
            if ns == view {
                assert(after[i as int] == ns);
            }
            if after.contains(ns) && ns != view {
                let j = choose|j: int| 0 <= j < after.len() && after[j] == ns;
                if j < i {
                    assert(before[j] == ns);
                } else {
                    assert(before[j - 1] == ns);
                }
            }
        }
    }
}

/// A node lives in one namespace only.
pub proof fn law_one_namespace(storage: CurrentStorage, k: u64, a: NamespaceView, b: NamespaceView)
    ensures
        storage.node_lives_in(k, a) && storage.node_lives_in(k, b) ==> a == b,
        storage.edge_lives_in(k, a) && storage.edge_lives_in(k, b) ==> a == b,
{
}

/// A node lives in the namespace that its properties name as a text, and in the default namespace
/// exactly if they name none so; an edge likewise. Nothing lives where a namespace could not be
/// read.
pub proof fn law_lives_where_it_says(storage: CurrentStorage, k: u64, name: Seq<char>)
    ensures
        ({
            let key = crate::historical::changes::NAMESPACE_KEY;
            let says = |p: Properties| p.contains_key(key) && p[key] == ValueView::Text(name);
            let silent = |p: Properties| !p.contains_key(key) || !(p[key] is Text);
            let node = storage.nodes()[k].properties@;
            let edge = storage.edges()[k].properties@;
            &&& storage.node_lives_in(k, NamespaceView::Named(name)) <==> storage.nodes().contains_key(k)
                && says(node)
            &&& storage.node_lives_in(k, NamespaceView::Default) <==> storage.nodes().contains_key(k)
                && silent(node)
            &&& storage.edge_lives_in(k, NamespaceView::Named(name)) <==> storage.edges().contains_key(k)
                && says(edge)
            &&& storage.edge_lives_in(k, NamespaceView::Default) <==> storage.edges().contains_key(k)
                && silent(edge)
            &&& !storage.node_lives_in(k, NamespaceView::Unresolved)
            &&& !storage.edge_lives_in(k, NamespaceView::Unresolved)
        }),
{
}

/// The default namespace comes first, then those with names, by the first byte in which their names
/// differ, a name before those that it is the beginning of; what could not be read comes last.
pub proof fn law_order_of_namespaces(a: Seq<char>, b: Seq<char>, at: int)
    requires
        0 <= at <= encode_utf8(a).len(),
        at <= encode_utf8(b).len(),
        forall|i: int| 0 <= i < at ==> #[trigger] encode_utf8(a)[i] == encode_utf8(b)[i],
        at < encode_utf8(a).len() && at < encode_utf8(b).len() ==> encode_utf8(a)[at]
            != encode_utf8(b)[at],
    ensures
        namespace_in_order(NamespaceView::Named(a), NamespaceView::Named(b)) <==> at
            == encode_utf8(a).len() || (at < encode_utf8(b).len() && encode_utf8(a)[at]
            < encode_utf8(b)[at]),
        namespace_in_order(NamespaceView::Default, NamespaceView::Named(a)),
        !namespace_in_order(NamespaceView::Named(a), NamespaceView::Default),
        namespace_in_order(NamespaceView::Named(a), NamespaceView::Unresolved),
        !namespace_in_order(NamespaceView::Unresolved, NamespaceView::Named(a)),
        namespace_in_order(NamespaceView::Default, NamespaceView::Unresolved),
        !namespace_in_order(NamespaceView::Unresolved, NamespaceView::Default),
{
    crate::text::law_first_difference_decides(encode_utf8(a), encode_utf8(b), at);
}

/// What lives in a namespace is counted there: the nodes that live in it, and the edges, and
/// nothing else. A namespace with an interned name is the one of that name.
pub proof fn law_counted_where_it_lives(storage: CurrentStorage, k: u64, namespace: NamespaceView, i: u32)
    ensures
        storage.nodes_in(namespace).contains(k) <==> storage.nodes().contains_key(k) && namespace_in(
            storage.nodes()[k].properties@,
        ) == namespace,
        storage.edges_in(namespace).contains(k) <==> storage.edges().contains_key(k) && namespace_in(
            storage.edges()[k].properties@,
        ) == namespace,
        storage.namespace_behind(NamespaceId::Default) == Some(NamespaceView::Default),
        storage.namespace_behind(NamespaceId::Unresolved) == Some(NamespaceView::Unresolved),
        storage.namespace_behind(NamespaceId::Named(InternedString(i))) == (if i
            < storage.interner.strings@.len() {
            Some(NamespaceView::Named(storage.interner.strings@[i as int]@))
        } else {
            None
        }),
{
}

} // verus!

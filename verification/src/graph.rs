//! Nodes and edges in one state.

use crate::ids::{EdgeId, InternedString, NodeId, VersionId};
use crate::property::PropertyMap;
use crate::temporal::Timestamp;
use vstd::prelude::*;

verus! {

/// What is known of a state besides what it holds.
#[derive(Clone, Copy, Debug, PartialEq, Eq, Structural)]
pub struct Metadata {
    /// When the state was committed; `None` while that is pending.
    pub commit_timestamp: Option<Timestamp>,
}

/// A node.
#[derive(Debug)]
pub struct Node {
    /// Its identifier.
    pub id: NodeId,
    /// Its label.
    pub label: InternedString,
    /// Its properties.
    pub properties: PropertyMap,
    /// The version that this state is.
    pub current_version: VersionId,
    /// What else is known of it.
    pub metadata: Metadata,
}

/// An edge.
#[derive(Debug)]
pub struct Edge {
    /// Its identifier.
    pub id: EdgeId,
    /// Its type.
    pub label: InternedString,
    /// Where it starts.
    pub source: NodeId,
    /// Where it ends.
    pub target: NodeId,
    /// Its properties.
    pub properties: PropertyMap,
    /// The version that this state is.
    pub current_version: VersionId,
    /// What else is known of it.
    pub metadata: Metadata,
}

impl Node {
    /// The two nodes hold the same.
    pub open spec fn same(self, other: Node) -> bool {
        &&& self.id == other.id
        &&& self.label == other.label
        &&& self.properties@ == other.properties@
        &&& self.current_version == other.current_version
        &&& self.metadata == other.metadata
    }

    /// A node with the given parts, not yet committed.
    pub fn new(
        id: NodeId,
        label: InternedString,
        properties: PropertyMap,
        current_version: VersionId,
    ) -> (r: Node)
        ensures
            r == (Node {
                id,
                label,
                properties,
                current_version,
                metadata: Metadata { commit_timestamp: None },
            }),
    {
        Node {
            id,
            label,
            properties,
            current_version,
            metadata: Metadata { commit_timestamp: None },
        }
    }

    /// A copy of the node.
    pub fn copied(&self) -> (r: Node)
        ensures
            r.same(*self),
    {
        Node {
            id: self.id,
            label: self.label,
            properties: self.properties.copied(),
            current_version: self.current_version,
            metadata: self.metadata,
        }
    }
}

impl Edge {
    /// The two edges hold the same.
    pub open spec fn same(self, other: Edge) -> bool {
        &&& self.id == other.id
        &&& self.label == other.label
        &&& self.source == other.source
        &&& self.target == other.target
        &&& self.properties@ == other.properties@
        &&& self.current_version == other.current_version
        &&& self.metadata == other.metadata
    }

    /// An edge with the given parts, not yet committed.
    pub fn new(
        id: EdgeId,
        label: InternedString,
        source: NodeId,
        target: NodeId,
        properties: PropertyMap,
        current_version: VersionId,
    ) -> (r: Edge)
        ensures
            r == (Edge {
                id,
                label,
                source,
                target,
                properties,
                current_version,
                metadata: Metadata { commit_timestamp: None },
            }),
    {
        Edge {
            id,
            label,
            source,
            target,
            properties,
            current_version,
            metadata: Metadata { commit_timestamp: None },
        }
    }

    /// A copy of the edge.
    pub fn copied(&self) -> (r: Edge)
        ensures
            r.same(*self),
    {
        Edge {
            id: self.id,
            label: self.label,
            source: self.source,
            target: self.target,
            properties: self.properties.copied(),
            current_version: self.current_version,
            metadata: self.metadata,
        }
    }
}

/// A node that holds the same as another bears its number, its label, its properties and its
/// version; and what holds the same as that holds the same as the first.
pub proof fn law_same_node_holds_everything(a: Node, b: Node, c: Node)
    requires
        a.same(b),
    ensures
        a.id == b.id && a.label == b.label && a.current_version == b.current_version,
        a.properties@.dom() == b.properties@.dom(),
        forall|key: u32| #[trigger]
            b.properties@.contains_key(key) ==> a.properties@[key] == b.properties@[key],
        a.metadata.commit_timestamp == b.metadata.commit_timestamp,
        b.same(a),
        b.same(c) ==> a.same(c),
{
}

/// An edge that holds the same as another bears its number, its label, its ends, its properties and
/// its version; and what holds the same as that holds the same as the first.
pub proof fn law_same_edge_holds_everything(a: Edge, b: Edge, c: Edge)
    requires
        a.same(b),
    ensures
        a.id == b.id && a.label == b.label && a.source == b.source && a.target == b.target,
        a.current_version == b.current_version,
        a.properties@.dom() == b.properties@.dom(),
        forall|key: u32| #[trigger]
            b.properties@.contains_key(key) ==> a.properties@[key] == b.properties@[key],
        a.metadata.commit_timestamp == b.metadata.commit_timestamp,
        b.same(a),
        b.same(c) ==> a.same(c),
{
}

} // verus!

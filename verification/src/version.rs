//! Versions of nodes and edges.

use crate::ids::{InternedString, NodeId};
use crate::property::{PropertyDelta, PropertyMap};
use crate::temporal::BiTemporalInterval;
use std::sync::Arc;
use vstd::prelude::*;

verus! {

/// Who wrote a version, and from what.
#[derive(Debug, PartialEq, Eq)]
pub struct Provenance {
    /// The acting principal.
    pub principal: String,
    /// Where the fact came from.
    pub source: String,
}

/// The kind of a versioned entity.
#[derive(Clone, Copy, Debug, PartialEq, Eq, Structural)]
pub enum EntityKind {
    /// A node.
    Node,
    /// An edge.
    Edge,
}

impl EntityKind {
    /// The word for the kind.
    pub open spec fn spec_word(self) -> Seq<char> {
        match self {
            EntityKind::Node => "node"@,
            EntityKind::Edge => "edge"@,
        }
    }

    /// The word for the kind.
    pub fn word(&self) -> (r: &'static str)
        ensures
            r@ == self.spec_word(),
    {
        match self {
            EntityKind::Node => "node",
            EntityKind::Edge => "edge",
        }
    }
}

/// What a version stores: all properties, or what changed since the version before it.
#[derive(Debug)]
pub enum VersionData {
    /// All properties.
    Anchor {
        /// The properties.
        properties: PropertyMap,
        /// The vector snapshot that was taken with the anchor, if any.
        vector_snapshot_id: Option<u64>,
    },
    /// What changed since the previous version.
    Delta {
        /// The change.
        delta: PropertyDelta,
    },
}

/// The ends of an edge.
#[derive(Clone, Copy, Debug, PartialEq, Eq, Structural)]
pub struct EdgeEnds {
    /// Where the edge starts.
    pub source: NodeId,
    /// Where the edge ends.
    pub target: NodeId,
}

/// One version of an entity. `E` is what a version holds beyond what every kind of entity has:
/// nothing for a node, its ends for an edge.
#[derive(Debug)]
pub struct EntityVersion<E> {
    /// The version's identifier.
    pub id: u64,
    /// The entity's identifier.
    pub entity: u64,
    /// When the version holds and is known.
    pub temporal: BiTemporalInterval,
    /// The entity's label or type.
    pub label: InternedString,
    /// What is particular to the kind of entity.
    pub ends: E,
    /// The stored properties.
    pub data: Arc<VersionData>,
    /// The version that this one supersedes.
    pub prev_version: Option<u64>,
    /// The version that supersedes this one.
    pub next_version: Option<u64>,
    /// Who wrote the version.
    pub provenance: Option<Arc<Provenance>>,
}

/// A version of a node.
pub type NodeVersion = EntityVersion<()>;

/// A version of an edge.
pub type EdgeVersion = EntityVersion<EdgeEnds>;

impl<E> EntityVersion<E> {
    /// The version stores all properties.
    pub open spec fn anchored(self) -> bool {
        *self.data is Anchor
    }

    /// Whether the version stores all properties.
    pub fn is_anchor(&self) -> (r: bool)
        ensures
            r == self.anchored(),
    {
        match &*self.data {
            VersionData::Anchor { .. } => true,
            VersionData::Delta { .. } => false,
        }
    }
}

impl<E: Copy> EntityVersion<E> {
    /// A copy of the version, which shares its stored properties.
    pub fn copied(&self) -> (r: EntityVersion<E>)
        ensures
            r == *self,
    {
        EntityVersion {
            id: self.id,
            entity: self.entity,
            temporal: self.temporal,
            label: self.label,
            ends: self.ends,
            data: self.data.clone(),
            prev_version: self.prev_version,
            next_version: self.next_version,
            provenance: match &self.provenance {
                Some(p) => Some(p.clone()),
                None => None,
            },
        }
    }
}

/// A version that stores all properties stores them itself; one that does not stores what changed.
pub proof fn law_anchor_or_delta<E>(version: EntityVersion<E>)
    ensures
        version.anchored() <==> (*version.data matches VersionData::Anchor { .. }),
        !version.anchored() <==> (*version.data matches VersionData::Delta { .. }),
        EntityKind::Node.spec_word() != EntityKind::Edge.spec_word(),
{
    reveal_strlit("node");
    reveal_strlit("edge");
    assert("node"@[0] != "edge"@[0]);
}

} // verus!

//! What holds of the current state of the graph as a whole.

use super::entries::edge_ids;
use super::storage::{no_moment, CurrentStorage};
use super::vector_admin::DEFAULT_MAX_VECTOR_PROPERTIES;
use super::vector_registry::{all_changed, changes_of, vector_at};
use super::vectors::{changed, possible, Change, HnswConfig, StoreView};
use crate::error::Error;
use crate::graph::Node;
use crate::ids::{EdgeId, NodeId};
use crate::property::{vectors_equal, PropertyMap};
use crate::temporal::Timestamp;
use vstd::prelude::*;

verus! {

/// A node that was stored is read back as it was stored.
pub proof fn law_stored_node_reads_back(
    before: CurrentStorage,
    after: CurrentStorage,
    node: Node,
    earlier: Option<&PropertyMap>,
    timestamp: Timestamp,
    r: Result<(), Error>,
)
    requires
        before.stored(after, node, earlier, timestamp, r),
        r is Ok,
    ensures
        after.nodes().contains_key(node.id.0),
        after.nodes()[node.id.0] == node,
        forall|k: u64|
            k != node.id.0 ==> (#[trigger] after.nodes().contains_key(k)
                == before.nodes().contains_key(k)) && after.nodes()[k] == before.nodes()[k],
{
}

/// A node whose vector does not fit is not stored: nodes and edges stay as they were.
pub proof fn law_refused_node_changes_nothing(
    before: CurrentStorage,
    after: CurrentStorage,
    node: Node,
    earlier: Option<&PropertyMap>,
    timestamp: Timestamp,
    r: Result<(), Error>,
)
    requires
        before.stored(after, node, earlier, timestamp, r),
        r is Err,
    ensures
        after.nodes() == before.nodes(),
        after.edges() == before.edges(),
{
}

/// The vector indexes hold what the nodes hold: for every indexed property, the vector of each node
/// that has one of the right length, and nothing else.
pub open spec fn vectors_agree(
    storage: CurrentStorage,
    state: Map<Seq<char>, StoreView>,
    name: Seq<char>,
) -> bool {
    forall|k: u64| #[trigger]
        state[name].vectors.contains_key(k) <==> storage.nodes().contains_key(k) && vector_at(
            storage.interner,
            storage.nodes()[k].properties@,
            name,
        ) is Some
}

/// Storing a node keeps the indexes in step with the nodes: a vector that the node has is indexed,
/// and one that it no longer has is not.
pub proof fn law_storing_keeps_vectors_in_step(
    before: CurrentStorage,
    after: CurrentStorage,
    node: Node,
    timestamp: Timestamp,
    r: Result<(), Error>,
    name: Seq<char>,
)
    requires
        before.stored(
            after,
            node,
            if before.nodes().contains_key(node.id.0) {
                Some(&before.nodes()[node.id.0].properties)
            } else {
                None
            },
            timestamp,
            r,
        ),
        r is Ok,
        before.vector_indexes.state().contains_key(name),
        vectors_agree(before, before.vector_indexes.state(), name),
    ensures
        vectors_agree(after, after.vector_indexes.state(), name),
        vector_at(after.interner, node.properties@, name) is Some && !(
        before.nodes().contains_key(node.id.0) && vector_at(
            before.interner,
            before.nodes()[node.id.0].properties@,
            name,
        ) is Some && vectors_equal(
            vector_at(before.interner, before.nodes()[node.id.0].properties@, name)->Some_0,
            vector_at(after.interner, node.properties@, name)->Some_0,
        )) ==> after.vector_indexes.state()[name].vectors[node.id.0] == vector_at(
            after.interner,
            node.properties@,
            name,
        )->Some_0,
{
    let earlier = if before.nodes().contains_key(node.id.0) {
        Some(&before.nodes()[node.id.0].properties)
    } else {
        None
    };
    let changes = changes_of(before.interner, earlier, node.properties);
    let old_state = before.vector_indexes.state()[name];
    let new_state = after.vector_indexes.state()[name];
    assert(possible(old_state, changes(name)) && new_state == changed(
        old_state,
        node.id.0,
        changes(name),
        no_moment(),
        false,
    ));
    assert forall|k: u64| #[trigger] new_state.vectors.contains_key(k)
        <==> after.nodes().contains_key(k) && vector_at(
        after.interner,
        after.nodes()[k].properties@,
        name,
    ) is Some by {
        assert(old_state.vectors.contains_key(k) <==> before.nodes().contains_key(k) && vector_at(
            before.interner,
            before.nodes()[k].properties@,
            name,
        ) is Some);
    }
}

/// Deleting a node takes its vectors out of every index.
pub proof fn law_deleted_node_is_not_indexed(
    before: CurrentStorage,
    after: CurrentStorage,
    id: NodeId,
    name: Seq<char>,
)
    requires
        all_changed(
            before.vector_indexes.state(),
            after.vector_indexes.state(),
            id.0,
            |n: Seq<char>| Change::Drop,
            no_moment(),
            false,
        ),
        before.vector_indexes.state().contains_key(name),
    ensures
        !after.vector_indexes.state()[name].vectors.contains_key(id.0),
{
}

/// An edge is listed where it starts and where it ends, once each, as long as it is there, also
/// when a node at its end is gone.
pub proof fn law_edges_are_listed_at_both_ends(storage: CurrentStorage, id: EdgeId)
    requires
        storage.well_formed(),
        storage.edges().contains_key(id.0),
    ensures
        edge_ids(storage.outgoing(storage.edges()[id.0].source)).contains(id),
        edge_ids(storage.incoming(storage.edges()[id.0].target)).contains(id),
{
    storage.lemma_out_edges(storage.edges()[id.0].source);
    storage.lemma_in_edges(storage.edges()[id.0].target);
    assert(EdgeId(id.0) == id);
}

/// An edge that is listed where it starts is listed where it ends, and the other way round.
pub proof fn law_directions_agree(storage: CurrentStorage, a: NodeId, b: NodeId, id: EdgeId)
    requires
        storage.well_formed(),
        storage.edges().contains_key(id.0) ==> storage.edges()[id.0].source == a
            && storage.edges()[id.0].target == b,
    ensures
        edge_ids(storage.outgoing(a)).contains(id) <==> edge_ids(storage.incoming(b)).contains(id),
{
    storage.lemma_out_edges(a);
    storage.lemma_in_edges(b);
    assert(EdgeId(id.0) == id);
}

/// Deleting a node, which keeps edges, changes no list of edges.
pub proof fn law_deleting_nodes_keeps_edges(
    before: CurrentStorage,
    after: CurrentStorage,
    node: NodeId,
    id: EdgeId,
)
    requires
        before.well_formed(),
        after.well_formed(),
        after.edges() == before.edges(),
    ensures
        edge_ids(after.outgoing(node)).contains(id) <==> edge_ids(before.outgoing(node)).contains(
            id,
        ),
        edge_ids(after.incoming(node)).contains(id) <==> edge_ids(before.incoming(node)).contains(
            id,
        ),
{
    before.lemma_out_edges(node);
    after.lemma_out_edges(node);
    before.lemma_in_edges(node);
    after.lemma_in_edges(node);
    assert(EdgeId(id.0) == id);
}

/// A deleted edge is listed nowhere.
pub proof fn law_deleted_edge_is_not_listed(storage: CurrentStorage, id: EdgeId, node: NodeId)
    requires
        storage.well_formed(),
        !storage.edges().contains_key(id.0),
    ensures
        !edge_ids(storage.outgoing(node)).contains(id),
        !edge_ids(storage.incoming(node)).contains(id),
{
    storage.lemma_out_edges(node);
    storage.lemma_in_edges(node);
    assert(EdgeId(id.0) == id);
}

/// Enabling an index never makes more properties indexed than there may be.
pub proof fn law_vector_properties_stay_bounded(
    before: CurrentStorage,
    after: CurrentStorage,
    name: Seq<char>,
    config: HnswConfig,
    r: Result<(), Error>,
)
    requires
        before.enabled(after, name, config, r),
        before.vector_indexes.items().dom().finite(),
        before.vector_indexes.items().len() <= DEFAULT_MAX_VECTOR_PROPERTIES,
    ensures
        after.vector_indexes.items().len() <= DEFAULT_MAX_VECTOR_PROPERTIES,
        r is Ok ==> after.vector_indexes.items().contains_key(name),
        forall|other: Seq<char>| #[trigger]
            before.vector_indexes.items().contains_key(other)
                ==> after.vector_indexes.items().contains_key(other)
                && after.vector_indexes.items()[other] == before.vector_indexes.items()[other],
{
}

/// Storing a node tracks its vectors over time: a vector that it did not have before, or not an
/// equal one, is the one that the tracked property holds afterwards, as of the given moment at the
/// earliest; one that it no longer has is gone. Snapshots that were taken stay as they were.
pub proof fn law_storing_tracks_vectors_over_time(
    before: CurrentStorage,
    after: CurrentStorage,
    node: Node,
    earlier: Option<&PropertyMap>,
    timestamp: Timestamp,
    r: Result<(), Error>,
    name: Seq<char>,
)
    requires
        before.stored(after, node, earlier, timestamp, r),
        r is Ok,
        before.temporal_vector_indexes.state().contains_key(name),
    ensures
        ({
            let was = before.temporal_vector_indexes.state()[name];
            let now = after.temporal_vector_indexes.state()[name];
            let had = match earlier {
                Some(p) => vector_at(before.interner, p@, name),
                None => None,
            };
            let has = vector_at(before.interner, node.properties@, name);
            &&& has is Some && !(had is Some && vectors_equal(had->0, has->0)) ==> {
                &&& now.vectors.contains_key(node.id.0) && now.vectors[node.id.0] == has->0
                &&& timestamp.key() <= now.told.key()
            }
            &&& has is None && had is Some ==> !now.vectors.contains_key(node.id.0) && timestamp.key()
                <= now.told.key()
            &&& has is None && had is None ==> now == was
            &&& was.told.key() <= now.told.key()
            &&& now.snapshots == was.snapshots
        }),
{
    let changes = changes_of(before.interner, earlier, node.properties);
    let was = before.temporal_vector_indexes.state()[name];
    assert(possible(was, changes(name)) && after.temporal_vector_indexes.state()[name] == changed(
        was,
        node.id.0,
        changes(name),
        timestamp,
        true,
    ));
}

} // verus!

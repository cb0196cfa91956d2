//! What others may attach to the write path: pre-anchor hooks and storage observers.

use super::metrics::{HookMetricsSnapshot, Meters};
use crate::error::Error;
use crate::ids::{EdgeId, NodeId, VersionId};
use crate::property::{Properties, PropertyMap};
use crate::temporal::Timestamp;
use crate::version::EntityKind;
use std::time::Duration;
use vstd::prelude::*;

verus! {

/// An anchor that is about to be stored, as hooks are told of it.
pub struct AnchorContext {
    /// The word for the kind of entity.
    pub entity_type: Seq<char>,
    /// The entity.
    pub entity_id: u64,
    /// When the version becomes known.
    pub timestamp: Timestamp,
    /// The properties.
    pub properties: Properties,
    /// How long the hook may take; `None` is as long as it likes.
    pub timeout: Option<Duration>,
}

/// Anchors that a hook was told of, each with what it replied.
pub type HookCalls = Seq<(AnchorContext, HookReply)>;

/// Called before an anchor is stored, to take a vector snapshot that goes with it.
pub trait AnchorHook {
    /// The hook may answer so when it is told of an anchor.
    spec fn may_reply(&self, context: AnchorContext, reply: HookReply) -> bool;

    /// The calls that were made of the hook, in order.
    spec fn calls(&self) -> HookCalls;

    /// Takes a snapshot that goes with the anchor, in the given time. Whatever goes wrong leaves
    /// the anchor without a snapshot from this hook.
    fn before_anchor(
        &mut self,
        entity_type: &str,
        entity_id: u64,
        timestamp: Timestamp,
        properties: &PropertyMap,
        timeout: Option<Duration>,
    ) -> (r: HookReply)
        ensures
            ({
                let context = AnchorContext {
                    entity_type: entity_type@,
                    entity_id,
                    timestamp,
                    properties: properties@,
                    timeout,
                };
                &&& old(self).may_reply(context, r)
                &&& final(self).calls() == old(self).calls().push((context, r))
            }),
    ;
}

/// A hook that is registered.
pub struct PreAnchorHook {
    /// The hook.
    pub hook: Box<dyn AnchorHook>,
}

/// Every hook was called once more, was told of the anchor, and gave its reply.
pub open spec fn all_replied(
    before: Seq<PreAnchorHook>,
    context: AnchorContext,
    replies: Seq<HookReply>,
    after: Seq<PreAnchorHook>,
) -> bool {
    &&& after.len() == before.len()
    &&& replies.len() == before.len()
    &&& forall|i: int|
        #![trigger replies[i]]
        #![trigger after[i]]
        0 <= i < before.len() ==> {
            &&& before[i].hook.may_reply(context, replies[i])
            &&& after[i].hook.calls() == before[i].hook.calls().push((context, replies[i]))
        }
}

/// Something that happened to the version history.
#[derive(Clone, Copy, Debug, PartialEq, Eq, Structural)]
pub enum StorageEvent {
    /// A version of a node was stored.
    NodeVersionCreated {
        /// The version.
        version_id: VersionId,
        /// The node.
        node_id: NodeId,
        /// When the version became known.
        timestamp: Timestamp,
        /// Whether the version is an anchor.
        is_anchor: bool,
    },
    /// An anchor of a node was stored that triggers a vector snapshot.
    NodeAnchorCreated {
        /// The version.
        version_id: VersionId,
        /// The node.
        node_id: NodeId,
        /// When the version became known.
        timestamp: Timestamp,
    },
    /// A version of an edge was stored.
    EdgeVersionCreated {
        /// The version.
        version_id: VersionId,
        /// The edge.
        edge_id: EdgeId,
        /// When the version became known.
        timestamp: Timestamp,
        /// Whether the version is an anchor.
        is_anchor: bool,
    },
    /// An anchor of an edge was stored that triggers a vector snapshot.
    EdgeAnchorCreated {
        /// The version.
        version_id: VersionId,
        /// The edge.
        edge_id: EdgeId,
        /// When the version became known.
        timestamp: Timestamp,
    },
}

/// Events that an observer heard.
pub type EventLog = Seq<StorageEvent>;

/// Told of every event of the version history.
pub trait StorageObserver {
    /// The events that the observer was told of, in order.
    spec fn heard(&self) -> EventLog;

    /// Takes note of an event. An error stops nothing.
    fn on_event(&mut self, event: &StorageEvent) -> (r: Result<(), Error>)
        ensures
            final(self).heard() == old(self).heard().push(*event),
    ;
}

/// An observer that is registered.
pub struct Observer {
    /// The observer.
    pub observer: Box<dyn StorageObserver>,
}

/// The event that a version was stored.
pub open spec fn version_event(
    kind: EntityKind,
    version: u64,
    entity: u64,
    timestamp: Timestamp,
    is_anchor: bool,
) -> StorageEvent {
    match kind {
        EntityKind::Node => StorageEvent::NodeVersionCreated {
            version_id: VersionId(version),
            node_id: NodeId(entity),
            timestamp,
            is_anchor,
        },
        EntityKind::Edge => StorageEvent::EdgeVersionCreated {
            version_id: VersionId(version),
            edge_id: EdgeId(entity),
            timestamp,
            is_anchor,
        },
    }
}

/// The event that an anchor was stored that triggers a vector snapshot.
pub open spec fn anchor_event(
    kind: EntityKind,
    version: u64,
    entity: u64,
    timestamp: Timestamp,
) -> StorageEvent {
    match kind {
        EntityKind::Node => StorageEvent::NodeAnchorCreated {
            version_id: VersionId(version),
            node_id: NodeId(entity),
            timestamp,
        },
        EntityKind::Edge => StorageEvent::EdgeAnchorCreated {
            version_id: VersionId(version),
            edge_id: EdgeId(entity),
            timestamp,
        },
    }
}

/// The events that storing a version gives rise to: always that it was stored; for an anchor that
/// triggers snapshots, also that.
pub open spec fn events_of(
    kind: EntityKind,
    version: u64,
    entity: u64,
    timestamp: Timestamp,
    is_anchor: bool,
    snapshots: bool,
) -> Seq<StorageEvent> {
    let stored = version_event(kind, version, entity, timestamp, is_anchor);
    if is_anchor && snapshots {
        seq![stored, anchor_event(kind, version, entity, timestamp)]
    } else {
        seq![stored]
    }
}

/// The events that storing a version gives rise to.
pub fn version_events(
    kind: EntityKind,
    version: u64,
    entity: u64,
    timestamp: Timestamp,
    is_anchor: bool,
    snapshots: bool,
) -> (r: Vec<StorageEvent>)
    ensures
        r@ == events_of(kind, version, entity, timestamp, is_anchor, snapshots),
{
    let mut events: Vec<StorageEvent> = Vec::new();
    let version_id = VersionId(version);
    let (stored, anchored) = match kind {
        EntityKind::Node => {
            let node_id = NodeId(entity);
            (
                StorageEvent::NodeVersionCreated { version_id, node_id, timestamp, is_anchor },
                StorageEvent::NodeAnchorCreated { version_id, node_id, timestamp },
            )
        },
        EntityKind::Edge => {
            let edge_id = EdgeId(entity);
            (
                StorageEvent::EdgeVersionCreated { version_id, edge_id, timestamp, is_anchor },
                StorageEvent::EdgeAnchorCreated { version_id, edge_id, timestamp },
            )
        },
    };
    events.push(stored);
    if is_anchor && snapshots {
        events.push(anchored);
    }
    assert(events@ =~= events_of(kind, version, entity, timestamp, is_anchor, snapshots));
    events
}

/// Every observer heard exactly these events more.
pub open spec fn all_heard(
    before: Seq<Observer>,
    events: Seq<StorageEvent>,
    after: Seq<Observer>,
) -> bool {
    &&& after.len() == before.len()
    &&& forall|i: int|
        0 <= i < before.len() ==> (#[trigger] after[i]).observer.heard()
            == before[i].observer.heard() + events
}

/// Tells every observer of an event, in the order of registration.
fn notify(observers: &mut Vec<Observer>, event: &StorageEvent)
    ensures
        all_heard(old(observers)@, seq![*event], final(observers)@),
{
    let mut i: usize = 0;
    while i < observers.len()
        invariant
            i <= observers.len(),
            observers@.len() == old(observers)@.len(),
            forall|j: int|
                0 <= j < i ==> (#[trigger] observers@[j]).observer.heard() == old(
                    observers,
                )@[j].observer.heard() + seq![*event],
            forall|j: int|
                i <= j < observers@.len() ==> (#[trigger] observers@[j]) == old(observers)@[j],
        decreases observers.len() - i,
    {
        let ghost heard = observers@[i as int].observer.heard();
        let _ = observers[i].observer.on_event(event);
        assert(heard.push(*event) =~= heard + seq![*event]);
        i = i + 1;
    }
}

/// Tells every observer of every event, in the order of registration. What an observer answers
/// stops nothing.
pub fn notify_observers(observers: &mut Vec<Observer>, events: &Vec<StorageEvent>)
    ensures
        all_heard(old(observers)@, events@, final(observers)@),
{
    let mut e: usize = 0;
    assert forall|i: int| 0 <= i < observers@.len() implies (
    #[trigger] observers@[i]).observer.heard() == old(observers)@[i].observer.heard()
        + events@.take(0) by {
        let heard = observers@[i].observer.heard();
        assert(heard + events@.take(0) =~= heard);
    }
    while e < events.len()
        invariant
            e <= events.len(),
            all_heard(old(observers)@, events@.take(e as int), observers@),
        decreases events.len() - e,
    {
        let ghost before = observers@;
        notify(observers, &events[e]);
        assert forall|i: int| 0 <= i < observers@.len() implies (
        #[trigger] observers@[i]).observer.heard() == old(observers)@[i].observer.heard()
            + events@.take(e + 1) by {
            let heard = old(observers)@[i].observer.heard();
            assert(before[i].observer.heard() == heard + events@.take(e as int));
            assert(heard + events@.take(e as int) + seq![events@[e as int]] =~= heard
                + events@.take(e + 1));
        }
        e = e + 1;
    }
    assert(events@.take(e as int) =~= events@);
}

/// What came of calling a hook: whether it succeeded, and the snapshot that it took.
#[derive(Clone, Copy, Debug, PartialEq, Eq, Structural)]
pub enum HookReply {
    /// The hook took a snapshot.
    Snapshot(u64),
    /// The hook took no snapshot.
    Nothing,
    /// The hook returned an error.
    Failed,
    /// The hook panicked.
    Panicked,
    /// The hook did not return in time.
    TimedOut,
}

/// The snapshot to record: that of the last hook that took one.
pub open spec fn winning_snapshot(replies: Seq<HookReply>) -> Option<u64>
    decreases replies.len(),
{
    if replies.len() == 0 {
        None
    } else {
        match replies.last() {
            HookReply::Snapshot(id) => Some(id),
            _ => winning_snapshot(replies.drop_last()),
        }
    }
}

/// The counters after one more reply.
pub open spec fn counted(m: HookMetricsSnapshot, reply: HookReply) -> HookMetricsSnapshot {
    let called = HookMetricsSnapshot { invocations: m.invocations.wrapping_add(1), ..m };
    match reply {
        HookReply::Snapshot(_) | HookReply::Nothing => HookMetricsSnapshot {
            successes: m.successes.wrapping_add(1),
            ..called
        },
        HookReply::Failed => HookMetricsSnapshot {
            failures: m.failures.wrapping_add(1),
            ..called
        },
        HookReply::Panicked => HookMetricsSnapshot { panics: m.panics.wrapping_add(1), ..called },
        HookReply::TimedOut => HookMetricsSnapshot {
            timeouts: m.timeouts.wrapping_add(1),
            ..called
        },
    }
}

/// The counters after all replies.
pub open spec fn counted_all(m: HookMetricsSnapshot, replies: Seq<HookReply>) -> HookMetricsSnapshot
    decreases replies.len(),
{
    if replies.len() == 0 {
        m
    } else {
        counted(counted_all(m, replies.drop_last()), replies.last())
    }
}

/// Takes one reply into account: the counters, and the snapshot that wins so far.
pub fn take_reply(
    metrics: &mut HookMetricsSnapshot,
    so_far: Option<u64>,
    reply: HookReply,
) -> (r: Option<u64>)
    ensures
        *final(metrics) == counted(*old(metrics), reply),
        r == (match reply {
            HookReply::Snapshot(id) => Some(id),
            _ => so_far,
        }),
{
    metrics.invocations = metrics.invocations.wrapping_add(1);
    match reply {
        HookReply::Snapshot(id) => {
            metrics.successes = metrics.successes.wrapping_add(1);
            Some(id)
        },
        HookReply::Nothing => {
            metrics.successes = metrics.successes.wrapping_add(1);
            so_far
        },
        HookReply::Failed => {
            metrics.failures = metrics.failures.wrapping_add(1);
            so_far
        },
        HookReply::Panicked => {
            metrics.panics = metrics.panics.wrapping_add(1);
            so_far
        },
        HookReply::TimedOut => {
            metrics.timeouts = metrics.timeouts.wrapping_add(1);
            so_far
        },
    }
}

/// Runs the hooks in the order of registration, each for as long as it may take. Each is counted;
/// none stops the others; the last snapshot wins.
pub fn run_pre_anchor_hooks(
    hooks: &mut Vec<PreAnchorHook>,
    kind: EntityKind,
    entity: u64,
    timestamp: Timestamp,
    properties: &PropertyMap,
    timeout: Option<Duration>,
    meters: &mut Meters,
) -> (r: Option<u64>)
    ensures
        final(meters).cache == old(meters).cache,
        exists|replies: Seq<HookReply>|
            all_replied(
                old(hooks)@,
                AnchorContext {
                    entity_type: kind.spec_word(),
                    entity_id: entity,
                    timestamp,
                    properties: properties@,
                    timeout,
                },
                replies,
                final(hooks)@,
            ) && r == winning_snapshot(replies) && final(meters).hooks == #[trigger] counted_all(
                old(meters).hooks,
                replies,
            ),
{
    let ghost context = AnchorContext {
        entity_type: kind.spec_word(),
        entity_id: entity,
        timestamp,
        properties: properties@,
        timeout,
    };
    let mut snapshot: Option<u64> = None;
    let ghost mut replies: Seq<HookReply> = Seq::empty();
    let mut i: usize = 0;
    while i < hooks.len()
        invariant
            i <= hooks.len(),
            replies.len() == i,
            context == (AnchorContext {
                entity_type: kind.spec_word(),
                entity_id: entity,
                timestamp,
                properties: properties@,
                timeout,
            }),
            hooks@.len() == old(hooks)@.len(),
            forall|j: int|
                #![trigger replies[j]]
                #![trigger hooks@[j]]
                0 <= j < i ==> {
                    &&& old(hooks)@[j].hook.may_reply(context, replies[j])
                    &&& hooks@[j].hook.calls() == old(hooks)@[j].hook.calls().push(
                        (context, replies[j]),
                    )
                },
            forall|j: int| i <= j < hooks@.len() ==> (#[trigger] hooks@[j]) == old(hooks)@[j],
            snapshot == winning_snapshot(replies),
            meters.cache == old(meters).cache,
            meters.hooks == counted_all(old(meters).hooks, replies),
        decreases hooks.len() - i,
    {
        let reply = hooks[i].hook.before_anchor(
            kind.word(),
            entity,
            timestamp,
            properties,
            timeout,
        );
        snapshot = take_reply(&mut meters.hooks, snapshot, reply);
        proof {
            assert(replies.push(reply).drop_last() =~= replies);
            replies = replies.push(reply);
        }
        i = i + 1;
    }
    snapshot
}

/// The snapshot to record is that of the last hook that took one: every hook after it took none.
/// There is none to record exactly if no hook took one.
pub proof fn law_last_snapshot_wins(replies: Seq<HookReply>, at: int)
    requires
        -1 <= at < replies.len(),
        at >= 0 ==> replies[at] is Snapshot,
        forall|i: int| at < i < replies.len() ==> !((#[trigger] replies[i]) is Snapshot),
    ensures
        winning_snapshot(replies) == (if at >= 0 {
            Some(replies[at]->Snapshot_0)
        } else {
            None
        }),
    decreases replies.len(),
{
    if at < replies.len() - 1 {
        assert(!(replies[replies.len() - 1] is Snapshot));
        let shorter = replies.drop_last();
        assert forall|i: int| at < i < shorter.len() implies !((#[trigger] shorter[i]) is Snapshot) by {
            assert(shorter[i] == replies[i]);
        }
        law_last_snapshot_wins(shorter, at);
    }
}

/// Every hook that is called is counted once as called, and once by how it fared: as a success
/// whether or not it took a snapshot, as a failure, as a panic or as out of time.
pub proof fn law_every_hook_is_counted(m: HookMetricsSnapshot, replies: Seq<HookReply>)
    requires
        m.invocations + replies.len() <= u64::MAX,
        m.successes + replies.len() <= u64::MAX,
        m.failures + replies.len() <= u64::MAX,
        m.panics + replies.len() <= u64::MAX,
        m.timeouts + replies.len() <= u64::MAX,
    ensures
        counted_all(m, replies).invocations == m.invocations + replies.len(),
        counted_all(m, replies).successes == m.successes + replies.filter(
            |r: HookReply| r is Snapshot || r is Nothing,
        ).len(),
        counted_all(m, replies).failures == m.failures + replies.filter(
            |r: HookReply| r is Failed,
        ).len(),
        counted_all(m, replies).panics == m.panics + replies.filter(
            |r: HookReply| r is Panicked,
        ).len(),
        counted_all(m, replies).timeouts == m.timeouts + replies.filter(
            |r: HookReply| r is TimedOut,
        ).len(),
        replies.filter(|r: HookReply| r is Snapshot || r is Nothing).len() <= replies.len(),
        replies.filter(|r: HookReply| r is Failed).len() <= replies.len(),
        replies.filter(|r: HookReply| r is Panicked).len() <= replies.len(),
        replies.filter(|r: HookReply| r is TimedOut).len() <= replies.len(),
    decreases replies.len(),
{
    reveal(Seq::filter);
    if replies.len() > 0 {
        law_every_hook_is_counted(m, replies.drop_last());
    }
}

/// Whoever is told of a version is told once that it was stored, with the version, its entity, its
/// moment and whether it is an anchor; and once more, after that, exactly for an anchor that
/// triggers a snapshot. Nodes are told of as nodes, edges as edges.
pub proof fn law_events_of_a_version(
    version: u64,
    entity: u64,
    timestamp: Timestamp,
    is_anchor: bool,
    snapshots: bool,
)
    ensures
        ({
            let (version_id, node_id, edge_id) = (VersionId(version), NodeId(entity), EdgeId(entity));
            let nodes = events_of(EntityKind::Node, version, entity, timestamp, is_anchor, snapshots);
            let edges = events_of(EntityKind::Edge, version, entity, timestamp, is_anchor, snapshots);
            let n: nat = if is_anchor && snapshots {
                2
            } else {
                1
            };
            &&& nodes.len() == n && edges.len() == n
            &&& nodes[0] == StorageEvent::NodeVersionCreated {
                version_id,
                node_id,
                timestamp,
                is_anchor,
            }
            &&& edges[0] == StorageEvent::EdgeVersionCreated {
                version_id,
                edge_id,
                timestamp,
                is_anchor,
            }
            &&& n == 2 ==> nodes[1] == (StorageEvent::NodeAnchorCreated {
                version_id,
                node_id,
                timestamp,
            }) && edges[1] == (StorageEvent::EdgeAnchorCreated { version_id, edge_id, timestamp })
        }),
{
}

} // verus!

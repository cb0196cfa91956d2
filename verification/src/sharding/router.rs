//! Which shards hold which labels, and which of them a traversal involves.

use crate::ids::ShardId;
use crate::sharding::wire::{le_bytes, lemma_le_len, push_bytes, push_le};
use vstd::prelude::*;
use vstd::string::*;
use vstd::utf8::encode_utf8;

verus! {

/// A shard and the labels that it holds.
#[derive(Debug)]
pub struct ShardDefinition {
    /// The shard.
    pub id: ShardId,
    /// Where it listens.
    pub address: String,
    /// The labels that it holds.
    pub labels: Vec<String>,
}

/// All shards.
#[derive(Debug)]
pub struct ShardConfig {
    /// The shards; where two hold the same label, the first one counts.
    pub shards: Vec<ShardDefinition>,
}

/// One part of a traversal.
#[derive(Debug)]
pub struct TraversalStep {
    /// The shard that does this part.
    pub shard_id: ShardId,
    /// The labels that it follows.
    pub edge_labels: Vec<String>,
    /// Whether this part may lead to other shards.
    pub may_cross_shard: bool,
}

/// A traversal, planned.
#[derive(Debug)]
pub struct TraversalPlan {
    /// Where it starts.
    pub start_shard: ShardId,
    /// The shards that it involves, each once, the first one first.
    pub involved_shards: Vec<ShardId>,
    /// Its parts, where a single shard does all of it; none where several shards are involved.
    pub steps: Vec<TraversalStep>,
    /// Whether several shards are involved.
    pub is_distributed: bool,
}

/// The labels as text.
pub open spec fn label_texts(labels: Seq<String>) -> Seq<Seq<char>> {
    Seq::new(labels.len(), |i: int| labels[i]@)
}

/// The labels as text.
pub open spec fn str_texts(labels: Seq<&str>) -> Seq<Seq<char>> {
    Seq::new(labels.len(), |i: int| labels[i]@)
}

/// The first shard that holds the label.
pub open spec fn shard_of(shards: Seq<ShardDefinition>, label: Seq<char>) -> Option<ShardId>
    decreases shards.len(),
{
    if shards.len() == 0 {
        None
    } else {
        match shard_of(shards.drop_last(), label) {
            Some(shard) => Some(shard),
            None => if label_texts(shards.last().labels@).contains(label) {
                Some(shards.last().id)
            } else {
                None
            },
        }
    }
}

/// Where a traversal from the label starts: at the shard that holds it, else at the first shard.
pub open spec fn start_of(shards: Seq<ShardDefinition>, label: Seq<char>) -> ShardId {
    match shard_of(shards, label) {
        Some(shard) => shard,
        None => if shards.len() > 0 {
            shards[0].id
        } else {
            ShardId(0)
        },
    }
}

/// The start and then, each once, the shards that hold the target labels.
pub open spec fn involved(
    shards: Seq<ShardDefinition>,
    start: ShardId,
    targets: Seq<Seq<char>>,
) -> Seq<ShardId>
    decreases targets.len(),
{
    if targets.len() == 0 {
        seq![start]
    } else {
        let before = involved(shards, start, targets.drop_last());
        match shard_of(shards, targets.last()) {
            Some(shard) => if before.contains(shard) {
                before
            } else {
                before.push(shard)
            },
            None => before,
        }
    }
}

/// No shard is involved twice, and the start comes first.
pub proof fn law_involved_once(
    shards: Seq<ShardDefinition>,
    start: ShardId,
    targets: Seq<Seq<char>>,
)
    ensures
        involved(shards, start, targets).no_duplicates(),
        involved(shards, start, targets).len() > 0,
        involved(shards, start, targets)[0] == start,
    decreases targets.len(),
{
    if targets.len() > 0 {
        law_involved_once(shards, start, targets.drop_last());
    }
}

/// The plan of a traversal from one label to others. A single shard does all of it in one step;
/// with several shards the plan has no steps.
pub open spec fn planned(
    shards: Seq<ShardDefinition>,
    start_label: Seq<char>,
    target_labels: Seq<Seq<char>>,
    plan: TraversalPlan,
) -> bool {
    &&& plan.start_shard == start_of(shards, start_label)
    &&& plan.involved_shards@ == involved(shards, plan.start_shard, target_labels)
    &&& plan.is_distributed == (plan.involved_shards@.len() > 1)
    &&& if plan.is_distributed {
        plan.steps@.len() == 0
    } else {
        &&& plan.steps@.len() == 1
        &&& plan.steps@[0].shard_id == plan.start_shard
        &&& label_texts(plan.steps@[0].edge_labels@) == target_labels
        &&& !plan.steps@[0].may_cross_shard
    }
}

/// A copy of the text in a list of its own.
fn texts(labels: &[&str]) -> (r: Vec<String>)
    ensures
        label_texts(r@) == str_texts(labels@),
{
    let mut out: Vec<String> = Vec::new();
    let mut i: usize = 0;
    while i < labels.len()
        invariant
            i <= labels.len(),
            out@.len() == i,
            forall|j: int| 0 <= j < i ==> (#[trigger] out@[j])@ == labels@[j]@,
        decreases labels.len() - i,
    {
        out.push(String::from_str(labels[i]));
        i = i + 1;
    }
    assert(label_texts(out@) =~= str_texts(labels@));
    out
}

/// Whether the list holds the label.
fn holds_label(labels: &Vec<String>, label: &str) -> (r: bool)
    ensures
        r == label_texts(labels@).contains(label@),
{
    let wanted = String::from_str(label);
    let mut i: usize = 0;
    while i < labels.len()
        invariant
            i <= labels.len(),
            wanted@ == label@,
            forall|j: int| 0 <= j < i ==> (#[trigger] labels@[j])@ != label@,
        decreases labels.len() - i,
    {
        if labels[i] == wanted {
            assert(label_texts(labels@)[i as int] == label@);
            return true;
        }
        i = i + 1;
    }
    assert(!label_texts(labels@).contains(label@)) by {
        if label_texts(labels@).contains(label@) {
            let j = choose|j: int|
                0 <= j < label_texts(labels@).len() && label_texts(labels@)[j] == label@;
            assert(labels@[j]@ == label@);
        }
    }
    false
}

/// Whether the list holds the shard.
pub fn holds_shard(shards: &Vec<ShardId>, shard: ShardId) -> (r: bool)
    ensures
        r == shards@.contains(shard),
{
    let mut i: usize = 0;
    while i < shards.len()
        invariant
            i <= shards.len(),
            forall|j: int| 0 <= j < i ==> #[trigger] shards@[j] != shard,
        decreases shards.len() - i,
    {
        if shards[i] == shard {
            return true;
        }
        i = i + 1;
    }
    false
}

impl ShardDefinition {
    /// A shard that holds the given labels.
    pub fn new(id: u16, address: &str, labels: Vec<&str>) -> (r: ShardDefinition)
        ensures
            r.id == ShardId(id),
            r.address@ == address@,
            label_texts(r.labels@) == str_texts(labels@),
    {
        ShardDefinition {
            id: ShardId(id),
            address: String::from_str(address),
            labels: texts(labels.as_slice()),
        }
    }
}

impl ShardConfig {
    /// The given shards.
    pub fn new(shards: Vec<ShardDefinition>) -> (r: ShardConfig)
        ensures
            r.shards == shards,
    {
        ShardConfig { shards }
    }
}

/// Knows which shard holds which label.
#[derive(Debug)]
pub struct ShardRouter {
    /// The shards.
    pub config: ShardConfig,
}

impl ShardRouter {
    /// A router for the given shards.
    pub fn new(config: ShardConfig) -> (r: ShardRouter)
        ensures
            r.config == config,
    {
        ShardRouter { config }
    }

    /// The first shard that holds the label.
    pub fn find_shard(&self, label: &str) -> (r: Option<ShardId>)
        ensures
            r == shard_of(self.config.shards@, label@),
    {
        let mut found: Option<ShardId> = None;
        let mut i: usize = 0;
        while i < self.config.shards.len()
            invariant
                i <= self.config.shards.len(),
                found == shard_of(self.config.shards@.take(i as int), label@),
            decreases self.config.shards.len() - i,
        {
            assert(self.config.shards@.take(i as int + 1).drop_last()
                =~= self.config.shards@.take(i as int));
            if found.is_none() && holds_label(&self.config.shards[i].labels, label) {
                found = Some(self.config.shards[i].id);
            }
            i = i + 1;
        }
        assert(self.config.shards@.take(i as int) =~= self.config.shards@);
        found
    }

    /// Plans a traversal from one label to others.
    pub fn route_traversal(&self, start_label: &str, target_labels: &[&str]) -> (r: TraversalPlan)
        ensures
            planned(self.config.shards@, start_label@, str_texts(target_labels@), r),
    {
        let start_shard = match self.find_shard(start_label) {
            Some(shard) => shard,
            None => {
                if self.config.shards.len() > 0 {
                    self.config.shards[0].id
                } else {
                    ShardId(0)
                }
            },
        };
        let mut involved_shards: Vec<ShardId> = Vec::new();
        involved_shards.push(start_shard);
        let ghost wanted = str_texts(target_labels@);
        assert(wanted.take(0) =~= Seq::<Seq<char>>::empty());
        assert(involved_shards@ =~= seq![start_shard]);
        let mut i: usize = 0;
        while i < target_labels.len()
            invariant
                i <= target_labels.len(),
                wanted == str_texts(target_labels@),
                involved_shards@ == involved(
                    self.config.shards@,
                    start_shard,
                    wanted.take(i as int),
                ),
            decreases target_labels.len() - i,
        {
            assert(wanted.take(i as int + 1).drop_last() =~= wanted.take(i as int));
            assert(wanted.take(i as int + 1).last() == target_labels@[i as int]@);
            if let Some(shard) = self.find_shard(target_labels[i]) {
                if !holds_shard(&involved_shards, shard) {
                    involved_shards.push(shard);
                }
            }
            i = i + 1;
        }
        assert(wanted.take(i as int) =~= wanted);
        proof {
            law_involved_once(self.config.shards@, start_shard, wanted);
        }
        let is_distributed = involved_shards.len() > 1;
        let mut steps: Vec<TraversalStep> = Vec::new();
        if !is_distributed {
            steps.push(
                TraversalStep {
                    shard_id: start_shard,
                    edge_labels: texts(target_labels),
                    may_cross_shard: false,
                },
            );
        }
        TraversalPlan { start_shard, involved_shards, steps, is_distributed }
    }
}

/// A label on the wire: the length of its text, and the text.
pub open spec fn label_wire(label: Seq<char>) -> Seq<u8> {
    le_bytes(encode_utf8(label).len(), 4) + encode_utf8(label)
}

/// Labels on the wire, one after the other.
pub open spec fn labels_wire(labels: Seq<String>) -> Seq<u8>
    decreases labels.len(),
{
    if labels.len() == 0 {
        Seq::empty()
    } else {
        labels_wire(labels.drop_last()) + label_wire(labels.last()@)
    }
}

/// A step on the wire: its shard, how many labels it has, the labels, and whether it may lead to
/// other shards.
pub open spec fn step_wire(step: TraversalStep) -> Seq<u8> {
    le_bytes(step.shard_id.0 as nat, 2) + le_bytes(step.edge_labels@.len(), 4) + labels_wire(
        step.edge_labels@,
    ) + seq![
        if step.may_cross_shard {
            1u8
        } else {
            0u8
        },
    ]
}

/// Steps on the wire, one after the other.
pub open spec fn steps_wire(steps: Seq<TraversalStep>) -> Seq<u8>
    decreases steps.len(),
{
    if steps.len() == 0 {
        Seq::empty()
    } else {
        steps_wire(steps.drop_last()) + step_wire(steps.last())
    }
}

/// A plan on the wire: how many steps it has, and the steps.
pub open spec fn plan_wire(steps: Seq<TraversalStep>) -> Seq<u8> {
    le_bytes(steps.len(), 4) + steps_wire(steps)
}

/// How many bytes labels take.
pub open spec fn labels_size(labels: Seq<String>) -> nat
    decreases labels.len(),
{
    if labels.len() == 0 {
        0
    } else {
        labels_size(labels.drop_last()) + 4 + encode_utf8(labels.last()@).len()
    }
}

/// How many bytes steps take.
pub open spec fn steps_size(steps: Seq<TraversalStep>) -> nat
    decreases steps.len(),
{
    if steps.len() == 0 {
        0
    } else {
        steps_size(steps.drop_last()) + 2 + 4 + labels_size(steps.last().edge_labels@) + 1
    }
}

/// Labels take as many bytes as their sizes add up to.
proof fn lemma_labels_size(labels: Seq<String>)
    ensures
        labels_wire(labels).len() == labels_size(labels),
    decreases labels.len(),
{
    if labels.len() > 0 {
        lemma_labels_size(labels.drop_last());
        lemma_le_len(encode_utf8(labels.last()@).len(), 4);
    }
}

/// Steps take as many bytes as their sizes add up to.
proof fn lemma_steps_size(steps: Seq<TraversalStep>)
    ensures
        steps_wire(steps).len() == steps_size(steps),
    decreases steps.len(),
{
    if steps.len() > 0 {
        lemma_steps_size(steps.drop_last());
        let step = steps.last();
        lemma_labels_size(step.edge_labels@);
        lemma_le_len(step.shard_id.0 as nat, 2);
        lemma_le_len(step.edge_labels@.len(), 4);
    }
}

/// The room set aside for a plan is exactly what it takes: four bytes, and for each step seven
/// bytes and for each of its labels four more and its text.
pub proof fn law_plan_size(steps: Seq<TraversalStep>)
    ensures
        plan_wire(steps).len() == 4 + steps_size(steps),
{
    lemma_le_len(steps.len(), 4);
    lemma_steps_size(steps);
}

/// How many bytes labels take, where that can be counted.
fn count_labels(labels: &Vec<String>) -> (r: Option<usize>)
    ensures
        r == (if labels_size(labels@) <= usize::MAX {
            Some(labels_size(labels@) as usize)
        } else {
            None
        }),
{
    let mut total: Option<usize> = Some(0);
    let mut i: usize = 0;
    while i < labels.len()
        invariant
            i <= labels.len(),
            total == (if labels_size(labels@.take(i as int)) <= usize::MAX {
                Some(labels_size(labels@.take(i as int)) as usize)
            } else {
                None
            }),
        decreases labels.len() - i,
    {
        assert(labels@.take(i as int + 1).drop_last() =~= labels@.take(i as int));
        let len: usize = labels[i].as_str().as_bytes().len();
        total = match total {
            Some(t) => match t.checked_add(4) {
                Some(t4) => t4.checked_add(len),
                None => None,
            },
            None => None,
        };
        i = i + 1;
    }
    assert(labels@.take(i as int) =~= labels@);
    total
}

/// How many bytes a plan takes, where that can be counted.
fn count_plan(steps: &Vec<TraversalStep>) -> (r: Option<usize>)
    ensures
        r == (if 4 + steps_size(steps@) <= usize::MAX {
            Some((4 + steps_size(steps@)) as usize)
        } else {
            None
        }),
{
    let mut total: Option<usize> = Some(4);
    let mut i: usize = 0;
    while i < steps.len()
        invariant
            i <= steps.len(),
            total == (if 4 + steps_size(steps@.take(i as int)) <= usize::MAX {
                Some((4 + steps_size(steps@.take(i as int))) as usize)
            } else {
                None
            }),
        decreases steps.len() - i,
    {
        assert(steps@.take(i as int + 1).drop_last() =~= steps@.take(i as int));
        let labels = count_labels(&steps[i].edge_labels);
        total = match (total, labels) {
            (Some(t), Some(n)) => match t.checked_add(7) {
                Some(t7) => t7.checked_add(n),
                None => None,
            },
            _ => None,
        };
        i = i + 1;
    }
    assert(steps@.take(i as int) =~= steps@);
    total
}

/// Appends labels.
fn push_labels(out: &mut Vec<u8>, labels: &Vec<String>)
    ensures
        final(out)@ == old(out)@ + labels_wire(labels@),
{
    assert(out@ =~= old(out)@ + labels_wire(labels@.take(0)));
    let mut i: usize = 0;
    while i < labels.len()
        invariant
            i <= labels.len(),
            out@ == old(out)@ + labels_wire(labels@.take(i as int)),
        decreases labels.len() - i,
    {
        let ghost before = out@;
        let text = labels[i].as_str().as_bytes();
        push_le(out, text.len() as u64, 4);
        push_bytes(out, text);
        i = i + 1;
        assert(labels@.take(i as int).drop_last() =~= labels@.take(i - 1));
        assert(out@ =~= before + label_wire(labels@[i - 1]@));
        assert(out@ =~= old(out)@ + labels_wire(labels@.take(i as int)));
    }
    assert(labels@.take(i as int) =~= labels@);
}

/// Writes a plan down: how many steps it has, and for each its shard, its labels with their
/// lengths, and whether it may lead to other shards.
pub fn serialize_plan(plan: &TraversalPlan) -> (r: Vec<u8>)
    ensures
        r@ == plan_wire(plan.steps@),
{
    let room: usize = match count_plan(&plan.steps) {
        Some(n) => n,
        None => 0,
    };
    let mut out: Vec<u8> = Vec::with_capacity(room);
    push_le(&mut out, plan.steps.len() as u64, 4);
    let ghost head = le_bytes(plan.steps@.len(), 4);
    assert(out@ =~= head + steps_wire(plan.steps@.take(0)));
    let mut i: usize = 0;
    while i < plan.steps.len()
        invariant
            i <= plan.steps.len(),
            out@ == head + steps_wire(plan.steps@.take(i as int)),
        decreases plan.steps.len() - i,
    {
        let ghost before = out@;
        let step = &plan.steps[i];
        push_le(&mut out, step.shard_id.0 as u64, 2);
        push_le(&mut out, step.edge_labels.len() as u64, 4);
        push_labels(&mut out, &step.edge_labels);
        out.push(
            if step.may_cross_shard {
                1
            } else {
                0
            },
        );
        i = i + 1;
        assert(plan.steps@.take(i as int).drop_last() =~= plan.steps@.take(i - 1));
        assert(out@ =~= before + step_wire(plan.steps@[i - 1]));
        assert(out@ =~= head + steps_wire(plan.steps@.take(i as int)));
    }
    assert(plan.steps@.take(i as int) =~= plan.steps@);
    out
}

/// A label is held by the first shard that lists it: the shard at a place where it is listed, with
/// no shard before it that lists it. A traversal from the label starts there. Where no shard lists
/// the label, it is held by none, and a traversal starts at the first shard.
pub proof fn law_first_shard_that_lists_the_label(
    shards: Seq<ShardDefinition>,
    label: Seq<char>,
    at: int,
)
    requires
        0 <= at <= shards.len(),
        at < shards.len() ==> exists|j: int|
            0 <= j < shards[at].labels@.len() && (#[trigger] shards[at].labels@[j])@ == label,
        forall|i: int, j: int|
            0 <= i < at && 0 <= j < shards[i].labels@.len() ==> (#[trigger] shards[i].labels@[j])@
                != label,
    ensures
        at < shards.len() ==> shard_of(shards, label) == Some(shards[at].id) && start_of(shards, label)
            == shards[at].id,
        at == shards.len() ==> shard_of(shards, label) is None && start_of(shards, label) == (if at > 0 {
            shards[0].id
        } else {
            ShardId(0)
        }),
    decreases shards.len(),
{
    if shards.len() > 0 {
        let shorter = shards.drop_last();
        let last = shards.len() - 1;
        assert forall|i: int, j: int|
            0 <= i < shorter.len() && i < at && 0 <= j < shorter[i].labels@.len() implies (
        #[trigger] shorter[i].labels@[j])@ != label by {
            assert(shorter[i] == shards[i]);
        }
        if at < shorter.len() {
            assert(shorter[at] == shards[at]);
            law_first_shard_that_lists_the_label(shorter, label, at);
        } else {
            law_first_shard_that_lists_the_label(shorter, label, shorter.len() as int);
            let texts = label_texts(shards[last].labels@);
            if at == last {
                let j = choose|j: int|
                    0 <= j < shards[at].labels@.len() && (#[trigger] shards[at].labels@[j])@ == label;
                assert(texts[j] == label);
            } else if texts.contains(label) {
                let j = choose|j: int| 0 <= j < texts.len() && texts[j] == label;
                assert(shards[last].labels@[j]@ == label);
            }
        }
    }
}

/// A shard is involved in a traversal exactly if it is where the traversal starts or holds one of
/// the target labels. Further target labels only add shards behind those that are involved.
pub proof fn law_involved_are_start_and_holders(
    shards: Seq<ShardDefinition>,
    start: ShardId,
    targets: Seq<Seq<char>>,
    shard: ShardId,
    further: Seq<char>,
)
    ensures
        involved(shards, start, targets).contains(shard) <==> shard == start || exists|i: int|
            0 <= i < targets.len() && shard_of(shards, #[trigger] targets[i]) == Some(shard),
        involved(shards, start, targets).is_prefix_of(
            involved(shards, start, targets.push(further)),
        ),
    decreases targets.len(),
{
    let all = involved(shards, start, targets);
    assert(targets.push(further).drop_last() =~= targets);
    if targets.len() == 0 {
        assert(all =~= seq![start]);
        assert(all[0] == start);
    } else {
        let fewer = targets.drop_last();
        let before = involved(shards, start, fewer);
        law_involved_are_start_and_holders(shards, start, fewer, shard, further);
        assert(targets[targets.len() - 1] == targets.last());
        if before.contains(shard) {
            let k = choose|k: int| 0 <= k < before.len() && before[k] == shard;
            assert(all[k] == shard);
            if shard != start {
                let i = choose|i: int|
                    0 <= i < fewer.len() && shard_of(shards, #[trigger] fewer[i]) == Some(shard);
                assert(targets[i] == fewer[i]);
            }
        }
        if all.len() > before.len() {
            assert(all[before.len() as int] == shard_of(shards, targets.last())->0);
        }
        if all.contains(shard) && !before.contains(shard) {
            let k = choose|k: int| 0 <= k < all.len() && all[k] == shard;
            assert(k == before.len());
        }
        if exists|i: int| 0 <= i < targets.len() && shard_of(shards, #[trigger] targets[i]) == Some(
            shard,
        ) {
            let i = choose|i: int|
                0 <= i < targets.len() && shard_of(shards, #[trigger] targets[i]) == Some(shard);
            if i < fewer.len() {
                assert(fewer[i] == targets[i]);
            }
        }
    }
}

/// A traversal is distributed exactly if some target label is held by another shard than the one
/// where it starts. If it is not, its only step stays on that shard and follows the target labels
/// in order.
pub proof fn law_plan_of_a_traversal(
    shards: Seq<ShardDefinition>,
    start_label: Seq<char>,
    targets: Seq<Seq<char>>,
    plan: TraversalPlan,
)
    requires
        planned(shards, start_label, targets, plan),
    ensures
        plan.start_shard == start_of(shards, start_label),
        plan.involved_shards@[0] == plan.start_shard,
        plan.is_distributed <==> exists|i: int|
            0 <= i < targets.len() && shard_of(shards, #[trigger] targets[i]) is Some && shard_of(
                shards,
                targets[i],
            ) != Some(plan.start_shard),
        plan.is_distributed ==> plan.steps@.len() == 0,
        !plan.is_distributed ==> {
            &&& plan.steps@.len() == 1
            &&& plan.steps@[0].shard_id == plan.start_shard
            &&& !plan.steps@[0].may_cross_shard
            &&& plan.steps@[0].edge_labels@.len() == targets.len()
            &&& forall|i: int|
                0 <= i < targets.len() ==> (#[trigger] plan.steps@[0].edge_labels@[i])@ == targets[i]
        },
{
    let start = plan.start_shard;
    let all = plan.involved_shards@;
    law_involved_once(shards, start, targets);
    if all.len() > 1 {
        let other = all[1];
        assert(other != all[0]);
        assert(all.contains(other));
        law_involved_are_start_and_holders(shards, start, targets, other, start_label);
    } else {
        assert forall|i: int| 0 <= i < targets.len() implies shard_of(shards, #[trigger] targets[i]) is None
            || shard_of(shards, targets[i]) == Some(start) by {
            if let Some(shard) = shard_of(shards, targets[i]) {
                law_involved_are_start_and_holders(shards, start, targets, shard, start_label);
                let k = choose|k: int| 0 <= k < all.len() && all[k] == shard;
                assert(k == 0);
            }
        }
        let texts = label_texts(plan.steps@[0].edge_labels@);
        assert forall|i: int| 0 <= i < targets.len() implies (
        #[trigger] plan.steps@[0].edge_labels@[i])@ == targets[i] by {
            assert(texts[i] == targets[i]);
        }
    }
}

/// Labels stand on the wire in their order, each as its length in four bytes and its text.
pub proof fn law_labels_on_the_wire(a: Seq<String>, b: Seq<String>, one: String)
    ensures
        labels_wire(a + b) == labels_wire(a) + labels_wire(b),
        labels_wire(seq![one]) == le_bytes(encode_utf8(one@).len(), 4) + encode_utf8(one@),
    decreases b.len(),
{
    assert(seq![one].drop_last() =~= Seq::<String>::empty());
    assert(labels_wire(Seq::<String>::empty()) =~= Seq::<u8>::empty());
    assert(labels_wire(seq![one]) =~= label_wire(one@));
    if b.len() == 0 {
        assert(a + b =~= a);
        assert(labels_wire(a) + labels_wire(b) =~= labels_wire(a));
    } else {
        law_labels_on_the_wire(a, b.drop_last(), one);
        assert((a + b).drop_last() =~= a + b.drop_last());
        assert(labels_wire(a + b) =~= labels_wire(a) + labels_wire(b));
    }
}

proof fn lemma_plan_parts(s: Seq<TraversalStep>)
    ensures
        plan_wire(s).take(4) == le_bytes(s.len(), 4),
        plan_wire(s).skip(4) == steps_wire(s),
{
    lemma_le_len(s.len(), 4);
    assert(plan_wire(s).skip(4) =~= steps_wire(s));
    assert(plan_wire(s).take(4) =~= le_bytes(s.len(), 4));
}

proof fn lemma_steps_split(a: Seq<TraversalStep>, b: Seq<TraversalStep>)
    ensures
        steps_wire(a + b) == steps_wire(a) + steps_wire(b),
    decreases b.len(),
{
    if b.len() == 0 {
        assert(a + b =~= a);
        assert(steps_wire(a) + steps_wire(b) =~= steps_wire(a));
    } else {
        lemma_steps_split(a, b.drop_last());
        assert((a + b).drop_last() =~= a + b.drop_last());
        assert(steps_wire(a + b) =~= steps_wire(a) + steps_wire(b));
    }
}

proof fn lemma_step_parts(one: TraversalStep)
    ensures
        ({
            let s = step_wire(one);
            let labels = labels_wire(one.edge_labels@);
            &&& s.len() == 7 + labels.len()
            &&& s.take(2) == le_bytes(one.shard_id.0 as nat, 2)
            &&& s.subrange(2, 6) == le_bytes(one.edge_labels@.len(), 4)
            &&& s.subrange(6, 6 + labels.len() as int) == labels
            &&& s.last() == (if one.may_cross_shard {
                1u8
            } else {
                0u8
            })
        }),
{
    lemma_le_len(one.shard_id.0 as nat, 2);
    lemma_le_len(one.edge_labels@.len(), 4);
    let s = step_wire(one);
    let labels = labels_wire(one.edge_labels@);
    assert(s.take(2) =~= le_bytes(one.shard_id.0 as nat, 2));
    assert(s.subrange(2, 6) =~= le_bytes(one.edge_labels@.len(), 4));
    assert(s.subrange(6, 6 + labels.len() as int) =~= labels);
}

/// A plan on the wire can be told apart again: behind the number of steps in four bytes each step
/// stands in its order, as its shard in two bytes, the number of its labels in four, the labels,
/// and a byte that is one exactly if the step may lead to other shards.
pub proof fn law_plan_on_the_wire(a: Seq<TraversalStep>, b: Seq<TraversalStep>, one: TraversalStep)
    ensures
        plan_wire(a + b).take(4) == le_bytes(a.len() + b.len(), 4),
        plan_wire(a + b).skip(4) == plan_wire(a).skip(4) + plan_wire(b).skip(4),
        ({
            let s = plan_wire(seq![one]).skip(4);
            let labels = labels_wire(one.edge_labels@);
            &&& s.len() == 7 + labels.len()
            &&& s.take(2) == le_bytes(one.shard_id.0 as nat, 2)
            &&& s.subrange(2, 6) == le_bytes(one.edge_labels@.len(), 4)
            &&& s.subrange(6, 6 + labels.len() as int) == labels
            &&& s.last() == (if one.may_cross_shard {
                1u8
            } else {
                0u8
            })
        }),
{
    lemma_plan_parts(a + b);
    lemma_plan_parts(a);
    lemma_plan_parts(b);
    lemma_plan_parts(seq![one]);
    lemma_steps_split(a, b);
    lemma_step_parts(one);
    assert(seq![one].drop_last() =~= Seq::<TraversalStep>::empty());
    assert(steps_wire(Seq::<TraversalStep>::empty()) =~= Seq::<u8>::empty());
    assert(steps_wire(seq![one]) =~= step_wire(one));
}

} // verus!

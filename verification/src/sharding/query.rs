//! Queries to several shards, their results, and how results are put together.

use crate::ids::ShardId;
use crate::ratio::Ratio;
use crate::sharding::network::NetworkError;
use crate::sharding::wire::{copy_bytes, first_u32, first_u64, le_bytes, le_value, push_bytes, push_le};
use crate::text::{decimal, push_decimal};
use crate::time::Duration;
use vstd::prelude::*;

verus! {

/// Errors of a query.
#[derive(Clone, Debug)]
pub enum ExecutorError {
    /// No shard gave a result.
    AllShardsFailed {
        /// The query.
        query_id: u64,
        /// What each shard said.
        failures: Vec<(ShardId, NetworkError)>,
    },
    /// Time ran out before every shard was asked.
    Timeout {
        /// The query.
        query_id: u64,
        /// The time that it had.
        timeout: Duration,
        /// The shards that gave a result.
        responded: Vec<ShardId>,
        /// The shards that were not asked yet.
        pending: Vec<ShardId>,
    },
    /// Some shards gave a result and some failed.
    PartialFailure {
        /// The query.
        query_id: u64,
        /// The shards that gave a result.
        successes: Vec<ShardId>,
        /// What the others said.
        failures: Vec<(ShardId, NetworkError)>,
    },
    /// There is no shard to ask.
    NoShardsAvailable,
    /// The query makes no sense.
    InvalidQuery(String),
    /// The results could not be put together.
    AggregationError(String),
}

/// The result of a query.
pub type ExecutorResult<T> = Result<T, ExecutorError>;

impl ExecutorError {
    /// What the error says.
    pub open spec fn spec_message(self) -> Seq<char> {
        match self {
            ExecutorError::AllShardsFailed { query_id, failures } => "Query "@ + decimal(
                query_id as nat,
            ) + " failed on all "@ + decimal(failures@.len()) + " shards"@,
            ExecutorError::Timeout { query_id, timeout, responded, pending } => "Query "@ + decimal(
                query_id as nat,
            ) + " timed out after "@ + timeout.spec_text() + " ("@ + decimal(responded@.len())
                + " responded, "@ + decimal(pending@.len()) + " pending)"@,
            ExecutorError::PartialFailure { query_id, successes, failures } => "Query "@ + decimal(
                query_id as nat,
            ) + " partially failed ("@ + decimal(successes@.len()) + " succeeded, "@ + decimal(
                failures@.len(),
            ) + " failed)"@,
            ExecutorError::NoShardsAvailable => "No shards available for query"@,
            ExecutorError::InvalidQuery(msg) => "Invalid query: "@ + msg@,
            ExecutorError::AggregationError(msg) => "Aggregation error: "@ + msg@,
        }
    }

    /// What the error says.
    pub fn message(&self) -> (r: String)
        ensures
            r@ == self.spec_message(),
    {
        match self {
            ExecutorError::AllShardsFailed { query_id, failures } => {
                let mut out = String::from_str("Query ");
                push_decimal(&mut out, *query_id);
                out.append(" failed on all ");
                push_decimal(&mut out, failures.len() as u64);
                out.append(" shards");
                out
            },
            ExecutorError::Timeout { query_id, timeout, responded, pending } => {
                let mut out = String::from_str("Query ");
                push_decimal(&mut out, *query_id);
                out.append(" timed out after ");
                out.append(timeout.text().as_str());
                out.append(" (");
                push_decimal(&mut out, responded.len() as u64);
                out.append(" responded, ");
                push_decimal(&mut out, pending.len() as u64);
                out.append(" pending)");
                out
            },
            ExecutorError::PartialFailure { query_id, successes, failures } => {
                let mut out = String::from_str("Query ");
                push_decimal(&mut out, *query_id);
                out.append(" partially failed (");
                push_decimal(&mut out, successes.len() as u64);
                out.append(" succeeded, ");
                push_decimal(&mut out, failures.len() as u64);
                out.append(" failed)");
                out
            },
            ExecutorError::NoShardsAvailable => String::from_str("No shards available for query"),
            ExecutorError::InvalidQuery(msg) => {
                let mut out = String::from_str("Invalid query: ");
                out.append(msg.as_str());
                out
            },
            ExecutorError::AggregationError(msg) => {
                let mut out = String::from_str("Aggregation error: ");
                out.append(msg.as_str());
                out
            },
        }
    }
}

/// How results of several shards are put together.
#[derive(Clone, Copy, Debug, PartialEq, Eq, Structural)]
pub enum AggregationStrategy {
    /// One after the other.
    Concat,
    /// The first that is not empty.
    First,
    /// The longest one.
    MergeNodes,
    /// The sum of the numbers that they start with.
    Sum,
    /// How many results there are.
    Count,
    /// Each with its shard.
    ByShard,
}

/// A query to several shards.
#[derive(Clone, Debug)]
pub struct DistributedQuery {
    /// The query.
    pub id: u64,
    /// What is asked, serialized.
    pub data: Vec<u8>,
    /// The shards that are asked; `None` for all that have a client.
    pub target_shards: Option<Vec<ShardId>>,
    /// The time that it has; `None` for the usual time.
    pub timeout: Option<Duration>,
    /// How results are put together.
    pub aggregation: AggregationStrategy,
}

impl DistributedQuery {
    /// A query to all shards, whose results come one after the other.
    pub fn new(id: u64, data: Vec<u8>) -> (r: DistributedQuery)
        ensures
            r == (DistributedQuery {
                id,
                data,
                target_shards: None,
                timeout: None,
                aggregation: AggregationStrategy::Concat,
            }),
    {
        DistributedQuery {
            id,
            data,
            target_shards: None,
            timeout: None,
            aggregation: AggregationStrategy::Concat,
        }
    }

    /// The query to the given shards.
    pub fn with_shards(self, shards: Vec<ShardId>) -> (r: DistributedQuery)
        ensures
            r == (DistributedQuery { target_shards: Some(shards), ..self }),
    {
        DistributedQuery { target_shards: Some(shards), ..self }
    }

    /// The query with the given time.
    pub fn with_timeout(self, timeout: Duration) -> (r: DistributedQuery)
        ensures
            r == (DistributedQuery { timeout: Some(timeout), ..self }),
    {
        DistributedQuery { timeout: Some(timeout), ..self }
    }

    /// The query with results put together in the given way.
    pub fn with_aggregation(self, strategy: AggregationStrategy) -> (r: DistributedQuery)
        ensures
            r == (DistributedQuery { aggregation: strategy, ..self }),
    {
        DistributedQuery { aggregation: strategy, ..self }
    }
}

/// What one shard answered.
#[derive(Clone, Debug)]
pub struct ShardResult {
    /// The shard.
    pub shard_id: ShardId,
    /// Its answer.
    pub data: Vec<u8>,
    /// How long it took.
    pub execution_time: Duration,
    /// How many results the answer says that it holds.
    pub result_count: usize,
}

/// The answers of all shards, put together.
#[derive(Clone, Debug)]
pub struct QueryResult {
    /// The query.
    pub query_id: u64,
    /// The answers, put together.
    pub data: Vec<u8>,
    /// The answers.
    pub shard_results: Vec<ShardResult>,
    /// How long the query took.
    pub total_time: Duration,
    /// How many shards were to be asked.
    pub shards_queried: usize,
    /// How many answered.
    pub shards_succeeded: usize,
    /// How many results there are.
    pub total_results: usize,
}

impl QueryResult {
    /// The part of the shards asked that answered. One if there were none.
    pub fn success_rate(&self) -> (r: Ratio)
        ensures
            r.well_formed(),
            self.shards_queried == 0 ==> r == (Ratio { part: 1, whole: 1 }),
            self.shards_queried > 0 ==> r.part == self.shards_succeeded && r.whole == self.shards_queried,
    {
        if self.shards_queried == 0 {
            Ratio::whole_number(1)
        } else {
            Ratio { part: self.shards_succeeded as i128, whole: self.shards_queried as u128 }
        }
    }

    /// Whether every shard answered.
    pub fn is_complete(&self) -> (r: bool)
        ensures
            r == (self.shards_queried == self.shards_succeeded),
    {
        self.shards_queried == self.shards_succeeded
    }
}

/// How many results an answer says that it holds: the number in its first four bytes.
pub open spec fn counted(data: Seq<u8>) -> nat {
    if data.len() >= 4 {
        le_value(data.take(4))
    } else {
        0
    }
}

/// How many results an answer says that it holds.
pub fn result_count(data: &Vec<u8>) -> (r: usize)
    ensures
        r == counted(data@),
{
    if data.len() >= 4 {
        first_u32(data) as usize
    } else {
        0
    }
}

/// The shards that answered.
pub open spec fn ids(results: Seq<ShardResult>) -> Seq<ShardId> {
    Seq::new(results.len(), |i: int| results[i].shard_id)
}

/// The shards that answered.
pub fn shard_ids(results: &Vec<ShardResult>) -> (r: Vec<ShardId>)
    ensures
        r@ == ids(results@),
{
    let mut out: Vec<ShardId> = Vec::new();
    let mut i: usize = 0;
    while i < results.len()
        invariant
            i <= results.len(),
            out@ == ids(results@).take(i as int),
        decreases results.len() - i,
    {
        out.push(results[i].shard_id);
        i = i + 1;
        assert(out@ =~= ids(results@).take(i as int));
    }
    assert(ids(results@).take(i as int) =~= ids(results@));
    out
}

/// All answers, one after the other.
pub open spec fn concatenated(results: Seq<ShardResult>) -> Seq<u8>
    decreases results.len(),
{
    if results.len() == 0 {
        Seq::empty()
    } else {
        concatenated(results.drop_last()) + results.last().data@
    }
}

/// The first answer that is not empty.
pub open spec fn first_answer(results: Seq<ShardResult>) -> Seq<u8>
    decreases results.len(),
{
    if results.len() == 0 {
        Seq::empty()
    } else if first_answer(results.drop_last()).len() > 0 {
        first_answer(results.drop_last())
    } else {
        results.last().data@
    }
}

/// The longest answer; of several, the last one.
pub open spec fn longest(results: Seq<ShardResult>) -> Seq<u8>
    decreases results.len(),
{
    if results.len() == 0 {
        Seq::empty()
    } else if longest(results.drop_last()).len() > results.last().data@.len() {
        longest(results.drop_last())
    } else {
        results.last().data@
    }
}

/// The number in the first eight bytes of an answer.
pub open spec fn number_in(data: Seq<u8>) -> nat {
    if data.len() >= 8 {
        le_value(data.take(8))
    } else {
        0
    }
}

/// The numbers in the answers, added up.
pub open spec fn summed(results: Seq<ShardResult>) -> nat
    decreases results.len(),
{
    if results.len() == 0 {
        0
    } else {
        summed(results.drop_last()) + number_in(results.last().data@)
    }
}

/// The counts of the answers, added up.
pub open spec fn counts_summed(results: Seq<ShardResult>) -> nat
    decreases results.len(),
{
    if results.len() == 0 {
        0
    } else {
        counts_summed(results.drop_last()) + results.last().result_count as nat
    }
}

/// How many results there are; the count wraps around.
pub open spec fn total_count(results: Seq<ShardResult>) -> usize {
    (counts_summed(results) % (usize::MAX as nat + 1)) as usize
}

/// Answers with their shards: shard, length, answer.
pub open spec fn shard_parts(results: Seq<ShardResult>) -> Seq<u8>
    decreases results.len(),
{
    if results.len() == 0 {
        Seq::empty()
    } else {
        shard_parts(results.drop_last()) + (le_bytes(results.last().shard_id.0 as nat, 2)
            + le_bytes(results.last().data@.len(), 4) + results.last().data@)
    }
}

/// The answers, put together.
pub open spec fn aggregated(strategy: AggregationStrategy, results: Seq<ShardResult>) -> Seq<u8> {
    match strategy {
        AggregationStrategy::Concat => concatenated(results),
        AggregationStrategy::First => first_answer(results),
        AggregationStrategy::MergeNodes => longest(results),
        AggregationStrategy::Sum => le_bytes(summed(results) % 0x1_0000_0000_0000_0000, 8),
        AggregationStrategy::Count => le_bytes(total_count(results) as nat, 8),
        AggregationStrategy::ByShard => le_bytes(results.len(), 4) + shard_parts(results),
    }
}

/// Adding to a sum that has wrapped around gives the sum, wrapped around.
proof fn lemma_wrapped_sum(a: nat, b: nat, m: nat)
    requires
        m > 0,
        b < m,
    ensures
        (a + b) % m == (if a % m + b >= m {
            (a % m + b - m) as nat
        } else {
            a % m + b
        }),
{
    let q = (a / m) as int;
    let s = (a % m) as int;
    vstd::arithmetic::div_mod::lemma_fundamental_div_mod(a as int, m as int);
    assert(m as int * q == q * m as int) by (nonlinear_arith);
    if s + b >= m {
        assert((q + 1) * m as int == q * m as int + m as int) by (nonlinear_arith);
        vstd::arithmetic::div_mod::lemma_fundamental_div_mod_converse(
            a as int + b as int,
            m as int,
            q + 1,
            s + b as int - m as int,
        );
    } else {
        vstd::arithmetic::div_mod::lemma_fundamental_div_mod_converse(
            a as int + b as int,
            m as int,
            q,
            s + b as int,
        );
    }
}

/// All answers, one after the other.
fn concatenate(results: &Vec<ShardResult>) -> (r: Vec<u8>)
    ensures
        r@ == concatenated(results@),
{
    let mut out: Vec<u8> = Vec::new();
    assert(out@ =~= concatenated(results@.take(0)));
    let mut i: usize = 0;
    while i < results.len()
        invariant
            i <= results.len(),
            out@ == concatenated(results@.take(i as int)),
        decreases results.len() - i,
    {
        push_bytes(&mut out, results[i].data.as_slice());
        i = i + 1;
        assert(results@.take(i as int).drop_last() =~= results@.take(i - 1));
    }
    assert(results@.take(i as int) =~= results@);
    out
}

/// The first answer that is not empty.
fn find_first(results: &Vec<ShardResult>) -> (r: Vec<u8>)
    ensures
        r@ == first_answer(results@),
{
    let mut found: Option<usize> = None;
    let mut i: usize = 0;
    while i < results.len()
        invariant
            i <= results.len(),
            match found {
                Some(j) => {
                    &&& j < i
                    &&& results@[j as int].data@.len() > 0
                    &&& first_answer(results@.take(i as int)) == results@[j as int].data@
                },
                None => first_answer(results@.take(i as int)).len() == 0,
            },
        decreases results.len() - i,
    {
        if found.is_none() && results[i].data.len() > 0 {
            found = Some(i);
        }
        i = i + 1;
        assert(results@.take(i as int).drop_last() =~= results@.take(i - 1));
    }
    assert(results@.take(i as int) =~= results@);
    match found {
        Some(j) => copy_bytes(results[j].data.as_slice()),
        None => {
            let none: Vec<u8> = Vec::new();
            assert(none@ =~= first_answer(results@));
            none
        },
    }
}

/// The longest answer; of several, the last one.
fn find_longest(results: &Vec<ShardResult>) -> (r: Vec<u8>)
    ensures
        r@ == longest(results@),
{
    let mut best: usize = 0;
    let mut i: usize = 0;
    while i < results.len()
        invariant
            i <= results.len(),
            i > 0 ==> best < i && longest(results@.take(i as int)) == results@[best as int].data@,
            i == 0 ==> best == 0,
        decreases results.len() - i,
    {
        if i == 0 || results[best].data.len() <= results[i].data.len() {
            best = i;
        }
        i = i + 1;
        assert(results@.take(i as int).drop_last() =~= results@.take(i - 1));
        assert(i == 1 ==> longest(results@.take(0)).len() == 0);
    }
    assert(results@.take(i as int) =~= results@);
    if results.len() == 0 {
        let none: Vec<u8> = Vec::new();
        assert(none@ =~= longest(results@));
        none
    } else {
        copy_bytes(results[best].data.as_slice())
    }
}

/// The numbers in the answers, added up, wrapping around.
fn add_numbers(results: &Vec<ShardResult>) -> (r: u64)
    ensures
        r == summed(results@) % 0x1_0000_0000_0000_0000,
{
    let mut total: u64 = 0;
    let mut i: usize = 0;
    while i < results.len()
        invariant
            i <= results.len(),
            total == summed(results@.take(i as int)) % 0x1_0000_0000_0000_0000,
        decreases results.len() - i,
    {
        let value: u64 = if results[i].data.len() >= 8 {
            first_u64(&results[i].data)
        } else {
            0
        };
        proof {
            lemma_wrapped_sum(
                summed(results@.take(i as int)),
                value as nat,
                0x1_0000_0000_0000_0000,
            );
        }
        total = total.wrapping_add(value);
        i = i + 1;
        assert(results@.take(i as int).drop_last() =~= results@.take(i - 1));
    }
    assert(results@.take(i as int) =~= results@);
    total
}

/// How many results there are, wrapping around.
pub fn add_counts(results: &Vec<ShardResult>) -> (r: usize)
    ensures
        r == total_count(results@),
{
    let mut total: usize = 0;
    let mut i: usize = 0;
    proof {
        vstd::arithmetic::div_mod::lemma_small_mod(0, usize::MAX as nat + 1);
    }
    while i < results.len()
        invariant
            i <= results.len(),
            total == counts_summed(results@.take(i as int)) % (usize::MAX as nat + 1),
        decreases results.len() - i,
    {
        proof {
            lemma_wrapped_sum(
                counts_summed(results@.take(i as int)),
                results@[i as int].result_count as nat,
                usize::MAX as nat + 1,
            );
        }
        total = total.wrapping_add(results[i].result_count);
        i = i + 1;
        assert(results@.take(i as int).drop_last() =~= results@.take(i - 1));
    }
    assert(results@.take(i as int) =~= results@);
    total
}

/// Answers with their shards, and before them how many there are.
fn by_shard(results: &Vec<ShardResult>) -> (r: Vec<u8>)
    ensures
        r@ == le_bytes(results@.len(), 4) + shard_parts(results@),
{
    let mut out: Vec<u8> = Vec::new();
    push_le(&mut out, results.len() as u64, 4);
    let ghost head = le_bytes(results@.len(), 4);
    assert(out@ =~= head + shard_parts(results@.take(0)));
    let mut i: usize = 0;
    while i < results.len()
        invariant
            i <= results.len(),
            out@ == head + shard_parts(results@.take(i as int)),
        decreases results.len() - i,
    {
        push_le(&mut out, results[i].shard_id.0 as u64, 2);
        push_le(&mut out, results[i].data.len() as u64, 4);
        push_bytes(&mut out, results[i].data.as_slice());
        i = i + 1;
        assert(results@.take(i as int).drop_last() =~= results@.take(i - 1));
        assert(out@ =~= head + shard_parts(results@.take(i as int)));
    }
    assert(results@.take(i as int) =~= results@);
    out
}

/// Puts the answers together.
pub fn aggregate_results(strategy: AggregationStrategy, results: &Vec<ShardResult>) -> (r: Vec<u8>)
    ensures
        r@ == aggregated(strategy, results@),
{
    match strategy {
        AggregationStrategy::Concat => concatenate(results),
        AggregationStrategy::First => find_first(results),
        AggregationStrategy::MergeNodes => find_longest(results),
        AggregationStrategy::Sum => {
            let mut out: Vec<u8> = Vec::new();
            push_le(&mut out, add_numbers(results), 8);
            assert(out@ =~= aggregated(strategy, results@));
            out
        },
        AggregationStrategy::Count => {
            let mut out: Vec<u8> = Vec::new();
            push_le(&mut out, add_counts(results) as u64, 8);
            assert(out@ =~= aggregated(strategy, results@));
            out
        },
        AggregationStrategy::ByShard => by_shard(results),
    }
}

/// The longest answer is one of the answers, and none is longer.
pub proof fn law_longest(results: Seq<ShardResult>)
    requires
        results.len() > 0,
    ensures
        exists|i: int| 0 <= i < results.len() && (#[trigger] results[i]).data@ == longest(results),
        forall|i: int|
            0 <= i < results.len() ==> (#[trigger] results[i]).data@.len() <= longest(
                results,
            ).len(),
    decreases results.len(),
{
    let shorter = results.drop_last();
    if shorter.len() > 0 {
        law_longest(shorter);
        let i = choose|i: int|
            0 <= i < shorter.len() && (#[trigger] shorter[i]).data@ == longest(shorter);
        assert(results[i].data@ == longest(shorter));
        assert forall|j: int| 0 <= j < results.len() implies (#[trigger] results[j]).data@.len()
            <= longest(results).len() by {
            if j < shorter.len() {
                assert(shorter[j].data@.len() <= longest(shorter).len());
            }
        }
        assert(results[results.len() - 1] == results.last());
    } else {
        assert(results[0] == results.last());
        assert(longest(shorter).len() == 0);
    }
}

/// The first answer that is not empty: every answer before it is empty.
pub proof fn law_first_answer(results: Seq<ShardResult>)
    ensures
        first_answer(results).len() == 0 ==> forall|i: int|
            0 <= i < results.len() ==> (#[trigger] results[i]).data@.len() == 0,
        first_answer(results).len() > 0 ==> exists|i: int|
            {
                &&& 0 <= i < results.len()
                &&& (#[trigger] results[i]).data@ == first_answer(results)
                &&& forall|j: int| 0 <= j < i ==> (#[trigger] results[j]).data@.len() == 0
            },
    decreases results.len(),
{
    if results.len() > 0 {
        let shorter = results.drop_last();
        law_first_answer(shorter);
        if first_answer(shorter).len() > 0 {
            let i = choose|i: int|
                {
                    &&& 0 <= i < shorter.len()
                    &&& (#[trigger] shorter[i]).data@ == first_answer(shorter)
                    &&& forall|j: int| 0 <= j < i ==> (#[trigger] shorter[j]).data@.len() == 0
                };
            assert(results[i].data@ == first_answer(results));
            assert forall|j: int| 0 <= j < i implies (#[trigger] results[j]).data@.len() == 0 by {
                assert(shorter[j].data@.len() == 0);
            }
        } else {
            assert forall|j: int| 0 <= j < results.len() - 1 implies (
            #[trigger] results[j]).data@.len() == 0 by {
                assert(shorter[j].data@.len() == 0);
            }
            assert(results[results.len() - 1] == results.last());
        }
    }
}

/// Of the longest answers the last one is taken: every later answer is shorter.
pub proof fn law_last_of_the_longest(results: Seq<ShardResult>, at: int)
    requires
        0 <= at < results.len(),
        forall|i: int|
            0 <= i < at ==> (#[trigger] results[i]).data@.len() <= results[at].data@.len(),
        forall|i: int|
            at < i < results.len() ==> (#[trigger] results[i]).data@.len() < results[at].data@.len(),
    ensures
        aggregated(AggregationStrategy::MergeNodes, results) == results[at].data@,
    decreases results.len(),
{
    let shorter = results.drop_last();
    if at < shorter.len() {
        assert forall|i: int| 0 <= i < shorter.len() implies shorter[i] == #[trigger] results[i] by {}
        assert(shorter[at] == results[at]);
        law_last_of_the_longest(shorter, at);
        assert(results[results.len() - 1].data@.len() < results[at].data@.len());
    } else if shorter.len() > 0 {
        law_longest(shorter);
        let i = choose|i: int|
            0 <= i < shorter.len() && (#[trigger] shorter[i]).data@ == longest(shorter);
        assert(results[i].data@.len() <= results[at].data@.len());
    } else {
        assert(longest(shorter).len() == 0);
    }
}

/// The first answer that is not empty is taken, and nothing where every answer is empty.
pub proof fn law_first_that_is_not_empty(results: Seq<ShardResult>, at: int)
    requires
        0 <= at <= results.len(),
        forall|i: int| 0 <= i < at ==> (#[trigger] results[i]).data@.len() == 0,
        at < results.len() ==> results[at].data@.len() > 0,
    ensures
        aggregated(AggregationStrategy::First, results) == (if at < results.len() {
            results[at].data@
        } else {
            Seq::empty()
        }),
{
    law_first_answer(results);
    if at < results.len() {
        assert(first_answer(results).len() > 0);
    } else if first_answer(results).len() > 0 {
        let i = choose|i: int|
            {
                &&& 0 <= i < results.len()
                &&& (#[trigger] results[i]).data@ == first_answer(results)
                &&& forall|j: int| 0 <= j < i ==> (#[trigger] results[j]).data@.len() == 0
            };
        assert(results[i].data@.len() == 0);
    }
    assert(at == results.len() ==> first_answer(results) =~= Seq::empty());
}

/// Concatenated answers stand in their order: those of a list that is cut in two are those of its
/// first part, then those of its second, and a single answer stands as it is.
pub proof fn law_concatenation_splits(a: Seq<ShardResult>, b: Seq<ShardResult>, one: ShardResult)
    ensures
        aggregated(AggregationStrategy::Concat, a + b) == aggregated(AggregationStrategy::Concat, a)
            + aggregated(AggregationStrategy::Concat, b),
        aggregated(AggregationStrategy::Concat, seq![one]) == one.data@,
        aggregated(AggregationStrategy::Concat, Seq::empty()) == Seq::<u8>::empty(),
    decreases b.len(),
{
    assert(seq![one].drop_last() =~= Seq::<ShardResult>::empty());
    assert(concatenated(Seq::<ShardResult>::empty()) =~= Seq::<u8>::empty());
    assert(concatenated(seq![one]) =~= one.data@);
    if b.len() == 0 {
        assert(a + b =~= a);
        assert(concatenated(a) + concatenated(b) =~= concatenated(a));
    } else {
        law_concatenation_splits(a, b.drop_last(), one);
        assert((a + b).drop_last() =~= a + b.drop_last());
        assert(concatenated(a + b) =~= concatenated(a) + concatenated(b));
    }
}

/// What a list of numbers adds up to.
pub open spec fn total_of(numbers: Seq<nat>) -> nat {
    numbers.fold_left(0nat, |so_far: nat, n: nat| so_far + n)
}

proof fn lemma_total_of_last(numbers: Seq<nat>)
    requires
        numbers.len() > 0,
    ensures
        total_of(numbers) == total_of(numbers.drop_last()) + numbers.last(),
{
    reveal(Seq::fold_left);
}

proof fn lemma_summed(results: Seq<ShardResult>, numbers: Seq<nat>)
    requires
        results.len() == numbers.len(),
        forall|i: int| 0 <= i < numbers.len() ==> #[trigger] numbers[i] < 0x1_0000_0000_0000_0000,
        forall|i: int|
            0 <= i < results.len() ==> (#[trigger] results[i]).data@ == le_bytes(numbers[i], 8),
    ensures
        summed(results) == total_of(numbers),
    decreases results.len(),
{
    if results.len() == 0 {
        reveal(Seq::fold_left);
    } else {
        let last = results.len() - 1;
        assert forall|i: int| 0 <= i < last implies (
        #[trigger] results.drop_last()[i]).data@ == le_bytes(numbers.drop_last()[i], 8) by {
            assert(results.drop_last()[i] == results[i]);
        }
        lemma_summed(results.drop_last(), numbers.drop_last());
        lemma_total_of_last(numbers);
        assert(results[last].data@ == le_bytes(numbers[last], 8));
        reveal_with_fuel(crate::sharding::wire::le_range, 9);
        crate::sharding::wire::law_le_round_trip(numbers[last], 8);
        assert(results[last].data@.take(8) =~= results[last].data@);
    }
}

/// The sum of the answers is the sum of their numbers: where each answer is a number in eight bytes
/// and the numbers add up to one that fits eight bytes, the sum is that number in eight bytes.
/// Where they add up to more, it is what is left of that number in eight bytes. A single answer is
/// its own sum.
pub proof fn law_sum_is_the_sum_of_numbers(results: Seq<ShardResult>, numbers: Seq<nat>)
    requires
        results.len() == numbers.len(),
        forall|i: int| 0 <= i < numbers.len() ==> #[trigger] numbers[i] < 0x1_0000_0000_0000_0000,
        forall|i: int|
            0 <= i < results.len() ==> (#[trigger] results[i]).data@ == le_bytes(numbers[i], 8),
    ensures
        aggregated(AggregationStrategy::Sum, results) == le_bytes(
            total_of(numbers) % 0x1_0000_0000_0000_0000,
            8,
        ),
        total_of(numbers) < 0x1_0000_0000_0000_0000 ==> aggregated(
            AggregationStrategy::Sum,
            results,
        ) == le_bytes(total_of(numbers), 8),
        results.len() == 1 ==> aggregated(AggregationStrategy::Sum, results) == results[0].data@,
{
    lemma_summed(results, numbers);
    if results.len() == 1 {
        lemma_total_of_last(numbers);
        assert(total_of(numbers.drop_last()) == 0) by {
            reveal(Seq::fold_left);
        }
        assert(numbers.last() == numbers[0]);
        assert(results[0].data@ == le_bytes(numbers[0], 8));
    }
}

/// An answer counts by its first eight bytes alone, and not at all where it has fewer.
pub proof fn law_sum_reads_eight_bytes(results: Seq<ShardResult>, longer: ShardResult, bare: ShardResult)
    requires
        bare.data@ == (if longer.data@.len() >= 8 {
            longer.data@.take(8)
        } else {
            le_bytes(0, 8)
        }),
    ensures
        aggregated(AggregationStrategy::Sum, results.push(longer)) == aggregated(
            AggregationStrategy::Sum,
            results.push(bare),
        ),
{
    assert(results.push(longer).drop_last() =~= results);
    assert(results.push(bare).drop_last() =~= results);
    reveal_with_fuel(crate::sharding::wire::le_range, 9);
    crate::sharding::wire::law_le_round_trip(0, 8);
    assert(bare.data@.take(8) =~= bare.data@);
}

proof fn lemma_counts(results: Seq<ShardResult>)
    ensures
        counts_summed(results) == total_of(results.map_values(|r: ShardResult| r.result_count as nat)),
    decreases results.len(),
{
    let counts = results.map_values(|r: ShardResult| r.result_count as nat);
    if results.len() == 0 {
        reveal(Seq::fold_left);
    } else {
        lemma_counts(results.drop_last());
        lemma_total_of_last(counts);
        assert(counts.drop_last() =~= results.drop_last().map_values(
            |r: ShardResult| r.result_count as nat,
        ));
    }
}

/// The count of the answers is the sum of the counts of each, where that fits a count, and what is
/// left of it once it has wrapped around where it does not.
pub proof fn law_count_is_the_sum_of_counts(results: Seq<ShardResult>)
    ensures
        ({
            let total = total_of(results.map_values(|r: ShardResult| r.result_count as nat));
            &&& total <= usize::MAX ==> aggregated(AggregationStrategy::Count, results) == le_bytes(
                total,
                8,
            ) && total_count(results) == total
            &&& total_count(results) == total % (usize::MAX as nat + 1)
        }),
{
    lemma_counts(results);
    let total = total_of(results.map_values(|r: ShardResult| r.result_count as nat));
    if total <= usize::MAX {
        vstd::arithmetic::div_mod::lemma_small_mod(total, usize::MAX as nat + 1);
    }
}

/// An answer counts for the number in its first four bytes, and for none where it has fewer.
pub proof fn law_answer_counts_its_first_number(n: nat, rest: Seq<u8>, short: Seq<u8>)
    requires
        n < 0x1_0000_0000,
        short.len() < 4,
    ensures
        counted(le_bytes(n, 4) + rest) == n,
        counted(short) == 0,
{
    reveal_with_fuel(crate::sharding::wire::le_range, 5);
    crate::sharding::wire::law_le_round_trip(n, 4);
    assert((le_bytes(n, 4) + rest).take(4) =~= le_bytes(n, 4));
}

proof fn lemma_by_shard_parts(s: Seq<ShardResult>)
    ensures
        aggregated(AggregationStrategy::ByShard, s).take(4) == le_bytes(s.len(), 4),
        aggregated(AggregationStrategy::ByShard, s).skip(4) == shard_parts(s),
{
    crate::sharding::wire::lemma_le_len(s.len(), 4);
    let whole = aggregated(AggregationStrategy::ByShard, s);
    assert(whole.skip(4) =~= shard_parts(s));
    assert(whole.take(4) =~= le_bytes(s.len(), 4));
}

proof fn lemma_shard_parts_split(a: Seq<ShardResult>, b: Seq<ShardResult>)
    ensures
        shard_parts(a + b) == shard_parts(a) + shard_parts(b),
    decreases b.len(),
{
    if b.len() == 0 {
        assert(a + b =~= a);
        assert(shard_parts(a) + shard_parts(b) =~= shard_parts(a));
    } else {
        lemma_shard_parts_split(a, b.drop_last());
        assert((a + b).drop_last() =~= a + b.drop_last());
        assert(shard_parts(a + b) =~= shard_parts(a) + shard_parts(b));
    }
}

/// Answers by shard can be told apart again: behind the number of answers each one stands in its
/// order, as its shard in two bytes, its length in four and its bytes.
pub proof fn law_answers_by_shard_split(a: Seq<ShardResult>, b: Seq<ShardResult>, one: ShardResult)
    ensures
        ({
            let head = |s: Seq<ShardResult>| aggregated(AggregationStrategy::ByShard, s).take(4);
            let rest = |s: Seq<ShardResult>| aggregated(AggregationStrategy::ByShard, s).skip(4);
            &&& head(a + b) == le_bytes(a.len() + b.len(), 4)
            &&& rest(a + b) == rest(a) + rest(b)
            &&& rest(seq![one]) == le_bytes(one.shard_id.0 as nat, 2) + le_bytes(
                one.data@.len(),
                4,
            ) + one.data@
        }),
{
    lemma_by_shard_parts(a + b);
    lemma_by_shard_parts(a);
    lemma_by_shard_parts(b);
    lemma_by_shard_parts(seq![one]);
    lemma_shard_parts_split(a, b);
    assert(seq![one].drop_last() =~= Seq::<ShardResult>::empty());
    assert(shard_parts(Seq::<ShardResult>::empty()) =~= Seq::<u8>::empty());
    assert(shard_parts(seq![one]) =~= le_bytes(one.shard_id.0 as nat, 2) + le_bytes(
        one.data@.len(),
        4,
    ) + one.data@);
}

/// The shards that answered are those of the answers, one for each, in their order.
pub proof fn law_shards_of_the_answers(results: Seq<ShardResult>, i: int)
    requires
        0 <= i < results.len(),
    ensures
        ids(results).len() == results.len(),
        ids(results)[i] == results[i].shard_id,
{
}

/// Messages name the query in full: errors that differ in the query alone have different messages.
pub proof fn law_messages_name_the_query(
    a: u64,
    b: u64,
    failures: Vec<(ShardId, NetworkError)>,
    shards: Vec<ShardId>,
    pending: Vec<ShardId>,
    timeout: Duration,
)
    requires
        a != b,
    ensures
        (ExecutorError::AllShardsFailed { query_id: a, failures }).spec_message() != (
        ExecutorError::AllShardsFailed { query_id: b, failures }).spec_message(),
        (ExecutorError::Timeout { query_id: a, timeout, responded: shards, pending }).spec_message() != (
        ExecutorError::Timeout { query_id: b, timeout, responded: shards, pending }).spec_message(),
        (ExecutorError::PartialFailure { query_id: a, successes: shards, failures }).spec_message() != (
        ExecutorError::PartialFailure { query_id: b, successes: shards, failures }).spec_message(),
{
    let n = failures@.len();
    let all = " failed on all "@ + decimal(n) + " shards"@;
    let late = " timed out after "@ + timeout.spec_text() + " ("@ + decimal(shards@.len())
        + " responded, "@ + decimal(pending@.len()) + " pending)"@;
    let some = " partially failed ("@ + decimal(shards@.len()) + " succeeded, "@ + decimal(n)
        + " failed)"@;
    lemma_numbers_apart("Query "@, a as nat, b as nat, all);
    lemma_numbers_apart("Query "@, a as nat, b as nat, late);
    lemma_numbers_apart("Query "@, a as nat, b as nat, some);
    assert forall|q: u64|
        #![trigger decimal(q as nat)]
        {
            &&& (ExecutorError::AllShardsFailed { query_id: q, failures }).spec_message() =~= "Query "@
                + decimal(q as nat) + all
            &&& (ExecutorError::Timeout { query_id: q, timeout, responded: shards, pending }).spec_message()
                =~= "Query "@ + decimal(q as nat) + late
            &&& (ExecutorError::PartialFailure { query_id: q, successes: shards, failures }).spec_message()
                =~= "Query "@ + decimal(q as nat) + some
        } by {}
}

/// Messages tell how many shards there were: errors that differ in how many failed, answered or are
/// pending have different messages.
pub proof fn law_messages_tell_how_many(
    query_id: u64,
    x: Vec<(ShardId, NetworkError)>,
    y: Vec<(ShardId, NetworkError)>,
    s: Vec<ShardId>,
    t: Vec<ShardId>,
    other: Vec<ShardId>,
    timeout: Duration,
)
    ensures
        x@.len() != y@.len() ==> (ExecutorError::AllShardsFailed { query_id, failures: x }).spec_message()
            != (ExecutorError::AllShardsFailed { query_id, failures: y }).spec_message(),
        x@.len() != y@.len() ==> (ExecutorError::PartialFailure {
            query_id,
            successes: s,
            failures: x,
        }).spec_message() != (ExecutorError::PartialFailure { query_id, successes: s, failures: y })
            .spec_message(),
        s@.len() != t@.len() ==> (ExecutorError::PartialFailure {
            query_id,
            successes: s,
            failures: x,
        }).spec_message() != (ExecutorError::PartialFailure { query_id, successes: t, failures: x })
            .spec_message(),
        s@.len() != t@.len() ==> (ExecutorError::Timeout {
            query_id,
            timeout,
            responded: other,
            pending: s,
        }).spec_message() != (ExecutorError::Timeout { query_id, timeout, responded: other, pending: t })
            .spec_message(),
        s@.len() != t@.len() ==> (ExecutorError::Timeout {
            query_id,
            timeout,
            responded: s,
            pending: other,
        }).spec_message() != (ExecutorError::Timeout { query_id, timeout, responded: t, pending: other })
            .spec_message(),
{
    let q = "Query "@ + decimal(query_id as nat);
    let late = q + " timed out after "@ + timeout.spec_text() + " ("@;
    lemma_numbers_apart(q + " failed on all "@, x@.len(), y@.len(), " shards"@);
    let some = q + " partially failed ("@;
    lemma_numbers_apart(
        some + decimal(s@.len()) + " succeeded, "@,
        x@.len(),
        y@.len(),
        " failed)"@,
    );
    let rest = " succeeded, "@ + decimal(x@.len()) + " failed)"@;
    lemma_numbers_apart(some, s@.len(), t@.len(), rest);
    assert(some + decimal(s@.len()) + " succeeded, "@ + decimal(x@.len()) + " failed)"@ =~= some + decimal(
        s@.len(),
    ) + rest);
    assert(some + decimal(t@.len()) + " succeeded, "@ + decimal(x@.len()) + " failed)"@ =~= some + decimal(
        t@.len(),
    ) + rest);
    lemma_numbers_apart(
        late + decimal(other@.len()) + " responded, "@,
        s@.len(),
        t@.len(),
        " pending)"@,
    );
    let rest = " responded, "@ + decimal(other@.len()) + " pending)"@;
    lemma_numbers_apart(late, s@.len(), t@.len(), rest);
    assert(late + decimal(s@.len()) + " responded, "@ + decimal(other@.len()) + " pending)"@ =~= late
        + decimal(s@.len()) + rest);
    assert(late + decimal(t@.len()) + " responded, "@ + decimal(other@.len()) + " pending)"@ =~= late
        + decimal(t@.len()) + rest);
}

proof fn lemma_numbers_apart(before: Seq<char>, a: nat, b: nat, after: Seq<char>)
    ensures
        before + decimal(a) + after == before + decimal(b) + after ==> a == b,
{
    if before + decimal(a) + after == before + decimal(b) + after {
        crate::text::lemma_same_middle(before, decimal(a), decimal(b), after);
        crate::text::law_decimals_tell_numbers_apart(a, b);
    }
}

} // verus!

//! Asking several shards in turn and putting their answers together.

use crate::counting::next_u64;
use crate::ids::{NodeId, ShardId};
use crate::maps::{keys_of, lists_keys};
use crate::ratio::Ratio;
use crate::sharding::mock::{Method, MockShardClient};
use crate::sharding::network::{NetworkError, NetworkResult, ShardClient};
use crate::sharding::query::{
    add_counts, aggregate_results, aggregated, counted, ids, result_count, shard_ids, total_count,
    AggregationStrategy, DistributedQuery, ExecutorError, ExecutorResult, QueryResult, ShardResult,
};
use crate::sharding::router::{
    plan_wire, planned, serialize_plan, str_texts, ShardRouter, TraversalPlan,
};
use crate::time::{clock_now, time_since, Duration};
use std::collections::HashMap;
use vstd::prelude::*;

verus! {

broadcast use vstd::std_specs::hash::group_hash_axioms;

/// How queries are run.
#[derive(Clone, Copy, Debug)]
pub struct ExecutorConfig {
    /// The time that a query has, unless it says otherwise.
    pub default_timeout: Duration,
    /// How many queries a shard may be asked at once.
    pub max_concurrent_per_shard: usize,
    /// Whether the answers of some shards will do.
    pub allow_partial_results: bool,
    /// Whether a shard that failed is asked again.
    pub retry_failed_shards: bool,
    /// How often.
    pub max_retries: usize,
}

impl ExecutorConfig {
    /// How often a shard that fails is asked again.
    pub open spec fn retries(self) -> nat {
        if self.retry_failed_shards {
            self.max_retries as nat
        } else {
            0
        }
    }

    /// What a query does next, `elapsed` after it began, once `done` of its `total` targets were
    /// asked. `failed` says whether the target that was asked last failed, and `retried` how often
    /// it was asked again.
    pub open spec fn step_after(
        self,
        elapsed: Duration,
        timeout: Duration,
        done: nat,
        total: nat,
        failed: bool,
        retried: nat,
    ) -> Step {
        if failed && retried < self.retries() && elapsed.nanos < timeout.nanos {
            Step::AskAgain
        } else if done < total && elapsed.nanos < timeout.nanos {
            Step::AskNext
        } else {
            Step::Conclude
        }
    }

    /// What a query does next: a target that failed is asked again, if it may be asked that often;
    /// otherwise the next target is asked; and the query is concluded once all were, or once its
    /// time has passed.
    pub fn next_step(
        &self,
        elapsed: Duration,
        timeout: Duration,
        done: usize,
        total: usize,
        failed: bool,
        retried: usize,
    ) -> (r: Step)
        ensures
            r == self.step_after(
                elapsed,
                timeout,
                done as nat,
                total as nat,
                failed,
                retried as nat,
            ),
    {
        let in_time: bool = elapsed.nanos < timeout.nanos;
        if failed && self.retry_failed_shards && retried < self.max_retries && in_time {
            Step::AskAgain
        } else if done < total && in_time {
            Step::AskNext
        } else {
            Step::Conclude
        }
    }
}

/// What a query does next.
#[derive(Clone, Copy, Debug, PartialEq, Eq, Structural)]
pub enum Step {
    /// Asks the next target.
    AskNext,
    /// Asks the target that was asked last once more.
    AskAgain,
    /// Puts the answers together.
    Conclude,
}

impl Default for ExecutorConfig {
    /// Half a minute, a hundred queries at once, no partial results, two retries.
    fn default() -> (r: ExecutorConfig)
        ensures
            r.default_timeout.nanos == 30_000_000_000,
            r.max_concurrent_per_shard == 100,
            !r.allow_partial_results,
            r.retry_failed_shards,
            r.max_retries == 2,
    {
        ExecutorConfig {
            default_timeout: Duration::from_secs(30),
            max_concurrent_per_shard: 100,
            allow_partial_results: false,
            retry_failed_shards: true,
            max_retries: 2,
        }
    }
}

/// What an executor has done.
#[derive(Clone, Copy, Debug)]
pub struct ExecutorStats {
    /// How many queries gave a result.
    pub queries_executed: u64,
    /// How many failed.
    pub queries_failed: u64,
    /// How many shards have a client.
    pub registered_clients: usize,
}

impl ExecutorStats {
    /// The part of all queries that gave a result. One if there were none.
    pub fn success_rate(&self) -> (r: Ratio)
        ensures
            r.well_formed(),
            self.queries_executed + self.queries_failed == 0 ==> r == (Ratio {
                part: 1,
                whole: 1,
            }),
            self.queries_executed + self.queries_failed > 0 ==> r.part == self.queries_executed
                && r.whole == self.queries_executed + self.queries_failed,
    {
        let total: u128 = self.queries_executed as u128 + self.queries_failed as u128;
        if total == 0 {
            Ratio::whole_number(1)
        } else {
            Ratio { part: self.queries_executed as i128, whole: total }
        }
    }
}

/// Runs queries. Its counts wrap around.
pub struct QueryExecutor<C: ShardClient> {
    /// How queries are run.
    pub config: ExecutorConfig,
    /// The clients, by the number of their shard.
    pub clients: HashMap<u16, C>,
    /// Knows which shards a traversal involves.
    pub router: ShardRouter,
    /// The number of the next query.
    pub next_query: u64,
    /// How many queries gave a result.
    pub queries_executed: u64,
    /// How many failed.
    pub queries_failed: u64,
}

/// What becomes of a client's reply.
pub open spec fn result_of(
    shard: ShardId,
    reply: NetworkResult<Vec<u8>>,
    outcome: NetworkResult<ShardResult>,
) -> bool {
    match (reply, outcome) {
        (Ok(data), Ok(result)) => {
            &&& result.shard_id == shard
            &&& result.data == data
            &&& result.result_count == counted(data@)
        },
        (Err(e), Err(f)) => e == f,
        _ => false,
    }
}

/// One shard was asked once: a shard without a client is unavailable; otherwise its client got the
/// query.
pub open spec fn asked<C: ShardClient>(
    clients: Map<u16, C>,
    query: DistributedQuery,
    shard: ShardId,
    after: Map<u16, C>,
    outcome: NetworkResult<ShardResult>,
) -> bool {
    if clients.contains_key(shard.0) {
        exists|client: C, reply: NetworkResult<Vec<u8>>|
            {
                &&& #[trigger] clients[shard.0].may_answer(query.id, query.data@, &client, reply)
                &&& after == clients.insert(shard.0, client)
                &&& result_of(shard, reply, outcome)
            }
    } else {
        &&& outcome == Err::<ShardResult, NetworkError>(NetworkError::ShardUnavailable(shard))
        &&& after == clients
    }
}

/// How far a query has come.
pub struct Course<C> {
    /// The clients, by the number of their shard.
    pub clients: Map<u16, C>,
    /// What each target that was asked said last.
    pub outcomes: Seq<NetworkResult<ShardResult>>,
    /// How often the target that was asked last was asked again.
    pub retried: nat,
}

impl<C: ShardClient> Course<C> {
    /// No target was asked yet.
    pub open spec fn begun(clients: Map<u16, C>) -> Course<C> {
        Course { clients, outcomes: Seq::empty(), retried: 0 }
    }

    /// The target that was asked last failed.
    pub open spec fn failed(self) -> bool {
        self.outcomes.len() > 0 && self.outcomes.last() is Err
    }

    /// What comes next, at a given time.
    pub open spec fn step(
        self,
        config: ExecutorConfig,
        elapsed: Duration,
        timeout: Duration,
        targets: Seq<ShardId>,
    ) -> Step {
        config.step_after(
            elapsed,
            timeout,
            self.outcomes.len(),
            targets.len(),
            self.failed(),
            self.retried,
        )
    }

    /// One step leads on: a target is asked, for the first time or once more.
    pub open spec fn leads_to(
        self,
        step: Step,
        query: DistributedQuery,
        targets: Seq<ShardId>,
        after: Course<C>,
    ) -> bool {
        let n = self.outcomes.len() as int;
        match step {
            Step::AskNext => {
                &&& after.outcomes.len() == n + 1
                &&& after.outcomes.drop_last() == self.outcomes
                &&& after.retried == 0
                &&& asked(self.clients, query, targets[n], after.clients, after.outcomes.last())
            },
            Step::AskAgain => {
                &&& after.outcomes.len() == n
                &&& after.outcomes.drop_last() == self.outcomes.drop_last()
                &&& after.retried == self.retried + 1
                &&& asked(
                    self.clients,
                    query,
                    targets[n - 1],
                    after.clients,
                    after.outcomes.last(),
                )
            },
            Step::Conclude => false,
        }
    }
}

/// The i-th step led on from the i-th course, as the i-th time decided.
pub open spec fn stepped<C: ShardClient>(
    config: ExecutorConfig,
    query: DistributedQuery,
    timeout: Duration,
    targets: Seq<ShardId>,
    courses: Seq<Course<C>>,
    times: Seq<Duration>,
    i: int,
) -> bool {
    courses[i].leads_to(
        courses[i].step(config, times[i], timeout, targets),
        query,
        targets,
        courses[i + 1],
    )
}

/// The query went through these courses, each step being decided by the time that had passed before
/// it.
pub open spec fn went<C: ShardClient>(
    config: ExecutorConfig,
    query: DistributedQuery,
    timeout: Duration,
    targets: Seq<ShardId>,
    courses: Seq<Course<C>>,
    times: Seq<Duration>,
) -> bool {
    &&& courses.len() >= 1
    &&& times.len() >= courses.len() - 1
    &&& courses[0] == Course::begun(courses[0].clients)
    &&& forall|i: int|
        0 <= i < courses.len() - 1 ==> #[trigger] stepped(
            config,
            query,
            timeout,
            targets,
            courses,
            times,
            i,
        )
}

/// One more step leads on.
proof fn lemma_went_on<C: ShardClient>(
    config: ExecutorConfig,
    query: DistributedQuery,
    timeout: Duration,
    targets: Seq<ShardId>,
    courses: Seq<Course<C>>,
    times: Seq<Duration>,
    next: Course<C>,
)
    requires
        went(config, query, timeout, targets, courses, times),
        times.len() == courses.len(),
        courses.last().leads_to(
            courses.last().step(config, times.last(), timeout, targets),
            query,
            targets,
            next,
        ),
    ensures
        went(config, query, timeout, targets, courses.push(next), times),
{
    let longer = courses.push(next);
    assert forall|i: int| 0 <= i < longer.len() - 1 implies #[trigger] stepped(
        config,
        query,
        timeout,
        targets,
        longer,
        times,
        i,
    ) by {
        if i < courses.len() - 1 {
            assert(stepped(config, query, timeout, targets, courses, times, i));
        }
    }
}

/// A later time changes nothing about the steps that were made.
proof fn lemma_time_passed<C: ShardClient>(
    config: ExecutorConfig,
    query: DistributedQuery,
    timeout: Duration,
    targets: Seq<ShardId>,
    courses: Seq<Course<C>>,
    times: Seq<Duration>,
    now: Duration,
)
    requires
        went(config, query, timeout, targets, courses, times),
    ensures
        went(config, query, timeout, targets, courses, times.push(now)),
{
    let longer = times.push(now);
    assert forall|i: int| 0 <= i < courses.len() - 1 implies #[trigger] stepped(
        config,
        query,
        timeout,
        targets,
        courses,
        longer,
        i,
    ) by {
        assert(stepped(config, query, timeout, targets, courses, times, i));
    }
}

/// The answers among the outcomes, in order.
pub open spec fn answers(outcomes: Seq<NetworkResult<ShardResult>>) -> Seq<ShardResult>
    decreases outcomes.len(),
{
    if outcomes.len() == 0 {
        Seq::empty()
    } else {
        match outcomes.last() {
            Ok(result) => answers(outcomes.drop_last()).push(result),
            Err(_) => answers(outcomes.drop_last()),
        }
    }
}

/// The failures among the outcomes, in order, each with its shard.
pub open spec fn failures_of(
    targets: Seq<ShardId>,
    outcomes: Seq<NetworkResult<ShardResult>>,
) -> Seq<(ShardId, NetworkError)>
    decreases outcomes.len(),
{
    if outcomes.len() == 0 {
        Seq::empty()
    } else {
        match outcomes.last() {
            Ok(_) => failures_of(targets, outcomes.drop_last()),
            Err(error) => failures_of(targets, outcomes.drop_last()).push(
                (targets[outcomes.len() - 1], error),
            ),
        }
    }
}

/// How a query ends, once the first `done` of its targets were asked. A query that was cut short
/// times out, unless partial results will do and there are some; the targets that were not asked
/// yet are pending. Without an answer all shards have failed. With some failures the query fails,
/// unless partial results will do.
pub open spec fn ending(
    allow_partial: bool,
    query: DistributedQuery,
    timeout: Duration,
    targets: Seq<ShardId>,
    results: Seq<ShardResult>,
    failures: Seq<(ShardId, NetworkError)>,
    done: int,
    r: ExecutorResult<QueryResult>,
) -> bool {
    if done < targets.len() && !(allow_partial && results.len() > 0) {
        &&& r matches Err(ExecutorError::Timeout { query_id, timeout: t, responded, pending })
        &&& query_id == query.id
        &&& t == timeout
        &&& responded@ == ids(results)
        &&& pending@ == targets.skip(done)
    } else if results.len() == 0 {
        &&& r matches Err(ExecutorError::AllShardsFailed { query_id, failures: f })
        &&& query_id == query.id
        &&& f@ == failures
    } else if failures.len() > 0 && !allow_partial {
        &&& r matches Err(ExecutorError::PartialFailure { query_id, successes, failures: f })
        &&& query_id == query.id
        &&& successes@ == ids(results)
        &&& f@ == failures
    } else {
        &&& r matches Ok(result)
        &&& result.query_id == query.id
        &&& result.data@ == aggregated(query.aggregation, results)
        &&& result.shard_results@ == results
        &&& result.shards_queried == targets.len()
        &&& result.shards_succeeded == results.len()
        &&& result.total_results == total_count(results)
    }
}

/// The targets from a given one on.
fn targets_from(targets: &Vec<ShardId>, done: usize) -> (r: Vec<ShardId>)
    requires
        done <= targets@.len(),
    ensures
        r@ == targets@.skip(done as int),
{
    let mut out: Vec<ShardId> = Vec::new();
    let mut i: usize = done;
    while i < targets.len()
        invariant
            done <= i <= targets.len(),
            out@ == targets@.subrange(done as int, i as int),
        decreases targets.len() - i,
    {
        out.push(targets[i]);
        i = i + 1;
        assert(out@ =~= targets@.subrange(done as int, i as int));
    }
    out
}

/// The clock may have told all of these times.
pub open spec fn told_by<F: Fn() -> Duration>(clock: F, times: Seq<Duration>) -> bool {
    forall|i: int| 0 <= i < times.len() ==> call_ensures(clock, (), #[trigger] times[i])
}

/// What was said is sorted into answers and failures; a failure of the target that was asked last
/// is kept apart, since it may pass.
spec fn sorted_out(
    targets: Seq<ShardId>,
    outcomes: Seq<NetworkResult<ShardResult>>,
    failure: Option<NetworkError>,
    results: Seq<ShardResult>,
    failures: Seq<(ShardId, NetworkError)>,
) -> bool {
    match failure {
        Some(error) => {
            &&& outcomes.len() > 0
            &&& outcomes.last() == Err::<ShardResult, NetworkError>(error)
            &&& results == answers(outcomes.drop_last())
            &&& failures == failures_of(targets, outcomes.drop_last())
        },
        None => {
            &&& outcomes.len() > 0 ==> outcomes.last() is Ok
            &&& results == answers(outcomes)
            &&& failures == failures_of(targets, outcomes)
        },
    }
}

impl<C: ShardClient> QueryExecutor<C> {
    /// The executor with other clients.
    pub open spec fn same_but_clients(self, other: QueryExecutor<C>) -> bool {
        self == (QueryExecutor { clients: self.clients, ..other })
    }

    /// The executor after a query that ended so: failures other than a timeout are counted, and so
    /// are results.
    pub open spec fn metered(self, r: ExecutorResult<QueryResult>, other: QueryExecutor<C>) -> bool {
        match r {
            Ok(_) => other == (QueryExecutor {
                queries_executed: next_u64(self.queries_executed),
                ..self
            }),
            Err(ExecutorError::AllShardsFailed { .. }) => other == (QueryExecutor {
                queries_failed: next_u64(self.queries_failed),
                ..self
            }),
            Err(ExecutorError::PartialFailure { .. }) => other == (QueryExecutor {
                queries_failed: next_u64(self.queries_failed),
                ..self
            }),
            Err(_) => other == self,
        }
    }

    /// An executor without clients.
    pub fn new(config: ExecutorConfig, router: ShardRouter) -> (r: QueryExecutor<C>)
        ensures
            r.config == config,
            r.clients@.is_empty(),
            r.router == router,
            r.next_query == 1,
            r.queries_executed == 0,
            r.queries_failed == 0,
    {
        QueryExecutor {
            config,
            clients: HashMap::new(),
            router,
            next_query: 1,
            queries_executed: 0,
            queries_failed: 0,
        }
    }

    /// Gives a shard a client.
    pub fn register_client(&mut self, shard_id: ShardId, client: C)
        ensures
            final(self).clients@ == old(self).clients@.insert(shard_id.0, client),
            final(self).same_but_clients(*old(self)),
    {
        self.clients.insert(shard_id.0, client);
    }

    /// Takes a shard's client away.
    pub fn unregister_client(&mut self, shard_id: ShardId)
        ensures
            final(self).clients@ == old(self).clients@.remove(shard_id.0),
            final(self).same_but_clients(*old(self)),
    {
        self.clients.remove(&shard_id.0);
    }

    /// The client of a shard.
    pub fn client(&self, shard_id: ShardId) -> (r: Option<&C>)
        ensures
            r == (if self.clients@.contains_key(shard_id.0) {
                Some(&self.clients@[shard_id.0])
            } else {
                None
            }),
    {
        self.clients.get(&shard_id.0)
    }

    /// A number for a query.
    pub fn next_query_id(&mut self) -> (r: u64)
        ensures
            r == old(self).next_query,
            *final(self) == (QueryExecutor {
                next_query: next_u64(old(self).next_query),
                ..*old(self)
            }),
    {
        let id: u64 = self.next_query;
        self.next_query = self.next_query.wrapping_add(1);
        id
    }

    /// Asks one shard once.
    fn execute_on_shard(&mut self, shard_id: ShardId, query: &DistributedQuery) -> (r:
        NetworkResult<ShardResult>)
        ensures
            asked(old(self).clients@, *query, shard_id, final(self).clients@, r),
            final(self).same_but_clients(*old(self)),
    {
        let ghost before = self.clients@;
        match self.clients.remove(&shard_id.0) {
            None => {
                assert(self.clients@ =~= before);
                Err(NetworkError::ShardUnavailable(shard_id))
            },
            Some(mut client) => {
                let start = clock_now();
                let reply = client.query(query.id, query.data.as_slice());
                let execution_time = time_since(&start);
                let ghost spoken = reply;
                assert(before[shard_id.0].may_answer(query.id, query.data@, &client, spoken));
                self.clients.insert(shard_id.0, client);
                assert(self.clients@ =~= before.insert(shard_id.0, client));
                let outcome = match reply {
                    Ok(data) => {
                        let result_count: usize = result_count(&data);
                        Ok(ShardResult { shard_id, data, execution_time, result_count })
                    },
                    Err(error) => Err(error),
                };
                assert(result_of(shard_id, spoken, outcome));
                outcome
            },
        }
    }

    /// Ends a query: given how many of its targets were asked and what they said, says what becomes
    /// of it, and counts it.
    pub fn conclude(
        &mut self,
        query: &DistributedQuery,
        timeout: Duration,
        targets: &Vec<ShardId>,
        results: Vec<ShardResult>,
        failures: Vec<(ShardId, NetworkError)>,
        done: usize,
        total_time: Duration,
    ) -> (r: ExecutorResult<QueryResult>)
        requires
            done <= targets@.len(),
        ensures
            ending(
                old(self).config.allow_partial_results,
                *query,
                timeout,
                targets@,
                results@,
                failures@,
                done as int,
                r,
            ),
            r is Ok ==> r->Ok_0.total_time == total_time,
            old(self).metered(r, *final(self)),
    {
        let answered = shard_ids(&results);
        if done < targets.len() && !(self.config.allow_partial_results && results.len() > 0) {
            let pending = targets_from(targets, done);
            return Err(
                ExecutorError::Timeout {
                    query_id: query.id,
                    timeout,
                    responded: answered,
                    pending,
                },
            );
        }
        if results.len() == 0 {
            self.queries_failed = self.queries_failed.wrapping_add(1);
            return Err(ExecutorError::AllShardsFailed { query_id: query.id, failures });
        }
        if failures.len() > 0 && !self.config.allow_partial_results {
            self.queries_failed = self.queries_failed.wrapping_add(1);
            return Err(
                ExecutorError::PartialFailure {
                    query_id: query.id,
                    successes: answered,
                    failures,
                },
            );
        }
        let data = aggregate_results(query.aggregation, &results);
        let total_results: usize = add_counts(&results);
        let shards_succeeded: usize = results.len();
        self.queries_executed = self.queries_executed.wrapping_add(1);
        Ok(
            QueryResult {
                query_id: query.id,
                data,
                shard_results: results,
                total_time,
                shards_queried: targets.len(),
                shards_succeeded,
                total_results,
            },
        )
    }

    /// The shards that a query asks: those that it names, or all that have a client, in no
    /// particular order.
    pub open spec fn may_target(self, query: DistributedQuery, targets: Seq<ShardId>) -> bool {
        match query.target_shards {
            Some(shards) => targets == shards@,
            None => exists|keys: Seq<u16>| #[trigger]
                lists_keys(keys, self.clients@) && targets == Seq::new(
                    keys.len(),
                    |i: int| ShardId(keys[i]),
                ),
        }
    }

    /// The time that a query has.
    pub open spec fn time_for(self, query: DistributedQuery) -> Duration {
        match query.timeout {
            Some(timeout) => timeout,
            None => self.config.default_timeout,
        }
    }

    /// The query went through these courses, at these times, and ended so; the last time is the one
    /// that a result tells.
    pub open spec fn ran(
        self,
        query: DistributedQuery,
        targets: Seq<ShardId>,
        courses: Seq<Course<C>>,
        times: Seq<Duration>,
        r: ExecutorResult<QueryResult>,
        other: QueryExecutor<C>,
    ) -> bool {
        let timeout = self.time_for(query);
        &&& self.may_target(query, targets)
        &&& if targets.len() == 0 {
            &&& r == Err::<QueryResult, ExecutorError>(ExecutorError::NoShardsAvailable)
            &&& other == self
        } else {
            let outcomes = courses.last().outcomes;
            &&& went(self.config, query, timeout, targets, courses, times)
            &&& courses[0].clients == self.clients@
            &&& courses.last().clients == other.clients@
            &&& times.len() == courses.len() + 1
            &&& courses.last().step(self.config, times[courses.len() - 1], timeout, targets)
                == Step::Conclude
            &&& ending(
                self.config.allow_partial_results,
                query,
                timeout,
                targets,
                answers(outcomes),
                failures_of(targets, outcomes),
                outcomes.len() as int,
                r,
            )
            &&& r is Ok ==> r->Ok_0.total_time == times.last()
            &&& (QueryExecutor { clients: other.clients, ..self }).metered(r, other)
        }
    }

    /// The query may end so.
    pub open spec fn may_end(
        self,
        query: DistributedQuery,
        r: ExecutorResult<QueryResult>,
        other: QueryExecutor<C>,
    ) -> bool {
        exists|targets: Seq<ShardId>, courses: Seq<Course<C>>, times: Seq<Duration>| #[trigger]
            self.ran(query, targets, courses, times, r, other)
    }

    /// The query may end so, if the time that has passed is told by the given clock.
    pub open spec fn may_end_by<F: Fn() -> Duration>(
        self,
        query: DistributedQuery,
        clock: F,
        r: ExecutorResult<QueryResult>,
        other: QueryExecutor<C>,
    ) -> bool {
        exists|targets: Seq<ShardId>, courses: Seq<Course<C>>, times: Seq<Duration>|
            {
                &&& #[trigger] self.ran(query, targets, courses, times, r, other)
                &&& told_by(clock, times)
            }
    }

    /// The shards that a query asks.
    fn targets(&self, query: &DistributedQuery) -> (r: Vec<ShardId>)
        ensures
            self.may_target(*query, r@),
    {
        let mut out: Vec<ShardId> = Vec::new();
        match &query.target_shards {
            Some(shards) => {
                let mut i: usize = 0;
                while i < shards.len()
                    invariant
                        i <= shards.len(),
                        out@ == shards@.take(i as int),
                    decreases shards.len() - i,
                {
                    out.push(shards[i]);
                    i = i + 1;
                    assert(out@ =~= shards@.take(i as int));
                }
                assert(shards@.take(i as int) =~= shards@);
            },
            None => {
                let keys = keys_of(&self.clients);
                let mut i: usize = 0;
                while i < keys.len()
                    invariant
                        i <= keys.len(),
                        out@ == Seq::new(i as nat, |j: int| ShardId(keys@[j])),
                    decreases keys.len() - i,
                {
                    out.push(ShardId(keys[i]));
                    i = i + 1;
                    assert(out@ =~= Seq::new(i as nat, |j: int| ShardId(keys@[j])));
                }
                assert(lists_keys(keys@, self.clients@));
            },
        }
        out
    }

    /// Asks the shards of a query in turn and puts their answers together. A shard that fails is
    /// asked again, as often as the configuration says. No shard is asked once the query's time has
    /// passed.
    pub fn execute(&mut self, query: DistributedQuery) -> (r: ExecutorResult<QueryResult>)
        ensures
            old(self).may_end(query, r, *final(self)),
    {
        let start = clock_now();
        let r = self.execute_timed(query, || -> (elapsed: Duration) { time_since(&start) });
        r
    }

    /// Runs a query as [`QueryExecutor::execute`] does, where the clock tells the time that has
    /// passed since the query began: once before every step, and once more at the end.
    pub fn execute_timed<F: Fn() -> Duration>(&mut self, query: DistributedQuery, clock: F) -> (r:
        ExecutorResult<QueryResult>)
        requires
            call_requires(clock, ()),
        ensures
            old(self).may_end_by(query, clock, r, *final(self)),
    {
        let timeout = match query.timeout {
            Some(timeout) => timeout,
            None => self.config.default_timeout,
        };
        let targets = self.targets(&query);
        let ghost pre = *self;
        let ghost mut courses = seq![Course::begun(self.clients@)];
        let ghost mut times = Seq::<Duration>::empty();
        if targets.len() == 0 {
            let r = Err(ExecutorError::NoShardsAvailable);
            assert(pre.ran(query, targets@, courses, times, r, *self));
            return r;
        }
        let mut results: Vec<ShardResult> = Vec::new();
        let mut failures: Vec<(ShardId, NetworkError)> = Vec::new();
        let mut failure: Option<NetworkError> = None;
        let mut done: usize = 0;
        let mut retried: usize = 0;
        let mut elapsed = clock();
        proof {
            times = times.push(elapsed);
        }
        let mut step = self.config.next_step(
            elapsed,
            timeout,
            done,
            targets.len(),
            failure.is_some(),
            retried,
        );
        while step != Step::Conclude
            invariant
                call_requires(clock, ()),
                timeout == pre.time_for(query),
                self.same_but_clients(pre),
                done <= targets.len(),
                retried <= pre.config.retries(),
                courses.len() >= 1,
                times.len() == courses.len(),
                told_by(clock, times),
                elapsed == times.last(),
                courses[0] == Course::begun(pre.clients@),
                went(pre.config, query, timeout, targets@, courses, times),
                courses.last().clients == self.clients@,
                courses.last().outcomes.len() == done,
                courses.last().retried == retried,
                step == courses.last().step(pre.config, elapsed, timeout, targets@),
                sorted_out(
                    targets@,
                    courses.last().outcomes,
                    failure,
                    results@,
                    failures@,
                ),
            decreases targets.len() - done, pre.config.retries() - retried,
        {
            let ghost last = courses.last();
            if step == Step::AskNext {
                if let Some(error) = failure {
                    failures.push((targets[done - 1], error));
                }
                done = done + 1;
                retried = 0;
            } else {
                retried = retried + 1;
            }
            let ghost base = if step == Step::AskNext {
                last.outcomes
            } else {
                last.outcomes.drop_last()
            };
            assert(results@ == answers(base));
            assert(failures@ == failures_of(targets@, base));
            let outcome = self.execute_on_shard(targets[done - 1], &query);
            proof {
                let outcomes = base.push(outcome);
                let next = Course {
                    clients: self.clients@,
                    outcomes,
                    retried: retried as nat,
                };
                assert(outcomes.drop_last() =~= base);
                assert(last.leads_to(step, query, targets@, next));
                lemma_went_on(pre.config, query, timeout, targets@, courses, times, next);
                courses = courses.push(next);
            }
            match outcome {
                Ok(result) => {
                    results.push(result);
                    failure = None;
                },
                Err(error) => {
                    failure = Some(error);
                },
            }
            elapsed = clock();
            proof {
                lemma_time_passed(pre.config, query, timeout, targets@, courses, times, elapsed);
                times = times.push(elapsed);
            }
            step = self.config.next_step(
                elapsed,
                timeout,
                done,
                targets.len(),
                failure.is_some(),
                retried,
            );
        }
        if let Some(error) = failure {
            failures.push((targets[done - 1], error));
        }
        let total_time = clock();
        proof {
            lemma_time_passed(pre.config, query, timeout, targets@, courses, times, total_time);
            times = times.push(total_time);
        }
        let r = self.conclude(&query, timeout, &targets, results, failures, done, total_time);
        assert(pre.ran(query, targets@, courses, times, r, *self));
        r
    }

    /// Writes a plan down.
    pub fn serialize_traversal_plan(&self, plan: &TraversalPlan) -> (r: Vec<u8>)
        ensures
            r@ == plan_wire(plan.steps@),
    {
        serialize_plan(plan)
    }

    /// The query of a traversal: the plan, written down, to the shards that it involves, with the
    /// longest answer taken.
    pub open spec fn traversal_query(
        self,
        start_label: Seq<char>,
        target_labels: Seq<Seq<char>>,
        query: DistributedQuery,
    ) -> bool {
        &&& query.id == self.next_query
        &&& query.timeout is None
        &&& query.aggregation == AggregationStrategy::MergeNodes
        &&& query.target_shards matches Some(targets)
        &&& exists|plan: TraversalPlan|
            {
                &&& #[trigger] planned(
                    self.router.config.shards@,
                    start_label,
                    target_labels,
                    plan,
                )
                &&& targets@ == plan.involved_shards@
                &&& query.data@ == plan_wire(plan.steps@)
            }
    }

    /// Runs a traversal from one label to others.
    pub fn execute_traversal(
        &mut self,
        start_node: NodeId,
        start_label: &str,
        target_labels: &[&str],
    ) -> (r: ExecutorResult<QueryResult>)
        ensures
            exists|query: DistributedQuery|
                {
                    &&& #[trigger] old(self).traversal_query(
                        start_label@,
                        str_texts(target_labels@),
                        query,
                    )
                    &&& (QueryExecutor { next_query: next_u64(old(self).next_query), ..*old(self) })
                        .may_end(query, r, *final(self))
                },
    {
        let plan = self.router.route_traversal(start_label, target_labels);
        let query_id: u64 = self.next_query_id();
        let query_data = self.serialize_traversal_plan(&plan);
        let ghost whole = plan;
        let query = DistributedQuery::new(query_id, query_data).with_shards(
            plan.involved_shards,
        ).with_aggregation(AggregationStrategy::MergeNodes);
        assert(planned(
            old(self).router.config.shards@,
            start_label@,
            str_texts(target_labels@),
            whole,
        ));
        assert(old(self).traversal_query(start_label@, str_texts(target_labels@), query));
        self.execute(query)
    }

    /// What the executor has done.
    pub fn stats(&self) -> (r: ExecutorStats)
        ensures
            r.queries_executed == self.queries_executed,
            r.queries_failed == self.queries_failed,
            r.registered_clients == self.clients@.len(),
    {
        ExecutorStats {
            queries_executed: self.queries_executed,
            queries_failed: self.queries_failed,
            registered_clients: self.clients.len(),
        }
    }
}

/// Every outcome is an answer or a failure.
pub proof fn law_outcomes_partition(
    targets: Seq<ShardId>,
    outcomes: Seq<NetworkResult<ShardResult>>,
)
    ensures
        answers(outcomes).len() + failures_of(targets, outcomes).len() == outcomes.len(),
    decreases outcomes.len(),
{
    if outcomes.len() > 0 {
        law_outcomes_partition(targets, outcomes.drop_last());
    }
}

/// All of these times lie within the time that a query has.
pub open spec fn in_time(times: Seq<Duration>, timeout: Duration) -> bool {
    forall|i: int| 0 <= i < times.len() ==> (#[trigger] times[i]).nanos < timeout.nanos
}

proof fn lemma_course_bounds<C: ShardClient>(
    config: ExecutorConfig,
    query: DistributedQuery,
    timeout: Duration,
    targets: Seq<ShardId>,
    courses: Seq<Course<C>>,
    times: Seq<Duration>,
    n: int,
)
    requires
        went(config, query, timeout, targets, courses, times),
        0 <= n < courses.len(),
    ensures
        courses[n].outcomes.len() <= targets.len(),
        courses[n].retried <= config.retries(),
    decreases n,
{
    if n > 0 {
        lemma_course_bounds(config, query, timeout, targets, courses, times, n - 1);
        assert(stepped(config, query, timeout, targets, courses, times, n - 1));
    }
}

proof fn lemma_failures_passed<C: ShardClient>(
    config: ExecutorConfig,
    query: DistributedQuery,
    timeout: Duration,
    targets: Seq<ShardId>,
    courses: Seq<Course<C>>,
    times: Seq<Duration>,
    n: int,
    i: int,
)
    requires
        went(config, query, timeout, targets, courses, times),
        in_time(times, timeout),
        0 <= n < courses.len(),
        0 <= i < courses[n].outcomes.len() - 1,
        courses[n].outcomes[i] is Err,
    ensures
        exists|k: int|
            {
                &&& 0 <= k < courses.len()
                &&& (#[trigger] courses[k]).outcomes == courses[n].outcomes.take(i + 1)
                &&& courses[k].retried == config.retries()
            },
    decreases n,
{
    if n > 0 {
        let before = courses[n - 1];
        let here = courses[n];
        lemma_course_bounds(config, query, timeout, targets, courses, times, n - 1);
        assert(stepped(config, query, timeout, targets, courses, times, n - 1));
        assert(times[n - 1].nanos < timeout.nanos);
        assert(here.outcomes.drop_last()[i] == here.outcomes[i]);
        if i < before.outcomes.len() - 1 {
            if here.outcomes.len() == before.outcomes.len() {
                assert(before.outcomes.drop_last()[i] == before.outcomes[i]);
            }
            lemma_failures_passed(config, query, timeout, targets, courses, times, n - 1, i);
            assert(here.outcomes.take(i + 1) =~= here.outcomes.drop_last().take(i + 1));
            assert(before.outcomes.take(i + 1) =~= here.outcomes.take(i + 1)) by {
                if here.outcomes.len() == before.outcomes.len() {
                    assert(before.outcomes.take(i + 1) =~= before.outcomes.drop_last().take(i + 1));
                }
            }
        } else {
            assert(before.outcomes =~= here.outcomes.take(i + 1));
            assert(before.failed());
            assert(courses[n - 1].retried == config.retries());
        }
    }
}

/// With time left, a shard counts as failed only after it was asked once, and then again as often
/// as the configuration says, and failed to the last.
pub proof fn law_failure_is_final<C: ShardClient>(
    config: ExecutorConfig,
    query: DistributedQuery,
    timeout: Duration,
    targets: Seq<ShardId>,
    courses: Seq<Course<C>>,
    times: Seq<Duration>,
    i: int,
)
    requires
        went(config, query, timeout, targets, courses, times),
        in_time(times, timeout),
        times.len() >= courses.len(),
        courses.last().step(config, times[courses.len() - 1], timeout, targets) == Step::Conclude,
        0 <= i < courses.last().outcomes.len(),
        courses.last().outcomes[i] is Err,
    ensures
        exists|k: int|
            {
                &&& 0 <= k < courses.len()
                &&& (#[trigger] courses[k]).outcomes == courses.last().outcomes.take(i + 1)
                &&& courses[k].retried == config.retries()
            },
{
    let n = courses.len() - 1;
    if i < courses[n].outcomes.len() - 1 {
        lemma_failures_passed(config, query, timeout, targets, courses, times, n, i);
    } else {
        lemma_course_bounds(config, query, timeout, targets, courses, times, n);
        assert(times[n].nanos < timeout.nanos);
        assert(courses[n].outcomes =~= courses[n].outcomes.take(i + 1));
    }
}

/// A query that is told only times within the time that it has asks every target, and does not time
/// out.
pub proof fn law_in_time_asks_all<C: ShardClient>(
    executor: QueryExecutor<C>,
    query: DistributedQuery,
    targets: Seq<ShardId>,
    courses: Seq<Course<C>>,
    times: Seq<Duration>,
    r: ExecutorResult<QueryResult>,
    other: QueryExecutor<C>,
)
    requires
        executor.ran(query, targets, courses, times, r, other),
        targets.len() > 0,
        in_time(times, executor.time_for(query)),
    ensures
        courses.last().outcomes.len() == targets.len(),
        !(r matches Err(ExecutorError::Timeout { .. })),
{
    let n = courses.len() - 1;
    lemma_course_bounds(
        executor.config,
        query,
        executor.time_for(query),
        targets,
        courses,
        times,
        n,
    );
    assert(times[n].nanos < executor.time_for(query).nanos);
}

/// A query that times out was told that its time had passed. The shards that gave a result have
/// responded; those from the first one on that was not asked are pending, and no other.
pub proof fn law_timeout_tells_the_rest<C: ShardClient>(
    executor: QueryExecutor<C>,
    query: DistributedQuery,
    targets: Seq<ShardId>,
    courses: Seq<Course<C>>,
    times: Seq<Duration>,
    r: ExecutorResult<QueryResult>,
    other: QueryExecutor<C>,
)
    requires
        executor.ran(query, targets, courses, times, r, other),
        r is Err,
        r->Err_0 is Timeout,
    ensures
        ({
            let outcomes = courses.last().outcomes;
            &&& r->Err_0->responded@ == ids(answers(outcomes))
            &&& r->Err_0->pending@ == targets.skip(outcomes.len() as int)
            &&& r->Err_0->pending@.len() > 0
            &&& r->Err_0->Timeout_query_id == query.id
            &&& r->Err_0->timeout == executor.time_for(query)
            &&& times[courses.len() - 1].nanos >= executor.time_for(query).nanos
        }),
{
}

/// A failure that passes does no harm: a query to one healthy shard whose next call fails gives the
/// answer of the second try, if it has the time for it and shards are asked again.
pub proof fn law_passing_failure_is_overcome(
    executor: QueryExecutor<MockShardClient>,
    query: DistributedQuery,
    shard: ShardId,
    courses: Seq<Course<MockShardClient>>,
    times: Seq<Duration>,
    r: ExecutorResult<QueryResult>,
    other: QueryExecutor<MockShardClient>,
)
    requires
        executor.config.retries() >= 1,
        executor.clients@.contains_key(shard.0),
        executor.clients@[shard.0].healthy,
        executor.clients@[shard.0].failure is Some,
        executor.ran(query, seq![shard], courses, times, r, other),
        in_time(times, executor.time_for(query)),
    ensures
        r is Ok,
        r->Ok_0.shards_queried == 1,
        r->Ok_0.shards_succeeded == 1,
        r->Ok_0.shard_results@[0].data@ == executor.clients@[shard.0].query_response@,
        other.clients@[shard.0].call_counts == executor.clients@[shard.0].call_counts.with_call(
            Method::Query,
        ).with_call(Method::Query),
{
    let config = executor.config;
    let timeout = executor.time_for(query);
    let targets = seq![shard];
    assert(times[0].nanos < timeout.nanos);
    assert(stepped(config, query, timeout, targets, courses, times, 0));
    assert(courses[1].outcomes.last() is Err);
    assert(times[1].nanos < timeout.nanos);
    assert(stepped(config, query, timeout, targets, courses, times, 1));
    assert(courses[1].clients[shard.0].failure is None);
    assert(courses[2].outcomes.last() is Ok);
    if courses.len() > 3 {
        assert(stepped(config, query, timeout, targets, courses, times, 2));
    }
    let outcomes = courses.last().outcomes;
    assert(outcomes.drop_last() =~= Seq::empty());
    reveal_with_fuel(answers, 2);
    reveal_with_fuel(failures_of, 2);
    assert(answers(outcomes) =~= seq![outcomes[0]->Ok_0]);
    assert(failures_of(targets, outcomes) =~= Seq::empty());
}

/// Every answer bears the number of the shard that was asked.
pub open spec fn of_targets(
    targets: Seq<ShardId>,
    outcomes: Seq<NetworkResult<ShardResult>>,
) -> bool {
    forall|i: int|
        0 <= i < outcomes.len() ==> ((#[trigger] outcomes[i]) matches Ok(result)
            ==> result.shard_id == targets[i])
}

proof fn lemma_answers_are_of_targets<C: ShardClient>(
    config: ExecutorConfig,
    query: DistributedQuery,
    timeout: Duration,
    targets: Seq<ShardId>,
    courses: Seq<Course<C>>,
    times: Seq<Duration>,
    n: int,
)
    requires
        went(config, query, timeout, targets, courses, times),
        0 <= n < courses.len(),
    ensures
        of_targets(targets, courses[n].outcomes),
    decreases n,
{
    if n > 0 {
        lemma_answers_are_of_targets(config, query, timeout, targets, courses, times, n - 1);
        assert(stepped(config, query, timeout, targets, courses, times, n - 1));
        let before = courses[n - 1].outcomes;
        let here = courses[n].outcomes;
        assert forall|i: int| 0 <= i < here.len() implies ((#[trigger] here[i]) matches Ok(result)
            ==> result.shard_id == targets[i]) by {
            if i < here.len() - 1 {
                assert(here.drop_last()[i] == here[i]);
                assert(before[i] == here[i]);
            }
        }
    }
}

/// Where nothing failed, the answers are those of the targets, in order.
proof fn lemma_answers_in_order(
    targets: Seq<ShardId>,
    outcomes: Seq<NetworkResult<ShardResult>>,
)
    requires
        of_targets(targets, outcomes),
        outcomes.len() <= targets.len(),
        failures_of(targets, outcomes).len() == 0,
    ensures
        ids(answers(outcomes)) == targets.take(outcomes.len() as int),
    decreases outcomes.len(),
{
    if outcomes.len() > 0 {
        let shorter = outcomes.drop_last();
        let last = outcomes.len() - 1;
        assert(of_targets(targets, shorter)) by {
            assert forall|i: int| 0 <= i < shorter.len() implies ((
            #[trigger] shorter[i]) matches Ok(result) ==> result.shard_id == targets[i]) by {
                assert(outcomes[i] == shorter[i]);
            }
        }
        lemma_answers_in_order(targets, shorter);
        assert(outcomes[last] is Ok);
        assert(ids(answers(outcomes)) =~= ids(answers(shorter)).push(targets[last]));
        assert(targets.take(outcomes.len() as int) =~= targets.take(last).push(targets[last]));
    } else {
        assert(ids(answers(outcomes)) =~= targets.take(0));
    }
}

/// Where partial results will not do, a query that gives a result has the answer of every target,
/// in the order of the targets.
pub proof fn law_strict_result_is_complete<C: ShardClient>(
    executor: QueryExecutor<C>,
    query: DistributedQuery,
    targets: Seq<ShardId>,
    courses: Seq<Course<C>>,
    times: Seq<Duration>,
    r: ExecutorResult<QueryResult>,
    other: QueryExecutor<C>,
)
    requires
        !executor.config.allow_partial_results,
        executor.ran(query, targets, courses, times, r, other),
        r is Ok,
    ensures
        ids(r->Ok_0.shard_results@) == targets,
        r->Ok_0.shards_queried == r->Ok_0.shards_succeeded,
{
    let config = executor.config;
    let timeout = executor.time_for(query);
    let n = courses.len() - 1;
    let outcomes = courses.last().outcomes;
    law_outcomes_partition(targets, outcomes);
    lemma_course_bounds(config, query, timeout, targets, courses, times, n);
    lemma_answers_are_of_targets(config, query, timeout, targets, courses, times, n);
    lemma_answers_in_order(targets, outcomes);
    assert(targets.take(outcomes.len() as int) =~= targets);
}

/// A query asks shards only as far as its targets go: the clients of other shards stay as they are.
pub proof fn law_others_not_asked<C: ShardClient>(
    config: ExecutorConfig,
    query: DistributedQuery,
    timeout: Duration,
    targets: Seq<ShardId>,
    courses: Seq<Course<C>>,
    times: Seq<Duration>,
    n: int,
    shard: ShardId,
)
    requires
        went(config, query, timeout, targets, courses, times),
        0 <= n < courses.len(),
        !targets.contains(shard),
    ensures
        courses[n].clients.contains_key(shard.0) == courses[0].clients.contains_key(shard.0),
        courses[0].clients.contains_key(shard.0) ==> courses[n].clients[shard.0]
            == courses[0].clients[shard.0],
    decreases n,
{
    if n > 0 {
        law_others_not_asked(config, query, timeout, targets, courses, times, n - 1, shard);
        lemma_course_bounds(config, query, timeout, targets, courses, times, n - 1);
        assert(stepped(config, query, timeout, targets, courses, times, n - 1));
        let done = courses[n].outcomes.len() - 1;
        assert(targets[done] != shard);
    }
}

/// A query whose time is none times out: no shard is asked, every target is pending, and nothing is
/// counted.
pub proof fn law_no_time<C: ShardClient>(
    executor: QueryExecutor<C>,
    query: DistributedQuery,
    targets: Seq<ShardId>,
    courses: Seq<Course<C>>,
    times: Seq<Duration>,
    r: ExecutorResult<QueryResult>,
    other: QueryExecutor<C>,
)
    requires
        executor.time_for(query).nanos == 0,
        targets.len() > 0,
        executor.ran(query, targets, courses, times, r, other),
    ensures
        r is Err,
        r->Err_0 is Timeout,
        r->Err_0->pending@ == targets,
        r->Err_0->responded@.len() == 0,
        other.clients@ == executor.clients@,
        other.queries_failed == executor.queries_failed,
        other.queries_executed == executor.queries_executed,
{
    if courses.len() > 1 {
        assert(stepped(
            executor.config,
            query,
            executor.time_for(query),
            targets,
            courses,
            times,
            0,
        ));
    }
    assert(targets.skip(0) =~= targets);
}

/// What a query does next: as long as it has time, a target that failed is asked again if targets
/// are asked again and it was not yet asked again as often as that may be; otherwise the next
/// target is asked, if there is one. Without time or without more to ask, the query is concluded.
pub proof fn law_next_step(
    config: ExecutorConfig,
    elapsed: Duration,
    timeout: Duration,
    done: nat,
    total: nat,
    failed: bool,
    retried: nat,
)
    ensures
        ({
            let step = config.step_after(elapsed, timeout, done, total, failed, retried);
            let again = failed && config.retry_failed_shards && retried < config.max_retries;
            &&& elapsed.nanos >= timeout.nanos ==> step == Step::Conclude
            &&& elapsed.nanos < timeout.nanos && again ==> step == Step::AskAgain
            &&& elapsed.nanos < timeout.nanos && !again && done < total ==> step == Step::AskNext
            &&& elapsed.nanos < timeout.nanos && !again && done >= total ==> step == Step::Conclude
        }),
{
}

/// The answers are those of the outcomes that are answers, in their order.
pub proof fn law_answers_in_order(outcomes: Seq<NetworkResult<ShardResult>>)
    ensures
        answers(outcomes) == outcomes.filter(|o: NetworkResult<ShardResult>| o is Ok).map_values(
            |o: NetworkResult<ShardResult>| o->Ok_0,
        ),
    decreases outcomes.len(),
{
    reveal(Seq::filter);
    let pick = |o: NetworkResult<ShardResult>| o is Ok;
    let tell = |o: NetworkResult<ShardResult>| o->Ok_0;
    if outcomes.len() == 0 {
        assert(outcomes.filter(pick).map_values(tell) =~= Seq::empty());
    } else {
        law_answers_in_order(outcomes.drop_last());
        let before = outcomes.drop_last().filter(pick);
        let last = outcomes.last();
        if pick(last) {
            assert(before.push(last).map_values(tell) =~= before.map_values(tell).push(tell(last)));
        }
    }
}

/// The failures are those of the outcomes that are errors, in their order, each with the target
/// that was asked.
pub proof fn law_failures_in_order(
    targets: Seq<ShardId>,
    outcomes: Seq<NetworkResult<ShardResult>>,
    said: Seq<(ShardId, NetworkResult<ShardResult>)>,
)
    requires
        outcomes.len() <= targets.len(),
        said.len() == outcomes.len(),
        forall|i: int| 0 <= i < said.len() ==> (#[trigger] said[i]) == (targets[i], outcomes[i]),
    ensures
        failures_of(targets, outcomes) == said.filter(
            |s: (ShardId, NetworkResult<ShardResult>)| s.1 is Err,
        ).map_values(|s: (ShardId, NetworkResult<ShardResult>)| (s.0, s.1->Err_0)),
    decreases outcomes.len(),
{
    reveal(Seq::filter);
    let pick = |s: (ShardId, NetworkResult<ShardResult>)| s.1 is Err;
    let tell = |s: (ShardId, NetworkResult<ShardResult>)| (s.0, s.1->Err_0);
    if outcomes.len() == 0 {
        assert(said.filter(pick).map_values(tell) =~= Seq::empty());
    } else {
        let last = said.len() - 1;
        assert(said[last] == (targets[last], outcomes[last]));
        assert forall|i: int| 0 <= i < last implies (#[trigger] said.drop_last()[i]) == (
            targets[i],
            outcomes.drop_last()[i],
        ) by {
            assert(said[i] == said.drop_last()[i]);
        }
        law_failures_in_order(targets, outcomes.drop_last(), said.drop_last());
        let before = said.drop_last().filter(pick);
        if pick(said[last]) {
            assert(before.push(said[last]).map_values(tell) =~= before.map_values(tell).push(
                tell(said[last]),
            ));
        }
    }
}

proof fn lemma_answers_and_failures(targets: Seq<ShardId>, outcomes: Seq<NetworkResult<ShardResult>>)
    ensures
        answers(outcomes).len() > 0 <==> exists|i: int|
            0 <= i < outcomes.len() && (#[trigger] outcomes[i]) is Ok,
        failures_of(targets, outcomes).len() > 0 <==> exists|i: int|
            0 <= i < outcomes.len() && (#[trigger] outcomes[i]) is Err,
    decreases outcomes.len(),
{
    if outcomes.len() > 0 {
        let shorter = outcomes.drop_last();
        lemma_answers_and_failures(targets, shorter);
        assert(outcomes[outcomes.len() - 1] == outcomes.last());
        assert forall|i: int| 0 <= i < shorter.len() implies shorter[i] == #[trigger] outcomes[i] by {}
        if exists|i: int| 0 <= i < shorter.len() && (#[trigger] shorter[i]) is Ok {
            let i = choose|i: int| 0 <= i < shorter.len() && (#[trigger] shorter[i]) is Ok;
            assert(outcomes[i] is Ok);
        }
        if exists|i: int| 0 <= i < shorter.len() && (#[trigger] shorter[i]) is Err {
            let i = choose|i: int| 0 <= i < shorter.len() && (#[trigger] shorter[i]) is Err;
            assert(outcomes[i] is Err);
        }
    }
}

/// How a query ends. Without targets there is no shard to ask. A query that asked all of its
/// targets gives a result if all answered, or if some did and partial results will do; if some
/// answered and some failed and partial results will not do it fails in part; if none answered it
/// fails. A query that was cut short times out, unless partial results will do and some target
/// answered.
pub proof fn law_how_a_query_ends<C: ShardClient>(
    executor: QueryExecutor<C>,
    query: DistributedQuery,
    targets: Seq<ShardId>,
    courses: Seq<Course<C>>,
    times: Seq<Duration>,
    r: ExecutorResult<QueryResult>,
    other: QueryExecutor<C>,
)
    requires
        executor.ran(query, targets, courses, times, r, other),
    ensures
        targets.len() == 0 <==> r == Err::<QueryResult, ExecutorError>(
            ExecutorError::NoShardsAvailable,
        ),
        targets.len() > 0 ==> {
            let outcomes = courses.last().outcomes;
            let partial = executor.config.allow_partial_results;
            let some_answered = exists|i: int|
                0 <= i < outcomes.len() && (#[trigger] outcomes[i]) is Ok;
            let some_failed = exists|i: int|
                0 <= i < outcomes.len() && (#[trigger] outcomes[i]) is Err;
            let all_asked = outcomes.len() >= targets.len();
            &&& r is Ok <==> some_answered && (partial || (all_asked && !some_failed))
            &&& (r matches Err(ExecutorError::Timeout { .. })) <==> !all_asked && !(partial
                && some_answered)
            &&& (r matches Err(ExecutorError::AllShardsFailed { .. })) <==> all_asked
                && !some_answered
            &&& (r matches Err(ExecutorError::PartialFailure { .. })) <==> all_asked
                && some_answered && some_failed && !partial
        },
{
    if targets.len() > 0 {
        lemma_answers_and_failures(targets, courses.last().outcomes);
    }
}

/// A result tells what came of the query: the answers, put together as the query asks; how many
/// targets were to be asked and how many answered; how many results there are; and how long it
/// took. A query that names its time has that time, and one that does not has the usual time.
pub proof fn law_result_tells_what_came_of_it<C: ShardClient>(
    executor: QueryExecutor<C>,
    query: DistributedQuery,
    targets: Seq<ShardId>,
    courses: Seq<Course<C>>,
    times: Seq<Duration>,
    r: ExecutorResult<QueryResult>,
    other: QueryExecutor<C>,
)
    requires
        executor.ran(query, targets, courses, times, r, other),
    ensures
        r matches Ok(result) ==> {
            let answered = courses.last().outcomes.filter(
                |o: NetworkResult<ShardResult>| o is Ok,
            ).map_values(|o: NetworkResult<ShardResult>| o->Ok_0);
            &&& result.query_id == query.id
            &&& result.shard_results@ == answered
            &&& result.data@ == aggregated(query.aggregation, answered)
            &&& result.shards_queried == targets.len()
            &&& result.shards_succeeded == answered.len()
            &&& result.total_results == total_count(answered)
            &&& result.total_time == times.last()
        },
        query.timeout matches Some(timeout) ==> executor.time_for(query) == timeout,
        query.timeout is None ==> executor.time_for(query) == executor.config.default_timeout,
        query.target_shards matches Some(shards) ==> targets == shards@,
{
    if r is Ok {
        law_answers_in_order(courses.last().outcomes);
    }
}

/// Every query is counted at most once: as done if it gives a result, as failed if all shards or
/// some of them failed, and not at all if it timed out or had no shard to ask. Nothing else of the
/// executor changes but its clients.
pub proof fn law_queries_are_counted<C: ShardClient>(
    executor: QueryExecutor<C>,
    query: DistributedQuery,
    targets: Seq<ShardId>,
    courses: Seq<Course<C>>,
    times: Seq<Duration>,
    r: ExecutorResult<QueryResult>,
    other: QueryExecutor<C>,
)
    requires
        executor.ran(query, targets, courses, times, r, other),
        executor.queries_executed < u64::MAX,
        executor.queries_failed < u64::MAX,
    ensures
        r is Ok ==> other.queries_executed == executor.queries_executed + 1 && other.queries_failed
            == executor.queries_failed,
        r matches Err(error) ==> {
            let failed = error is AllShardsFailed || error is PartialFailure;
            &&& other.queries_executed == executor.queries_executed
            &&& other.queries_failed == executor.queries_failed + if failed {
                1int
            } else {
                0
            }
        },
        other.config == executor.config,
        other.router == executor.router,
        other.next_query == executor.next_query,
{
}

/// What a shard says is kept as it is: an answer with the number of the shard that was asked, its
/// bytes, and the number of results that they begin with; an error as the error that it is.
pub proof fn law_reply_is_kept(
    shard: ShardId,
    reply: NetworkResult<Vec<u8>>,
    outcome: NetworkResult<ShardResult>,
    n: nat,
    rest: Seq<u8>,
)
    requires
        result_of(shard, reply, outcome),
        n < 0x1_0000_0000,
    ensures
        outcome is Ok <==> reply is Ok,
        outcome matches Ok(result) ==> result.shard_id == shard && result.data@ == reply->Ok_0@,
        outcome matches Err(error) ==> reply == Err::<Vec<u8>, NetworkError>(error),
        reply is Ok && reply->Ok_0@ == crate::sharding::wire::le_bytes(n, 4) + rest
            ==> outcome->Ok_0.result_count == n,
{
    crate::sharding::query::law_answer_counts_its_first_number(n, rest, Seq::empty());
}

/// A query that names no shards asks every shard that has a client, each once.
pub proof fn law_every_client_is_asked<C: ShardClient>(
    executor: QueryExecutor<C>,
    query: DistributedQuery,
    targets: Seq<ShardId>,
    shard: ShardId,
)
    requires
        executor.may_target(query, targets),
        query.target_shards is None,
    ensures
        targets.no_duplicates(),
        targets.contains(shard) <==> executor.clients@.contains_key(shard.0),
{
    let keys = choose|keys: Seq<u16>| #[trigger]
        lists_keys(keys, executor.clients@) && targets == Seq::new(
            keys.len(),
            |i: int| ShardId(keys[i]),
        );
    if targets.contains(shard) {
        let i = choose|i: int| 0 <= i < targets.len() && targets[i] == shard;
        assert(executor.clients@.contains_key(keys[i]));
    }
    if executor.clients@.contains_key(shard.0) {
        assert(keys.contains(shard.0));
        let i = choose|i: int| 0 <= i < keys.len() && keys[i] == shard.0;
        assert(targets[i] == shard);
    }
}

/// A traversal that gives a result gives one of the answers of its shards, and none of them is
/// longer; it asks exactly the shard where it starts and those that hold its target labels.
pub proof fn law_traversal_gives_the_longest_answer<C: ShardClient>(
    executor: QueryExecutor<C>,
    start_label: Seq<char>,
    target_labels: Seq<Seq<char>>,
    query: DistributedQuery,
    targets: Seq<ShardId>,
    courses: Seq<Course<C>>,
    times: Seq<Duration>,
    r: ExecutorResult<QueryResult>,
    other: QueryExecutor<C>,
    shard: ShardId,
)
    requires
        executor.traversal_query(start_label, target_labels, query),
        executor.ran(query, targets, courses, times, r, other),
        r is Ok,
    ensures
        ({
            let shards = executor.router.config.shards@;
            let result = r->Ok_0;
            &&& targets.contains(shard) <==> shard == crate::sharding::router::start_of(
                shards,
                start_label,
            ) || exists|i: int|
                0 <= i < target_labels.len() && crate::sharding::router::shard_of(
                    shards,
                    #[trigger] target_labels[i],
                ) == Some(shard)
            &&& targets.no_duplicates()
            &&& exists|i: int|
                0 <= i < result.shard_results@.len() && (#[trigger] result.shard_results@[i]).data@
                    == result.data@
            &&& forall|i: int|
                0 <= i < result.shard_results@.len() ==> (
                #[trigger] result.shard_results@[i]).data@.len() <= result.data@.len()
        }),
{
    let shards = executor.router.config.shards@;
    let plan = choose|plan: TraversalPlan|
        {
            &&& #[trigger] planned(shards, start_label, target_labels, plan)
            &&& query.target_shards->0@ == plan.involved_shards@
            &&& query.data@ == plan_wire(plan.steps@)
        };
    crate::sharding::router::law_involved_are_start_and_holders(
        shards,
        plan.start_shard,
        target_labels,
        shard,
        start_label,
    );
    crate::sharding::router::law_involved_once(shards, plan.start_shard, target_labels);
    crate::sharding::query::law_longest(r->Ok_0.shard_results@);
}

/// Asking a shard without a client gives that it is unavailable, and changes no client. Asking one
/// that has a client changes no other client, and the outcome bears the number of the shard that
/// was asked.
pub proof fn law_asking_a_shard<C: ShardClient>(
    clients: Map<u16, C>,
    query: DistributedQuery,
    shard: ShardId,
    after: Map<u16, C>,
    outcome: NetworkResult<ShardResult>,
    other: u16,
)
    requires
        asked(clients, query, shard, after, outcome),
    ensures
        !clients.contains_key(shard.0) ==> after == clients && outcome == Err::<ShardResult, NetworkError>(
            NetworkError::ShardUnavailable(shard),
        ),
        other != shard.0 ==> after.contains_key(other) == clients.contains_key(other) && (
        clients.contains_key(other) ==> after[other] == clients[other]),
        clients.contains_key(shard.0) ==> after.contains_key(shard.0),
        outcome matches Ok(result) ==> result.shard_id == shard && clients.contains_key(shard.0),
{
}

} // verus!

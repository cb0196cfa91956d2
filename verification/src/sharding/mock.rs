//! A client that talks to no shard: it gives prepared answers and counts its calls.

use crate::counting::next_usize;
use crate::ids::{ShardId, TxId};
use crate::sharding::network::{
    AbortResponse, CommitResponse, MigrationBatch, MigrationResponse, NetworkError, NetworkResult,
    PrepareResponse, ShardClient, ShardState,
};
use crate::sharding::wire::copy_bytes;
use crate::temporal::HybridTimestamp;
use crate::time::Duration;
use vstd::prelude::*;

verus! {

/// What a client can be asked.
#[derive(Clone, Copy, Debug, PartialEq, Eq, Structural)]
pub enum Method {
    /// To prepare a commit.
    Prepare,
    /// To commit.
    Commit,
    /// To abort.
    Abort,
    /// A query.
    Query,
    /// For the shard's state.
    GetState,
    /// To take a batch.
    ReceiveMigrationBatch,
    /// For a batch.
    ExtractMigrationBatch,
    /// For the shard's health.
    HealthCheck,
}

impl Method {
    /// The name of the method.
    pub open spec fn name(self) -> Seq<char> {
        match self {
            Method::Prepare => "prepare"@,
            Method::Commit => "commit"@,
            Method::Abort => "abort"@,
            Method::Query => "query"@,
            Method::GetState => "get_state"@,
            Method::ReceiveMigrationBatch => "receive_migration_batch"@,
            Method::ExtractMigrationBatch => "extract_migration_batch"@,
            Method::HealthCheck => "health_check"@,
        }
    }
}

/// How often each method was called. The counts wrap around.
#[derive(Clone, Copy, Debug, PartialEq, Eq, Structural)]
pub struct CallCounts {
    /// Calls of `prepare`.
    pub prepare: usize,
    /// Calls of `commit`.
    pub commit: usize,
    /// Calls of `abort`.
    pub abort: usize,
    /// Calls of `query`.
    pub query: usize,
    /// Calls of `get_state`.
    pub get_state: usize,
    /// Calls of `receive_migration_batch`.
    pub receive_migration_batch: usize,
    /// Calls of `extract_migration_batch`.
    pub extract_migration_batch: usize,
    /// Calls of `health_check`.
    pub health_check: usize,
}

impl CallCounts {
    /// The counts with one more call.
    pub open spec fn with_call(self, method: Method) -> CallCounts {
        match method {
            Method::Prepare => CallCounts { prepare: next_usize(self.prepare), ..self },
            Method::Commit => CallCounts { commit: next_usize(self.commit), ..self },
            Method::Abort => CallCounts { abort: next_usize(self.abort), ..self },
            Method::Query => CallCounts { query: next_usize(self.query), ..self },
            Method::GetState => CallCounts { get_state: next_usize(self.get_state), ..self },
            Method::ReceiveMigrationBatch => CallCounts {
                receive_migration_batch: next_usize(self.receive_migration_batch),
                ..self
            },
            Method::ExtractMigrationBatch => CallCounts {
                extract_migration_batch: next_usize(self.extract_migration_batch),
                ..self
            },
            Method::HealthCheck => CallCounts { health_check: next_usize(self.health_check), ..self },
        }
    }

    /// The count of the method with the given name; zero where there is no such method.
    pub open spec fn named(self, name: Seq<char>) -> usize {
        if name == "prepare"@ {
            self.prepare
        } else if name == "commit"@ {
            self.commit
        } else if name == "abort"@ {
            self.abort
        } else if name == "query"@ {
            self.query
        } else if name == "get_state"@ {
            self.get_state
        } else if name == "receive_migration_batch"@ {
            self.receive_migration_batch
        } else if name == "extract_migration_batch"@ {
            self.extract_migration_batch
        } else if name == "health_check"@ {
            self.health_check
        } else {
            0
        }
    }
}

/// Whether two pieces of text are the same.
fn same_text(a: &str, b: &str) -> (r: bool)
    ensures
        r == (a@ == b@),
{
    String::from_str(a) == String::from_str(b)
}

/// A client for tests.
#[derive(Debug)]
pub struct MockShardClient {
    /// The shard that it stands for.
    pub shard_id: ShardId,
    /// Whether it is healthy.
    pub healthy: bool,
    /// Its answer to `prepare`.
    pub prepare_response: Option<PrepareResponse>,
    /// Its answer to `commit`.
    pub commit_response: Option<CommitResponse>,
    /// Its answer to `abort`.
    pub abort_response: Option<AbortResponse>,
    /// Its answer to `query`.
    pub query_response: Vec<u8>,
    /// Its answer to `get_state`.
    pub state: ShardState,
    /// How long an answer is meant to take; whoever waits for the answer waits that long.
    pub latency: Duration,
    /// How the next call fails.
    pub failure: Option<NetworkError>,
    /// How often each method was called.
    pub call_counts: CallCounts,
    /// The last query that got an answer.
    pub query_received: Option<Vec<u8>>,
}

impl MockShardClient {
    /// What decides whether a call is answered: a planned failure comes first, then health.
    pub open spec fn verdict(self) -> NetworkResult<()> {
        match self.failure {
            Some(error) => Err(error),
            None => if self.healthy {
                Ok(())
            } else {
                Err(NetworkError::ShardUnavailable(self.shard_id))
            },
        }
    }

    /// The client after a call: the call is counted, and a planned failure is spent.
    pub open spec fn after_call(self, method: Method) -> MockShardClient {
        MockShardClient {
            call_counts: self.call_counts.with_call(method),
            failure: None,
            ..self
        }
    }

    /// A healthy client that says yes to everything.
    pub fn new(shard_id: ShardId) -> (r: MockShardClient)
        ensures
            r.shard_id == shard_id,
            r.healthy,
            r.prepare_response == Some(PrepareResponse { ready: true, reason: None }),
            r.commit_response == Some(CommitResponse { success: true }),
            r.abort_response == Some(AbortResponse { acknowledged: true }),
            r.query_response@.len() == 0,
            r.state == (ShardState { shard_id, node_count: 0, edge_count: 0 }),
            r.latency.nanos == 100_000,
            r.failure is None,
            forall|name: Seq<char>| r.call_counts.named(name) == 0,
            r.query_received is None,
    {
        MockShardClient {
            shard_id,
            healthy: true,
            prepare_response: Some(PrepareResponse { ready: true, reason: None }),
            commit_response: Some(CommitResponse { success: true }),
            abort_response: Some(AbortResponse { acknowledged: true }),
            query_response: Vec::new(),
            state: ShardState::new(shard_id),
            latency: Duration::from_micros(100),
            failure: None,
            call_counts: CallCounts {
                prepare: 0,
                commit: 0,
                abort: 0,
                query: 0,
                get_state: 0,
                receive_migration_batch: 0,
                extract_migration_batch: 0,
                health_check: 0,
            },
            query_received: None,
        }
    }

    /// Sets whether the client is healthy.
    pub fn set_healthy(&mut self, healthy: bool)
        ensures
            *final(self) == (MockShardClient { healthy, ..*old(self) }),
    {
        self.healthy = healthy;
    }

    /// Sets the answer to `prepare`.
    pub fn set_prepare_response(&mut self, response: PrepareResponse)
        ensures
            *final(self) == (MockShardClient { prepare_response: Some(response), ..*old(self) }),
    {
        self.prepare_response = Some(response);
    }

    /// Sets the answer to `commit`.
    pub fn set_commit_response(&mut self, response: CommitResponse)
        ensures
            *final(self) == (MockShardClient { commit_response: Some(response), ..*old(self) }),
    {
        self.commit_response = Some(response);
    }

    /// Sets the answer to `abort`.
    pub fn set_abort_response(&mut self, response: AbortResponse)
        ensures
            *final(self) == (MockShardClient { abort_response: Some(response), ..*old(self) }),
    {
        self.abort_response = Some(response);
    }

    /// Sets the answer to `query`.
    pub fn set_query_response(&mut self, response: Vec<u8>)
        ensures
            *final(self) == (MockShardClient { query_response: response, ..*old(self) }),
    {
        self.query_response = response;
    }

    /// Sets the answer to `get_state`.
    pub fn set_state(&mut self, state: ShardState)
        ensures
            *final(self) == (MockShardClient { state, ..*old(self) }),
    {
        self.state = state;
    }

    /// Sets how long an answer is meant to take.
    pub fn set_latency(&mut self, latency: Duration)
        ensures
            *final(self) == (MockShardClient { latency, ..*old(self) }),
    {
        self.latency = latency;
    }

    /// Makes the next call fail.
    pub fn fail_next(&mut self, error: NetworkError)
        ensures
            *final(self) == (MockShardClient { failure: Some(error), ..*old(self) }),
    {
        self.failure = Some(error);
    }

    /// How often the method with the given name was called.
    pub fn call_count(&self, method: &str) -> (r: usize)
        ensures
            r == self.call_counts.named(method@),
    {
        if same_text(method, "prepare") {
            self.call_counts.prepare
        } else if same_text(method, "commit") {
            self.call_counts.commit
        } else if same_text(method, "abort") {
            self.call_counts.abort
        } else if same_text(method, "query") {
            self.call_counts.query
        } else if same_text(method, "get_state") {
            self.call_counts.get_state
        } else if same_text(method, "receive_migration_batch") {
            self.call_counts.receive_migration_batch
        } else if same_text(method, "extract_migration_batch") {
            self.call_counts.extract_migration_batch
        } else if same_text(method, "health_check") {
            self.call_counts.health_check
        } else {
            0
        }
    }

    /// Counts a call.
    fn increment_call(&mut self, method: Method)
        ensures
            *final(self) == (MockShardClient {
                call_counts: old(self).call_counts.with_call(method),
                ..*old(self)
            }),
    {
        let mut counts = self.call_counts;
        match method {
            Method::Prepare => {
                counts.prepare = counts.prepare.wrapping_add(1);
            },
            Method::Commit => {
                counts.commit = counts.commit.wrapping_add(1);
            },
            Method::Abort => {
                counts.abort = counts.abort.wrapping_add(1);
            },
            Method::Query => {
                counts.query = counts.query.wrapping_add(1);
            },
            Method::GetState => {
                counts.get_state = counts.get_state.wrapping_add(1);
            },
            Method::ReceiveMigrationBatch => {
                counts.receive_migration_batch = counts.receive_migration_batch.wrapping_add(1);
            },
            Method::ExtractMigrationBatch => {
                counts.extract_migration_batch = counts.extract_migration_batch.wrapping_add(1);
            },
            Method::HealthCheck => {
                counts.health_check = counts.health_check.wrapping_add(1);
            },
        }
        self.call_counts = counts;
    }

    /// Spends a planned failure.
    fn check_fail(&mut self) -> (r: NetworkResult<()>)
        ensures
            *final(self) == (MockShardClient { failure: None, ..*old(self) }),
            r == (match old(self).failure {
                Some(error) => Err::<(), NetworkError>(error),
                None => Ok(()),
            }),
    {
        match self.failure.take() {
            Some(error) => Err(error),
            None => Ok(()),
        }
    }

    /// Counts a call and decides whether it is answered.
    fn begin(&mut self, method: Method) -> (r: NetworkResult<()>)
        ensures
            *final(self) == old(self).after_call(method),
            r == old(self).verdict(),
    {
        self.increment_call(method);
        match self.check_fail() {
            Err(error) => Err(error),
            Ok(_) => {
                if self.healthy {
                    Ok(())
                } else {
                    Err(NetworkError::ShardUnavailable(self.shard_id))
                }
            },
        }
    }
}

/// The error of a client that has no answer prepared.
fn no_response() -> (r: NetworkError)
    ensures
        is_no_response(r),
{
    NetworkError::ProtocolError(String::from_str("No response configured"))
}

/// The error says that no answer is prepared.
pub open spec fn is_no_response(error: NetworkError) -> bool {
    error matches NetworkError::ProtocolError(msg) && msg@ == "No response configured"@
}

impl PrepareResponse {
    /// The responses say the same.
    pub open spec fn same(self, other: PrepareResponse) -> bool {
        &&& self.ready == other.ready
        &&& match (self.reason, other.reason) {
            (Some(a), Some(b)) => a@ == b@,
            (None, None) => true,
            _ => false,
        }
    }

    /// A copy.
    pub fn copied(&self) -> (r: PrepareResponse)
        ensures
            r.same(*self),
    {
        let reason = match &self.reason {
            Some(text) => Some(String::from_str(text.as_str())),
            None => None,
        };
        PrepareResponse { ready: self.ready, reason }
    }
}

impl ShardClient for MockShardClient {
    open spec fn says_healthy(&self, r: bool) -> bool {
        r == self.healthy
    }

    open spec fn may_answer(
        &self,
        query_id: u64,
        query_data: Seq<u8>,
        after: &Self,
        r: NetworkResult<Vec<u8>>,
    ) -> bool {
        match self.verdict() {
            Err(error) => {
                &&& r == Err::<Vec<u8>, NetworkError>(error)
                &&& *after == self.after_call(Method::Query)
            },
            Ok(_) => {
                &&& r matches Ok(data)
                &&& data@ == self.query_response@
                &&& after.query_received matches Some(received)
                &&& received@ == query_data
                &&& *after == (MockShardClient {
                    query_received: Some(received),
                    ..self.after_call(Method::Query)
                })
            },
        }
    }

    fn shard_id(&self) -> (r: ShardId)
        ensures
            r == self.shard_id,
    {
        self.shard_id
    }

    fn is_healthy(&self) -> (r: bool) {
        self.healthy
    }

    fn prepare(
        &mut self,
        tx_id: TxId,
        operations: &[u8],
        timestamp: Option<HybridTimestamp>,
    ) -> (r: NetworkResult<PrepareResponse>)
        ensures
            *final(self) == old(self).after_call(Method::Prepare),
            match old(self).verdict() {
                Err(error) => r == Err::<PrepareResponse, NetworkError>(error),
                Ok(_) => match old(self).prepare_response {
                    Some(response) => r is Ok && r->Ok_0.same(response),
                    None => r is Err && is_no_response(r->Err_0),
                },
            },
    {
        match self.begin(Method::Prepare) {
            Err(error) => Err(error),
            Ok(_) => match &self.prepare_response {
                Some(response) => Ok(response.copied()),
                None => Err(no_response()),
            },
        }
    }

    fn commit(&mut self, tx_id: TxId, timestamp: Option<HybridTimestamp>) -> (r: NetworkResult<
        CommitResponse,
    >)
        ensures
            *final(self) == old(self).after_call(Method::Commit),
            match old(self).verdict() {
                Err(error) => r == Err::<CommitResponse, NetworkError>(error),
                Ok(_) => match old(self).commit_response {
                    Some(response) => r == Ok::<CommitResponse, NetworkError>(response),
                    None => r is Err && is_no_response(r->Err_0),
                },
            },
    {
        match self.begin(Method::Commit) {
            Err(error) => Err(error),
            Ok(_) => match self.commit_response {
                Some(response) => Ok(response),
                None => Err(no_response()),
            },
        }
    }

    fn abort(&mut self, tx_id: TxId) -> (r: NetworkResult<AbortResponse>)
        ensures
            *final(self) == old(self).after_call(Method::Abort),
            match old(self).verdict() {
                Err(error) => r == Err::<AbortResponse, NetworkError>(error),
                Ok(_) => match old(self).abort_response {
                    Some(response) => r == Ok::<AbortResponse, NetworkError>(response),
                    None => r is Err && is_no_response(r->Err_0),
                },
            },
    {
        match self.begin(Method::Abort) {
            Err(error) => Err(error),
            Ok(_) => match self.abort_response {
                Some(response) => Ok(response),
                None => Err(no_response()),
            },
        }
    }

    fn query(&mut self, query_id: u64, query_data: &[u8]) -> (r: NetworkResult<Vec<u8>>) {
        match self.begin(Method::Query) {
            Err(error) => Err(error),
            Ok(_) => {
                self.query_received = Some(copy_bytes(query_data));
                Ok(copy_bytes(self.query_response.as_slice()))
            },
        }
    }

    fn get_state(&mut self) -> (r: NetworkResult<ShardState>)
        ensures
            *final(self) == old(self).after_call(Method::GetState),
            r == (match old(self).verdict() {
                Err(error) => Err(error),
                Ok(_) => Ok::<ShardState, NetworkError>(old(self).state),
            }),
    {
        match self.begin(Method::GetState) {
            Err(error) => Err(error),
            Ok(_) => Ok(self.state),
        }
    }

    fn receive_migration_batch(&mut self, batch: MigrationBatch) -> (r: NetworkResult<
        MigrationResponse,
    >)
        ensures
            *final(self) == old(self).after_call(Method::ReceiveMigrationBatch),
            r == (match old(self).verdict() {
                Err(error) => Err(error),
                Ok(_) => Ok::<MigrationResponse, NetworkError>(
                    MigrationResponse {
                        accepted: true,
                        nodes_written: batch.nodes@.len() as u64,
                        edges_written: batch.edges@.len() as u64,
                        error: None,
                    },
                ),
            }),
    {
        match self.begin(Method::ReceiveMigrationBatch) {
            Err(error) => Err(error),
            Ok(_) => Ok(
                MigrationResponse {
                    accepted: true,
                    nodes_written: batch.nodes.len() as u64,
                    edges_written: batch.edges.len() as u64,
                    error: None,
                },
            ),
        }
    }

    fn extract_migration_batch(
        &mut self,
        migration_id: u64,
        labels: &[String],
        batch_size: usize,
        offset: u64,
    ) -> (r: NetworkResult<MigrationBatch>)
        ensures
            *final(self) == old(self).after_call(Method::ExtractMigrationBatch),
            match old(self).verdict() {
                Err(error) => r == Err::<MigrationBatch, NetworkError>(error),
                Ok(_) => {
                    &&& r is Ok
                    &&& r->Ok_0.migration_id == migration_id
                    &&& r->Ok_0.batch_number == offset / (batch_size as u64)
                    &&& r->Ok_0.is_last
                    &&& r->Ok_0.nodes@.len() == 0
                    &&& r->Ok_0.edges@.len() == 0
                    &&& r->Ok_0.checksum == 0
                },
            },
    {
        match self.begin(Method::ExtractMigrationBatch) {
            Err(error) => Err(error),
            Ok(_) => Ok(
                MigrationBatch {
                    migration_id,
                    batch_number: offset / (batch_size as u64),
                    is_last: true,
                    nodes: Vec::new(),
                    edges: Vec::new(),
                    checksum: 0,
                },
            ),
        }
    }

    fn health_check(&mut self) -> (r: NetworkResult<()>)
        ensures
            *final(self) == old(self).after_call(Method::HealthCheck),
            r == old(self).verdict(),
    {
        self.begin(Method::HealthCheck)
    }
}

/// How often a method with the given name is called in a run of steps. A step may be no call.
pub open spec fn times_called(calls: Seq<Option<Method>>, name: Seq<char>) -> nat
    decreases calls.len(),
{
    if calls.len() == 0 {
        0
    } else {
        times_called(calls.drop_last(), name) + if calls.last() is Some && calls.last()->0.name()
            == name {
            1nat
        } else {
            0
        }
    }
}

/// The clients that a run of steps leads through: a call counts, whatever comes of it, and a step
/// that is no call leaves the counts alone.
pub open spec fn leads_through(
    clients: Seq<MockShardClient>,
    calls: Seq<Option<Method>>,
) -> bool {
    &&& clients.len() == calls.len() + 1
    &&& forall|i: int|
        0 <= i < calls.len() ==> clients[i + 1].call_counts == match #[trigger] calls[i] {
            Some(method) => clients[i].after_call(method).call_counts,
            None => clients[i].call_counts,
        }
}

proof fn lemma_names_differ(a: Method, b: Method)
    ensures
        a.name() == b.name() ==> a == b,
{
    reveal_strlit("prepare");
    reveal_strlit("commit");
    reveal_strlit("abort");
    reveal_strlit("query");
    reveal_strlit("get_state");
    reveal_strlit("receive_migration_batch");
    reveal_strlit("extract_migration_batch");
    reveal_strlit("health_check");
    assert("prepare"@.len() == 7 && "commit"@.len() == 6 && "get_state"@.len() == 9);
    assert("abort"@.len() == 5 && "query"@.len() == 5 && "health_check"@.len() == 12);
    assert("receive_migration_batch"@.len() == 23 && "extract_migration_batch"@.len() == 23);
    assert("abort"@[0] != "query"@[0]);
    assert("receive_migration_batch"@[0] != "extract_migration_batch"@[0]);
}

proof fn lemma_call_counts_one(counts: CallCounts, method: Method, name: Seq<char>)
    ensures
        counts.with_call(method).named(name) == if method.name() == name {
            next_usize(counts.named(name))
        } else {
            counts.named(name)
        },
{
    lemma_names_differ(method, Method::Prepare);
    lemma_names_differ(method, Method::Commit);
    lemma_names_differ(method, Method::Abort);
    lemma_names_differ(method, Method::Query);
    lemma_names_differ(method, Method::GetState);
    lemma_names_differ(method, Method::ReceiveMigrationBatch);
    lemma_names_differ(method, Method::ExtractMigrationBatch);
    lemma_names_differ(method, Method::HealthCheck);
}

/// Over any run of steps from a client that counted nothing, the count of a name is how often a
/// method of that name was called, failed calls included; zero for any other name.
pub proof fn law_calls_are_counted(
    clients: Seq<MockShardClient>,
    calls: Seq<Option<Method>>,
    name: Seq<char>,
)
    requires
        leads_through(clients, calls),
        clients[0].call_counts.named(name) == 0,
        calls.len() <= usize::MAX,
    ensures
        clients.last().call_counts.named(name) == times_called(calls, name),
        times_called(calls, name) <= calls.len(),
        (forall|method: Method| #[trigger] method.name() != name) ==> times_called(calls, name)
            == 0,
    decreases calls.len(),
{
    if calls.len() > 0 {
        let fewer = calls.drop_last();
        let sooner = clients.drop_last();
        assert forall|i: int| 0 <= i < fewer.len() implies sooner[i + 1].call_counts == match
        #[trigger] fewer[i] {
            Some(method) => sooner[i].after_call(method).call_counts,
            None => sooner[i].call_counts,
        } by {
            assert(fewer[i] == calls[i]);
        }
        law_calls_are_counted(sooner, fewer, name);
        let last = calls.len() - 1;
        assert(calls[last] == calls.last());
        assert(clients[last] == sooner.last());
        if let Some(method) = calls.last() {
            lemma_call_counts_one(clients[last].call_counts, method, name);
        }
    }
}

/// A planned failure happens once: the next call fails with it, whatever the client's health. From
/// then on calls are answered exactly if the client is healthy, and are refused as unavailable if
/// it is not.
pub proof fn law_planned_failure_happens_once(client: MockShardClient, method: Method, again: Method)
    ensures
        ({
            let after = client.after_call(method);
            let usual = if client.healthy {
                Ok::<(), NetworkError>(())
            } else {
                Err(NetworkError::ShardUnavailable(client.shard_id))
            };
            &&& client.failure matches Some(error) ==> client.verdict() == Err::<(), NetworkError>(error)
            &&& client.failure is None ==> client.verdict() == usual
            &&& after.verdict() == usual
            &&& after.after_call(again).verdict() == usual
            &&& after.healthy == client.healthy && after.shard_id == client.shard_id
            &&& after.query_response == client.query_response && after.state == client.state
        }),
{
}

/// A client for tests that answers gives the answer that was set and remembers the query; one that
/// fails remembers nothing new. Either way the query is counted.
pub proof fn law_answers_what_was_set(
    client: MockShardClient,
    query_id: u64,
    query: Seq<u8>,
    after: MockShardClient,
    r: NetworkResult<Vec<u8>>,
)
    requires
        client.may_answer(query_id, query, &after, r),
        client.call_counts.query < usize::MAX,
    ensures
        r is Ok <==> client.failure is None && client.healthy,
        r matches Ok(data) ==> data@ == client.query_response@ && after.query_received is Some
            && after.query_received->0@ == query,
        r is Err ==> after.query_received == client.query_received,
        after.call_counts.query == client.call_counts.query + 1,
        after.call_counts.prepare == client.call_counts.prepare && after.call_counts.commit
            == client.call_counts.commit,
        after.query_response == client.query_response && after.healthy == client.healthy,
{
}

} // verus!

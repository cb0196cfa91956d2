//! What clients of shards can be asked, and what can go wrong.

use crate::ids::{EdgeId, NodeId, ShardId, TxId};
use crate::temporal::HybridTimestamp;
use crate::text::{decimal, law_decimals_tell_numbers_apart, lemma_same_middle, push_decimal};
use crate::time::Duration;
use vstd::prelude::*;

verus! {

/// Errors of talking to a shard.
#[derive(Clone, Debug)]
pub enum NetworkError {
    /// The connection failed.
    ConnectionFailed {
        /// The shard.
        shard_id: ShardId,
        /// Why.
        reason: String,
    },
    /// A request took too long.
    Timeout {
        /// The shard.
        shard_id: ShardId,
        /// What was asked.
        operation: String,
        /// How long it took.
        duration: Duration,
    },
    /// The circuit breaker lets no request through.
    CircuitOpen {
        /// The shard.
        shard_id: ShardId,
        /// For how long still.
        remaining: Duration,
    },
    /// The shard cannot be reached.
    ShardUnavailable(ShardId),
    /// A message could not be written or read.
    SerializationError(String),
    /// A reply made no sense.
    ProtocolError(String),
    /// All connections are in use.
    PoolExhausted {
        /// The shard.
        shard_id: ShardId,
        /// How many connections there may be.
        max_connections: usize,
    },
}

/// The result of talking to a shard.
pub type NetworkResult<T> = Result<T, NetworkError>;

/// The name of a shard in messages.
pub open spec fn shard_name(shard_id: ShardId) -> Seq<char> {
    "shard-"@ + decimal(shard_id.0 as nat)
}

/// Appends the name of a shard.
pub fn push_shard_name(out: &mut String, shard_id: ShardId)
    ensures
        final(out)@ == old(out)@ + shard_name(shard_id),
{
    let ghost before = out@;
    out.append("shard-");
    push_decimal(out, shard_id.0 as u64);
    assert(out@ =~= before + shard_name(shard_id));
}

impl NetworkError {
    /// What the error says.
    pub open spec fn spec_message(self) -> Seq<char> {
        match self {
            NetworkError::ConnectionFailed { shard_id, reason } => "Connection to "@ + shard_name(
                shard_id,
            ) + " failed: "@ + reason@,
            NetworkError::Timeout { shard_id, operation, duration } => "Operation '"@ + operation@
                + "' on "@ + shard_name(shard_id) + " timed out after "@ + duration.spec_text(),
            NetworkError::CircuitOpen { shard_id, remaining } => "Circuit breaker open for "@
                + shard_name(shard_id) + ", "@ + decimal(remaining.whole_secs() as nat)
                + " remaining"@,
            NetworkError::ShardUnavailable(shard_id) => "Shard "@ + shard_name(shard_id)
                + " is unavailable"@,
            NetworkError::SerializationError(msg) => "Serialization error: "@ + msg@,
            NetworkError::ProtocolError(msg) => "Protocol error: "@ + msg@,
            NetworkError::PoolExhausted { shard_id, max_connections } =>
                "Connection pool exhausted for "@ + shard_name(shard_id) + " (max: "@ + decimal(
                max_connections as nat,
            ) + ")"@,
        }
    }

    /// What the error says.
    pub fn message(&self) -> (r: String)
        ensures
            r@ == self.spec_message(),
    {
        match self {
            NetworkError::ConnectionFailed { shard_id, reason } => {
                let mut out = String::from_str("Connection to ");
                push_shard_name(&mut out, *shard_id);
                out.append(" failed: ");
                out.append(reason.as_str());
                out
            },
            NetworkError::Timeout { shard_id, operation, duration } => {
                let mut out = String::from_str("Operation '");
                out.append(operation.as_str());
                out.append("' on ");
                push_shard_name(&mut out, *shard_id);
                out.append(" timed out after ");
                out.append(duration.text().as_str());
                out
            },
            NetworkError::CircuitOpen { shard_id, remaining } => {
                let mut out = String::from_str("Circuit breaker open for ");
                push_shard_name(&mut out, *shard_id);
                out.append(", ");
                push_decimal(&mut out, remaining.as_secs());
                out.append(" remaining");
                out
            },
            NetworkError::ShardUnavailable(shard_id) => {
                let mut out = String::from_str("Shard ");
                push_shard_name(&mut out, *shard_id);
                out.append(" is unavailable");
                out
            },
            NetworkError::SerializationError(msg) => {
                let mut out = String::from_str("Serialization error: ");
                out.append(msg.as_str());
                out
            },
            NetworkError::ProtocolError(msg) => {
                let mut out = String::from_str("Protocol error: ");
                out.append(msg.as_str());
                out
            },
            NetworkError::PoolExhausted { shard_id, max_connections } => {
                let mut out = String::from_str("Connection pool exhausted for ");
                push_shard_name(&mut out, *shard_id);
                out.append(" (max: ");
                push_decimal(&mut out, *max_connections as u64);
                out.append(")");
                out
            },
        }
    }
}

/// Reply to a request to prepare a commit.
#[derive(Clone, Debug)]
pub struct PrepareResponse {
    /// Whether the shard is ready to commit.
    pub ready: bool,
    /// Why not, if it is not.
    pub reason: Option<String>,
}

/// Reply to a request to commit.
#[derive(Clone, Copy, Debug, PartialEq, Eq, Structural)]
pub struct CommitResponse {
    /// Whether the commit succeeded.
    pub success: bool,
}

/// Reply to a request to abort.
#[derive(Clone, Copy, Debug, PartialEq, Eq, Structural)]
pub struct AbortResponse {
    /// Whether the abort was acknowledged.
    pub acknowledged: bool,
}

/// A node on its way to another shard.
#[derive(Clone, Debug)]
pub struct NodeData {
    /// The node.
    pub id: NodeId,
    /// Its label.
    pub label: String,
    /// Its properties, serialized.
    pub properties: Vec<u8>,
    /// From when on it holds.
    pub valid_from: u64,
    /// Until when it holds; `None` when it still does.
    pub valid_to: Option<u64>,
}

/// An edge on its way to another shard.
#[derive(Clone, Debug)]
pub struct EdgeData {
    /// The edge.
    pub id: EdgeId,
    /// Where it starts.
    pub source: NodeId,
    /// Where it ends.
    pub target: NodeId,
    /// Its type.
    pub label: String,
    /// Its properties, serialized.
    pub properties: Vec<u8>,
    /// From when on it holds.
    pub valid_from: u64,
    /// Until when it holds; `None` when it still does.
    pub valid_to: Option<u64>,
}

/// Nodes and edges on their way to another shard.
#[derive(Clone, Debug)]
pub struct MigrationBatch {
    /// The migration.
    pub migration_id: u64,
    /// Number of the batch within the migration.
    pub batch_number: u64,
    /// Whether this is the last batch.
    pub is_last: bool,
    /// The nodes.
    pub nodes: Vec<NodeData>,
    /// The edges.
    pub edges: Vec<EdgeData>,
    /// Checksum of the batch.
    pub checksum: u64,
}

/// Reply to a batch.
#[derive(Clone, Debug)]
pub struct MigrationResponse {
    /// Whether the batch was accepted.
    pub accepted: bool,
    /// How many nodes were written.
    pub nodes_written: u64,
    /// How many edges were written.
    pub edges_written: u64,
    /// Why not, if it was not accepted.
    pub error: Option<String>,
}

/// What a shard says of itself.
#[derive(Clone, Copy, Debug, PartialEq, Eq, Structural)]
pub struct ShardState {
    /// The shard.
    pub shard_id: ShardId,
    /// How many nodes it holds.
    pub node_count: u64,
    /// How many edges it holds.
    pub edge_count: u64,
}

impl ShardState {
    /// The state of a shard that holds nothing.
    pub fn new(shard_id: ShardId) -> (r: ShardState)
        ensures
            r == (ShardState { shard_id, node_count: 0, edge_count: 0 }),
    {
        ShardState { shard_id, node_count: 0, edge_count: 0 }
    }
}

/// The bytes of a message, as contracts speak of them.
pub type ByteSeq = Seq<u8>;

/// A client of a shard. Every call blocks until the reply is there.
pub trait ShardClient: Sized {
    /// The client may answer a question for its health with `r`.
    spec fn says_healthy(&self, r: bool) -> bool;

    /// Asked the query, the client may answer with `r` and be in state `after` then.
    spec fn may_answer(
        &self,
        query_id: u64,
        query_data: ByteSeq,
        after: &Self,
        r: NetworkResult<Vec<u8>>,
    ) -> bool;

    /// The shard that the client talks to.
    fn shard_id(&self) -> ShardId;

    /// Whether the connection is healthy.
    fn is_healthy(&self) -> (r: bool)
        ensures
            self.says_healthy(r),
    ;

    /// Asks the shard to prepare a commit.
    fn prepare(
        &mut self,
        tx_id: TxId,
        operations: &[u8],
        timestamp: Option<HybridTimestamp>,
    ) -> NetworkResult<PrepareResponse>;

    /// Asks the shard to commit.
    fn commit(
        &mut self,
        tx_id: TxId,
        timestamp: Option<HybridTimestamp>,
    ) -> NetworkResult<CommitResponse>;

    /// Asks the shard to abort.
    fn abort(&mut self, tx_id: TxId) -> NetworkResult<AbortResponse>;

    /// Asks the shard a query.
    fn query(&mut self, query_id: u64, query_data: &[u8]) -> (r: NetworkResult<Vec<u8>>)
        ensures
            old(self).may_answer(query_id, query_data@, final(self), r),
    ;

    /// Asks the shard for its state.
    fn get_state(&mut self) -> NetworkResult<ShardState>;

    /// Hands the shard a batch of nodes and edges.
    fn receive_migration_batch(&mut self, batch: MigrationBatch) -> NetworkResult<
        MigrationResponse,
    >;

    /// Asks the shard for a batch of nodes and edges.
    fn extract_migration_batch(
        &mut self,
        migration_id: u64,
        labels: &[String],
        batch_size: usize,
        offset: u64,
    ) -> (r: NetworkResult<MigrationBatch>)
        requires
            batch_size > 0,
    ;

    /// Asks the shard whether it is well.
    fn health_check(&mut self) -> NetworkResult<()>;
}

/// Messages name the shard in full: errors that differ in the shard alone have different messages.
pub proof fn law_messages_name_the_shard(
    a: ShardId,
    b: ShardId,
    reason: String,
    operation: String,
    duration: Duration,
    max_connections: usize,
)
    requires
        a != b,
    ensures
        shard_name(a) != shard_name(b),
        NetworkError::ShardUnavailable(a).spec_message() != NetworkError::ShardUnavailable(b).spec_message(),
        (NetworkError::ConnectionFailed { shard_id: a, reason }).spec_message() != (
        NetworkError::ConnectionFailed { shard_id: b, reason }).spec_message(),
        (NetworkError::Timeout { shard_id: a, operation, duration }).spec_message() != (
        NetworkError::Timeout { shard_id: b, operation, duration }).spec_message(),
        (NetworkError::CircuitOpen { shard_id: a, remaining: duration }).spec_message() != (
        NetworkError::CircuitOpen { shard_id: b, remaining: duration }).spec_message(),
        (NetworkError::PoolExhausted { shard_id: a, max_connections }).spec_message() != (
        NetworkError::PoolExhausted { shard_id: b, max_connections }).spec_message(),
{
    let none = Seq::<char>::empty();
    if shard_name(a) == shard_name(b) {
        assert(shard_name(a) =~= "shard-"@ + decimal(a.0 as nat) + none);
        assert(shard_name(b) =~= "shard-"@ + decimal(b.0 as nat) + none);
        lemma_same_middle("shard-"@, decimal(a.0 as nat), decimal(b.0 as nat), none);
        law_decimals_tell_numbers_apart(a.0 as nat, b.0 as nat);
    }
    let secs = decimal(duration.whole_secs() as nat);
    let most = decimal(max_connections as nat);
    lemma_names_apart("Shard "@, a, b, " is unavailable"@);
    lemma_names_apart("Connection to "@, a, b, " failed: "@ + reason@);
    lemma_names_apart(
        "Operation '"@ + operation@ + "' on "@,
        a,
        b,
        " timed out after "@ + duration.spec_text(),
    );
    lemma_names_apart("Circuit breaker open for "@, a, b, ", "@ + secs + " remaining"@);
    lemma_names_apart("Connection pool exhausted for "@, a, b, " (max: "@ + most + ")"@);
    assert forall|s: ShardId|
        #![trigger shard_name(s)]
        {
            &&& (NetworkError::ConnectionFailed { shard_id: s, reason }).spec_message()
                =~= "Connection to "@ + shard_name(s) + (" failed: "@ + reason@)
            &&& (NetworkError::Timeout { shard_id: s, operation, duration }).spec_message()
                =~= "Operation '"@ + operation@ + "' on "@ + shard_name(s) + (" timed out after "@
                + duration.spec_text())
            &&& (NetworkError::CircuitOpen { shard_id: s, remaining: duration }).spec_message()
                =~= "Circuit breaker open for "@ + shard_name(s) + (", "@ + secs + " remaining"@)
            &&& (NetworkError::PoolExhausted { shard_id: s, max_connections }).spec_message()
                =~= "Connection pool exhausted for "@ + shard_name(s) + (" (max: "@ + most + ")"@)
        } by {}
}

proof fn lemma_names_apart(before: Seq<char>, a: ShardId, b: ShardId, after: Seq<char>)
    ensures
        before + shard_name(a) + after == before + shard_name(b) + after ==> shard_name(a)
            == shard_name(b),
{
    if before + shard_name(a) + after == before + shard_name(b) + after {
        lemma_same_middle(before, shard_name(a), shard_name(b), after);
    }
}

/// Messages tell what happened in full: errors that differ in their reason, in the whole seconds
/// that are left, or in how many connections there may be, have different messages.
pub proof fn law_messages_tell_what_happened(
    shard_id: ShardId,
    x: String,
    y: String,
    d: Duration,
    e: Duration,
    m: usize,
    n: usize,
)
    ensures
        x@ != y@ ==> {
            &&& (NetworkError::ConnectionFailed { shard_id, reason: x }).spec_message() != (
            NetworkError::ConnectionFailed { shard_id, reason: y }).spec_message()
            &&& NetworkError::SerializationError(x).spec_message() != NetworkError::SerializationError(
                y,
            ).spec_message()
            &&& NetworkError::ProtocolError(x).spec_message() != NetworkError::ProtocolError(
                y,
            ).spec_message()
        },
        d.whole_secs() != e.whole_secs() ==> (NetworkError::CircuitOpen {
            shard_id,
            remaining: d,
        }).spec_message() != (NetworkError::CircuitOpen { shard_id, remaining: e }).spec_message(),
        m != n ==> (NetworkError::PoolExhausted { shard_id, max_connections: m }).spec_message() != (
        NetworkError::PoolExhausted { shard_id, max_connections: n }).spec_message(),
{
    let name = shard_name(shard_id);
    lemma_ends_apart("Connection to "@ + name + " failed: "@, x@, y@);
    lemma_ends_apart("Serialization error: "@, x@, y@);
    lemma_ends_apart("Protocol error: "@, x@, y@);
    let (ds, es) = (d.whole_secs() as nat, e.whole_secs() as nat);
    let open = "Circuit breaker open for "@ + name + ", "@;
    if open + decimal(ds) + " remaining"@ == open + decimal(es) + " remaining"@ {
        lemma_same_middle(open, decimal(ds), decimal(es), " remaining"@);
        law_decimals_tell_numbers_apart(ds, es);
    }
    let full = "Connection pool exhausted for "@ + name + " (max: "@;
    if full + decimal(m as nat) + ")"@ == full + decimal(n as nat) + ")"@ {
        lemma_same_middle(full, decimal(m as nat), decimal(n as nat), ")"@);
        law_decimals_tell_numbers_apart(m as nat, n as nat);
    }
}

proof fn lemma_ends_apart(before: Seq<char>, a: Seq<char>, b: Seq<char>)
    ensures
        before + a == before + b ==> a == b,
{
    let none = Seq::<char>::empty();
    if before + a == before + b {
        assert(before + a =~= before + a + none);
        assert(before + b =~= before + b + none);
        lemma_same_middle(before, a, b, none);
    }
}

} // verus!

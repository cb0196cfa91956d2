//! Shard clients, circuit breakers, pools, and distributed queries.

use aletheia_storage::ids::{NodeId, ShardId, TxId};
use aletheia_storage::ratio::Ratio;
use aletheia_storage::sharding::breaker::{CircuitBreaker, CircuitBreakerConfig, CircuitState};
use aletheia_storage::sharding::executor::{ExecutorConfig, QueryExecutor, Step};
use aletheia_storage::sharding::mock::MockShardClient;
use aletheia_storage::sharding::network::{
    AbortResponse, CommitResponse, EdgeData, MigrationBatch, NetworkError, NodeData,
    PrepareResponse, ShardClient, ShardState,
};
use aletheia_storage::sharding::pool::{ConnectionPool, PoolConfig};
use aletheia_storage::sharding::query::{
    aggregate_results, result_count, AggregationStrategy, DistributedQuery, ExecutorError,
    QueryResult, ShardResult,
};
use aletheia_storage::sharding::router::{
    ShardConfig, ShardDefinition, ShardRouter, TraversalPlan, TraversalStep,
};
use aletheia_storage::time::Duration;

fn make_shard_id(id: u16) -> ShardId {
    ShardId::new(id).unwrap()
}

fn test_config() -> ShardConfig {
    ShardConfig::new(vec![
        ShardDefinition::new(0, "shard0:9000", vec!["Person", "User", "Account"]),
        ShardDefinition::new(1, "shard1:9000", vec!["Place", "Location", "Address"]),
        ShardDefinition::new(2, "shard2:9000", vec!["Event", "Transaction", "Activity"]),
    ])
}

fn test_router() -> ShardRouter {
    ShardRouter::new(test_config())
}

fn executor() -> QueryExecutor<MockShardClient> {
    QueryExecutor::new(ExecutorConfig::default(), test_router())
}

fn rate(r: Ratio) -> f64 {
    r.part as f64 / r.whole as f64
}

fn u32_at(data: &[u8], offset: usize) -> u32 {
    u32::from_le_bytes([data[offset], data[offset + 1], data[offset + 2], data[offset + 3]])
}

fn u16_at(data: &[u8], offset: usize) -> u16 {
    u16::from_le_bytes([data[offset], data[offset + 1]])
}

fn wait(millis: u64) {
    let begin = std::time::Instant::now();
    while begin.elapsed() < std::time::Duration::from_millis(millis) {}
}

#[test]
fn test_executor_error_display() {
    let err = ExecutorError::NoShardsAvailable;
    assert!(err.message().contains("No shards"));

    let err = ExecutorError::InvalidQuery("bad".into());
    assert!(err.message().contains("Invalid"));

    let err = ExecutorError::AllShardsFailed { query_id: 1, failures: vec![] };
    assert!(err.message().contains("failed on all"));
}

#[test]
fn test_distributed_query_creation() {
    let query = DistributedQuery::new(1, vec![1, 2, 3]);
    assert_eq!(query.id, 1);
    assert_eq!(query.data, vec![1, 2, 3]);
    assert!(query.target_shards.is_none());
}

#[test]
fn test_distributed_query_builders() {
    let query = DistributedQuery::new(1, vec![])
        .with_shards(vec![make_shard_id(0), make_shard_id(1)])
        .with_timeout(Duration::from_secs(10))
        .with_aggregation(AggregationStrategy::Sum);

    assert_eq!(query.target_shards.unwrap().len(), 2);
    assert_eq!(query.timeout.unwrap(), Duration::from_secs(10));
    assert_eq!(query.aggregation, AggregationStrategy::Sum);
}

fn result_of(shards_queried: usize, shards_succeeded: usize, total_results: usize) -> QueryResult {
    QueryResult {
        query_id: 1,
        data: vec![],
        shard_results: vec![],
        total_time: Duration::from_millis(100),
        shards_queried,
        shards_succeeded,
        total_results,
    }
}

#[test]
fn test_query_result_complete() {
    let result = result_of(3, 3, 10);

    assert!(result.is_complete());
    assert!((rate(result.success_rate()) - 1.0).abs() < 0.001);
}

#[test]
fn test_query_result_partial() {
    let result = result_of(3, 2, 5);

    assert!(!result.is_complete());
    assert!((rate(result.success_rate()) - 0.666).abs() < 0.01);
}

#[test]
fn test_executor_creation() {
    let executor = executor();

    assert_eq!(executor.stats().registered_clients, 0);
    assert_eq!(executor.stats().queries_executed, 0);
}

#[test]
fn test_executor_register_client() {
    let mut executor = executor();

    executor.register_client(make_shard_id(0), MockShardClient::new(make_shard_id(0)));

    assert_eq!(executor.stats().registered_clients, 1);
}

#[test]
fn test_executor_unregister_client() {
    let mut executor = executor();

    executor.register_client(make_shard_id(0), MockShardClient::new(make_shard_id(0)));
    executor.unregister_client(make_shard_id(0));

    assert_eq!(executor.stats().registered_clients, 0);
}

#[test]
fn test_executor_no_shards() {
    let mut executor = executor();

    let query = DistributedQuery::new(1, vec![]);
    let result = executor.execute(query);

    assert!(matches!(result, Err(ExecutorError::NoShardsAvailable)));
}

#[test]
fn test_executor_single_shard_success() {
    let mut executor = executor();

    executor.register_client(make_shard_id(0), MockShardClient::new(make_shard_id(0)));

    let query = DistributedQuery::new(1, vec![1, 2, 3]).with_shards(vec![make_shard_id(0)]);

    let result = executor.execute(query).unwrap();
    assert_eq!(result.shards_queried, 1);
    assert_eq!(result.shards_succeeded, 1);
    assert!(result.is_complete());
}

#[test]
fn test_executor_multiple_shards_success() {
    let mut executor = executor();

    for i in 0..3 {
        executor.register_client(make_shard_id(i), MockShardClient::new(make_shard_id(i)));
    }

    let query = DistributedQuery::new(1, vec![]).with_shards(vec![
        make_shard_id(0),
        make_shard_id(1),
        make_shard_id(2),
    ]);

    let result = executor.execute(query).unwrap();
    assert_eq!(result.shards_queried, 3);
    assert_eq!(result.shards_succeeded, 3);
}

#[test]
fn test_executor_partial_failure() {
    let mut executor = executor();

    let client0 = MockShardClient::new(make_shard_id(0));
    let mut client1 = MockShardClient::new(make_shard_id(1));
    client1.set_healthy(false);

    executor.register_client(make_shard_id(0), client0);
    executor.register_client(make_shard_id(1), client1);

    let query =
        DistributedQuery::new(1, vec![]).with_shards(vec![make_shard_id(0), make_shard_id(1)]);

    let result = executor.execute(query);
    assert!(matches!(result, Err(ExecutorError::PartialFailure { .. })));
}

#[test]
fn test_executor_partial_allowed() {
    let config = ExecutorConfig { allow_partial_results: true, ..Default::default() };
    let mut executor: QueryExecutor<MockShardClient> = QueryExecutor::new(config, test_router());

    let client0 = MockShardClient::new(make_shard_id(0));
    let mut client1 = MockShardClient::new(make_shard_id(1));
    client1.set_healthy(false);

    executor.register_client(make_shard_id(0), client0);
    executor.register_client(make_shard_id(1), client1);

    let query =
        DistributedQuery::new(1, vec![]).with_shards(vec![make_shard_id(0), make_shard_id(1)]);

    let result = executor.execute(query).unwrap();
    assert_eq!(result.shards_queried, 2);
    assert_eq!(result.shards_succeeded, 1);
}

#[test]
fn test_executor_all_failed() {
    let mut executor = executor();

    let mut client0 = MockShardClient::new(make_shard_id(0));
    client0.set_healthy(false);

    executor.register_client(make_shard_id(0), client0);

    let query = DistributedQuery::new(1, vec![]).with_shards(vec![make_shard_id(0)]);

    let result = executor.execute(query);
    assert!(matches!(result, Err(ExecutorError::AllShardsFailed { .. })));
}

#[test]
fn test_aggregation_concat() {
    let mut executor = executor();

    executor.register_client(make_shard_id(0), MockShardClient::new(make_shard_id(0)));
    executor.register_client(make_shard_id(1), MockShardClient::new(make_shard_id(1)));

    let query = DistributedQuery::new(1, vec![])
        .with_shards(vec![make_shard_id(0), make_shard_id(1)])
        .with_aggregation(AggregationStrategy::Concat);

    let result = executor.execute(query).unwrap();
    assert!(result.is_complete());
}

#[test]
fn test_aggregation_merge_nodes() {
    let mut executor = executor();

    let mut client0 = MockShardClient::new(make_shard_id(0));
    client0.set_query_response(vec![1, 2, 3]);

    let mut client1 = MockShardClient::new(make_shard_id(1));
    client1.set_query_response(vec![1, 2, 3, 4, 5]);

    executor.register_client(make_shard_id(0), client0);
    executor.register_client(make_shard_id(1), client1);

    let query = DistributedQuery::new(1, vec![])
        .with_shards(vec![make_shard_id(0), make_shard_id(1)])
        .with_aggregation(AggregationStrategy::MergeNodes);

    let result = executor.execute(query).unwrap();
    assert!(result.is_complete());
    assert_eq!(result.data, vec![1, 2, 3, 4, 5]);
}

#[test]
fn test_aggregation_count() {
    let mut executor = executor();

    executor.register_client(make_shard_id(0), MockShardClient::new(make_shard_id(0)));

    let query = DistributedQuery::new(1, vec![])
        .with_shards(vec![make_shard_id(0)])
        .with_aggregation(AggregationStrategy::Count);

    let result = executor.execute(query).unwrap();
    assert_eq!(result.data.len(), 8);
}

#[test]
fn test_aggregation_by_shard() {
    let mut executor = executor();

    executor.register_client(make_shard_id(0), MockShardClient::new(make_shard_id(0)));
    executor.register_client(make_shard_id(1), MockShardClient::new(make_shard_id(1)));

    let query = DistributedQuery::new(1, vec![])
        .with_shards(vec![make_shard_id(0), make_shard_id(1)])
        .with_aggregation(AggregationStrategy::ByShard);

    let result = executor.execute(query).unwrap();

    let mut offset = 0;

    let shard_count = u32_at(&result.data, offset);
    offset += 4;
    assert_eq!(shard_count, 2);

    let shard_id_1 = u16_at(&result.data, offset);
    offset += 2;
    let len_1 = u32_at(&result.data, offset);
    offset += 4;
    assert_eq!(len_1, 0);

    let shard_id_2 = u16_at(&result.data, offset);
    offset += 2;
    let len_2 = u32_at(&result.data, offset);
    assert_eq!(len_2, 0);

    assert!(shard_id_1 == 0 || shard_id_1 == 1);
    assert!(shard_id_2 == 0 || shard_id_2 == 1);
    assert_ne!(shard_id_1, shard_id_2);
}

#[test]
fn test_serialize_traversal_plan() {
    let executor = executor();

    let plan = TraversalPlan {
        start_shard: make_shard_id(0),
        involved_shards: vec![make_shard_id(0), make_shard_id(1)],
        steps: vec![
            TraversalStep {
                shard_id: make_shard_id(0),
                edge_labels: vec!["KNOWS".to_string(), "FRIEND".to_string()],
                may_cross_shard: true,
            },
            TraversalStep {
                shard_id: make_shard_id(1),
                edge_labels: vec!["WORKS_AT".to_string()],
                may_cross_shard: false,
            },
        ],
        is_distributed: false,
    };

    let serialized = executor.serialize_traversal_plan(&plan);

    assert_eq!(serialized.len(), 49);

    let mut offset = 0;

    assert_eq!(u32_at(&serialized, offset), 2);
    offset += 4;

    assert_eq!(u16_at(&serialized, offset), 0);
    offset += 2;

    assert_eq!(u32_at(&serialized, offset), 2);
    offset += 4;

    assert_eq!(u32_at(&serialized, offset), 5);
    offset += 4;

    let label_1 = std::str::from_utf8(&serialized[offset..offset + 5]).unwrap();
    assert_eq!(label_1, "KNOWS");

    assert_eq!(serialized.capacity(), serialized.len());
}

#[test]
fn test_executor_stats() {
    let mut executor = executor();

    executor.register_client(make_shard_id(0), MockShardClient::new(make_shard_id(0)));

    let query = DistributedQuery::new(1, vec![]).with_shards(vec![make_shard_id(0)]);
    let _ = executor.execute(query);

    let stats = executor.stats();
    assert_eq!(stats.queries_executed, 1);
    assert_eq!(stats.queries_failed, 0);
    assert!((rate(stats.success_rate()) - 1.0).abs() < 0.001);
}

#[test]
fn test_executor_stats_with_failures() {
    let mut executor = executor();

    let mut client = MockShardClient::new(make_shard_id(0));
    client.set_healthy(false);
    executor.register_client(make_shard_id(0), client);

    let query = DistributedQuery::new(1, vec![]).with_shards(vec![make_shard_id(0)]);
    let _ = executor.execute(query);

    let stats = executor.stats();
    assert_eq!(stats.queries_failed, 1);
}

#[test]
fn test_query_id_generation() {
    let mut executor = executor();

    let id1 = executor.next_query_id();
    let id2 = executor.next_query_id();
    let id3 = executor.next_query_id();

    assert_eq!(id1, 1);
    assert_eq!(id2, 2);
    assert_eq!(id3, 3);
}

#[test]
fn test_execute_traversal() {
    let mut executor = executor();

    let shard0 = make_shard_id(1);
    let shard1 = make_shard_id(2);

    let mut client0 = MockShardClient::new(shard0);
    let mut client1 = MockShardClient::new(shard1);

    client0.set_query_response(vec![1, 2, 3]);
    client1.set_query_response(vec![1, 2, 3, 4, 5]);

    executor.register_client(shard0, client0);
    executor.register_client(shard1, client1);

    let start_node = NodeId::new(42).unwrap();
    let result = executor.execute_traversal(start_node, "Place", &["Event"]).unwrap();

    assert_eq!(result.shards_queried, 2);

    let expected_query_data =
        executor.serialize_traversal_plan(&test_router().route_traversal("Place", &["Event"]));
    assert_eq!(
        executor.client(shard0).unwrap().query_received.as_ref().unwrap(),
        &expected_query_data
    );
    assert_eq!(
        executor.client(shard1).unwrap().query_received.as_ref().unwrap(),
        &expected_query_data
    );

    assert_eq!(result.data, vec![1, 2, 3, 4, 5]);
}

#[test]
fn test_network_error_display() {
    let err = NetworkError::ConnectionFailed {
        shard_id: make_shard_id(0),
        reason: "refused".to_string(),
    };
    assert!(err.message().contains("refused"));

    let err = NetworkError::Timeout {
        shard_id: make_shard_id(1),
        operation: "query".to_string(),
        duration: Duration::from_secs(30),
    };
    assert!(err.message().contains("query"));
    assert!(err.message().contains("timed out"));

    let err = NetworkError::CircuitOpen {
        shard_id: make_shard_id(2),
        remaining: Duration::from_secs(10),
    };
    assert!(err.message().contains("Circuit breaker"));

    let err = NetworkError::PoolExhausted { shard_id: make_shard_id(3), max_connections: 10 };
    assert!(err.message().contains("exhausted"));
}

#[test]
fn test_circuit_breaker_initial_state() {
    let mut cb = CircuitBreaker::new(CircuitBreakerConfig::default());
    assert_eq!(cb.state(), CircuitState::Closed);
    assert!(cb.should_allow());
}

#[test]
fn test_circuit_breaker_opens_on_failures() {
    let config = CircuitBreakerConfig { failure_threshold: 3, ..Default::default() };
    let mut cb = CircuitBreaker::new(config);

    cb.record_failure();
    assert_eq!(cb.state(), CircuitState::Closed);

    cb.record_failure();
    assert_eq!(cb.state(), CircuitState::Closed);

    cb.record_failure();
    assert_eq!(cb.state(), CircuitState::Open);
    assert!(!cb.should_allow());
}

#[test]
fn test_circuit_breaker_success_resets_count() {
    let config = CircuitBreakerConfig { failure_threshold: 3, ..Default::default() };
    let mut cb = CircuitBreaker::new(config);

    cb.record_failure();
    cb.record_failure();
    cb.record_success();

    cb.record_failure();
    cb.record_failure();
    assert_eq!(cb.state(), CircuitState::Closed);

    cb.record_failure();
    assert_eq!(cb.state(), CircuitState::Open);
}

fn quick_breaker() -> CircuitBreaker {
    CircuitBreaker::new(CircuitBreakerConfig {
        failure_threshold: 1,
        open_duration: Duration::from_millis(10),
        success_threshold: 2,
        ..Default::default()
    })
}

#[test]
fn test_circuit_breaker_half_open_transition() {
    let mut cb = quick_breaker();

    cb.record_failure();
    assert_eq!(cb.state(), CircuitState::Open);

    wait(20);

    assert_eq!(cb.state(), CircuitState::HalfOpen);
    assert!(cb.should_allow());
}

#[test]
fn test_circuit_breaker_closes_from_half_open() {
    let mut cb = quick_breaker();

    cb.record_failure();
    wait(20);
    assert_eq!(cb.state(), CircuitState::HalfOpen);

    cb.record_success();
    assert_eq!(cb.state(), CircuitState::HalfOpen);

    cb.record_success();
    assert_eq!(cb.state(), CircuitState::Closed);
}

#[test]
fn test_circuit_breaker_failure_in_half_open() {
    let mut cb = quick_breaker();

    cb.record_failure();
    wait(20);
    assert_eq!(cb.state(), CircuitState::HalfOpen);

    cb.record_failure();
    assert_eq!(cb.state(), CircuitState::Open);
}

#[test]
fn test_circuit_breaker_reset() {
    let config = CircuitBreakerConfig { failure_threshold: 1, ..Default::default() };
    let mut cb = CircuitBreaker::new(config);

    cb.record_failure();
    assert_eq!(cb.state(), CircuitState::Open);

    cb.reset();
    assert_eq!(cb.state(), CircuitState::Closed);
    assert!(cb.should_allow());
}

#[test]
fn test_circuit_breaker_remaining_time() {
    let config = CircuitBreakerConfig {
        failure_threshold: 1,
        open_duration: Duration::from_secs(30),
        ..Default::default()
    };
    let mut cb = CircuitBreaker::new(config);

    assert!(cb.remaining_open_time().is_none());

    cb.record_failure();
    let remaining = cb.remaining_open_time();
    assert!(remaining.is_some());
    assert!(remaining.unwrap() <= Duration::from_secs(30));
}

#[test]
fn test_pool_creation() {
    let mut pool: ConnectionPool<MockShardClient> = ConnectionPool::new(
        make_shard_id(0),
        PoolConfig::default(),
        CircuitBreakerConfig::default(),
    );

    assert_eq!(pool.shard_id(), make_shard_id(0));
    assert!(pool.is_available());
    assert_eq!(pool.circuit_state(), CircuitState::Closed);
}

#[test]
fn test_pool_add_and_get() {
    let shard_id = make_shard_id(0);
    let mut pool: ConnectionPool<MockShardClient> =
        ConnectionPool::new(shard_id, PoolConfig::default(), CircuitBreakerConfig::default());

    pool.add(MockShardClient::new(shard_id));

    let conn = pool.get().unwrap();
    assert_eq!(conn.shard_id(), shard_id);
}

#[test]
fn test_pool_circuit_breaker_integration() {
    let shard_id = make_shard_id(0);
    let mut pool: ConnectionPool<MockShardClient> = ConnectionPool::new(
        shard_id,
        PoolConfig::default(),
        CircuitBreakerConfig { failure_threshold: 2, ..Default::default() },
    );

    pool.add(MockShardClient::new(shard_id));

    pool.record_failure();
    assert!(pool.is_available());

    pool.record_failure();
    assert!(!pool.is_available());

    let result = pool.get();
    assert!(matches!(result, Err(NetworkError::CircuitOpen { .. })));
}

#[test]
fn test_pool_stats() {
    let shard_id = make_shard_id(0);
    let mut pool: ConnectionPool<MockShardClient> =
        ConnectionPool::new(shard_id, PoolConfig::default(), CircuitBreakerConfig::default());

    pool.add(MockShardClient::new(shard_id));

    pool.record_success();
    pool.record_success();
    pool.record_failure();

    let stats = pool.stats();
    assert_eq!(stats.total_requests, 3);
    assert_eq!(stats.failed_requests, 1);
    assert!((rate(stats.success_rate()) - 0.666).abs() < 0.01);
}

#[test]
fn test_mock_client_creation() {
    let client = MockShardClient::new(make_shard_id(0));
    assert!(client.is_healthy());
    assert_eq!(client.shard_id(), make_shard_id(0));
}

#[test]
fn test_mock_client_prepare() {
    let mut client = MockShardClient::new(make_shard_id(0));

    let response = client.prepare(TxId::new(1), &[], None).unwrap();
    assert!(response.ready);
    assert_eq!(client.call_count("prepare"), 1);
}

#[test]
fn test_mock_client_commit() {
    let mut client = MockShardClient::new(make_shard_id(0));

    let response = client.commit(TxId::new(1), None).unwrap();
    assert!(response.success);
    assert_eq!(client.call_count("commit"), 1);
}

#[test]
fn test_mock_client_abort() {
    let mut client = MockShardClient::new(make_shard_id(0));

    let response = client.abort(TxId::new(1)).unwrap();
    assert!(response.acknowledged);
    assert_eq!(client.call_count("abort"), 1);
}

#[test]
fn test_mock_client_unhealthy() {
    let mut client = MockShardClient::new(make_shard_id(0));
    client.set_healthy(false);

    let result = client.prepare(TxId::new(1), &[], None);
    assert!(matches!(result, Err(NetworkError::ShardUnavailable(_))));
}

#[test]
fn test_mock_client_fail_next() {
    let mut client = MockShardClient::new(make_shard_id(0));

    client.fail_next(NetworkError::Timeout {
        shard_id: make_shard_id(0),
        operation: "test".to_string(),
        duration: Duration::from_secs(30),
    });

    let result = client.prepare(TxId::new(1), &[], None);
    assert!(matches!(result, Err(NetworkError::Timeout { .. })));

    let result = client.prepare(TxId::new(2), &[], None);
    assert!(result.is_ok());
}

#[test]
fn test_mock_client_custom_responses() {
    let mut client = MockShardClient::new(make_shard_id(0));

    client.set_prepare_response(PrepareResponse {
        ready: false,
        reason: Some("test".to_string()),
    });

    let response = client.prepare(TxId::new(1), &[], None).unwrap();
    assert!(!response.ready);
    assert_eq!(response.reason, Some("test".to_string()));
}

#[test]
fn test_mock_client_get_state() {
    let mut client = MockShardClient::new(make_shard_id(0));

    let mut state = ShardState::new(make_shard_id(0));
    state.node_count = 1000;
    client.set_state(state);

    let retrieved = client.get_state().unwrap();
    assert_eq!(retrieved.node_count, 1000);
}

#[test]
fn test_mock_client_migration() {
    let mut client = MockShardClient::new(make_shard_id(0));

    let batch = MigrationBatch {
        migration_id: 1,
        batch_number: 0,
        is_last: false,
        nodes: vec![NodeData {
            id: NodeId::new(1).unwrap(),
            label: "Person".to_string(),
            properties: vec![],
            valid_from: 0,
            valid_to: None,
        }],
        edges: vec![],
        checksum: 12345,
    };

    let response = client.receive_migration_batch(batch).unwrap();
    assert!(response.accepted);
    assert_eq!(response.nodes_written, 1);
}

#[test]
fn test_mock_client_extract_migration() {
    let mut client = MockShardClient::new(make_shard_id(0));

    let batch = client.extract_migration_batch(1, &["Person".to_string()], 100, 0).unwrap();
    assert!(batch.is_last);
    assert!(batch.nodes.is_empty());
}

#[test]
fn test_mock_client_health_check() {
    let mut client = MockShardClient::new(make_shard_id(0));

    assert!(client.health_check().is_ok());

    client.set_healthy(false);
    assert!(client.health_check().is_err());
}

fn shard_result(id: u16, data: Vec<u8>) -> ShardResult {
    let result_count = result_count(&data);
    ShardResult { shard_id: make_shard_id(id), data, execution_time: Duration::zero(), result_count }
}

#[test]
fn network_errors_say_what_happened() {
    let shard_id = make_shard_id(4);
    let timed_out = NetworkError::Timeout {
        shard_id,
        operation: "query".to_string(),
        duration: Duration::from_millis(1500),
    };
    assert_eq!(timed_out.message(), "Operation 'query' on shard-4 timed out after 1.5s");
    let open = NetworkError::CircuitOpen { shard_id, remaining: Duration::from_millis(2900) };
    assert_eq!(open.message(), "Circuit breaker open for shard-4, 2 remaining");
    let exhausted = NetworkError::PoolExhausted { shard_id, max_connections: 10 };
    assert_eq!(exhausted.message(), "Connection pool exhausted for shard-4 (max: 10)");
    let failed = NetworkError::ConnectionFailed { shard_id, reason: "refused".to_string() };
    assert_eq!(failed.message(), "Connection to shard-4 failed: refused");
    assert_eq!(NetworkError::ShardUnavailable(shard_id).message(), "Shard shard-4 is unavailable");
    assert_eq!(
        NetworkError::SerializationError("x".to_string()).message(),
        "Serialization error: x"
    );
    assert_eq!(NetworkError::ProtocolError("x".to_string()).message(), "Protocol error: x");
}

#[test]
fn executor_errors_say_what_happened() {
    let timeout = ExecutorError::Timeout {
        query_id: 7,
        timeout: Duration::from_secs(30),
        responded: vec![make_shard_id(0)],
        pending: vec![make_shard_id(1), make_shard_id(2)],
    };
    assert_eq!(timeout.message(), "Query 7 timed out after 30s (1 responded, 2 pending)");
    let partial = ExecutorError::PartialFailure {
        query_id: 7,
        successes: vec![make_shard_id(0)],
        failures: vec![(make_shard_id(1), NetworkError::ShardUnavailable(make_shard_id(1)))],
    };
    assert_eq!(partial.message(), "Query 7 partially failed (1 succeeded, 1 failed)");
    assert_eq!(ExecutorError::AggregationError("x".into()).message(), "Aggregation error: x");
    assert_eq!(ExecutorError::InvalidQuery("bad".into()).message(), "Invalid query: bad");
    assert_eq!(ExecutorError::NoShardsAvailable.message(), "No shards available for query");
    let all = ExecutorError::AllShardsFailed { query_id: 7, failures: vec![] };
    assert_eq!(all.message(), "Query 7 failed on all 0 shards");
}

#[test]
fn results_are_put_together() {
    let results = vec![
        shard_result(0, vec![]),
        shard_result(1, vec![1, 0, 0, 0, 0, 0, 0, 0]),
        shard_result(2, vec![5, 0, 0, 0, 0, 0, 0, 0, 9]),
        shard_result(3, vec![7, 7]),
    ];
    assert_eq!(
        aggregate_results(AggregationStrategy::Concat, &results),
        vec![1, 0, 0, 0, 0, 0, 0, 0, 5, 0, 0, 0, 0, 0, 0, 0, 9, 7, 7]
    );
    assert_eq!(
        aggregate_results(AggregationStrategy::First, &results),
        vec![1, 0, 0, 0, 0, 0, 0, 0]
    );
    assert_eq!(
        aggregate_results(AggregationStrategy::MergeNodes, &results),
        vec![5, 0, 0, 0, 0, 0, 0, 0, 9]
    );
    assert_eq!(
        aggregate_results(AggregationStrategy::Sum, &results),
        vec![6, 0, 0, 0, 0, 0, 0, 0]
    );
    assert_eq!(
        aggregate_results(AggregationStrategy::Count, &results),
        vec![6, 0, 0, 0, 0, 0, 0, 0]
    );
    assert_eq!(
        aggregate_results(AggregationStrategy::ByShard, &vec![shard_result(513, vec![8, 9])]),
        vec![1, 0, 0, 0, 1, 2, 2, 0, 0, 0, 8, 9]
    );
    assert_eq!(aggregate_results(AggregationStrategy::First, &vec![]), Vec::<u8>::new());
}

#[test]
fn the_last_of_the_longest_results_is_taken() {
    let results = vec![shard_result(0, vec![1, 2]), shard_result(1, vec![3, 4])];
    assert_eq!(aggregate_results(AggregationStrategy::MergeNodes, &results), vec![3, 4]);
}

#[test]
fn without_time_no_shard_is_asked() {
    let mut executor = executor();
    executor.register_client(make_shard_id(0), MockShardClient::new(make_shard_id(0)));
    let query = DistributedQuery::new(5, vec![])
        .with_shards(vec![make_shard_id(0)])
        .with_timeout(Duration::zero());
    match executor.execute(query) {
        Err(ExecutorError::Timeout { query_id, responded, pending, .. }) => {
            assert_eq!(query_id, 5);
            assert_eq!(responded, vec![]);
            assert_eq!(pending, vec![make_shard_id(0)]);
        }
        other => panic!("{:?}", other),
    }
    assert_eq!(executor.client(make_shard_id(0)).unwrap().call_count("query"), 0);
    assert_eq!(executor.stats().queries_failed, 0);
}

#[test]
fn only_targets_are_asked() {
    let mut executor = executor();
    for i in 0..3 {
        executor.register_client(make_shard_id(i), MockShardClient::new(make_shard_id(i)));
    }
    let query = DistributedQuery::new(1, vec![4]).with_shards(vec![make_shard_id(1)]);
    executor.execute(query).unwrap();
    assert_eq!(executor.client(make_shard_id(0)).unwrap().call_count("query"), 0);
    assert_eq!(executor.client(make_shard_id(1)).unwrap().call_count("query"), 1);
    assert_eq!(executor.client(make_shard_id(1)).unwrap().query_received, Some(vec![4]));

    executor.execute(DistributedQuery::new(2, vec![])).unwrap();
    assert_eq!(executor.client(make_shard_id(0)).unwrap().call_count("query"), 1);
    assert_eq!(executor.client(make_shard_id(2)).unwrap().call_count("query"), 1);
}

#[test]
fn a_shard_without_a_client_fails() {
    let mut executor = executor();
    let query = DistributedQuery::new(1, vec![]).with_shards(vec![make_shard_id(9)]);
    match executor.execute(query) {
        Err(ExecutorError::AllShardsFailed { failures, .. }) => {
            assert_eq!(failures.len(), 1);
            assert!(matches!(failures[0].1, NetworkError::ShardUnavailable(id) if id.0 == 9));
        }
        other => panic!("{:?}", other),
    }
}

#[test]
fn rates_of_nothing_are_one() {
    assert_eq!(result_of(0, 0, 0).success_rate(), Ratio { part: 1, whole: 1 });
    assert_eq!(executor().stats().success_rate(), Ratio { part: 1, whole: 1 });
    assert_eq!(result_of(3, 2, 0).success_rate(), Ratio { part: 2, whole: 3 });
    let mut pool: ConnectionPool<MockShardClient> = ConnectionPool::new(
        make_shard_id(0),
        PoolConfig::default(),
        CircuitBreakerConfig::default(),
    );
    assert_eq!(pool.stats().success_rate(), Ratio { part: 1, whole: 1 });
    pool.record_success();
    pool.record_failure();
    pool.record_success();
    assert_eq!(pool.stats().success_rate(), Ratio { part: 2, whole: 3 });
}

#[test]
fn failures_far_apart_do_not_add_up() {
    let mut cb = CircuitBreaker::new(CircuitBreakerConfig {
        failure_threshold: 2,
        failure_window: Duration::from_secs(60),
        ..Default::default()
    });
    let now = std::time::Instant::now();
    cb.count_failure(None, now);
    cb.count_failure(Some(Duration::from_secs(61)), now);
    assert_eq!(cb.current, CircuitState::Closed);
    assert_eq!(cb.failure_count, 1);
    cb.count_failure(Some(Duration::from_secs(60)), now);
    assert_eq!(cb.current, CircuitState::Open);
}

#[test]
fn an_open_breaker_opens_half_way_in_time() {
    let mut cb = CircuitBreaker::new(CircuitBreakerConfig {
        failure_threshold: 1,
        open_duration: Duration::from_secs(30),
        ..Default::default()
    });
    cb.record_failure();
    assert_eq!(
        cb.remaining_after(Duration::from_secs(10)),
        Some(Duration::from_secs(20))
    );
    assert_eq!(cb.remaining_after(Duration::from_secs(30)), None);
    cb.pass_time(Duration::from_secs(29));
    assert_eq!(cb.current, CircuitState::Open);
    cb.pass_time(Duration::from_secs(30));
    assert_eq!(cb.current, CircuitState::HalfOpen);
    assert!(cb.should_allow());
}

#[test]
fn a_success_while_open_changes_nothing() {
    let mut cb = CircuitBreaker::new(CircuitBreakerConfig {
        failure_threshold: 1,
        open_duration: Duration::from_secs(300),
        ..Default::default()
    });
    cb.record_failure();
    cb.record_success();
    assert_eq!(cb.state(), CircuitState::Open);
}

#[test]
fn giving_back_undoes_taking() {
    let mut pool: ConnectionPool<MockShardClient> = ConnectionPool::new(
        make_shard_id(0),
        PoolConfig::default(),
        CircuitBreakerConfig::default(),
    );
    pool.add(MockShardClient::new(make_shard_id(0)));
    assert!(pool.get().is_ok());
    assert_eq!(pool.stats().active_connections, 1);
    pool.release();
    assert_eq!(pool.stats().active_connections, 0);
    assert_eq!(pool.stats().total_connections, 1);
}

#[test]
fn a_pool_without_connections_refuses() {
    let config = PoolConfig { max_connections: 1, ..Default::default() };
    let mut pool: ConnectionPool<MockShardClient> =
        ConnectionPool::new(make_shard_id(0), config, CircuitBreakerConfig::default());
    assert!(matches!(pool.get(), Err(NetworkError::ShardUnavailable(_))));
    let mut sick = MockShardClient::new(make_shard_id(0));
    sick.set_healthy(false);
    pool.add(sick);
    assert!(matches!(pool.get(), Err(NetworkError::ShardUnavailable(_))));
    pool.add(MockShardClient::new(make_shard_id(0)));
    assert!(pool.get().is_ok());
    pool.connections[1].set_healthy(false);
    assert!(matches!(
        pool.get(),
        Err(NetworkError::PoolExhausted { max_connections: 1, .. })
    ));
}

#[test]
fn a_plan_names_each_shard_once() {
    let router = test_router();
    assert_eq!(router.find_shard("Location"), Some(make_shard_id(1)));
    assert_eq!(router.find_shard("Nowhere"), None);
    let plan = router.route_traversal("Person", &["Place", "Address", "User", "Event"]);
    assert_eq!(plan.start_shard, make_shard_id(0));
    assert_eq!(
        plan.involved_shards,
        vec![make_shard_id(0), make_shard_id(1), make_shard_id(2)]
    );
    assert!(plan.is_distributed);
}

#[test]
fn a_mock_answers_what_it_was_told() {
    let mut client = MockShardClient::new(make_shard_id(3));
    client.set_commit_response(CommitResponse { success: false });
    client.set_abort_response(AbortResponse { acknowledged: false });
    client.set_latency(Duration::from_millis(5));
    assert!(!client.commit(TxId::new(1), None).unwrap().success);
    assert!(!client.abort(TxId::new(1)).unwrap().acknowledged);
    client.set_query_response(vec![4, 2]);
    assert_eq!(client.query(9, &[7]).unwrap(), vec![4, 2]);
    assert_eq!(client.query_received, Some(vec![7]));
    assert_eq!(client.call_count("nothing"), 0);
    let batch = MigrationBatch {
        migration_id: 2,
        batch_number: 0,
        is_last: true,
        nodes: vec![],
        edges: vec![EdgeData {
            id: aletheia_storage::ids::EdgeId(5),
            source: NodeId(1),
            target: NodeId(2),
            label: "KNOWS".to_string(),
            properties: vec![],
            valid_from: 0,
            valid_to: None,
        }],
        checksum: 0,
    };
    let response = client.receive_migration_batch(batch).unwrap();
    assert_eq!((response.nodes_written, response.edges_written), (0, 1));
    assert_eq!(client.extract_migration_batch(1, &[], 10, 35).unwrap().batch_number, 3);
}

#[test]
fn a_pool_can_be_closed_again() {
    let mut pool: ConnectionPool<MockShardClient> = ConnectionPool::new(
        make_shard_id(0),
        PoolConfig::default(),
        CircuitBreakerConfig { failure_threshold: 1, ..Default::default() },
    );
    pool.record_failure();
    assert_eq!(pool.circuit_state(), CircuitState::Open);
    pool.reset_circuit();
    assert!(pool.is_available());
}

fn asked(executor: &QueryExecutor<MockShardClient>, id: u16) -> usize {
    executor.client(make_shard_id(id)).unwrap().call_count("query")
}

#[test]
fn a_passing_failure_is_overcome() {
    let mut executor = executor();
    let mut client = MockShardClient::new(make_shard_id(0));
    client.set_query_response(vec![1, 2, 3]);
    client.fail_next(NetworkError::ShardUnavailable(make_shard_id(0)));
    executor.register_client(make_shard_id(0), client);
    let query = DistributedQuery::new(1, vec![]).with_shards(vec![make_shard_id(0)]);
    let result = executor.execute(query).unwrap();
    assert_eq!((result.shards_queried, result.shards_succeeded), (1, 1));
    assert_eq!(asked(&executor, 0), 2);
    assert_eq!(executor.stats().queries_failed, 0);
}

#[test]
fn a_lasting_failure_is_final() {
    for (retry_failed_shards, max_retries, calls) in [(true, 2, 3), (true, 0, 1), (false, 5, 1)] {
        let config =
            ExecutorConfig { retry_failed_shards, max_retries, ..ExecutorConfig::default() };
        let mut executor = QueryExecutor::new(config, test_router());
        let mut client = MockShardClient::new(make_shard_id(0));
        client.set_healthy(false);
        executor.register_client(make_shard_id(0), client);
        let query = DistributedQuery::new(1, vec![]).with_shards(vec![make_shard_id(0)]);
        match executor.execute(query) {
            Err(ExecutorError::AllShardsFailed { failures, .. }) => assert_eq!(failures.len(), 1),
            other => panic!("{:?}", other),
        }
        assert_eq!(asked(&executor, 0), calls);
    }
}

#[test]
fn without_retries_one_failure_is_enough() {
    let config = ExecutorConfig { retry_failed_shards: false, ..ExecutorConfig::default() };
    let mut executor = QueryExecutor::new(config, test_router());
    let mut client = MockShardClient::new(make_shard_id(0));
    client.fail_next(NetworkError::ShardUnavailable(make_shard_id(0)));
    executor.register_client(make_shard_id(0), client);
    let query = DistributedQuery::new(1, vec![]).with_shards(vec![make_shard_id(0)]);
    assert!(matches!(executor.execute(query), Err(ExecutorError::AllShardsFailed { .. })));
    assert_eq!(asked(&executor, 0), 1);
}

#[test]
fn each_step_follows_from_the_time() {
    let config = ExecutorConfig::default();
    let (second, minute) = (Duration::from_secs(1), Duration::from_secs(60));
    let step = |elapsed: Duration, done: usize, failed: bool, retried: usize| {
        config.next_step(elapsed, minute, done, 3, failed, retried)
    };
    assert_eq!(step(second, 0, false, 0), Step::AskNext);
    assert_eq!(step(second, 1, true, 0), Step::AskAgain);
    assert_eq!(step(second, 1, true, 1), Step::AskAgain);
    assert_eq!(step(second, 1, true, 2), Step::AskNext);
    assert_eq!(step(second, 3, true, 1), Step::AskAgain);
    assert_eq!(step(second, 3, true, 2), Step::Conclude);
    assert_eq!(step(second, 3, false, 0), Step::Conclude);
    assert_eq!(step(minute, 0, false, 0), Step::Conclude);
    assert_eq!(step(minute, 1, true, 0), Step::Conclude);
    let never = ExecutorConfig { retry_failed_shards: false, ..config };
    assert_eq!(never.next_step(second, minute, 1, 3, true, 0), Step::AskNext);
}

fn ticking(secs: Vec<u64>) -> impl Fn() -> Duration {
    let next = std::cell::Cell::new(0);
    move || {
        let i: usize = next.get();
        next.set(i + 1);
        Duration::from_secs(secs[i.min(secs.len() - 1)])
    }
}

fn three_shards(failing: &[u16]) -> QueryExecutor<MockShardClient> {
    let config = ExecutorConfig { retry_failed_shards: false, ..ExecutorConfig::default() };
    let mut executor = QueryExecutor::new(config, test_router());
    for i in 0..3 {
        let mut client = MockShardClient::new(make_shard_id(i));
        client.set_healthy(!failing.contains(&i));
        executor.register_client(make_shard_id(i), client);
    }
    executor
}

fn to_three(secs: u64) -> DistributedQuery {
    DistributedQuery::new(7, vec![])
        .with_shards(vec![make_shard_id(0), make_shard_id(1), make_shard_id(2)])
        .with_timeout(Duration::from_secs(secs))
}

#[test]
fn only_shards_not_asked_yet_are_pending() {
    let mut executor = three_shards(&[0]);
    match executor.execute_timed(to_three(10), ticking(vec![1, 2, 10])) {
        Err(ExecutorError::Timeout { query_id, timeout, responded, pending }) => {
            assert_eq!(query_id, 7);
            assert_eq!(timeout, Duration::from_secs(10));
            assert_eq!(responded, vec![make_shard_id(1)]);
            assert_eq!(pending, vec![make_shard_id(2)]);
        }
        other => panic!("{:?}", other),
    }
    assert_eq!((asked(&executor, 0), asked(&executor, 1), asked(&executor, 2)), (1, 1, 0));
}

#[test]
fn a_query_in_time_asks_every_shard() {
    let mut executor = three_shards(&[]);
    let result = executor.execute_timed(to_three(10), ticking(vec![9])).unwrap();
    assert_eq!((result.shards_queried, result.shards_succeeded), (3, 3));
    assert_eq!(result.total_time, Duration::from_secs(9));
    let mut executor = three_shards(&[]);
    let late = executor.execute_timed(to_three(10), ticking(vec![9, 9, 9, 99])).unwrap();
    assert_eq!(late.shards_succeeded, 3);
    let mut executor = three_shards(&[]);
    assert!(matches!(
        executor.execute_timed(to_three(10), ticking(vec![10])),
        Err(ExecutorError::Timeout { .. })
    ));
}

#[test]
fn a_shard_that_failed_late_is_not_asked_again() {
    let mut executor = executor();
    let mut client = MockShardClient::new(make_shard_id(0));
    client.fail_next(NetworkError::ShardUnavailable(make_shard_id(0)));
    executor.register_client(make_shard_id(0), client);
    let query = DistributedQuery::new(1, vec![])
        .with_shards(vec![make_shard_id(0)])
        .with_timeout(Duration::from_secs(10));
    assert!(matches!(
        executor.execute_timed(query, ticking(vec![1, 10])),
        Err(ExecutorError::AllShardsFailed { .. })
    ));
    assert_eq!(asked(&executor, 0), 1);
}

#[test]
fn failures_in_a_row_open_the_breaker() {
    let mut cb = CircuitBreaker::new(CircuitBreakerConfig {
        failure_threshold: 3,
        failure_window: Duration::from_secs(60),
        open_duration: Duration::from_secs(30),
        ..Default::default()
    });
    let now = std::time::Instant::now();
    cb.count_failure(None, now);
    cb.count_failure(Some(Duration::from_secs(59)), now);
    assert_eq!(cb.current, CircuitState::Closed);
    cb.count_failure(Some(Duration::from_secs(60)), now);
    assert_eq!(cb.current, CircuitState::Open);
    cb.pass_time(Duration::from_secs(30));
    assert_eq!(cb.current, CircuitState::HalfOpen);
    cb.count_failure(Some(Duration::from_secs(31)), now);
    assert_eq!(cb.current, CircuitState::Open);
    cb.pass_time(Duration::from_secs(29));
    assert_eq!(cb.current, CircuitState::Open);
}

#[test]
fn every_call_is_counted_under_its_name() {
    let mut client = MockShardClient::new(make_shard_id(1));
    client.fail_next(NetworkError::ShardUnavailable(make_shard_id(0)));
    assert!(client.query(1, &[]).is_err());
    assert!(client.query(2, &[]).is_ok());
    client.prepare(TxId(1), &[], None).unwrap();
    client.health_check().unwrap();
    assert_eq!(client.call_count("query"), 2);
    assert_eq!(client.call_count("prepare"), 1);
    assert_eq!(client.call_count("health_check"), 1);
    assert_eq!(client.call_count("commit"), 0);
    assert_eq!(client.call_count("quer"), 0);
}

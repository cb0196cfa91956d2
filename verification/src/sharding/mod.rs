//! Talking to shards: clients, circuit breakers, connection pools, and distributed queries.

pub mod breaker;
pub mod executor;
pub mod mock;
pub mod network;
pub mod pool;
pub mod query;
pub mod router;
pub mod wire;

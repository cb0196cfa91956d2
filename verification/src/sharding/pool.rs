//! A pool of connections to one shard, guarded by a circuit breaker.

use crate::counting::{next_u64, next_usize, previous_usize};
use crate::ids::ShardId;
use crate::ratio::Ratio;
use crate::sharding::breaker::{CircuitBreaker, CircuitBreakerConfig, CircuitState};
use crate::sharding::network::{NetworkError, NetworkResult, ShardClient};
use crate::time::Duration;
use vstd::prelude::*;

verus! {

/// Limits of a pool.
#[derive(Clone, Copy, Debug)]
pub struct PoolConfig {
    /// How many connections may be in use.
    pub max_connections: usize,
    /// How many idle connections are kept.
    pub min_idle: usize,
    /// How long connecting may take.
    pub connect_timeout: Duration,
    /// After how long an idle connection is closed.
    pub idle_timeout: Duration,
    /// How long a connection lives.
    pub max_lifetime: Duration,
}

impl Default for PoolConfig {
    /// Ten connections, two of them kept idle; five seconds to connect, five minutes idle, an hour
    /// to live.
    fn default() -> (r: PoolConfig)
        ensures
            r.max_connections == 10,
            r.min_idle == 2,
            r.connect_timeout.nanos == 5_000_000_000,
            r.idle_timeout.nanos == 300_000_000_000,
            r.max_lifetime.nanos == 3_600_000_000_000,
    {
        PoolConfig {
            max_connections: 10,
            min_idle: 2,
            connect_timeout: Duration::from_secs(5),
            idle_timeout: Duration::from_secs(300),
            max_lifetime: Duration::from_secs(3600),
        }
    }
}

/// A pool of connections. Its counts wrap around.
pub struct ConnectionPool<C: ShardClient> {
    /// The shard.
    pub shard_id: ShardId,
    /// Its limits.
    pub config: PoolConfig,
    /// The connections.
    pub connections: Vec<C>,
    /// How many are in use.
    pub active_count: usize,
    /// Holds requests back after failures.
    pub circuit_breaker: CircuitBreaker,
    /// How many requests were made.
    pub total_requests: u64,
    /// How many of them failed.
    pub failed_requests: u64,
}

/// What a pool looks like from outside.
#[derive(Clone, Copy, Debug)]
pub struct PoolStats {
    /// The shard.
    pub shard_id: ShardId,
    /// How many connections there are.
    pub total_connections: usize,
    /// How many are in use.
    pub active_connections: usize,
    /// Where the circuit breaker stands.
    pub circuit_state: CircuitState,
    /// How many requests were made.
    pub total_requests: u64,
    /// How many of them failed.
    pub failed_requests: u64,
}

impl PoolStats {
    /// The part of all requests that did not fail. One if there were none.
    pub fn success_rate(&self) -> (r: Ratio)
        ensures
            r.well_formed(),
            self.total_requests == 0 ==> r == (Ratio { part: 1, whole: 1 }),
            self.total_requests > 0 ==> r.part == self.total_requests - self.failed_requests
                && r.whole == self.total_requests,
    {
        if self.total_requests == 0 {
            Ratio::whole_number(1)
        } else {
            Ratio {
                part: self.total_requests as i128 - self.failed_requests as i128,
                whole: self.total_requests as u128,
            }
        }
    }
}

/// Asked for their health in turn, the connections may make `found` the first healthy one.
pub open spec fn may_find<C: ShardClient>(connections: Seq<C>, found: Option<usize>) -> bool {
    match found {
        Some(slot) => {
            &&& slot < connections.len()
            &&& connections[slot as int].says_healthy(true)
            &&& forall|i: int| 0 <= i < slot ==> (#[trigger] connections[i]).says_healthy(false)
        },
        None => forall|i: int|
            0 <= i < connections.len() ==> (#[trigger] connections[i]).says_healthy(false),
    }
}

impl<C: ShardClient> ConnectionPool<C> {
    /// The circuit breaker is sound.
    pub open spec fn well_formed(self) -> bool {
        self.circuit_breaker.well_formed()
    }

    /// The error where no healthy connection was found: exhausted when as many are in use as may
    /// be.
    pub open spec fn none_found(self) -> NetworkError {
        if self.active_count >= self.config.max_connections {
            NetworkError::PoolExhausted {
                shard_id: self.shard_id,
                max_connections: self.config.max_connections,
            }
        } else {
            NetworkError::ShardUnavailable(self.shard_id)
        }
    }

    /// An empty pool.
    pub fn new(
        shard_id: ShardId,
        config: PoolConfig,
        circuit_config: CircuitBreakerConfig,
    ) -> (r: ConnectionPool<C>)
        ensures
            r.well_formed(),
            r.shard_id == shard_id,
            r.config == config,
            r.connections@.len() == 0,
            r.active_count == 0,
            r.total_requests == 0,
            r.failed_requests == 0,
            r.circuit_breaker == (CircuitBreaker {
                config: circuit_config,
                current: CircuitState::Closed,
                failure_count: 0,
                success_count: 0,
                opened_at: None,
                last_failure: None,
            }),
    {
        ConnectionPool {
            shard_id,
            config,
            connections: Vec::new(),
            active_count: 0,
            circuit_breaker: CircuitBreaker::new(circuit_config),
            total_requests: 0,
            failed_requests: 0,
        }
    }

    /// The shard.
    pub fn shard_id(&self) -> (r: ShardId)
        ensures
            r == self.shard_id,
    {
        self.shard_id
    }

    /// Whether a request may pass now.
    pub fn is_available(&mut self) -> (r: bool)
        requires
            old(self).well_formed(),
        ensures
            final(self).well_formed(),
            old(self).circuit_breaker.later(final(self).circuit_breaker),
            *final(self) == (ConnectionPool {
                circuit_breaker: final(self).circuit_breaker,
                ..*old(self)
            }),
            r == (final(self).circuit_breaker.current != CircuitState::Open),
    {
        self.circuit_breaker.should_allow()
    }

    /// Where the circuit breaker stands now.
    pub fn circuit_state(&mut self) -> (r: CircuitState)
        requires
            old(self).well_formed(),
        ensures
            final(self).well_formed(),
            old(self).circuit_breaker.later(final(self).circuit_breaker),
            *final(self) == (ConnectionPool {
                circuit_breaker: final(self).circuit_breaker,
                ..*old(self)
            }),
            r == final(self).circuit_breaker.current,
    {
        self.circuit_breaker.state()
    }

    /// The first connection that says it is healthy.
    fn first_healthy(&self) -> (r: Option<usize>)
        ensures
            may_find(self.connections@, r),
    {
        let mut i: usize = 0;
        while i < self.connections.len()
            invariant
                i <= self.connections.len(),
                forall|j: int|
                    0 <= j < i ==> (#[trigger] self.connections@[j]).says_healthy(false),
            decreases self.connections.len() - i,
        {
            if self.connections[i].is_healthy() {
                return Some(i);
            }
            i = i + 1;
        }
        None
    }

    /// Takes the connection that was found into use, or says why there is none.
    pub fn take(&mut self, found: Option<usize>) -> (r: NetworkResult<&mut C>)
        requires
            found is Some ==> found->Some_0 < old(self).connections@.len(),
        ensures
            match (found, r) {
                (Some(slot), Ok(connection)) => {
                    &&& *connection == old(self).connections@[slot as int]
                    &&& final(self).connections@ == old(self).connections@.update(
                        slot as int,
                        *final(connection),
                    )
                    &&& *final(self) == (ConnectionPool {
                        active_count: next_usize(old(self).active_count),
                        connections: final(self).connections,
                        ..*old(self)
                    })
                },
                (None, Err(error)) => {
                    &&& error == old(self).none_found()
                    &&& *final(self) == *old(self)
                },
                _ => false,
            },
    {
        match found {
            Some(slot) => {
                self.active_count = self.active_count.wrapping_add(1);
                Ok(&mut self.connections[slot])
            },
            None => {
                if self.active_count >= self.config.max_connections {
                    Err(
                        NetworkError::PoolExhausted {
                            shard_id: self.shard_id,
                            max_connections: self.config.max_connections,
                        },
                    )
                } else {
                    Err(NetworkError::ShardUnavailable(self.shard_id))
                }
            },
        }
    }

    /// The pool once the connection in `slot`, first `before`, was taken into use and left as
    /// `after`.
    pub open spec fn taken(
        self,
        slot: usize,
        before: C,
        after: C,
        other: ConnectionPool<C>,
    ) -> bool {
        &&& slot < self.connections@.len()
        &&& before == self.connections@[slot as int]
        &&& other.connections@ == self.connections@.update(slot as int, after)
        &&& other == (ConnectionPool {
            active_count: next_usize(self.active_count),
            circuit_breaker: other.circuit_breaker,
            connections: other.connections,
            ..self
        })
    }

    /// The error says that requests are held back, for a time that may be left.
    pub open spec fn held_back(self, error: NetworkError) -> bool {
        exists|left: Option<Duration>| #[trigger]
            self.circuit_breaker.may_remain(left) && error == (NetworkError::CircuitOpen {
                shard_id: self.shard_id,
                remaining: match left {
                    Some(remaining) => remaining,
                    None => Duration { nanos: 0 },
                },
            })
    }

    /// Takes the first healthy connection into use. Requests are held back while the circuit
    /// breaker is open; without a healthy connection the pool is exhausted or the shard
    /// unavailable.
    pub fn get(&mut self) -> (r: NetworkResult<&mut C>)
        requires
            old(self).well_formed(),
        ensures
            final(self).well_formed(),
            old(self).circuit_breaker.later(final(self).circuit_breaker),
            match r {
                Ok(connection) => {
                    &&& final(self).circuit_breaker.current != CircuitState::Open
                    &&& exists|slot: usize|
                        {
                            &&& #[trigger] may_find(old(self).connections@, Some(slot))
                            &&& old(self).taken(
                                slot,
                                *connection,
                                *final(connection),
                                *final(self),
                            )
                        }
                },
                Err(error) => {
                    &&& *final(self) == (ConnectionPool {
                        circuit_breaker: final(self).circuit_breaker,
                        ..*old(self)
                    })
                    &&& if final(self).circuit_breaker.current == CircuitState::Open {
                        final(self).held_back(error)
                    } else {
                        may_find(old(self).connections@, None) && error == old(self).none_found()
                    }
                },
            },
    {
        if !self.circuit_breaker.should_allow() {
            let left = self.circuit_breaker.remaining_open_time();
            let remaining = match left {
                Some(remaining) => remaining,
                None => Duration::zero(),
            };
            assert(self.circuit_breaker.may_remain(left));
            return Err(NetworkError::CircuitOpen { shard_id: self.shard_id, remaining });
        }
        let found = self.first_healthy();
        self.take(found)
    }

    /// Gives a connection back.
    pub fn release(&mut self)
        ensures
            *final(self) == (ConnectionPool {
                active_count: previous_usize(old(self).active_count),
                ..*old(self)
            }),
    {
        self.active_count = self.active_count.wrapping_sub(1);
    }

    /// Adds a connection.
    pub fn add(&mut self, connection: C)
        ensures
            final(self).connections@ == old(self).connections@.push(connection),
            *final(self) == (ConnectionPool {
                connections: final(self).connections,
                ..*old(self)
            }),
    {
        self.connections.push(connection);
    }

    /// Counts a request that succeeded.
    pub fn record_success(&mut self)
        requires
            old(self).well_formed(),
        ensures
            final(self).well_formed(),
            *final(self) == (ConnectionPool {
                total_requests: next_u64(old(self).total_requests),
                circuit_breaker: old(self).circuit_breaker.succeeded(),
                ..*old(self)
            }),
    {
        self.total_requests = self.total_requests.wrapping_add(1);
        self.circuit_breaker.record_success();
    }

    /// Counts a request that failed.
    pub fn record_failure(&mut self)
        requires
            old(self).well_formed(),
        ensures
            final(self).well_formed(),
            old(self).circuit_breaker.may_fail_to(final(self).circuit_breaker),
            *final(self) == (ConnectionPool {
                total_requests: next_u64(old(self).total_requests),
                failed_requests: next_u64(old(self).failed_requests),
                circuit_breaker: final(self).circuit_breaker,
                ..*old(self)
            }),
    {
        self.total_requests = self.total_requests.wrapping_add(1);
        self.failed_requests = self.failed_requests.wrapping_add(1);
        self.circuit_breaker.record_failure();
    }

    /// What the pool looks like now.
    pub fn stats(&mut self) -> (r: PoolStats)
        requires
            old(self).well_formed(),
        ensures
            final(self).well_formed(),
            old(self).circuit_breaker.later(final(self).circuit_breaker),
            *final(self) == (ConnectionPool {
                circuit_breaker: final(self).circuit_breaker,
                ..*old(self)
            }),
            r == (PoolStats {
                shard_id: old(self).shard_id,
                total_connections: old(self).connections@.len() as usize,
                active_connections: old(self).active_count,
                circuit_state: final(self).circuit_breaker.current,
                total_requests: old(self).total_requests,
                failed_requests: old(self).failed_requests,
            }),
    {
        let circuit_state = self.circuit_breaker.state();
        PoolStats {
            shard_id: self.shard_id,
            total_connections: self.connections.len(),
            active_connections: self.active_count,
            circuit_state,
            total_requests: self.total_requests,
            failed_requests: self.failed_requests,
        }
    }

    /// Closes the circuit breaker.
    pub fn reset_circuit(&mut self)
        requires
            old(self).well_formed(),
        ensures
            final(self).well_formed(),
            *final(self) == (ConnectionPool {
                circuit_breaker: CircuitBreaker {
                    current: CircuitState::Closed,
                    failure_count: 0,
                    success_count: 0,
                    ..old(self).circuit_breaker
                },
                ..*old(self)
            }),
    {
        self.circuit_breaker.reset();
    }
}

/// Taking a connection into use and giving it back leaves the count of those in use as it was.
pub proof fn law_release_undoes_take(active_count: usize)
    ensures
        previous_usize(next_usize(active_count)) == active_count,
{
}

/// Where no healthy connection was found, the pool is exhausted exactly if as many are in use as
/// there may be, and says how many that is; otherwise the shard is unavailable.
pub proof fn law_why_no_connection<C: ShardClient>(pool: ConnectionPool<C>)
    ensures
        pool.active_count >= pool.config.max_connections ==> pool.none_found()
            == (NetworkError::PoolExhausted {
            shard_id: pool.shard_id,
            max_connections: pool.config.max_connections,
        }),
        pool.active_count < pool.config.max_connections ==> pool.none_found()
            == NetworkError::ShardUnavailable(pool.shard_id),
{
}

/// Of connections that are always of one mind about their health, the first healthy one is found.
pub proof fn law_first_healthy_is_found(
    connections: Seq<crate::sharding::mock::MockShardClient>,
    found: Option<usize>,
    at: int,
)
    requires
        may_find(connections, found),
        0 <= at < connections.len(),
        connections[at].healthy,
        forall|i: int| 0 <= i < at ==> !(#[trigger] connections[i]).healthy,
    ensures
        found is Some,
        found->0 == at,
{
    if let Some(slot) = found {
        if slot > at {
            assert(connections[at].says_healthy(false));
        } else if slot < at {
            assert(!connections[slot as int].healthy);
        }
    } else {
        assert(connections[at].says_healthy(false));
    }
}

/// Where requests are held back, the error names the shard and the time that is left, which is no
/// more than the time that the circuit breaker stays open.
pub proof fn law_held_back_for_the_time_that_is_left<C: ShardClient>(
    pool: ConnectionPool<C>,
    error: NetworkError,
)
    requires
        pool.held_back(error),
    ensures
        error matches NetworkError::CircuitOpen { shard_id, remaining } && shard_id == pool.shard_id
            && remaining.nanos <= pool.circuit_breaker.config.open_duration.nanos,
{
}

/// Taking a connection into use counts one more in use and touches no other connection.
pub proof fn law_taking_a_connection<C: ShardClient>(
    pool: ConnectionPool<C>,
    slot: usize,
    before: C,
    after: C,
    other: ConnectionPool<C>,
    i: int,
)
    requires
        pool.taken(slot, before, after, other),
        pool.active_count < usize::MAX,
    ensures
        other.active_count == pool.active_count + 1,
        other.connections@.len() == pool.connections@.len(),
        other.connections@[slot as int] == after,
        before == pool.connections@[slot as int],
        0 <= i < pool.connections@.len() && i != slot ==> other.connections@[i] == pool.connections@[i],
        other.total_requests == pool.total_requests && other.failed_requests == pool.failed_requests,
{
}

} // verus!

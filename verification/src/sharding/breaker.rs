//! A circuit breaker: after repeated failures requests are held back for a while.

use crate::time::{clock_now, time_since, Duration};
use std::time::Instant;
use vstd::prelude::*;

verus! {

/// Where the breaker stands.
#[derive(Clone, Copy, Debug, PartialEq, Eq, Structural)]
pub enum CircuitState {
    /// Requests pass.
    Closed,
    /// Requests are held back.
    Open,
    /// Requests pass, to see whether the shard has recovered.
    HalfOpen,
}

/// When the breaker opens and closes.
#[derive(Clone, Copy, Debug)]
pub struct CircuitBreakerConfig {
    /// How many failures open it.
    pub failure_threshold: usize,
    /// How long it stays open.
    pub open_duration: Duration,
    /// How many successes close it again.
    pub success_threshold: usize,
    /// After how long without a failure earlier ones no longer count.
    pub failure_window: Duration,
}

impl Default for CircuitBreakerConfig {
    /// Five failures within a minute open the breaker for half a minute, three successes close it.
    fn default() -> (r: CircuitBreakerConfig)
        ensures
            r.failure_threshold == 5,
            r.open_duration.nanos == 30_000_000_000,
            r.success_threshold == 3,
            r.failure_window.nanos == 60_000_000_000,
    {
        CircuitBreakerConfig {
            failure_threshold: 5,
            open_duration: Duration::from_secs(30),
            success_threshold: 3,
            failure_window: Duration::from_secs(60),
        }
    }
}

/// A circuit breaker.
pub struct CircuitBreaker {
    /// When it opens and closes.
    pub config: CircuitBreakerConfig,
    /// Where it stands.
    pub current: CircuitState,
    /// Failures counted while closed.
    pub failure_count: usize,
    /// Successes counted while half open.
    pub success_count: usize,
    /// When it opened.
    pub opened_at: Option<Instant>,
    /// When the last failure was counted while closed.
    pub last_failure: Option<Instant>,
}

/// The count at which a threshold is reached: one step at least.
pub open spec fn reached_at(threshold: usize) -> usize {
    if threshold == 0 {
        1
    } else {
        threshold
    }
}

impl CircuitBreaker {
    /// No threshold has been passed unnoticed.
    pub open spec fn well_formed(self) -> bool {
        &&& self.current == CircuitState::Closed ==> self.failure_count < reached_at(
            self.config.failure_threshold,
        )
        &&& self.current == CircuitState::HalfOpen ==> self.success_count < reached_at(
            self.config.success_threshold,
        )
    }

    /// Whether the breaker waits for time to pass.
    pub open spec fn waiting(self) -> bool {
        self.current == CircuitState::Open && self.opened_at is Some
    }

    /// The breaker, `since_opened` after it opened.
    pub open spec fn aged(self, since_opened: Duration) -> CircuitBreaker {
        if self.waiting() && since_opened.nanos >= self.config.open_duration.nanos {
            CircuitBreaker { current: CircuitState::HalfOpen, success_count: 0, ..self }
        } else {
            self
        }
    }

    /// The breaker after a success.
    pub open spec fn succeeded(self) -> CircuitBreaker {
        match self.current {
            CircuitState::Closed => CircuitBreaker { failure_count: 0, ..self },
            CircuitState::HalfOpen => if self.success_count + 1 >= self.config.success_threshold {
                CircuitBreaker {
                    current: CircuitState::Closed,
                    failure_count: 0,
                    success_count: 0,
                    ..self
                }
            } else {
                CircuitBreaker { success_count: (self.success_count + 1) as usize, ..self }
            },
            CircuitState::Open => self,
        }
    }

    /// The failures that still count, `since_last` after the last one.
    pub open spec fn recent_failures(self, since_last: Option<Duration>) -> usize {
        match since_last {
            Some(elapsed) => if elapsed.nanos > self.config.failure_window.nanos {
                0
            } else {
                self.failure_count
            },
            None => self.failure_count,
        }
    }

    /// The breaker after a failure at `now`, `since_last` after the last one that was counted.
    pub open spec fn failed(self, since_last: Option<Duration>, now: Instant) -> CircuitBreaker {
        match self.current {
            CircuitState::Closed => {
                let count = (self.recent_failures(since_last) + 1) as usize;
                let counted = CircuitBreaker {
                    failure_count: count,
                    last_failure: Some(now),
                    ..self
                };
                if count >= self.config.failure_threshold {
                    CircuitBreaker {
                        current: CircuitState::Open,
                        opened_at: Some(now),
                        ..counted
                    }
                } else {
                    counted
                }
            },
            CircuitState::HalfOpen => CircuitBreaker {
                current: CircuitState::Open,
                success_count: 0,
                opened_at: Some(now),
                ..self
            },
            CircuitState::Open => CircuitBreaker { opened_at: Some(now), ..self },
        }
    }

    /// The time that the breaker stays open, `since_opened` after it opened.
    pub open spec fn remaining(self, since_opened: Duration) -> Option<Duration> {
        if self.waiting() && since_opened.nanos < self.config.open_duration.nanos {
            Some(
                Duration {
                    nanos: (self.config.open_duration.nanos - since_opened.nanos) as u128,
                },
            )
        } else {
            None
        }
    }

    /// The breaker some time later: it differs only where it waits for time to pass.
    pub open spec fn later(self, other: CircuitBreaker) -> bool {
        exists|since_opened: Duration| other == #[trigger] self.aged(since_opened)
    }

    /// The breaker after a failure, whenever that was.
    pub open spec fn may_fail_to(self, other: CircuitBreaker) -> bool {
        exists|since_last: Option<Duration>, now: Instant|
            {
                &&& since_last is Some <==> self.last_failure is Some
                &&& other == #[trigger] self.failed(since_last, now)
            }
    }

    /// What may be left of the time that the breaker stays open.
    pub open spec fn may_remain(self, r: Option<Duration>) -> bool {
        exists|since_opened: Duration| r == #[trigger] self.remaining(since_opened)
    }

    /// A closed breaker.
    pub fn new(config: CircuitBreakerConfig) -> (r: CircuitBreaker)
        ensures
            r.well_formed(),
            r == (CircuitBreaker {
                config,
                current: CircuitState::Closed,
                failure_count: 0,
                success_count: 0,
                opened_at: None,
                last_failure: None,
            }),
    {
        CircuitBreaker {
            config,
            current: CircuitState::Closed,
            failure_count: 0,
            success_count: 0,
            opened_at: None,
            last_failure: None,
        }
    }

    /// Half opens the breaker when it has been open for long enough.
    pub fn pass_time(&mut self, since_opened: Duration)
        requires
            old(self).well_formed(),
        ensures
            final(self).well_formed(),
            *final(self) == old(self).aged(since_opened),
    {
        if self.current == CircuitState::Open && self.opened_at.is_some() && since_opened.nanos
            >= self.config.open_duration.nanos {
            self.current = CircuitState::HalfOpen;
            self.success_count = 0;
        }
    }

    /// Lets the time that the clock shows pass.
    fn maybe_transition(&mut self)
        requires
            old(self).well_formed(),
        ensures
            final(self).well_formed(),
            old(self).later(*final(self)),
    {
        let since_opened = match &self.opened_at {
            Some(opened_at) => time_since(opened_at),
            None => Duration::zero(),
        };
        assert(self.aged(since_opened) == self.aged(since_opened));
        self.pass_time(since_opened);
    }

    /// Where the breaker stands now.
    pub fn state(&mut self) -> (r: CircuitState)
        requires
            old(self).well_formed(),
        ensures
            final(self).well_formed(),
            old(self).later(*final(self)),
            r == final(self).current,
    {
        self.maybe_transition();
        self.current
    }

    /// Whether a request may pass now.
    pub fn should_allow(&mut self) -> (r: bool)
        requires
            old(self).well_formed(),
        ensures
            final(self).well_formed(),
            old(self).later(*final(self)),
            r == (final(self).current != CircuitState::Open),
    {
        self.maybe_transition();
        self.current != CircuitState::Open
    }

    /// Counts a success.
    pub fn record_success(&mut self)
        requires
            old(self).well_formed(),
        ensures
            final(self).well_formed(),
            *final(self) == old(self).succeeded(),
    {
        match self.current {
            CircuitState::Closed => {
                self.failure_count = 0;
            },
            CircuitState::HalfOpen => {
                self.success_count = self.success_count + 1;
                if self.success_count >= self.config.success_threshold {
                    self.current = CircuitState::Closed;
                    self.failure_count = 0;
                    self.success_count = 0;
                }
            },
            CircuitState::Open => {},
        }
    }

    /// Counts a failure at `now`, `since_last` after the last one that was counted.
    pub fn count_failure(&mut self, since_last: Option<Duration>, now: Instant)
        requires
            old(self).well_formed(),
        ensures
            final(self).well_formed(),
            *final(self) == old(self).failed(since_last, now),
    {
        match self.current {
            CircuitState::Closed => {
                if let Some(elapsed) = since_last {
                    if elapsed.nanos > self.config.failure_window.nanos {
                        self.failure_count = 0;
                    }
                }
                self.last_failure = Some(now);
                self.failure_count = self.failure_count + 1;
                if self.failure_count >= self.config.failure_threshold {
                    self.current = CircuitState::Open;
                    self.opened_at = Some(now);
                }
            },
            CircuitState::HalfOpen => {
                self.current = CircuitState::Open;
                self.success_count = 0;
                self.opened_at = Some(now);
            },
            CircuitState::Open => {
                self.opened_at = Some(now);
            },
        }
    }

    /// Counts a failure now.
    pub fn record_failure(&mut self)
        requires
            old(self).well_formed(),
        ensures
            final(self).well_formed(),
            old(self).may_fail_to(*final(self)),
    {
        let now = clock_now();
        let since_last = match &self.last_failure {
            Some(last) => Some(time_since(last)),
            None => None,
        };
        assert(self.failed(since_last, now) == self.failed(since_last, now));
        self.count_failure(since_last, now);
    }

    /// The time that the breaker stays open, `since_opened` after it opened.
    pub fn remaining_after(&self, since_opened: Duration) -> (r: Option<Duration>)
        ensures
            r == self.remaining(since_opened),
    {
        if self.current == CircuitState::Open && self.opened_at.is_some() && since_opened.nanos
            < self.config.open_duration.nanos {
            Some(Duration { nanos: self.config.open_duration.nanos - since_opened.nanos })
        } else {
            None
        }
    }

    /// The time that the breaker stays open from now on.
    pub fn remaining_open_time(&self) -> (r: Option<Duration>)
        ensures
            self.may_remain(r),
    {
        let since_opened = match &self.opened_at {
            Some(opened_at) => time_since(opened_at),
            None => Duration::zero(),
        };
        self.remaining_after(since_opened)
    }

    /// Closes the breaker.
    pub fn reset(&mut self)
        requires
            old(self).well_formed(),
        ensures
            final(self).well_formed(),
            *final(self) == (CircuitBreaker {
                current: CircuitState::Closed,
                failure_count: 0,
                success_count: 0,
                ..*old(self)
            }),
    {
        self.current = CircuitState::Closed;
        self.failure_count = 0;
        self.success_count = 0;
    }
}

/// The breaker after failures in a row, each with the time since the last one that was counted, if
/// there was one, and its own moment.
pub open spec fn after_failures(
    breaker: CircuitBreaker,
    moments: Seq<(Option<Duration>, Instant)>,
) -> CircuitBreaker
    decreases moments.len(),
{
    if moments.len() == 0 {
        breaker
    } else {
        let (since_last, now) = moments.last();
        after_failures(breaker, moments.drop_last()).failed(since_last, now)
    }
}

/// A failure came too long after the one before it for that one to count.
pub open spec fn too_long(window: Duration, since_last: Option<Duration>) -> bool {
    since_last matches Some(elapsed) && elapsed.nanos > window.nanos
}

/// How many failures, from the last one back, came without too long a gap between two of them.
pub open spec fn unbroken(window: Duration, moments: Seq<(Option<Duration>, Instant)>) -> nat
    decreases moments.len(),
{
    if moments.len() == 0 {
        0
    } else if too_long(window, moments.last().0) {
        1
    } else {
        unbroken(window, moments.drop_last()) + 1
    }
}

/// A closed breaker that has counted no failures - as a new one, one that was reset, one that just
/// closed, and one after a success - opens with the failure that makes as many failures as the
/// threshold says without too long a gap between two of them. Until then it stays closed.
pub proof fn law_unbroken_failures_open(
    breaker: CircuitBreaker,
    moments: Seq<(Option<Duration>, Instant)>,
)
    requires
        breaker.current == CircuitState::Closed,
        breaker.failure_count == 0,
        moments.len() > 0,
        after_failures(breaker, moments.drop_last()).current == CircuitState::Closed,
    ensures
        ({
            let after = after_failures(breaker, moments);
            let count = unbroken(breaker.config.failure_window, moments);
            &&& after.config == breaker.config
            &&& after.failure_count == count
            &&& after.current == (if count >= breaker.config.failure_threshold {
                CircuitState::Open
            } else {
                CircuitState::Closed
            })
            &&& after.current == CircuitState::Open ==> after.opened_at == Some(moments.last().1)
        }),
    decreases moments.len(),
{
    let earlier = moments.drop_last();
    if earlier.len() > 0 {
        law_unbroken_failures_open(breaker, earlier);
    } else {
        assert(after_failures(breaker, earlier) == breaker);
        assert(unbroken(breaker.config.failure_window, earlier) == 0);
    }
}

/// A failure while half open opens the breaker at once, one while open leaves it open, and whenever
/// a failure leaves the breaker open, the open time runs anew from that failure on.
pub proof fn law_failure_restarts_wait(
    breaker: CircuitBreaker,
    since_last: Option<Duration>,
    now: Instant,
)
    ensures
        breaker.current != CircuitState::Closed ==> breaker.failed(since_last, now).current
            == CircuitState::Open,
        breaker.failed(since_last, now).current == CircuitState::Open ==> breaker.failed(
            since_last,
            now,
        ).opened_at == Some(now),
{
}

/// As many failures within the window as the threshold says open a closed breaker that has counted
/// none, and fewer leave it closed.
pub proof fn law_failures_open(breaker: CircuitBreaker, moments: Seq<(Option<Duration>, Instant)>)
    requires
        breaker.current == CircuitState::Closed,
        breaker.failure_count == 0,
        moments.len() <= breaker.config.failure_threshold,
        moments.len() > 0 ==> breaker.config.failure_threshold > 0,
        forall|i: int|
            0 <= i < moments.len() ==> !too_long(
                breaker.config.failure_window,
                (#[trigger] moments[i]).0,
            ),
    ensures
        after_failures(breaker, moments).config == breaker.config,
        after_failures(breaker, moments).failure_count == moments.len(),
        after_failures(breaker, moments).current == (if moments.len() > 0 && moments.len()
            == breaker.config.failure_threshold {
            CircuitState::Open
        } else {
            CircuitState::Closed
        }),
    decreases moments.len(),
{
    if moments.len() > 0 {
        let earlier = moments.drop_last();
        assert forall|i: int| 0 <= i < earlier.len() implies !too_long(
            breaker.config.failure_window,
            (#[trigger] earlier[i]).0,
        ) by {
            assert(earlier[i] == moments[i]);
        }
        law_failures_open(breaker, earlier);
        assert(!too_long(breaker.config.failure_window, moments[moments.len() - 1].0));
    }
}

/// The breaker after `n` successes in a row.
pub open spec fn after_successes(breaker: CircuitBreaker, n: nat) -> CircuitBreaker
    decreases n,
{
    if n == 0 {
        breaker
    } else {
        after_successes(breaker, (n - 1) as nat).succeeded()
    }
}

/// As many successes as the threshold says close a half-open breaker that has counted none, and
/// fewer leave it half open.
pub proof fn law_successes_close(breaker: CircuitBreaker, n: nat)
    requires
        breaker.current == CircuitState::HalfOpen,
        breaker.success_count == 0,
        n <= breaker.config.success_threshold,
    ensures
        after_successes(breaker, n).config == breaker.config,
        n == 0 || n < breaker.config.success_threshold ==> {
            &&& after_successes(breaker, n).current == CircuitState::HalfOpen
            &&& after_successes(breaker, n).success_count == n
        },
        n > 0 && n == breaker.config.success_threshold ==> {
            &&& after_successes(breaker, n).current == CircuitState::Closed
            &&& after_successes(breaker, n).failure_count == 0
            &&& after_successes(breaker, n).success_count == 0
        },
    decreases n,
{
    if n > 0 {
        law_successes_close(breaker, (n - 1) as nat);
    }
}

/// A failure while half open opens the breaker again, and it then holds requests back until the
/// whole open time has passed.
pub proof fn law_half_open_failure_reopens(
    breaker: CircuitBreaker,
    since_last: Option<Duration>,
    now: Instant,
    since_opened: Duration,
)
    requires
        breaker.current == CircuitState::HalfOpen,
    ensures
        breaker.failed(since_last, now).current == CircuitState::Open,
        breaker.failed(since_last, now).aged(since_opened).current == (if since_opened.nanos
            < breaker.config.open_duration.nanos {
            CircuitState::Open
        } else {
            CircuitState::HalfOpen
        }),
{
}

/// The time left is told exactly as long as requests are held back.
pub proof fn law_remaining_while_held_back(breaker: CircuitBreaker, since_opened: Duration)
    requires
        breaker.waiting(),
    ensures
        breaker.remaining(since_opened) is Some <==> breaker.aged(since_opened).current
            == CircuitState::Open,
{
}

/// A success leaves an open breaker as it is, and a success while closed forgets all failures.
pub proof fn law_success_while_open_or_closed(breaker: CircuitBreaker)
    ensures
        breaker.current == CircuitState::Open ==> breaker.succeeded() == breaker,
        breaker.current == CircuitState::Closed ==> breaker.succeeded().failure_count == 0
            && breaker.succeeded().current == CircuitState::Closed,
{
}

/// The time that is left and the time that has passed make the whole time that the breaker stays
/// open.
pub proof fn law_remaining_and_passed_make_the_open_time(
    breaker: CircuitBreaker,
    since_opened: Duration,
)
    ensures
        breaker.remaining(since_opened) matches Some(left) ==> left.nanos + since_opened.nanos
            == breaker.config.open_duration.nanos && left.nanos > 0,
        breaker.remaining(since_opened) is Some <==> breaker.current == CircuitState::Open
            && breaker.opened_at is Some && since_opened.nanos < breaker.config.open_duration.nanos,
{
}

/// Time changes nothing but that an open breaker becomes half open, once its open time has passed;
/// it has counted no success then, and its failures stay counted.
pub proof fn law_time_only_half_opens(breaker: CircuitBreaker, since_opened: Duration)
    ensures
        breaker.current != CircuitState::Open || since_opened.nanos < breaker.config.open_duration.nanos
            ==> breaker.aged(since_opened) == breaker,
        breaker.current == CircuitState::Open && breaker.opened_at is Some && since_opened.nanos
            >= breaker.config.open_duration.nanos ==> {
            let after = breaker.aged(since_opened);
            &&& after.current == CircuitState::HalfOpen
            &&& after.success_count == 0
            &&& after.failure_count == breaker.failure_count
            &&& after.config == breaker.config
            &&& after.opened_at == breaker.opened_at
            &&& after.last_failure == breaker.last_failure
        },
{
}

/// A failure counts on top of those before it while the breaker is closed, unless the last one lies
/// longer back than the window; then it is the first again. It is remembered as the last one. The
/// breaker opens once as many are counted as the threshold says.
pub proof fn law_failures_add_up_within_the_window(
    breaker: CircuitBreaker,
    since_last: Option<Duration>,
    now: Instant,
)
    requires
        breaker.current == CircuitState::Closed,
        breaker.failure_count < usize::MAX,
    ensures
        ({
            let after = breaker.failed(since_last, now);
            let long_ago = since_last matches Some(elapsed) && elapsed.nanos
                > breaker.config.failure_window.nanos;
            &&& after.failure_count == (if long_ago {
                1
            } else {
                breaker.failure_count + 1
            })
            &&& after.last_failure == Some(now)
            &&& after.current == CircuitState::Open <==> after.failure_count
                >= breaker.config.failure_threshold
            &&& after.success_count == breaker.success_count
        }),
{
}

/// Some time later a breaker is as it was, unless it was open and its time may have passed: then it
/// may be half open.
pub proof fn law_what_time_may_do(breaker: CircuitBreaker, later: CircuitBreaker)
    requires
        breaker.later(later),
    ensures
        breaker.current != CircuitState::Open ==> later == breaker,
        breaker.current == CircuitState::Open ==> later == breaker || later.current
            == CircuitState::HalfOpen,
        later.failure_count == breaker.failure_count && later.config == breaker.config,
{
}

/// A failure that comes while the breaker is closed is counted, and the others before it count or
/// do not; one that comes otherwise leaves the breaker open.
pub proof fn law_what_a_failure_may_do(breaker: CircuitBreaker, failed: CircuitBreaker)
    requires
        breaker.may_fail_to(failed),
        breaker.well_formed(),
    ensures
        breaker.current == CircuitState::Closed ==> (failed.failure_count == 1 || failed.failure_count
            == breaker.failure_count + 1) && failed.last_failure is Some,
        breaker.current != CircuitState::Closed ==> failed.current == CircuitState::Open
            && failed.opened_at is Some,
        failed.config == breaker.config,
{
}

} // verus!

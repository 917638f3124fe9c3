//! The per-provider circuit breaker state machine.
//!
//! A breaker admits requests while Closed, denies them while Open, and
//! admits a bounded trial while HalfOpen. All operations are total over
//! in-memory state; the caller supplies the clock reading, in
//! milliseconds, wherever a decision depends on elapsed time.

use crate::config::CircuitBreakerConfig;
use vstd::prelude::*;

verus! {

/// Admission state of one circuit breaker.
#[derive(Clone, Copy, Debug, PartialEq, Eq, Structural)]
pub enum CircuitState {
    /// Requests are admitted; consecutive failures are counted.
    Closed,
    /// Requests are denied until the recovery timeout has elapsed.
    Open,
    /// A bounded number of trial requests is admitted to test recovery.
    HalfOpen,
}

/// One provider's circuit breaker: its state, its failure count since the
/// last reset, the time it last opened, and the configuration snapshot it
/// was created under.
#[derive(Clone, Copy, Debug, PartialEq, Eq, Structural)]
pub struct CircuitBreaker {
    pub state: CircuitState,
    /// Failures recorded since the last success or reset.
    pub consecutive_failures: u32,
    /// Clock reading stamped when the breaker last transitioned to Open.
    pub opened_at_ms: u64,
    /// Trial requests admitted since the breaker last entered HalfOpen.
    pub half_open_trials: u32,
    /// Configuration frozen at creation time.
    pub config: CircuitBreakerConfig,
}

/// Read-only snapshot of a breaker for observability.
#[derive(Clone, Copy, Debug, PartialEq, Eq, Structural)]
pub struct CircuitBreakerStats {
    pub state: CircuitState,
    pub consecutive_failures: u32,
    pub opened_at_ms: u64,
}

/// `n + 1`, stopping at the largest `u32` instead of wrapping.
pub open spec fn saturating_inc(n: u32) -> u32 {
    if n < u32::MAX {
        (n + 1) as u32
    } else {
        n
    }
}

impl CircuitBreaker {
    /// The value of a freshly created breaker: Closed, with zero counters.
    pub open spec fn spec_new(config: CircuitBreakerConfig) -> CircuitBreaker {
        CircuitBreaker {
            state: CircuitState::Closed,
            consecutive_failures: 0,
            opened_at_ms: 0,
            half_open_trials: 0,
            config,
        }
    }

    /// Whether, at clock reading `now_ms`, the recovery timeout of an Open
    /// breaker has elapsed since it opened.
    pub open spec fn recovery_due(self, now_ms: u64) -> bool {
        now_ms >= self.opened_at_ms + self.config.recovery_timeout_ms
    }

    /// One HalfOpen admission step: admit while trials remain in the quota.
    pub open spec fn spec_half_open_admit(self) -> (CircuitBreaker, bool) {
        if self.half_open_trials < self.config.half_open_trial_count {
            (
                CircuitBreaker { half_open_trials: (self.half_open_trials + 1) as u32, ..self },
                true,
            )
        } else {
            (self, false)
        }
    }

    /// The breaker after one `allow_request` call at `now_ms`, paired with
    /// the admission decision it returns.
    pub open spec fn spec_allow(self, now_ms: u64) -> (CircuitBreaker, bool) {
        match self.state {
            CircuitState::Closed => (self, true),
            CircuitState::Open => if self.recovery_due(now_ms) {
                CircuitBreaker {
                    state: CircuitState::HalfOpen,
                    half_open_trials: 0,
                    ..self
                }.spec_half_open_admit()
            } else {
                (self, false)
            },
            CircuitState::HalfOpen => self.spec_half_open_admit(),
        }
    }

    /// The breaker after one `record_success` call.
    pub open spec fn spec_record_success(self) -> CircuitBreaker {
        match self.state {
            CircuitState::Closed => CircuitBreaker { consecutive_failures: 0, ..self },
            CircuitState::Open => self,
            CircuitState::HalfOpen => CircuitBreaker {
                state: CircuitState::Closed,
                consecutive_failures: 0,
                half_open_trials: 0,
                ..self
            },
        }
    }

    /// The breaker after one `record_failure` call at `now_ms`.
    pub open spec fn spec_record_failure(self, now_ms: u64) -> CircuitBreaker {
        let bumped = CircuitBreaker {
            consecutive_failures: saturating_inc(self.consecutive_failures),
            ..self
        };
        match self.state {
            CircuitState::Closed => if bumped.consecutive_failures
                >= self.config.failure_threshold {
                CircuitBreaker { state: CircuitState::Open, opened_at_ms: now_ms, ..bumped }
            } else {
                bumped
            },
            CircuitState::Open => bumped,
            CircuitState::HalfOpen => CircuitBreaker {
                state: CircuitState::Open,
                opened_at_ms: now_ms,
                half_open_trials: 0,
                ..bumped
            },
        }
    }

    /// The breaker after a `reset`: Closed, zero counters, same config.
    pub open spec fn spec_reset(self) -> CircuitBreaker {
        CircuitBreaker {
            state: CircuitState::Closed,
            consecutive_failures: 0,
            opened_at_ms: 0,
            half_open_trials: 0,
            ..self
        }
    }

    /// Creates a breaker under a snapshot of the given configuration.
    pub fn new(config: CircuitBreakerConfig) -> (b: CircuitBreaker)
        ensures
            b == CircuitBreaker::spec_new(config),
    {
        CircuitBreaker {
            state: CircuitState::Closed,
            consecutive_failures: 0,
            opened_at_ms: 0,
            half_open_trials: 0,
            config,
        }
    }

    /// Whether the recovery timeout of this breaker has elapsed at `now_ms`.
    fn recovery_timeout_elapsed(&self, now_ms: u64) -> (due: bool)
        ensures
            due == self.recovery_due(now_ms),
    {
        now_ms >= self.opened_at_ms
            && now_ms - self.opened_at_ms >= self.config.recovery_timeout_ms
    }

    /// Admits one HalfOpen trial while the quota lasts.
    fn half_open_admit(&mut self) -> (allowed: bool)
        ensures
            *final(self) == old(self).spec_half_open_admit().0,
            allowed == old(self).spec_half_open_admit().1,
    {
        if self.half_open_trials < self.config.half_open_trial_count {
            self.half_open_trials = self.half_open_trials + 1;
            true
        } else {
            false
        }
    }

    /// Decides whether a request may be sent through this breaker now.
    ///
    /// Closed always admits. Open denies until the recovery timeout has
    /// elapsed, at which point the breaker moves to HalfOpen and admits
    /// exactly the trial quota; HalfOpen admits whatever remains of that
    /// quota.
    pub fn allow_request(&mut self, now_ms: u64) -> (allowed: bool)
        ensures
            *final(self) == old(self).spec_allow(now_ms).0,
            allowed == old(self).spec_allow(now_ms).1,
    {
        match self.state {
            CircuitState::Closed => true,
            CircuitState::Open => {
                if self.recovery_timeout_elapsed(now_ms) {
                    self.state = CircuitState::HalfOpen;
                    self.half_open_trials = 0;
                    self.half_open_admit()
                } else {
                    false
                }
            },
            CircuitState::HalfOpen => self.half_open_admit(),
        }
    }

    /// Records a successful request: Closed clears the failure count, and
    /// one HalfOpen success proves recovery and closes the breaker.
    pub fn record_success(&mut self)
        ensures
            *final(self) == old(self).spec_record_success(),
    {
        match self.state {
            CircuitState::Closed => {
                self.consecutive_failures = 0;
            },
            CircuitState::Open => {},
            CircuitState::HalfOpen => {
                self.state = CircuitState::Closed;
                self.consecutive_failures = 0;
                self.half_open_trials = 0;
            },
        }
    }

    /// Records a failed request: the failure count grows, a Closed breaker
    /// opens once the count reaches the threshold, and any HalfOpen trial
    /// failure reopens the breaker at `now_ms`.
    pub fn record_failure(&mut self, now_ms: u64)
        ensures
            *final(self) == old(self).spec_record_failure(now_ms),
    {
        if self.consecutive_failures < u32::MAX {
            self.consecutive_failures = self.consecutive_failures + 1;
        }
        match self.state {
            CircuitState::Closed => {
                if self.consecutive_failures >= self.config.failure_threshold {
                    self.state = CircuitState::Open;
                    self.opened_at_ms = now_ms;
                }
            },
            CircuitState::Open => {},
            CircuitState::HalfOpen => {
                self.state = CircuitState::Open;
                self.opened_at_ms = now_ms;
                self.half_open_trials = 0;
            },
        }
    }

    /// Unconditionally forces the breaker back to Closed with zero counters.
    pub fn reset(&mut self)
        ensures
            *final(self) == old(self).spec_reset(),
    {
        self.state = CircuitState::Closed;
        self.consecutive_failures = 0;
        self.opened_at_ms = 0;
        self.half_open_trials = 0;
    }

    /// Reads a snapshot of the breaker without changing it.
    pub fn get_stats(&self) -> (s: CircuitBreakerStats)
        ensures
            s.state == self.state,
            s.consecutive_failures == self.consecutive_failures,
            s.opened_at_ms == self.opened_at_ms,
    {
        CircuitBreakerStats {
            state: self.state,
            consecutive_failures: self.consecutive_failures,
            opened_at_ms: self.opened_at_ms,
        }
    }
}

/// The breaker after a sequence of `record_failure` calls, one per entry of
/// `times`, applied front to back.
pub open spec fn spec_run_failures(b: CircuitBreaker, times: Seq<u64>) -> CircuitBreaker
    decreases times.len(),
{
    if times.len() == 0 {
        b
    } else {
        spec_run_failures(b.spec_record_failure(times[0]), times.drop_first())
    }
}

/// Failures recorded while a breaker is Open only grow its counter: the
/// state and the opening stamp stay as they are.
proof fn lemma_run_failures_from_open(b: CircuitBreaker, times: Seq<u64>)
    requires
        b.state == CircuitState::Open,
        b.consecutive_failures + times.len() <= u32::MAX,
    ensures
        spec_run_failures(b, times) == (CircuitBreaker {
            consecutive_failures: (b.consecutive_failures + times.len()) as u32,
            ..b
        }),
    decreases times.len(),
{
    if times.len() > 0 {
        lemma_run_failures_from_open(b.spec_record_failure(times[0]), times.drop_first());
    }
}

/// Failures recorded on a Closed breaker count up one by one and open the
/// breaker exactly when the count reaches the threshold, stamping it with
/// the time of the failure that crossed it.
proof fn lemma_run_failures_from_closed(b: CircuitBreaker, times: Seq<u64>)
    requires
        b.state == CircuitState::Closed,
        b.consecutive_failures < b.config.failure_threshold,
        b.consecutive_failures + times.len() <= u32::MAX,
    ensures
        ({
            let r = spec_run_failures(b, times);
            let total = (b.consecutive_failures + times.len()) as u32;
            &&& r.consecutive_failures == total
            &&& r.config == b.config
            &&& (total < b.config.failure_threshold ==> r == (CircuitBreaker {
                consecutive_failures: total,
                ..b
            }))
            &&& (total >= b.config.failure_threshold ==> r == (CircuitBreaker {
                state: CircuitState::Open,
                consecutive_failures: total,
                opened_at_ms: times[b.config.failure_threshold - b.consecutive_failures - 1],
                ..b
            }))
        }),
    decreases times.len(),
{
    if times.len() > 0 {
        let b1 = b.spec_record_failure(times[0]);
        if b1.consecutive_failures >= b.config.failure_threshold {
            lemma_run_failures_from_open(b1, times.drop_first());
        } else {
            lemma_run_failures_from_closed(b1, times.drop_first());
        }
    }
}

/// Law: on a fresh breaker whose threshold is at least one, a sequence of
/// recorded failures leaves requests admitted while the count is below the
/// failure threshold, and opens the breaker exactly when the count reaches
/// it — after which requests are denied until the recovery timeout has
/// elapsed since the failure that opened it.
pub proof fn lemma_fresh_breaker_opens_exactly_at_threshold(
    config: CircuitBreakerConfig,
    times: Seq<u64>,
    now_ms: u64,
)
    requires
        1 <= config.failure_threshold,
        times.len() <= u32::MAX,
    ensures
        ({
            let r = spec_run_failures(CircuitBreaker::spec_new(config), times);
            &&& r.consecutive_failures == times.len()
            &&& (times.len() < config.failure_threshold ==> r.state == CircuitState::Closed
                && r.spec_allow(now_ms).1 == true)
            &&& (times.len() >= config.failure_threshold ==> r.state == CircuitState::Open
                && r.opened_at_ms == times[config.failure_threshold - 1]
                && (now_ms < r.opened_at_ms + config.recovery_timeout_ms
                    ==> r.spec_allow(now_ms).1 == false))
        }),
{
    lemma_run_failures_from_closed(CircuitBreaker::spec_new(config), times);
}

/// Law: an Open breaker denies every request until its recovery timeout has
/// elapsed, leaving itself unchanged; once the timeout has elapsed it
/// admits a request, entering HalfOpen — and with a trial quota of one,
/// exactly that one request is admitted before any success or failure is
/// recorded.
pub proof fn lemma_open_denies_then_admits_one_trial(
    b: CircuitBreaker,
    early_ms: u64,
    due_ms: u64,
    later_ms: u64,
)
    requires
        b.state == CircuitState::Open,
    ensures
        early_ms < b.opened_at_ms + b.config.recovery_timeout_ms ==> b.spec_allow(early_ms)
            == (b, false),
        (due_ms >= b.opened_at_ms + b.config.recovery_timeout_ms
            && b.config.half_open_trial_count >= 1) ==> b.spec_allow(due_ms).1 == true
            && b.spec_allow(due_ms).0.state == CircuitState::HalfOpen,
        (due_ms >= b.opened_at_ms + b.config.recovery_timeout_ms
            && b.config.half_open_trial_count == 1) ==> b.spec_allow(due_ms).0.spec_allow(
            later_ms,
        ) == (b.spec_allow(due_ms).0, false),
{
}

/// The breaker and the number of admitted requests after a sequence of
/// `allow_request` calls, one per entry of `times`, applied front to back.
pub open spec fn spec_run_allows(b: CircuitBreaker, times: Seq<u64>) -> (CircuitBreaker, int)
    decreases times.len(),
{
    if times.len() == 0 {
        (b, 0)
    } else {
        let step = b.spec_allow(times[0]);
        let rest = spec_run_allows(step.0, times.drop_first());
        (rest.0, rest.1 + if step.1 {
            1int
        } else {
            0int
        })
    }
}

/// Law: while no outcome is recorded, a HalfOpen breaker admits exactly
/// what remains of its trial quota, however many requests ask.
pub proof fn lemma_half_open_admits_exactly_remaining_quota(b: CircuitBreaker, times: Seq<u64>)
    requires
        b.state == CircuitState::HalfOpen,
        b.half_open_trials <= b.config.half_open_trial_count,
    ensures
        ({
            let remaining = b.config.half_open_trial_count - b.half_open_trials;
            spec_run_allows(b, times).1 == if times.len() <= remaining {
                times.len() as int
            } else {
                remaining
            }
        }),
    decreases times.len(),
{
    if times.len() > 0 {
        lemma_half_open_admits_exactly_remaining_quota(b.spec_allow(times[0]).0, times.drop_first());
    }
}

/// Law: one recorded success while HalfOpen always settles the breaker back
/// to Closed with zero failures, and one recorded failure while HalfOpen
/// always reopens it, stamped with the time of that failure.
pub proof fn lemma_half_open_trial_settles(b: CircuitBreaker, now_ms: u64)
    requires
        b.state == CircuitState::HalfOpen,
    ensures
        b.spec_record_success().state == CircuitState::Closed,
        b.spec_record_success().consecutive_failures == 0,
        b.spec_record_failure(now_ms).state == CircuitState::Open,
        b.spec_record_failure(now_ms).opened_at_ms == now_ms,
{
}

} // verus!

//! The global circuit-breaker configuration.

use vstd::prelude::*;

verus! {

/// Configuration under which every circuit breaker is created.
///
/// One instance is held by the store; it is read fresh each time a breaker
/// is created, and the snapshot taken then stays with that breaker for its
/// whole life (a later configuration edit does not reach breakers that
/// already exist).
#[derive(Clone, Copy, Debug, PartialEq, Eq, Structural)]
pub struct CircuitBreakerConfig {
    /// Whether automatic failover (and with it all circuit logic) is on.
    pub enabled: bool,
    /// Consecutive failures at which a Closed breaker opens.
    pub failure_threshold: u32,
    /// Milliseconds an Open breaker denies requests before it may half-open.
    pub recovery_timeout_ms: u64,
    /// Number of requests admitted for trial while HalfOpen.
    pub half_open_trial_count: u32,
}

pub const DEFAULT_FAILURE_THRESHOLD: u32 = 5;

pub const DEFAULT_RECOVERY_TIMEOUT_MS: u64 = 60000;

pub const DEFAULT_HALF_OPEN_TRIAL_COUNT: u32 = 1;

/// The configuration in force while none has been stored: failover on,
/// five failures to open a breaker, a minute to recovery, one trial.
pub open spec fn spec_default_config() -> CircuitBreakerConfig {
    CircuitBreakerConfig {
        enabled: true,
        failure_threshold: DEFAULT_FAILURE_THRESHOLD,
        recovery_timeout_ms: DEFAULT_RECOVERY_TIMEOUT_MS,
        half_open_trial_count: DEFAULT_HALF_OPEN_TRIAL_COUNT,
    }
}

impl Default for CircuitBreakerConfig {
    /// The configuration used while none has been stored.
    fn default() -> (c: Self)
        ensures
            c == spec_default_config(),
    {
        CircuitBreakerConfig {
            enabled: true,
            failure_threshold: DEFAULT_FAILURE_THRESHOLD,
            recovery_timeout_ms: DEFAULT_RECOVERY_TIMEOUT_MS,
            half_open_trial_count: DEFAULT_HALF_OPEN_TRIAL_COUNT,
        }
    }
}

} // verus!

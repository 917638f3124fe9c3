use failover_router::breaker::{CircuitBreaker, CircuitState};
use failover_router::config::CircuitBreakerConfig;
use failover_router::router::ProviderRouter;
use failover_router::store::Database;

fn config(threshold: u32, timeout_ms: u64, trials: u32) -> CircuitBreakerConfig {
    CircuitBreakerConfig {
        enabled: true,
        failure_threshold: threshold,
        recovery_timeout_ms: timeout_ms,
        half_open_trial_count: trials,
    }
}

#[test]
fn test_provider_router_creation() {
    let db = Database::new();
    let mut router = ProviderRouter::new(db);
    let mut breaker = router.get_or_create_circuit_breaker_pub("chat:test");
    assert!(breaker.allow_request(0));
}

#[test]
fn fresh_breaker_is_closed_and_admits() {
    let mut b = CircuitBreaker::new(config(3, 60_000, 1));
    assert_eq!(b.state, CircuitState::Closed);
    assert_eq!(b.consecutive_failures, 0);
    assert!(b.allow_request(0));
}

#[test]
fn breaker_opens_exactly_at_threshold() {
    let mut b = CircuitBreaker::new(config(3, 60_000, 1));
    b.record_failure(100);
    assert_eq!(b.state, CircuitState::Closed);
    assert!(b.allow_request(150));
    b.record_failure(200);
    assert_eq!(b.state, CircuitState::Closed);
    assert!(b.allow_request(250));
    b.record_failure(300);
    assert_eq!(b.state, CircuitState::Open);
    assert_eq!(b.consecutive_failures, 3);
    assert_eq!(b.opened_at_ms, 300);
    assert!(!b.allow_request(350));
}

#[test]
fn open_breaker_admits_once_after_timeout() {
    let mut b = CircuitBreaker::new(config(1, 60_000, 1));
    b.record_failure(1_000);
    assert_eq!(b.state, CircuitState::Open);
    assert!(!b.allow_request(60_999));
    assert_eq!(b.state, CircuitState::Open);
    assert!(b.allow_request(61_000));
    assert_eq!(b.state, CircuitState::HalfOpen);
    assert!(!b.allow_request(61_001));
}

#[test]
fn half_open_success_settles_closed_with_zero_failures() {
    let mut b = CircuitBreaker::new(config(1, 1_000, 1));
    b.record_failure(0);
    assert!(b.allow_request(1_000));
    assert_eq!(b.state, CircuitState::HalfOpen);
    b.record_success();
    assert_eq!(b.state, CircuitState::Closed);
    assert_eq!(b.consecutive_failures, 0);
    assert!(b.allow_request(1_001));
}

#[test]
fn half_open_failure_reopens() {
    let mut b = CircuitBreaker::new(config(1, 1_000, 1));
    b.record_failure(0);
    assert!(b.allow_request(1_000));
    assert_eq!(b.state, CircuitState::HalfOpen);
    b.record_failure(1_500);
    assert_eq!(b.state, CircuitState::Open);
    assert_eq!(b.opened_at_ms, 1_500);
    assert!(!b.allow_request(1_600));
}

#[test]
fn half_open_admits_whole_trial_quota() {
    let mut b = CircuitBreaker::new(config(1, 1_000, 3));
    b.record_failure(0);
    assert!(b.allow_request(1_000));
    assert!(b.allow_request(1_001));
    assert!(b.allow_request(1_002));
    assert!(!b.allow_request(1_003));
}

#[test]
fn success_in_closed_clears_failures() {
    let mut b = CircuitBreaker::new(config(5, 1_000, 1));
    b.record_failure(0);
    b.record_failure(1);
    assert_eq!(b.consecutive_failures, 2);
    b.record_success();
    assert_eq!(b.consecutive_failures, 0);
    assert_eq!(b.state, CircuitState::Closed);
}

#[test]
fn reset_forces_closed_and_zeroes_counters() {
    let mut b = CircuitBreaker::new(config(1, 1_000_000, 1));
    b.record_failure(42);
    assert_eq!(b.state, CircuitState::Open);
    b.reset();
    assert_eq!(b.state, CircuitState::Closed);
    assert_eq!(b.consecutive_failures, 0);
    assert_eq!(b.opened_at_ms, 0);
    assert!(b.allow_request(43));
}

#[test]
fn get_stats_reads_without_changing_state() {
    let mut b = CircuitBreaker::new(config(2, 1_000, 1));
    b.record_failure(7);
    let s = b.get_stats();
    assert_eq!(s.state, CircuitState::Closed);
    assert_eq!(s.consecutive_failures, 1);
    assert_eq!(s.opened_at_ms, 0);
    assert_eq!(b.state, CircuitState::Closed);
    assert_eq!(b.consecutive_failures, 1);
}

#[test]
fn default_config_values() {
    let c = CircuitBreakerConfig::default();
    assert!(c.enabled);
    assert_eq!(c.failure_threshold, 5);
    assert_eq!(c.recovery_timeout_ms, 60_000);
    assert_eq!(c.half_open_trial_count, 1);
}

#[test]
fn zero_threshold_opens_on_first_failure() {
    let mut b = CircuitBreaker::new(config(0, 1_000, 1));
    assert!(b.allow_request(0));
    b.record_failure(5);
    assert_eq!(b.state, CircuitState::Open);
}

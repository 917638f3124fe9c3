use failover_router::breaker::CircuitState;
use failover_router::config::CircuitBreakerConfig;
use failover_router::error::AppError;
use failover_router::provider::{Provider, ProviderSettings};
use failover_router::recovery::{
    apply_probe_outcome, collect_denied_providers, is_top_priority, probe_endpoint,
    probe_reachable, CircuitRecoveryChecker,
};
use failover_router::router::ProviderRouter;
use failover_router::store::Database;

fn provider(id: &str, name: &str, app_type: &str, sort_index: i64) -> Provider {
    Provider {
        id: id.to_string(),
        name: name.to_string(),
        app_type: app_type.to_string(),
        sort_index,
        settings: ProviderSettings {
            base_url: Some("https://api.example.com/".to_string()),
            api_key: Some("test-key".to_string()),
        },
    }
}

fn config(enabled: bool, threshold: u32) -> CircuitBreakerConfig {
    CircuitBreakerConfig {
        enabled,
        failure_threshold: threshold,
        recovery_timeout_ms: 60_000,
        half_open_trial_count: 1,
    }
}

fn router_with_open_breaker() -> ProviderRouter {
    let mut db = Database::new();
    db.update_circuit_breaker_config(config(true, 2));
    assert!(db.add_provider(provider("p0", "alpha", "chat", 0), true));
    let mut router = ProviderRouter::new(db);
    for now in [1_u64, 2] {
        router
            .record_result("p0", "chat", false, Some("down".to_string()), now)
            .unwrap();
    }
    assert_eq!(
        router.get_circuit_breaker_stats("p0", "chat").unwrap().state,
        CircuitState::Open
    );
    router
}

#[test]
fn checker_start_is_idempotent() {
    let mut checker = CircuitRecoveryChecker::new();
    assert!(!checker.is_running());
    assert_eq!(checker.check_interval_secs, 60);
    assert!(checker.start());
    assert!(checker.is_running());
    assert!(!checker.start());
    checker.stop();
    assert!(!checker.is_running());
    assert!(checker.start());
}

#[test]
fn probe_classification() {
    assert!(probe_reachable(Some(200)));
    assert!(probe_reachable(Some(204)));
    assert!(probe_reachable(Some(302)));
    assert!(probe_reachable(Some(400)));
    assert!(probe_reachable(Some(401)));
    assert!(probe_reachable(Some(403)));
    assert!(probe_reachable(Some(429)));
    assert!(probe_reachable(Some(499)));
    assert!(!probe_reachable(Some(500)));
    assert!(!probe_reachable(Some(503)));
    assert!(!probe_reachable(None));
}

#[test]
fn collect_denied_finds_the_open_breaker() {
    let mut router = router_with_open_breaker();
    let denied = collect_denied_providers(&mut router, "chat", 3);
    assert_eq!(denied.len(), 1);
    assert_eq!(denied[0].id, "p0");
}

#[test]
fn collect_denied_skips_healthy_providers() {
    let mut db = Database::new();
    db.update_circuit_breaker_config(config(true, 2));
    assert!(db.add_provider(provider("p0", "alpha", "chat", 0), true));
    let mut router = ProviderRouter::new(db);
    let denied = collect_denied_providers(&mut router, "chat", 0);
    assert!(denied.is_empty());
}

#[test]
fn collect_denied_does_nothing_while_failover_is_disabled() {
    let mut router = router_with_open_breaker();
    router.db.update_circuit_breaker_config(config(false, 2));
    let denied = collect_denied_providers(&mut router, "chat", 3);
    assert!(denied.is_empty());
}

#[test]
fn reachable_probe_resets_breaker_and_health() {
    let mut router = router_with_open_breaker();
    let p = provider("p0", "alpha", "chat", 0);
    let recovered = apply_probe_outcome(&mut router, &p, "chat", Some(200), 50);
    assert!(recovered);
    let stats = router.get_circuit_breaker_stats("p0", "chat").unwrap();
    assert_eq!(stats.state, CircuitState::Closed);
    assert_eq!(stats.consecutive_failures, 0);
    let health = router.db.get_provider_health("p0", "chat");
    assert_eq!(health.consecutive_failures, 0);
    assert!(health.last_error.is_none());
    assert_eq!(health.last_checked_ms, 50);
}

#[test]
fn server_error_probe_leaves_breaker_and_health_untouched() {
    let mut router = router_with_open_breaker();
    let p = provider("p0", "alpha", "chat", 0);
    let recovered = apply_probe_outcome(&mut router, &p, "chat", Some(500), 50);
    assert!(!recovered);
    let stats = router.get_circuit_breaker_stats("p0", "chat").unwrap();
    assert_eq!(stats.state, CircuitState::Open);
    let health = router.db.get_provider_health("p0", "chat");
    assert_eq!(health.consecutive_failures, 2);
    assert_eq!(health.last_error.as_deref(), Some("down"));
}

#[test]
fn transport_failure_probe_leaves_breaker_untouched() {
    let mut router = router_with_open_breaker();
    let p = provider("p0", "alpha", "chat", 0);
    assert!(!apply_probe_outcome(&mut router, &p, "chat", None, 50));
    assert_eq!(
        router.get_circuit_breaker_stats("p0", "chat").unwrap().state,
        CircuitState::Open
    );
}

#[test]
fn probe_endpoint_trims_trailing_slashes() {
    let p = provider("p0", "alpha", "chat", 0);
    let e = probe_endpoint(&p).unwrap();
    assert_eq!(e.url, "https://api.example.com/v1/messages");
    assert_eq!(e.api_key, "test-key");
}

#[test]
fn probe_endpoint_without_base_url_fails() {
    let mut p = provider("p0", "alpha", "chat", 0);
    p.settings.base_url = None;
    match probe_endpoint(&p) {
        Err(AppError::Config(m)) => assert_eq!(m, "No baseUrl found"),
        other => panic!("expected a configuration error, got {:?}", other),
    }
}

#[test]
fn probe_endpoint_without_api_key_fails() {
    let mut p = provider("p0", "alpha", "chat", 0);
    p.settings.api_key = None;
    match probe_endpoint(&p) {
        Err(AppError::Config(m)) => assert_eq!(m, "No apiKey found"),
        other => panic!("expected a configuration error, got {:?}", other),
    }
}

#[test]
fn top_priority_is_the_first_enabled_provider() {
    let mut db = Database::new();
    assert!(db.add_provider(provider("p0", "alpha", "chat", 0), true));
    assert!(db.add_provider(provider("p1", "beta", "chat", 1), true));
    let router = ProviderRouter::new(db);
    assert!(is_top_priority(&router, "p0", "chat"));
    assert!(!is_top_priority(&router, "p1", "chat"));
    assert!(!is_top_priority(&router, "p0", "draft"));
}

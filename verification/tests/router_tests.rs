use failover_router::breaker::CircuitState;
use failover_router::commands;
use failover_router::config::CircuitBreakerConfig;
use failover_router::error::AppError;
use failover_router::provider::{Provider, ProviderSettings};
use failover_router::router::ProviderRouter;
use failover_router::store::Database;

fn provider(id: &str, name: &str, app_type: &str, sort_index: i64) -> Provider {
    Provider {
        id: id.to_string(),
        name: name.to_string(),
        app_type: app_type.to_string(),
        sort_index,
        settings: ProviderSettings {
            base_url: Some("https://api.example.com".to_string()),
            api_key: Some("test-key".to_string()),
        },
    }
}

fn config(threshold: u32, timeout_ms: u64) -> CircuitBreakerConfig {
    CircuitBreakerConfig {
        enabled: true,
        failure_threshold: threshold,
        recovery_timeout_ms: timeout_ms,
        half_open_trial_count: 1,
    }
}

fn open_breaker(router: &mut ProviderRouter, id: &str, app: &str, failures: u32, now: u64) {
    for k in 0..failures {
        router
            .record_result(id, app, false, Some("boom".to_string()), now + k as u64)
            .unwrap();
    }
}

#[test]
fn select_returns_highest_priority_when_all_closed() {
    let mut db = Database::new();
    db.update_circuit_breaker_config(config(2, 60_000));
    assert!(db.add_provider(provider("p0", "alpha", "chat", 0), true));
    assert!(db.add_provider(provider("p1", "beta", "chat", 1), true));
    let mut router = ProviderRouter::new(db);
    let selected = router.select_providers("chat", 0).unwrap();
    assert_eq!(selected.len(), 1);
    assert_eq!(selected[0].id, "p0");
}

#[test]
fn select_fails_over_past_open_breaker() {
    let mut db = Database::new();
    db.update_circuit_breaker_config(config(2, 60_000));
    assert!(db.add_provider(provider("p0", "alpha", "chat", 0), true));
    assert!(db.add_provider(provider("p1", "beta", "chat", 1), true));
    assert!(db.add_provider(provider("p2", "gamma", "chat", 2), true));
    let mut router = ProviderRouter::new(db);
    open_breaker(&mut router, "p0", "chat", 2, 1_000);
    // The failures also auto-disabled p0's proxy-target flag; turn it back
    // on so only the breaker stands between p0 and selection.
    commands::set_proxy_target(&mut router.db, "p0", "chat", true);
    let selected = router.select_providers("chat", 2_000).unwrap();
    assert_eq!(selected.len(), 1);
    assert_eq!(selected[0].id, "p1");
}

#[test]
fn select_with_failover_disabled_returns_current_provider() {
    let mut db = Database::new();
    db.update_circuit_breaker_config(CircuitBreakerConfig {
        enabled: false,
        ..config(2, 60_000)
    });
    assert!(db.add_provider(provider("p0", "alpha", "chat", 0), true));
    assert!(db.add_provider(provider("p1", "beta", "chat", 1), true));
    db.set_current_provider("chat", "p1");
    let mut router = ProviderRouter::new(db);
    // Open p0 and p1 breakers; disabled failover must ignore them.
    open_breaker(&mut router, "p1", "chat", 2, 0);
    let selected = router.select_providers("chat", 10).unwrap();
    assert_eq!(selected.len(), 1);
    assert_eq!(selected[0].id, "p1");
}

#[test]
fn select_with_failover_disabled_and_no_current_fails() {
    let mut db = Database::new();
    db.update_circuit_breaker_config(CircuitBreakerConfig {
        enabled: false,
        ..config(2, 60_000)
    });
    let mut router = ProviderRouter::new(db);
    match router.select_providers("chat", 0) {
        Err(AppError::Config(m)) => assert_eq!(m, "No current provider for chat"),
        other => panic!("expected a configuration error, got {:?}", other),
    }
}

#[test]
fn select_with_missing_current_provider_fails() {
    let mut db = Database::new();
    db.update_circuit_breaker_config(CircuitBreakerConfig {
        enabled: false,
        ..config(2, 60_000)
    });
    db.set_current_provider("chat", "ghost");
    let mut router = ProviderRouter::new(db);
    match router.select_providers("chat", 0) {
        Err(AppError::Config(m)) => assert_eq!(m, "Current provider ghost not found"),
        other => panic!("expected a configuration error, got {:?}", other),
    }
}

#[test]
fn select_with_no_providers_falls_back_to_current() {
    let mut db = Database::new();
    db.update_circuit_breaker_config(config(2, 60_000));
    let mut router = ProviderRouter::new(db);
    match router.select_providers("chat", 0) {
        Err(AppError::Config(m)) => assert_eq!(m, "No current provider for chat"),
        other => panic!("expected a configuration error, got {:?}", other),
    }
}

#[test]
fn select_with_all_breakers_open_names_every_provider() {
    let mut db = Database::new();
    db.update_circuit_breaker_config(config(2, 60_000));
    assert!(db.add_provider(provider("p0", "alpha", "chat", 0), true));
    assert!(db.add_provider(provider("p1", "beta", "chat", 1), true));
    let mut router = ProviderRouter::new(db);
    open_breaker(&mut router, "p0", "chat", 2, 1_000);
    open_breaker(&mut router, "p1", "chat", 2, 1_000);
    commands::set_proxy_target(&mut router.db, "p0", "chat", true);
    commands::set_proxy_target(&mut router.db, "p1", "chat", true);
    match router.select_providers("chat", 2_000) {
        Err(AppError::Config(m)) => {
            assert_eq!(m, "All providers are circuit-open: alpha, beta");
            assert!(m.contains("alpha"));
            assert!(m.contains("beta"));
        },
        other => panic!("expected the all-open error, got {:?}", other),
    }
}

#[test]
fn record_result_auto_disables_exactly_at_threshold() {
    let mut db = Database::new();
    db.update_circuit_breaker_config(config(3, 60_000));
    assert!(db.add_provider(provider("p0", "alpha", "chat", 0), true));
    let mut router = ProviderRouter::new(db);
    router
        .record_result("p0", "chat", false, Some("timeout".to_string()), 1)
        .unwrap();
    assert_eq!(router.db.get_failover_providers("chat").len(), 1);
    router
        .record_result("p0", "chat", false, Some("timeout".to_string()), 2)
        .unwrap();
    assert_eq!(router.db.get_failover_providers("chat").len(), 1);
    router
        .record_result("p0", "chat", false, Some("timeout".to_string()), 3)
        .unwrap();
    assert_eq!(router.db.get_failover_providers("chat").len(), 0);
    let health = router.db.get_provider_health("p0", "chat");
    assert_eq!(health.consecutive_failures, 3);
    assert_eq!(health.last_error.as_deref(), Some("timeout"));
}

#[test]
fn record_result_success_clears_persisted_failures() {
    let mut db = Database::new();
    db.update_circuit_breaker_config(config(5, 60_000));
    assert!(db.add_provider(provider("p0", "alpha", "chat", 0), true));
    let mut router = ProviderRouter::new(db);
    router
        .record_result("p0", "chat", false, Some("boom".to_string()), 1)
        .unwrap();
    router.record_result("p0", "chat", true, None, 2).unwrap();
    let health = router.db.get_provider_health("p0", "chat");
    assert_eq!(health.consecutive_failures, 0);
    assert!(health.last_error.is_none());
    assert_eq!(health.last_checked_ms, 2);
}

#[test]
fn get_or_create_yields_one_breaker_per_key() {
    let db = Database::new();
    let mut router = ProviderRouter::new(db);
    let first = router.get_or_create_circuit_breaker_pub("chat:test");
    let second = router.get_or_create_circuit_breaker_pub("chat:test");
    assert_eq!(first, second);
    // The registry kept one slot: mutating through the key is seen by both reads.
    router.record_result("test", "chat", false, None, 9).unwrap();
    let stats = router.get_circuit_breaker_stats("test", "chat").unwrap();
    assert_eq!(stats.consecutive_failures, 1);
}

#[test]
fn breaker_config_is_frozen_at_creation() {
    let mut db = Database::new();
    db.update_circuit_breaker_config(config(1, 60_000));
    assert!(db.add_provider(provider("p0", "alpha", "chat", 0), true));
    let mut router = ProviderRouter::new(db);
    let b = router.get_or_create_circuit_breaker_pub("chat:p0");
    assert_eq!(b.config.failure_threshold, 1);
    router.db.update_circuit_breaker_config(config(9, 60_000));
    let again = router.get_or_create_circuit_breaker_pub("chat:p0");
    assert_eq!(again.config.failure_threshold, 1);
}

#[test]
fn reset_circuit_breaker_closes_a_materialized_breaker() {
    let mut db = Database::new();
    db.update_circuit_breaker_config(config(1, 60_000));
    assert!(db.add_provider(provider("p0", "alpha", "chat", 0), true));
    let mut router = ProviderRouter::new(db);
    open_breaker(&mut router, "p0", "chat", 1, 5);
    assert_eq!(
        router.get_circuit_breaker_stats("p0", "chat").unwrap().state,
        CircuitState::Open
    );
    router.reset_circuit_breaker_pub("chat:p0");
    let stats = router.get_circuit_breaker_stats("p0", "chat").unwrap();
    assert_eq!(stats.state, CircuitState::Closed);
    assert_eq!(stats.consecutive_failures, 0);
}

#[test]
fn stats_are_none_before_a_breaker_materializes() {
    let db = Database::new();
    let router = ProviderRouter::new(db);
    assert!(router.get_circuit_breaker_stats("p0", "chat").is_none());
}

#[test]
fn error_kinds_carry_their_message() {
    let config_err = AppError::Config("bad".to_string());
    let persistence_err = AppError::Persistence("disk".to_string());
    let probe_err = AppError::Probe("down".to_string());
    assert_eq!(config_err.message(), "bad");
    assert_eq!(persistence_err.message(), "disk");
    assert_eq!(probe_err.message(), "down");
}

use failover_router::commands;
use failover_router::config::CircuitBreakerConfig;
use failover_router::provider::{Provider, ProviderSettings};
use failover_router::store::Database;

fn provider(id: &str, name: &str, app_type: &str, sort_index: i64) -> Provider {
    Provider {
        id: id.to_string(),
        name: name.to_string(),
        app_type: app_type.to_string(),
        sort_index,
        settings: ProviderSettings { base_url: None, api_key: None },
    }
}

#[test]
fn providers_are_kept_in_ascending_priority_order() {
    let mut db = Database::new();
    assert!(db.add_provider(provider("p2", "c", "chat", 2), true));
    assert!(db.add_provider(provider("p0", "a", "chat", 0), true));
    assert!(db.add_provider(provider("p1", "b", "chat", 1), true));
    let all = db.get_all_providers("chat");
    let ids: Vec<&str> = all.iter().map(|p| p.id.as_str()).collect();
    assert_eq!(ids, ["p0", "p1", "p2"]);
}

#[test]
fn duplicate_provider_keys_are_rejected() {
    let mut db = Database::new();
    assert!(db.add_provider(provider("p0", "a", "chat", 0), true));
    assert!(!db.add_provider(provider("p0", "other", "chat", 5), true));
    assert_eq!(db.get_all_providers("chat").len(), 1);
    // The same id under another app type is another provider.
    assert!(db.add_provider(provider("p0", "a", "draft", 0), true));
}

#[test]
fn failover_list_holds_only_enabled_providers_of_the_app() {
    let mut db = Database::new();
    assert!(db.add_provider(provider("p0", "a", "chat", 0), true));
    assert!(db.add_provider(provider("p1", "b", "chat", 1), false));
    assert!(db.add_provider(provider("x", "other", "draft", 0), true));
    let failover = db.get_failover_providers("chat");
    assert_eq!(failover.len(), 1);
    assert_eq!(failover[0].id, "p0");
    assert_eq!(db.get_all_providers("chat").len(), 2);
}

#[test]
fn current_provider_marker_is_set_and_replaced() {
    let mut db = Database::new();
    assert!(db.get_current_provider("chat").is_none());
    db.set_current_provider("chat", "p0");
    assert_eq!(db.get_current_provider("chat").as_deref(), Some("p0"));
    db.set_current_provider("chat", "p1");
    assert_eq!(db.get_current_provider("chat").as_deref(), Some("p1"));
    assert!(db.get_current_provider("draft").is_none());
}

#[test]
fn health_rows_accumulate_failures_and_clear_on_success() {
    let mut db = Database::new();
    let fresh = db.get_provider_health("p0", "chat");
    assert_eq!(fresh.consecutive_failures, 0);
    db.update_provider_health("p0", "chat", false, Some("a".to_string()), 10);
    db.update_provider_health("p0", "chat", false, Some("b".to_string()), 20);
    let h = db.get_provider_health("p0", "chat");
    assert_eq!(h.consecutive_failures, 2);
    assert_eq!(h.last_error.as_deref(), Some("b"));
    assert_eq!(h.last_checked_ms, 20);
    db.update_provider_health("p0", "chat", true, None, 30);
    let h = db.get_provider_health("p0", "chat");
    assert_eq!(h.consecutive_failures, 0);
    assert!(h.last_error.is_none());
}

#[test]
fn reset_provider_health_clears_count_and_error() {
    let mut db = Database::new();
    db.update_provider_health("p0", "chat", false, Some("a".to_string()), 10);
    db.reset_provider_health("p0", "chat");
    let h = db.get_provider_health("p0", "chat");
    assert_eq!(h.consecutive_failures, 0);
    assert!(h.last_error.is_none());
    assert_eq!(h.last_checked_ms, 10);
}

#[test]
fn config_defaults_until_stored() {
    let mut db = Database::new();
    let c = db.get_circuit_breaker_config();
    assert_eq!(c, CircuitBreakerConfig::default());
    let custom = CircuitBreakerConfig {
        enabled: false,
        failure_threshold: 2,
        recovery_timeout_ms: 5_000,
        half_open_trial_count: 3,
    };
    db.update_circuit_breaker_config(custom);
    assert_eq!(db.get_circuit_breaker_config(), custom);
}

#[test]
fn proxy_targets_filter_out_providers_at_the_threshold() {
    let mut db = Database::new();
    db.update_circuit_breaker_config(CircuitBreakerConfig {
        enabled: true,
        failure_threshold: 2,
        recovery_timeout_ms: 60_000,
        half_open_trial_count: 1,
    });
    assert!(db.add_provider(provider("p0", "a", "chat", 0), true));
    assert!(db.add_provider(provider("p1", "b", "chat", 1), true));
    assert!(db.add_provider(provider("p2", "c", "chat", 2), true));
    db.update_provider_health("p0", "chat", false, None, 1);
    db.update_provider_health("p1", "chat", false, None, 1);
    db.update_provider_health("p1", "chat", false, None, 2);
    let targets = commands::get_proxy_targets(&db, "chat");
    let ids: Vec<&str> = targets.iter().map(|p| p.id.as_str()).collect();
    assert_eq!(ids, ["p0", "p2"]);
}

#[test]
fn disabling_a_proxy_target_resets_its_health() {
    let mut db = Database::new();
    assert!(db.add_provider(provider("p0", "a", "chat", 0), true));
    db.update_provider_health("p0", "chat", false, Some("x".to_string()), 5);
    assert!(commands::set_proxy_target(&mut db, "p0", "chat", false));
    assert!(db.get_failover_providers("chat").is_empty());
    let h = db.get_provider_health("p0", "chat");
    assert_eq!(h.consecutive_failures, 0);
    assert!(h.last_error.is_none());
    assert!(commands::set_proxy_target(&mut db, "p0", "chat", true));
    assert_eq!(db.get_failover_providers("chat").len(), 1);
    assert!(!commands::set_proxy_target(&mut db, "ghost", "chat", false));
}

#[test]
fn manual_reset_writes_a_successful_health_row() {
    let mut db = Database::new();
    db.update_provider_health("p0", "chat", false, Some("x".to_string()), 5);
    commands::reset_circuit_breaker(&mut db, "p0", "chat", 9);
    let h = db.get_provider_health("p0", "chat");
    assert_eq!(h.consecutive_failures, 0);
    assert!(h.last_error.is_none());
    assert_eq!(h.last_checked_ms, 9);
}

#[test]
fn connection_test_classification() {
    assert!(commands::connection_test_success(200));
    assert!(commands::connection_test_success(299));
    assert!(commands::connection_test_success(400));
    assert!(commands::connection_test_success(401));
    assert!(commands::connection_test_success(429));
    assert!(commands::connection_test_success(499));
    assert!(!commands::connection_test_success(101));
    assert!(!commands::connection_test_success(302));
    assert!(!commands::connection_test_success(500));
    assert!(!commands::connection_test_success(503));
}

#[test]
fn failed_connection_test_records_the_status_text() {
    let mut db = Database::new();
    assert!(!commands::record_connection_test(&mut db, "p0", "chat", 503, 7));
    let h = db.get_provider_health("p0", "chat");
    assert_eq!(h.consecutive_failures, 1);
    assert_eq!(h.last_error.as_deref(), Some("Server error: 503"));
    assert_eq!(h.last_checked_ms, 7);
    assert!(commands::record_connection_test(&mut db, "p0", "chat", 200, 8));
    assert_eq!(db.get_provider_health("p0", "chat").consecutive_failures, 0);
}

#[test]
fn health_rows_are_independent_per_provider() {
    let mut db = Database::new();
    db.update_provider_health("p0", "chat", false, None, 1);
    db.update_provider_health("p0", "draft", false, None, 1);
    db.update_provider_health("p0", "draft", false, None, 2);
    assert_eq!(db.get_provider_health("p0", "chat").consecutive_failures, 1);
    assert_eq!(db.get_provider_health("p0", "draft").consecutive_failures, 2);
}

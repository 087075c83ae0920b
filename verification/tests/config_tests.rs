use clup::config::Config;

fn config(services: &str, lag: u64) -> Config {
    Config::new(
        "127.0.0.1:8008".to_string(),
        "8.8.8.8:80".to_string(),
        "/var/run/haproxy/admin.sock".to_string(),
        lag,
        services.to_string(),
    )
}

#[test]
fn default_services_are_listed() {
    let c = config("patroni,haproxy,pgbouncer,keepalived", 10);
    assert_eq!(c.services_list(), vec!["patroni", "haproxy", "pgbouncer", "keepalived"]);
}

#[test]
fn services_are_trimmed() {
    let c = config(" patroni , haproxy,,", 10);
    assert_eq!(c.services_list(), vec!["patroni", "haproxy", "", ""]);
    assert_eq!(config("", 1).services_list(), vec![""]);
}

#[test]
fn lag_in_microseconds() {
    assert_eq!(config("a", 10).max_replication_lag_us(), 10_000_000);
    assert_eq!(config("a", 0).max_replication_lag_us(), 0);
}

#[test]
fn selected_service_or_unknown() {
    let c = config("patroni, haproxy", 10);
    assert_eq!(c.selected_service(1), "haproxy");
    assert_eq!(c.selected_service(2), "unknown");
}

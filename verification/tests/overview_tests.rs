use clup::components::cluster::Cluster;
use clup::components::logs::Logs;
use clup::components::overview::{Overview, ServiceProbe};
use clup::config::Config;
use clup::patroni::patroni::{NodeStatus, Patroni, PatroniData};
use clup::services::logs::LogsService;

fn overview() -> Overview {
    Overview::new(
        Patroni::new("x".to_string()),
        Config::new("x".to_string(), "d".to_string(), "/s".to_string(), 10, "patroni".to_string()),
    )
}

#[test]
fn components_from_probes() {
    let o = overview();
    let probes = vec![
        ServiceProbe {
            name: "haproxy".to_string(),
            active: true,
            journal: Some("Error: a\nok\n".to_string()),
            uptime_output: Some("ActiveEnterTimestamp=Tue\n".to_string()),
            version_short: Some("HAProxy version 2.8.5\n".to_string()),
            version_long: None,
        },
        ServiceProbe {
            name: "pgbouncer".to_string(),
            active: false,
            journal: None,
            uptime_output: None,
            version_short: None,
            version_long: None,
        },
    ];
    let cs = o.collect_component_statuses(&probes);
    assert_eq!(cs.len(), 2);
    assert_eq!(cs[0].name, "haproxy");
    assert!(cs[0].up);
    assert_eq!(cs[0].errors, 1);
    assert_eq!(cs[0].uptime, "Tue");
    assert_eq!(cs[0].version, "HAProxy version 2.8.5");
    assert!(!cs[1].up);
    assert_eq!(cs[1].errors, 0);
    assert_eq!(cs[1].uptime, "unknown");
    assert_eq!(cs[1].version, "-");
    assert_eq!(cs[0].status_text(), "UP");
    assert_eq!(cs[1].status_text(), "DOWN");
    let d = o.get_overview(
        "host".to_string(),
        "10.0.0.1".to_string(),
        vec![],
        PatroniData::from_fields(None, None, None, None, None),
        probes,
    );
    assert_eq!(d.hostname, "host");
    assert_eq!(d.cluster_data.scope, "-");
    assert_eq!(d.components.len(), 2);
}

#[test]
fn haproxy_stats_default_to_zero() {
    let o = overview();
    assert_eq!(o.fetch_haproxy_backend_stats(None), (0, 0));
    assert_eq!(Overview::detect_keepalived_vip(None, None), "-");
}

#[test]
fn cluster_and_logs_components() {
    let c = Cluster::new(Patroni::new("x".to_string()));
    let n = |name: &str| NodeStatus { name: name.to_string(), role: "replica".to_string(), state: "s".to_string(), host: "h".to_string(), lag: None, api_url: None };
    let info = c.get_cluster_info(vec![n("b"), n("a")], PatroniData::from_fields(None, None, None, None, None));
    assert_eq!(info.members[0].name, "a");
    assert_eq!(Logs::new().read_logs(Some("x\ny")), vec!["x", "y"]);
    assert_eq!(LogsService::new().read_logs(None), vec!["Failed to read logs"]);
}

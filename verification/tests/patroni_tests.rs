use clup::patroni::patroni::{NodeStatus, Patroni, PatroniData, Tone};
use clup::services::cluster::ClusterService;
use clup::services::actions::ActionsService;
use clup::patroni::patroni::sort_members_by_name;

fn node(name: &str, role: &str, lag: Option<u64>) -> NodeStatus {
    NodeStatus {
        name: name.to_string(),
        role: role.to_string(),
        state: "running".to_string(),
        host: format!("{}.local", name),
        lag,
        api_url: None,
    }
}

fn info() -> PatroniData {
    PatroniData::from_fields(None, None, None, Some("main".to_string()), Some("pg1".to_string()))
}

#[test]
fn urls_are_built_from_the_address() {
    let p = Patroni::new("10.0.0.1:8008".to_string());
    assert_eq!(p.base_url(), "http://10.0.0.1:8008");
    assert_eq!(p.cluster_url(), "http://10.0.0.1:8008/cluster");
}

#[test]
fn status_json_is_read_with_dash_defaults() {
    let p = Patroni::new("x".to_string());
    let body = r#"{"role": "primary", "state": "running", "patroni": {"scope": "demo", "name": "pg1"}, "leader": 3}"#;
    let d = p.parse_patroni_json(body);
    assert_eq!(d.role, "primary");
    assert_eq!(d.state, "running");
    assert_eq!(d.scope, "demo");
    assert_eq!(d.node_name, "pg1");
    assert_eq!(d.leader, "-");
    let bad = p.parse_patroni_json("not json");
    assert_eq!(bad.role, "-");
    assert_eq!(bad.scope, "-");
    let none = p.get_patroni_info(None);
    assert_eq!(none.node_name, "-");
    let some = p.get_patroni_info(Some(body.to_string()));
    assert_eq!(some.role, "primary");
}

#[test]
fn members_are_keyed_by_name() {
    let p = Patroni::new("x".to_string());
    let nodes = vec![node("b", "replica", Some(5)), node("a", "leader", None), node("b", "replica", Some(9))];
    let c = p.get_cluster_info(nodes, info());
    assert_eq!(c.scope, "main");
    assert_eq!(c.node_name, "pg1");
    assert_eq!(c.members.len(), 2);
    assert_eq!(c.member("b").unwrap().lag, Some(9));
    assert!(c.member("zzz").is_none());
    assert_eq!(p.get_cluster_nodes(None).len(), 0);
}

#[test]
fn cluster_service_sorts_by_name() {
    let s = ClusterService::new(Patroni::new("x".to_string()));
    let nodes = vec![node("pg3", "replica", Some(0)), node("pg1", "leader", None), node("pg2", "replica", Some(1))];
    let c = s.get_cluster_info(nodes, info());
    let names: Vec<&str> = c.members.iter().map(|n| n.name.as_str()).collect();
    assert_eq!(names, vec!["pg1", "pg2", "pg3"]);
    assert_eq!(c.leader_node_name(), "pg1");
}

#[test]
fn leader_and_replication_health() {
    let p = Patroni::new("x".to_string());
    let c = p.get_cluster_info(vec![node("r", "replica", Some(2_000_000)), node("l", "leader", Some(0))], info());
    assert_eq!(c.leader_node_name(), "l");
    assert!(c.replication_ok(2_000_000));
    assert!(!c.replication_ok(1_999_999));
    let no_leader = p.get_cluster_info(vec![node("r", "replica", None)], info());
    assert_eq!(no_leader.leader_node_name(), "-");
    assert!(no_leader.replication_ok(0));
}

#[test]
fn role_label_of_this_node() {
    let p = Patroni::new("x".to_string());
    let c = p.get_cluster_info(vec![node("pg1", "leader", None), node("pg2", "replica", Some(1))], info());
    assert_eq!(c.node_role_label(), "Primary");
    let d = PatroniData::from_fields(None, None, None, None, Some("pg2".to_string()));
    let c2 = p.get_cluster_info(vec![node("pg1", "leader", None), node("pg2", "replica", Some(1))], d);
    assert_eq!(c2.node_role_label(), "Replica");
    let e = PatroniData::from_fields(None, None, None, None, Some("other".to_string()));
    assert_eq!(p.get_cluster_info(vec![node("pg1", "leader", None)], e).node_role_label(), "Replica");
}

#[test]
fn sorting_a_sorted_cluster_changes_nothing() {
    let s = ClusterService::new(Patroni::new("x".to_string()));
    let nodes = vec![node("c", "replica", None), node("a", "leader", None), node("b", "replica", None)];
    let once = s.get_cluster_info(nodes, info());
    let twice = s.get_cluster_info(once.members.clone(), info());
    let n1: Vec<String> = once.members.iter().map(|n| n.name.clone()).collect();
    let n2: Vec<String> = twice.members.iter().map(|n| n.name.clone()).collect();
    assert_eq!(n1, n2);
    assert!(once.replication_ok(0));
    let lagging = Patroni::new("x".to_string()).get_cluster_info(vec![node("r", "replica", Some(5))], info());
    assert!(!lagging.replication_ok(4));
    assert!(lagging.replication_ok(5));
    assert!(lagging.replication_ok(u64::MAX));
}

#[test]
fn actions_see_patroni_order() {
    let p = Patroni::new("x".to_string());
    let nodes = || vec![node("c", "replica", None), node("a", "leader", None), node("c", "replica", Some(3)), node("b", "replica", None)];
    let direct = p.get_cluster_info(nodes(), info());
    let via = ActionsService::new(p.clone()).get_cluster_info(nodes(), info());
    let n1: Vec<(String, Option<u64>)> = direct.members.iter().map(|n| (n.name.clone(), n.lag)).collect();
    let n2: Vec<(String, Option<u64>)> = via.members.iter().map(|n| (n.name.clone(), n.lag)).collect();
    assert_eq!(n1, n2);
    assert_eq!(n1, vec![("c".to_string(), Some(3)), ("a".to_string(), None), ("b".to_string(), None)]);
}

#[test]
fn sorting_keeps_duplicate_names() {
    let ms = vec![node("b", "replica", Some(1)), node("a", "leader", None), node("b", "replica", Some(2))];
    let sorted = sort_members_by_name(&ms);
    let got: Vec<(String, Option<u64>)> = sorted.iter().map(|n| (n.name.clone(), n.lag)).collect();
    assert_eq!(got, vec![("a".to_string(), None), ("b".to_string(), Some(1)), ("b".to_string(), Some(2))]);
}

#[test]
fn table_colours() {
    assert_eq!(node("a", "leader", None).role_tone(), Tone::Green);
    assert_eq!(node("a", "replica", None).role_tone(), Tone::Cyan);
    assert_eq!(node("a", "sync_standby", None).role_tone(), Tone::Yellow);
    assert_eq!(node("a", "leader", None).state_tone(), Tone::Green);
    let mut stopped = node("b", "replica", None);
    stopped.state = "stopped".to_string();
    assert_eq!(stopped.state_tone(), Tone::Cyan);
}

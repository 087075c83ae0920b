use clup::patroni::patroni::{NodeStatus, Patroni};
use clup::services::actions::{Action, ActionsService, HttpMethod};

#[test]
fn catalog_titles_and_descriptions() {
    let all = Action::all();
    let titles: Vec<&str> = all.iter().map(|a| a.as_str()).collect();
    assert_eq!(titles, vec!["Switchover", "Restart Node", "Reinitialize Node", "Pause Cluster", "Resume Cluster"]);
    assert_eq!(Action::Switchover.description(), "Change the leader node in the cluster");
    assert_eq!(Action::ResumeCluster.description(), "Resume automatic failover in the cluster");
    let destructive: Vec<bool> = all.iter().map(|a| a.is_destructive()).collect();
    assert_eq!(destructive, vec![true, true, true, true, false]);
}

fn member(name: &str, api_url: Option<&str>) -> NodeStatus {
    NodeStatus {
        name: name.to_string(),
        role: "replica".to_string(),
        state: "running".to_string(),
        host: "h".to_string(),
        lag: None,
        api_url: api_url.map(|s| s.to_string()),
    }
}

fn members() -> Vec<NodeStatus> {
    vec![
        member("pg1", Some("http://10.0.0.1:8008/patroni")),
        member("pg2", Some("http://10.0.0.2:8008/patroni")),
        member("pg3", None),
        member("pg4", Some("http://10.0.0.4:8009")),
    ]
}

#[test]
fn node_actions_go_to_the_chosen_member() {
    let s = ActionsService::new(Patroni::new("db:8008".to_string()));
    let r = s.restart_node(&members(), "pg2").unwrap();
    assert_eq!(r.method, HttpMethod::Post);
    assert_eq!(r.url, "http://10.0.0.2:8008/restart");
    assert_eq!(r.body, r#"{"restart": true}"#);
    let r = s.reinitialize_node(&members(), "pg4").unwrap();
    assert_eq!(r.url, "http://10.0.0.4:8009/reinitialize");
    assert_eq!(r.body, r#"{"reinitialize": true}"#);
    assert_eq!(
        s.restart_node(&members(), "pg3").err(),
        Some("Failed to restart node pg3: no API address is known for this node".to_string())
    );
    assert_eq!(
        s.reinitialize_node(&members(), "nope").err(),
        Some("Failed to reinitialize node nope: no API address is known for this node".to_string())
    );
}

#[test]
fn requests_are_built() {
    let s = ActionsService::new(Patroni::new("db:8008".to_string()));
    let r = s.switchover("pg1", "pg2");
    assert_eq!(r.method, HttpMethod::Post);
    assert_eq!(r.url, "http://db:8008/switchover");
    assert_eq!(r.body, r#"{"leader": "pg1", "candidate": "pg2"}"#);
    let r = s.pause_cluster();
    assert_eq!(r.method, HttpMethod::Patch);
    assert_eq!(r.url, "http://db:8008/pause");
    assert_eq!(r.body, r#"{"paused": true}"#);
    let r = s.resume_cluster();
    assert_eq!(r.body, r#"{"paused": false}"#);
}

#[test]
fn failures_name_the_action() {
    let s = ActionsService::new(Patroni::new("db".to_string()));
    assert_eq!(s.restart_node(&members(), "pg2").unwrap().outcome(Some("timeout".to_string())), Err("Failed to restart node pg2: timeout".to_string()));
    assert_eq!(s.switchover("a", "b").outcome(Some("503".to_string())), Err("Failed to perform switchover: 503".to_string()));
    assert_eq!(s.pause_cluster().outcome(None), Ok(()));
    assert_eq!(s.resume_cluster().outcome(Some("x".to_string())), Err("Failed to resume cluster: x".to_string()));
    assert_eq!(s.reinitialize_node(&members(), "pg1").unwrap().outcome(Some("x".to_string())), Err("Failed to reinitialize node pg1: x".to_string()));
}

use clup::app::{App, Key, Step, Tab};
use clup::config::Config;
use clup::patroni::patroni::NodeStatus;
use clup::services::actions::Action;

fn app() -> App {
    App::new(Config::new(
        "127.0.0.1:8008".to_string(),
        "8.8.8.8:80".to_string(),
        "/sock".to_string(),
        10,
        "patroni,haproxy,pgbouncer".to_string(),
    ))
}

fn member(name: &str, role: &str) -> NodeStatus {
    NodeStatus {
        name: name.to_string(),
        role: role.to_string(),
        state: "running".to_string(),
        host: "h".to_string(),
        lag: None,
        api_url: None,
    }
}

#[test]
fn tabs_and_quit() {
    let mut a = app();
    assert_eq!(a.current_tab, Tab::Overview);
    assert_eq!(a.on_key(Key::Char('3')), Step::Continue);
    assert_eq!(a.current_tab, Tab::Logs);
    assert_eq!(a.on_key(Key::Char('2')), Step::Continue);
    assert_eq!(a.current_tab, Tab::Cluster);
    assert_eq!(a.on_key(Key::Char('q')), Step::Quit);
    assert_eq!(a.current_tab, Tab::Cluster);
}

#[test]
fn log_navigation_stays_in_the_list() {
    let mut a = app();
    a.on_key(Key::Char('3'));
    a.on_key(Key::Down);
    a.on_key(Key::Char('j'));
    a.on_key(Key::Down);
    assert_eq!(a.log_selected, 2);
    a.on_key(Key::Right);
    assert!(a.log_focus_right);
    a.on_key(Key::Down);
    a.on_key(Key::Down);
    assert_eq!(a.log_scroll, 2);
    a.on_key(Key::Char('k'));
    assert_eq!(a.log_scroll, 1);
    a.on_key(Key::Left);
    a.on_key(Key::Up);
    assert_eq!(a.log_selected, 1);
    assert_eq!(a.log_scroll, 0);
    a.on_key(Key::Up);
    a.on_key(Key::Up);
    assert_eq!(a.log_selected, 0);
}

#[test]
fn switchover_flow() {
    let mut a = app();
    a.on_key(Key::Char('4'));
    let members = vec![member("pg1", "leader"), member("pg2", "replica"), member("pg3", "replica")];
    assert_eq!(a.on_key(Key::Enter), Step::ChooseFirstTarget);
    assert!(a.action_confirmation);
    assert!(!a.action_confirmation_yes);
    a.choose_first_target(&members);
    assert_eq!(a.action_target_node, "pg2");
    a.on_key(Key::Right);
    assert!(a.action_confirmation_yes);
    assert_eq!(a.on_key(Key::Enter), Step::Perform(Action::Switchover));
    assert!(!a.action_confirmation);
    a.record_outcome(Err("Failed to perform switchover: 503".to_string()));
    assert_eq!(a.action_error, Some("Failed to perform switchover: 503".to_string()));
    a.on_key(Key::Esc);
    assert_eq!(a.action_error, None);
}

#[test]
fn next_target_cycles() {
    let mut a = app();
    a.on_key(Key::Char('4'));
    let members = vec![member("pg1", "leader"), member("pg2", "replica"), member("pg3", "replica")];
    assert_eq!(a.on_key(Key::Char('n')), Step::ChooseNextTarget);
    a.choose_next_target(&members);
    assert_eq!(a.action_target_node, "pg2");
    a.choose_next_target(&members);
    assert_eq!(a.action_target_node, "pg3");
    a.choose_next_target(&members);
    assert_eq!(a.action_target_node, "pg2");
    a.on_key(Key::Down);
    assert_eq!(a.action_selected, 1);
    a.choose_next_target(&members);
    assert_eq!(a.action_target_node, "pg3");
    a.choose_next_target(&members);
    assert_eq!(a.action_target_node, "pg1");
}

#[test]
fn declining_and_resuming() {
    let mut a = app();
    a.on_key(Key::Char('4'));
    for _ in 0..10 {
        a.on_key(Key::Down);
    }
    assert_eq!(a.action_selected, 4);
    assert_eq!(a.on_key(Key::Enter), Step::Perform(Action::ResumeCluster));
    assert!(!a.action_confirmation);
    a.on_key(Key::Up);
    assert_eq!(a.action_selected, 3);
    assert_eq!(a.on_key(Key::Enter), Step::Continue);
    assert!(a.action_confirmation);
    a.on_key(Key::Down);
    assert_eq!(a.action_selected, 3);
    assert_eq!(a.on_key(Key::Enter), Step::Continue);
    assert!(!a.action_confirmation);
    a.on_key(Key::Enter);
    a.on_key(Key::Esc);
    assert!(!a.action_confirmation);
    a.record_outcome(Ok(()));
    assert_eq!(a.action_error, None);
}

#[test]
fn dialog_keys_toggle_and_cancel() {
    let mut a = app();
    a.on_key(Key::Char('4'));
    a.on_key(Key::Down);
    a.on_key(Key::Down);
    a.on_key(Key::Down);
    assert_eq!(a.on_key(Key::Enter), Step::Continue);
    let before = a.action_confirmation_yes;
    a.on_key(Key::Left);
    assert_eq!(a.action_confirmation_yes, !before);
    a.on_key(Key::Right);
    assert_eq!(a.action_confirmation_yes, before);
    a.record_outcome(Err("boom".to_string()));
    a.on_key(Key::Esc);
    assert_eq!(a.action_error, None);
    assert!(a.action_confirmation);
    a.on_key(Key::Esc);
    assert!(!a.action_confirmation);
}

#[test]
fn scrolling_stops_at_the_largest_offset() {
    let mut a = app();
    a.on_key(Key::Char('3'));
    a.on_key(Key::Right);
    assert!(!a.scroll_would_overflow(Key::Down));
    a.log_scroll = u16::MAX;
    assert!(a.scroll_would_overflow(Key::Char('j')));
    assert!(!a.scroll_would_overflow(Key::Up));
}

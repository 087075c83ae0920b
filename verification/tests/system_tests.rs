use clup::system::{
    keepalived_vip_from_outputs, parse_ip_json, vip_from_ip_json_output,
    exec_command,
    IpAddrInfo, IpInterface, backend_stats, count_error_lines, detect_keepalived_vip,
    detect_service_version, get_service_errors, get_service_uptime, read_service_logs,
    vip_from_ip_json, vip_from_ip_text,
};

#[test]
fn error_lines_are_counted() {
    assert_eq!(count_error_lines("error: x\nok\nfatal: y\nerror fatal\n"), 3);
    assert_eq!(count_error_lines(""), 0);
}

#[test]
fn journal_errors_ignore_case() {
    assert_eq!(get_service_errors(Some("ERROR one\nFatal two\nfine")), 2);
    assert_eq!(get_service_errors(None), 0);
}

#[test]
fn uptime_is_after_equals() {
    assert_eq!(
        get_service_uptime(Some("ActiveEnterTimestamp=Mon 2024-01-01 10:00:00 UTC\n")),
        "Mon 2024-01-01 10:00:00 UTC"
    );
    assert_eq!(get_service_uptime(Some("no value")), "unknown");
    assert_eq!(get_service_uptime(Some("a=b=c")), "b");
    assert_eq!(get_service_uptime(None), "unknown");
}

#[test]
fn version_prefers_short_flag() {
    assert_eq!(detect_service_version(Some(" HAProxy 2.8 \nmore"), Some("x")), "HAProxy 2.8");
    assert_eq!(detect_service_version(None, Some("PgBouncer 1.21\n")), "PgBouncer 1.21");
    assert_eq!(detect_service_version(None, None), "-");
    assert_eq!(detect_service_version(Some(""), None), "");
}

#[test]
fn logs_are_lines_or_failure() {
    assert_eq!(read_service_logs(Some("a\nb\n")), vec!["a", "b"]);
    assert_eq!(read_service_logs(None), vec!["Failed to read logs"]);
}

fn stat_row(px: &str, sv: &str, status: &str) -> String {
    let mut cols: Vec<String> = vec![String::new(); 20];
    cols[0] = px.to_string();
    cols[1] = sv.to_string();
    cols[17] = status.to_string();
    cols.join(",")
}

#[test]
fn haproxy_backends_are_counted() {
    let reply = vec![
        "# pxname,svname,...".to_string(),
        stat_row("pg", "BACKEND", "UP"),
        stat_row("pg", "node1", "UP"),
        stat_row("ro", "BACKEND", "DOWN"),
        "short,BACKEND,UP".to_string(),
        stat_row("stats", "BACKEND", "UP"),
    ]
    .join("\n");
    assert_eq!(backend_stats(&reply), (2, 3));
    assert_eq!(backend_stats(""), (0, 0));
}

fn addr(label: Option<&str>, flags: Option<Vec<Option<&str>>>, local: Option<&str>) -> IpAddrInfo {
    IpAddrInfo {
        label: label.map(|s| s.to_string()),
        flags: flags.map(|f| f.into_iter().map(|x| x.map(|s| s.to_string())).collect()),
        local: local.map(|s| s.to_string()),
    }
}

#[test]
fn vip_from_json_picks_secondary_or_labelled() {
    let ifaces = vec![
        IpInterface { addr_info: None },
        IpInterface {
            addr_info: Some(vec![
                addr(Some("eth0"), Some(vec![]), Some("10.0.0.5")),
                addr(Some("eth0"), Some(vec![None, Some("secondary")]), None),
                addr(Some("eth0"), Some(vec![Some("secondary")]), Some("10.0.0.100")),
            ]),
        },
    ];
    assert_eq!(vip_from_ip_json(&ifaces), Some("10.0.0.100".to_string()));
    let labelled = vec![IpInterface {
        addr_info: Some(vec![addr(Some("eth0:vip"), None, Some("10.0.0.9"))]),
    }];
    assert_eq!(vip_from_ip_json(&labelled), Some("10.0.0.9".to_string()));
    let none = vec![IpInterface { addr_info: Some(vec![addr(None, None, Some("10.0.0.5"))]) }];
    assert_eq!(vip_from_ip_json(&none), None);
}

#[test]
fn vip_from_text_reads_fourth_word() {
    let text = "2: eth0    inet 10.0.0.5/24 brd 10.0.0.255 scope global eth0\n\
                2: eth0    inet 10.0.0.100/32 scope global secondary eth0:1\n";
    // the index `2:` is no alias label; the second line is secondary and labelled eth0:1
    assert_eq!(vip_from_ip_text(text), Some("10.0.0.100".to_string()));
    let labelled = "2: eth0    inet 10.0.0.5/24 scope global eth0\n2: eth0    inet 10.0.0.7/32 scope global eth0:vip\n";
    assert_eq!(vip_from_ip_text(labelled), Some("10.0.0.7".to_string()));
    let plain = "2 eth0 inet 10.0.0.5/24 scope global eth0\n2 eth0 inet 10.0.0.100/32 scope global secondary eth0\n";
    assert_eq!(vip_from_ip_text(plain), Some("10.0.0.100".to_string()));
    assert_eq!(vip_from_ip_text("eth0 secondary\nx:\n"), None);
    assert_eq!(vip_from_ip_text("2: eth0 inet 10.0.0.5/24 scope global eth0"), None);
    assert_eq!(vip_from_ip_text("a b c\n"), None);
}

#[test]
fn vip_falls_back_to_text_then_dash() {
    let text = "3: eth1 inet 192.168.1.50/32 scope global secondary eth1\n".to_string();
    assert_eq!(detect_keepalived_vip(Some(vec![]), Some(text.clone())), "192.168.1.50");
    assert_eq!(detect_keepalived_vip(None, None), "-");
    let json = vec![IpInterface {
        addr_info: Some(vec![addr(Some("eth0:0"), None, Some("10.1.1.1"))]),
    }];
    assert_eq!(detect_keepalived_vip(Some(json), Some(text)), "10.1.1.1");
}

#[test]
fn primary_address_is_no_vip() {
    let text = "2: eth0    inet 10.0.0.5/24 brd 10.0.0.255 scope global eth0\n".to_string();
    assert_eq!(detect_keepalived_vip(None, Some(text)), "-");
}

#[test]
fn command_results() {
    assert_eq!(exec_command(true, "exit status: 0", "out\n", "warn"), Ok("out\n".to_string()));
    assert_eq!(
        exec_command(false, "exit status: 3", "", "bad thing"),
        Err("Command failed with status exit status: 3: bad thing".to_string())
    );
}

const IP_JSON: &str = r#"[
  {"ifindex": 1, "ifname": "lo", "addr_info": [{"family": "inet", "local": "127.0.0.1", "prefixlen": 8, "scope": "host", "label": "lo"}]},
  {"ifindex": 2, "ifname": "eth0", "addr_info": [
    {"family": "inet", "local": "10.0.0.5", "prefixlen": 24, "scope": "global", "label": "eth0"},
    {"family": "inet", "local": "10.0.0.100", "prefixlen": 32, "scope": "global", "secondary": true, "flags": [1, "secondary"], "label": "eth0"}
  ]},
  {"ifindex": 3, "ifname": "eth1", "addr_info": "odd"}
]"#;

#[test]
fn raw_ip_json_is_read() {
    let ifs = parse_ip_json(IP_JSON.as_bytes()).unwrap();
    assert_eq!(ifs.len(), 3);
    assert!(ifs[2].addr_info.is_none());
    let eth0 = ifs[1].addr_info.as_ref().unwrap();
    assert_eq!(eth0[1].flags, Some(vec![None, Some("secondary".to_string())]));
    assert_eq!(eth0[0].flags, None);
    assert_eq!(eth0[0].label, Some("eth0".to_string()));
    assert!(parse_ip_json(b"{\"not\": \"an array\"}").is_none());
    assert!(parse_ip_json(b"garbage").is_none());
    assert_eq!(vip_from_ip_json_output(IP_JSON.as_bytes()), Some("10.0.0.100".to_string()));
}

#[test]
fn vip_from_raw_outputs() {
    assert_eq!(keepalived_vip_from_outputs(Some(IP_JSON.as_bytes()), None), "10.0.0.100");
    let primary = "[{\"addr_info\": [{\"local\": \"10.0.0.5\", \"label\": \"eth0\"}]}]";
    assert_eq!(keepalived_vip_from_outputs(Some(primary.as_bytes()), None), "-");
    let text = "2: eth0    inet 10.0.0.7/32 scope global eth0:vip\n".to_string();
    assert_eq!(keepalived_vip_from_outputs(Some(primary.as_bytes()), Some(text.clone())), "10.0.0.7");
    assert_eq!(keepalived_vip_from_outputs(None, Some(text)), "10.0.0.7");
}

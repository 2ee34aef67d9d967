use rustvpn::logs::{classify_level, LogBuffer};
use rustvpn::manager::{describe_code, detect_readiness, OutputStream, ReadyAction, XrayManager};
use rustvpn::models::{AppError, ConnectionStatus, DetectedVpn, LogEntry, RealitySettings, ServerConfig, SpeedStats};
use rustvpn::stats::parse_stats_output;

fn server() -> ServerConfig {
    ServerConfig {
        id: "id-1".to_string(),
        name: "Home".to_string(),
        address: "203.0.113.10".to_string(),
        port: 443,
        uuid: "aaaaaaaa-bbbb-cccc-dddd-eeeeeeeeeeee".to_string(),
        flow: "xtls-rprx-vision".to_string(),
        reality: RealitySettings {
            public_key: "pk".to_string(),
            short_id: "sid".to_string(),
            server_name: "example.com".to_string(),
            fingerprint: "chrome".to_string(),
        },
    }
}

fn connected_manager() -> XrayManager {
    let mut m = XrayManager::new();
    m.start(&server(), &[]).unwrap();
    m.prepare_config(&server(), Vec::new()).unwrap();
    m.spawned();
    assert_eq!(m.on_output(OutputStream::Stdout, "Xray started", 100), ReadyAction::EnableProxyAndNotify);
    m
}

#[test]
fn new_manager_is_disconnected() {
    let m = XrayManager::new();
    assert_eq!(m.status().status, ConnectionStatus::Disconnected);
    assert!(m.get_logs().is_empty());
    assert_eq!(m.socks_port(), 10808);
    assert_eq!(m.cached_stats(), SpeedStats::default());
}

#[test]
fn connect_while_connecting_or_connected_is_refused_without_change() {
    let mut m = XrayManager::new();
    assert_eq!(m.start(&server(), &[]).unwrap(), false);
    m.config_written("/tmp/cfg.json".to_string());
    m.spawned();
    let mut other = server();
    other.name = "Other".to_string();
    match m.start(&other, &[]) {
        Err(AppError::XrayProcess(msg)) => assert_eq!(msg, "Already connected or connecting"),
        _ => panic!("connect must be refused while connecting"),
    }
    assert_eq!(m.status().status, ConnectionStatus::Connecting);
    assert_eq!(m.status().server_name, Some("Home".to_string()));
    assert!(m.has_child);
    assert_eq!(m.config_path, Some("/tmp/cfg.json".to_string()));

    let mut c = connected_manager();
    assert!(c.start(&other, &[]).is_err());
    assert_eq!(c.status().status, ConnectionStatus::Connected);
    assert!(c.has_child);
}

#[test]
fn ready_signal_connects_once() {
    let mut m = XrayManager::new();
    m.start(&server(), &[]).unwrap();
    m.spawned();
    assert_eq!(m.on_output(OutputStream::Stderr, "[Warning] slow", 5), ReadyAction::Nothing);
    assert_eq!(m.on_output(OutputStream::Stderr, "  core: Xray 1.8 started  ", 7), ReadyAction::EnableProxyAndNotify);
    let info = m.status();
    assert_eq!(info.status, ConnectionStatus::Connected);
    assert_eq!(info.connected_since, Some(7));
    assert_eq!(info.server_address, Some("203.0.113.10".to_string()));
    assert_eq!(m.on_output(OutputStream::Stdout, "started again", 9), ReadyAction::Nothing);
    assert!(!m.on_timeout(20));
    assert_eq!(m.status().status, ConnectionStatus::Connected);
    let logs = m.get_logs();
    assert_eq!(logs.len(), 3);
    assert_eq!(logs[0].level, "warning");
    assert_eq!(logs[1].message, "core: Xray 1.8 started");
}

#[test]
fn timeout_fails_an_undecided_attempt() {
    let mut m = XrayManager::new();
    m.start(&server(), &[]).unwrap();
    m.spawned();
    assert!(m.on_timeout(15));
    let info = m.status();
    assert_eq!(info.status, ConnectionStatus::Error);
    assert!(info.error_message.unwrap().contains("timeout"));
    assert!(!m.has_child);
    assert_eq!(m.get_logs().last().unwrap().message, "Connection timeout after 15 seconds");
    assert_eq!(m.on_output(OutputStream::Stdout, "started", 16), ReadyAction::Nothing);
    assert_eq!(m.status().status, ConnectionStatus::Error);
}

#[test]
fn unexpected_exit_is_an_error_with_code() {
    let mut m = connected_manager();
    m.on_terminated(Some(-1), None, 200);
    let info = m.status();
    assert_eq!(info.status, ConnectionStatus::Error);
    assert_eq!(info.error_message, Some("xray exited unexpectedly (code: Some(-1))".to_string()));
    assert_eq!(info.connected_since, None);
    assert_eq!(m.get_logs().last().unwrap().message, "xray terminated (code: Some(-1), signal: None)");
    assert_eq!(m.get_logs().last().unwrap().level, "warning");
}

#[test]
fn exit_during_stop_finishes_it() {
    let mut m = connected_manager();
    m.config_written("/tmp/x.json".to_string());
    let plan = m.stop();
    assert!(plan.kill_process);
    assert_eq!(plan.remove_config, Some("/tmp/x.json".to_string()));
    assert_eq!(m.status().status, ConnectionStatus::Disconnecting);
    m.on_terminated(None, Some(9), 300);
    assert_eq!(m.status().status, ConnectionStatus::Disconnected);
    m.finish_stop();
    let info = m.status();
    assert_eq!(info.status, ConnectionStatus::Disconnected);
    assert_eq!(info.server_name, None);
    assert_eq!(m.cached_stats(), SpeedStats::default());
}

#[test]
fn stop_is_safe_when_nothing_runs() {
    let mut m = XrayManager::new();
    let plan = m.stop();
    assert!(!plan.kill_process);
    assert!(plan.remove_config.is_none());
    m.finish_stop();
    let again = m.stop();
    assert!(!again.kill_process);
    m.finish_stop();
    assert_eq!(m.status().status, ConnectionStatus::Disconnected);
}

#[test]
fn reconnect_kills_leftover_process() {
    let mut m = connected_manager();
    m.on_terminated(Some(1), None, 5);
    m.spawned();
    assert_eq!(m.start(&server(), &[]).unwrap(), true);
    assert!(!m.has_child);
}

#[test]
fn spawn_failure_is_reported_and_recorded() {
    let mut m = XrayManager::new();
    m.start(&server(), &[]).unwrap();
    let e = m.spawn_failed("Failed to spawn xray: not found".to_string());
    assert_eq!(e.message(), "Xray process error: Failed to spawn xray: not found");
    assert_eq!(m.status().status, ConnectionStatus::Error);
}

#[test]
fn prepare_config_uses_detected_vpns_and_domains() {
    let mut m = XrayManager::new();
    m.start(&server(), &["corp.lan".to_string()]).unwrap();
    let vpns = vec![DetectedVpn {
        interface: "tun0".to_string(),
        vpn_type: "OpenVPN".to_string(),
        subnets: vec!["10.8.0.0/24".to_string()],
        server_ip: Some("198.51.100.1".to_string()),
    }];
    let cfg = m.prepare_config(&server(), vpns).unwrap();
    assert_eq!(m.bypass_subnets, vec!["10.8.0.0/24", "198.51.100.1/32"]);
    assert_eq!(m.get_detected_vpns()[0].interface, "tun0");
    assert!(cfg.contains("\"full:corp.lan\""));
    assert!(cfg.contains("\"198.51.100.1/32\""));
}

#[test]
fn stats_rates_never_go_negative() {
    let mut m = connected_manager();
    m.prev_uplink = 100;
    m.prev_downlink = 200;
    let s = m.record_stats(90, 250);
    assert_eq!(s.upload_speed, 0);
    assert_eq!(s.download_speed, 50);
    assert_eq!(s.total_upload, 90);
    assert_eq!(s.total_download, 250);
    assert_eq!(m.prev_uplink, 90);
    assert_eq!(m.prev_downlink, 250);
    assert_eq!(m.cached_stats(), s);
}

#[test]
fn stats_need_a_connection() {
    let mut m = XrayManager::new();
    assert!(!m.stats_due());
    let text = "{\"stat\":[{\"name\":\"outbound>>>proxy>>>traffic>>>uplink\",\"value\":5}]}";
    assert_eq!(m.query_stats(Some(text)), SpeedStats::default());
    assert_eq!(m.prev_uplink, 0);
}

#[test]
fn stats_query_computes_deltas() {
    let mut m = connected_manager();
    assert!(m.stats_due());
    let first = "{\"stat\": [{\"name\": \"outbound>>>proxy>>>traffic>>>uplink\", \"value\": \"1000\"}, {\"name\": \"outbound>>>proxy>>>traffic>>>downlink\", \"value\": 4000}]}";
    let s = m.query_stats(Some(first));
    assert_eq!((s.upload_speed, s.download_speed, s.total_upload, s.total_download), (1000, 4000, 1000, 4000));
    let second = "stat: <\n  name: \"outbound>>>proxy>>>traffic>>>uplink\"\n  value: 1500\n>\nstat: <\n  name: \"outbound>>>proxy>>>traffic>>>downlink\"\n  value: 4100\n>\n";
    let s = m.query_stats(Some(second));
    assert_eq!((s.upload_speed, s.download_speed), (500, 100));
    let s = m.query_stats(None);
    assert_eq!((s.upload_speed, s.download_speed, s.total_upload, s.total_download), (0, 0, 1500, 4100));
}

#[test]
fn stats_output_formats() {
    let pretty = "{\n  \"stat\": [\n    {\n      \"name\": \"outbound>>>proxy>>>traffic>>>downlink\",\n      \"value\": \"77\"\n    },\n    {\n      \"name\": \"outbound>>>proxy>>>traffic>>>uplink\",\n      \"value\": \"12\"\n    }\n  ]\n}";
    assert_eq!(parse_stats_output(pretty), (12, 77));
    assert_eq!(parse_stats_output("not json at all"), (0, 0));
    assert_eq!(parse_stats_output(""), (0, 0));
    let missing_value = "{\"stat\":[{\"name\":\"outbound>>>proxy>>>traffic>>>uplink\"},{\"name\":\"outbound>>>proxy>>>traffic>>>downlink\",\"value\":9}]}";
    assert_eq!(parse_stats_output(missing_value), (0, 9));
    assert_eq!(parse_stats_output("outbound>>>proxy>>>traffic>>>uplink value: 99999999999999999999"), (0, 0));
}

#[test]
fn log_ring_evicts_oldest() {
    let mut logs = LogBuffer::new(2);
    for i in 0..3u64 {
        logs.push(LogEntry { timestamp: i, level: "info".to_string(), message: format!("m{i}") });
    }
    let all = logs.snapshot();
    assert_eq!(all.len(), 2);
    assert_eq!(all[0].message, "m1");
    assert_eq!(all[1].message, "m2");
    logs.clear();
    assert_eq!(logs.len(), 0);
    assert_eq!(logs.capacity(), 2);
}

#[test]
fn manager_keeps_at_most_a_thousand_records() {
    let mut m = XrayManager::new();
    for i in 0..1005u64 {
        m.on_error_event(&format!("e{i}"), i);
    }
    let logs = m.get_logs();
    assert_eq!(logs.len(), 1000);
    assert_eq!(logs[0].message, "e5");
    m.clear_logs();
    assert!(m.get_logs().is_empty());
}

#[test]
fn stderr_levels_and_readiness() {
    assert_eq!(classify_level("2024 [Warning] x"), "warning");
    assert_eq!(classify_level("2024 [Error] x"), "error");
    assert_eq!(classify_level("plain"), "info");
    assert!(detect_readiness("Xray 1.8.4 started"));
    assert!(!detect_readiness("starting"));
    assert_eq!(describe_code(Some(137)), "Some(137)");
    assert_eq!(describe_code(None), "None");
}

#[test]
fn json_members_in_any_order() {
    let text = "{\"stat\":[{\"value\":5,\"name\":\"outbound>>>proxy>>>traffic>>>uplink\"},{\"value\":\"+7\",\"name\":\"outbound>>>proxy>>>traffic>>>downlink\"},{\"name\":\"outbound>>>proxy>>>traffic>>>uplink\",\"value\":6}]}";
    assert_eq!(parse_stats_output(text), (6, 7));
    assert_eq!(parse_stats_output("{}"), (0, 0));
}

#[test]
fn queried_stats_are_cached() {
    let mut m = connected_manager();
    let text = "{\"stat\":[{\"name\":\"outbound>>>proxy>>>traffic>>>uplink\",\"value\":40}]}";
    let s = m.query_stats(Some(text));
    assert_eq!(m.cached_stats(), s);
    assert_eq!(s.total_upload, 40);
    assert_eq!(m.status().status, ConnectionStatus::Connected);
}

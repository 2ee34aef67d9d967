use rustvpn::config::generate_client_config;
use rustvpn::models::{RealitySettings, ServerConfig};
use serde_json::Value;

fn parse(s: &str) -> Value {
    serde_json::from_str(s).unwrap()
}

#[test]
fn test_generate_config() {
    let server = ServerConfig {
        id: "test-config-id".to_string(),
        name: "Test Server".to_string(),
        address: "45.151.233.107".to_string(),
        port: 443,
        uuid: "b472a988-1cd7-4221-b76f-9cea35f2df2f".to_string(),
        flow: "xtls-rprx-vision".to_string(),
        reality: RealitySettings {
            public_key: "kieJgZYLW9ZiKbGLpKnv4XyVo6_42inSONJrr-96tUU".to_string(),
            short_id: "d64736262cd50811".to_string(),
            server_name: "www.microsoft.com".to_string(),
            fingerprint: "chrome".to_string(),
        },
    };

    let config_str = generate_client_config(&server, 10808, &[], &[]).unwrap();
    let config = parse(&config_str);

    assert_eq!(config["inbounds"][0]["port"], 10808);
    assert_eq!(config["inbounds"][0]["listen"], "127.0.0.1");
    assert_eq!(config["inbounds"][0]["protocol"], "socks");

    let vnext = &config["outbounds"][0]["settings"]["vnext"][0];
    assert_eq!(vnext["address"], "45.151.233.107");
    assert_eq!(vnext["port"], 443);
    assert_eq!(vnext["users"][0]["id"], "b472a988-1cd7-4221-b76f-9cea35f2df2f");
    assert_eq!(vnext["users"][0]["flow"], "xtls-rprx-vision");

    let reality = &config["outbounds"][0]["streamSettings"]["realitySettings"];
    assert_eq!(reality["publicKey"], "kieJgZYLW9ZiKbGLpKnv4XyVo6_42inSONJrr-96tUU");
    assert_eq!(reality["shortId"], "d64736262cd50811");
    assert_eq!(reality["serverName"], "www.microsoft.com");
    assert_eq!(reality["fingerprint"], "chrome");

    assert_eq!(config["dns"]["servers"][0], "1.1.1.1");
    assert_eq!(config["dns"]["servers"][1], "8.8.8.8");
}

#[test]
fn test_config_custom_socks_port() {
    let server = ServerConfig::default();
    let config = parse(&generate_client_config(&server, 1080, &[], &[]).unwrap());
    assert_eq!(config["inbounds"][0]["port"], 1080);
}

#[test]
fn http_inbound_listens_on_next_port() {
    let server = ServerConfig::default();
    let config = parse(&generate_client_config(&server, 1080, &[], &[]).unwrap());
    assert_eq!(config["inbounds"][1]["port"], 1081);
    assert_eq!(config["inbounds"][1]["protocol"], "http");
    assert_eq!(config["inbounds"][1]["listen"], "127.0.0.1");
    assert_eq!(config["inbounds"][0]["settings"]["udp"], true);
}

#[test]
fn test_config_has_required_outbounds() {
    let server = ServerConfig::default();
    let config = parse(&generate_client_config(&server, 10808, &[], &[]).unwrap());

    let outbounds = config["outbounds"].as_array().unwrap();
    assert_eq!(outbounds.len(), 3);

    assert_eq!(outbounds[0]["tag"], "proxy");
    assert_eq!(outbounds[0]["protocol"], "vless");

    assert_eq!(outbounds[1]["tag"], "direct");
    assert_eq!(outbounds[1]["protocol"], "freedom");

    assert_eq!(outbounds[2]["tag"], "block");
    assert_eq!(outbounds[2]["protocol"], "blackhole");
}

#[test]
fn test_config_reality_security() {
    let server = ServerConfig::default();
    let config = parse(&generate_client_config(&server, 10808, &[], &[]).unwrap());
    let stream = &config["outbounds"][0]["streamSettings"];
    assert_eq!(stream["network"], "tcp");
    assert_eq!(stream["security"], "reality");
    assert_eq!(stream["realitySettings"]["show"], false);
}

#[test]
fn test_config_encryption_is_none() {
    let server = ServerConfig::default();
    let config = parse(&generate_client_config(&server, 10808, &[], &[]).unwrap());
    let user = &config["outbounds"][0]["settings"]["vnext"][0]["users"][0];
    assert_eq!(user["encryption"], "none");
}

#[test]
fn test_config_routing_rules() {
    let server = ServerConfig::default();
    let config = parse(&generate_client_config(&server, 10808, &[], &[]).unwrap());

    assert_eq!(config["routing"]["domainStrategy"], "IPIfNonMatch");
    let rules = config["routing"]["rules"].as_array().unwrap();
    assert_eq!(rules.len(), 2);
    assert_eq!(rules[0]["outboundTag"], "direct");
    assert!(rules[0]["domain"].as_array().unwrap().contains(&Value::String("localhost".to_string())));
    assert_eq!(rules[1]["outboundTag"], "direct");
    let ips = rules[1]["ip"].as_array().unwrap();
    assert!(ips.contains(&Value::String("127.0.0.0/8".to_string())));
    assert!(ips.contains(&Value::String("10.0.0.0/8".to_string())));
    assert!(ips.contains(&Value::String("192.168.0.0/16".to_string())));
}

#[test]
fn test_config_sniffing_enabled() {
    let server = ServerConfig::default();
    let config = parse(&generate_client_config(&server, 10808, &[], &[]).unwrap());
    let sniffing = &config["inbounds"][0]["sniffing"];
    assert_eq!(sniffing["enabled"], true);
    let overrides = sniffing["destOverride"].as_array().unwrap();
    assert!(overrides.contains(&Value::String("http".to_string())));
    assert!(overrides.contains(&Value::String("tls".to_string())));
}

#[test]
fn test_config_is_valid_json() {
    let server = ServerConfig {
        id: "test-valid-json-id".to_string(),
        name: "Prod".to_string(),
        address: "1.2.3.4".to_string(),
        port: 443,
        uuid: "00000000-0000-0000-0000-000000000000".to_string(),
        flow: "xtls-rprx-vision".to_string(),
        reality: RealitySettings {
            public_key: "pubkey".to_string(),
            short_id: "shortid".to_string(),
            server_name: "example.com".to_string(),
            fingerprint: "chrome".to_string(),
        },
    };
    let config_str = generate_client_config(&server, 10808, &[], &[]).unwrap();
    let parsed: Result<Value, _> = serde_json::from_str(&config_str);
    assert!(parsed.is_ok(), "generate_client_config output is not valid JSON");
}

#[test]
fn test_config_server_address_uuid_port() {
    let server = ServerConfig {
        id: "test-addr-uuid-port-id".to_string(),
        name: "S".to_string(),
        address: "99.88.77.66".to_string(),
        port: 1234,
        uuid: "cafe0000-cafe-cafe-cafe-cafe00000000".to_string(),
        flow: "xtls-rprx-vision".to_string(),
        reality: RealitySettings::default(),
    };
    let config = parse(&generate_client_config(&server, 10808, &[], &[]).unwrap());
    let vnext = &config["outbounds"][0]["settings"]["vnext"][0];
    assert_eq!(vnext["address"], "99.88.77.66");
    assert_eq!(vnext["port"], 1234);
    assert_eq!(vnext["users"][0]["id"], "cafe0000-cafe-cafe-cafe-cafe00000000");
}

#[test]
fn test_config_reality_settings_all_fields_present() {
    let server = ServerConfig {
        id: "test-reality-all-fields-id".to_string(),
        name: "R".to_string(),
        address: "5.5.5.5".to_string(),
        port: 443,
        uuid: "uuid".to_string(),
        flow: "xtls-rprx-vision".to_string(),
        reality: RealitySettings {
            public_key: "mypublickey".to_string(),
            short_id: "myshortid".to_string(),
            server_name: "www.cloudflare.com".to_string(),
            fingerprint: "safari".to_string(),
        },
    };
    let config = parse(&generate_client_config(&server, 10808, &[], &[]).unwrap());
    let reality = &config["outbounds"][0]["streamSettings"]["realitySettings"];
    assert_eq!(reality["publicKey"], "mypublickey");
    assert_eq!(reality["shortId"], "myshortid");
    assert_eq!(reality["serverName"], "www.cloudflare.com");
    assert_eq!(reality["fingerprint"], "safari");
}

#[test]
fn test_config_has_stats_section() {
    let server = ServerConfig::default();
    let config = parse(&generate_client_config(&server, 10808, &[], &[]).unwrap());
    assert!(config.get("stats").is_some(), "config must contain 'stats' key");
}

#[test]
fn test_config_has_api_section() {
    let server = ServerConfig::default();
    let config = parse(&generate_client_config(&server, 10808, &[], &[]).unwrap());
    let api = &config["api"];
    assert_eq!(api["tag"], "api");
    assert_eq!(api["listen"], "127.0.0.1:10085");
    let services = api["services"].as_array().unwrap();
    assert!(services.contains(&Value::String("StatsService".to_string())));
}

#[test]
fn test_config_with_vpn_bypass_subnets() {
    let server = ServerConfig::default();
    let bypass_subnets = vec!["10.8.0.0/24".to_string(), "172.20.0.0/16".to_string()];
    let config = parse(&generate_client_config(&server, 10808, &[], &bypass_subnets).unwrap());
    let rules = config["routing"]["rules"].as_array().unwrap();
    let ip_rule = rules.iter().find(|r| r.get("ip").is_some()).unwrap();
    let ips = ip_rule["ip"].as_array().unwrap();
    assert!(ips.contains(&Value::String("10.8.0.0/24".to_string())));
    assert!(ips.contains(&Value::String("172.20.0.0/16".to_string())));
    assert!(ips.contains(&Value::String("127.0.0.0/8".to_string())));
    assert!(ips.contains(&Value::String("192.168.0.0/16".to_string())));
}

#[test]
fn test_config_has_stats_policy() {
    let server = ServerConfig::default();
    let config = parse(&generate_client_config(&server, 10808, &[], &[]).unwrap());
    let system = &config["policy"]["system"];
    assert_eq!(system["statsOutboundUplink"], true);
    assert_eq!(system["statsOutboundDownlink"], true);
}

#[test]
fn bypass_domains_come_first_as_wildcard_and_exact() {
    let server = ServerConfig::default();
    let domains = vec!["  Corp.Example.COM ".to_string(), "intra.net".to_string()];
    let config = parse(&generate_client_config(&server, 10808, &domains, &[]).unwrap());
    let rules = config["routing"]["rules"].as_array().unwrap();
    assert_eq!(rules.len(), 3);
    let expected: Vec<Value> = ["domain:corp.example.com", "full:corp.example.com", "domain:intra.net", "full:intra.net"]
        .iter()
        .map(|s| Value::String(s.to_string()))
        .collect();
    assert_eq!(rules[0]["domain"].as_array().unwrap(), &expected);
    assert_eq!(rules[1]["domain"][0], "localhost");
    assert!(rules[2].get("ip").is_some());
}

#[test]
fn ip_rule_keeps_baseline_order_and_drops_repeats() {
    let server = ServerConfig::default();
    let subnets = vec![
        " 10.8.0.0/24 ".to_string(),
        "10.0.0.0/8".to_string(),
        "".to_string(),
        "10.8.0.0/24".to_string(),
    ];
    let config = parse(&generate_client_config(&server, 10808, &[], &subnets).unwrap());
    let ips: Vec<String> = config["routing"]["rules"][1]["ip"]
        .as_array()
        .unwrap()
        .iter()
        .map(|v| v.as_str().unwrap().to_string())
        .collect();
    assert_eq!(
        ips,
        vec!["127.0.0.0/8", "10.0.0.0/8", "172.16.0.0/12", "192.168.0.0/16", "::1/128", "fc00::/7", "10.8.0.0/24"]
    );
}

#[test]
fn strings_with_quotes_are_escaped() {
    let mut server = ServerConfig::default();
    server.address = "a\"b\\c".to_string();
    server.reality.short_id = "line\nbreak".to_string();
    let config = parse(&generate_client_config(&server, 10808, &[], &[]).unwrap());
    assert_eq!(config["outbounds"][0]["settings"]["vnext"][0]["address"], "a\"b\\c");
    assert_eq!(config["outbounds"][0]["streamSettings"]["realitySettings"]["shortId"], "line\nbreak");
}

#[test]
fn same_inputs_give_same_document() {
    let server = ServerConfig::default();
    let d = vec!["x.org".to_string()];
    let s = vec!["10.1.0.0/16".to_string()];
    assert_eq!(
        generate_client_config(&server, 2000, &d, &s).unwrap(),
        generate_client_config(&server, 2000, &d, &s).unwrap()
    );
}

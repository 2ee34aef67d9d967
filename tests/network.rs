use rustvpn::models::DetectedVpn;
use rustvpn::network::{
    classify_vpn_type, collect_bypass_subnets, detect_vpns, is_default_route, is_host_route,
    is_vpn_interface, RouteEntry,
};

fn route(dst: &str, dev: &str, gateway: Option<&str>, protocol: Option<&str>) -> RouteEntry {
    RouteEntry {
        dst: Some(dst.to_string()),
        dev: Some(dev.to_string()),
        gateway: gateway.map(|g| g.to_string()),
        protocol: protocol.map(|p| p.to_string()),
    }
}

fn vpn(interface: &str, vpn_type: &str, subnets: &[&str], server_ip: Option<&str>) -> DetectedVpn {
    DetectedVpn {
        interface: interface.to_string(),
        vpn_type: vpn_type.to_string(),
        subnets: subnets.iter().map(|s| s.to_string()).collect(),
        server_ip: server_ip.map(|s| s.to_string()),
    }
}

#[test]
fn test_parse_vpn_routes_with_tun() {
    let routes = vec![
        route("default", "wlp2s0", Some("192.168.1.1"), Some("dhcp")),
        route("10.8.0.0/24", "tun0", None, Some("kernel")),
        route("172.20.0.0/16", "tun0", Some("10.8.0.1"), Some("static")),
        route("192.168.1.0/24", "wlp2s0", None, Some("kernel")),
    ];
    let vpns = detect_vpns(&routes);
    assert_eq!(vpns.len(), 1);
    assert_eq!(vpns[0].interface, "tun0");
    assert_eq!(vpns[0].vpn_type, "OpenVPN");
    assert_eq!(vpns[0].subnets.len(), 2);
    assert!(vpns[0].subnets.contains(&"10.8.0.0/24".to_string()));
    assert!(vpns[0].subnets.contains(&"172.20.0.0/16".to_string()));
}

#[test]
fn test_parse_vpn_routes_wireguard() {
    let routes = vec![
        route("default", "eth0", Some("192.168.1.1"), Some("dhcp")),
        route("10.0.0.0/8", "wg0", None, Some("kernel")),
        route("192.168.1.0/24", "eth0", None, Some("kernel")),
    ];
    let vpns = detect_vpns(&routes);
    assert_eq!(vpns.len(), 1);
    assert_eq!(vpns[0].interface, "wg0");
    assert_eq!(vpns[0].vpn_type, "WireGuard");
    assert_eq!(vpns[0].subnets, vec!["10.0.0.0/8"]);
}

#[test]
fn test_no_vpn_interfaces() {
    let routes = vec![
        route("default", "wlp2s0", Some("192.168.1.1"), Some("dhcp")),
        route("192.168.1.0/24", "wlp2s0", None, Some("kernel")),
        route("169.254.0.0/16", "wlp2s0", None, Some("kernel")),
    ];
    assert!(detect_vpns(&routes).is_empty());
}

#[test]
fn test_is_vpn_interface() {
    assert!(is_vpn_interface("tun0"));
    assert!(is_vpn_interface("tun1"));
    assert!(is_vpn_interface("tap0"));
    assert!(is_vpn_interface("wg0"));
    assert!(is_vpn_interface("wg1"));
    assert!(is_vpn_interface("ppp0"));
    assert!(is_vpn_interface("nordlynx"));
    assert!(is_vpn_interface("tailscale0"));

    assert!(!is_vpn_interface("eth0"));
    assert!(!is_vpn_interface("wlp2s0"));
    assert!(!is_vpn_interface("enp3s0"));
    assert!(!is_vpn_interface("lo"));
    assert!(!is_vpn_interface("docker0"));
    assert!(!is_vpn_interface("br-abc123"));
}

#[test]
fn test_skips_default_routes() {
    let routes = vec![
        route("default", "tun0", Some("10.8.0.1"), None),
        route("0.0.0.0/0", "tun0", Some("10.8.0.1"), None),
        route("0.0.0.0/1", "tun0", Some("10.8.0.1"), None),
        route("128.0.0.0/1", "tun0", Some("10.8.0.1"), None),
        route("10.8.0.0/24", "tun0", None, Some("kernel")),
    ];
    let vpns = detect_vpns(&routes);
    assert_eq!(vpns.len(), 1);
    assert_eq!(vpns[0].subnets, vec!["10.8.0.0/24"]);
}

#[test]
fn test_detects_server_endpoint() {
    let routes = vec![
        route("default", "wlp2s0", Some("192.168.1.1"), Some("dhcp")),
        route("10.8.0.0/24", "tun0", None, Some("kernel")),
        route("185.100.50.25/32", "wlp2s0", Some("192.168.1.1"), Some("static")),
        route("192.168.1.0/24", "wlp2s0", None, Some("kernel")),
    ];
    let vpns = detect_vpns(&routes);
    assert_eq!(vpns.len(), 1);
    assert_eq!(vpns[0].server_ip, Some("185.100.50.25".to_string()));
}

#[test]
fn test_collect_bypass_subnets() {
    let vpns = vec![
        vpn("tun0", "OpenVPN", &["10.8.0.0/24", "172.20.0.0/16"], Some("185.100.50.25")),
        vpn("wg0", "WireGuard", &["10.0.0.0/8"], None),
    ];
    let subnets = collect_bypass_subnets(&vpns);
    assert!(subnets.contains(&"10.8.0.0/24".to_string()));
    assert!(subnets.contains(&"172.20.0.0/16".to_string()));
    assert!(subnets.contains(&"10.0.0.0/8".to_string()));
    assert!(subnets.contains(&"185.100.50.25/32".to_string()));
    assert_eq!(subnets.len(), 4);
}

#[test]
fn test_collect_bypass_subnets_deduplicates() {
    let vpns = vec![
        vpn("tun0", "OpenVPN", &["10.0.0.0/8"], None),
        vpn("wg0", "WireGuard", &["10.0.0.0/8"], None),
    ];
    let subnets = collect_bypass_subnets(&vpns);
    assert_eq!(subnets.len(), 1);
    assert_eq!(subnets[0], "10.0.0.0/8");
}

#[test]
fn test_empty_json_array() {
    assert!(detect_vpns(&Vec::new()).is_empty());
}

#[test]
fn test_host_route_bare_ip() {
    let routes = vec![
        route("10.8.0.0/24", "tun0", None, Some("kernel")),
        route("203.0.113.5", "eth0", Some("192.168.1.1"), Some("static")),
    ];
    let vpns = detect_vpns(&routes);
    assert_eq!(vpns.len(), 1);
    assert_eq!(vpns[0].server_ip, Some("203.0.113.5".to_string()));
}

#[test]
fn single_tun_route_with_default_gives_one_openvpn_record() {
    let routes = vec![
        route("10.8.0.0/24", "tun0", None, Some("kernel")),
        route("default", "tun0", None, None),
    ];
    let vpns = detect_vpns(&routes);
    assert_eq!(vpns.len(), 1);
    assert_eq!(vpns[0].interface, "tun0");
    assert_eq!(vpns[0].vpn_type, "OpenVPN");
    assert_eq!(vpns[0].subnets, vec!["10.8.0.0/24"]);
    assert_eq!(vpns[0].server_ip, None);
}

#[test]
fn catch_all_routes_never_become_subnets() {
    let routes = vec![
        route("0.0.0.0/1", "wg0", None, None),
        route("128.0.0.0/1", "wg0", None, None),
        route("0.0.0.0/0", "tun3", None, None),
        route("default", "ppp0", None, None),
    ];
    assert!(detect_vpns(&routes).is_empty());
    assert!(is_default_route("default"));
    assert!(!is_default_route("0.0.0.0/2"));
}

#[test]
fn each_prefix_has_its_label() {
    assert_eq!(classify_vpn_type("tun7"), "OpenVPN");
    assert_eq!(classify_vpn_type("tap1"), "OpenVPN (TAP)");
    assert_eq!(classify_vpn_type("wg-corp"), "WireGuard");
    assert_eq!(classify_vpn_type("ppp0"), "PPP/L2TP");
    assert_eq!(classify_vpn_type("nordlynx"), "NordVPN");
    assert_eq!(classify_vpn_type("tailscale0"), "Tailscale");
    assert_eq!(classify_vpn_type("eth0"), "Unknown VPN");
}

#[test]
fn records_are_sorted_by_device_and_grouped() {
    let routes = vec![
        route("10.1.0.0/16", "wg1", None, None),
        route("10.2.0.0/16", "tun0", None, None),
        route("10.3.0.0/16", "wg1", None, None),
        route("10.4.0.0/16", "ppp0", None, None),
        RouteEntry { dst: None, dev: Some("tun9".to_string()), gateway: None, protocol: None },
        RouteEntry { dst: Some("10.9.0.0/16".to_string()), dev: None, gateway: None, protocol: None },
    ];
    let vpns = detect_vpns(&routes);
    let names: Vec<&str> = vpns.iter().map(|v| v.interface.as_str()).collect();
    assert_eq!(names, vec!["ppp0", "tun0", "wg1"]);
    assert_eq!(vpns[2].subnets, vec!["10.1.0.0/16", "10.3.0.0/16"]);
}

#[test]
fn endpoint_goes_to_first_record_only() {
    let routes = vec![
        route("10.1.0.0/16", "wg1", None, None),
        route("10.2.0.0/16", "tun0", None, None),
        route("198.51.100.7/32/32", "eth0", Some("192.168.1.1"), Some("static")),
        route("198.51.100.8", "eth0", Some("192.168.1.1"), Some("static")),
        route("198.51.100.9", "eth0", None, Some("static")),
    ];
    let vpns = detect_vpns(&routes);
    assert_eq!(vpns[0].interface, "tun0");
    assert_eq!(vpns[0].server_ip, Some("198.51.100.7".to_string()));
    assert_eq!(vpns[1].server_ip, None);
}

#[test]
fn host_route_shapes() {
    assert!(is_host_route("10.0.0.1/32"));
    assert!(is_host_route("255.255.255.255"));
    assert!(!is_host_route("256.1.1.1"));
    assert!(!is_host_route("1.2.3"));
    assert!(!is_host_route("1.2.3.4.5"));
    assert!(!is_host_route("1..2.3"));
    assert!(!is_host_route("10.0.0.0/24"));
    assert!(!is_host_route("fe80::1"));
}

#[test]
fn bypass_list_ignores_order_of_vpns() {
    let a = vpn("tun0", "OpenVPN", &["10.8.0.0/24", "172.20.0.0/16"], Some("185.100.50.25"));
    let b = vpn("wg0", "WireGuard", &["10.0.0.0/8", "10.8.0.0/24"], Some("10.9.9.9/24"));
    let one = collect_bypass_subnets(&vec![a.clone(), b.clone()]);
    let two = collect_bypass_subnets(&vec![b, a]);
    assert_eq!(one, two);
    assert_eq!(
        one,
        vec!["10.0.0.0/8", "10.8.0.0/24", "10.9.9.9/24", "172.20.0.0/16", "185.100.50.25/32"]
    );
}

use rustvpn::proxy::{
    default_route_interface, macos_network_service, disable_system_proxy, enable_linux, enable_macos, enable_system_proxy, enable_windows,
    ignore_hosts_value, ProxyCommand, ProxyTarget,
};

fn args(c: &ProxyCommand) -> Vec<&str> {
    c.args.iter().map(|s| s.as_str()).collect()
}

#[test]
fn linux_plan_sets_all_three_proxies_and_bypass() {
    let plan = enable_linux(1080, &["corp.lan ".to_string(), " ".to_string()], &["10.8.0.0/24".to_string()]);
    assert_eq!(plan.len(), 8);
    assert!(plan.iter().all(|c| c.program == "gsettings"));
    assert_eq!(args(&plan[0]), vec!["set", "org.gnome.system.proxy", "mode", "manual"]);
    assert_eq!(args(&plan[2]), vec!["set", "org.gnome.system.proxy.socks", "port", "1080"]);
    assert_eq!(args(&plan[4]), vec!["set", "org.gnome.system.proxy.http", "port", "10809"]);
    assert_eq!(args(&plan[6]), vec!["set", "org.gnome.system.proxy.https", "port", "10809"]);
    assert_eq!(
        plan[7].args[3],
        "['localhost', '127.0.0.0/8', '10.0.0.0/8', '172.16.0.0/12', '192.168.0.0/16', '::1/128', 'fc00::/7', 'corp.lan', '*.corp.lan', '10.8.0.0/24']"
    );
}

#[test]
fn ignore_hosts_without_user_entries() {
    assert_eq!(
        ignore_hosts_value(&[], &[]),
        "['localhost', '127.0.0.0/8', '10.0.0.0/8', '172.16.0.0/12', '192.168.0.0/16', '::1/128', 'fc00::/7']"
    );
}

#[test]
fn windows_plan_writes_registry_and_refreshes() {
    let plan = enable_windows(&["corp.lan".to_string()], &["10.8.0.0/24".to_string()]);
    assert_eq!(plan.len(), 4);
    assert_eq!(plan[0].program, "reg");
    assert_eq!(args(&plan[0])[3], "ProxyEnable");
    assert_eq!(args(&plan[0])[7], "1");
    assert_eq!(args(&plan[1])[7], "127.0.0.1:10809");
    assert_eq!(
        args(&plan[2])[7],
        "localhost;127.*;10.*;172.16.*;172.17.*;172.18.*;172.19.*;172.20.*;172.21.*;172.22.*;172.23.*;172.24.*;172.25.*;172.26.*;172.27.*;172.28.*;172.29.*;172.30.*;172.31.*;192.168.*;[::1];[fc*;[fd*;<local>;corp.lan;*.corp.lan;10.8.0.0/24"
    );
    assert_eq!(plan[3].program, "powershell");
}

#[test]
fn macos_plan_uses_the_service() {
    let plan = enable_macos("Wi-Fi", 10808, &[], &["10.1.0.0/16".to_string()]);
    assert_eq!(plan.len(), 7);
    assert_eq!(args(&plan[0]), vec!["-setwebproxy", "Wi-Fi", "127.0.0.1", "10809"]);
    assert_eq!(args(&plan[4]), vec!["-setsocksfirewallproxy", "Wi-Fi", "127.0.0.1", "10808"]);
    assert_eq!(
        args(&plan[6]),
        vec!["-setproxybypassdomains", "Wi-Fi", "localhost", "127.0.0.0/8", "10.0.0.0/8", "172.16.0.0/12", "192.168.0.0/16", "::1/128", "fc00::/7", "10.1.0.0/16"]
    );
}

#[test]
fn disable_plans() {
    let linux = disable_system_proxy(&ProxyTarget::Linux);
    assert_eq!(args(&linux[0]), vec!["set", "org.gnome.system.proxy", "mode", "none"]);
    let windows = disable_system_proxy(&ProxyTarget::Windows);
    assert_eq!(windows.len(), 4);
    assert_eq!(args(&windows[1])[0], "delete");
    let mac = disable_system_proxy(&ProxyTarget::MacOs("Ethernet".to_string()));
    assert_eq!(args(&mac[2]), vec!["-setsocksfirewallproxystate", "Ethernet", "off"]);
    assert!(disable_system_proxy(&ProxyTarget::Unsupported).is_empty());
    assert!(enable_system_proxy(&ProxyTarget::Unsupported, 1, &[], &[]).is_empty());
}

#[test]
fn macos_service_lookup() {
    let route = "   route to: default\ndestination: default\n  gateway: 192.168.1.1\n  interface: en0\n      flags: <UP,GATEWAY,DONE,STATIC,PRCLONING>\n";
    let ports = "\nHardware Port: Ethernet\nDevice: en1\nEthernet Address: aa\n\nHardware Port: Wi-Fi Home\nDevice: en0\nEthernet Address: bb\n";
    assert_eq!(default_route_interface(route), Some("en0".to_string()));
    assert_eq!(macos_network_service(route, ports), Some("Wi-Fi Home".to_string()));
    assert_eq!(macos_network_service(route, "Hardware Port: USB\nDevice: en5\n"), Some("Wi-Fi".to_string()));
    assert_eq!(macos_network_service("no such line", ports), None);
}

#[test]
fn every_platform_bypasses_the_config_ranges() {
    let linux = enable_linux(10808, &[], &[]);
    for range in ["127.0.0.0/8", "10.0.0.0/8", "172.16.0.0/12", "192.168.0.0/16", "::1/128", "fc00::/7"] {
        assert!(linux[7].args[3].contains(&format!("'{range}'")));
    }
    let mac = enable_macos("Wi-Fi", 10808, &[], &[]);
    assert_eq!(mac[6].args.len(), 2 + 7);
    let windows = enable_windows(&[], &[]);
    assert!(windows[2].args[7].contains("[fd*"));
}

use rustvpn::models::{RealitySettings, ServerConfig};
use rustvpn::uri::{hex_val, parse_vless_uri, parse_vless_uri_with_id, to_vless_uri, url_decode, url_encode};

fn sample_server() -> ServerConfig {
    ServerConfig {
        id: "test-uri-id".to_string(),
        name: "My Server".to_string(),
        address: "1.2.3.4".to_string(),
        port: 443,
        uuid: "aaaaaaaa-bbbb-cccc-dddd-eeeeeeeeeeee".to_string(),
        flow: "xtls-rprx-vision".to_string(),
        reality: RealitySettings {
            public_key: "kieJgZYLW9ZiKbGLpKnv4XyVo6_42inSONJrr-96tUU".to_string(),
            short_id: "d64736262cd50811".to_string(),
            server_name: "www.microsoft.com".to_string(),
            fingerprint: "chrome".to_string(),
        },
    }
}

#[test]
fn parse_valid_uri() {
    let uri = "vless://aaaaaaaa-bbbb-cccc-dddd-eeeeeeeeeeee@1.2.3.4:443?encryption=none&flow=xtls-rprx-vision&type=tcp&security=reality&sni=www.microsoft.com&fp=chrome&pbk=kieJgZYLW9ZiKbGLpKnv4XyVo6_42inSONJrr-96tUU&sid=d64736262cd50811#My%20Server";
    let config = parse_vless_uri(uri).unwrap();

    assert_eq!(config.uuid, "aaaaaaaa-bbbb-cccc-dddd-eeeeeeeeeeee");
    assert_eq!(config.address, "1.2.3.4");
    assert_eq!(config.port, 443);
    assert_eq!(config.flow, "xtls-rprx-vision");
    assert_eq!(config.name, "My Server");
    assert_eq!(config.reality.server_name, "www.microsoft.com");
    assert_eq!(config.reality.fingerprint, "chrome");
    assert_eq!(config.reality.public_key, "kieJgZYLW9ZiKbGLpKnv4XyVo6_42inSONJrr-96tUU");
    assert_eq!(config.reality.short_id, "d64736262cd50811");
    assert!(!config.id.is_empty());
}

#[test]
fn parse_uri_no_fragment() {
    let uri = "vless://aaaaaaaa-bbbb-cccc-dddd-eeeeeeeeeeee@1.2.3.4:443?flow=xtls-rprx-vision&sni=example.com&pbk=key&sid=id";
    let config = parse_vless_uri(uri).unwrap();
    assert_eq!(config.name, "");
    assert_eq!(config.address, "1.2.3.4");
}

#[test]
fn parse_uri_invalid_scheme() {
    assert!(parse_vless_uri("https://example.com").is_err());
}

#[test]
fn parse_uri_missing_at() {
    assert!(parse_vless_uri("vless://no-at-sign:443").is_err());
}

#[test]
fn parse_uri_missing_port() {
    assert!(parse_vless_uri("vless://uuid@1.2.3.4").is_err());
}

#[test]
fn parse_uri_invalid_port() {
    assert!(parse_vless_uri("vless://uuid@1.2.3.4:abc").is_err());
}

#[test]
fn roundtrip() {
    let server = sample_server();
    let uri = to_vless_uri(&server);
    let parsed = parse_vless_uri(&uri).unwrap();

    assert_eq!(parsed.uuid, server.uuid);
    assert_eq!(parsed.address, server.address);
    assert_eq!(parsed.port, server.port);
    assert_eq!(parsed.flow, server.flow);
    assert_eq!(parsed.name, server.name);
    assert_eq!(parsed.reality.public_key, server.reality.public_key);
    assert_eq!(parsed.reality.short_id, server.reality.short_id);
    assert_eq!(parsed.reality.server_name, server.reality.server_name);
    assert_eq!(parsed.reality.fingerprint, server.reality.fingerprint);
}

#[test]
fn to_uri_format() {
    let server = sample_server();
    let uri = to_vless_uri(&server);
    assert!(uri.starts_with("vless://"));
    assert!(uri.contains("@1.2.3.4:443"));
    assert!(uri.contains("encryption=none"));
    assert!(uri.contains("security=reality"));
    assert!(uri.contains("#My%20Server"));
}

#[test]
fn to_uri_exact_text() {
    let server = sample_server();
    assert_eq!(
        to_vless_uri(&server),
        "vless://aaaaaaaa-bbbb-cccc-dddd-eeeeeeeeeeee@1.2.3.4:443?encryption=none&flow=xtls-rprx-vision&type=tcp&security=reality&sni=www.microsoft.com&fp=chrome&pbk=kieJgZYLW9ZiKbGLpKnv4XyVo6_42inSONJrr-96tUU&sid=d64736262cd50811#My%20Server"
    );
}

#[test]
fn url_encode_special_chars() {
    assert_eq!(url_encode("hello world"), "hello%20world");
    assert_eq!(url_encode("a+b"), "a%2Bb");
    assert_eq!(url_encode("simple"), "simple");
}

#[test]
fn url_encode_multibyte() {
    assert_eq!(url_encode("é~"), "%C3%A9~");
}

#[test]
fn url_decode_special_chars() {
    assert_eq!(url_decode("hello%20world"), "hello world");
    assert_eq!(url_decode("a%2Bb"), "a+b");
    assert_eq!(url_decode("simple"), "simple");
}

#[test]
fn url_decode_plus_bad_escapes_and_utf8() {
    assert_eq!(url_decode("a+b"), "a b");
    assert_eq!(url_decode("100%"), "100%");
    assert_eq!(url_decode("%zz%4"), "%zz%4");
    assert_eq!(url_decode("%C3%A9"), "é");
    assert_eq!(url_decode("%FF"), "\u{FFFD}");
}

#[test]
fn hex_digits() {
    assert_eq!(hex_val(b'7'), Some(7));
    assert_eq!(hex_val(b'a'), Some(10));
    assert_eq!(hex_val(b'F'), Some(15));
    assert_eq!(hex_val(b'g'), None);
}

#[test]
fn parse_uri_empty_uuid() {
    let result = parse_vless_uri("vless://@1.2.3.4:443?flow=xtls-rprx-vision");
    match result {
        Ok(config) => assert_eq!(config.uuid, ""),
        Err(_) => {}
    }
}

#[test]
fn parse_uri_wrong_scheme() {
    let result = parse_vless_uri("vmess://aaaaaaaa-bbbb-cccc-dddd-eeeeeeeeeeee@1.2.3.4:443");
    assert!(result.is_err());
    let err = result.unwrap_err().message();
    assert!(err.contains("vless://"), "expected scheme hint in error: {err}");
}

#[test]
fn parse_uri_trojan_scheme() {
    assert!(parse_vless_uri("trojan://password@1.2.3.4:443").is_err());
}

#[test]
fn parse_uri_empty_string() {
    assert!(parse_vless_uri("").is_err());
}

#[test]
fn parse_uri_port_out_of_range() {
    assert!(parse_vless_uri("vless://aaaaaaaa-bbbb-cccc-dddd-eeeeeeeeeeee@1.2.3.4:65536").is_err());
}

#[test]
fn parse_uri_error_messages() {
    assert_eq!(parse_vless_uri("vless://x").unwrap_err().message(), "Configuration error: Missing @ in vless URI");
    assert_eq!(parse_vless_uri("vless://u@host").unwrap_err().message(), "Configuration error: Missing port in vless URI");
    assert_eq!(parse_vless_uri("vless://u@h:9x").unwrap_err().message(), "Configuration error: Invalid port: 9x");
    assert_eq!(
        parse_vless_uri("vless://u@[::1:443").unwrap_err().message(),
        "Configuration error: Missing closing ] for IPv6 address"
    );
    assert_eq!(
        parse_vless_uri("vless://u@[::1]443").unwrap_err().message(),
        "Configuration error: Missing port after IPv6 address"
    );
}

#[test]
fn ipv6_address_is_bracketed_and_read_back() {
    let mut server = sample_server();
    server.address = "2001:db8::1".to_string();
    let uri = to_vless_uri(&server);
    assert!(uri.contains("@[2001:db8::1]:443?"));
    let parsed = parse_vless_uri(&uri).unwrap();
    assert_eq!(parsed.address, "2001:db8::1");
    assert_eq!(parsed.port, 443);
}

#[test]
fn parse_keeps_the_given_identifier() {
    let parsed = parse_vless_uri_with_id("  vless://u@h:1#n  ", "fixed".to_string()).unwrap();
    assert_eq!(parsed.id, "fixed");
    assert_eq!(parsed.name, "n");
    assert_eq!(parsed.reality.fingerprint, "chrome");
}

#[test]
fn roundtrip_special_chars_in_name() {
    let mut server = sample_server();
    server.name = "My VPN Server (Fast)".to_string();
    let uri = to_vless_uri(&server);
    let parsed = parse_vless_uri(&uri).unwrap();
    assert_eq!(parsed.name, server.name);
}

#[test]
fn roundtrip_all_fields_match() {
    let server = ServerConfig {
        id: "some-id".to_string(),
        name: "Test Server".to_string(),
        address: "192.168.1.100".to_string(),
        port: 8443,
        uuid: "12345678-1234-1234-1234-123456789abc".to_string(),
        flow: "xtls-rprx-vision".to_string(),
        reality: RealitySettings {
            public_key: "ABC123xyz-public-key".to_string(),
            short_id: "abcd1234".to_string(),
            server_name: "www.example.org".to_string(),
            fingerprint: "firefox".to_string(),
        },
    };

    let uri = to_vless_uri(&server);
    let parsed = parse_vless_uri(&uri).unwrap();

    assert_eq!(parsed.uuid, server.uuid, "uuid mismatch");
    assert_eq!(parsed.address, server.address, "address mismatch");
    assert_eq!(parsed.port, server.port, "port mismatch");
    assert_eq!(parsed.flow, server.flow, "flow mismatch");
    assert_eq!(parsed.name, server.name, "name mismatch");
    assert_eq!(parsed.reality.public_key, server.reality.public_key, "public_key mismatch");
    assert_eq!(parsed.reality.short_id, server.reality.short_id, "short_id mismatch");
    assert_eq!(parsed.reality.server_name, server.reality.server_name, "server_name mismatch");
    assert_eq!(parsed.reality.fingerprint, server.reality.fingerprint, "fingerprint mismatch");
    assert!(!parsed.id.is_empty(), "parsed id must not be empty");
}

#[test]
fn roundtrip_fresh_identifier_differs() {
    let server = sample_server();
    let parsed = parse_vless_uri(&to_vless_uri(&server)).unwrap();
    assert_ne!(parsed.id, server.id);
    assert!(ServerConfig::is_valid_uuid(&parsed.id));
}

#[test]
fn roundtrip_unusual_values() {
    let mut server = sample_server();
    server.name = "naïve & <odd> #1 ?".to_string();
    server.flow = "a=b&c".to_string();
    server.reality.fingerprint = "".to_string();
    server.port = 1;
    let parsed = parse_vless_uri(&to_vless_uri(&server)).unwrap();
    assert_eq!(parsed.name, server.name);
    assert_eq!(parsed.flow, server.flow);
    assert_eq!(parsed.reality.fingerprint, "");
    assert_eq!(parsed.port, 1);
}

#[test]
fn parse_uri_unknown_params_ignored() {
    let uri = "vless://aaaaaaaa-bbbb-cccc-dddd-eeeeeeeeeeee@1.2.3.4:443?flow=xtls-rprx-vision&sni=example.com&pbk=key&sid=id&unknown_param=value&another=123";
    let config = parse_vless_uri(uri).unwrap();
    assert_eq!(config.address, "1.2.3.4");
    assert_eq!(config.flow, "xtls-rprx-vision");
}

#[test]
fn later_parameter_wins() {
    let config = parse_vless_uri("vless://u@h:2?sni=a&sni=b&fp&=x&&pbk=%41").unwrap();
    assert_eq!(config.reality.server_name, "b");
    assert_eq!(config.reality.public_key, "A");
}

#[test]
fn to_uri_contains_required_vless_fields() {
    let server = sample_server();
    let uri = to_vless_uri(&server);

    assert!(uri.starts_with("vless://"), "must start with vless://");
    assert!(uri.contains(&server.uuid), "must contain UUID");
    assert!(uri.contains(&server.address), "must contain server address");
    assert!(uri.contains(&format!(":{}", server.port)), "must contain port");
    assert!(uri.contains("pbk="), "must contain public key param");
    assert!(uri.contains("sid="), "must contain short_id param");
    assert!(uri.contains("sni="), "must contain SNI param");
    assert!(uri.contains("flow="), "must contain flow param");
    assert!(uri.contains("security=reality"), "must declare reality security");
}

#[test]
fn port_may_carry_a_plus_sign() {
    let parsed = parse_vless_uri("vless://u@1.2.3.4:+443").unwrap();
    assert_eq!(parsed.port, 443);
    assert!(parse_vless_uri("vless://u@1.2.3.4:+").is_err());
    assert!(parse_vless_uri("vless://u@1.2.3.4:-1").is_err());
    assert_eq!(parse_vless_uri("vless://u@[::1]:+80").unwrap().port, 80);
}

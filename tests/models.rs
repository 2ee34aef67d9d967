use rustvpn::models::{AppError, ConnectionInfo, ConnectionStatus, RealitySettings, ServerConfig};

fn sample_server_config() -> ServerConfig {
    ServerConfig {
        id: "test-id-1234".to_string(),
        name: "Test".to_string(),
        address: "1.2.3.4".to_string(),
        port: 443,
        uuid: "aaaaaaaa-bbbb-cccc-dddd-eeeeeeeeeeee".to_string(),
        flow: "xtls-rprx-vision".to_string(),
        reality: RealitySettings {
            public_key: "abc123".to_string(),
            short_id: "def456".to_string(),
            server_name: "example.com".to_string(),
            fingerprint: "chrome".to_string(),
        },
    }
}

#[test]
fn connection_info_default() {
    let info = ConnectionInfo::default();
    assert_eq!(info.status, ConnectionStatus::Disconnected);
    assert!(info.server_name.is_none());
    assert!(info.server_address.is_none());
    assert!(info.connected_since.is_none());
    assert!(info.error_message.is_none());
}

#[test]
fn server_config_default() {
    let config = ServerConfig::default();
    assert_eq!(config.port, 443);
    assert_eq!(config.flow, "xtls-rprx-vision");
    assert_eq!(config.reality.server_name, "www.google.com");
    assert_eq!(config.reality.fingerprint, "chrome");
}

#[test]
fn server_config_default_has_fresh_uuid_id() {
    let a = ServerConfig::default();
    let b = ServerConfig::default();
    assert!(ServerConfig::is_valid_uuid(&a.id));
    assert_eq!(a.id, a.id.to_lowercase());
    assert_ne!(a.id, b.id);
}

#[test]
fn app_error_to_string() {
    let err = AppError::XrayProcess("failed to start".to_string());
    let s: String = err.into();
    assert_eq!(s, "Xray process error: failed to start");

    let err = AppError::Config("bad value".to_string());
    let s: String = err.into();
    assert_eq!(s, "Configuration error: bad value");
}

#[test]
fn app_error_other_kinds() {
    assert_eq!(AppError::Io("file missing".to_string()).message(), "IO error: file missing");
    assert_eq!(
        AppError::Serialization("eof".to_string()).message(),
        "Serialization error: eof"
    );
}

#[test]
fn validate_valid_config() {
    let config = sample_server_config();
    assert!(config.validate().is_ok());
}

#[test]
fn validate_empty_address() {
    let mut config = sample_server_config();
    config.address = "".to_string();
    let err = config.validate().unwrap_err();
    assert!(err.contains("address"));
}

#[test]
fn validate_whitespace_address() {
    let mut config = sample_server_config();
    config.address = "   ".to_string();
    let err = config.validate().unwrap_err();
    assert!(err.contains("address"));
}

#[test]
fn validate_unicode_whitespace_address() {
    let mut config = sample_server_config();
    config.address = "\u{a0}\t\u{2003}".to_string();
    assert_eq!(config.validate().unwrap_err(), "Server address must not be empty");
}

#[test]
fn validate_port_zero() {
    let mut config = sample_server_config();
    config.port = 0;
    let err = config.validate().unwrap_err();
    assert!(err.contains("port"));
}

#[test]
fn validate_invalid_uuid_too_short() {
    let mut config = sample_server_config();
    config.uuid = "not-a-uuid".to_string();
    let err = config.validate().unwrap_err();
    assert!(err.contains("UUID"));
}

#[test]
fn validate_invalid_uuid_bad_chars() {
    let mut config = sample_server_config();
    config.uuid = "gggggggg-hhhh-iiii-jjjj-kkkkkkkkkkkk".to_string();
    let err = config.validate().unwrap_err();
    assert!(err.contains("UUID"));
}

#[test]
fn validate_valid_uuid_lowercase() {
    let mut config = sample_server_config();
    config.uuid = "01234567-89ab-cdef-0123-456789abcdef".to_string();
    assert!(config.validate().is_ok());
}

#[test]
fn validate_valid_uuid_uppercase() {
    let mut config = sample_server_config();
    config.uuid = "01234567-89AB-CDEF-0123-456789ABCDEF".to_string();
    assert!(config.validate().is_ok());
}

#[test]
fn validate_uuid_with_misplaced_hyphens() {
    let mut config = sample_server_config();
    config.uuid = "0123456-789ab-cdef-0123-456789abcdef".to_string();
    assert!(config.validate().unwrap_err().contains("UUID"));
}

#[test]
fn validate_empty_public_key() {
    let mut config = sample_server_config();
    config.reality.public_key = "".to_string();
    let err = config.validate().unwrap_err();
    assert!(err.contains("public_key"));
}

#[test]
fn validate_empty_short_id() {
    let mut config = sample_server_config();
    config.reality.short_id = "  ".to_string();
    let err = config.validate().unwrap_err();
    assert!(err.contains("short_id"));
}

#[test]
fn validate_reports_first_failing_check() {
    let mut config = sample_server_config();
    config.port = 0;
    config.uuid = "bad".to_string();
    assert_eq!(config.validate().unwrap_err(), "Server port must be greater than 0");
}

//! The data model shared by every component: server profiles, connection
//! state, traffic counters, log records and errors.

use vstd::prelude::*;
use crate::text::{trim, trimmed};

verus! {

/// Transport-security bundle of a server profile.
#[derive(Clone, Debug)]
pub struct RealitySettings {
    pub public_key: String,
    pub short_id: String,
    pub server_name: String,
    pub fingerprint: String,
}

/// A saved remote endpoint that a connection can go through.
#[derive(Clone, Debug)]
pub struct ServerConfig {
    pub id: String,
    pub name: String,
    pub address: String,
    pub port: u16,
    pub uuid: String,
    pub flow: String,
    pub reality: RealitySettings,
}

#[derive(Clone, Copy, Debug, PartialEq, Eq, Structural)]
pub enum ConnectionStatus {
    Disconnected,
    Connecting,
    Connected,
    Disconnecting,
    Error,
}

/// The connection state as callers observe it.
#[derive(Clone, Debug)]
pub struct ConnectionInfo {
    pub status: ConnectionStatus,
    pub server_name: Option<String>,
    pub server_address: Option<String>,
    pub connected_since: Option<u64>,
    pub error_message: Option<String>,
}

/// Traffic counters: the rate over the last interval and the cumulative totals.
#[derive(Clone, Copy, Debug, PartialEq, Eq, Structural)]
pub struct SpeedStats {
    pub upload_speed: u64,
    pub download_speed: u64,
    pub total_upload: u64,
    pub total_download: u64,
}

/// Persisted user preferences.
#[derive(Clone, Debug)]
pub struct AppSettings {
    pub auto_connect: bool,
    pub last_server_id: Option<String>,
    pub bypass_domains: Vec<String>,
}

/// One captured line of engine output.
#[derive(Clone, Debug)]
pub struct LogEntry {
    pub timestamp: u64,
    pub level: String,
    pub message: String,
}

/// A VPN-like interface found in the route table.
#[derive(Clone, Debug)]
pub struct DetectedVpn {
    pub interface: String,
    pub vpn_type: String,
    pub subnets: Vec<String>,
    pub server_ip: Option<String>,
}

/// Failures that the library reports to its callers.
#[derive(Clone, Debug)]
pub enum AppError {
    XrayProcess(String),
    Config(String),
    Io(String),
    Serialization(String),
}

pub open spec fn opt_view(o: Option<String>) -> Option<Seq<char>> {
    match o {
        Some(s) => Some(s@),
        None => None,
    }
}

/// A copy of an optional string.
pub fn clone_opt(o: &Option<String>) -> (r: Option<String>)
    ensures
        opt_view(r) == opt_view(*o),
{
    match o {
        Some(s) => Some(s.clone()),
        None => None,
    }
}

pub open spec fn strings_view(v: Seq<String>) -> Seq<Seq<char>> {
    v.map_values(|s: String| s@)
}

/// A copy of a list of strings.
pub fn clone_strings(v: &[String]) -> (r: Vec<String>)
    ensures
        strings_view(r@) == strings_view(v@),
{
    let mut r: Vec<String> = Vec::new();
    let mut i: usize = 0;
    while i < v.len()
        invariant
            i <= v.len(),
            strings_view(r@) == strings_view(v@.subrange(0, i as int)),
        decreases v.len() - i,
    {
        r.push(v[i].clone());
        i += 1;
        assert(strings_view(v@.subrange(0, i as int)) =~= strings_view(v@.subrange(0, i - 1)).push(v@[i - 1]@));
        assert(strings_view(r@) =~= strings_view(v@.subrange(0, i as int)));
    }
    assert(v@.subrange(0, v@.len() as int) =~= v@);
    r
}

pub open spec fn error_prefix(e: AppError) -> Seq<char> {
    match e {
        AppError::XrayProcess(_) => "Xray process error: "@,
        AppError::Config(_) => "Configuration error: "@,
        AppError::Io(_) => "IO error: "@,
        AppError::Serialization(_) => "Serialization error: "@,
    }
}

pub open spec fn error_detail(e: AppError) -> Seq<char> {
    match e {
        AppError::XrayProcess(m) => m@,
        AppError::Config(m) => m@,
        AppError::Io(m) => m@,
        AppError::Serialization(m) => m@,
    }
}

impl AppError {
    /// The text shown to a user: the kind of failure, then its detail.
    pub fn message(&self) -> (r: String)
        ensures
            r@ == error_prefix(*self) + error_detail(*self),
    {
        let (prefix, detail) = match self {
            AppError::XrayProcess(m) => ("Xray process error: ", m),
            AppError::Config(m) => ("Configuration error: ", m),
            AppError::Io(m) => ("IO error: ", m),
            AppError::Serialization(m) => ("Serialization error: ", m),
        };
        let mut r = String::from_str(prefix);
        r.append(detail.as_str());
        r
    }
}

impl From<AppError> for String {
    fn from(e: AppError) -> (r: String) {
        e.message()
    }
}

impl vstd::std_specs::convert::FromSpecImpl<AppError> for String {
    open spec fn obeys_from_spec() -> bool {
        false
    }

    open spec fn from_spec(e: AppError) -> String {
        arbitrary()
    }
}

impl Default for ConnectionInfo {
    fn default() -> (r: Self)
        ensures
            r.status == ConnectionStatus::Disconnected,
            r.server_name.is_none(),
            r.server_address.is_none(),
            r.connected_since.is_none(),
            r.error_message.is_none(),
    {
        ConnectionInfo {
            status: ConnectionStatus::Disconnected,
            server_name: None,
            server_address: None,
            connected_since: None,
            error_message: None,
        }
    }
}

impl Default for SpeedStats {
    fn default() -> (r: Self)
        ensures
            r == (SpeedStats { upload_speed: 0, download_speed: 0, total_upload: 0, total_download: 0 }),
    {
        SpeedStats { upload_speed: 0, download_speed: 0, total_upload: 0, total_download: 0 }
    }
}

impl Default for AppSettings {
    fn default() -> (r: Self)
        ensures
            !r.auto_connect,
            r.last_server_id.is_none(),
            r.bypass_domains@.len() == 0,
    {
        AppSettings { auto_connect: false, last_server_id: None, bypass_domains: Vec::new() }
    }
}

impl Default for RealitySettings {
    fn default() -> (r: Self)
        ensures
            r.public_key@.len() == 0,
            r.short_id@.len() == 0,
            r.server_name@ == "www.google.com"@,
            r.fingerprint@ == "chrome"@,
    {
        RealitySettings {
            public_key: String::new(),
            short_id: String::new(),
            server_name: String::from_str("www.google.com"),
            fingerprint: String::from_str("chrome"),
        }
    }
}

impl Default for ServerConfig {
    fn default() -> (r: Self)
        ensures
            is_uuid_text(r.id@),
            r.name@.len() == 0,
            r.address@.len() == 0,
            r.port == 443,
            r.uuid@.len() == 0,
            r.flow@ == "xtls-rprx-vision"@,
            r.reality.public_key@.len() == 0,
            r.reality.short_id@.len() == 0,
            r.reality.server_name@ == "www.google.com"@,
            r.reality.fingerprint@ == "chrome"@,
    {
        ServerConfig {
            id: generate_id(),
            name: String::new(),
            address: String::new(),
            port: 443,
            uuid: String::new(),
            flow: String::from_str("xtls-rprx-vision"),
            reality: RealitySettings::default(),
        }
    }
}

/// Relies on `uuid::Uuid::new_v4` and its `Display`: a random version-4
/// identifier written in the hyphenated lowercase form (8-4-4-4-12 hex digits).
#[verifier::external_body]
pub(crate) fn generate_id() -> (r: String)
    ensures
        is_uuid_text(r@),
{
    uuid::Uuid::new_v4().to_string()
}

pub open spec fn is_hex_digit(c: char) -> bool {
    ('0' <= c && c <= '9') || ('a' <= c && c <= 'f') || ('A' <= c && c <= 'F')
}

pub open spec fn is_dash_position(i: int) -> bool {
    i == 8 || i == 13 || i == 18 || i == 23
}

/// The canonical textual form of a UUID: five hyphen-separated groups of
/// 8, 4, 4, 4 and 12 hex digits.
pub open spec fn is_uuid_text(s: Seq<char>) -> bool {
    &&& s.len() == 36
    &&& forall|i: int| 0 <= i < 36 ==> if is_dash_position(i) {
        s[i] == '-'
    } else {
        is_hex_digit(s[i])
    }
}

pub fn is_hex_char(c: char) -> (r: bool)
    ensures
        r == is_hex_digit(c),
{
    ('0' <= c && c <= '9') || ('a' <= c && c <= 'f') || ('A' <= c && c <= 'F')
}

/// Why a profile is rejected, if it is: the first failing check, in the
/// order address, port, credential, public key, short id.
pub open spec fn validation_error(c: ServerConfig) -> Option<Seq<char>> {
    if trimmed(c.address@).len() == 0 {
        Some("Server address must not be empty"@)
    } else if c.port == 0 {
        Some("Server port must be greater than 0"@)
    } else if !is_uuid_text(c.uuid@) {
        Some("UUID must match format xxxxxxxx-xxxx-xxxx-xxxx-xxxxxxxxxxxx (hex characters)"@)
    } else if trimmed(c.reality.public_key@).len() == 0 {
        Some("Reality public_key must not be empty"@)
    } else if trimmed(c.reality.short_id@).len() == 0 {
        Some("Reality short_id must not be empty"@)
    } else {
        None
    }
}

impl ServerConfig {
    /// Checks the profile's invariant before any process or network work.
    pub fn validate(&self) -> (r: Result<(), String>)
        ensures
            r.is_ok() <==> validation_error(*self).is_none(),
            r matches Err(e) ==> validation_error(*self) == Some(e@),
    {
        if trim(self.address.as_str()).is_empty() {
            return Err(String::from_str("Server address must not be empty"));
        }
        if self.port == 0 {
            return Err(String::from_str("Server port must be greater than 0"));
        }
        if !Self::is_valid_uuid(self.uuid.as_str()) {
            return Err(
                String::from_str(
                    "UUID must match format xxxxxxxx-xxxx-xxxx-xxxx-xxxxxxxxxxxx (hex characters)",
                ),
            );
        }
        if trim(self.reality.public_key.as_str()).is_empty() {
            return Err(String::from_str("Reality public_key must not be empty"));
        }
        if trim(self.reality.short_id.as_str()).is_empty() {
            return Err(String::from_str("Reality short_id must not be empty"));
        }
        Ok(())
    }

    /// Whether `s` is in the canonical 8-4-4-4-12 hex form.
    pub fn is_valid_uuid(s: &str) -> (r: bool)
        ensures
            r == is_uuid_text(s@),
    {
        let n = s.unicode_len();
        if n != 36 {
            return false;
        }
        let mut i: usize = 0;
        while i < 36
            invariant
                n == s@.len() == 36,
                i <= 36,
                forall|j: int| 0 <= j < i ==> if is_dash_position(j) {
                    s@[j] == '-'
                } else {
                    is_hex_digit(s@[j])
                },
            decreases 36 - i,
        {
            let c = s.get_char(i);
            if i == 8 || i == 13 || i == 18 || i == 23 {
                if c != '-' {
                    return false;
                }
            } else if !is_hex_char(c) {
                return false;
            }
            i += 1;
        }
        true
    }
}

} // verus!

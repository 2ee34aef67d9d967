//! The VPN service interface that mobile platforms provide; on the desktop
//! it is not available and reports so.

use vstd::prelude::*;

verus! {

/// Whether the platform VPN service runs, and its last error.
#[derive(Clone, Debug)]
pub struct VpnStatus {
    pub is_running: bool,
    pub last_error: Option<String>,
}

/// Traffic counters reported by the platform VPN service.
#[derive(Clone, Copy, Debug, PartialEq, Eq, Structural)]
pub struct VpnStats {
    pub upload: u64,
    pub download: u64,
}

impl Default for VpnStats {
    fn default() -> (r: Self)
        ensures
            r == (VpnStats { upload: 0, download: 0 }),
    {
        VpnStats { upload: 0, download: 0 }
    }
}

/// Failures of the platform VPN service.
#[derive(Clone, Debug)]
pub enum Error {
    PluginInvoke(String),
    NotSupported,
}

impl Error {
    /// The text shown to a user.
    pub fn message(&self) -> (r: String)
        ensures
            r@ == match self {
                Error::PluginInvoke(m) => "Plugin invoke error: "@ + m@,
                Error::NotSupported => "Not supported on this platform"@,
            },
    {
        match self {
            Error::PluginInvoke(m) => {
                let mut r = String::from_str("Plugin invoke error: ");
                r.append(m.as_str());
                r
            },
            Error::NotSupported => String::from_str("Not supported on this platform"),
        }
    }
}

/// The platform VPN service as the desktop sees it: absent.
pub struct VpnPlugin {}

impl VpnPlugin {
    pub fn new() -> (r: Self) {
        VpnPlugin {  }
    }

    /// Starting is not supported on the desktop.
    pub fn start_vpn(&self, config_json: String, socks_port: u16, server_address: String) -> (r: Result<(), Error>)
        ensures
            r matches Err(Error::NotSupported),
    {
        Err(Error::NotSupported)
    }

    /// Stopping is not supported on the desktop.
    pub fn stop_vpn(&self) -> (r: Result<(), Error>)
        ensures
            r matches Err(Error::NotSupported),
    {
        Err(Error::NotSupported)
    }

    /// The service never runs on the desktop.
    pub fn get_status(&self) -> (r: Result<VpnStatus, Error>)
        ensures
            r matches Ok(s) && !s.is_running && s.last_error.is_none(),
    {
        Ok(VpnStatus { is_running: false, last_error: None })
    }

    /// No traffic passes through the service on the desktop.
    pub fn query_stats(&self) -> (r: Result<VpnStats, Error>)
        ensures
            r == Ok::<VpnStats, Error>(VpnStats { upload: 0, download: 0 }),
    {
        Ok(VpnStats::default())
    }
}

} // verus!

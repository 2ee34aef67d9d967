//! The connection manager: the state machine that supervises one engine
//! process. Every decision is taken here, from the current state and the
//! event at hand; the caller performs the outside work (spawning, killing,
//! writing files, toggling the system proxy) that each step asks for, and
//! holds the manager under a lock so that concurrent callers see one state.

use vstd::prelude::*;
use crate::config::{client_config_json, generate_client_config};
use crate::logs::{LogBuffer, classify_level, push_log_entry, stderr_level};
use crate::models::{
    AppError, ConnectionInfo, ConnectionStatus, DetectedVpn, LogEntry, ServerConfig, SpeedStats,
    clone_opt, clone_strings, opt_view, strings_view,
};
use crate::network::{collect_bypass_subnets, is_bypass_list};
use crate::stats::{parse_stats_output, stats_of};
use crate::text::{contains, contains_str, dec_text, decimal, trim, trimmed};

verus! {

/// The local SOCKS port; HTTP listens on the next one.
pub const DEFAULT_SOCKS_PORT: u16 = 10808;

/// How many log records the manager keeps.
pub const MAX_LOG_ENTRIES: usize = 1000;

/// How long the engine has to report readiness, in seconds.
pub const STARTUP_TIMEOUT_SECS: u64 = 15;

/// Which output stream of the engine a line came from.
#[derive(Clone, Copy, Debug, PartialEq, Eq, Structural)]
pub enum OutputStream {
    Stdout,
    Stderr,
}

/// What the caller does after handing the manager a line of engine output.
#[derive(Clone, Copy, Debug, PartialEq, Eq, Structural)]
pub enum ReadyAction {
    /// Nothing to do.
    Nothing,
    /// The engine is ready and the manager is now connected: enable the
    /// system proxy with the stored bypass lists, then announce it.
    EnableProxyAndNotify,
    /// The engine reported readiness, but the attempt was no longer
    /// connecting: only announce it.
    NotifyOnly,
}

/// What the caller tears down when a connection stops.
pub struct StopPlan {
    /// Kill the engine process.
    pub kill_process: bool,
    /// Delete this transient configuration file.
    pub remove_config: Option<String>,
}

/// The state of one manager.
pub struct XrayManager {
    pub state: ConnectionInfo,
    /// Whether an engine process is running under this manager.
    pub has_child: bool,
    pub config_path: Option<String>,
    pub stats: SpeedStats,
    pub prev_uplink: u64,
    pub prev_downlink: u64,
    pub logs: LogBuffer,
    pub bypass_domains: Vec<String>,
    pub bypass_subnets: Vec<String>,
    pub detected_vpns: Vec<DetectedVpn>,
    /// Whether the current attempt has been decided, by a readiness signal
    /// or by the startup timeout; only the first of the two acts.
    pub resolved: bool,
    pub target_name: String,
    pub target_address: String,
}

pub open spec fn info_view(i: ConnectionInfo) -> (
    ConnectionStatus,
    Option<Seq<char>>,
    Option<Seq<char>>,
    Option<u64>,
    Option<Seq<char>>,
) {
    (i.status, opt_view(i.server_name), opt_view(i.server_address), i.connected_since, opt_view(i.error_message))
}

pub open spec fn zero_stats() -> SpeedStats {
    SpeedStats { upload_speed: 0, download_speed: 0, total_upload: 0, total_download: 0 }
}

/// `a - b`, or zero when `b` is larger.
pub open spec fn saturating_delta(a: u64, b: u64) -> u64 {
    if a >= b {
        (a - b) as u64
    } else {
        0
    }
}

/// The text a missing or present exit code is reported with.
pub open spec fn code_text(c: Option<i32>) -> Seq<char> {
    match c {
        None => "None"@,
        Some(n) => "Some("@ + (if n < 0 { seq!['-'] + dec_text((-n) as nat) } else { dec_text(n as nat) }) + seq![')'],
    }
}

/// Writes an optional exit code or signal number.
pub fn describe_code(c: Option<i32>) -> (r: String)
    ensures
        r@ == code_text(c),
{
    match c {
        None => String::from_str("None"),
        Some(n) => {
            proof {
                reveal_strlit("-");
                reveal_strlit(")");
            }
            let mut r = String::from_str("Some(");
            if n < 0 {
                r.append("-");
                let m: u64 = (0i64 - n as i64) as u64;
                r.append(decimal(m).as_str());
            } else {
                r.append(decimal(n as u64).as_str());
            }
            r.append(")");
            assert(r@ =~= code_text(c));
            r
        },
    }
}

impl XrayManager {
    pub open spec fn wf(&self) -> bool {
        self.logs.wf() && self.logs.cap() == MAX_LOG_ENTRIES
    }

    /// A disconnected manager with no process, no logs and zero counters.
    pub fn new() -> (r: Self)
        ensures
            r.wf(),
            r.state.status == ConnectionStatus::Disconnected,
            info_view(r.state) == (ConnectionStatus::Disconnected, None::<Seq<char>>, None::<Seq<char>>, None::<u64>, None::<Seq<char>>),
            !r.has_child,
            r.config_path.is_none(),
            r.stats == zero_stats(),
            r.prev_uplink == 0 && r.prev_downlink == 0,
            r.logs.view().len() == 0,
            r.bypass_domains@.len() == 0,
            r.bypass_subnets@.len() == 0,
            r.detected_vpns@.len() == 0,
    {
        XrayManager {
            state: ConnectionInfo::default(),
            has_child: false,
            config_path: None,
            stats: SpeedStats::default(),
            prev_uplink: 0,
            prev_downlink: 0,
            logs: LogBuffer::new(MAX_LOG_ENTRIES),
            bypass_domains: Vec::new(),
            bypass_subnets: Vec::new(),
            detected_vpns: Vec::new(),
            resolved: false,
            target_name: String::new(),
            target_address: String::new(),
        }
    }

    /// A copy of the connection state.
    pub fn status(&self) -> (r: ConnectionInfo)
        ensures
            info_view(r) == info_view(self.state),
    {
        ConnectionInfo {
            status: self.state.status,
            server_name: clone_opt(&self.state.server_name),
            server_address: clone_opt(&self.state.server_address),
            connected_since: self.state.connected_since,
            error_message: clone_opt(&self.state.error_message),
        }
    }

    /// Copies of the captured log records, oldest first.
    pub fn get_logs(&self) -> (r: Vec<LogEntry>)
        ensures
            crate::logs::entries_view(r@) == self.logs.view(),
    {
        self.logs.snapshot()
    }

    /// Forgets every captured log record.
    pub fn clear_logs(&mut self)
        requires
            old(self).wf(),
        ensures
            final(self).wf(),
            final(self).logs.view().len() == 0,
            final(self).state == old(self).state,
    {
        self.logs.clear();
    }

    /// The VPNs found when the last connection started.
    pub fn get_detected_vpns(&self) -> (r: Vec<DetectedVpn>)
        ensures
            r@.len() == self.detected_vpns@.len(),
            forall|i: int| 0 <= i < r@.len() ==> (#[trigger] r@[i]).interface@ == self.detected_vpns@[i].interface@
                && r@[i].vpn_type@ == self.detected_vpns@[i].vpn_type@
                && strings_view(r@[i].subnets@) == strings_view(self.detected_vpns@[i].subnets@)
                && opt_view(r@[i].server_ip) == opt_view(self.detected_vpns@[i].server_ip),
    {
        let mut r: Vec<DetectedVpn> = Vec::new();
        let mut i: usize = 0;
        while i < self.detected_vpns.len()
            invariant
                i <= self.detected_vpns.len(),
                r@.len() == i,
                forall|j: int| 0 <= j < i ==> (#[trigger] r@[j]).interface@ == self.detected_vpns@[j].interface@
                    && r@[j].vpn_type@ == self.detected_vpns@[j].vpn_type@
                    && strings_view(r@[j].subnets@) == strings_view(self.detected_vpns@[j].subnets@)
                    && opt_view(r@[j].server_ip) == opt_view(self.detected_vpns@[j].server_ip),
            decreases self.detected_vpns.len() - i,
        {
            let v = &self.detected_vpns[i];
            r.push(
                DetectedVpn {
                    interface: v.interface.clone(),
                    vpn_type: v.vpn_type.clone(),
                    subnets: clone_strings(v.subnets.as_slice()),
                    server_ip: clone_opt(&v.server_ip),
                },
            );
            i += 1;
        }
        r
    }

    /// The local SOCKS port.
    pub fn socks_port(&self) -> (r: u16)
        ensures
            r == DEFAULT_SOCKS_PORT,
    {
        DEFAULT_SOCKS_PORT
    }

    /// The counters as last computed.
    pub fn cached_stats(&self) -> (r: SpeedStats)
        ensures
            r == self.stats,
    {
        self.stats
    }

    fn reset_stats(&mut self)
        ensures
            final(self).stats == zero_stats(),
            final(self).prev_uplink == 0,
            final(self).prev_downlink == 0,
            final(self).state == old(self).state,
            final(self).logs == old(self).logs,
            final(self).has_child == old(self).has_child,
            final(self).config_path == old(self).config_path,
            final(self).resolved == old(self).resolved,
            final(self).target_name == old(self).target_name,
            final(self).target_address == old(self).target_address,
            final(self).bypass_domains == old(self).bypass_domains,
            final(self).bypass_subnets == old(self).bypass_subnets,
            final(self).detected_vpns == old(self).detected_vpns,
    {
        self.stats = SpeedStats::default();
        self.prev_uplink = 0;
        self.prev_downlink = 0;
    }

    /// Begins a connection attempt. While connecting or connected it is
    /// refused and nothing changes. Otherwise the counters are reset, the
    /// state becomes connecting for `server`, and the result says whether a
    /// leftover engine process must be killed first.
    pub fn start(&mut self, server: &ServerConfig, bypass_domains: &[String]) -> (r: Result<bool, AppError>)
        requires
            old(self).wf(),
        ensures
            final(self).wf(),
            (old(self).state.status == ConnectionStatus::Connecting || old(self).state.status
                == ConnectionStatus::Connected) ==> {
                &&& r matches Err(AppError::XrayProcess(m)) && m@ == "Already connected or connecting"@
                &&& *final(self) == *old(self)
            },
            !(old(self).state.status == ConnectionStatus::Connecting || old(self).state.status
                == ConnectionStatus::Connected) ==> {
                &&& r == Ok::<bool, AppError>(old(self).has_child)
                &&& final(self).state.status == ConnectionStatus::Connecting
                &&& opt_view(final(self).state.server_name) == Some(server.name@)
                &&& opt_view(final(self).state.server_address) == Some(server.address@)
                &&& final(self).state.connected_since == old(self).state.connected_since
                &&& final(self).state.error_message == old(self).state.error_message
                &&& !final(self).has_child
                &&& !final(self).resolved
                &&& final(self).target_name@ == server.name@
                &&& final(self).target_address@ == server.address@
                &&& final(self).stats == zero_stats()
                &&& final(self).prev_uplink == 0 && final(self).prev_downlink == 0
                &&& strings_view(final(self).bypass_domains@) == strings_view(bypass_domains@)
                &&& final(self).config_path == old(self).config_path
                &&& final(self).logs == old(self).logs
            },
    {
        if self.state.status == ConnectionStatus::Connected || self.state.status
            == ConnectionStatus::Connecting {
            return Err(AppError::XrayProcess(String::from_str("Already connected or connecting")));
        }
        self.reset_stats();
        self.state.status = ConnectionStatus::Connecting;
        self.state.server_name = Some(server.name.clone());
        self.state.server_address = Some(server.address.clone());
        self.target_name = server.name.clone();
        self.target_address = server.address.clone();
        self.resolved = false;
        let stale = self.has_child;
        self.has_child = false;
        let domains = clone_strings(bypass_domains);
        self.bypass_domains = domains;
        Ok(stale)
    }

    /// Records the VPNs found in the route table, derives the bypass subnets
    /// from them and builds the engine configuration.
    pub fn prepare_config(&mut self, server: &ServerConfig, vpns: Vec<DetectedVpn>) -> (r: Result<String, AppError>)
        requires
            old(self).wf(),
        ensures
            final(self).wf(),
            final(self).detected_vpns == vpns,
            is_bypass_list(vpns@, strings_view(final(self).bypass_subnets@)),
            r matches Ok(t) && t@ == client_config_json(
                *server,
                DEFAULT_SOCKS_PORT,
                strings_view(old(self).bypass_domains@),
                strings_view(final(self).bypass_subnets@),
            ),
            *final(self) == (XrayManager {
                detected_vpns: vpns,
                bypass_subnets: final(self).bypass_subnets,
                ..*old(self)
            }),
    {
        let subnets = collect_bypass_subnets(&vpns);
        self.detected_vpns = vpns;
        self.bypass_subnets = subnets;
        generate_client_config(
            server,
            DEFAULT_SOCKS_PORT,
            self.bypass_domains.as_slice(),
            self.bypass_subnets.as_slice(),
        )
    }

    /// The configuration was written to `path`; it is removed on stop.
    pub fn config_written(&mut self, path: String)
        ensures
            *final(self) == (XrayManager { config_path: Some(path), ..*old(self) }),
    {
        self.config_path = Some(path);
    }

    /// The engine process is running.
    pub fn spawned(&mut self)
        ensures
            *final(self) == (XrayManager { has_child: true, ..*old(self) }),
    {
        self.has_child = true;
    }

    /// The engine could not be started (its configuration could not be
    /// written, or the process not spawned): the attempt ends in an error,
    /// which is also handed back for the caller of connect.
    pub fn spawn_failed(&mut self, message: String) -> (r: AppError)
        ensures
            final(self).state.status == ConnectionStatus::Error,
            opt_view(final(self).state.error_message) == Some(message@),
            final(self).state.connected_since.is_none(),
            final(self).state.server_name == old(self).state.server_name,
            final(self).state.server_address == old(self).state.server_address,
            !final(self).has_child,
            final(self).resolved,
            r matches AppError::XrayProcess(m) && m@ == message@,
            *final(self) == (XrayManager { state: final(self).state, has_child: false, resolved: true, ..*old(self) }),
    {
        let copy = message.clone();
        self.state.status = ConnectionStatus::Error;
        self.state.error_message = Some(message);
        self.state.connected_since = None;
        self.has_child = false;
        self.resolved = true;
        AppError::XrayProcess(copy)
    }

    /// A line of engine output at time `now`: it is logged, and the first
    /// readiness signal of an attempt, while still connecting, completes the
    /// connection.
    pub fn on_output(&mut self, stream: OutputStream, line: &str, now: u64) -> (r: ReadyAction)
        requires
            old(self).wf(),
        ensures
            final(self).wf(),
            ({
                let text = trimmed(line@);
                let level = match stream {
                    OutputStream::Stdout => "info"@,
                    OutputStream::Stderr => stderr_level(text),
                };
                final(self).logs.view() == if old(self).logs.view().len() >= MAX_LOG_ENTRIES {
                    old(self).logs.view().drop_first().push((now, level, text))
                } else {
                    old(self).logs.view().push((now, level, text))
                }
            }),
            !old(self).resolved && is_ready_line(trimmed(line@)) ==> {
                &&& final(self).resolved
                &&& old(self).state.status == ConnectionStatus::Connecting ==> {
                    &&& r == ReadyAction::EnableProxyAndNotify
                    &&& final(self).state.status == ConnectionStatus::Connected
                    &&& final(self).state.connected_since == Some(now)
                    &&& opt_view(final(self).state.server_name) == Some(old(self).target_name@)
                    &&& opt_view(final(self).state.server_address) == Some(old(self).target_address@)
                    &&& final(self).state.error_message.is_none()
                }
                &&& old(self).state.status != ConnectionStatus::Connecting ==> {
                    &&& r == ReadyAction::NotifyOnly
                    &&& final(self).state == old(self).state
                }
            },
            !(!old(self).resolved && is_ready_line(trimmed(line@))) ==> {
                &&& r == ReadyAction::Nothing
                &&& final(self).state == old(self).state
                &&& final(self).resolved == old(self).resolved
            },
            final(self).has_child == old(self).has_child,
            final(self).config_path == old(self).config_path,
            final(self).target_name == old(self).target_name,
            final(self).target_address == old(self).target_address,
    {
        let text = trim(line);
        let level = match stream {
            OutputStream::Stdout => "info",
            OutputStream::Stderr => classify_level(text),
        };
        proof {
            reveal_strlit("info");
        }
        push_log_entry(&mut self.logs, level, text, now);
        if !self.resolved && detect_readiness(text) {
            self.resolved = true;
            if self.state.status == ConnectionStatus::Connecting {
                self.state.status = ConnectionStatus::Connected;
                self.state.connected_since = Some(now);
                self.state.server_name = Some(self.target_name.clone());
                self.state.server_address = Some(self.target_address.clone());
                self.state.error_message = None;
                ReadyAction::EnableProxyAndNotify
            } else {
                ReadyAction::NotifyOnly
            }
        } else {
            ReadyAction::Nothing
        }
    }

    /// The engine reported an error event at time `now`: it is logged.
    pub fn on_error_event(&mut self, message: &str, now: u64)
        requires
            old(self).wf(),
        ensures
            final(self).wf(),
            final(self).logs.view() == if old(self).logs.view().len() >= MAX_LOG_ENTRIES {
                old(self).logs.view().drop_first().push((now, "error"@, message@))
            } else {
                old(self).logs.view().push((now, "error"@, message@))
            },
            final(self).state == old(self).state,
    {
        push_log_entry(&mut self.logs, "error", message, now);
    }

    /// The startup timeout elapsed at time `now`. If the attempt is still
    /// undecided and connecting, it fails: the result asks the caller to kill
    /// the engine and announce the disconnection.
    pub fn on_timeout(&mut self, now: u64) -> (r: bool)
        requires
            old(self).wf(),
        ensures
            final(self).wf(),
            r == (!old(self).resolved && old(self).state.status == ConnectionStatus::Connecting),
            r ==> {
                &&& final(self).resolved
                &&& final(self).state.status == ConnectionStatus::Error
                &&& opt_view(final(self).state.error_message) == Some(timeout_message())
                &&& final(self).state.connected_since.is_none()
                &&& !final(self).has_child
                &&& final(self).logs.view() == if old(self).logs.view().len() >= MAX_LOG_ENTRIES {
                    old(self).logs.view().drop_first().push((now, "error"@, timeout_log()))
                } else {
                    old(self).logs.view().push((now, "error"@, timeout_log()))
                }
            },
            !r ==> *final(self) == *old(self),
    {
        if self.resolved || self.state.status != ConnectionStatus::Connecting {
            return false;
        }
        self.resolved = true;
        push_log_entry(&mut self.logs, "error", "Connection timeout after 15 seconds", now);
        self.state.status = ConnectionStatus::Error;
        self.state.error_message = Some(String::from_str("Connection timeout - server unreachable or config invalid"));
        self.state.connected_since = None;
        self.has_child = false;
        true
    }

    /// The engine process ended at time `now` with an exit code or a
    /// signal. The caller always disables the system proxy and announces
    /// the disconnection. A stop in progress completes; any other end while
    /// connecting or connected is an error carrying the exit code.
    pub fn on_terminated(&mut self, code: Option<i32>, signal: Option<i32>, now: u64)
        requires
            old(self).wf(),
        ensures
            final(self).wf(),
            final(self).logs.view() == if old(self).logs.view().len() >= MAX_LOG_ENTRIES {
                old(self).logs.view().drop_first().push((now, "warning"@, terminated_log(code, signal)))
            } else {
                old(self).logs.view().push((now, "warning"@, terminated_log(code, signal)))
            },
            final(self).state.status == match old(self).state.status {
                ConnectionStatus::Disconnecting => ConnectionStatus::Disconnected,
                ConnectionStatus::Disconnected => ConnectionStatus::Disconnected,
                _ => ConnectionStatus::Error,
            },
            (old(self).state.status == ConnectionStatus::Connecting || old(self).state.status
                == ConnectionStatus::Connected) ==> opt_view(final(self).state.error_message) == Some(
                "xray exited unexpectedly (code: "@ + code_text(code) + seq![')'],
            ),
            !(old(self).state.status == ConnectionStatus::Connecting || old(self).state.status
                == ConnectionStatus::Connected) ==> final(self).state.error_message == old(self).state.error_message,
            final(self).state.connected_since.is_none(),
            final(self).state.server_name == old(self).state.server_name,
            final(self).state.server_address == old(self).state.server_address,
            !final(self).has_child,
            final(self).config_path == old(self).config_path,
    {
        let msg = terminated_message(code, signal);
        push_log_entry(&mut self.logs, "warning", msg.as_str(), now);
        if self.state.status == ConnectionStatus::Disconnecting {
            self.state.status = ConnectionStatus::Disconnected;
        } else if self.state.status != ConnectionStatus::Disconnected && self.state.status
            != ConnectionStatus::Error {
            proof {
                reveal_strlit(")");
            }
            let mut m = String::from_str("xray exited unexpectedly (code: ");
            m.append(describe_code(code).as_str());
            m.append(")");
            self.state.status = ConnectionStatus::Error;
            self.state.error_message = Some(m);
        }
        self.state.connected_since = None;
        self.has_child = false;
    }

    /// Begins a stop: the state becomes disconnecting, and the plan says
    /// whether to kill the engine and which configuration file to delete.
    /// The caller disables the system proxy first, then follows the plan,
    /// then calls `finish_stop`. Safe to call in any state.
    pub fn stop(&mut self) -> (r: StopPlan)
        ensures
            final(self).state.status == ConnectionStatus::Disconnecting,
            r.kill_process == old(self).has_child,
            r.remove_config == old(self).config_path,
            !final(self).has_child,
            final(self).config_path.is_none(),
            final(self).logs == old(self).logs,
    {
        self.state.status = ConnectionStatus::Disconnecting;
        let kill = self.has_child;
        self.has_child = false;
        let path = self.config_path.take();
        StopPlan { kill_process: kill, remove_config: path }
    }

    /// Completes a stop: disconnected, with no server, start time or error,
    /// and zero counters.
    pub fn finish_stop(&mut self)
        ensures
            info_view(final(self).state) == (ConnectionStatus::Disconnected, None::<Seq<char>>, None::<Seq<char>>, None::<u64>, None::<Seq<char>>),
            final(self).stats == zero_stats(),
            final(self).prev_uplink == 0 && final(self).prev_downlink == 0,
            final(self).logs == old(self).logs,
            final(self).has_child == old(self).has_child,
            final(self).config_path == old(self).config_path,
    {
        self.state.status = ConnectionStatus::Disconnected;
        self.state.server_name = None;
        self.state.server_address = None;
        self.state.connected_since = None;
        self.state.error_message = None;
        self.reset_stats();
    }

    /// Whether statistics should be asked of the engine: only while connected.
    pub fn stats_due(&self) -> (r: bool)
        ensures
            r == (self.state.status == ConnectionStatus::Connected),
    {
        self.state.status == ConnectionStatus::Connected
    }

    /// New cumulative counters: the rates are the growth since the previous
    /// counters, zero where a counter went down (the engine restarted); the
    /// new counters become the previous ones.
    pub fn record_stats(&mut self, uplink: u64, downlink: u64) -> (r: SpeedStats)
        ensures
            r.upload_speed == saturating_delta(uplink, old(self).prev_uplink),
            r.download_speed == saturating_delta(downlink, old(self).prev_downlink),
            r.total_upload == uplink,
            r.total_download == downlink,
            *final(self) == (XrayManager { prev_uplink: uplink, prev_downlink: downlink, stats: r, ..*old(self) }),
            final(self).prev_uplink == uplink,
            final(self).prev_downlink == downlink,
            final(self).stats == r,
            final(self).state == old(self).state,
            final(self).logs == old(self).logs,
    {
        let upload_speed = if uplink >= self.prev_uplink { uplink - self.prev_uplink } else { 0 };
        let download_speed = if downlink >= self.prev_downlink { downlink - self.prev_downlink } else { 0 };
        self.prev_uplink = uplink;
        self.prev_downlink = downlink;
        let s = SpeedStats { upload_speed, download_speed, total_upload: uplink, total_download: downlink };
        self.stats = s;
        s
    }

    /// The counters on demand. Not connected: zero, and the engine is not
    /// asked. Connected: the engine's statistics output, or `None` when the
    /// query failed, which counts as no traffic since the last query.
    pub fn query_stats(&mut self, output: Option<&str>) -> (r: SpeedStats)
        ensures
            old(self).state.status != ConnectionStatus::Connected ==> r == zero_stats() && *final(self) == *old(self),
            old(self).state.status == ConnectionStatus::Connected ==> match output {
                Some(text) => {
                    &&& r.total_upload == stats_of(text@).0
                    &&& r.total_download == stats_of(text@).1
                    &&& r.upload_speed == saturating_delta(r.total_upload, old(self).prev_uplink)
                    &&& r.download_speed == saturating_delta(r.total_download, old(self).prev_downlink)
                    &&& final(self).prev_uplink == r.total_upload
                    &&& final(self).prev_downlink == r.total_download
                    &&& final(self).stats == r
                },
                None => {
                    &&& r.upload_speed == 0 && r.download_speed == 0
                    &&& r.total_upload == old(self).prev_uplink
                    &&& r.total_download == old(self).prev_downlink
                    &&& final(self).prev_uplink == old(self).prev_uplink
                    &&& final(self).prev_downlink == old(self).prev_downlink
                    &&& final(self).stats == r
                },
            },
            *final(self) == (XrayManager {
                prev_uplink: final(self).prev_uplink,
                prev_downlink: final(self).prev_downlink,
                stats: final(self).stats,
                ..*old(self)
            }),
    {
        if self.state.status != ConnectionStatus::Connected {
            return SpeedStats::default();
        }
        let (up, down) = match output {
            Some(text) => parse_stats_output(text),
            None => (self.prev_uplink, self.prev_downlink),
        };
        self.record_stats(up, down)
    }
}

/// A computed rate is never below zero: when a counter went down (the
/// engine restarted) the rate is zero, and a rate never exceeds the new
/// counter.
pub proof fn lemma_rate_never_negative(current: u64, previous: u64)
    ensures
        current < previous ==> saturating_delta(current, previous) == 0,
        current >= previous ==> saturating_delta(current, previous) == current - previous,
        0 <= saturating_delta(current, previous) <= current,
{
}

pub open spec fn timeout_message() -> Seq<char> {
    "Connection timeout - server unreachable or config invalid"@
}

pub open spec fn timeout_log() -> Seq<char> {
    "Connection timeout after 15 seconds"@
}

pub open spec fn terminated_log(code: Option<i32>, signal: Option<i32>) -> Seq<char> {
    "xray terminated (code: "@ + code_text(code) + ", signal: "@ + code_text(signal) + seq![')']
}

fn terminated_message(code: Option<i32>, signal: Option<i32>) -> (r: String)
    ensures
        r@ == terminated_log(code, signal),
{
    proof {
        reveal_strlit(")");
    }
    let mut m = String::from_str("xray terminated (code: ");
    m.append(describe_code(code).as_str());
    m.append(", signal: ");
    m.append(describe_code(signal).as_str());
    m.append(")");
    assert(m@ =~= terminated_log(code, signal));
    m
}

/// The engine's readiness signal: a line mentioning `started`.
pub open spec fn is_ready_line(line: Seq<char>) -> bool {
    contains(line, "started"@)
}

/// Whether a line of engine output signals readiness. Kept in one place so
/// that a change in the engine's output needs one change here.
pub fn detect_readiness(line: &str) -> (r: bool)
    ensures
        r == is_ready_line(line@),
{
    contains_str(line, "started")
}

} // verus!

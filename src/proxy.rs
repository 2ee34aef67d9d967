//! The system-wide proxy: what to run on each platform to point it at the
//! local listeners, or to turn it off. The commands are computed here and
//! run by the caller; a failing command is only logged, never fatal.

use vstd::prelude::*;
use crate::config::baseline_ips;
use crate::models::{opt_view, strings_view};
use crate::network::str_eq;
use crate::stats::{first_occurrence, find_occurrence, lemma_first_occurrence};
use crate::text::{
    concat, decimal, dec_text, first_index, has_prefix, index_of, join_strings, join_with,
    lemma_index_of, slice, starts_with, trim, trimmed,
};

verus! {

/// Where the system proxy sends HTTP and HTTPS traffic.
pub const HTTP_PORT: u16 = 10809;

/// One program run with its arguments.
pub struct ProxyCommand {
    pub program: String,
    pub args: Vec<String>,
}

pub open spec fn command_view(c: ProxyCommand) -> (Seq<char>, Seq<Seq<char>>) {
    (c.program@, strings_view(c.args@))
}

pub open spec fn plan_view(v: Seq<ProxyCommand>) -> Seq<(Seq<char>, Seq<Seq<char>>)> {
    v.map_values(|c: ProxyCommand| command_view(c))
}

/// The platform whose proxy settings are changed; on macOS, with the
/// network service that carries the default route.
pub enum ProxyTarget {
    Linux,
    Windows,
    MacOs(String),
    Unsupported,
}

/// Each user domain, trimmed, as itself and as a wildcard for its
/// subdomains; empty ones are skipped.
pub open spec fn domain_pairs(domains: Seq<Seq<char>>) -> Seq<Seq<char>>
    decreases domains.len(),
{
    if domains.len() == 0 {
        seq![]
    } else {
        let t = trimmed(domains.last());
        domain_pairs(domains.drop_last()) + if t.len() > 0 {
            seq![t, "*."@ + t]
        } else {
            seq![]
        }
    }
}

/// The trimmed, non-empty subnets.
pub open spec fn kept_subnets(subnets: Seq<Seq<char>>) -> Seq<Seq<char>>
    decreases subnets.len(),
{
    if subnets.len() == 0 {
        seq![]
    } else {
        let t = trimmed(subnets.last());
        kept_subnets(subnets.drop_last()) + if t.len() > 0 {
            seq![t]
        } else {
            seq![]
        }
    }
}

pub open spec fn user_bypass(domains: Seq<Seq<char>>, subnets: Seq<Seq<char>>) -> Seq<Seq<char>> {
    domain_pairs(domains) + kept_subnets(subnets)
}

/// GNOME takes CIDR ranges: `localhost`, then the engine's direct ranges.
pub open spec fn linux_baseline() -> Seq<Seq<char>> {
    seq!["localhost"@] + baseline_ips()
}

/// `ProxyOverride` takes host patterns with `*`: `localhost`, the engine's
/// direct ranges written as patterns (172.16.0.0/12 is 172.16 to 172.31,
/// fc00::/7 is the addresses starting fc or fd), then `<local>`.
pub open spec fn windows_baseline() -> Seq<Seq<char>> {
    seq![
        "localhost"@, "127.*"@, "10.*"@,
        "172.16.*"@, "172.17.*"@, "172.18.*"@, "172.19.*"@, "172.20.*"@, "172.21.*"@, "172.22.*"@, "172.23.*"@,
        "172.24.*"@, "172.25.*"@, "172.26.*"@, "172.27.*"@, "172.28.*"@, "172.29.*"@, "172.30.*"@, "172.31.*"@,
        "192.168.*"@, "[::1]"@, "[fc*"@, "[fd*"@, "<local>"@,
    ]
}

/// macOS takes CIDR ranges: `localhost`, then the engine's direct ranges.
pub open spec fn macos_baseline() -> Seq<Seq<char>> {
    seq!["localhost"@] + baseline_ips()
}

pub open spec fn single_quoted(s: Seq<char>) -> Seq<char> {
    seq!['\''] + s + seq!['\'']
}

/// The GNOME `ignore-hosts` value: a list of single-quoted hosts.
pub open spec fn linux_ignore_hosts(domains: Seq<Seq<char>>, subnets: Seq<Seq<char>>) -> Seq<char> {
    seq!['['] + join_with(
        (linux_baseline() + user_bypass(domains, subnets)).map_values(|h: Seq<char>| single_quoted(h)),
        ", "@,
    ) + seq![']']
}

/// The Windows `ProxyOverride` value: hosts separated by semicolons.
pub open spec fn windows_bypass(domains: Seq<Seq<char>>, subnets: Seq<Seq<char>>) -> Seq<char> {
    join_with(windows_baseline() + user_bypass(domains, subnets), ";"@)
}

/// The macOS bypass domains.
pub open spec fn macos_bypass(domains: Seq<Seq<char>>, subnets: Seq<Seq<char>>) -> Seq<Seq<char>> {
    macos_baseline() + user_bypass(domains, subnets)
}

pub open spec fn gsettings(schema: Seq<char>, key: Seq<char>, value: Seq<char>) -> (Seq<char>, Seq<Seq<char>>) {
    ("gsettings"@, seq!["set"@, schema, key, value])
}

pub open spec fn linux_enable_plan(socks_port: u16, domains: Seq<Seq<char>>, subnets: Seq<Seq<char>>) -> Seq<(Seq<char>, Seq<Seq<char>>)> {
    seq![
        gsettings("org.gnome.system.proxy"@, "mode"@, "manual"@),
        gsettings("org.gnome.system.proxy.socks"@, "host"@, "127.0.0.1"@),
        gsettings("org.gnome.system.proxy.socks"@, "port"@, dec_text(socks_port as nat)),
        gsettings("org.gnome.system.proxy.http"@, "host"@, "127.0.0.1"@),
        gsettings("org.gnome.system.proxy.http"@, "port"@, dec_text(HTTP_PORT as nat)),
        gsettings("org.gnome.system.proxy.https"@, "host"@, "127.0.0.1"@),
        gsettings("org.gnome.system.proxy.https"@, "port"@, dec_text(HTTP_PORT as nat)),
        gsettings("org.gnome.system.proxy"@, "ignore-hosts"@, linux_ignore_hosts(domains, subnets)),
    ]
}

pub open spec fn linux_disable_plan() -> Seq<(Seq<char>, Seq<Seq<char>>)> {
    seq![gsettings("org.gnome.system.proxy"@, "mode"@, "none"@)]
}

pub open spec fn reg_add(name: Seq<char>, kind: Seq<char>, value: Seq<char>) -> (Seq<char>, Seq<Seq<char>>) {
    (
        "reg"@,
        seq!["add"@, INTERNET_SETTINGS@, "/v"@, name, "/t"@, kind, "/d"@, value, "/f"@],
    )
}

pub open spec fn reg_delete(name: Seq<char>) -> (Seq<char>, Seq<Seq<char>>) {
    ("reg"@, seq!["delete"@, INTERNET_SETTINGS@, "/v"@, name, "/f"@])
}

pub open spec fn refresh_command() -> (Seq<char>, Seq<Seq<char>>) {
    ("powershell"@, seq!["-NoProfile"@, "-NonInteractive"@, "-Command"@, REFRESH_SCRIPT@])
}

pub open spec fn windows_enable_plan(domains: Seq<Seq<char>>, subnets: Seq<Seq<char>>) -> Seq<(Seq<char>, Seq<Seq<char>>)> {
    seq![
        reg_add("ProxyEnable"@, "REG_DWORD"@, "1"@),
        reg_add("ProxyServer"@, "REG_SZ"@, "127.0.0.1:"@ + dec_text(HTTP_PORT as nat)),
        reg_add("ProxyOverride"@, "REG_SZ"@, windows_bypass(domains, subnets)),
        refresh_command(),
    ]
}

pub open spec fn windows_disable_plan() -> Seq<(Seq<char>, Seq<Seq<char>>)> {
    seq![
        reg_add("ProxyEnable"@, "REG_DWORD"@, "0"@),
        reg_delete("ProxyServer"@),
        reg_delete("ProxyOverride"@),
        refresh_command(),
    ]
}

pub open spec fn networksetup(args: Seq<Seq<char>>) -> (Seq<char>, Seq<Seq<char>>) {
    ("networksetup"@, args)
}

pub open spec fn macos_enable_plan(service: Seq<char>, socks_port: u16, domains: Seq<Seq<char>>, subnets: Seq<Seq<char>>) -> Seq<(Seq<char>, Seq<Seq<char>>)> {
    seq![
        networksetup(seq!["-setwebproxy"@, service, "127.0.0.1"@, dec_text(HTTP_PORT as nat)]),
        networksetup(seq!["-setwebproxystate"@, service, "on"@]),
        networksetup(seq!["-setsecurewebproxy"@, service, "127.0.0.1"@, dec_text(HTTP_PORT as nat)]),
        networksetup(seq!["-setsecurewebproxystate"@, service, "on"@]),
        networksetup(seq!["-setsocksfirewallproxy"@, service, "127.0.0.1"@, dec_text(socks_port as nat)]),
        networksetup(seq!["-setsocksfirewallproxystate"@, service, "on"@]),
        networksetup(seq!["-setproxybypassdomains"@, service] + macos_bypass(domains, subnets)),
    ]
}

pub open spec fn macos_disable_plan(service: Seq<char>) -> Seq<(Seq<char>, Seq<Seq<char>>)> {
    seq![
        networksetup(seq!["-setwebproxystate"@, service, "off"@]),
        networksetup(seq!["-setsecurewebproxystate"@, service, "off"@]),
        networksetup(seq!["-setsocksfirewallproxystate"@, service, "off"@]),
    ]
}

/// The registry key of the current user's Internet settings.
pub const INTERNET_SETTINGS: &'static str = "HKCU\\Software\\Microsoft\\Windows\\CurrentVersion\\Internet Settings";

/// Tells WinINet that the proxy settings changed, so that browsers pick the
/// change up at once.
pub const REFRESH_SCRIPT: &'static str = "Add-Type -TypeDefinition @\"
using System;
using System.Runtime.InteropServices;
public class WinINet {
    [DllImport(\"wininet.dll\", SetLastError=true)]
    public static extern bool InternetSetOption(IntPtr hInternet, int dwOption, IntPtr lpBuffer, int dwBufferLength);
    public const int INTERNET_OPTION_SETTINGS_CHANGED = 39;
    public const int INTERNET_OPTION_REFRESH = 37;
    public static void Refresh() {
        InternetSetOption(IntPtr.Zero, INTERNET_OPTION_SETTINGS_CHANGED, IntPtr.Zero, 0);
        InternetSetOption(IntPtr.Zero, INTERNET_OPTION_REFRESH, IntPtr.Zero, 0);
    }
}
\"@
[WinINet]::Refresh()
";

/// `localhost` and the engine's direct ranges, in CIDR form.
const LOCAL_AND_DIRECT: [&'static str; 7] = [
    "localhost", "127.0.0.0/8", "10.0.0.0/8", "172.16.0.0/12", "192.168.0.0/16", "::1/128", "fc00::/7",
];

const WINDOWS_PATTERNS: [&'static str; 24] = [
    "localhost", "127.*", "10.*",
    "172.16.*", "172.17.*", "172.18.*", "172.19.*", "172.20.*", "172.21.*", "172.22.*", "172.23.*",
    "172.24.*", "172.25.*", "172.26.*", "172.27.*", "172.28.*", "172.29.*", "172.30.*", "172.31.*",
    "192.168.*", "[::1]", "[fc*", "[fd*", "<local>",
];

proof fn lemma_local_and_direct()
    ensures
        LOCAL_AND_DIRECT@.map_values(|s: &str| s@) == seq!["localhost"@] + baseline_ips(),
{
    assert(LOCAL_AND_DIRECT@.map_values(|s: &str| s@) =~= seq!["localhost"@] + baseline_ips());
}

fn owned(items: &[&str]) -> (r: Vec<String>)
    ensures
        strings_view(r@) == items@.map_values(|s: &str| s@),
{
    let mut r: Vec<String> = Vec::new();
    let mut i: usize = 0;
    while i < items.len()
        invariant
            i <= items.len(),
            r.len() == i,
            forall|j: int| 0 <= j < i ==> (#[trigger] r@[j])@ == items@[j]@,
        decreases items.len() - i,
    {
        r.push(items[i].to_owned());
        i += 1;
    }
    assert(strings_view(r@) =~= items@.map_values(|s: &str| s@));
    r
}

fn command(program: &str, args: Vec<String>) -> (r: ProxyCommand)
    ensures
        command_view(r) == (program@, strings_view(args@)),
{
    ProxyCommand { program: program.to_owned(), args }
}

fn gsettings_set(schema: &str, key: &str, value: &str) -> (r: ProxyCommand)
    ensures
        command_view(r) == gsettings(schema@, key@, value@),
{
    let args = owned(&["set", schema, key, value]);
    assert(strings_view(args@) =~= seq!["set"@, schema@, key@, value@]);
    command("gsettings", args)
}

/// The user domains as pairs and the user subnets, trimmed, empty ones
/// skipped.
pub fn user_bypass_entries(domains: &[String], subnets: &[String]) -> (r: Vec<String>)
    ensures
        strings_view(r@) == user_bypass(strings_view(domains@), strings_view(subnets@)),
{
    let mut r: Vec<String> = Vec::new();
    let mut i: usize = 0;
    while i < domains.len()
        invariant
            i <= domains.len(),
            strings_view(r@) == domain_pairs(strings_view(domains@.subrange(0, i as int))),
        decreases domains.len() - i,
    {
        let ghost pre = strings_view(domains@.subrange(0, i as int));
        let ghost next = strings_view(domains@.subrange(0, i + 1));
        assert(next.drop_last() =~= pre);
        let t = trim(domains[i].as_str());
        if !t.is_empty() {
            r.push(t.to_owned());
            r.push(concat("*.", t));
        }
        assert(strings_view(r@) =~= domain_pairs(next));
        i += 1;
    }
    assert(domains@.subrange(0, domains@.len() as int) =~= domains@);
    let ghost pairs = strings_view(r@);
    let mut j: usize = 0;
    assert(subnets@.subrange(0, 0) =~= Seq::<String>::empty());
    assert(pairs + kept_subnets(Seq::<Seq<char>>::empty()) =~= pairs);
    while j < subnets.len()
        invariant
            j <= subnets.len(),
            strings_view(r@) == pairs + kept_subnets(strings_view(subnets@.subrange(0, j as int))),
        decreases subnets.len() - j,
    {
        let ghost pre = strings_view(subnets@.subrange(0, j as int));
        let ghost next = strings_view(subnets@.subrange(0, j + 1));
        assert(next.drop_last() =~= pre);
        let ghost before = strings_view(r@);
        let t = trim(subnets[j].as_str());
        if !t.is_empty() {
            r.push(t.to_owned());
            assert(strings_view(r@) =~= before.push(t@));
            assert(kept_subnets(next) == kept_subnets(pre) + seq![t@]);
            assert(before.push(t@) =~= pairs + (kept_subnets(pre) + seq![t@]));
        } else {
            assert(kept_subnets(next) =~= kept_subnets(pre));
        }
        j += 1;
    }
    assert(subnets@.subrange(0, subnets@.len() as int) =~= subnets@);
    r
}

fn with_baseline(base: &[&str], extra: Vec<String>) -> (r: Vec<String>)
    ensures
        strings_view(r@) == base@.map_values(|s: &str| s@) + strings_view(extra@),
{
    let mut r = owned(base);
    let ghost head = strings_view(r@);
    let mut i: usize = 0;
    while i < extra.len()
        invariant
            i <= extra.len(),
            strings_view(r@) == head + strings_view(extra@.subrange(0, i as int)),
        decreases extra.len() - i,
    {
        let ghost before = strings_view(r@);
        let x = extra[i].clone();
        r.push(x);
        assert(strings_view(r@) =~= before.push(x@));
        assert(strings_view(extra@.subrange(0, i + 1)) =~= strings_view(extra@.subrange(0, i as int)).push(x@));
        assert(before.push(x@) =~= head + strings_view(extra@.subrange(0, i + 1)));
        i += 1;
    }
    assert(extra@.subrange(0, extra@.len() as int) =~= extra@);
    r
}

/// The GNOME `ignore-hosts` value for the given bypass lists.
pub fn ignore_hosts_value(domains: &[String], subnets: &[String]) -> (r: String)
    ensures
        r@ == linux_ignore_hosts(strings_view(domains@), strings_view(subnets@)),
{
    let hosts = with_baseline(
        &LOCAL_AND_DIRECT,
        user_bypass_entries(domains, subnets),
    );
    proof {
        lemma_local_and_direct();
    }
    let ghost all = strings_view(hosts@);
    let mut quoted: Vec<String> = Vec::new();
    let mut i: usize = 0;
    while i < hosts.len()
        invariant
            i <= hosts.len(),
            all == strings_view(hosts@),
            quoted.len() == i,
            forall|j: int| 0 <= j < i ==> (#[trigger] quoted@[j])@ == single_quoted(hosts@[j]@),
        decreases hosts.len() - i,
    {
        proof {
            reveal_strlit("'");
        }
        let mut q = String::from_str("'");
        q.append(hosts[i].as_str());
        q.append("'");
        assert(q@ =~= single_quoted(hosts@[i as int]@));
        quoted.push(q);
        i += 1;
    }
    assert(quoted@.map_values(|s: String| s@) =~= all.map_values(|h: Seq<char>| single_quoted(h)));
    proof {
        reveal_strlit("[");
        reveal_strlit("]");
    }
    let mut r = String::from_str("[");
    r.append(join_strings(&quoted, ", ").as_str());
    r.append("]");
    assert(r@ =~= linux_ignore_hosts(strings_view(domains@), strings_view(subnets@)));
    r
}

/// Points the GNOME proxy settings at the local listeners.
pub fn enable_linux(socks_port: u16, bypass_domains: &[String], bypass_subnets: &[String]) -> (r: Vec<ProxyCommand>)
    ensures
        plan_view(r@) == linux_enable_plan(socks_port, strings_view(bypass_domains@), strings_view(bypass_subnets@)),
{
    let socks = decimal(socks_port as u64);
    let http = decimal(HTTP_PORT as u64);
    let ignore = ignore_hosts_value(bypass_domains, bypass_subnets);
    let mut r: Vec<ProxyCommand> = Vec::new();
    r.push(gsettings_set("org.gnome.system.proxy", "mode", "manual"));
    r.push(gsettings_set("org.gnome.system.proxy.socks", "host", "127.0.0.1"));
    r.push(gsettings_set("org.gnome.system.proxy.socks", "port", socks.as_str()));
    r.push(gsettings_set("org.gnome.system.proxy.http", "host", "127.0.0.1"));
    r.push(gsettings_set("org.gnome.system.proxy.http", "port", http.as_str()));
    r.push(gsettings_set("org.gnome.system.proxy.https", "host", "127.0.0.1"));
    r.push(gsettings_set("org.gnome.system.proxy.https", "port", http.as_str()));
    r.push(gsettings_set("org.gnome.system.proxy", "ignore-hosts", ignore.as_str()));
    assert(plan_view(r@) =~= linux_enable_plan(socks_port, strings_view(bypass_domains@), strings_view(bypass_subnets@)));
    r
}

/// Switches the GNOME proxy off.
pub fn disable_linux() -> (r: Vec<ProxyCommand>)
    ensures
        plan_view(r@) == linux_disable_plan(),
{
    let mut r: Vec<ProxyCommand> = Vec::new();
    r.push(gsettings_set("org.gnome.system.proxy", "mode", "none"));
    assert(plan_view(r@) =~= linux_disable_plan());
    r
}

fn reg_add_command(name: &str, kind: &str, value: &str) -> (r: ProxyCommand)
    ensures
        command_view(r) == reg_add(name@, kind@, value@),
{
    let args = owned(&["add", INTERNET_SETTINGS, "/v", name, "/t", kind, "/d", value, "/f"]);
    assert(strings_view(args@) =~= seq!["add"@, INTERNET_SETTINGS@, "/v"@, name@, "/t"@, kind@, "/d"@, value@, "/f"@]);
    command("reg", args)
}

fn reg_delete_command(name: &str) -> (r: ProxyCommand)
    ensures
        command_view(r) == reg_delete(name@),
{
    let args = owned(&["delete", INTERNET_SETTINGS, "/v", name, "/f"]);
    assert(strings_view(args@) =~= seq!["delete"@, INTERNET_SETTINGS@, "/v"@, name@, "/f"@]);
    command("reg", args)
}

fn refresh_windows_proxy() -> (r: ProxyCommand)
    ensures
        command_view(r) == refresh_command(),
{
    let args = owned(&["-NoProfile", "-NonInteractive", "-Command", REFRESH_SCRIPT]);
    assert(strings_view(args@) =~= seq!["-NoProfile"@, "-NonInteractive"@, "-Command"@, REFRESH_SCRIPT@]);
    command("powershell", args)
}

/// Points the current user's Internet settings at the local HTTP listener.
pub fn enable_windows(bypass_domains: &[String], bypass_subnets: &[String]) -> (r: Vec<ProxyCommand>)
    ensures
        plan_view(r@) == windows_enable_plan(strings_view(bypass_domains@), strings_view(bypass_subnets@)),
{
    let entries = with_baseline(
        &WINDOWS_PATTERNS,
        user_bypass_entries(bypass_domains, bypass_subnets),
    );
    proof {
        assert(WINDOWS_PATTERNS@.map_values(|s: &str| s@) =~= windows_baseline());
    }
    let bypass = join_strings(&entries, ";");
    let server = concat("127.0.0.1:", decimal(HTTP_PORT as u64).as_str());
    let mut r: Vec<ProxyCommand> = Vec::new();
    r.push(reg_add_command("ProxyEnable", "REG_DWORD", "1"));
    r.push(reg_add_command("ProxyServer", "REG_SZ", server.as_str()));
    r.push(reg_add_command("ProxyOverride", "REG_SZ", bypass.as_str()));
    r.push(refresh_windows_proxy());
    assert(plan_view(r@) =~= windows_enable_plan(strings_view(bypass_domains@), strings_view(bypass_subnets@)));
    r
}

/// Switches the current user's Internet proxy off.
pub fn disable_windows() -> (r: Vec<ProxyCommand>)
    ensures
        plan_view(r@) == windows_disable_plan(),
{
    let mut r: Vec<ProxyCommand> = Vec::new();
    r.push(reg_add_command("ProxyEnable", "REG_DWORD", "0"));
    r.push(reg_delete_command("ProxyServer"));
    r.push(reg_delete_command("ProxyOverride"));
    r.push(refresh_windows_proxy());
    assert(plan_view(r@) =~= windows_disable_plan());
    r
}

fn networksetup_command(args: Vec<String>) -> (r: ProxyCommand)
    ensures
        command_view(r) == networksetup(strings_view(args@)),
{
    command("networksetup", args)
}

/// Points the HTTP, HTTPS and SOCKS proxies of a macOS network service at
/// the local listeners.
pub fn enable_macos(service: &str, socks_port: u16, bypass_domains: &[String], bypass_subnets: &[String]) -> (r: Vec<ProxyCommand>)
    ensures
        plan_view(r@) == macos_enable_plan(service@, socks_port, strings_view(bypass_domains@), strings_view(bypass_subnets@)),
{
    let http = decimal(HTTP_PORT as u64);
    let socks = decimal(socks_port as u64);
    let mut r: Vec<ProxyCommand> = Vec::new();
    let a0 = owned(&["-setwebproxy", service, "127.0.0.1", http.as_str()]);
    assert(strings_view(a0@) =~= seq!["-setwebproxy"@, service@, "127.0.0.1"@, http@]);
    r.push(networksetup_command(a0));
    let a1 = owned(&["-setwebproxystate", service, "on"]);
    assert(strings_view(a1@) =~= seq!["-setwebproxystate"@, service@, "on"@]);
    r.push(networksetup_command(a1));
    let a2 = owned(&["-setsecurewebproxy", service, "127.0.0.1", http.as_str()]);
    assert(strings_view(a2@) =~= seq!["-setsecurewebproxy"@, service@, "127.0.0.1"@, http@]);
    r.push(networksetup_command(a2));
    let a3 = owned(&["-setsecurewebproxystate", service, "on"]);
    assert(strings_view(a3@) =~= seq!["-setsecurewebproxystate"@, service@, "on"@]);
    r.push(networksetup_command(a3));
    let a4 = owned(&["-setsocksfirewallproxy", service, "127.0.0.1", socks.as_str()]);
    assert(strings_view(a4@) =~= seq!["-setsocksfirewallproxy"@, service@, "127.0.0.1"@, socks@]);
    r.push(networksetup_command(a4));
    let a5 = owned(&["-setsocksfirewallproxystate", service, "on"]);
    assert(strings_view(a5@) =~= seq!["-setsocksfirewallproxystate"@, service@, "on"@]);
    r.push(networksetup_command(a5));
    let bypass = with_baseline(
        &LOCAL_AND_DIRECT,
        user_bypass_entries(bypass_domains, bypass_subnets),
    );
    proof {
        lemma_local_and_direct();
    }
    let a6 = with_baseline(&["-setproxybypassdomains", service], bypass);
    proof {
        let base = seq!["-setproxybypassdomains", service];
        assert(base.map_values(|s: &str| s@) =~= seq!["-setproxybypassdomains"@, service@]);
    }
    r.push(networksetup_command(a6));
    assert(plan_view(r@) =~= macos_enable_plan(service@, socks_port, strings_view(bypass_domains@), strings_view(bypass_subnets@)));
    r
}

/// Switches the proxies of a macOS network service off.
pub fn disable_macos(service: &str) -> (r: Vec<ProxyCommand>)
    ensures
        plan_view(r@) == macos_disable_plan(service@),
{
    let mut r: Vec<ProxyCommand> = Vec::new();
    let a0 = owned(&["-setwebproxystate", service, "off"]);
    assert(strings_view(a0@) =~= seq!["-setwebproxystate"@, service@, "off"@]);
    r.push(networksetup_command(a0));
    let a1 = owned(&["-setsecurewebproxystate", service, "off"]);
    assert(strings_view(a1@) =~= seq!["-setsecurewebproxystate"@, service@, "off"@]);
    r.push(networksetup_command(a1));
    let a2 = owned(&["-setsocksfirewallproxystate", service, "off"]);
    assert(strings_view(a2@) =~= seq!["-setsocksfirewallproxystate"@, service@, "off"@]);
    r.push(networksetup_command(a2));
    assert(plan_view(r@) =~= macos_disable_plan(service@));
    r
}

/// The commands that enable the system proxy on `target`.
pub fn enable_system_proxy(
    target: &ProxyTarget,
    socks_port: u16,
    bypass_domains: &[String],
    bypass_subnets: &[String],
) -> (r: Vec<ProxyCommand>)
    ensures
        plan_view(r@) == match target {
            ProxyTarget::Linux => linux_enable_plan(socks_port, strings_view(bypass_domains@), strings_view(bypass_subnets@)),
            ProxyTarget::Windows => windows_enable_plan(strings_view(bypass_domains@), strings_view(bypass_subnets@)),
            ProxyTarget::MacOs(service) => macos_enable_plan(service@, socks_port, strings_view(bypass_domains@), strings_view(bypass_subnets@)),
            ProxyTarget::Unsupported => Seq::<(Seq<char>, Seq<Seq<char>>)>::empty(),
        },
{
    match target {
        ProxyTarget::Linux => enable_linux(socks_port, bypass_domains, bypass_subnets),
        ProxyTarget::Windows => enable_windows(bypass_domains, bypass_subnets),
        ProxyTarget::MacOs(service) => enable_macos(service.as_str(), socks_port, bypass_domains, bypass_subnets),
        ProxyTarget::Unsupported => {
            let r: Vec<ProxyCommand> = Vec::new();
            assert(plan_view(r@) =~= Seq::<(Seq<char>, Seq<Seq<char>>)>::empty());
            r
        },
    }
}

/// The commands that disable the system proxy on `target`.
pub fn disable_system_proxy(target: &ProxyTarget) -> (r: Vec<ProxyCommand>)
    ensures
        plan_view(r@) == match target {
            ProxyTarget::Linux => linux_disable_plan(),
            ProxyTarget::Windows => windows_disable_plan(),
            ProxyTarget::MacOs(service) => macos_disable_plan(service@),
            ProxyTarget::Unsupported => Seq::<(Seq<char>, Seq<Seq<char>>)>::empty(),
        },
{
    match target {
        ProxyTarget::Linux => disable_linux(),
        ProxyTarget::Windows => disable_windows(),
        ProxyTarget::MacOs(service) => disable_macos(service.as_str()),
        ProxyTarget::Unsupported => {
            let r: Vec<ProxyCommand> = Vec::new();
            assert(plan_view(r@) =~= Seq::<(Seq<char>, Seq<Seq<char>>)>::empty());
            r
        },
    }
}

/// The device named on the `interface:` line of the default-route report:
/// the text after the label, up to the next colon or line end, trimmed.
pub open spec fn interface_of(route_out: Seq<char>) -> Option<Seq<char>> {
    let p = first_occurrence(route_out, "interface:"@, 0);
    if p < 0 {
        None
    } else {
        let tail = route_out.subrange(p + "interface:"@.len(), route_out.len() as int);
        let nl = index_of(tail, '\n');
        let colon = index_of(tail, ':');
        let end = if nl >= 0 && (colon < 0 || nl <= colon) {
            nl
        } else if colon >= 0 {
            colon
        } else {
            tail.len() as int
        };
        Some(trimmed(tail.subrange(0, end)))
    }
}

/// Walks the hardware-port listing line by line: a `Hardware Port: ` line
/// names the current service, a `Device: ` line naming `iface` selects it.
pub open spec fn service_in(ports: Seq<char>, iface: Seq<char>, current: Seq<char>) -> Option<Seq<char>>
    decreases ports.len(),
{
    let k = index_of(ports, '\n');
    let line = if 0 <= k < ports.len() { ports.subrange(0, k) } else { ports };
    let more = 0 <= k < ports.len();
    if starts_with(line, "Hardware Port: "@) {
        if more {
            service_in(ports.subrange(k + 1, ports.len() as int), iface, line.subrange(15, line.len() as int))
        } else {
            None
        }
    } else if starts_with(line, "Device: "@) && trimmed(line.subrange(8, line.len() as int)) == iface {
        Some(current)
    } else if more {
        service_in(ports.subrange(k + 1, ports.len() as int), iface, current)
    } else {
        None
    }
}

/// The network service that carries the default route: none when the
/// route report names no interface, `Wi-Fi` when no listed port matches.
pub open spec fn macos_service(route_out: Seq<char>, ports_out: Seq<char>) -> Option<Seq<char>> {
    match interface_of(route_out) {
        None => None,
        Some(iface) => match service_in(ports_out, iface, seq![]) {
            Some(s) => Some(s),
            None => Some("Wi-Fi"@),
        },
    }
}

/// Reads the device from the output of `route -n get default`.
pub fn default_route_interface(route_out: &str) -> (r: Option<String>)
    ensures
        opt_view(r) == interface_of(route_out@),
{
    proof {
        reveal_strlit("interface:");
    }
    let n = route_out.unicode_len();
    let p = match find_occurrence(route_out, "interface:", 0) {
        Some(p) => p,
        None => return None,
    };
    proof {
        lemma_first_occurrence(route_out@, "interface:"@, 0);
    }
    let tail = slice(route_out, p + 10, n);
    let end = match (first_index(tail.as_str(), '\n'), first_index(tail.as_str(), ':')) {
        (Some(nl), Some(colon)) => if nl <= colon { nl } else { colon },
        (Some(nl), None) => nl,
        (None, Some(colon)) => colon,
        (None, None) => tail.unicode_len(),
    };
    proof {
        lemma_index_of(tail@, '\n');
        lemma_index_of(tail@, ':');
    }
    let name = slice(tail.as_str(), 0, end);
    Some(trim(name.as_str()).to_owned())
}

fn find_service(ports: &str, iface: &str, current: String) -> (r: Option<String>)
    ensures
        opt_view(r) == service_in(ports@, iface@, current@),
    decreases ports@.len(),
{
    proof {
        reveal_strlit("Hardware Port: ");
        reveal_strlit("Device: ");
    }
    let n = ports.unicode_len();
    let k = first_index(ports, '\n');
    proof {
        lemma_index_of(ports@, '\n');
    }
    let line = match k {
        Some(k) => slice(ports, 0, k),
        None => slice(ports, 0, n),
    };
    assert(ports@.subrange(0, n as int) =~= ports@);
    if has_prefix(line.as_str(), "Hardware Port: ") {
        match k {
            Some(k) => {
                let name = slice(line.as_str(), 15, line.unicode_len());
                find_service(slice(ports, k + 1, n).as_str(), iface, name)
            },
            None => None,
        }
    } else if has_prefix(line.as_str(), "Device: ") && str_eq(
        trim(slice(line.as_str(), 8, line.unicode_len()).as_str()),
        iface,
    ) {
        Some(current)
    } else {
        match k {
            Some(k) => find_service(slice(ports, k + 1, n).as_str(), iface, current),
            None => None,
        }
    }
}

/// The macOS network service to configure, from the outputs of
/// `route -n get default` and `networksetup -listallhardwareports`.
pub fn macos_network_service(route_out: &str, ports_out: &str) -> (r: Option<String>)
    ensures
        opt_view(r) == macos_service(route_out@, ports_out@),
{
    match default_route_interface(route_out) {
        None => None,
        Some(iface) => match find_service(ports_out, iface.as_str(), String::new()) {
            Some(s) => Some(s),
            None => Some(String::from_str("Wi-Fi")),
        },
    }
}

} // verus!

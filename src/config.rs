//! The engine configuration document built from a server profile, the
//! local proxy port and the bypass rules.

use vstd::prelude::*;
use crate::json::{
    array, json_array, json_member, json_object, json_string_literal, member, object, quote,
    quoted_all, string_array, string_member,
};
use crate::models::{AppError, ServerConfig, strings_view};
use crate::network::str_eq;
use crate::text::{concat, decimal, dec_text, lowercase, lowercase_of, trim, trimmed};

verus! {

/// Where the engine serves its statistics queries.
pub const STATS_API_ADDR: &'static str = "127.0.0.1:10085";

pub open spec fn q(s: Seq<char>) -> Seq<char> {
    json_string_literal(s)
}

pub open spec fn log_json() -> Seq<char> {
    json_object(seq![json_member("loglevel"@, q("info"@))])
}

pub open spec fn dns_json() -> Seq<char> {
    json_object(seq![json_member("servers"@, json_array(seq![q("1.1.1.1"@), q("8.8.8.8"@)]))])
}

pub open spec fn api_json() -> Seq<char> {
    json_object(
        seq![
            json_member("tag"@, q("api"@)),
            json_member("listen"@, q(STATS_API_ADDR@)),
            json_member("services"@, json_array(seq![q("StatsService"@)])),
        ],
    )
}

pub open spec fn policy_json() -> Seq<char> {
    json_object(
        seq![
            json_member(
                "system"@,
                json_object(
                    seq![
                        json_member("statsOutboundUplink"@, "true"@),
                        json_member("statsOutboundDownlink"@, "true"@),
                    ],
                ),
            ),
        ],
    )
}

pub open spec fn sniffing_json() -> Seq<char> {
    json_object(
        seq![
            json_member("enabled"@, "true"@),
            json_member("destOverride"@, json_array(seq![q("http"@), q("tls"@)])),
        ],
    )
}

pub open spec fn socks_inbound_json(port: nat) -> Seq<char> {
    json_object(
        seq![
            json_member("tag"@, q("socks-in"@)),
            json_member("port"@, dec_text(port)),
            json_member("listen"@, q("127.0.0.1"@)),
            json_member("protocol"@, q("socks"@)),
            json_member("settings"@, json_object(seq![json_member("udp"@, "true"@)])),
            json_member("sniffing"@, sniffing_json()),
        ],
    )
}

pub open spec fn http_inbound_json(port: nat) -> Seq<char> {
    json_object(
        seq![
            json_member("tag"@, q("http-in"@)),
            json_member("port"@, dec_text(port)),
            json_member("listen"@, q("127.0.0.1"@)),
            json_member("protocol"@, q("http"@)),
            json_member("sniffing"@, sniffing_json()),
        ],
    )
}

pub open spec fn user_json(s: ServerConfig) -> Seq<char> {
    json_object(
        seq![
            json_member("id"@, q(s.uuid@)),
            json_member("flow"@, q(s.flow@)),
            json_member("encryption"@, q("none"@)),
        ],
    )
}

pub open spec fn vnext_json(s: ServerConfig) -> Seq<char> {
    json_object(
        seq![
            json_member("address"@, q(s.address@)),
            json_member("port"@, dec_text(s.port as nat)),
            json_member("users"@, json_array(seq![user_json(s)])),
        ],
    )
}

pub open spec fn reality_json(s: ServerConfig) -> Seq<char> {
    json_object(
        seq![
            json_member("show"@, "false"@),
            json_member("fingerprint"@, q(s.reality.fingerprint@)),
            json_member("serverName"@, q(s.reality.server_name@)),
            json_member("publicKey"@, q(s.reality.public_key@)),
            json_member("shortId"@, q(s.reality.short_id@)),
        ],
    )
}

/// The outbound that carries traffic to the server.
pub open spec fn proxy_outbound_json(s: ServerConfig) -> Seq<char> {
    json_object(
        seq![
            json_member("tag"@, q("proxy"@)),
            json_member("protocol"@, q("vless"@)),
            json_member(
                "settings"@,
                json_object(seq![json_member("vnext"@, json_array(seq![vnext_json(s)]))]),
            ),
            json_member(
                "streamSettings"@,
                json_object(
                    seq![
                        json_member("network"@, q("tcp"@)),
                        json_member("security"@, q("reality"@)),
                        json_member("realitySettings"@, reality_json(s)),
                    ],
                ),
            ),
        ],
    )
}

pub open spec fn plain_outbound_json(tag: Seq<char>, protocol: Seq<char>) -> Seq<char> {
    json_object(seq![json_member("tag"@, q(tag)), json_member("protocol"@, q(protocol))])
}

/// The outbounds, in order: proxy, direct, block.
pub open spec fn outbounds(s: ServerConfig) -> Seq<Seq<char>> {
    seq![
        proxy_outbound_json(s),
        plain_outbound_json("direct"@, "freedom"@),
        plain_outbound_json("block"@, "blackhole"@),
    ]
}

pub open spec fn domain_rule_json(entries: Seq<Seq<char>>) -> Seq<char> {
    json_object(
        seq![
            json_member("type"@, q("field"@)),
            json_member("outboundTag"@, q("direct"@)),
            json_member("domain"@, json_array(quoted_all(entries))),
        ],
    )
}

pub open spec fn ip_rule_json(ips: Seq<Seq<char>>) -> Seq<char> {
    json_object(
        seq![
            json_member("type"@, q("field"@)),
            json_member("outboundTag"@, q("direct"@)),
            json_member("ip"@, json_array(quoted_all(ips))),
        ],
    )
}

pub open spec fn normalized_domain(d: Seq<char>) -> Seq<char> {
    lowercase_of(trimmed(d))
}

/// Each bypass domain as a subdomain-wildcard entry and an exact entry.
pub open spec fn domain_entries(domains: Seq<Seq<char>>) -> Seq<Seq<char>>
    decreases domains.len(),
{
    if domains.len() == 0 {
        seq![]
    } else {
        let d = normalized_domain(domains.last());
        domain_entries(domains.drop_last()) + seq!["domain:"@ + d, "full:"@ + d]
    }
}

/// The private and loopback ranges that always go direct.
pub open spec fn baseline_ips() -> Seq<Seq<char>> {
    seq![
        "127.0.0.0/8"@,
        "10.0.0.0/8"@,
        "172.16.0.0/12"@,
        "192.168.0.0/16"@,
        "::1/128"@,
        "fc00::/7"@,
    ]
}

/// The baseline ranges, then each trimmed, non-empty subnet not yet listed.
pub open spec fn direct_ips(subnets: Seq<Seq<char>>) -> Seq<Seq<char>>
    decreases subnets.len(),
{
    if subnets.len() == 0 {
        baseline_ips()
    } else {
        let prev = direct_ips(subnets.drop_last());
        let s = trimmed(subnets.last());
        if s.len() > 0 && !prev.contains(s) {
            prev.push(s)
        } else {
            prev
        }
    }
}

/// The routing rules in order: user domains (when there are any),
/// `localhost`, then the direct IP ranges.
pub open spec fn routing_rules(domains: Seq<Seq<char>>, subnets: Seq<Seq<char>>) -> Seq<Seq<char>> {
    (if domains.len() > 0 {
        seq![domain_rule_json(domain_entries(domains))]
    } else {
        seq![]
    }) + seq![domain_rule_json(seq!["localhost"@]), ip_rule_json(direct_ips(subnets))]
}

pub open spec fn routing_json(domains: Seq<Seq<char>>, subnets: Seq<Seq<char>>) -> Seq<char> {
    json_object(
        seq![
            json_member("domainStrategy"@, q("IPIfNonMatch"@)),
            json_member("rules"@, json_array(routing_rules(domains, subnets))),
        ],
    )
}

/// The whole engine configuration document.
pub open spec fn client_config_json(
    s: ServerConfig,
    socks_port: u16,
    domains: Seq<Seq<char>>,
    subnets: Seq<Seq<char>>,
) -> Seq<char> {
    json_object(
        seq![
            json_member("log"@, log_json()),
            json_member("dns"@, dns_json()),
            json_member("stats"@, json_object(seq![])),
            json_member("api"@, api_json()),
            json_member("policy"@, policy_json()),
            json_member(
                "inbounds"@,
                json_array(
                    seq![socks_inbound_json(socks_port as nat), http_inbound_json(socks_port as nat + 1)],
                ),
            ),
            json_member("outbounds"@, json_array(outbounds(s))),
            json_member("routing"@, routing_json(domains, subnets)),
        ],
    )
}

fn log_section() -> (r: String)
    ensures
        r@ == log_json(),
{
    let mut m: Vec<String> = Vec::new();
    m.push(string_member("loglevel", "info"));
    assert(strings_view(m@) =~= seq![json_member("loglevel"@, q("info"@))]);
    object(&m)
}

fn dns_section() -> (r: String)
    ensures
        r@ == dns_json(),
{
    let mut servers: Vec<String> = Vec::new();
    servers.push(quote("1.1.1.1"));
    servers.push(quote("8.8.8.8"));
    assert(strings_view(servers@) =~= seq![q("1.1.1.1"@), q("8.8.8.8"@)]);
    let list = array(&servers);
    let mut m: Vec<String> = Vec::new();
    m.push(member("servers", list.as_str()));
    assert(strings_view(m@) =~= seq![json_member("servers"@, list@)]);
    object(&m)
}

fn api_section() -> (r: String)
    ensures
        r@ == api_json(),
{
    let mut services: Vec<String> = Vec::new();
    services.push(quote("StatsService"));
    assert(strings_view(services@) =~= seq![q("StatsService"@)]);
    let list = array(&services);
    let mut m: Vec<String> = Vec::new();
    m.push(string_member("tag", "api"));
    m.push(string_member("listen", STATS_API_ADDR));
    m.push(member("services", list.as_str()));
    assert(strings_view(m@) =~= seq![
        json_member("tag"@, q("api"@)),
        json_member("listen"@, q(STATS_API_ADDR@)),
        json_member("services"@, list@),
    ]);
    object(&m)
}

fn policy_section() -> (r: String)
    ensures
        r@ == policy_json(),
{
    let mut sys: Vec<String> = Vec::new();
    sys.push(member("statsOutboundUplink", "true"));
    sys.push(member("statsOutboundDownlink", "true"));
    assert(strings_view(sys@) =~= seq![
        json_member("statsOutboundUplink"@, "true"@),
        json_member("statsOutboundDownlink"@, "true"@),
    ]);
    let system = object(&sys);
    let mut m: Vec<String> = Vec::new();
    m.push(member("system", system.as_str()));
    assert(strings_view(m@) =~= seq![json_member("system"@, system@)]);
    object(&m)
}

fn sniffing_section() -> (r: String)
    ensures
        r@ == sniffing_json(),
{
    let mut kinds: Vec<String> = Vec::new();
    kinds.push(quote("http"));
    kinds.push(quote("tls"));
    assert(strings_view(kinds@) =~= seq![q("http"@), q("tls"@)]);
    let list = array(&kinds);
    let mut m: Vec<String> = Vec::new();
    m.push(member("enabled", "true"));
    m.push(member("destOverride", list.as_str()));
    assert(strings_view(m@) =~= seq![json_member("enabled"@, "true"@), json_member("destOverride"@, list@)]);
    object(&m)
}

fn socks_inbound(port: u64) -> (r: String)
    ensures
        r@ == socks_inbound_json(port as nat),
{
    let mut udp: Vec<String> = Vec::new();
    udp.push(member("udp", "true"));
    assert(strings_view(udp@) =~= seq![json_member("udp"@, "true"@)]);
    let settings = object(&udp);
    let port_text = decimal(port);
    let sniffing = sniffing_section();
    let mut m: Vec<String> = Vec::new();
    m.push(string_member("tag", "socks-in"));
    m.push(member("port", port_text.as_str()));
    m.push(string_member("listen", "127.0.0.1"));
    m.push(string_member("protocol", "socks"));
    m.push(member("settings", settings.as_str()));
    m.push(member("sniffing", sniffing.as_str()));
    assert(strings_view(m@) =~= seq![
        json_member("tag"@, q("socks-in"@)),
        json_member("port"@, dec_text(port as nat)),
        json_member("listen"@, q("127.0.0.1"@)),
        json_member("protocol"@, q("socks"@)),
        json_member("settings"@, json_object(seq![json_member("udp"@, "true"@)])),
        json_member("sniffing"@, sniffing_json()),
    ]);
    object(&m)
}

fn http_inbound(port: u64) -> (r: String)
    ensures
        r@ == http_inbound_json(port as nat),
{
    let port_text = decimal(port);
    let sniffing = sniffing_section();
    let mut m: Vec<String> = Vec::new();
    m.push(string_member("tag", "http-in"));
    m.push(member("port", port_text.as_str()));
    m.push(string_member("listen", "127.0.0.1"));
    m.push(string_member("protocol", "http"));
    m.push(member("sniffing", sniffing.as_str()));
    assert(strings_view(m@) =~= seq![
        json_member("tag"@, q("http-in"@)),
        json_member("port"@, dec_text(port as nat)),
        json_member("listen"@, q("127.0.0.1"@)),
        json_member("protocol"@, q("http"@)),
        json_member("sniffing"@, sniffing_json()),
    ]);
    object(&m)
}

fn vnext_entry(s: &ServerConfig) -> (r: String)
    ensures
        r@ == vnext_json(*s),
{
    let mut u: Vec<String> = Vec::new();
    u.push(string_member("id", s.uuid.as_str()));
    u.push(string_member("flow", s.flow.as_str()));
    u.push(string_member("encryption", "none"));
    assert(strings_view(u@) =~= seq![
        json_member("id"@, q(s.uuid@)),
        json_member("flow"@, q(s.flow@)),
        json_member("encryption"@, q("none"@)),
    ]);
    let user = object(&u);
    let mut users: Vec<String> = Vec::new();
    users.push(user);
    assert(strings_view(users@) =~= seq![user_json(*s)]);
    let user_list = array(&users);
    let port_text = decimal(s.port as u64);
    let mut m: Vec<String> = Vec::new();
    m.push(string_member("address", s.address.as_str()));
    m.push(member("port", port_text.as_str()));
    m.push(member("users", user_list.as_str()));
    assert(strings_view(m@) =~= seq![
        json_member("address"@, q(s.address@)),
        json_member("port"@, dec_text(s.port as nat)),
        json_member("users"@, json_array(seq![user_json(*s)])),
    ]);
    object(&m)
}

fn reality_section(s: &ServerConfig) -> (r: String)
    ensures
        r@ == reality_json(*s),
{
    let mut m: Vec<String> = Vec::new();
    m.push(member("show", "false"));
    m.push(string_member("fingerprint", s.reality.fingerprint.as_str()));
    m.push(string_member("serverName", s.reality.server_name.as_str()));
    m.push(string_member("publicKey", s.reality.public_key.as_str()));
    m.push(string_member("shortId", s.reality.short_id.as_str()));
    assert(strings_view(m@) =~= seq![
        json_member("show"@, "false"@),
        json_member("fingerprint"@, q(s.reality.fingerprint@)),
        json_member("serverName"@, q(s.reality.server_name@)),
        json_member("publicKey"@, q(s.reality.public_key@)),
        json_member("shortId"@, q(s.reality.short_id@)),
    ]);
    object(&m)
}

fn proxy_outbound(s: &ServerConfig) -> (r: String)
    ensures
        r@ == proxy_outbound_json(*s),
{
    let mut vn: Vec<String> = Vec::new();
    vn.push(vnext_entry(s));
    assert(strings_view(vn@) =~= seq![vnext_json(*s)]);
    let vnext = array(&vn);
    let mut st: Vec<String> = Vec::new();
    st.push(member("vnext", vnext.as_str()));
    assert(strings_view(st@) =~= seq![json_member("vnext"@, vnext@)]);
    let settings = object(&st);
    let reality = reality_section(s);
    let mut ss: Vec<String> = Vec::new();
    ss.push(string_member("network", "tcp"));
    ss.push(string_member("security", "reality"));
    ss.push(member("realitySettings", reality.as_str()));
    assert(strings_view(ss@) =~= seq![
        json_member("network"@, q("tcp"@)),
        json_member("security"@, q("reality"@)),
        json_member("realitySettings"@, reality@),
    ]);
    let stream = object(&ss);
    let mut m: Vec<String> = Vec::new();
    m.push(string_member("tag", "proxy"));
    m.push(string_member("protocol", "vless"));
    m.push(member("settings", settings.as_str()));
    m.push(member("streamSettings", stream.as_str()));
    assert(strings_view(m@) =~= seq![
        json_member("tag"@, q("proxy"@)),
        json_member("protocol"@, q("vless"@)),
        json_member("settings"@, settings@),
        json_member("streamSettings"@, stream@),
    ]);
    object(&m)
}

fn plain_outbound(tag: &str, protocol: &str) -> (r: String)
    ensures
        r@ == plain_outbound_json(tag@, protocol@),
{
    let mut m: Vec<String> = Vec::new();
    m.push(string_member("tag", tag));
    m.push(string_member("protocol", protocol));
    assert(strings_view(m@) =~= seq![json_member("tag"@, q(tag@)), json_member("protocol"@, q(protocol@))]);
    object(&m)
}

fn domain_rule(entries: &Vec<String>) -> (r: String)
    ensures
        r@ == domain_rule_json(strings_view(entries@)),
{
    let list = string_array(entries);
    let mut m: Vec<String> = Vec::new();
    m.push(string_member("type", "field"));
    m.push(string_member("outboundTag", "direct"));
    m.push(member("domain", list.as_str()));
    assert(strings_view(m@) =~= seq![
        json_member("type"@, q("field"@)),
        json_member("outboundTag"@, q("direct"@)),
        json_member("domain"@, list@),
    ]);
    object(&m)
}

fn ip_rule(ips: &Vec<String>) -> (r: String)
    ensures
        r@ == ip_rule_json(strings_view(ips@)),
{
    let list = string_array(ips);
    let mut m: Vec<String> = Vec::new();
    m.push(string_member("type", "field"));
    m.push(string_member("outboundTag", "direct"));
    m.push(member("ip", list.as_str()));
    assert(strings_view(m@) =~= seq![
        json_member("type"@, q("field"@)),
        json_member("outboundTag"@, q("direct"@)),
        json_member("ip"@, list@),
    ]);
    object(&m)
}

/// Whether `v` holds a string equal to `s`.
pub fn contains_string(v: &Vec<String>, s: &str) -> (r: bool)
    ensures
        r == strings_view(v@).contains(s@),
{
    let mut i: usize = 0;
    while i < v.len()
        invariant
            i <= v.len(),
            forall|j: int| 0 <= j < i ==> v@[j]@ != s@,
        decreases v.len() - i,
    {
        if str_eq(v[i].as_str(), s) {
            assert(strings_view(v@)[i as int] == s@);
            return true;
        }
        i += 1;
    }
    false
}

/// The subdomain-wildcard and exact entries for the bypass domains.
pub fn bypass_domain_entries(domains: &[String]) -> (r: Vec<String>)
    ensures
        strings_view(r@) == domain_entries(strings_view(domains@)),
{
    let mut r: Vec<String> = Vec::new();
    let mut i: usize = 0;
    while i < domains.len()
        invariant
            i <= domains.len(),
            strings_view(r@) == domain_entries(strings_view(domains@.subrange(0, i as int))),
        decreases domains.len() - i,
    {
        let ghost pre = strings_view(domains@.subrange(0, i as int));
        let ghost next = strings_view(domains@.subrange(0, i + 1));
        assert(next.drop_last() =~= pre);
        let d = lowercase(trim(domains[i].as_str()));
        r.push(concat("domain:", d.as_str()));
        r.push(concat("full:", d.as_str()));
        assert(strings_view(r@) =~= domain_entries(next));
        i += 1;
    }
    assert(domains@.subrange(0, domains@.len() as int) =~= domains@);
    r
}

/// The direct IP ranges: the baseline ranges, then the trimmed, non-empty
/// subnets that are not already listed.
pub fn direct_ip_list(subnets: &[String]) -> (r: Vec<String>)
    ensures
        strings_view(r@) == direct_ips(strings_view(subnets@)),
{
    let mut r: Vec<String> = Vec::new();
    r.push(String::from_str("127.0.0.0/8"));
    r.push(String::from_str("10.0.0.0/8"));
    r.push(String::from_str("172.16.0.0/12"));
    r.push(String::from_str("192.168.0.0/16"));
    r.push(String::from_str("::1/128"));
    r.push(String::from_str("fc00::/7"));
    assert(strings_view(r@) =~= baseline_ips());
    assert(subnets@.subrange(0, 0) =~= Seq::<String>::empty());
    let mut i: usize = 0;
    while i < subnets.len()
        invariant
            i <= subnets.len(),
            strings_view(r@) == direct_ips(strings_view(subnets@.subrange(0, i as int))),
        decreases subnets.len() - i,
    {
        let ghost pre = strings_view(subnets@.subrange(0, i as int));
        let ghost next = strings_view(subnets@.subrange(0, i + 1));
        assert(next.drop_last() =~= pre);
        let s = trim(subnets[i].as_str());
        if !s.is_empty() && !contains_string(&r, s) {
            r.push(s.to_owned());
            assert(strings_view(r@) =~= direct_ips(pre).push(s@));
        }
        i += 1;
    }
    assert(subnets@.subrange(0, subnets@.len() as int) =~= subnets@);
    r
}

fn routing_section(domains: &[String], subnets: &[String]) -> (r: String)
    ensures
        r@ == routing_json(strings_view(domains@), strings_view(subnets@)),
{
    let mut rules: Vec<String> = Vec::new();
    if domains.len() > 0 {
        let entries = bypass_domain_entries(domains);
        rules.push(domain_rule(&entries));
    }
    let mut local: Vec<String> = Vec::new();
    local.push(String::from_str("localhost"));
    assert(strings_view(local@) =~= seq!["localhost"@]);
    rules.push(domain_rule(&local));
    let ips = direct_ip_list(subnets);
    rules.push(ip_rule(&ips));
    assert(strings_view(rules@) =~= routing_rules(strings_view(domains@), strings_view(subnets@)));
    let list = array(&rules);
    let mut m: Vec<String> = Vec::new();
    m.push(string_member("domainStrategy", "IPIfNonMatch"));
    m.push(member("rules", list.as_str()));
    assert(strings_view(m@) =~= seq![
        json_member("domainStrategy"@, q("IPIfNonMatch"@)),
        json_member("rules"@, list@),
    ]);
    object(&m)
}

/// Builds the engine configuration document for a server, the local SOCKS
/// port (HTTP listens on the next one) and the bypass domains and subnets.
pub fn generate_client_config(
    server: &ServerConfig,
    socks_port: u16,
    bypass_domains: &[String],
    bypass_subnets: &[String],
) -> (r: Result<String, AppError>)
    ensures
        r matches Ok(t) && t@ == client_config_json(
            *server,
            socks_port,
            strings_view(bypass_domains@),
            strings_view(bypass_subnets@),
        ),
{
    let mut inb: Vec<String> = Vec::new();
    inb.push(socks_inbound(socks_port as u64));
    inb.push(http_inbound(socks_port as u64 + 1));
    assert(strings_view(inb@) =~= seq![
        socks_inbound_json(socks_port as nat),
        http_inbound_json(socks_port as nat + 1),
    ]);
    let inbounds = array(&inb);
    let mut outb: Vec<String> = Vec::new();
    outb.push(proxy_outbound(server));
    outb.push(plain_outbound("direct", "freedom"));
    outb.push(plain_outbound("block", "blackhole"));
    assert(strings_view(outb@) =~= outbounds(*server));
    let outbound_list = array(&outb);
    let log = log_section();
    let dns = dns_section();
    let empty: Vec<String> = Vec::new();
    let stats = object(&empty);
    assert(strings_view(empty@) =~= Seq::<Seq<char>>::empty());
    let api = api_section();
    let policy = policy_section();
    let routing = routing_section(bypass_domains, bypass_subnets);
    let mut m: Vec<String> = Vec::new();
    m.push(member("log", log.as_str()));
    m.push(member("dns", dns.as_str()));
    m.push(member("stats", stats.as_str()));
    m.push(member("api", api.as_str()));
    m.push(member("policy", policy.as_str()));
    m.push(member("inbounds", inbounds.as_str()));
    m.push(member("outbounds", outbound_list.as_str()));
    m.push(member("routing", routing.as_str()));
    assert(strings_view(m@) =~= seq![
        json_member("log"@, log_json()),
        json_member("dns"@, dns_json()),
        json_member("stats"@, json_object(seq![])),
        json_member("api"@, api_json()),
        json_member("policy"@, policy_json()),
        json_member("inbounds"@, inbounds@),
        json_member("outbounds"@, outbound_list@),
        json_member("routing"@, routing_json(strings_view(bypass_domains@), strings_view(bypass_subnets@))),
    ]);
    Ok(object(&m))
}

/// The baseline ranges always open the direct IP list, whatever the subnets.
pub proof fn lemma_direct_ips_keep_baseline(subnets: Seq<Seq<char>>)
    ensures
        direct_ips(subnets).len() >= 6,
        direct_ips(subnets).subrange(0, 6) == baseline_ips(),
    decreases subnets.len(),
{
    if subnets.len() == 0 {
        assert(baseline_ips().subrange(0, 6) =~= baseline_ips());
    } else {
        lemma_direct_ips_keep_baseline(subnets.drop_last());
        let prev = direct_ips(subnets.drop_last());
        let s = trimmed(subnets.last());
        if s.len() > 0 && !prev.contains(s) {
            assert(prev.push(s).subrange(0, 6) =~= prev.subrange(0, 6));
        }
    }
}

/// The configuration always has exactly three outbounds, proxy then direct
/// then block; its last routing rule lists the baseline ranges first; and
/// the rule for user domains is present exactly when there are domains.
pub proof fn lemma_config_shape(s: ServerConfig, domains: Seq<Seq<char>>, subnets: Seq<Seq<char>>)
    ensures
        outbounds(s).len() == 3,
        outbounds(s)[0] == proxy_outbound_json(s),
        outbounds(s)[1] == plain_outbound_json("direct"@, "freedom"@),
        outbounds(s)[2] == plain_outbound_json("block"@, "blackhole"@),
        routing_rules(domains, subnets).len() == if domains.len() > 0 { 3nat } else { 2nat },
        routing_rules(domains, subnets).last() == ip_rule_json(direct_ips(subnets)),
        direct_ips(subnets).subrange(0, 6) == baseline_ips(),
{
    lemma_direct_ips_keep_baseline(subnets);
}

} // verus!

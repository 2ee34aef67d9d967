//! Route-table inspection: which interfaces look like VPNs, which subnets
//! they carry, and which host routes protect their servers.

use vstd::prelude::*;
use crate::models::{DetectedVpn, opt_view, strings_view, clone_strings};
use crate::text::{
    concat, ends_with, find_char, find_char_from, has_char, has_prefix, has_suffix, is_digit, is_number_text,
    lemma_lex_irreflexive, lemma_lex_total, lemma_lex_transitive, lex_lt, matches_at, parse_digits, slice, starts_with,
    str_less,
};

verus! {

/// One entry of the OS route table.
#[derive(Clone, Debug)]
pub struct RouteEntry {
    pub dst: Option<String>,
    pub dev: Option<String>,
    pub gateway: Option<String>,
    pub protocol: Option<String>,
}

pub open spec fn is_vpn_name(n: Seq<char>) -> bool {
    starts_with(n, "tun"@) || starts_with(n, "tap"@) || starts_with(n, "wg"@) || starts_with(
        n,
        "ppp"@,
    ) || starts_with(n, "nordlynx"@) || starts_with(n, "tailscale"@)
}

/// The human-readable kind of VPN an interface name suggests.
pub open spec fn vpn_label(n: Seq<char>) -> Seq<char> {
    if starts_with(n, "tun"@) {
        "OpenVPN"@
    } else if starts_with(n, "tap"@) {
        "OpenVPN (TAP)"@
    } else if starts_with(n, "wg"@) {
        "WireGuard"@
    } else if starts_with(n, "ppp"@) {
        "PPP/L2TP"@
    } else if starts_with(n, "nordlynx"@) {
        "NordVPN"@
    } else if starts_with(n, "tailscale"@) {
        "Tailscale"@
    } else {
        "Unknown VPN"@
    }
}

pub open spec fn is_default_dst(d: Seq<char>) -> bool {
    d == "default"@ || d == "0.0.0.0/0"@ || d == "0.0.0.0/1"@ || d == "128.0.0.0/1"@
}

pub open spec fn is_octet(p: Seq<char>) -> bool {
    is_number_text(p, 255)
}

/// A dotted-quad IPv4 literal.
pub open spec fn is_ipv4_text(s: Seq<char>) -> bool {
    exists|a: int, b: int, c: int|
        0 <= a < b < c < s.len() && s[a] == '.' && s[b] == '.' && s[c] == '.' && is_octet(
            s.subrange(0, a),
        ) && is_octet(s.subrange(a + 1, b)) && is_octet(s.subrange(b + 1, c)) && is_octet(
            s.subrange(c + 1, s.len() as int),
        )
}

/// A destination naming a single host: a `/32` prefix or a bare IPv4 literal.
pub open spec fn is_host_dst(d: Seq<char>) -> bool {
    ends_with(d, "/32"@) || (!has_char(d, '/') && is_ipv4_text(d))
}

/// Whether `name` is a VPN-like device name.
pub fn is_vpn_interface(name: &str) -> (r: bool)
    ensures
        r == is_vpn_name(name@),
{
    has_prefix(name, "tun") || has_prefix(name, "tap") || has_prefix(name, "wg") || has_prefix(
        name,
        "ppp",
    ) || has_prefix(name, "nordlynx") || has_prefix(name, "tailscale")
}

/// The VPN kind label for an interface name.
pub fn classify_vpn_type(iface: &str) -> (r: String)
    ensures
        r@ == vpn_label(iface@),
{
    if has_prefix(iface, "tun") {
        String::from_str("OpenVPN")
    } else if has_prefix(iface, "tap") {
        String::from_str("OpenVPN (TAP)")
    } else if has_prefix(iface, "wg") {
        String::from_str("WireGuard")
    } else if has_prefix(iface, "ppp") {
        String::from_str("PPP/L2TP")
    } else if has_prefix(iface, "nordlynx") {
        String::from_str("NordVPN")
    } else if has_prefix(iface, "tailscale") {
        String::from_str("Tailscale")
    } else {
        String::from_str("Unknown VPN")
    }
}

/// Whether `a` and `b` hold the same characters.
pub fn str_eq(a: &str, b: &str) -> (r: bool)
    ensures
        r == (a@ == b@),
{
    if a.unicode_len() != b.unicode_len() {
        return false;
    }
    let r = matches_at(a, b, 0);
    assert(a@.subrange(0, a@.len() as int) =~= a@);
    r
}

/// Whether a destination is a default or catch-all route.
pub fn is_default_route(dst: &str) -> (r: bool)
    ensures
        r == is_default_dst(dst@),
{
    str_eq(dst, "default") || str_eq(dst, "0.0.0.0/0") || str_eq(dst, "0.0.0.0/1") || str_eq(
        dst,
        "128.0.0.0/1",
    )
}

proof fn lemma_octet_has_no_dot(p: Seq<char>, i: int)
    requires
        is_octet(p),
        0 <= i < p.len(),
    ensures
        p[i] != '.',
{
    assert(is_digit(p[i]));
}

/// Whether `s` is a dotted-quad IPv4 literal.
pub fn is_ipv4_literal(s: &str) -> (r: bool)
    ensures
        r == is_ipv4_text(s@),
{
    let n = s.unicode_len();
    let a = match find_char(s, '.') {
        Some(a) => a,
        None => {
            assert(!is_ipv4_text(s@));
            return false;
        },
    };
    let b = match find_char_from(s, '.', a + 1) {
        Some(b) => b,
        None => {
            assert(!is_ipv4_text(s@));
            return false;
        },
    };
    let c = match find_char_from(s, '.', b + 1) {
        Some(c) => c,
        None => {
            assert(!is_ipv4_text(s@));
            return false;
        },
    };
    let r = parse_digits(s, 0, a, 255).is_some() && parse_digits(s, a + 1, b, 255).is_some()
        && parse_digits(s, b + 1, c, 255).is_some() && parse_digits(s, c + 1, n, 255).is_some();
    proof {
        if is_ipv4_text(s@) {
            let (a2, b2, c2) = choose|a2: int, b2: int, c2: int|
                0 <= a2 < b2 < c2 < s@.len() && s@[a2] == '.' && s@[b2] == '.' && s@[c2] == '.'
                    && is_octet(s@.subrange(0, a2)) && is_octet(s@.subrange(a2 + 1, b2))
                    && is_octet(s@.subrange(b2 + 1, c2)) && is_octet(
                    s@.subrange(c2 + 1, s@.len() as int),
                );
            if a < a2 {
                lemma_octet_has_no_dot(s@.subrange(0, a2), a as int);
            }
            assert(a == a2);
            if b < b2 {
                lemma_octet_has_no_dot(s@.subrange(a2 + 1, b2), b - a2 - 1);
            }
            assert(b == b2);
            if c < c2 {
                lemma_octet_has_no_dot(s@.subrange(b2 + 1, c2), c - b2 - 1);
            }
            assert(c == c2);
        }
    }
    r
}

/// Whether a destination names a single host.
pub fn is_host_route(dst: &str) -> (r: bool)
    ensures
        r == is_host_dst(dst@),
{
    if has_suffix(dst, "/32") {
        return true;
    }
    match find_char(dst, '/') {
        Some(_) => false,
        None => is_ipv4_literal(dst),
    }
}

/// `d` with every trailing `/32` removed.
pub open spec fn strip_host_suffix(d: Seq<char>) -> Seq<char>
    decreases d.len(),
{
    if ends_with(d, "/32"@) && d.len() >= 3 {
        strip_host_suffix(d.subrange(0, d.len() - 3))
    } else {
        d
    }
}

/// The address of a host route, without its `/32` suffix.
pub fn host_address(dst: &str) -> (r: String)
    ensures
        r@ == strip_host_suffix(dst@),
{
    proof {
        reveal_strlit("/32");
    }
    let mut end = dst.unicode_len();
    let mut cur = slice(dst, 0, end);
    assert(dst@.subrange(0, end as int) =~= dst@);
    while has_suffix(cur.as_str(), "/32")
        invariant
            end == cur@.len(),
            strip_host_suffix(cur@) == strip_host_suffix(dst@),
        decreases end,
    {
        proof {
            reveal_strlit("/32");
        }
        assert(cur@.subrange(0, end - 3) =~= cur@.subrange(0, cur@.len() - 3));
        end = end - 3;
        cur = slice(cur.as_str(), 0, end);
    }
    cur
}

pub open spec fn route_dst(r: RouteEntry) -> Seq<char> {
    r.dst.unwrap()@
}

pub open spec fn route_dev(r: RouteEntry) -> Seq<char> {
    r.dev.unwrap()@
}

/// A route through a VPN device that is not a catch-all.
pub open spec fn vpn_route(r: RouteEntry) -> bool {
    r.dst is Some && r.dev is Some && is_vpn_name(route_dev(r)) && !is_default_dst(route_dst(r))
}

/// A static host route through another device, with a gateway: the likely
/// route to a VPN server.
pub open spec fn endpoint_route(r: RouteEntry) -> bool {
    &&& r.dst is Some
    &&& r.dev is Some
    &&& !is_vpn_name(route_dev(r))
    &&& is_host_dst(route_dst(r))
    &&& r.protocol is Some
    &&& r.protocol.unwrap()@ == "static"@
    &&& r.gateway is Some
}

/// The subnets routed through device `d`, in route-table order.
pub open spec fn subnets_of(routes: Seq<RouteEntry>, d: Seq<char>) -> Seq<Seq<char>>
    decreases routes.len(),
{
    if routes.len() == 0 {
        seq![]
    } else {
        let r = routes.last();
        let rest = subnets_of(routes.drop_last(), d);
        if vpn_route(r) && route_dev(r) == d {
            rest.push(route_dst(r))
        } else {
            rest
        }
    }
}

/// The candidate server endpoints, in route-table order.
pub open spec fn endpoints_of(routes: Seq<RouteEntry>) -> Seq<Seq<char>>
    decreases routes.len(),
{
    if routes.len() == 0 {
        seq![]
    } else {
        let r = routes.last();
        let rest = endpoints_of(routes.drop_last());
        if endpoint_route(r) {
            rest.push(strip_host_suffix(route_dst(r)))
        } else {
            rest
        }
    }
}

/// The VPN devices that carry at least one non-default route.
pub open spec fn vpn_devices(routes: Seq<RouteEntry>) -> Set<Seq<char>> {
    Set::new(|d: Seq<char>| exists|j: int| 0 <= j < routes.len() && vpn_route(routes[j]) && route_dev(routes[j]) == d)
}

pub open spec fn sorted_by_interface(v: Seq<DetectedVpn>) -> bool {
    forall|i: int, j: int| 0 <= i < j < v.len() ==> lex_lt(v[i].interface@, v[j].interface@)
}

pub open spec fn strictly_sorted(v: Seq<Seq<char>>) -> bool {
    forall|i: int, j: int| 0 <= i < j < v.len() ==> lex_lt(v[i], v[j])
}

/// What the route detector reports for a route table.
pub open spec fn detects(routes: Seq<RouteEntry>, r: Seq<DetectedVpn>) -> bool {
    &&& sorted_by_interface(r)
    &&& forall|d: Seq<char>| vpn_devices(routes).contains(d) <==> exists|k: int| 0 <= k < r.len() && r[k].interface@ == d
    &&& forall|k: int| 0 <= k < r.len() ==> {
        &&& is_vpn_name(#[trigger] r[k].interface@)
        &&& r[k].vpn_type@ == vpn_label(r[k].interface@)
        &&& strings_view(r[k].subnets@) == subnets_of(routes, r[k].interface@)
        &&& (k > 0 ==> r[k].server_ip is None)
    }
    &&& r.len() > 0 ==> opt_view(r[0].server_ip) == if endpoints_of(routes).len() > 0 {
        Some(endpoints_of(routes)[0])
    } else {
        None
    }
}

proof fn lemma_subnets_absent(routes: Seq<RouteEntry>, d: Seq<char>)
    requires
        !vpn_devices(routes).contains(d),
    ensures
        subnets_of(routes, d) == Seq::<Seq<char>>::empty(),
    decreases routes.len(),
{
    if routes.len() > 0 {
        let prefix = routes.drop_last();
        assert(!vpn_devices(prefix).contains(d)) by {
            if vpn_devices(prefix).contains(d) {
                let j = choose|j: int| 0 <= j < prefix.len() && vpn_route(prefix[j]) && route_dev(prefix[j]) == d;
                assert(routes[j] == prefix[j]);
            }
        }
        lemma_subnets_absent(prefix, d);
        assert(!(vpn_route(routes.last()) && route_dev(routes.last()) == d)) by {
            if vpn_route(routes.last()) && route_dev(routes.last()) == d {
                assert(vpn_devices(routes).contains(d));
            }
        }
    }
}

proof fn lemma_devices_step(routes: Seq<RouteEntry>, i: int)
    requires
        0 <= i < routes.len(),
    ensures
        vpn_devices(routes.subrange(0, i + 1)) == if vpn_route(routes[i]) {
            vpn_devices(routes.subrange(0, i)).insert(route_dev(routes[i]))
        } else {
            vpn_devices(routes.subrange(0, i))
        },
{
    let prev = routes.subrange(0, i);
    let next = routes.subrange(0, i + 1);
    let target = if vpn_route(routes[i]) {
        vpn_devices(prev).insert(route_dev(routes[i]))
    } else {
        vpn_devices(prev)
    };
    assert forall|d: Seq<char>| vpn_devices(next).contains(d) <==> target.contains(d) by {
        if vpn_devices(next).contains(d) {
            let j = choose|j: int| 0 <= j < next.len() && vpn_route(next[j]) && route_dev(next[j]) == d;
            if j < i {
                assert(prev[j] == next[j]);
            }
        }
        if vpn_devices(prev).contains(d) {
            let j = choose|j: int| 0 <= j < prev.len() && vpn_route(prev[j]) && route_dev(prev[j]) == d;
            assert(next[j] == prev[j]);
        }
        if vpn_route(routes[i]) && d == route_dev(routes[i]) {
            assert(next[i] == routes[i]);
        }
    }
    assert(vpn_devices(next) =~= target);
}

/// Where `name` stands in a strictly sorted list: its index if present,
/// else the index at which inserting it keeps the list sorted.
pub fn locate(v: &Vec<String>, name: &str) -> (r: (usize, bool))
    requires
        strictly_sorted(strings_view(v@)),
    ensures
        r.0 <= v.len(),
        r.1 ==> r.0 < v.len() && v@[r.0 as int]@ == name@,
        !r.1 ==> forall|j: int| 0 <= j < v.len() ==> v@[j]@ != name@,
        !r.1 ==> forall|j: int| 0 <= j < r.0 ==> lex_lt(#[trigger] v@[j]@, name@),
        !r.1 ==> forall|j: int| r.0 <= j < v.len() ==> lex_lt(name@, #[trigger] v@[j]@),
{
    let mut k: usize = 0;
    while k < v.len()
        invariant
            k <= v.len(),
            strictly_sorted(strings_view(v@)),
            forall|j: int| 0 <= j < k ==> lex_lt(#[trigger] v@[j]@, name@),
        decreases v.len() - k,
    {
        if str_eq(v[k].as_str(), name) {
            return (k, true);
        }
        if str_less(name, v[k].as_str()) {
            proof {
                assert forall|j: int| 0 <= j < v.len() implies v@[j]@ != name@ by {
                    if j < k {
                        lemma_lex_irreflexive(name@);
                    } else if j > k {
                        assert(lex_lt(strings_view(v@)[k as int], strings_view(v@)[j]));
                        lemma_lex_transitive(name@, v@[k as int]@, v@[j]@);
                        lemma_lex_irreflexive(name@);
                    }
                }
                assert forall|j: int| k <= j < v.len() implies lex_lt(name@, #[trigger] v@[j]@) by {
                    if j > k {
                        assert(lex_lt(strings_view(v@)[k as int], strings_view(v@)[j]));
                        lemma_lex_transitive(name@, v@[k as int]@, v@[j]@);
                    }
                }
            }
            return (k, false);
        }
        proof {
            lemma_lex_total(v@[k as int]@, name@);
        }
        k += 1;
    }
    proof {
        assert forall|j: int| 0 <= j < v.len() implies v@[j]@ != name@ by {
            lemma_lex_irreflexive(name@);
        }
    }
    (k, false)
}

/// Inserting at the place `locate` found keeps a list strictly sorted.
proof fn lemma_insert_sorted(v: Seq<String>, k: int, x: String)
    requires
        0 <= k <= v.len(),
        strictly_sorted(strings_view(v)),
        forall|j: int| 0 <= j < k ==> lex_lt(#[trigger] v[j]@, x@),
        forall|j: int| k <= j < v.len() ==> lex_lt(x@, #[trigger] v[j]@),
    ensures
        strictly_sorted(strings_view(v.insert(k, x))),
{
    let w = v.insert(k, x);
    let sv = strings_view(v);
    let sw = strings_view(w);
    assert forall|a: int, b: int| 0 <= a < b < w.len() implies lex_lt(sw[a], sw[b]) by {
        assert(sw[a] == w[a]@ && sw[b] == w[b]@);
        if b < k {
            assert(w[a] == v[a] && w[b] == v[b]);
            assert(lex_lt(sv[a], sv[b]));
        } else if b == k {
            assert(w[a] == v[a] && w[b] == x);
        } else if a == k {
            assert(w[a] == x && w[b] == v[b - 1]);
        } else if a < k {
            assert(w[a] == v[a] && w[b] == v[b - 1]);
            assert(lex_lt(sv[a], sv[b - 1]));
        } else {
            assert(w[a] == v[a - 1] && w[b] == v[b - 1]);
            assert(lex_lt(sv[a - 1], sv[b - 1]));
        }
    }
}

/// Groups the VPN routes of a route table by device, sorted by device name,
/// and attaches the first candidate server endpoint to the first device.
/// Attaching the endpoint is a best-effort guess: with several VPNs the
/// table does not say which one the host route protects.
pub fn detect_vpns(routes: &Vec<RouteEntry>) -> (r: Vec<DetectedVpn>)
    ensures
        detects(routes@, r@),
{
    let mut ifaces: Vec<String> = Vec::new();
    let mut lists: Vec<Vec<String>> = Vec::new();
    let mut endpoints: Vec<String> = Vec::new();
    let mut i: usize = 0;
    while i < routes.len()
        invariant
            i <= routes.len(),
            ifaces.len() == lists.len(),
            strictly_sorted(strings_view(ifaces@)),
            forall|d: Seq<char>| vpn_devices(routes@.subrange(0, i as int)).contains(d) <==> exists|k: int|
                0 <= k < ifaces.len() && ifaces@[k]@ == d,
            forall|k: int| 0 <= k < ifaces.len() ==> strings_view(#[trigger] lists@[k]@) == subnets_of(
                routes@.subrange(0, i as int),
                ifaces@[k]@,
            ),
            strings_view(endpoints@) == endpoints_of(routes@.subrange(0, i as int)),
        decreases routes.len() - i,
    {
        let ghost prev = routes@.subrange(0, i as int);
        let ghost next = routes@.subrange(0, i + 1);
        proof {
            assert(next.drop_last() =~= prev);
            assert(next.last() == routes@[i as int]);
            lemma_devices_step(routes@, i as int);
        }
        let route = &routes[i];
        let ghost old_ifaces = ifaces@;
        let ghost old_lists = lists@;
        if let (Some(dst), Some(dev)) = (&route.dst, &route.dev) {
            if is_vpn_interface(dev.as_str()) {
                if !is_default_route(dst.as_str()) {
                    let (k, found) = locate(&ifaces, dev.as_str());
                    if found {
                        let mut l = lists.remove(k);
                        l.push(dst.clone());
                        lists.insert(k, l);
                        proof {
                            assert forall|k2: int| 0 <= k2 < ifaces.len() implies strings_view(#[trigger] lists@[k2]@)
                                == subnets_of(next, ifaces@[k2]@) by {
                                let sv = strings_view(ifaces@);
                                if k2 == k {
                                    assert(strings_view(lists@[k2]@) =~= strings_view(old_lists[k2]@).push(dst@));
                                } else {
                                    assert(lists@[k2] == old_lists[k2]);
                                    if k2 < k {
                                        assert(lex_lt(sv[k2], sv[k as int]));
                                    } else {
                                        assert(lex_lt(sv[k as int], sv[k2]));
                                    }
                                    lemma_lex_irreflexive(dev@);
                                    assert(ifaces@[k2]@ != dev@);
                                }
                            }
                            assert forall|d: Seq<char>| vpn_devices(next).contains(d) <==> exists|k2: int|
                                0 <= k2 < ifaces.len() && ifaces@[k2]@ == d by {
                                if d == dev@ {
                                    assert(ifaces@[k as int]@ == d);
                                }
                            }
                        }
                    } else {
                        proof {
                            assert(!vpn_devices(prev).contains(dev@));
                            lemma_subnets_absent(prev, dev@);
                            lemma_insert_sorted(ifaces@, k as int, *dev);
                        }
                        ifaces.insert(k, dev.clone());
                        let mut l: Vec<String> = Vec::new();
                        l.push(dst.clone());
                        lists.insert(k, l);
                        proof {
                            assert(ifaces@ == old_ifaces.insert(k as int, *dev) || strings_view(ifaces@) == strings_view(old_ifaces.insert(k as int, *dev)));
                            assert forall|d: Seq<char>| vpn_devices(next).contains(d) <==> exists|k2: int|
                                0 <= k2 < ifaces.len() && ifaces@[k2]@ == d by {
                                if d == dev@ {
                                    assert(ifaces@[k as int]@ == d);
                                } else if vpn_devices(prev).contains(d) {
                                    let k3 = choose|k3: int| 0 <= k3 < old_ifaces.len() && old_ifaces[k3]@ == d;
                                    if k3 < k {
                                        assert(ifaces@[k3]@ == d);
                                    } else {
                                        assert(ifaces@[k3 + 1]@ == d);
                                    }
                                }
                                if exists|k2: int| 0 <= k2 < ifaces.len() && ifaces@[k2]@ == d {
                                    let k2 = choose|k2: int| 0 <= k2 < ifaces.len() && ifaces@[k2]@ == d;
                                    if k2 < k {
                                        assert(old_ifaces[k2]@ == d);
                                    } else if k2 > k {
                                        assert(old_ifaces[k2 - 1]@ == d);
                                    }
                                }
                            }
                            assert forall|k2: int| 0 <= k2 < ifaces.len() implies strings_view(#[trigger] lists@[k2]@)
                                == subnets_of(next, ifaces@[k2]@) by {
                                if k2 == k {
                                    assert(strings_view(lists@[k2]@) =~= seq![dst@]);
                                    assert(Seq::<Seq<char>>::empty().push(dst@) =~= seq![dst@]);
                                } else {
                                    let k3 = if k2 < k { k2 } else { k2 - 1 };
                                    assert(lists@[k2] == old_lists[k3]);
                                    assert(ifaces@[k2] == old_ifaces[k3]);
                                }
                            }
                        }
                    }
                }
            } else if is_host_route(dst.as_str()) && is_static_with_gateway(route) {
                endpoints.push(host_address(dst.as_str()));
                proof {
                    assert(strings_view(endpoints@) =~= endpoints_of(prev).push(strip_host_suffix(dst@)));
                }
            }
        }
        i += 1;
    }
    assert(routes@.subrange(0, routes@.len() as int) =~= routes@);
    let mut result: Vec<DetectedVpn> = Vec::new();
    let mut k: usize = 0;
    while k < ifaces.len()
        invariant
            k <= ifaces.len() == lists.len(),
            result.len() == k,
            forall|j: int| 0 <= j < k ==> {
                &&& (#[trigger] result@[j]).interface@ == ifaces@[j]@
                &&& result@[j].vpn_type@ == vpn_label(ifaces@[j]@)
                &&& strings_view(result@[j].subnets@) == strings_view(lists@[j]@)
                &&& result@[j].server_ip is None
            },
        decreases ifaces.len() - k,
    {
        let name = ifaces[k].clone();
        let kind = classify_vpn_type(name.as_str());
        let subnets = clone_strings(lists[k].as_slice());
        result.push(DetectedVpn { interface: name, vpn_type: kind, subnets, server_ip: None });
        k += 1;
    }
    let ghost before = result@;
    if result.len() > 0 && endpoints.len() > 0 {
        let first = result.remove(0);
        let ip = endpoints[0].clone();
        result.insert(0, DetectedVpn { server_ip: Some(ip), ..first });
        proof {
            assert forall|j: int| 0 < j < result.len() implies result@[j] == before[j] by {}
        }
    }
    proof {
        assert forall|k2: int| 0 <= k2 < result.len() implies is_vpn_name(#[trigger] result@[k2].interface@) by {
            let d = result@[k2].interface@;
            assert(ifaces@[k2]@ == d);
            assert(vpn_devices(routes@).contains(d));
            let j = choose|j: int| 0 <= j < routes@.len() && vpn_route(routes@[j]) && route_dev(routes@[j]) == d;
        }
        assert forall|a: int, b: int| 0 <= a < b < result.len() implies lex_lt(result@[a].interface@, result@[b].interface@) by {
            assert(lex_lt(strings_view(ifaces@)[a], strings_view(ifaces@)[b]));
        }
        assert forall|d: Seq<char>| vpn_devices(routes@).contains(d) <==> exists|k2: int| 0 <= k2 < result.len() && result@[k2].interface@ == d by {
            if vpn_devices(routes@).contains(d) {
                let k3 = choose|k3: int| 0 <= k3 < ifaces.len() && ifaces@[k3]@ == d;
                assert(result@[k3].interface@ == d);
            }
        }
    }
    result
}

/// Whether a route is marked static and has a gateway.
fn is_static_with_gateway(route: &RouteEntry) -> (r: bool)
    ensures
        r == (route.protocol is Some && route.protocol.unwrap()@ == "static"@ && route.gateway is Some),
{
    match (&route.protocol, &route.gateway) {
        (Some(p), Some(_)) => str_eq(p.as_str(), "static"),
        _ => false,
    }
}

/// A server endpoint as a bypass entry: a `/32` route unless already in CIDR form.
pub open spec fn host_form(ip: Seq<char>) -> Seq<char> {
    if has_char(ip, '/') {
        ip
    } else {
        ip + "/32"@
    }
}

/// What one detected VPN contributes to the bypass list.
pub open spec fn vpn_items(v: DetectedVpn) -> Set<Seq<char>> {
    Set::new(|s: Seq<char>| strings_view(v.subnets@).contains(s) || (v.server_ip is Some && host_form(v.server_ip.unwrap()@) == s))
}

/// Everything the detected VPNs ask to bypass.
pub open spec fn bypass_items(vpns: Seq<DetectedVpn>) -> Set<Seq<char>> {
    Set::new(|s: Seq<char>| exists|i: int| 0 <= i < vpns.len() && vpn_items(vpns[i]).contains(s))
}

/// `r` lists the bypass items of `vpns` in strictly increasing order, once each.
pub open spec fn is_bypass_list(vpns: Seq<DetectedVpn>, r: Seq<Seq<char>>) -> bool {
    &&& strictly_sorted(r)
    &&& forall|s: Seq<char>| r.contains(s) <==> bypass_items(vpns).contains(s)
}

/// Adds `x` to a strictly sorted list unless it is already there.
pub fn insert_unique(v: &mut Vec<String>, x: String)
    requires
        strictly_sorted(strings_view(old(v)@)),
    ensures
        strictly_sorted(strings_view(final(v)@)),
        forall|s: Seq<char>| strings_view(final(v)@).contains(s) <==> (strings_view(old(v)@).contains(s) || s == x@),
{
    let (k, found) = locate(v, x.as_str());
    let ghost before = v@;
    if !found {
        proof {
            lemma_insert_sorted(v@, k as int, x);
        }
        v.insert(k, x);
        proof {
            let sb = strings_view(before);
            let sv = strings_view(v@);
            assert forall|s: Seq<char>| sv.contains(s) <==> (sb.contains(s) || s == x@) by {
                if sv.contains(s) {
                    let j = choose|j: int| 0 <= j < sv.len() && sv[j] == s;
                    if j < k {
                        assert(sb[j] == s);
                    } else if j > k {
                        assert(sb[j - 1] == s);
                    }
                }
                if sb.contains(s) {
                    let j = choose|j: int| 0 <= j < sb.len() && sb[j] == s;
                    if j < k {
                        assert(sv[j] == s);
                    } else {
                        assert(sv[j + 1] == s);
                    }
                }
                if s == x@ {
                    assert(sv[k as int] == s);
                }
            }
        }
    } else {
        proof {
            assert(strings_view(v@)[k as int] == x@);
        }
    }
}

/// Flattens every detected subnet and server endpoint into one sorted list
/// without repetitions.
pub fn collect_bypass_subnets(vpns: &Vec<DetectedVpn>) -> (r: Vec<String>)
    ensures
        is_bypass_list(vpns@, strings_view(r@)),
{
    let mut result: Vec<String> = Vec::new();
    let mut i: usize = 0;
    while i < vpns.len()
        invariant
            i <= vpns.len(),
            strictly_sorted(strings_view(result@)),
            forall|s: Seq<char>| strings_view(result@).contains(s) <==> bypass_items(vpns@.subrange(0, i as int)).contains(s),
        decreases vpns.len() - i,
    {
        let vpn = &vpns[i];
        let ghost base = bypass_items(vpns@.subrange(0, i as int));
        let mut j: usize = 0;
        while j < vpn.subnets.len()
            invariant
                i < vpns.len(),
                *vpn == vpns@[i as int],
                j <= vpn.subnets.len(),
                strictly_sorted(strings_view(result@)),
                forall|s: Seq<char>| strings_view(result@).contains(s) <==> (base.contains(s) || strings_view(vpn.subnets@.subrange(0, j as int)).contains(s)),
            decreases vpn.subnets.len() - j,
        {
            let ghost old_result = strings_view(result@);
            insert_unique(&mut result, vpn.subnets[j].clone());
            proof {
                let pre = strings_view(vpn.subnets@.subrange(0, j as int));
                let post = strings_view(vpn.subnets@.subrange(0, j + 1));
                assert(post =~= pre.push(vpn.subnets@[j as int]@));
                assert forall|s: Seq<char>| post.contains(s) <==> (pre.contains(s) || s == vpn.subnets@[j as int]@) by {
                    if post.contains(s) {
                        let m = choose|m: int| 0 <= m < post.len() && post[m] == s;
                        if m < j {
                            assert(pre[m] == s);
                        }
                    }
                    if pre.contains(s) {
                        let m = choose|m: int| 0 <= m < pre.len() && pre[m] == s;
                        assert(post[m] == s);
                    }
                    if s == vpn.subnets@[j as int]@ {
                        assert(post[j as int] == s);
                    }
                }
                assert forall|s: Seq<char>| strings_view(result@).contains(s) <==> (base.contains(s) || post.contains(s)) by {
                    assert(old_result.contains(s) <==> (base.contains(s) || pre.contains(s)));
                }
            }
            j += 1;
        }
        assert(vpn.subnets@.subrange(0, vpn.subnets@.len() as int) =~= vpn.subnets@);
        match &vpn.server_ip {
            Some(ip) => {
                let entry = match find_char(ip.as_str(), '/') {
                    Some(_) => ip.clone(),
                    None => concat(ip.as_str(), "/32"),
                };
                insert_unique(&mut result, entry);
            },
            None => {},
        }
        proof {
            let next = vpns@.subrange(0, i + 1);
            let prev = vpns@.subrange(0, i as int);
            assert forall|s: Seq<char>| strings_view(result@).contains(s) <==> bypass_items(next).contains(s) by {
                if bypass_items(next).contains(s) {
                    let m = choose|m: int| 0 <= m < next.len() && vpn_items(next[m]).contains(s);
                    if m < i {
                        assert(prev[m] == next[m]);
                        assert(base.contains(s));
                    } else {
                        assert(next[m] == *vpn);
                    }
                }
                if base.contains(s) {
                    let m = choose|m: int| 0 <= m < prev.len() && vpn_items(prev[m]).contains(s);
                    assert(next[m] == prev[m]);
                }
                if vpn_items(*vpn).contains(s) {
                    assert(next[i as int] == *vpn);
                }
            }
        }
        i += 1;
    }
    assert(vpns@.subrange(0, vpns@.len() as int) =~= vpns@);
    result
}

proof fn lemma_subnets_not_default(routes: Seq<RouteEntry>, d: Seq<char>)
    ensures
        forall|m: int| 0 <= m < subnets_of(routes, d).len() ==> !is_default_dst(#[trigger] subnets_of(routes, d)[m]),
    decreases routes.len(),
{
    if routes.len() > 0 {
        let rest = subnets_of(routes.drop_last(), d);
        lemma_subnets_not_default(routes.drop_last(), d);
        let all = subnets_of(routes, d);
        assert forall|m: int| 0 <= m < all.len() implies !is_default_dst(#[trigger] all[m]) by {
            if m < rest.len() {
                assert(all[m] == rest[m]);
            }
        }
    }
}

/// No default or catch-all destination ever appears among a detected VPN's
/// subnets.
pub proof fn lemma_no_default_subnets(routes: Seq<RouteEntry>, r: Seq<DetectedVpn>)
    requires
        detects(routes, r),
    ensures
        forall|k: int, m: int| 0 <= k < r.len() && 0 <= m < r[k].subnets@.len() ==> !is_default_dst(
            #[trigger] r[k].subnets@[m]@,
        ),
{
    assert forall|k: int, m: int| 0 <= k < r.len() && 0 <= m < r[k].subnets@.len() implies !is_default_dst(
        #[trigger] r[k].subnets@[m]@,
    ) by {
        lemma_subnets_not_default(routes, r[k].interface@);
        assert(strings_view(r[k].subnets@)[m] == r[k].subnets@[m]@);
    }
}

/// Two strictly sorted lists with the same elements are the same list.
pub proof fn lemma_sorted_unique(x: Seq<Seq<char>>, y: Seq<Seq<char>>)
    requires
        strictly_sorted(x),
        strictly_sorted(y),
        forall|s: Seq<char>| x.contains(s) <==> y.contains(s),
    ensures
        x == y,
    decreases x.len(),
{
    if x.len() == 0 {
        if y.len() > 0 {
            assert(y.contains(y[0]));
        }
        assert(x =~= y);
    } else {
        assert(x.contains(x[0]));
        let j = choose|j: int| 0 <= j < y.len() && y[j] == x[0];
        assert(y.contains(y[0]));
        let i = choose|i: int| 0 <= i < x.len() && x[i] == y[0];
        if j > 0 {
            assert(lex_lt(y[0], y[j]));
            if i > 0 {
                assert(lex_lt(x[0], x[i]));
                lemma_lex_total(x[0], x[i]);
            } else {
                lemma_lex_irreflexive(x[0]);
            }
        }
        assert(x[0] == y[0]);
        let xs = x.drop_first();
        let ys = y.drop_first();
        assert forall|s: Seq<char>| xs.contains(s) <==> ys.contains(s) by {
            if xs.contains(s) {
                let m = choose|m: int| 0 <= m < xs.len() && xs[m] == s;
                assert(x[m + 1] == s);
                assert(lex_lt(x[0], x[m + 1]));
                lemma_lex_irreflexive(s);
                assert(y.contains(s));
                let n = choose|n: int| 0 <= n < y.len() && y[n] == s;
                assert(n != 0);
                assert(ys[n - 1] == s);
            }
            if ys.contains(s) {
                let m = choose|m: int| 0 <= m < ys.len() && ys[m] == s;
                assert(y[m + 1] == s);
                assert(lex_lt(y[0], y[m + 1]));
                lemma_lex_irreflexive(s);
                assert(x.contains(s));
                let n = choose|n: int| 0 <= n < x.len() && x[n] == s;
                assert(n != 0);
                assert(xs[n - 1] == s);
            }
        }
        lemma_sorted_unique(xs, ys);
        assert(x =~= seq![x[0]] + xs);
        assert(y =~= seq![y[0]] + ys);
    }
}

/// The bypass list does not depend on the order, or the repetition, of the
/// detected VPNs: inputs holding the same records give the same list.
pub proof fn lemma_bypass_order_independent(
    a: Seq<DetectedVpn>,
    b: Seq<DetectedVpn>,
    ra: Seq<Seq<char>>,
    rb: Seq<Seq<char>>,
)
    requires
        a.to_set() == b.to_set(),
        is_bypass_list(a, ra),
        is_bypass_list(b, rb),
    ensures
        ra == rb,
        ra.no_duplicates(),
{
    assert forall|s: Seq<char>| bypass_items(a).contains(s) <==> bypass_items(b).contains(s) by {
        if bypass_items(a).contains(s) {
            let i = choose|i: int| 0 <= i < a.len() && vpn_items(a[i]).contains(s);
            assert(a.to_set().contains(a[i]));
            assert(b.to_set().contains(a[i]));
            let j = choose|j: int| 0 <= j < b.len() && b[j] == a[i];
        }
        if bypass_items(b).contains(s) {
            let i = choose|i: int| 0 <= i < b.len() && vpn_items(b[i]).contains(s);
            assert(b.to_set().contains(b[i]));
            assert(a.to_set().contains(b[i]));
            let j = choose|j: int| 0 <= j < a.len() && a[j] == b[i];
        }
    }
    lemma_sorted_unique(ra, rb);
    assert forall|i: int, j: int| 0 <= i < ra.len() && 0 <= j < ra.len() && i != j implies ra[i] != ra[j] by {
        if i < j {
            assert(lex_lt(ra[i], ra[j]));
        } else {
            assert(lex_lt(ra[j], ra[i]));
        }
        lemma_lex_irreflexive(ra[i]);
    }
}

/// Reordering the detected VPNs leaves the bypass list as it is.
pub proof fn lemma_bypass_permutation_invariant(
    a: Seq<DetectedVpn>,
    b: Seq<DetectedVpn>,
    ra: Seq<Seq<char>>,
    rb: Seq<Seq<char>>,
)
    requires
        a.to_multiset() == b.to_multiset(),
        is_bypass_list(a, ra),
        is_bypass_list(b, rb),
    ensures
        ra == rb,
{
    a.to_multiset_ensures();
    b.to_multiset_ensures();
    assert forall|v: DetectedVpn| a.to_set().contains(v) <==> b.to_set().contains(v) by {
        assert(a.contains(v) <==> a.to_multiset().count(v) > 0);
        assert(b.contains(v) <==> b.to_multiset().count(v) > 0);
    }
    assert(a.to_set() =~= b.to_set());
    lemma_bypass_order_independent(a, b, ra, rb);
}

} // verus!

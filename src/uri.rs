//! Share links: a server profile as a single `vless://` URI and back.

use vstd::prelude::*;
use vstd::utf8::encode_utf8;
use crate::models::{AppError, RealitySettings, ServerConfig, generate_id, is_uuid_text};
use crate::network::str_eq;
use crate::text::{
    dec_text, decimal, digits_value, first_index, from_utf8_lossy, has_char, index_of,
    is_number_text, is_unsigned_text, last_index, unsigned_digits, parse_unsigned, last_index_of, lossy_text, parse_digits, push_char, slice,
    starts_with, has_prefix, trim, trimmed, find_char, digit_char, is_visible_ascii,
};

verus! {

pub open spec fn is_unreserved(b: u8) -> bool {
    (65 <= b && b <= 90) || (97 <= b && b <= 122) || (48 <= b && b <= 57) || b == 45 || b == 95
        || b == 46 || b == 126
}

pub open spec fn hex_upper(n: nat) -> char {
    if n < 10 { digit_char(n) }
    else if n == 10 { 'A' }
    else if n == 11 { 'B' }
    else if n == 12 { 'C' }
    else if n == 13 { 'D' }
    else if n == 14 { 'E' }
    else { 'F' }
}

/// One byte of percent-encoding: unreserved bytes stand for themselves,
/// any other becomes `%` and two upper-case hex digits.
pub open spec fn encode_byte(b: u8) -> Seq<char> {
    if is_unreserved(b) {
        seq![b as char]
    } else {
        seq!['%', hex_upper((b / 16) as nat), hex_upper((b % 16) as nat)]
    }
}

pub open spec fn url_encoded(b: Seq<u8>) -> Seq<char>
    decreases b.len(),
{
    if b.len() == 0 {
        seq![]
    } else {
        encode_byte(b[0]) + url_encoded(b.drop_first())
    }
}

/// The percent-encoding of a string's UTF-8 bytes.
pub open spec fn percent_encode(s: Seq<char>) -> Seq<char> {
    url_encoded(encode_utf8(s))
}

pub open spec fn is_hex_byte(b: u8) -> bool {
    (48 <= b && b <= 57) || (97 <= b && b <= 102) || (65 <= b && b <= 70)
}

pub open spec fn hex_value(b: u8) -> u8 {
    if 48 <= b && b <= 57 {
        (b - 48) as u8
    } else if 97 <= b && b <= 102 {
        (b - 87) as u8
    } else if 65 <= b && b <= 70 {
        (b - 55) as u8
    } else {
        0
    }
}

/// Percent-decoding of bytes: `%` with two hex digits is the byte they
/// denote, `+` is a space, anything else stands for itself.
pub open spec fn url_decoded_bytes(b: Seq<u8>) -> Seq<u8>
    decreases b.len(),
{
    if b.len() == 0 {
        seq![]
    } else if b[0] == 37 && b.len() >= 3 && is_hex_byte(b[1]) && is_hex_byte(b[2]) {
        seq![(hex_value(b[1]) * 16 + hex_value(b[2])) as u8] + url_decoded_bytes(b.subrange(3, b.len() as int))
    } else if b[0] == 43 {
        seq![32u8] + url_decoded_bytes(b.drop_first())
    } else {
        seq![b[0]] + url_decoded_bytes(b.drop_first())
    }
}

/// The text a percent-encoded string decodes to.
pub open spec fn percent_decode(s: Seq<char>) -> Seq<char> {
    lossy_text(url_decoded_bytes(encode_utf8(s)))
}

fn hex_char(n: u8) -> (r: char)
    requires
        n < 16,
    ensures
        r == hex_upper(n as nat),
{
    if n == 0 { '0' }
    else if n == 1 { '1' }
    else if n == 2 { '2' }
    else if n == 3 { '3' }
    else if n == 4 { '4' }
    else if n == 5 { '5' }
    else if n == 6 { '6' }
    else if n == 7 { '7' }
    else if n == 8 { '8' }
    else if n == 9 { '9' }
    else if n == 10 { 'A' }
    else if n == 11 { 'B' }
    else if n == 12 { 'C' }
    else if n == 13 { 'D' }
    else if n == 14 { 'E' }
    else { 'F' }
}

/// Percent-encodes every byte of `s` outside the unreserved set.
pub fn url_encode(s: &str) -> (r: String)
    ensures
        r@ == percent_encode(s@),
{
    let bytes = s.as_bytes();
    let ghost all = bytes@;
    let n = bytes.len();
    let mut r = String::new();
    let mut i: usize = 0;
    assert(all.subrange(0, n as int) =~= all);
    while i < n
        invariant
            n == bytes@.len(),
            all == bytes@,
            all == encode_utf8(s@),
            i <= n,
            r@ + url_encoded(all.subrange(i as int, n as int)) == url_encoded(all),
        decreases n - i,
    {
        let b = bytes[i];
        let ghost before = r@;
        assert(all.subrange(i as int, n as int).drop_first() =~= all.subrange(i + 1, n as int));
        assert(all.subrange(i as int, n as int)[0] == b);
        if (b >= 65 && b <= 90) || (b >= 97 && b <= 122) || (b >= 48 && b <= 57) || b == 45 || b
            == 95 || b == 46 || b == 126 {
            push_char(&mut r, b as char);
        } else {
            push_char(&mut r, '%');
            push_char(&mut r, hex_char(b / 16));
            push_char(&mut r, hex_char(b % 16));
        }
        assert(r@ =~= before + encode_byte(b));
        assert(r@ + url_encoded(all.subrange(i + 1, n as int)) =~= before + url_encoded(all.subrange(i as int, n as int)));
        i += 1;
    }
    assert(all.subrange(n as int, n as int) =~= Seq::<u8>::empty());
    assert(r@ + url_encoded(Seq::<u8>::empty()) =~= r@);
    r
}

/// The value of a hex digit byte.
pub fn hex_val(b: u8) -> (r: Option<u8>)
    ensures
        r == if is_hex_byte(b) { Some(hex_value(b)) } else { None::<u8> },
{
    if b >= 48 && b <= 57 {
        Some(b - 48)
    } else if b >= 97 && b <= 102 {
        Some(b - 87)
    } else if b >= 65 && b <= 70 {
        Some(b - 55)
    } else {
        None
    }
}

/// Decodes percent-escapes and `+` in `s`.
pub fn url_decode(s: &str) -> (r: String)
    ensures
        r@ == percent_decode(s@),
{
    let bytes = s.as_bytes();
    let ghost all = bytes@;
    let n = bytes.len();
    let mut out: Vec<u8> = Vec::new();
    let mut i: usize = 0;
    assert(all.subrange(0, n as int) =~= all);
    while i < n
        invariant
            n == bytes@.len(),
            all == bytes@,
            i <= n,
            out@ + url_decoded_bytes(all.subrange(i as int, n as int)) == url_decoded_bytes(all),
        decreases n - i,
    {
        let ghost rest = all.subrange(i as int, n as int);
        let ghost before = out@;
        assert(rest[0] == bytes[i as int]);
        if bytes[i] == 37 && n - i >= 3 {
            assert(rest[1] == bytes[i + 1] && rest[2] == bytes[i + 2]);
            match (hex_val(bytes[i + 1]), hex_val(bytes[i + 2])) {
                (Some(h), Some(l)) => {
                    out.push(h * 16 + l);
                    assert(rest.subrange(3, rest.len() as int) =~= all.subrange(i + 3, n as int));
                    assert(out@ + url_decoded_bytes(all.subrange(i + 3, n as int)) =~= before + url_decoded_bytes(rest));
                    i += 3;
                    continue;
                },
                _ => {},
            }
        }
        assert(rest.drop_first() =~= all.subrange(i + 1, n as int));
        if bytes[i] == 43 {
            out.push(32);
        } else {
            out.push(bytes[i]);
        }
        assert(out@ + url_decoded_bytes(all.subrange(i + 1, n as int)) =~= before + url_decoded_bytes(rest));
        i += 1;
    }
    assert(all.subrange(n as int, n as int) =~= Seq::<u8>::empty());
    assert(out@ + url_decoded_bytes(Seq::<u8>::empty()) =~= out@);
    from_utf8_lossy(&out)
}

/// The host part of a link: bracketed when it holds a colon (IPv6).
pub open spec fn host_text(a: Seq<char>) -> Seq<char> {
    if has_char(a, ':') {
        seq!['['] + a + seq![']']
    } else {
        a
    }
}

pub open spec fn query_upto_flow(p: ServerConfig) -> Seq<char> {
    "encryption=none"@ + seq!['&'] + ("flow="@ + percent_encode(p.flow@))
}

pub open spec fn query_upto_type(p: ServerConfig) -> Seq<char> {
    query_upto_flow(p) + seq!['&'] + "type=tcp"@
}

pub open spec fn query_upto_security(p: ServerConfig) -> Seq<char> {
    query_upto_type(p) + seq!['&'] + "security=reality"@
}

pub open spec fn query_upto_sni(p: ServerConfig) -> Seq<char> {
    query_upto_security(p) + seq!['&'] + ("sni="@ + percent_encode(p.reality.server_name@))
}

pub open spec fn query_upto_fp(p: ServerConfig) -> Seq<char> {
    query_upto_sni(p) + seq!['&'] + ("fp="@ + percent_encode(p.reality.fingerprint@))
}

pub open spec fn query_upto_pbk(p: ServerConfig) -> Seq<char> {
    query_upto_fp(p) + seq!['&'] + ("pbk="@ + percent_encode(p.reality.public_key@))
}

/// The query string of a profile's share link.
pub open spec fn link_query(p: ServerConfig) -> Seq<char> {
    query_upto_pbk(p) + seq!['&'] + ("sid="@ + percent_encode(p.reality.short_id@))
}

/// The credential, then the host and port.
pub open spec fn link_authority(p: ServerConfig) -> Seq<char> {
    p.uuid@ + seq!['@'] + (host_text(p.address@) + seq![':'] + dec_text(p.port as nat))
}

/// The share link of a profile: scheme, authority, query and the encoded
/// display name as fragment.
pub open spec fn share_link(p: ServerConfig) -> Seq<char> {
    "vless://"@ + (link_authority(p) + seq!['?'] + link_query(p) + seq!['#'] + percent_encode(p.name@))
}

fn append(s: &mut String, t: &str)
    ensures
        final(s)@ == old(s)@ + t@,
{
    s.append(t);
}

/// Encodes a profile as a share link.
pub fn to_vless_uri(server: &ServerConfig) -> (r: String)
    ensures
        r@ == share_link(*server),
{
    let mut host = String::new();
    match find_char(server.address.as_str(), ':') {
        Some(_) => {
            push_char(&mut host, '[');
            append(&mut host, server.address.as_str());
            push_char(&mut host, ']');
        },
        None => {
            append(&mut host, server.address.as_str());
        },
    }
    assert(host@ =~= host_text(server.address@));
    let mut q = String::from_str("encryption=none");
    push_char(&mut q, '&');
    append(&mut q, "flow=");
    append(&mut q, url_encode(server.flow.as_str()).as_str());
    assert(q@ =~= query_upto_flow(*server));
    push_char(&mut q, '&');
    append(&mut q, "type=tcp");
    push_char(&mut q, '&');
    append(&mut q, "security=reality");
    assert(q@ =~= query_upto_security(*server));
    push_char(&mut q, '&');
    append(&mut q, "sni=");
    append(&mut q, url_encode(server.reality.server_name.as_str()).as_str());
    assert(q@ =~= query_upto_sni(*server));
    push_char(&mut q, '&');
    append(&mut q, "fp=");
    append(&mut q, url_encode(server.reality.fingerprint.as_str()).as_str());
    assert(q@ =~= query_upto_fp(*server));
    push_char(&mut q, '&');
    append(&mut q, "pbk=");
    append(&mut q, url_encode(server.reality.public_key.as_str()).as_str());
    assert(q@ =~= query_upto_pbk(*server));
    push_char(&mut q, '&');
    append(&mut q, "sid=");
    append(&mut q, url_encode(server.reality.short_id.as_str()).as_str());
    assert(q@ =~= link_query(*server));
    let mut auth = server.uuid.clone();
    push_char(&mut auth, '@');
    append(&mut auth, host.as_str());
    push_char(&mut auth, ':');
    append(&mut auth, decimal(server.port as u64).as_str());
    assert(auth@ =~= link_authority(*server));
    let mut r = String::from_str("vless://");
    append(&mut r, auth.as_str());
    push_char(&mut r, '?');
    append(&mut r, q.as_str());
    push_char(&mut r, '#');
    append(&mut r, url_encode(server.name.as_str()).as_str());
    assert(r@ =~= share_link(*server));
    r
}

/// The profile fields a share link carries.
pub struct LinkFields {
    pub name: Seq<char>,
    pub address: Seq<char>,
    pub port: u16,
    pub uuid: Seq<char>,
    pub flow: Seq<char>,
    pub server_name: Seq<char>,
    pub fingerprint: Seq<char>,
    pub public_key: Seq<char>,
    pub short_id: Seq<char>,
}

pub open spec fn fields_of(c: ServerConfig) -> LinkFields {
    LinkFields {
        name: c.name@,
        address: c.address@,
        port: c.port,
        uuid: c.uuid@,
        flow: c.flow@,
        server_name: c.reality.server_name@,
        fingerprint: c.reality.fingerprint@,
        public_key: c.reality.public_key@,
        short_id: c.reality.short_id@,
    }
}

/// The query parameters a link sets.
pub struct QueryFields {
    pub flow: Seq<char>,
    pub sni: Seq<char>,
    pub fp: Seq<char>,
    pub pbk: Seq<char>,
    pub sid: Seq<char>,
}

pub open spec fn default_query() -> QueryFields {
    QueryFields { flow: seq![], sni: seq![], fp: "chrome"@, pbk: seq![], sid: seq![] }
}

/// One `key=value` parameter applied; unknown keys and parameters without
/// `=` change nothing.
pub open spec fn apply_param(f: QueryFields, seg: Seq<char>) -> QueryFields {
    let e = index_of(seg, '=');
    if e < 0 {
        f
    } else {
        let key = seg.subrange(0, e);
        let v = percent_decode(seg.subrange(e + 1, seg.len() as int));
        if key == "flow"@ {
            QueryFields { flow: v, ..f }
        } else if key == "sni"@ {
            QueryFields { sni: v, ..f }
        } else if key == "fp"@ {
            QueryFields { fp: v, ..f }
        } else if key == "pbk"@ {
            QueryFields { pbk: v, ..f }
        } else if key == "sid"@ {
            QueryFields { sid: v, ..f }
        } else {
            f
        }
    }
}

/// The `&`-separated parameters applied left to right: a later one wins.
pub open spec fn query_fields(q: Seq<char>) -> QueryFields
    decreases q.len(),
{
    let k = last_index_of(q, '&');
    if k < 0 || k >= q.len() {
        apply_param(default_query(), q)
    } else {
        apply_param(query_fields(q.subrange(0, k)), q.subrange(k + 1, q.len() as int))
    }
}

/// The address and port of `host:port` or `[host]:port`, or the reason
/// they cannot be read.
pub open spec fn port_of(addr: Seq<char>, ps: Seq<char>) -> Result<(Seq<char>, u16), Seq<char>> {
    if is_unsigned_text(ps, 65535) {
        Ok((addr, digits_value(unsigned_digits(ps)) as u16))
    } else {
        Err("Invalid port: "@ + ps)
    }
}

pub open spec fn host_and_port(hp: Seq<char>) -> Result<(Seq<char>, u16), Seq<char>> {
    if hp.len() > 0 && hp[0] == '[' {
        let close = index_of(hp, ']');
        if close < 0 {
            Err("Missing closing ] for IPv6 address"@)
        } else {
            let after = hp.subrange(close + 1, hp.len() as int);
            if after.len() == 0 || after[0] != ':' {
                Err("Missing port after IPv6 address"@)
            } else {
                port_of(hp.subrange(1, close), after.subrange(1, after.len() as int))
            }
        }
    } else {
        let colon = last_index_of(hp, ':');
        if colon < 0 {
            Err("Missing port in vless URI"@)
        } else {
            port_of(hp.subrange(0, colon), hp.subrange(colon + 1, hp.len() as int))
        }
    }
}

/// What a share link decodes to, or the message of the error it raises.
pub open spec fn parse_link(uri: Seq<char>) -> Result<LinkFields, Seq<char>> {
    let u = trimmed(uri);
    if !starts_with(u, "vless://"@) {
        Err("URI must start with vless://"@)
    } else {
        let rest = u.subrange(8, u.len() as int);
        let h = last_index_of(rest, '#');
        let body = if h >= 0 { rest.subrange(0, h) } else { rest };
        let name = if h >= 0 { percent_decode(rest.subrange(h + 1, rest.len() as int)) } else { seq![] };
        let qi = index_of(body, '?');
        let authority = if qi >= 0 { body.subrange(0, qi) } else { body };
        let query = if qi >= 0 { body.subrange(qi + 1, body.len() as int) } else { seq![] };
        let at = index_of(authority, '@');
        if at < 0 {
            Err("Missing @ in vless URI"@)
        } else {
            match host_and_port(authority.subrange(at + 1, authority.len() as int)) {
                Err(m) => Err(m),
                Ok((address, port)) => {
                    let f = query_fields(query);
                    Ok(
                        LinkFields {
                            name,
                            address,
                            port,
                            uuid: authority.subrange(0, at),
                            flow: f.flow,
                            server_name: f.sni,
                            fingerprint: f.fp,
                            public_key: f.pbk,
                            short_id: f.sid,
                        },
                    )
                },
            }
        }
    }
}

struct QueryValues {
    flow: String,
    sni: String,
    fp: String,
    pbk: String,
    sid: String,
}

impl QueryValues {
    spec fn view(&self) -> QueryFields {
        QueryFields { flow: self.flow@, sni: self.sni@, fp: self.fp@, pbk: self.pbk@, sid: self.sid@ }
    }
}

fn apply_query_param(f: &mut QueryValues, seg: &str)
    ensures
        final(f).view() == apply_param(old(f).view(), seg@),
{
    let n = seg.unicode_len();
    let e = match first_index(seg, '=') {
        Some(e) => e,
        None => return,
    };
    proof {
        crate::text::lemma_index_of(seg@, '=');
    }
    let key = slice(seg, 0, e);
    let value = url_decode(slice(seg, e + 1, n).as_str());
    if str_eq(key.as_str(), "flow") {
        f.flow = value;
    } else if str_eq(key.as_str(), "sni") {
        f.sni = value;
    } else if str_eq(key.as_str(), "fp") {
        f.fp = value;
    } else if str_eq(key.as_str(), "pbk") {
        f.pbk = value;
    } else if str_eq(key.as_str(), "sid") {
        f.sid = value;
    }
}

fn read_query(q: &str) -> (r: QueryValues)
    ensures
        r.view() == query_fields(q@),
    decreases q@.len(),
{
    let n = q.unicode_len();
    match last_index(q, '&') {
        None => {
            let mut f = QueryValues {
                flow: String::new(),
                sni: String::new(),
                fp: String::from_str("chrome"),
                pbk: String::new(),
                sid: String::new(),
            };
            assert(f.view() == default_query());
            apply_query_param(&mut f, q);
            f
        },
        Some(k) => {
            proof {
                crate::text::lemma_last_index_of(q@, '&');
            }
            let head = slice(q, 0, k);
            let mut f = read_query(head.as_str());
            apply_query_param(&mut f, slice(q, k + 1, n).as_str());
            f
        },
    }
}

fn read_port(addr: String, ps: &str) -> (r: Result<(String, u16), AppError>)
    ensures
        match (r, port_of(addr@, ps@)) {
            (Ok((a, p)), Ok((sa, sp))) => a@ == sa && p == sp,
            (Err(AppError::Config(m)), Err(sm)) => m@ == sm,
            _ => false,
        },
{
    match parse_unsigned(ps, 0, ps.unicode_len(), 65535) {
        Some(p) => {
            assert(ps@.subrange(0, ps@.len() as int) =~= ps@);
            Ok((addr, p as u16))
        },
        None => {
            assert(ps@.subrange(0, ps@.len() as int) =~= ps@);
            let mut m = String::from_str("Invalid port: ");
            append(&mut m, ps);
            Err(AppError::Config(m))
        },
    }
}

fn read_host_and_port(hp: &str) -> (r: Result<(String, u16), AppError>)
    ensures
        match (r, host_and_port(hp@)) {
            (Ok((a, p)), Ok((sa, sp))) => a@ == sa && p == sp,
            (Err(AppError::Config(m)), Err(sm)) => m@ == sm,
            _ => false,
        },
{
    let n = hp.unicode_len();
    if n > 0 && hp.get_char(0) == '[' {
        let close = match first_index(hp, ']') {
            Some(c) => c,
            None => return Err(AppError::Config(String::from_str("Missing closing ] for IPv6 address"))),
        };
        proof {
            crate::text::lemma_index_of(hp@, ']');
        }
        let after = slice(hp, close + 1, n);
        if after.unicode_len() == 0 || after.as_str().get_char(0) != ':' {
            return Err(AppError::Config(String::from_str("Missing port after IPv6 address")));
        }
        let addr = slice(hp, 1, close);
        read_port(addr, slice(after.as_str(), 1, after.unicode_len()).as_str())
    } else {
        let colon = match last_index(hp, ':') {
            Some(c) => c,
            None => return Err(AppError::Config(String::from_str("Missing port in vless URI"))),
        };
        proof {
            crate::text::lemma_last_index_of(hp@, ':');
        }
        read_port(slice(hp, 0, colon), slice(hp, colon + 1, n).as_str())
    }
}

/// Decodes a share link, giving the profile the identifier `id`.
pub fn parse_vless_uri_with_id(uri: &str, id: String) -> (r: Result<ServerConfig, AppError>)
    ensures
        match (r, parse_link(uri@)) {
            (Ok(c), Ok(f)) => fields_of(c) == f && c.id@ == id@,
            (Err(AppError::Config(m)), Err(sm)) => m@ == sm,
            _ => false,
        },
{
    let u = trim(uri);
    if !has_prefix(u, "vless://") {
        return Err(AppError::Config(String::from_str("URI must start with vless://")));
    }
    proof {
        reveal_strlit("vless://");
    }
    let rest = slice(u, 8, u.unicode_len());
    let (body, name) = match last_index(rest.as_str(), '#') {
        Some(h) => {
            proof {
                crate::text::lemma_last_index_of(rest@, '#');
            }
            (slice(rest.as_str(), 0, h), url_decode(slice(rest.as_str(), h + 1, rest.unicode_len()).as_str()))
        },
        None => (rest, String::new()),
    };
    let (authority, query) = match first_index(body.as_str(), '?') {
        Some(qi) => {
            proof {
                crate::text::lemma_index_of(body@, '?');
            }
            (slice(body.as_str(), 0, qi), slice(body.as_str(), qi + 1, body.unicode_len()))
        },
        None => (body, String::new()),
    };
    let at = match first_index(authority.as_str(), '@') {
        Some(at) => at,
        None => return Err(AppError::Config(String::from_str("Missing @ in vless URI"))),
    };
    proof {
        crate::text::lemma_index_of(authority@, '@');
    }
    let uuid = slice(authority.as_str(), 0, at);
    let hp = slice(authority.as_str(), at + 1, authority.unicode_len());
    let (address, port) = match read_host_and_port(hp.as_str()) {
        Ok(v) => v,
        Err(e) => return Err(e),
    };
    let q = read_query(query.as_str());
    Ok(
        ServerConfig {
            id,
            name,
            address,
            port,
            uuid,
            flow: q.flow,
            reality: RealitySettings {
                public_key: q.pbk,
                short_id: q.sid,
                server_name: q.sni,
                fingerprint: q.fp,
            },
        },
    )
}

/// Decodes a share link; the profile gets a fresh random identifier, never
/// one taken from the link.
pub fn parse_vless_uri(uri: &str) -> (r: Result<ServerConfig, AppError>)
    ensures
        match (r, parse_link(uri@)) {
            (Ok(c), Ok(f)) => fields_of(c) == f && is_uuid_text(c.id@),
            (Err(AppError::Config(m)), Err(sm)) => m@ == sm,
            _ => false,
        },
{
    parse_vless_uri_with_id(uri, generate_id())
}

pub open spec fn encode_byte_bytes(b: u8) -> Seq<u8> {
    if is_unreserved(b) {
        seq![b]
    } else {
        seq![37u8, hex_upper((b / 16) as nat) as u8, hex_upper((b % 16) as nat) as u8]
    }
}

pub open spec fn url_encoded_bytes(b: Seq<u8>) -> Seq<u8>
    decreases b.len(),
{
    if b.len() == 0 {
        seq![]
    } else {
        encode_byte_bytes(b[0]) + url_encoded_bytes(b.drop_first())
    }
}

/// Every character of an encoding is printable ASCII, and none is one of
/// the characters that delimit a link.
pub open spec fn link_safe_char(c: char) -> bool {
    is_visible_ascii(c) && c != '&' && c != '=' && c != '#' && c != '?' && c != '@' && c != ':'
        && c != '[' && c != ']' && c != '/'
}

proof fn lemma_hex_upper(n: nat)
    requires
        n < 16,
    ensures
        link_safe_char(hex_upper(n)),
        is_hex_byte(hex_upper(n) as u8),
        hex_value(hex_upper(n) as u8) == n,
        (hex_upper(n) as u8) as char == hex_upper(n),
{
}

proof fn lemma_encode_byte(b: u8)
    ensures
        forall|i: int| 0 <= i < encode_byte(b).len() ==> link_safe_char(#[trigger] encode_byte(b)[i]),
        encode_byte(b).map_values(|c: char| c as u8) == encode_byte_bytes(b),
{
    lemma_hex_upper((b / 16) as nat);
    lemma_hex_upper((b % 16) as nat);
    if is_unreserved(b) {
        assert((b as char) as u8 == b);
        assert(encode_byte(b).map_values(|c: char| c as u8) =~= encode_byte_bytes(b));
    } else {
        assert(encode_byte(b).map_values(|c: char| c as u8) =~= encode_byte_bytes(b));
    }
}

proof fn lemma_url_encoded_chars(b: Seq<u8>)
    ensures
        forall|i: int| 0 <= i < url_encoded(b).len() ==> link_safe_char(#[trigger] url_encoded(b)[i]),
        url_encoded(b).map_values(|c: char| c as u8) == url_encoded_bytes(b),
    decreases b.len(),
{
    if b.len() > 0 {
        lemma_url_encoded_chars(b.drop_first());
        lemma_encode_byte(b[0]);
        let e = encode_byte(b[0]);
        let r = url_encoded(b.drop_first());
        assert forall|i: int| 0 <= i < url_encoded(b).len() implies link_safe_char(#[trigger] url_encoded(b)[i]) by {
            if i < e.len() {
                assert(url_encoded(b)[i] == e[i]);
            } else {
                assert(url_encoded(b)[i] == r[i - e.len()]);
            }
        }
        assert((e + r).map_values(|c: char| c as u8) =~= e.map_values(|c: char| c as u8) + r.map_values(|c: char| c as u8));
    }
}

proof fn lemma_decode_encoded_bytes(b: Seq<u8>)
    ensures
        url_decoded_bytes(url_encoded_bytes(b)) == b,
    decreases b.len(),
{
    if b.len() > 0 {
        lemma_decode_encoded_bytes(b.drop_first());
        let e = encode_byte_bytes(b[0]);
        let rest = url_encoded_bytes(b.drop_first());
        let all = e + rest;
        lemma_hex_upper((b[0] / 16) as nat);
        lemma_hex_upper((b[0] % 16) as nat);
        if is_unreserved(b[0]) {
            assert(all.drop_first() =~= rest);
            assert(all[0] == b[0]);
        } else {
            assert(all.subrange(3, all.len() as int) =~= rest);
            assert(all[0] == 37u8 && all[1] == e[1] && all[2] == e[2]);
            assert((b[0] / 16) * 16 + b[0] % 16 == b[0]);
        }
        assert(url_decoded_bytes(all) =~= seq![b[0]] + b.drop_first());
        assert(b =~= seq![b[0]] + b.drop_first());
    }
}

/// Decoding an encoding gives the text back.
pub proof fn lemma_percent_round_trip(s: Seq<char>)
    ensures
        percent_decode(percent_encode(s)) == s,
        forall|i: int| 0 <= i < percent_encode(s).len() ==> link_safe_char(#[trigger] percent_encode(s)[i]),
{
    let b = encode_utf8(s);
    let e = url_encoded(b);
    lemma_url_encoded_chars(b);
    assert(vstd::utf8::is_ascii_chars(e));
    vstd::utf8::is_ascii_chars_encode_utf8(e);
    assert(encode_utf8(e) =~= url_encoded_bytes(b));
    lemma_decode_encoded_bytes(b);
    vstd::utf8::encode_utf8_valid_utf8(s);
    vstd::utf8::encode_utf8_decode_utf8(s);
}

/// What a profile needs for its share link to decode to it: a credential
/// without `@` or `?`, an address without `?` or brackets.
pub open spec fn link_encodable(p: ServerConfig) -> bool {
    &&& !has_char(p.uuid@, '@')
    &&& !has_char(p.uuid@, '?')
    &&& !has_char(p.address@, '?')
    &&& !has_char(p.address@, '[')
    &&& !has_char(p.address@, ']')
}

proof fn lemma_no_char_in_encoding(s: Seq<char>, c: char)
    requires
        !link_safe_char(c),
    ensures
        !has_char(percent_encode(s), c),
{
    lemma_percent_round_trip(s);
    if has_char(percent_encode(s), c) {
        let j = choose|j: int| 0 <= j < percent_encode(s).len() && percent_encode(s)[j] == c;
        assert(link_safe_char(percent_encode(s)[j]));
    }
}

proof fn lemma_apply_key(f: QueryFields, key: Seq<char>, v: Seq<char>)
    requires
        !has_char(key, '='),
    ensures
        apply_param(f, key + seq!['='] + v) == apply_param_kv(f, key, percent_decode(v)),
{
    let seg = key + seq!['='] + v;
    crate::text::lemma_index_of_split(key, '=', v);
    assert(seg.subrange(0, key.len() as int) =~= key);
    assert(seg.subrange(key.len() as int + 1, seg.len() as int) =~= v);
}

pub open spec fn apply_param_kv(f: QueryFields, key: Seq<char>, v: Seq<char>) -> QueryFields {
    if key == "flow"@ {
        QueryFields { flow: v, ..f }
    } else if key == "sni"@ {
        QueryFields { sni: v, ..f }
    } else if key == "fp"@ {
        QueryFields { fp: v, ..f }
    } else if key == "pbk"@ {
        QueryFields { pbk: v, ..f }
    } else if key == "sid"@ {
        QueryFields { sid: v, ..f }
    } else {
        f
    }
}

proof fn lemma_query_step(q: Seq<char>, key: Seq<char>, v: Seq<char>)
    requires
        !has_char(key, '='),
        !has_char(key, '&'),
        !has_char(v, '&'),
    ensures
        query_fields(q + seq!['&'] + (key + seq!['='] + v)) == apply_param_kv(query_fields(q), key, percent_decode(v)),
{
    let seg = key + seq!['='] + v;
    let all = q + seq!['&'] + seg;
    assert(!has_char(seg, '&')) by {
        if has_char(seg, '&') {
            let j = choose|j: int| 0 <= j < seg.len() && seg[j] == '&';
            if j < key.len() {
                assert(key[j] == '&');
            } else if j > key.len() {
                assert(v[j - key.len() - 1] == '&');
            }
        }
    }
    crate::text::lemma_last_index_of_split(q, '&', seg);
    assert(all.subrange(0, q.len() as int) =~= q);
    assert(all.subrange(q.len() as int + 1, all.len() as int) =~= seg);
    lemma_apply_key(query_fields(q), key, v);
}

proof fn lemma_query_first(key: Seq<char>, v: Seq<char>)
    requires
        !has_char(key, '='),
        !has_char(key, '&'),
        !has_char(v, '&'),
    ensures
        query_fields(key + seq!['='] + v) == apply_param_kv(default_query(), key, percent_decode(v)),
{
    let seg = key + seq!['='] + v;
    assert(!has_char(seg, '&')) by {
        if has_char(seg, '&') {
            let j = choose|j: int| 0 <= j < seg.len() && seg[j] == '&';
            if j < key.len() {
                assert(key[j] == '&');
            } else if j > key.len() {
                assert(v[j - key.len() - 1] == '&');
            }
        }
    }
    crate::text::lemma_last_index_of(seg, '&');
    lemma_apply_key(default_query(), key, v);
}

proof fn lemma_query_flow(p: ServerConfig)
    ensures
        query_fields(query_upto_flow(p)) == (QueryFields { flow: p.flow@, ..default_query() }),
{
    reveal_strlit("encryption=none");
    reveal_strlit("encryption");
    reveal_strlit("none");
    reveal_strlit("flow=");
    reveal_strlit("flow");
    reveal_strlit("sni");
    reveal_strlit("fp");
    reveal_strlit("pbk");
    reveal_strlit("sid");
    let f = percent_encode(p.flow@);
    lemma_percent_round_trip(p.flow@);
    lemma_no_char_in_encoding(p.flow@, '&');
    assert("encryption=none"@ =~= "encryption"@ + seq!['='] + "none"@);
    assert("flow="@ =~= "flow"@ + seq!['=']);
    assert("flow="@ + f =~= "flow"@ + seq!['='] + f);
    lemma_query_first("encryption"@, "none"@);
    lemma_query_step("encryption=none"@, "flow"@, f);
}

proof fn lemma_query_type(p: ServerConfig)
    ensures
        query_fields(query_upto_type(p)) == query_fields(query_upto_flow(p)),
{
    reveal_strlit("type=tcp");
    reveal_strlit("type");
    reveal_strlit("tcp");
    reveal_strlit("flow");
    reveal_strlit("sni");
    reveal_strlit("fp");
    reveal_strlit("pbk");
    reveal_strlit("sid");
    assert("type=tcp"@ =~= "type"@ + seq!['='] + "tcp"@);
    assert(query_upto_type(p) =~= query_upto_flow(p) + seq!['&'] + ("type"@ + seq!['='] + "tcp"@));
    assert("type"@ != "flow"@) by {
        assert("type"@[0] != "flow"@[0]);
    }
    assert("type"@ != "sni"@ && "type"@ != "fp"@ && "type"@ != "pbk"@) by {
        assert("type"@.len() == 4);
    }
    assert("type"@ != "sid"@) by {
        assert("type"@[0] != "sid"@[0]);
    }
    lemma_query_step(query_upto_flow(p), "type"@, "tcp"@);
}

proof fn lemma_query_security(p: ServerConfig)
    ensures
        query_fields(query_upto_security(p)) == query_fields(query_upto_type(p)),
{
    reveal_strlit("security=reality");
    reveal_strlit("security");
    reveal_strlit("reality");
    reveal_strlit("flow");
    reveal_strlit("sni");
    reveal_strlit("fp");
    reveal_strlit("pbk");
    reveal_strlit("sid");
    assert("security=reality"@ =~= "security"@ + seq!['='] + "reality"@);
    lemma_query_step(query_upto_type(p), "security"@, "reality"@);
}

proof fn lemma_query_sni(p: ServerConfig)
    ensures
        query_fields(query_upto_sni(p)) == (QueryFields { sni: p.reality.server_name@, ..query_fields(query_upto_security(p)) }),
{
    reveal_strlit("sni=");
    reveal_strlit("flow");
    reveal_strlit("sni");
    let v = percent_encode(p.reality.server_name@);
    lemma_percent_round_trip(p.reality.server_name@);
    lemma_no_char_in_encoding(p.reality.server_name@, '&');
    assert("sni="@ + v =~= "sni"@ + seq!['='] + v);
    lemma_query_step(query_upto_security(p), "sni"@, v);
}

proof fn lemma_query_fp(p: ServerConfig)
    ensures
        query_fields(query_upto_fp(p)) == (QueryFields { fp: p.reality.fingerprint@, ..query_fields(query_upto_sni(p)) }),
{
    reveal_strlit("fp=");
    reveal_strlit("flow");
    reveal_strlit("sni");
    reveal_strlit("fp");
    let v = percent_encode(p.reality.fingerprint@);
    lemma_percent_round_trip(p.reality.fingerprint@);
    lemma_no_char_in_encoding(p.reality.fingerprint@, '&');
    assert("fp="@ + v =~= "fp"@ + seq!['='] + v);
    lemma_query_step(query_upto_sni(p), "fp"@, v);
}

proof fn lemma_query_pbk(p: ServerConfig)
    ensures
        query_fields(query_upto_pbk(p)) == (QueryFields { pbk: p.reality.public_key@, ..query_fields(query_upto_fp(p)) }),
{
    reveal_strlit("pbk=");
    reveal_strlit("flow");
    reveal_strlit("sni");
    reveal_strlit("fp");
    reveal_strlit("pbk");
    let v = percent_encode(p.reality.public_key@);
    lemma_percent_round_trip(p.reality.public_key@);
    lemma_no_char_in_encoding(p.reality.public_key@, '&');
    assert("pbk="@ + v =~= "pbk"@ + seq!['='] + v);
    assert("pbk"@ != "flow"@) by {
        assert("pbk"@.len() != "flow"@.len());
    }
    assert("pbk"@ != "sni"@) by {
        assert("pbk"@[0] != "sni"@[0]);
    }
    assert("pbk"@ != "fp"@) by {
        assert("pbk"@.len() != "fp"@.len());
    }
    lemma_query_step(query_upto_fp(p), "pbk"@, v);
}

proof fn lemma_query_sid(p: ServerConfig)
    ensures
        query_fields(link_query(p)) == (QueryFields { sid: p.reality.short_id@, ..query_fields(query_upto_pbk(p)) }),
{
    reveal_strlit("sid=");
    reveal_strlit("flow");
    reveal_strlit("sni");
    reveal_strlit("fp");
    reveal_strlit("pbk");
    reveal_strlit("sid");
    let v = percent_encode(p.reality.short_id@);
    lemma_percent_round_trip(p.reality.short_id@);
    lemma_no_char_in_encoding(p.reality.short_id@, '&');
    assert("sid="@ + v =~= "sid"@ + seq!['='] + v);
    assert("sid"@ != "flow"@ && "sid"@ != "fp"@);
    assert("sid"@ != "sni"@) by {
        assert("sid"@[1] != "sni"@[1]);
    }
    assert("sid"@ != "pbk"@) by {
        assert("sid"@[0] != "pbk"@[0]);
    }
    lemma_query_step(query_upto_pbk(p), "sid"@, v);
}

proof fn lemma_link_query(p: ServerConfig)
    ensures
        query_fields(link_query(p)) == (QueryFields {
            flow: p.flow@,
            sni: p.reality.server_name@,
            fp: p.reality.fingerprint@,
            pbk: p.reality.public_key@,
            sid: p.reality.short_id@,
        }),
{
    lemma_query_flow(p);
    lemma_query_type(p);
    lemma_query_security(p);
    lemma_query_sni(p);
    lemma_query_fp(p);
    lemma_query_pbk(p);
    lemma_query_sid(p);
}

proof fn lemma_link_host_port(p: ServerConfig)
    requires
        link_encodable(p),
    ensures
        host_and_port(host_text(p.address@) + seq![':'] + dec_text(p.port as nat)) == Ok::<(Seq<char>, u16), Seq<char>>((p.address@, p.port)),
{
    let pt = dec_text(p.port as nat);
    crate::text::lemma_dec_text_reads_back(p.port as nat);
    crate::text::lemma_digits_have_no(pt, ':');
    assert(crate::text::is_digit(pt[0]));
    assert(unsigned_digits(pt) == pt);
    let hp = host_text(p.address@) + seq![':'] + pt;
    if has_char(p.address@, ':') {
        let x = seq!['['] + p.address@;
        crate::text::lemma_has_char_concat(seq!['['], p.address@, ']');
        assert(hp =~= x + seq![']'] + (seq![':'] + pt));
        crate::text::lemma_index_of_split(x, ']', seq![':'] + pt);
        assert(hp[0] == '[');
        let close = x.len() as int;
        let after = hp.subrange(close + 1, hp.len() as int);
        assert(after =~= seq![':'] + pt);
        assert(hp.subrange(1, close) =~= p.address@);
        assert(after.subrange(1, after.len() as int) =~= pt);
    } else {
        assert(!(hp.len() > 0 && hp[0] == '[')) by {
            if p.address@.len() > 0 {
                assert(hp[0] == p.address@[0]);
            } else {
                assert(hp[0] == ':');
            }
        }
        crate::text::lemma_last_index_of_split(p.address@, ':', pt);
        assert(hp.subrange(0, p.address@.len() as int) =~= p.address@);
        assert(hp.subrange(p.address@.len() as int + 1, hp.len() as int) =~= pt);
    }
}

proof fn lemma_authority_has_no_query(p: ServerConfig)
    requires
        link_encodable(p),
    ensures
        !has_char(link_authority(p), '?'),
{
    let pt = dec_text(p.port as nat);
    let u = p.uuid@;
    let a = host_text(p.address@);
    crate::text::lemma_dec_text_reads_back(p.port as nat);
    crate::text::lemma_digits_have_no(pt, '?');
    crate::text::lemma_has_char_concat(seq!['['] + p.address@, seq![']'], '?');
    crate::text::lemma_has_char_concat(seq!['['], p.address@, '?');
    crate::text::lemma_has_char_concat(a, seq![':'], '?');
    crate::text::lemma_has_char_concat(a + seq![':'], pt, '?');
    crate::text::lemma_has_char_concat(u, seq!['@'], '?');
    crate::text::lemma_has_char_concat(u + seq!['@'], a + seq![':'] + pt, '?');
}

/// A share link decodes to the profile it was made from, in every field but
/// the identifier, when the credential and the address avoid the link's
/// delimiters.
pub proof fn lemma_share_link_round_trip(p: ServerConfig)
    requires
        link_encodable(p),
    ensures
        parse_link(share_link(p)) == Ok::<LinkFields, Seq<char>>(fields_of(p)),
{
    reveal_strlit("vless://");
    lemma_link_query(p);
    lemma_link_host_port(p);
    lemma_authority_has_no_query(p);
    lemma_percent_round_trip(p.name@);
    lemma_no_char_in_encoding(p.name@, '#');
    let n = percent_encode(p.name@);
    let authority = link_authority(p);
    let q = link_query(p);
    let body = authority + seq!['?'] + q;
    let rest = body + seq!['#'] + n;
    let link = "vless://"@ + rest;
    assert(link[0] == 'v');
    if n.len() > 0 {
        assert(link.last() == n.last());
        assert(link_safe_char(n[n.len() - 1]));
    } else {
        assert(link.last() == '#');
    }
    assert(trimmed(link) == link);
    assert(link.subrange(0, 8) =~= "vless://"@);
    assert(link.subrange(8, link.len() as int) =~= rest);
    crate::text::lemma_last_index_of_split(body, '#', n);
    assert(rest.subrange(0, body.len() as int) =~= body);
    assert(rest.subrange(body.len() as int + 1, rest.len() as int) =~= n);
    crate::text::lemma_index_of_split(authority, '?', q);
    assert(body.subrange(0, authority.len() as int) =~= authority);
    assert(body.subrange(authority.len() as int + 1, body.len() as int) =~= q);
    let hp = host_text(p.address@) + seq![':'] + dec_text(p.port as nat);
    crate::text::lemma_index_of_split(p.uuid@, '@', hp);
    assert(authority.subrange(0, p.uuid@.len() as int) =~= p.uuid@);
    assert(authority.subrange(p.uuid@.len() as int + 1, authority.len() as int) =~= hp);
}

} // verus!

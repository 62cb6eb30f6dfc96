//! Web addresses: the parts of a URL that the collector reads, the calls
//! into the `url` crate that produce them, and the checks that keep the
//! collector on public HTTP(S) sites.
use vstd::prelude::*;

use crate::models::strs;
use crate::text::{
    append_str, chars_of, ends_with, eq_str, has_prefix, has_suffix, lower, lower_chars, owned,
    starts_with, string_from_chars, sub_chars, trim, trim_chars,
};

verus! {

/// The parts of a parsed URL that the library reads (`url::Url`'s
/// `as_str`, `scheme`, `username`, `password`, `host_str`,
/// `port_or_known_default`, `path` and `query_pairs`).
#[derive(Debug, Clone)]
pub struct ParsedUrl {
    pub serialization: String,
    pub scheme: String,
    pub username: String,
    pub has_password: bool,
    pub host: Option<String>,
    pub port: Option<u16>,
    pub path: String,
    pub query_pairs: Vec<(String, String)>,
}

pub ghost struct UrlView {
    pub serialization: Seq<char>,
    pub scheme: Seq<char>,
    pub username: Seq<char>,
    pub has_password: bool,
    pub host: Option<Seq<char>>,
    pub port: Option<u16>,
    pub path: Seq<char>,
    pub query_pairs: Seq<(Seq<char>, Seq<char>)>,
}

impl View for ParsedUrl {
    type V = UrlView;

    open spec fn view(&self) -> UrlView {
        UrlView {
            serialization: self.serialization@,
            scheme: self.scheme@,
            username: self.username@,
            has_password: self.has_password,
            host: match self.host {
                Some(h) => Some(h@),
                None => None,
            },
            port: self.port,
            path: self.path@,
            query_pairs: self.query_pairs@.map_values(|p: (String, String)| (p.0@, p.1@)),
        }
    }
}

pub open spec fn url_opt_view(u: Option<ParsedUrl>) -> Option<UrlView> {
    match u {
        Some(x) => Some(x@),
        None => None,
    }
}

/// What `url::Url::parse(input)` gives, by its parts; `None` for a parse error.
pub uninterp spec fn url_parsed(input: Seq<char>) -> Option<UrlView>;

/// What `Url::join(input)` gives on the URL that `base` serializes.
pub uninterp spec fn url_joined(base: Seq<char>, input: Seq<char>) -> Option<UrlView>;

/// The URL that `url` serializes after `Url::set_path(path)`.
pub uninterp spec fn url_path_set(url: Seq<char>, path: Seq<char>) -> Option<UrlView>;

/// The URL that `url` serializes after `Url::set_query(None)`.
pub uninterp spec fn url_query_cleared(url: Seq<char>) -> Option<UrlView>;

/// The URL that `url` serializes after `Url::set_fragment(None)`.
pub uninterp spec fn url_fragment_cleared(url: Seq<char>) -> Option<UrlView>;

/// `url::Url::parse`, the result taken apart; the contract names it.
#[verifier::external_body]
pub(crate) fn parse_url(input: &str) -> (res: Option<ParsedUrl>)
    ensures
        url_opt_view(res) == url_parsed(input@),
{
    let u = url::Url::parse(input).ok()?;
    Some(ParsedUrl {
        serialization: u.as_str().to_string(),
        scheme: u.scheme().to_string(),
        username: u.username().to_string(),
        has_password: u.password().is_some(),
        host: u.host_str().map(|h| h.to_string()),
        port: u.port_or_known_default(),
        path: u.path().to_string(),
        query_pairs: u.query_pairs().map(|(k, v)| (k.into_owned(), v.into_owned())).collect(),
    })
}

/// `url::Url::join` on the URL `base` serializes; the contract names the result.
#[verifier::external_body]
pub(crate) fn join_url(base: &str, input: &str) -> (res: Option<ParsedUrl>)
    ensures
        url_opt_view(res) == url_joined(base@, input@),
{
    let u = url::Url::parse(base).ok()?.join(input).ok()?;
    Some(ParsedUrl {
        serialization: u.as_str().to_string(),
        scheme: u.scheme().to_string(),
        username: u.username().to_string(),
        has_password: u.password().is_some(),
        host: u.host_str().map(|h| h.to_string()),
        port: u.port_or_known_default(),
        path: u.path().to_string(),
        query_pairs: u.query_pairs().map(|(k, v)| (k.into_owned(), v.into_owned())).collect(),
    })
}

/// `url::Url::set_path` on the URL `url` serializes; the contract names the result.
#[verifier::external_body]
pub(crate) fn set_url_path(url: &str, path: &str) -> (res: Option<ParsedUrl>)
    ensures
        url_opt_view(res) == url_path_set(url@, path@),
{
    let mut u = url::Url::parse(url).ok()?;
    u.set_path(path);
    Some(ParsedUrl {
        serialization: u.as_str().to_string(),
        scheme: u.scheme().to_string(),
        username: u.username().to_string(),
        has_password: u.password().is_some(),
        host: u.host_str().map(|h| h.to_string()),
        port: u.port_or_known_default(),
        path: u.path().to_string(),
        query_pairs: u.query_pairs().map(|(k, v)| (k.into_owned(), v.into_owned())).collect(),
    })
}

/// `url::Url::set_query(None)` on the URL `url` serializes; the contract
/// names the result.
#[verifier::external_body]
pub(crate) fn clear_url_query(url: &str) -> (res: Option<ParsedUrl>)
    ensures
        url_opt_view(res) == url_query_cleared(url@),
{
    let mut u = url::Url::parse(url).ok()?;
    u.set_query(None);
    Some(ParsedUrl {
        serialization: u.as_str().to_string(),
        scheme: u.scheme().to_string(),
        username: u.username().to_string(),
        has_password: u.password().is_some(),
        host: u.host_str().map(|h| h.to_string()),
        port: u.port_or_known_default(),
        path: u.path().to_string(),
        query_pairs: u.query_pairs().map(|(k, v)| (k.into_owned(), v.into_owned())).collect(),
    })
}

/// `url::Url::set_fragment(None)` on the URL `url` serializes; the contract
/// names the result.
#[verifier::external_body]
pub(crate) fn clear_url_fragment(url: &str) -> (res: Option<ParsedUrl>)
    ensures
        url_opt_view(res) == url_fragment_cleared(url@),
{
    let mut u = url::Url::parse(url).ok()?;
    u.set_fragment(None);
    Some(ParsedUrl {
        serialization: u.as_str().to_string(),
        scheme: u.scheme().to_string(),
        username: u.username().to_string(),
        has_password: u.password().is_some(),
        host: u.host_str().map(|h| h.to_string()),
        port: u.port_or_known_default(),
        path: u.path().to_string(),
        query_pairs: u.query_pairs().map(|(k, v)| (k.into_owned(), v.into_owned())).collect(),
    })
}

// ---------------------------------------------------------------------------
// Hosts
// ---------------------------------------------------------------------------

/// `str::trim_start_matches("www.")`: every leading `www.` removed.
pub open spec fn strip_www(s: Seq<char>) -> Seq<char>
    decreases s.len(),
{
    if s.len() >= 4 && starts_with(s, "www."@) && "www."@.len() == 4 {
        strip_www(s.skip(4))
    } else {
        s
    }
}

pub fn strip_www_exec(s: &Vec<char>) -> (res: Vec<char>)
    ensures
        res@ == strip_www(s@),
{
    proof {
        reveal_strlit("www.");
    }
    let www = chars_of("www.");
    let mut i: usize = 0;
    assert(s@.skip(0) =~= s@);
    loop
        invariant
            i <= s.len(),
            www@ == "www."@,
            "www."@.len() == 4,
            strip_www(s@) == strip_www(s@.skip(i as int)),
        decreases s.len() - i,
    {
        let rest = sub_chars(s, i, s.len());
        assert(rest@ =~= s@.skip(i as int));
        if rest.len() >= 4 && has_prefix(&rest, &www) {
            assert(rest@.skip(4) =~= s@.skip(i + 4));
            i = i + 4;
        } else {
            return rest;
        }
    }
}

/// The host of a URL in lower case without leading `www.` labels (empty
/// when the URL has no host).
pub open spec fn normalized_host_spec(u: UrlView) -> Seq<char> {
    strip_www(
        lower(
            match u.host {
                Some(h) => h,
                None => Seq::empty(),
            },
        ),
    )
}

pub fn normalized_host(url: &ParsedUrl) -> (res: Vec<char>)
    ensures
        res@ == normalized_host_spec(url@),
{
    let h = match &url.host {
        Some(h) => chars_of(h.as_str()),
        None => Vec::new(),
    };
    let l = lower_chars(&h);
    strip_www_exec(&l)
}

/// Facebook's own hosts.
pub open spec fn is_facebook_host(host: Seq<char>) -> bool {
    host == "facebook.com"@ || ends_with(host, ".facebook.com"@) || host == "fb.com"@
}

pub fn is_facebook_url(url: &ParsedUrl) -> (res: bool)
    ensures
        res == is_facebook_host(normalized_host_spec(url@)),
{
    let host = normalized_host(url);
    let suffix = chars_of(".facebook.com");
    eq_str(&host, "facebook.com") || has_suffix(&host, &suffix) || eq_str(&host, "fb.com")
}

pub open spec fn is_web_scheme(scheme: Seq<char>) -> bool {
    scheme == "http"@ || scheme == "https"@
}

pub fn web_scheme(url: &ParsedUrl) -> (res: bool)
    ensures
        res == is_web_scheme(url@.scheme),
{
    let s = chars_of(url.scheme.as_str());
    eq_str(&s, "http") || eq_str(&s, "https")
}

// ---------------------------------------------------------------------------
// Turning a website field into a URL
// ---------------------------------------------------------------------------

/// The text parsed for a website field: the trimmed value, with `https://`
/// put in front unless it starts with `http://` or `https://` in any ASCII case.
pub open spec fn with_scheme(raw: Seq<char>) -> Seq<char> {
    let v = trim(raw);
    let l = lower(v);
    if starts_with(l, "http://"@) || starts_with(l, "https://"@) {
        v
    } else {
        "https://"@ + v
    }
}

/// The start URL of a website field: refused when blank, when it does not
/// parse, or when it is not an HTTP(S) URL with a host.
pub open spec fn website_url(raw: Seq<char>) -> Result<UrlView, Seq<char>> {
    if trim(raw).len() == 0 {
        Err("官网为空"@)
    } else {
        match url_parsed(with_scheme(raw)) {
            None => Err("官网地址无效"@),
            Some(u) => if !is_web_scheme(u.scheme) || u.host is None {
                Err("只允许访问 HTTP/HTTPS 官网"@)
            } else {
                Ok(u)
            },
        }
    }
}

pub fn normalize_url(raw_url: &str) -> (res: Result<ParsedUrl, String>)
    ensures
        match res {
            Ok(u) => website_url(raw_url@) == Ok::<UrlView, Seq<char>>(u@),
            Err(m) => website_url(raw_url@) == Err::<UrlView, Seq<char>>(m@),
        },
{
    let cs = chars_of(raw_url);
    let v = trim_chars(&cs);
    if v.len() == 0 {
        return Err(owned("官网为空"));
    }
    let l = lower_chars(&v);
    let http = chars_of("http://");
    let https = chars_of("https://");
    let text = if has_prefix(&l, &http) || has_prefix(&l, &https) {
        string_from_chars(&v)
    } else {
        let mut t = chars_of("https://");
        crate::text::append_chars(&mut t, &v);
        string_from_chars(&t)
    };
    assert(text@ == with_scheme(raw_url@));
    let url = match parse_url(text.as_str()) {
        Some(u) => u,
        None => return Err(owned("官网地址无效")),
    };
    if !web_scheme(&url) || url.host.is_none() {
        return Err(owned("只允许访问 HTTP/HTTPS 官网"));
    }
    Ok(url)
}

/// The checks on a URL that need no name lookup: it has a host, carries no
/// login, and names neither `localhost` nor a `.local` host.
pub open spec fn url_address_error(u: UrlView) -> Option<Seq<char>> {
    match u.host {
        None => Some("官网缺少主机名"@),
        Some(h) => if u.username.len() > 0 || u.has_password {
            Some("官网地址包含不允许的登录信息"@)
        } else if lower(h) == "localhost"@ || ends_with(h, ".local"@) {
            Some("禁止访问本机或局域网地址"@)
        } else {
            None
        },
    }
}

/// The name-lookup-free part of the public URL check: the host and port to
/// resolve (443 when the scheme has no known default), or why the URL is refused.
pub fn check_url_target(url: &ParsedUrl) -> (res: Result<(String, u16), String>)
    ensures
        match res {
            Ok((host, port)) => url_address_error(url@) is None && url@.host == Some(host@)
                && port == (match url@.port {
                Some(p) => p,
                None => 443u16,
            }),
            Err(m) => url_address_error(url@) == Some(m@),
        },
{
    let host = match &url.host {
        Some(h) => h,
        None => return Err(owned("官网缺少主机名")),
    };
    if !url.username.as_str().is_empty() || url.has_password {
        return Err(owned("官网地址包含不允许的登录信息"));
    }
    let h = chars_of(host.as_str());
    let lh = lower_chars(&h);
    let local = chars_of(".local");
    if eq_str(&lh, "localhost") || has_suffix(&h, &local) {
        return Err(owned("禁止访问本机或局域网地址"));
    }
    let port = match url.port {
        Some(p) => p,
        None => 443,
    };
    Ok((host.clone(), port))
}

// ---------------------------------------------------------------------------
// Addresses a name resolves to
// ---------------------------------------------------------------------------

/// An IP address: four octets or eight 16-bit segments.
#[derive(Debug, Clone, Copy, PartialEq, Eq)]
pub enum IpAddress {
    V4([u8; 4]),
    V6([u16; 8]),
}

/// The IPv4 addresses the collector never contacts: private (10/8,
/// 172.16/12, 192.168/16), loopback (127/8), link-local (169.254/16), the
/// broadcast address, multicast (224/4), reserved (240/4 and up), the
/// documentation ranges (192.0.2/24, 198.51.100/24, 203.0.113/24), and 0/8.
pub open spec fn is_private_v4(o: Seq<u8>) -> bool {
    ||| o[0] == 10
    ||| (o[0] == 172 && 16 <= o[1] <= 31)
    ||| (o[0] == 192 && o[1] == 168)
    ||| o[0] == 127
    ||| (o[0] == 169 && o[1] == 254)
    ||| (o[0] == 255 && o[1] == 255 && o[2] == 255 && o[3] == 255)
    ||| 224 <= o[0] <= 239
    ||| o[0] >= 240
    ||| (o[0] == 192 && o[1] == 0 && o[2] == 2)
    ||| (o[0] == 198 && o[1] == 51 && o[2] == 100)
    ||| (o[0] == 203 && o[1] == 0 && o[2] == 113)
    ||| (o[0] == 0 && o[1] == 0 && o[2] == 0 && o[3] == 0)
    ||| o[0] == 0
}

/// An IPv4-mapped IPv6 address (`::ffff:a.b.c.d`).
pub open spec fn is_v4_mapped(s: Seq<u16>) -> bool {
    s[0] == 0 && s[1] == 0 && s[2] == 0 && s[3] == 0 && s[4] == 0 && s[5] == 0xffff
}

/// The IPv4 address inside an IPv4-mapped address: the bytes of its last
/// two segments.
pub open spec fn mapped_octets(s: Seq<u16>) -> Seq<u8> {
    seq![(s[6] / 256) as u8, (s[6] % 256) as u8, (s[7] / 256) as u8, (s[7] % 256) as u8]
}

/// The IPv6 addresses the collector never contacts: loopback (::1),
/// unspecified (::), unique local (fc00::/7), unicast link-local (fe80::/10),
/// multicast (ff00::/8), and an IPv4-mapped address whose IPv4 address the
/// collector never contacts.
pub open spec fn is_private_v6(s: Seq<u16>) -> bool {
    ||| (is_v4_mapped(s) && is_private_v4(mapped_octets(s)))
    ||| (s[0] == 0 && s[1] == 0 && s[2] == 0 && s[3] == 0 && s[4] == 0 && s[5] == 0 && s[6] == 0
        && s[7] == 1)
    ||| (s[0] == 0 && s[1] == 0 && s[2] == 0 && s[3] == 0 && s[4] == 0 && s[5] == 0 && s[6] == 0
        && s[7] == 0)
    ||| (s[0] & 0xfe00u16) == 0xfc00u16
    ||| (s[0] & 0xffc0u16) == 0xfe80u16
    ||| (s[0] & 0xff00u16) == 0xff00u16
}

pub open spec fn is_private_address(ip: IpAddress) -> bool {
    match ip {
        IpAddress::V4(o) => is_private_v4(o@),
        IpAddress::V6(s) => is_private_v6(s@),
    }
}

fn is_private_v4_exec(a: u8, b: u8, c: u8, d: u8) -> (res: bool)
    ensures
        res == is_private_v4(seq![a, b, c, d]),
{
    a == 10 || (a == 172 && 16 <= b && b <= 31) || (a == 192 && b == 168) || a == 127 || (a == 169
        && b == 254) || (a == 255 && b == 255 && c == 255 && d == 255) || (224 <= a && a <= 239)
        || a >= 240 || (a == 192 && b == 0 && c == 2) || (a == 198 && b == 51 && c == 100) || (a
        == 203 && b == 0 && c == 113) || (a == 0 && b == 0 && c == 0 && d == 0) || a == 0
}

pub fn is_private_ip(ip: IpAddress) -> (res: bool)
    ensures
        res == is_private_address(ip),
{
    match ip {
        IpAddress::V4(o) => {
            assert(o@ =~= seq![o[0], o[1], o[2], o[3]]);
            is_private_v4_exec(o[0], o[1], o[2], o[3])
        },
        IpAddress::V6(s) => {
            let mapped = s[0] == 0 && s[1] == 0 && s[2] == 0 && s[3] == 0 && s[4] == 0 && s[5]
                == 0xffff;
            let mapped_private = mapped && is_private_v4_exec(
                (s[6] / 256) as u8,
                (s[6] % 256) as u8,
                (s[7] / 256) as u8,
                (s[7] % 256) as u8,
            );
            proof {
                assert(mapped_octets(s@) =~= seq![
                    (s[6] / 256) as u8,
                    (s[6] % 256) as u8,
                    (s[7] / 256) as u8,
                    (s[7] % 256) as u8,
                ]);
            }
            let all_zero_prefix = s[0] == 0 && s[1] == 0 && s[2] == 0 && s[3] == 0 && s[4] == 0
                && s[5] == 0 && s[6] == 0;
            mapped_private || (all_zero_prefix && s[7] == 1) || (all_zero_prefix && s[7] == 0) || (
            s[0] & 0xfe00) == 0xfc00 || (s[0] & 0xffc0) == 0xfe80 || (s[0] & 0xff00) == 0xff00
        },
    }
}

/// A name may be contacted only when none of its addresses is private.
pub fn check_resolved_addresses(addresses: &Vec<IpAddress>) -> (res: Result<(), String>)
    ensures
        res is Ok <==> forall|i: int| 0 <= i < addresses.len() ==> !is_private_address(
            #[trigger] addresses@[i],
        ),
        res matches Err(m) ==> m@ == "禁止访问本机、内网或保留地址"@,
{
    let mut i: usize = 0;
    while i < addresses.len()
        invariant
            i <= addresses.len(),
            forall|j: int| 0 <= j < i ==> !is_private_address(#[trigger] addresses@[j]),
        decreases addresses.len() - i,
    {
        if is_private_ip(addresses[i]) {
            return Err(owned("禁止访问本机、内网或保留地址"));
        }
        i = i + 1;
    }
    Ok(())
}

} // verus!

//! URLs as the `url` crate parses them, held as plain parts.
//!
//! Parsing and resolving a reference follow the WHATWG URL standard, which the
//! `url` crate implements; their results are named here, not restated. What the
//! server decides from the parts (schemes, loopback hosts, same-origin checks)
//! is stated and proved where it is used.

use vstd::prelude::*;

use crate::text::opt_text;

verus! {

/// The host of a URL.
#[derive(Debug, Clone, PartialEq, Eq)]
pub enum UrlHost {
    Domain(String),
    Ipv4([u8; 4]),
    Ipv6([u16; 8]),
}

/// A host with its domain name as a character sequence.
pub enum HostView {
    Domain(Seq<char>),
    Ipv4(Seq<u8>),
    Ipv6(Seq<u16>),
}

impl View for UrlHost {
    type V = HostView;

    open spec fn view(&self) -> HostView {
        match self {
            UrlHost::Domain(d) => HostView::Domain(d@),
            UrlHost::Ipv4(a) => HostView::Ipv4(a@),
            UrlHost::Ipv6(a) => HostView::Ipv6(a@),
        }
    }
}

/// The parts of a parsed URL that the server reads.
#[derive(Debug, Clone)]
pub struct ParsedUrl {
    /// The URL as the parser serialises it.
    pub serialization: String,
    pub scheme: String,
    pub username: String,
    pub has_password: bool,
    pub host: Option<UrlHost>,
    /// The port written in the URL, when it is not the scheme's default.
    pub port: Option<u16>,
    /// The port, or the scheme's default one.
    pub port_or_default: Option<u16>,
    pub path: String,
    pub query: Option<String>,
    pub fragment: Option<String>,
}

pub struct ParsedUrlView {
    pub serialization: Seq<char>,
    pub scheme: Seq<char>,
    pub username: Seq<char>,
    pub has_password: bool,
    pub host: Option<HostView>,
    pub port: Option<u16>,
    pub port_or_default: Option<u16>,
    pub path: Seq<char>,
    pub query: Option<Seq<char>>,
    pub fragment: Option<Seq<char>>,
}

pub open spec fn host_view(h: Option<UrlHost>) -> Option<HostView> {
    match h {
        Some(x) => Some(x@),
        None => None,
    }
}

impl View for ParsedUrl {
    type V = ParsedUrlView;

    open spec fn view(&self) -> ParsedUrlView {
        ParsedUrlView {
            serialization: self.serialization@,
            scheme: self.scheme@,
            username: self.username@,
            has_password: self.has_password,
            host: host_view(self.host),
            port: self.port,
            port_or_default: self.port_or_default,
            path: self.path@,
            query: opt_text(self.query),
            fragment: opt_text(self.fragment),
        }
    }
}

pub open spec fn parsed_view(p: Option<ParsedUrl>) -> Option<ParsedUrlView> {
    match p {
        Some(u) => Some(u@),
        None => None,
    }
}

/// What `Url::parse` makes of a text, or `None` when it refuses it.
pub uninterp spec fn url_parse(text: Seq<char>) -> Option<ParsedUrlView>;

/// What `Url::join` makes of a reference against the URL that `Url::parse`
/// reads from `base`, or `None` when either refuses.
pub uninterp spec fn url_join(base: Seq<char>, reference: Seq<char>) -> Option<ParsedUrlView>;

/// `url::Url`, carried only into the conversion below.
#[verifier::external_type_specification]
#[verifier::external_body]
pub struct ExUrl(url::Url);

/// The host of a parsed URL, one arm per variant.
#[verifier::external_body]
fn host_of(url: &url::Url) -> Option<UrlHost> {
    match url.host() {
        Some(url::Host::Domain(d)) => Some(UrlHost::Domain(d.to_string())),
        Some(url::Host::Ipv4(a)) => Some(UrlHost::Ipv4(a.octets())),
        Some(url::Host::Ipv6(a)) => Some(UrlHost::Ipv6(a.segments())),
        None => None,
    }
}

/// Reads the parts of a parsed URL through its accessors; nothing is stated of
/// them here, the wrappers that call it name the result.
#[verifier::external_body]
pub(crate) fn parts_of(url: &url::Url) -> ParsedUrl {
    ParsedUrl {
        serialization: url.as_str().to_string(),
        scheme: url.scheme().to_string(),
        username: url.username().to_string(),
        has_password: url.password().is_some(),
        host: host_of(url),
        port: url.port(),
        port_or_default: url.port_or_known_default(),
        path: url.path().to_string(),
        query: url.query().map(str::to_string),
        fragment: url.fragment().map(str::to_string),
    }
}

/// `Url::parse`, read into its parts.
#[verifier::external_body]
pub fn parse_url(text: &str) -> (r: Option<ParsedUrl>)
    ensures
        parsed_view(r) == url_parse(text@),
{
    url::Url::parse(text).ok().map(|u| parts_of(&u))
}

/// `Url::join` of a reference against a base URL given by its text.
#[verifier::external_body]
pub fn join_url(base: &str, reference: &str) -> (r: Option<ParsedUrl>)
    ensures
        parsed_view(r) == url_join(base@, reference@),
{
    url::Url::parse(base).ok().and_then(|b| b.join(reference).ok()).map(|u| parts_of(&u))
}

/// Schemes whose origin is the tuple of scheme, host and port.
pub open spec fn tuple_scheme(s: Seq<char>) -> bool {
    s == "http"@ || s == "https"@ || s == "ws"@ || s == "wss"@ || s == "ftp"@
}

/// `Url::origin` equality: the same scheme, host and port, for schemes with a
/// tuple origin; other origins are never equal to each other.
pub open spec fn same_origin(a: ParsedUrlView, b: ParsedUrlView) -> bool {
    tuple_scheme(a.scheme) && a.scheme == b.scheme && a.host == b.host && a.port_or_default
        == b.port_or_default
}

pub fn hosts_equal(a: &Option<UrlHost>, b: &Option<UrlHost>) -> (r: bool)
    ensures
        r == (host_view(*a) == host_view(*b)),
{
    match (a, b) {
        (None, None) => true,
        (Some(UrlHost::Domain(x)), Some(UrlHost::Domain(y))) => crate::text::str_eq(
            x.as_str(),
            y.as_str(),
        ),
        (Some(UrlHost::Ipv4(x)), Some(UrlHost::Ipv4(y))) => {
            let r = x[0] == y[0] && x[1] == y[1] && x[2] == y[2] && x[3] == y[3];
            proof {
                if r {
                    assert(x@ =~= y@);
                }
                if x@ == y@ {
                    assert(x@[0] == y@[0] && x@[1] == y@[1] && x@[2] == y@[2] && x@[3] == y@[3]);
                }
            }
            r
        },
        (Some(UrlHost::Ipv6(x)), Some(UrlHost::Ipv6(y))) => {
            let mut i: usize = 0;
            while i < 8
                invariant
                    host_view(*a) == Some(HostView::Ipv6(x@)),
                    host_view(*b) == Some(HostView::Ipv6(y@)),
                    i <= 8,
                    x@.len() == 8,
                    y@.len() == 8,
                    forall|k: int| 0 <= k < i ==> x@[k] == y@[k],
                decreases 8 - i,
            {
                if x[i] != y[i] {
                    assert(x@[i as int] != y@[i as int]);
                    assert(x@ != y@);
                    return false;
                }
                i = i + 1;
            }
            assert(x@ =~= y@);
            true
        },
        _ => false,
    }
}

fn is_tuple_scheme(s: &str) -> (r: bool)
    ensures
        r == tuple_scheme(s@),
{
    crate::text::str_eq(s, "http") || crate::text::str_eq(s, "https") || crate::text::str_eq(
        s,
        "ws",
    ) || crate::text::str_eq(s, "wss") || crate::text::str_eq(s, "ftp")
}

/// Whether two parsed URLs have the same origin.
pub fn origins_match(a: &ParsedUrl, b: &ParsedUrl) -> (r: bool)
    ensures
        r == same_origin(a@, b@),
{
    is_tuple_scheme(a.scheme.as_str()) && crate::text::str_eq(a.scheme.as_str(), b.scheme.as_str())
        && hosts_equal(&a.host, &b.host) && a.port_or_default == b.port_or_default
}

/// A loopback IPv4 address: 127.0.0.0/8.
pub open spec fn ipv4_loopback(a: Seq<u8>) -> bool {
    a.len() == 4 && a[0] == 127
}

/// The IPv6 loopback address `::1`.
pub open spec fn ipv6_loopback(a: Seq<u16>) -> bool {
    a =~= seq![0u16, 0, 0, 0, 0, 0, 0, 1]
}

pub fn is_ipv4_loopback(a: &[u8; 4]) -> (r: bool)
    ensures
        r == ipv4_loopback(a@),
{
    a[0] == 127
}

pub fn is_ipv6_loopback(a: &[u16; 8]) -> (r: bool)
    ensures
        r == ipv6_loopback(a@),
{
    let r = a[0] == 0 && a[1] == 0 && a[2] == 0 && a[3] == 0 && a[4] == 0 && a[5] == 0 && a[6]
        == 0 && a[7] == 1;
    proof {
        if r {
            assert(a@ =~= seq![0u16, 0, 0, 0, 0, 0, 0, 1]);
        }
        if a@ =~= seq![0u16, 0, 0, 0, 0, 0, 0, 1] {
            assert(a@[7] == 1);
            assert(a@[0] == 0);
        }
    }
    r
}

impl UrlHost {
    /// A copy of the host.
    pub fn duplicate(&self) -> (r: Self)
        ensures
            r@ == self@,
    {
        match self {
            UrlHost::Domain(d) => UrlHost::Domain(d.clone()),
            UrlHost::Ipv4(a) => UrlHost::Ipv4(*a),
            UrlHost::Ipv6(a) => UrlHost::Ipv6(*a),
        }
    }
}

impl ParsedUrl {
    /// A copy of the parts.
    pub fn duplicate(&self) -> (r: Self)
        ensures
            r@ == self@,
    {
        ParsedUrl {
            serialization: self.serialization.clone(),
            scheme: self.scheme.clone(),
            username: self.username.clone(),
            has_password: self.has_password,
            host: match &self.host {
                Some(h) => Some(h.duplicate()),
                None => None,
            },
            port: self.port,
            port_or_default: self.port_or_default,
            path: self.path.clone(),
            query: crate::catalog::models::duplicate_text(&self.query),
            fragment: crate::catalog::models::duplicate_text(&self.fragment),
        }
    }
}

} // verus!

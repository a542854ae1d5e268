//! Outbound requests may only reach public addresses.
//!
//! Every hop of a download is resolved first; each address must be publicly
//! routable, and the peer the connection actually reached must be one of them.
//! Redirects are followed by hand so that each hop is checked the same way.

use vstd::prelude::*;

use crate::urls::{HostView, ParsedUrl, ParsedUrlView, UrlHost};

verus! {

/// An IP address, held as its octets or its 16-bit segments.
#[derive(Debug, Clone, Copy, PartialEq, Eq, Hash)]
pub enum IpAddress {
    V4([u8; 4]),
    V6([u16; 8]),
}

pub enum IpView {
    V4(Seq<u8>),
    V6(Seq<u16>),
}

impl View for IpAddress {
    type V = IpView;

    open spec fn view(&self) -> IpView {
        match self {
            IpAddress::V4(a) => IpView::V4(a@),
            IpAddress::V6(a) => IpView::V6(a@),
        }
    }
}

#[derive(Debug, Clone, PartialEq, Eq)]
pub enum NetSecurityError {
    InvalidScheme(String),
    MissingHost,
    DnsLookup { host: String, port: u16, source: String },
    NoResolvedAddresses(String),
    UnsafeAddress(IpAddress),
    ConnectedAddressUnavailable,
    ConnectedAddressMismatch(IpAddress),
    MissingRedirectLocation,
    InvalidRedirectTarget(String),
    RedirectLimitExceeded(u8),
    Request(String),
}

/// Addresses that are not publicly routable: private, loopback, link-local,
/// multicast, unspecified, broadcast and the documentation ranges.
pub open spec fn public_ipv4(a: Seq<u8>) -> bool {
    let private = a[0] == 10 || (a[0] == 172 && 16 <= a[1] && a[1] <= 31) || (a[0] == 192 && a[1]
        == 168);
    let loopback = a[0] == 127;
    let link_local = a[0] == 169 && a[1] == 254;
    let multicast = 224 <= a[0] && a[0] <= 239;
    let unspecified = a[0] == 0 && a[1] == 0 && a[2] == 0 && a[3] == 0;
    let broadcast = a[0] == 255 && a[1] == 255 && a[2] == 255 && a[3] == 255;
    let documentation = (a[0] == 192 && a[1] == 0 && a[2] == 2) || (a[0] == 198 && a[1] == 51
        && a[2] == 100) || (a[0] == 203 && a[1] == 0 && a[2] == 113);
    !(private || loopback || link_local || multicast || unspecified || broadcast || documentation)
}

pub fn is_public_ipv4(a: &[u8; 4]) -> (r: bool)
    ensures
        r == public_ipv4(a@),
{
    let private = a[0] == 10 || (a[0] == 172 && 16 <= a[1] && a[1] <= 31) || (a[0] == 192 && a[1]
        == 168);
    let loopback = a[0] == 127;
    let link_local = a[0] == 169 && a[1] == 254;
    let multicast = 224 <= a[0] && a[0] <= 239;
    let unspecified = a[0] == 0 && a[1] == 0 && a[2] == 0 && a[3] == 0;
    let broadcast = a[0] == 255 && a[1] == 255 && a[2] == 255 && a[3] == 255;
    let documentation = (a[0] == 192 && a[1] == 0 && a[2] == 2) || (a[0] == 198 && a[1] == 51
        && a[2] == 100) || (a[0] == 203 && a[1] == 0 && a[2] == 113);
    !(private || loopback || link_local || multicast || unspecified || broadcast || documentation)
}

/// The IPv4 address an IPv6 address maps (`::ffff:a.b.c.d`), if it is one.
pub open spec fn mapped_ipv4(s: Seq<u16>) -> Option<Seq<u8>> {
    if s[0] == 0 && s[1] == 0 && s[2] == 0 && s[3] == 0 && s[4] == 0 && s[5] == 0xffff {
        Some(seq![(s[6] / 256) as u8, (s[6] % 256) as u8, (s[7] / 256) as u8, (s[7] % 256) as u8])
    } else {
        None
    }
}

/// Public IPv6: not loopback, multicast, unspecified, unique-local, link-local or
/// documentation, and a mapped IPv4 address must itself be public.
pub open spec fn public_ipv6(s: Seq<u16>) -> bool {
    let loopback = s[0] == 0 && s[1] == 0 && s[2] == 0 && s[3] == 0 && s[4] == 0 && s[5] == 0
        && s[6] == 0 && s[7] == 1;
    let unspecified = s[0] == 0 && s[1] == 0 && s[2] == 0 && s[3] == 0 && s[4] == 0 && s[5] == 0
        && s[6] == 0 && s[7] == 0;
    let multicast = s[0] >= 0xff00;
    let unique_local = 0xfc00 <= s[0] && s[0] <= 0xfdff;
    let link_local = 0xfe80 <= s[0] && s[0] <= 0xfebf;
    let documentation = s[0] == 0x2001 && s[1] == 0x0db8;
    if loopback || multicast || unspecified || unique_local || link_local || documentation {
        false
    } else {
        match mapped_ipv4(s) {
            Some(v4) => public_ipv4(v4),
            None => true,
        }
    }
}

fn mapped_of(s: &[u16; 8]) -> (r: Option<[u8; 4]>)
    ensures
        match (r, mapped_ipv4(s@)) {
            (Some(a), Some(b)) => a@ == b,
            (None, None) => true,
            _ => false,
        },
{
    if s[0] == 0 && s[1] == 0 && s[2] == 0 && s[3] == 0 && s[4] == 0 && s[5] == 0xffff {
        let a = [(s[6] / 256) as u8, (s[6] % 256) as u8, (s[7] / 256) as u8, (s[7] % 256) as u8];
        assert(a@ =~= seq![(s@[6] / 256) as u8, (s@[6] % 256) as u8, (s@[7] / 256) as u8, (s@[7] % 256) as u8]);
        Some(a)
    } else {
        None
    }
}

pub fn is_public_ipv6(s: &[u16; 8]) -> (r: bool)
    ensures
        r == public_ipv6(s@),
{
    let loopback = s[0] == 0 && s[1] == 0 && s[2] == 0 && s[3] == 0 && s[4] == 0 && s[5] == 0
        && s[6] == 0 && s[7] == 1;
    let unspecified = s[0] == 0 && s[1] == 0 && s[2] == 0 && s[3] == 0 && s[4] == 0 && s[5] == 0
        && s[6] == 0 && s[7] == 0;
    let multicast = s[0] >= 0xff00;
    let unique_local = 0xfc00 <= s[0] && s[0] <= 0xfdff;
    let link_local = 0xfe80 <= s[0] && s[0] <= 0xfebf;
    let documentation = s[0] == 0x2001 && s[1] == 0x0db8;
    if loopback || multicast || unspecified || unique_local || link_local || documentation {
        return false;
    }
    match mapped_of(s) {
        Some(v4) => is_public_ipv4(&v4),
        None => true,
    }
}

pub open spec fn public_address(a: IpView) -> bool {
    match a {
        IpView::V4(o) => public_ipv4(o),
        IpView::V6(s) => public_ipv6(s),
    }
}

/// A non-public address is refused, naming it.
pub fn ensure_public_address(address: IpAddress) -> (r: Result<(), NetSecurityError>)
    ensures
        r is Ok <==> public_address(address@),
        r matches Err(e) ==> e == NetSecurityError::UnsafeAddress(address),
{
    let allowed = match &address {
        IpAddress::V4(a) => is_public_ipv4(a),
        IpAddress::V6(s) => is_public_ipv6(s),
    };
    if allowed {
        Ok(())
    } else {
        Err(NetSecurityError::UnsafeAddress(address))
    }
}

/// An IPv4-mapped IPv6 address stands for its IPv4 address.
pub open spec fn normalized(a: IpView) -> IpView {
    match a {
        IpView::V6(s) => match mapped_ipv4(s) {
            Some(v4) => IpView::V4(v4),
            None => a,
        },
        _ => a,
    }
}

pub fn normalize_ip(address: IpAddress) -> (r: IpAddress)
    ensures
        r@ == normalized(address@),
{
    match &address {
        IpAddress::V6(s) => match mapped_of(s) {
            Some(v4) => IpAddress::V4(v4),
            None => address,
        },
        _ => address,
    }
}

/// Normalising an address that is already normal leaves it as it is, and a
/// mapped address counts as public exactly when the IPv4 address it stands for
/// does.
pub proof fn lemma_normalizing_is_idempotent(a: IpView)
    ensures
        normalized(normalized(a)) == normalized(a),
        public_address(normalized(a)) == public_address(a),
{
}

fn same_ip(a: &IpAddress, b: &IpAddress) -> (r: bool)
    ensures
        r == (a@ == b@),
{
    match (a, b) {
        (IpAddress::V4(x), IpAddress::V4(y)) => {
            let r = x[0] == y[0] && x[1] == y[1] && x[2] == y[2] && x[3] == y[3];
            proof {
                if r {
                    assert(x@ =~= y@);
                }
                if x@ == y@ {
                    assert(x@[0] == y@[0] && x@[1] == y@[1] && x@[2] == y@[2] && x@[3] == y@[3]);
                }
            }
            r
        },
        (IpAddress::V6(x), IpAddress::V6(y)) => {
            let mut i: usize = 0;
            while i < 8
                invariant
                    a@ == IpView::V6(x@),
                    b@ == IpView::V6(y@),
                    i <= 8,
                    x@.len() == 8,
                    y@.len() == 8,
                    forall|k: int| 0 <= k < i ==> x@[k] == y@[k],
                decreases 8 - i,
            {
                if x[i] != y[i] {
                    assert(x@[i as int] != y@[i as int]);
                    assert(x@ != y@);
                    return false;
                }
                i = i + 1;
            }
            assert(x@ =~= y@);
            true
        },
        _ => false,
    }
}

/// Two addresses are the same host once IPv4-mapped addresses are normalised.
pub fn equivalent_ip(a: IpAddress, b: IpAddress) -> (r: bool)
    ensures
        r == (normalized(a@) == normalized(b@)),
{
    same_ip(&normalize_ip(a), &normalize_ip(b))
}

/// The connected peer must be public and one of the addresses checked before.
pub open spec fn peer_check(validated: Seq<IpAddress>, remote: Option<IpAddress>) -> Result<(), NetSecurityError> {
    match remote {
        None => Err(NetSecurityError::ConnectedAddressUnavailable),
        Some(peer) => if !public_address(peer@) {
            Err(NetSecurityError::UnsafeAddress(peer))
        } else if exists|i: int| 0 <= i < validated.len() && normalized(#[trigger] validated[i]@) == normalized(peer@) {
            Ok(())
        } else {
            Err(NetSecurityError::ConnectedAddressMismatch(peer))
        },
    }
}

pub fn validate_connected_peer(validated_addresses: &[IpAddress], remote: Option<IpAddress>) -> (r: Result<(), NetSecurityError>)
    ensures
        r == peer_check(validated_addresses@, remote),
{
    let peer = match remote {
        Some(p) => p,
        None => return Err(NetSecurityError::ConnectedAddressUnavailable),
    };
    match ensure_public_address(peer) {
        Ok(_) => {},
        Err(e) => return Err(e),
    }
    let mut i: usize = 0;
    while i < validated_addresses.len()
        invariant
            remote == Some(peer),
            public_address(peer@),
            i <= validated_addresses@.len(),
            forall|k: int| 0 <= k < i ==> normalized(#[trigger] validated_addresses@[k]@) != normalized(peer@),
        decreases validated_addresses@.len() - i,
    {
        if equivalent_ip(validated_addresses[i], peer) {
            assert(normalized(validated_addresses@[i as int]@) == normalized(peer@));
            return Ok(());
        }
        i = i + 1;
    }
    Err(NetSecurityError::ConnectedAddressMismatch(peer))
}

/// Only HTTP(S) URLs with a host may be fetched.
pub fn validate_public_http_url(url: &ParsedUrl) -> (r: Result<(), NetSecurityError>)
    ensures
        !(url@.scheme == "http"@ || url@.scheme == "https"@) ==> (r matches Err(
            NetSecurityError::InvalidScheme(s),
        ) && s@ == url@.scheme),
        (url@.scheme == "http"@ || url@.scheme == "https"@) && url@.host is None ==> r
            == Err::<(), NetSecurityError>(NetSecurityError::MissingHost),
        (url@.scheme == "http"@ || url@.scheme == "https"@) && url@.host is Some ==> r is Ok,
{
    if !(crate::text::str_eq(url.scheme.as_str(), "http") || crate::text::str_eq(url.scheme.as_str(), "https")) {
        return Err(NetSecurityError::InvalidScheme(url.scheme.clone()));
    }
    if url.host.is_none() {
        return Err(NetSecurityError::MissingHost);
    }
    Ok(())
}

/// The order of addresses: IPv4 before IPv6, then by octets or segments.
pub open spec fn ip_key(a: IpView) -> Seq<int> {
    match a {
        IpView::V4(o) => Seq::new(5, |j: int| if j == 0 { 0int } else { o[j - 1] as int }),
        IpView::V6(s) => Seq::new(9, |j: int| if j == 0 { 1int } else { s[j - 1] as int }),
    }
}

pub open spec fn lex_less(a: Seq<int>, b: Seq<int>) -> bool
    decreases a.len(),
{
    if a.len() == 0 {
        b.len() > 0
    } else if b.len() == 0 {
        false
    } else if a[0] != b[0] {
        a[0] < b[0]
    } else {
        lex_less(a.drop_first(), b.drop_first())
    }
}

pub open spec fn ip_less(a: IpAddress, b: IpAddress) -> bool {
    lex_less(ip_key(a@), ip_key(b@))
}

/// Strictly increasing, so without repeats.
pub open spec fn strictly_sorted(v: Seq<IpAddress>) -> bool {
    forall|i: int, j: int| 0 <= i < j < v.len() ==> ip_less(#[trigger] v[i], #[trigger] v[j])
}

fn key_of(a: &IpAddress) -> (r: Vec<u32>)
    ensures
        r@.len() == ip_key(a@).len(),
        forall|j: int| 0 <= j < r@.len() ==> #[trigger] r@[j] as int == ip_key(a@)[j],
{
    let mut k: Vec<u32> = Vec::new();
    match a {
        IpAddress::V4(o) => {
            k.push(0);
            let mut i: usize = 0;
            while i < 4
                invariant
                    i <= 4,
                    o@.len() == 4,
                    a@ == IpView::V4(o@),
                    k@.len() == i + 1,
                    forall|j: int| 0 <= j < k@.len() ==> #[trigger] k@[j] as int == ip_key(a@)[j],
                decreases 4 - i,
            {
                k.push(o[i] as u32);
                i = i + 1;
            }
        },
        IpAddress::V6(s) => {
            k.push(1);
            let mut i: usize = 0;
            while i < 8
                invariant
                    i <= 8,
                    s@.len() == 8,
                    a@ == IpView::V6(s@),
                    k@.len() == i + 1,
                    forall|j: int| 0 <= j < k@.len() ==> #[trigger] k@[j] as int == ip_key(a@)[j],
                decreases 8 - i,
            {
                k.push(s[i] as u32);
                i = i + 1;
            }
        },
    }
    k
}

fn key_less(a: &IpAddress, b: &IpAddress) -> (r: bool)
    ensures
        r == ip_less(*a, *b),
{
    let ka = key_of(a);
    let kb = key_of(b);
    let ghost xa = ip_key(a@);
    let ghost xb = ip_key(b@);
    let mut i: usize = 0;
    assert(xa.skip(0) =~= xa);
    assert(xb.skip(0) =~= xb);
    while i < ka.len() && i < kb.len()
        invariant
            i <= ka@.len(),
            i <= kb@.len(),
            xa == ip_key(a@),
            xb == ip_key(b@),
            ka@.len() == xa.len(),
            kb@.len() == xb.len(),
            forall|j: int| 0 <= j < ka@.len() ==> #[trigger] ka@[j] as int == xa[j],
            forall|j: int| 0 <= j < kb@.len() ==> #[trigger] kb@[j] as int == xb[j],
            ip_less(*a, *b) == lex_less(xa.skip(i as int), xb.skip(i as int)),
        decreases ka@.len() - i,
    {
        assert(xa.skip(i as int)[0] == ka@[i as int] as int);
        assert(xb.skip(i as int)[0] == kb@[i as int] as int);
        if ka[i] != kb[i] {
            return ka[i] < kb[i];
        }
        assert(xa.skip(i as int).drop_first() =~= xa.skip(i + 1));
        assert(xb.skip(i as int).drop_first() =~= xb.skip(i + 1));
        i = i + 1;
    }
    i < kb.len()
}

proof fn lemma_lex_trans(a: Seq<int>, b: Seq<int>, c: Seq<int>)
    requires
        lex_less(a, b),
        lex_less(b, c),
    ensures
        lex_less(a, c),
    decreases a.len(),
{
    if a.len() > 0 && b.len() > 0 && c.len() > 0 && a[0] == b[0] && b[0] == c[0] {
        lemma_lex_trans(a.drop_first(), b.drop_first(), c.drop_first());
    }
}

proof fn lemma_lex_total(a: Seq<int>, b: Seq<int>)
    ensures
        a =~= b || lex_less(a, b) || lex_less(b, a),
    decreases a.len(),
{
    if a.len() > 0 && b.len() > 0 && a[0] == b[0] {
        lemma_lex_total(a.drop_first(), b.drop_first());
        if a.drop_first() =~= b.drop_first() {
            assert(a =~= seq![a[0]] + a.drop_first());
            assert(b =~= seq![b[0]] + b.drop_first());
        }
    }
}

proof fn lemma_lex_asym(a: Seq<int>, b: Seq<int>)
    requires
        lex_less(a, b),
    ensures
        !lex_less(b, a),
        a != b,
    decreases a.len(),
{
    if a.len() > 0 && b.len() > 0 && a[0] == b[0] {
        lemma_lex_asym(a.drop_first(), b.drop_first());
        if a == b {
            assert(a.drop_first() == b.drop_first());
        }
    }
}

proof fn lemma_key_injective(x: IpAddress, y: IpAddress)
    requires
        ip_key(x@) == ip_key(y@),
    ensures
        x@ == y@,
{
    let kx = ip_key(x@);
    let ky = ip_key(y@);
    match x {
        IpAddress::V4(a) => {
            assert(kx.len() == 5);
            match y {
                IpAddress::V4(b) => {
                    assert forall|j: int| 0 <= j < 4 implies a@[j] == b@[j] by {
                        assert(kx[j + 1] == a@[j] as int);
                        assert(ky[j + 1] == b@[j] as int);
                    }
                    assert(a@ =~= b@);
                },
                IpAddress::V6(_) => {
                    assert(ky.len() == 9);
                },
            }
        },
        IpAddress::V6(a) => {
            assert(kx.len() == 9);
            match y {
                IpAddress::V6(b) => {
                    assert forall|j: int| 0 <= j < 8 implies a@[j] == b@[j] by {
                        assert(kx[j + 1] == a@[j] as int);
                        assert(ky[j + 1] == b@[j] as int);
                    }
                    assert(a@ =~= b@);
                },
                IpAddress::V4(_) => {
                    assert(ky.len() == 5);
                },
            }
        },
    }
}

pub open spec fn views(v: Seq<IpAddress>) -> Seq<IpView> {
    v.map_values(|a: IpAddress| a@)
}

/// Adds an address to a sorted list unless it is there already.
fn insert_sorted(v: &mut Vec<IpAddress>, a: IpAddress)
    requires
        strictly_sorted(old(v)@),
    ensures
        strictly_sorted(final(v)@),
        forall|x: IpView| views(final(v)@).contains(x) <==> (views(old(v)@).contains(x) || x == a@),
{
    let mut i: usize = 0;
    while i < v.len() && key_less(&v[i], &a)
        invariant
            i <= v@.len(),
            strictly_sorted(v@),
            v@ == old(v)@,
            forall|k: int| 0 <= k < i ==> ip_less(#[trigger] v@[k], a),
        decreases v@.len() - i,
    {
        i = i + 1;
    }
    if i < v.len() && !key_less(&a, &v[i]) {
        proof {
            lemma_lex_total(ip_key(v@[i as int]@), ip_key(a@));
            lemma_key_injective(v@[i as int], a);
            assert(views(v@)[i as int] == a@);
            assert(views(v@).contains(a@));
            assert forall|x: IpView| views(v@).contains(x) <==> (views(old(v)@).contains(x) || x == a@) by {
                if x == a@ {
                    assert(views(v@)[i as int] == x);
                }
            }
        }
        return;
    }
    let ghost before = v@;
    assert(before == old(v)@);
    proof {
        if i < before.len() {
            lemma_lex_total(ip_key(before[i as int]@), ip_key(a@));
        }
    }
    v.insert(i, a);
    assert(v@ == before.insert(i as int, a));
    assert forall|p: int, q: int| 0 <= p < q < v@.len() implies ip_less(#[trigger] v@[p], #[trigger] v@[q]) by {
        if q < i {
        } else if q == i {
        } else if p < i {
            assert(ip_less(before[p], a));
            assert(ip_less(a, before[i as int]));
            if q - 1 > i {
                assert(ip_less(before[i as int], before[q - 1]));
                lemma_lex_trans(ip_key(a@), ip_key(before[i as int]@), ip_key(before[q - 1]@));
            }
            lemma_lex_trans(ip_key(before[p]@), ip_key(a@), ip_key(before[q - 1]@));
        } else if p == i {
            if q - 1 > i {
                assert(ip_less(before[i as int], before[q - 1]));
                lemma_lex_trans(ip_key(a@), ip_key(before[i as int]@), ip_key(before[q - 1]@));
            }
        } else {
            assert(ip_less(before[p - 1], before[q - 1]));
        }
    }
    assert forall|x: IpView| views(v@).contains(x) <==> (views(before).contains(x) || x == a@) by {
        if views(v@).contains(x) {
            let k = choose|k: int| 0 <= k < views(v@).len() && views(v@)[k] == x;
            if k < i {
                assert(views(before)[k] == x);
            } else if k > i {
                assert(views(before)[k - 1] == x);
            }
        }
        if views(before).contains(x) {
            let k = choose|k: int| 0 <= k < views(before).len() && views(before)[k] == x;
            if k < i {
                assert(views(v@)[k] == x);
            } else {
                assert(views(v@)[k + 1] == x);
            }
        }
        if x == a@ {
            assert(views(v@)[i as int] == x);
        }
    }
    assert(forall|x: IpView| views(v@).contains(x) <==> (views(old(v)@).contains(x) || x == a@));
}

/// The resolved addresses, each once, in increasing order.
pub fn sorted_unique(list: &Vec<IpAddress>) -> (r: Vec<IpAddress>)
    ensures
        strictly_sorted(r@),
        forall|x: IpView| views(r@).contains(x) <==> views(list@).contains(x),
{
    let mut out: Vec<IpAddress> = Vec::new();
    let mut i: usize = 0;
    while i < list.len()
        invariant
            i <= list@.len(),
            strictly_sorted(out@),
            forall|x: IpView| views(out@).contains(x) <==> views(list@.take(i as int)).contains(x),
        decreases list@.len() - i,
    {
        insert_sorted(&mut out, list[i]);
        proof {
            let next = list@.take(i + 1);
            assert(next =~= list@.take(i as int).push(list@[i as int]));
            assert forall|x: IpView| views(next).contains(x) <==> (views(list@.take(i as int)).contains(x) || x == list@[i as int]@) by {
                if views(next).contains(x) {
                    let k = choose|k: int| 0 <= k < views(next).len() && views(next)[k] == x;
                    if k < i {
                        assert(views(list@.take(i as int))[k] == x);
                    }
                }
                if views(list@.take(i as int)).contains(x) {
                    let k = choose|k: int| 0 <= k < views(list@.take(i as int)).len() && views(list@.take(i as int))[k] == x;
                    assert(views(next)[k] == x);
                }
                if x == list@[i as int]@ {
                    assert(views(next)[i as int] == x);
                }
            }
        }
        i = i + 1;
    }
    assert(list@.take(list@.len() as int) =~= list@);
    out
}

/// The host name and port to look up for a URL whose host is a name.
pub fn lookup_target(url: &ParsedUrl) -> (r: Option<(String, u16)>)
    ensures
        match (r, url@.host, url@.port_or_default) {
            (Some((h, p)), Some(HostView::Domain(d)), Some(q)) => h@ == d && p == q,
            (None, Some(HostView::Domain(_)), Some(_)) => false,
            _ => r is None,
        },
{
    match (&url.host, url.port_or_default) {
        (Some(UrlHost::Domain(d)), Some(port)) => Some((d.clone(), port)),
        _ => None,
    }
}

/// Whether every address is public.
pub open spec fn all_public(v: Seq<IpAddress>) -> bool {
    forall|i: int| 0 <= i < v.len() ==> public_address(#[trigger] v[i]@)
}

fn first_unsafe(v: &Vec<IpAddress>) -> (r: Result<(), NetSecurityError>)
    ensures
        r is Ok <==> all_public(v@),
        r matches Err(e) ==> exists|k: int| 0 <= k < v@.len() && e == NetSecurityError::UnsafeAddress(#[trigger] v@[k])
            && !public_address(v@[k]@) && forall|j: int| 0 <= j < k ==> public_address(#[trigger] v@[j]@),
{
    let mut i: usize = 0;
    while i < v.len()
        invariant
            i <= v@.len(),
            forall|j: int| 0 <= j < i ==> public_address(#[trigger] v@[j]@),
        decreases v@.len() - i,
    {
        match ensure_public_address(v[i]) {
            Ok(_) => {},
            Err(e) => {
                assert(e == NetSecurityError::UnsafeAddress(v@[i as int]));
                return Err(e);
            },
        }
        i = i + 1;
    }
    Ok(())
}

/// The public addresses a URL leads to: its literal IP address, or the addresses
/// its host name resolved to, each once and in order; every one must be public.
pub fn public_addresses(url: &ParsedUrl, lookup: Result<Vec<IpAddress>, String>) -> (r: Result<Vec<IpAddress>, NetSecurityError>)
    ensures
        !(url@.scheme == "http"@ || url@.scheme == "https"@) ==> (r matches Err(
            NetSecurityError::InvalidScheme(s),
        ) && s@ == url@.scheme),
        (url@.scheme == "http"@ || url@.scheme == "https"@) && (url@.host is None
            || url@.port_or_default is None) ==> r == Err::<Vec<IpAddress>, NetSecurityError>(
            NetSecurityError::MissingHost,
        ),
        r matches Ok(v) ==> strictly_sorted(v@) && all_public(v@) && v@.len() > 0,
        (url@.scheme == "http"@ || url@.scheme == "https"@) && url@.port_or_default is Some ==> match url.host {
            Some(UrlHost::Ipv4(a)) => match r {
                Ok(v) => v@ == seq![IpAddress::V4(a)],
                Err(e) => e == NetSecurityError::UnsafeAddress(IpAddress::V4(a)) && !public_address(IpView::V4(a@)),
            },
            Some(UrlHost::Ipv6(a)) => match r {
                Ok(v) => v@ == seq![IpAddress::V6(a)],
                Err(e) => e == NetSecurityError::UnsafeAddress(IpAddress::V6(a)) && !public_address(IpView::V6(a@)),
            },
            Some(UrlHost::Domain(d)) => match lookup {
                Err(msg) => r matches Err(NetSecurityError::DnsLookup { host, port, source }) && host@ == d@
                    && port == url@.port_or_default->0 && source@ == msg@,
                Ok(found) => if found@.len() == 0 {
                    r matches Err(NetSecurityError::NoResolvedAddresses(h)) && h@ == d@
                } else {
                    match r {
                        Ok(v) => forall|x: IpView| views(v@).contains(x) <==> views(found@).contains(x),
                        Err(e) => exists|x: IpAddress| e == NetSecurityError::UnsafeAddress(x)
                            && views(found@).contains(x@) && !public_address(x@) && forall|y: IpAddress|
                            views(found@).contains(y@) && #[trigger] ip_less(y, x) ==> public_address(y@),
                    }
                },
            },
            None => true,
        },
{
    let ghost lookup_v = lookup;
    match validate_public_http_url(url) {
        Ok(_) => {},
        Err(e) => return Err(e),
    }
    let port = match url.port_or_default {
        Some(p) => p,
        None => return Err(NetSecurityError::MissingHost),
    };
    let addresses: Vec<IpAddress> = match &url.host {
        None => return Err(NetSecurityError::MissingHost),
        Some(UrlHost::Ipv4(a)) => {
            let v = vec![IpAddress::V4(*a)];
            assert(v@ =~= seq![IpAddress::V4(*a)]);
            v
        },
        Some(UrlHost::Ipv6(a)) => {
            let v = vec![IpAddress::V6(*a)];
            assert(v@ =~= seq![IpAddress::V6(*a)]);
            v
        },
        Some(UrlHost::Domain(d)) => match lookup {
            Err(msg) => return Err(NetSecurityError::DnsLookup { host: d.clone(), port, source: msg }),
            Ok(found) => {
                if found.len() == 0 {
                    return Err(NetSecurityError::NoResolvedAddresses(d.clone()));
                }
                let v = sorted_unique(&found);
                proof {
                    assert(views(found@)[0] == found@[0]@);
                    assert(views(found@).contains(found@[0]@));
                    assert(views(v@).contains(found@[0]@));
                }
                v
            },
        },
    };
    match first_unsafe(&addresses) {
        Ok(_) => {},
        Err(e) => {
            proof {
                if url.host matches Some(UrlHost::Domain(_)) {
                    let k = choose|k: int| 0 <= k < addresses@.len() && e == NetSecurityError::UnsafeAddress(#[trigger] addresses@[k])
                        && !public_address(addresses@[k]@) && forall|j: int| 0 <= j < k ==> public_address(#[trigger] addresses@[j]@);
                    let x = addresses@[k];
                    assert(views(addresses@)[k] == x@);
                    assert forall|y: IpAddress| views(lookup_v->Ok_0@).contains(y@) && #[trigger] ip_less(y, x) implies public_address(y@) by {
                        assert(views(addresses@).contains(y@));
                        let m = choose|m: int| 0 <= m < views(addresses@).len() && views(addresses@)[m] == y@;
                        if m >= k {
                            if m > k {
                                assert(ip_less(addresses@[k], addresses@[m]));
                                assert(ip_key(addresses@[m]@) == ip_key(y@));
                                lemma_lex_asym(ip_key(y@), ip_key(x@));
                            } else {
                                assert(ip_key(y@) == ip_key(x@));
                                lemma_lex_asym(ip_key(y@), ip_key(x@));
                            }
                        }
                        assert(public_address(addresses@[m]@));
                    }
                }
            }
            return Err(e);
        },
    }
    Ok(addresses)
}

/// What follows a checked response.
pub enum RedirectOutcome {
    /// The response is the answer.
    Answer,
    Follow(ParsedUrlView),
    LimitExceeded,
    MissingLocation,
    /// The `Location` header, or `<non-utf8>` when it is not UTF-8.
    InvalidTarget(Seq<char>),
}

/// `location` is the `Location` header: `None` when absent, `Some(None)` when it
/// is not UTF-8.
pub open spec fn redirect_step(
    redirect_count: u8,
    maximum_redirects: u8,
    status: u16,
    location: Option<Option<Seq<char>>>,
    current: ParsedUrlView,
) -> RedirectOutcome {
    if !(300 <= status && status <= 399) {
        RedirectOutcome::Answer
    } else if redirect_count == maximum_redirects {
        RedirectOutcome::LimitExceeded
    } else {
        match location {
            None => RedirectOutcome::MissingLocation,
            Some(None) => RedirectOutcome::InvalidTarget("<non-utf8>"@),
            Some(Some(l)) => match crate::urls::url_join(current.serialization, l) {
                Some(next) => RedirectOutcome::Follow(next),
                None => RedirectOutcome::InvalidTarget(l),
            },
        }
    }
}

/// Decides what follows a response on the way through redirects.
pub fn redirect_next(
    redirect_count: u8,
    maximum_redirects: u8,
    status: u16,
    location: Option<Option<String>>,
    current: &ParsedUrl,
) -> (r: Result<Option<ParsedUrl>, NetSecurityError>)
    ensures
        match redirect_step(
            redirect_count,
            maximum_redirects,
            status,
            match location {
                None => None,
                Some(l) => Some(crate::text::opt_text(l)),
            },
            current@,
        ) {
            RedirectOutcome::Answer => r matches Ok(None),
            RedirectOutcome::Follow(next) => r matches Ok(Some(u)) && u@ == next,
            RedirectOutcome::LimitExceeded => r == Err::<Option<ParsedUrl>, NetSecurityError>(
                NetSecurityError::RedirectLimitExceeded(maximum_redirects),
            ),
            RedirectOutcome::MissingLocation => r == Err::<Option<ParsedUrl>, NetSecurityError>(
                NetSecurityError::MissingRedirectLocation,
            ),
            RedirectOutcome::InvalidTarget(t) => r matches Err(NetSecurityError::InvalidRedirectTarget(s))
                && s@ == t,
        },
{
    if !(300 <= status && status <= 399) {
        return Ok(None);
    }
    if redirect_count == maximum_redirects {
        return Err(NetSecurityError::RedirectLimitExceeded(maximum_redirects));
    }
    match location {
        None => Err(NetSecurityError::MissingRedirectLocation),
        Some(None) => Err(NetSecurityError::InvalidRedirectTarget(crate::text::owned("<non-utf8>"))),
        Some(Some(l)) => match crate::urls::join_url(current.serialization.as_str(), l.as_str()) {
            Some(next) => Ok(Some(next)),
            None => Err(NetSecurityError::InvalidRedirectTarget(l)),
        },
    }
}

} // verus!

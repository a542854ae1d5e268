//! In-memory visitor sessions for the authenticated MovieBox API.
//!
//! A visitor token is an authorization secret: it never leaves this process.

use vstd::prelude::*;

use base64::Engine;

use crate::json::{field, get, JsonNumber, JsonValue};
use crate::text::{
    chars_of, dec_digits, dec_string, is_blank, owned, parse_unsigned, parse_unsigned_chars,
    signed_dec_digits, signed_dec_string, str_blank, string_of,
};

verus! {

/// Seconds after creation that a token without an expiry stays usable: one week.
pub const UNDATED_TOKEN_LIFETIME: u64 = 7 * 24 * 3600;

/// A token is refreshed this many seconds before it expires.
pub const EXPIRY_MARGIN: u64 = 60;

#[derive(Clone, PartialEq, Eq)]
pub struct MovieBoxSession {
    pub token: String,
    pub user_id: Option<String>,
    pub expires_at: Option<u64>,
    pub created_at: u64,
}

/// `u64::saturating_add`.
pub open spec fn saturating_sum(a: u64, b: u64) -> u64 {
    if a + b > u64::MAX {
        u64::MAX
    } else {
        (a + b) as u64
    }
}

/// Whether the session can still be used at `now` (seconds since the epoch): the
/// token is not blank, and it is more than a minute from its expiry, or, without
/// one, less than a week old.
pub open spec fn session_valid_at(s: MovieBoxSession, now: u64) -> bool {
    !is_blank(s.token@) && match s.expires_at {
        Some(e) => saturating_sum(now, EXPIRY_MARGIN) < e,
        None => now < saturating_sum(s.created_at, UNDATED_TOKEN_LIFETIME),
    }
}

/// Seconds since the Unix epoch by the system clock (zero before the epoch).
#[verifier::external_body]
fn now_seconds() -> u64 {
    std::time::SystemTime::now().duration_since(std::time::UNIX_EPOCH).unwrap_or_default().as_secs()
}

impl MovieBoxSession {
    /// A session created now.
    pub fn new(token: String, user_id: Option<String>, expires_at: Option<u64>) -> (r: Self)
        ensures
            r.token == token,
            r.user_id == user_id,
            r.expires_at == expires_at,
    {
        let created_at = now_seconds();
        MovieBoxSession { token, user_id, expires_at, created_at }
    }

    /// A session whose user id is the explicit one when given, else the token's
    /// claim, and whose expiry is the token's claim.
    pub fn from_token_and_payload(
        token: String,
        explicit_uid: Option<String>,
        claims: (Option<String>, Option<u64>),
    ) -> (r: Self)
        ensures
            r.token == token,
            r.user_id == (match explicit_uid {
                Some(u) => Some(u),
                None => claims.0,
            }),
            r.expires_at == claims.1,
    {
        let user_id = match explicit_uid {
            Some(u) => Some(u),
            None => claims.0,
        };
        Self::new(token, user_id, claims.1)
    }

    pub fn token(&self) -> (r: &str)
        ensures
            r@ == self.token@,
    {
        self.token.as_str()
    }

    pub fn user_id(&self) -> (r: Option<&str>)
        ensures
            match self.user_id {
                Some(u) => r matches Some(x) && x@ == u@,
                None => r is None,
            },
    {
        match &self.user_id {
            Some(u) => Some(u.as_str()),
            None => None,
        }
    }

    /// Whether the session can be used at the given time.
    pub fn is_valid_at(&self, now: u64) -> (r: bool)
        ensures
            r == session_valid_at(*self, now),
    {
        if str_blank(self.token.as_str()) {
            return false;
        }
        match self.expires_at {
            Some(expires_at) => now.saturating_add(EXPIRY_MARGIN) < expires_at,
            None => now < self.created_at.saturating_add(UNDATED_TOKEN_LIFETIME),
        }
    }

    /// Whether the session can be used now; there is some time at which the
    /// answer is the one given.
    pub fn is_valid(&self) -> (r: bool)
        ensures
            exists|now: u64| r == session_valid_at(*self, now),
    {
        let now = now_seconds();
        self.is_valid_at(now)
    }
}

/// The token of the current session when it can still be used at `now`; without
/// one a new visitor login is needed.
pub fn reusable_token(current: &Option<MovieBoxSession>, now: u64) -> (r: Option<String>)
    ensures
        match *current {
            Some(s) => if session_valid_at(s, now) {
                r matches Some(t) && t@ == s.token@
            } else {
                r is None
            },
            None => r is None,
        },
{
    match current {
        Some(s) => if s.is_valid_at(now) {
            Some(owned(s.token()))
        } else {
            None
        },
        None => None,
    }
}

/// A JSON value of a token claim, as far as the claim reading needs it.
#[derive(Debug, Clone, PartialEq, Eq)]
pub enum ClaimValue {
    Text(String),
    Unsigned(u64),
    Signed(i64),
    Other,
}

/// The claims of a token's payload that identify the visitor.
#[derive(Debug, Clone, PartialEq, Eq)]
pub struct JwtClaims {
    pub user_id: Option<ClaimValue>,
    pub uid: Option<ClaimValue>,
    pub sub: Option<ClaimValue>,
    pub exp: Option<ClaimValue>,
}

/// What a payload member gives a claim: strings and integers as they are,
/// any other value as `Other`.
pub open spec fn claim_value(v: Option<JsonValue>) -> Option<ClaimValue> {
    match v {
        None => None,
        Some(JsonValue::String(s)) => Some(ClaimValue::Text(s)),
        Some(JsonValue::Number(JsonNumber::PosInt(n))) => Some(ClaimValue::Unsigned(n)),
        Some(JsonValue::Number(JsonNumber::NegInt(n))) => Some(ClaimValue::Signed(n)),
        Some(_) => Some(ClaimValue::Other),
    }
}

fn claim_at(payload: &JsonValue, key: &str) -> (r: Option<ClaimValue>)
    ensures
        r == claim_value(field(*payload, key@)),
{
    match get(payload, key) {
        None => None,
        Some(JsonValue::String(s)) => Some(ClaimValue::Text(s.clone())),
        Some(JsonValue::Number(JsonNumber::PosInt(n))) => Some(ClaimValue::Unsigned(*n)),
        Some(JsonValue::Number(JsonNumber::NegInt(n))) => Some(ClaimValue::Signed(*n)),
        Some(_) => Some(ClaimValue::Other),
    }
}

/// The identifying claims of a token's decoded payload: its `userId`, `uid`,
/// `sub` and `exp` members.
pub fn claims_of(payload: &JsonValue) -> (r: JwtClaims)
    ensures
        r.user_id == claim_value(field(*payload, "userId"@)),
        r.uid == claim_value(field(*payload, "uid"@)),
        r.sub == claim_value(field(*payload, "sub"@)),
        r.exp == claim_value(field(*payload, "exp"@)),
{
    JwtClaims {
        user_id: claim_at(payload, "userId"),
        uid: claim_at(payload, "uid"),
        sub: claim_at(payload, "sub"),
        exp: claim_at(payload, "exp"),
    }
}

/// A claim read as an identifier: text as it is, numbers in decimal.
pub open spec fn claim_identifier(v: Option<ClaimValue>) -> Option<Seq<char>> {
    match v {
        Some(ClaimValue::Text(s)) => Some(s@),
        Some(ClaimValue::Unsigned(n)) => Some(dec_string(n as nat)),
        Some(ClaimValue::Signed(n)) => Some(signed_dec_string(n as int)),
        _ => None,
    }
}

/// A claim read as an expiry: a non-negative number, or text holding one.
pub open spec fn claim_expiry(v: Option<ClaimValue>) -> Option<u64> {
    match v {
        Some(ClaimValue::Unsigned(n)) => Some(n),
        Some(ClaimValue::Signed(n)) => if n >= 0 {
            Some(n as u64)
        } else {
            None
        },
        Some(ClaimValue::Text(s)) => match parse_unsigned(s@, u64::MAX as nat) {
            Some(n) => Some(n as u64),
            None => None,
        },
        _ => None,
    }
}

fn identifier_of(v: &Option<ClaimValue>) -> (r: Option<String>)
    ensures
        match r {
            Some(s) => claim_identifier(*v) == Some(s@),
            None => claim_identifier(*v) is None,
        },
{
    match v {
        Some(ClaimValue::Text(s)) => Some(s.clone()),
        Some(ClaimValue::Unsigned(n)) => Some(string_of(dec_digits(*n).as_slice())),
        Some(ClaimValue::Signed(n)) => Some(string_of(signed_dec_digits(*n).as_slice())),
        _ => None,
    }
}

/// The visitor id (`userId`, else `uid`, else `sub`) and expiry (`exp`) of the claims.
pub fn claims_identity(claims: &JwtClaims) -> (r: (Option<String>, Option<u64>))
    ensures
        match r.0 {
            Some(s) => Some(s@) == (if claim_identifier(claims.user_id) is Some {
                claim_identifier(claims.user_id)
            } else if claim_identifier(claims.uid) is Some {
                claim_identifier(claims.uid)
            } else {
                claim_identifier(claims.sub)
            }),
            None => claim_identifier(claims.user_id) is None && claim_identifier(claims.uid) is None
                && claim_identifier(claims.sub) is None,
        },
        r.1 == claim_expiry(claims.exp),
{
    let user = match identifier_of(&claims.user_id) {
        Some(s) => Some(s),
        None => match identifier_of(&claims.uid) {
            Some(s) => Some(s),
            None => identifier_of(&claims.sub),
        },
    };
    let exp = match &claims.exp {
        Some(ClaimValue::Unsigned(n)) => Some(*n),
        Some(ClaimValue::Signed(n)) => if *n >= 0 {
            Some(*n as u64)
        } else {
            None
        },
        Some(ClaimValue::Text(s)) => {
            let chars = chars_of(s.as_str());
            parse_unsigned_chars(chars.as_slice(), u64::MAX)
        },
        _ => None,
    };
    (user, exp)
}

/// The second `.`-separated segment of a token, as `split('.').nth(1)` gives it.
pub open spec fn jwt_payload_segment(token: Seq<char>) -> Option<Seq<char>> {
    if !token.contains('.') {
        None
    } else {
        let a = choose|i: int| 0 <= i < token.len() && token[i] == '.' && forall|j: int|
            0 <= j < i ==> token[j] != '.';
        let rest = token.subrange(a + 1, token.len() as int);
        if rest.contains('.') {
            let b = choose|i: int| 0 <= i < rest.len() && rest[i] == '.' && forall|j: int|
                0 <= j < i ==> rest[j] != '.';
            Some(rest.subrange(0, b))
        } else {
            Some(rest)
        }
    }
}

/// The segment padded with `=` to a multiple of four characters.
pub open spec fn padded(segment: Seq<char>) -> Seq<char> {
    let padding = (4 - segment.len() % 4) % 4;
    segment + Seq::new(padding as nat, |i: int| '=')
}

/// What `URL_SAFE_NO_PAD` decodes from a text, `None` where it refuses it.
pub uninterp spec fn base64_url_unpadded(text: Seq<char>) -> Option<Seq<u8>>;

/// What `URL_SAFE` (padded) decodes from a text, `None` where it refuses it.
pub uninterp spec fn base64_url_padded(text: Seq<char>) -> Option<Seq<u8>>;

/// What `STANDARD` decodes from a text, `None` where it refuses it.
pub uninterp spec fn base64_standard(text: Seq<char>) -> Option<Seq<u8>>;

/// `URL_SAFE_NO_PAD.decode`.
#[verifier::external_body]
fn decode_url_unpadded(text: &str) -> (r: Option<Vec<u8>>)
    ensures
        match r {
            Some(v) => base64_url_unpadded(text@) == Some(v@),
            None => base64_url_unpadded(text@) is None,
        },
{
    base64::engine::general_purpose::URL_SAFE_NO_PAD.decode(text).ok()
}

/// `URL_SAFE.decode`.
#[verifier::external_body]
fn decode_url_padded(text: &str) -> (r: Option<Vec<u8>>)
    ensures
        match r {
            Some(v) => base64_url_padded(text@) == Some(v@),
            None => base64_url_padded(text@) is None,
        },
{
    base64::engine::general_purpose::URL_SAFE.decode(text).ok()
}

/// `STANDARD.decode`.
#[verifier::external_body]
fn decode_standard(text: &str) -> (r: Option<Vec<u8>>)
    ensures
        match r {
            Some(v) => base64_standard(text@) == Some(v@),
            None => base64_standard(text@) is None,
        },
{
    base64::engine::general_purpose::STANDARD.decode(text).ok()
}

/// The decoded payload of a token: its second segment, read as unpadded URL-safe
/// base64, else padded URL-safe, else standard base64.
pub open spec fn jwt_payload_bytes(token: Seq<char>) -> Option<Seq<u8>> {
    match jwt_payload_segment(token) {
        None => None,
        Some(seg) => match base64_url_unpadded(seg) {
            Some(b) => Some(b),
            None => match base64_url_padded(padded(seg)) {
                Some(b) => Some(b),
                None => base64_standard(padded(seg)),
            },
        },
    }
}

fn first_dot_from(v: &[char], start: usize) -> (r: Option<usize>)
    requires
        start <= v@.len(),
    ensures
        match r {
            Some(i) => start <= i < v@.len() && v@[i as int] == '.' && forall|j: int|
                start <= j < i ==> v@[j] != '.',
            None => forall|j: int| start <= j < v@.len() ==> v@[j] != '.',
        },
{
    let mut i = start;
    while i < v.len()
        invariant
            start <= i <= v@.len(),
            forall|j: int| start <= j < i ==> v@[j] != '.',
        decreases v@.len() - i,
    {
        if v[i] == '.' {
            return Some(i);
        }
        i = i + 1;
    }
    None
}

/// The token's payload segment.
pub fn payload_segment(token: &str) -> (r: Option<String>)
    ensures
        match r {
            Some(s) => jwt_payload_segment(token@) == Some(s@),
            None => jwt_payload_segment(token@) is None,
        },
{
    let chars = chars_of(token);
    let a = match first_dot_from(chars.as_slice(), 0) {
        Some(a) => a,
        None => return None,
    };
    proof {
        let d = choose|i: int| 0 <= i < token@.len() && token@[i] == '.' && forall|j: int|
            0 <= j < i ==> token@[j] != '.';
        assert(d == a as int) by {
            if d < a {
                assert(chars@[d] != '.');
            }
            if d > a {
                assert(token@[a as int] == '.');
            }
        }
    }
    let ghost rest = token@.subrange(a + 1, token@.len() as int);
    assert(a < chars.len());
    match first_dot_from(chars.as_slice(), a + 1) {
        Some(b) => {
            proof {
                assert(rest[b - a - 1] == '.');
                let e = choose|i: int| 0 <= i < rest.len() && rest[i] == '.' && forall|j: int|
                    0 <= j < i ==> rest[j] != '.';
                assert(e == b - a - 1) by {
                    if e < b - a - 1 {
                        assert(rest[e] == chars@[e + a + 1]);
                    }
                    if e > b - a - 1 {
                        assert(rest[b - a - 1] == '.');
                    }
                }
                assert(rest.subrange(0, b - a - 1) =~= chars@.subrange(a + 1, b as int));
            }
            Some(string_of(crate::text::slice_chars(chars.as_slice(), a + 1, b).as_slice()))
        },
        None => {
            proof {
                if rest.contains('.') {
                    let k = choose|k: int| 0 <= k < rest.len() && rest[k] == '.';
                    assert(chars@[k + a + 1] == '.');
                }
                assert(rest =~= chars@.subrange(a + 1, chars@.len() as int));
            }
            Some(string_of(crate::text::slice_chars(chars.as_slice(), a + 1, chars.len()).as_slice()))
        },
    }
}

/// The decoded payload of a token, before its JSON is read.
pub fn jwt_payload(token: &str) -> (r: Option<Vec<u8>>)
    ensures
        match r {
            Some(v) => jwt_payload_bytes(token@) == Some(v@),
            None => jwt_payload_bytes(token@) is None,
        },
{
    let segment = match payload_segment(token) {
        Some(s) => s,
        None => return None,
    };
    if let Some(bytes) = decode_url_unpadded(segment.as_str()) {
        return Some(bytes);
    }
    let len = segment.as_str().unicode_len();
    let padding = (4 - len % 4) % 4;
    let mut text = segment.clone();
    let mut k: usize = 0;
    while k < padding
        invariant
            k <= padding <= 3,
            text@ == segment@ + Seq::new(k as nat, |i: int| '='),
        decreases padding - k,
    {
        crate::text::push_char(&mut text, '=');
        k = k + 1;
        assert(text@ =~= segment@ + Seq::new(k as nat, |i: int| '='));
    }
    assert(text@ == padded(segment@));
    if let Some(bytes) = decode_url_padded(text.as_str()) {
        return Some(bytes);
    }
    decode_standard(text.as_str())
}

} // verus!

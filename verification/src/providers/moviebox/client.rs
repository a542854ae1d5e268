//! How the MovieBox client talks to the API: which host it asks, what it makes
//! of each answer, and how it reads a visitor login.
//!
//! Requests go to a pool of mirrors, starting with the one that last answered.
//! An authentication refusal or a transient failure moves on to the next
//! mirror; the first answer that reads is kept. Sending and signing the
//! requests is the caller's part.

use vstd::prelude::*;

use crate::json::{field, get, signed_of, text_of, unsigned_of, JsonValue};
use crate::text::{dec_string, is_blank, opt_text, owned, signed_dec_string};

verus! {

/// The API mirrors, in the order they are tried.
pub const HOST_POOL: [&'static str; 7] = [
    "https://api6.aoneroom.com",
    "https://api5.aoneroom.com",
    "https://api4.aoneroom.com",
    "https://api4sg.aoneroom.com",
    "https://api3.aoneroom.com",
    "https://api6sg.aoneroom.com",
    "https://api.inmoviebox.com",
];

pub const HOST_COUNT: usize = 7;

/// Statuses after which the next mirror is tried.
pub open spec fn retry_status(status: u16) -> bool {
    status == 403 || status == 406 || status == 407 || status == 429 || status == 500 || status == 502
        || status == 503 || status == 504
}

/// Why no mirror gave an answer.
#[derive(Debug, Clone, Copy, PartialEq, Eq, Structural)]
pub enum HostFailure {
    /// The last authentication refusal any mirror gave.
    ApiStatus(u16),
    HostsExhausted,
}

/// How far a request has gone through the mirrors.
#[derive(Debug, Clone, Copy, PartialEq, Eq, Structural)]
pub struct HostRotation {
    /// The mirror tried first.
    pub start: usize,
    /// Mirrors tried so far.
    pub tried: usize,
    pub auth_status: Option<u16>,
    /// The mirror the next request is to start with: the last one that
    /// answered with a status that is neither an authentication refusal nor
    /// transient.
    pub remembered: Option<usize>,
}

/// What the current mirror gave.
#[derive(Debug, Clone, Copy, PartialEq, Eq, Structural)]
pub enum HostEvent {
    /// The request could not be sent or answered.
    Failed,
    /// It answered with this status.
    Answered(u16),
    /// The answer was accepted but its body did not read.
    Unreadable,
}

/// What to do next.
#[derive(Debug, Clone, Copy, PartialEq, Eq, Structural)]
pub enum HostAction {
    /// Send the request to the mirror at this position (after a short pause
    /// unless it is the first).
    Send(usize),
    /// Read the successful answer of the mirror at this position.
    Read(usize),
    GiveUp(HostFailure),
}

/// The position of the mirror tried after `tried` others.
pub open spec fn host_at(start: usize, tried: usize) -> usize {
    ((start as int + tried as int) % (HOST_COUNT as int)) as usize
}

/// Moving on from the current mirror.
pub open spec fn advance(r: HostRotation) -> (HostRotation, HostAction) {
    let next = HostRotation { tried: (r.tried + 1) as usize, ..r };
    if r.tried + 1 < HOST_COUNT {
        (next, HostAction::Send(host_at(r.start, next.tried)))
    } else {
        (
            next,
            HostAction::GiveUp(
                match r.auth_status {
                    Some(s) => HostFailure::ApiStatus(s),
                    None => HostFailure::HostsExhausted,
                },
            ),
        )
    }
}

/// One step through the mirrors: a refused authentication is kept for the
/// report and a failure or transient status moves on. Any other status makes
/// the mirror the one to start with next time; a successful answer is then
/// read, and any other moves on. An answer that does not read moves on too.
pub open spec fn host_next(r: HostRotation, ev: HostEvent) -> (HostRotation, HostAction) {
    match ev {
        HostEvent::Failed => advance(r),
        HostEvent::Unreadable => advance(r),
        HostEvent::Answered(s) => if s == 401 || s == 403 {
            advance(HostRotation { auth_status: Some(s), ..r })
        } else if retry_status(s) {
            advance(r)
        } else {
            let kept = HostRotation { remembered: Some(host_at(r.start, r.tried)), ..r };
            if 200 <= s <= 299 {
                (kept, HostAction::Read(host_at(r.start, r.tried)))
            } else {
                advance(kept)
            }
        },
    }
}

/// Where a request starts: the mirror that answered last.
pub fn start_rotation(active: usize) -> (r: (HostRotation, HostAction))
    requires
        active < HOST_COUNT,
    ensures
        r.0 == (HostRotation { start: active, tried: 0, auth_status: None, remembered: None }),
        r.1 == HostAction::Send(active),
{
    (HostRotation { start: active, tried: 0, auth_status: None, remembered: None }, HostAction::Send(active))
}

fn position(start: usize, tried: usize) -> (r: usize)
    requires
        start < HOST_COUNT,
        tried < HOST_COUNT,
    ensures
        r == host_at(start, tried),
        r < HOST_COUNT,
{
    (start + tried) % HOST_COUNT
}

/// Takes one step through the mirrors.
pub fn host_step(r: HostRotation, ev: HostEvent) -> (out: (HostRotation, HostAction))
    requires
        r.start < HOST_COUNT,
        r.tried < HOST_COUNT,
        r.remembered matches Some(i) ==> i < HOST_COUNT,
    ensures
        out == host_next(r, ev),
        out.0.start == r.start,
        out.0.remembered matches Some(i) ==> i < HOST_COUNT,
        out.1 matches HostAction::Send(i) ==> i < HOST_COUNT && out.0.tried < HOST_COUNT,
        out.1 matches HostAction::Read(i) ==> i < HOST_COUNT && out.0.tried < HOST_COUNT,
{
    let r2 = match ev {
        HostEvent::Answered(s) => {
            if s == 401 || s == 403 {
                HostRotation { auth_status: Some(s), ..r }
            } else if s == 406 || s == 407 || s == 429 || s == 500 || s == 502 || s == 503 || s == 504 {
                HostRotation { ..r }
            } else {
                let here = position(r.start, r.tried);
                let kept = HostRotation { remembered: Some(here), ..r };
                if 200 <= s && s <= 299 {
                    return (kept, HostAction::Read(here));
                }
                kept
            }
        },
        _ => HostRotation { ..r },
    };
    let next = HostRotation { tried: r2.tried + 1, ..r2 };
    if r2.tried + 1 < HOST_COUNT {
        (next, HostAction::Send(position(r2.start, next.tried)))
    } else {
        (
            next,
            HostAction::GiveUp(
                match r2.auth_status {
                    Some(s) => HostFailure::ApiStatus(s),
                    None => HostFailure::HostsExhausted,
                },
            ),
        )
    }
}

/// A whole request through the mirrors: the rotation after each reported
/// event in turn, the mirrors sent to (starting with those in `sent`), and the
/// failure it gave up with, if it did. Events after giving up are not read.
pub open spec fn host_run(r: HostRotation, evs: Seq<HostEvent>, sent: Seq<usize>) -> (HostRotation, Seq<usize>, Option<HostFailure>)
    decreases evs.len(),
{
    if evs.len() == 0 {
        (r, sent, None)
    } else {
        let (r1, a) = host_next(r, evs[0]);
        match a {
            HostAction::GiveUp(f) => (r1, sent, Some(f)),
            HostAction::Send(i) => host_run(r1, evs.drop_first(), sent.push(i)),
            HostAction::Read(_) => host_run(r1, evs.drop_first(), sent),
        }
    }
}

/// The mirrors a rotation has sent to: the one it started with and each after.
pub open spec fn mirrors_from(start: usize, n: int) -> Seq<usize> {
    Seq::new(n as nat, |k: int| host_at(start, k as usize))
}

proof fn lemma_host_run_shape(r: HostRotation, evs: Seq<HostEvent>)
    requires
        r.start < HOST_COUNT,
        r.tried < HOST_COUNT,
        r.auth_status matches Some(s) ==> s == 401 || s == 403,
        r.remembered matches Some(i) ==> mirrors_from(r.start, r.tried + 1).contains(i),
    ensures
        ({
            let (rf, sf, g) = host_run(r, evs, mirrors_from(r.start, r.tried + 1));
            &&& rf.start == r.start
            &&& (rf.remembered matches Some(i) ==> sf.contains(i))
            &&& sf == mirrors_from(r.start, if g is Some { HOST_COUNT as int } else { rf.tried + 1 })
            &&& (g is None ==> rf.tried < HOST_COUNT)
            &&& (g matches Some(HostFailure::ApiStatus(s)) ==> s == 401 || s == 403)
        }),
    decreases evs.len(),
{
    if evs.len() > 0 {
        let (r1, a) = host_next(r, evs[0]);
        match a {
            HostAction::GiveUp(_) => {
                assert(r1.tried == HOST_COUNT);
                assert(r.tried + 1 == HOST_COUNT);
                if let Some(m) = r1.remembered {
                    if r1.remembered != r.remembered {
                        assert(mirrors_from(r.start, r.tried + 1)[r.tried as int] == m);
                    }
                }
            },
            HostAction::Send(i) => {
                assert(r1.tried == r.tried + 1);
                let before = mirrors_from(r.start, r.tried + 1);
                let after = mirrors_from(r.start, r1.tried + 1);
                assert(before.push(i) =~= after);
                if let Some(m) = r1.remembered {
                    if r1.remembered == r.remembered {
                        let k = choose|k: int| 0 <= k < before.len() && before[k] == m;
                        assert(after[k] == m);
                    } else {
                        assert(after[r.tried as int] == m);
                    }
                }
                lemma_host_run_shape(r1, evs.drop_first());
            },
            HostAction::Read(_) => {
                if let Some(m) = r1.remembered {
                    if r1.remembered != r.remembered {
                        assert(mirrors_from(r.start, r.tried + 1)[r.tried as int] == m);
                    }
                }
                lemma_host_run_shape(r1, evs.drop_first());
            },
        }
    }
}

proof fn lemma_mirrors_distinct(start: usize, a: int, b: int)
    requires
        start < HOST_COUNT,
        0 <= a < b < HOST_COUNT,
    ensures
        host_at(start, a as usize) != host_at(start, b as usize),
{
    let x = start as int + a;
    let y = start as int + b;
    assert(0 <= x < 14 && 0 <= y < 14);
    if x < 7 && y < 7 {
        assert(x % 7 == x && y % 7 == y);
    } else if x >= 7 && y >= 7 {
        assert(x % 7 == x - 7 && y % 7 == y - 7);
    } else if x < 7 {
        assert(x % 7 == x && y % 7 == y - 7);
    } else {
        assert(y >= x);
    }
}

/// A request goes to at most seven mirrors, each once, beginning with the one
/// that answered last and taking them in pool order; when it gives up it has
/// tried all seven, and the status it reports is an authentication refusal. The
/// mirror it keeps for the next request is one it sent to.
pub proof fn lemma_rotation_tries_each_mirror_once(start: usize, evs: Seq<HostEvent>)
    requires
        start < HOST_COUNT,
    ensures
        ({
            let r0 = HostRotation { start, tried: 0, auth_status: None, remembered: None };
            let (rf, sf, g) = host_run(r0, evs, seq![start]);
            &&& sf.len() <= HOST_COUNT
            &&& forall|k: int| 0 <= k < sf.len() ==> #[trigger] sf[k] == host_at(start, k as usize)
                && sf[k] < HOST_COUNT
            &&& forall|i: int, j: int| 0 <= i < j < sf.len() ==> sf[i] != sf[j]
            &&& (g is Some ==> sf.len() == HOST_COUNT)
            &&& (g matches Some(HostFailure::ApiStatus(s)) ==> s == 401 || s == 403)
            &&& (rf.remembered matches Some(i) ==> sf.contains(i))
        }),
{
    let r0 = HostRotation { start, tried: 0, auth_status: None, remembered: None };
    assert(host_at(start, 0) == start) by {
        assert((start as int + 0) % 7 == start as int);
    }
    assert(mirrors_from(start, 1) =~= seq![start]);
    lemma_host_run_shape(r0, evs);
    let (rf, sf, g) = host_run(r0, evs, seq![start]);
    assert forall|i: int, j: int| 0 <= i < j < sf.len() implies sf[i] != sf[j] by {
        lemma_mirrors_distinct(start, i, j);
    }
}

/// The address of a request at a mirror.
pub fn host_url(index: usize, path_and_query: &str) -> (r: String)
    requires
        index < HOST_COUNT,
    ensures
        r@ == HOST_POOL[index as int]@ + path_and_query@,
{
    crate::text::joined(HOST_POOL[index], path_and_query)
}

/// The body an answer carries: its `data` member when there is one, else all of it.
pub fn answer_data(body: JsonValue) -> (r: JsonValue)
    ensures
        match field(body, "data"@) {
            Some(d) => r == d,
            None => r == body,
        },
{
    match body {
        JsonValue::Object(mut pairs) => {
            let mut i: usize = 0;
            assert(pairs@.skip(0) =~= pairs@);
            let ghost original = pairs@;
            assert(field(body, "data"@) == crate::json::entry(original, "data"@));
            while i < pairs.len()
                invariant
                    i <= pairs@.len(),
                    pairs@ == original,
                    field(body, "data"@) == crate::json::entry(original, "data"@),
                    body == JsonValue::Object(pairs),
                    crate::json::entry(pairs@, "data"@) == crate::json::entry(pairs@.skip(i as int), "data"@),
                decreases pairs@.len() - i,
            {
                let ghost rest = pairs@.skip(i as int);
                assert(rest[0] == pairs@[i as int]);
                assert(rest.drop_first() =~= pairs@.skip(i + 1));
                if crate::text::str_eq(pairs[i].0.as_str(), "data") {
                    assert(crate::json::entry(rest, "data"@) == Some(pairs@[i as int].1));
                    let (_, v) = pairs.remove(i);
                    return v;
                }
                i = i + 1;
            }
            JsonValue::Object(pairs)
        },
        other => other,
    }
}

/// A claim read as an identifier: text as it is, or a whole number in decimal.
pub open spec fn identifier_text(v: JsonValue) -> Option<Seq<char>> {
    match text_of(v) {
        Some(t) => Some(t),
        None => match unsigned_of(v) {
            Some(n) => Some(dec_string(n as nat)),
            None => match signed_of(v) {
                Some(n) => Some(signed_dec_string(n as int)),
                None => None,
            },
        },
    }
}

fn identifier_of(v: &JsonValue) -> (r: Option<String>)
    ensures
        opt_text(r) == identifier_text(*v),
{
    match crate::json::as_text(v) {
        Some(t) => Some(owned(t)),
        None => match crate::json::as_unsigned(v) {
            Some(n) => Some(crate::text::string_of(crate::text::dec_digits(n).as_slice())),
            None => match crate::json::as_signed(v) {
                Some(n) => Some(crate::text::string_of(crate::text::signed_dec_digits(n).as_slice())),
                None => None,
            },
        },
    }
}

/// The first member present among the keys, tried in order.
pub open spec fn first_present(a: Option<JsonValue>, b: Option<JsonValue>) -> Option<JsonValue> {
    match a {
        Some(x) => Some(x),
        None => b,
    }
}

/// The token a visitor login grants: `token`, or `data.token` when the answer
/// has no `token`; it must be text and not blank.
pub open spec fn login_token(payload: JsonValue) -> Option<Seq<char>> {
    let data_token = match field(payload, "data"@) {
        Some(d) => field(d, "token"@),
        None => None,
    };
    match first_present(field(payload, "token"@), data_token) {
        Some(t) => match text_of(t) {
            Some(s) => if is_blank(s) {
                None
            } else {
                Some(s)
            },
            None => None,
        },
        None => None,
    }
}

/// The visitor a login names: `uid`, else `userId`, else `data.uid`.
pub open spec fn login_user(payload: JsonValue) -> Option<Seq<char>> {
    let data_uid = match field(payload, "data"@) {
        Some(d) => field(d, "uid"@),
        None => None,
    };
    match first_present(field(payload, "uid"@), first_present(field(payload, "userId"@), data_uid)) {
        Some(v) => identifier_text(v),
        None => None,
    }
}

#[derive(Debug, Clone, Copy, PartialEq, Eq, Structural)]
pub enum LoginError {
    MissingToken,
}

/// Reads a visitor login: its token and, when it names one, the visitor.
pub fn read_visitor_login(payload: &JsonValue) -> (r: Result<(String, Option<String>), LoginError>)
    ensures
        match login_token(*payload) {
            Some(t) => r matches Ok((token, user)) && token@ == t && opt_text(user) == login_user(*payload),
            None => r == Err::<(String, Option<String>), LoginError>(LoginError::MissingToken),
        },
{
    let data = get(payload, "data");
    let data_token = match data {
        Some(d) => get(d, "token"),
        None => None,
    };
    let token_value = match get(payload, "token") {
        Some(t) => Some(t),
        None => data_token,
    };
    let token = match token_value {
        Some(t) => match crate::json::as_text(t) {
            Some(s) => {
                if crate::text::str_blank(s) {
                    return Err(LoginError::MissingToken);
                }
                owned(s)
            },
            None => return Err(LoginError::MissingToken),
        },
        None => return Err(LoginError::MissingToken),
    };
    let data_uid = match data {
        Some(d) => get(d, "uid"),
        None => None,
    };
    let user_value = match get(payload, "uid") {
        Some(v) => Some(v),
        None => match get(payload, "userId") {
            Some(v) => Some(v),
            None => data_uid,
        },
    };
    let user = match user_value {
        Some(v) => identifier_of(v),
        None => None,
    };
    Ok((token, user))
}

/// The session an `x-user` header hands over: its non-empty `token`, with its
/// `uid` as text or a non-negative whole number.
pub open spec fn x_user_grant(v: JsonValue) -> Option<(Seq<char>, Option<Seq<char>>)> {
    match field(v, "token"@) {
        Some(t) => match text_of(t) {
            Some(s) => if s.len() == 0 {
                None
            } else {
                Some(
                    (
                        s,
                        match field(v, "uid"@) {
                            Some(u) => match text_of(u) {
                                Some(x) => Some(x),
                                None => match unsigned_of(u) {
                                    Some(n) => Some(dec_string(n as nat)),
                                    None => None,
                                },
                            },
                            None => None,
                        },
                    ),
                )
            },
            None => None,
        },
        None => None,
    }
}

pub fn read_x_user(v: &JsonValue) -> (r: Option<(String, Option<String>)>)
    ensures
        match (r, x_user_grant(*v)) {
            (Some((t, u)), Some((a, b))) => t@ == a && opt_text(u) == b,
            (None, None) => true,
            _ => false,
        },
{
    let token = match get(v, "token") {
        Some(t) => match crate::json::as_text(t) {
            Some(s) => s,
            None => return None,
        },
        None => return None,
    };
    if crate::text::chars_of(token).len() == 0 {
        return None;
    }
    let user = match get(v, "uid") {
        Some(u) => match crate::json::as_text(u) {
            Some(x) => Some(owned(x)),
            None => match crate::json::as_unsigned(u) {
                Some(n) => Some(crate::text::string_of(crate::text::dec_digits(n).as_slice())),
                None => None,
            },
        },
        None => None,
    };
    Some((owned(token), user))
}

/// A rejected token is dropped only while it is still the current one.
pub fn should_invalidate(current: Option<&str>, rejected: &str) -> (r: bool)
    ensures
        r == (current matches Some(c) && c@ == rejected@),
{
    match current {
        Some(c) => crate::text::str_eq(c, rejected),
        None => false,
    }
}

/// A request refused with 401 or 403 is sent once more with a fresh session.
pub fn retry_with_fresh_session(failure: &HostFailure) -> (r: bool)
    ensures
        r == (*failure == HostFailure::ApiStatus(401) || *failure == HostFailure::ApiStatus(403)),
{
    match failure {
        HostFailure::ApiStatus(s) => *s == 401 || *s == 403,
        _ => false,
    }
}

/// The `User-Agent` sent with media requests: the client's, when it is a valid
/// header value.
pub fn media_user_agent(user_agent: &str) -> (r: Option<String>)
    ensures
        crate::text::valid_header_value(user_agent@) ==> (r matches Some(u) && u@ == user_agent@),
        !crate::text::valid_header_value(user_agent@) ==> r is None,
{
    if crate::text::is_header_value(user_agent) {
        Some(owned(user_agent))
    } else {
        None
    }
}

} // verus!

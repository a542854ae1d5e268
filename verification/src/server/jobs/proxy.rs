//! The HTTP spoken by the local DASH proxy: reading a request head and writing
//! a response head. The proxy answers one request per connection.

use vstd::prelude::*;

use crate::text::{
    chars_of, dec_string, is_ws, lower_seq, owned, parse_unsigned, split_once, string_of, trim,
    trim_start,
};

verus! {

/// A request head may not grow beyond 64 KiB before its blank line.
pub const MAX_REQUEST_HEAD_BYTES: usize = 65536;

/// How far reading a request head has come.
#[derive(Debug, Clone, Copy, PartialEq, Eq, Structural)]
pub enum HeadProgress {
    /// The blank line that ends the head has arrived.
    Complete,
    NeedMore,
    /// Refused: too large without its blank line.
    TooLarge,
}

/// The bytes hold `\r\n\r\n` somewhere.
pub open spec fn has_blank_line(bytes: Seq<u8>) -> bool {
    exists|i: int|
        0 <= i && i + 4 <= bytes.len() && #[trigger] bytes[i] == 13 && bytes[i + 1] == 10 && bytes[i
            + 2] == 13 && bytes[i + 3] == 10
}

/// After each read: the head is complete once its blank line is in; otherwise
/// more than 64 KiB is refused.
pub fn head_progress(bytes: &[u8]) -> (r: HeadProgress)
    ensures
        r == if has_blank_line(bytes@) {
            HeadProgress::Complete
        } else if bytes@.len() > MAX_REQUEST_HEAD_BYTES {
            HeadProgress::TooLarge
        } else {
            HeadProgress::NeedMore
        },
{
    let mut i: usize = 0;
    while i < bytes.len() && bytes.len() - i >= 4
        invariant
            forall|j: int|
                0 <= j < i && j + 4 <= bytes@.len() ==> !(#[trigger] bytes@[j] == 13 && bytes@[j + 1] == 10
                    && bytes@[j + 2] == 13 && bytes@[j + 3] == 10),
        decreases bytes@.len() - i,
    {
        if bytes[i] == 13 && bytes[i + 1] == 10 && bytes[i + 2] == 13 && bytes[i + 3] == 10 {
            return HeadProgress::Complete;
        }
        i = i + 1;
    }
    if bytes.len() > MAX_REQUEST_HEAD_BYTES {
        HeadProgress::TooLarge
    } else {
        HeadProgress::NeedMore
    }
}

/// The position of the first `\r\n`, or the length when there is none.
pub open spec fn crlf_index(s: Seq<char>) -> int
    decreases s.len(),
{
    if s.len() < 2 {
        s.len() as int
    } else if s[0] == '\r' && s[1] == '\n' {
        0
    } else {
        1 + crlf_index(s.drop_first())
    }
}

pub proof fn lemma_crlf_index(s: Seq<char>)
    ensures
        0 <= crlf_index(s) <= s.len(),
        crlf_index(s) < s.len() ==> crlf_index(s) + 2 <= s.len() && s[crlf_index(s)] == '\r'
            && s[crlf_index(s) + 1] == '\n',
    decreases s.len(),
{
    if s.len() >= 2 && !(s[0] == '\r' && s[1] == '\n') {
        lemma_crlf_index(s.drop_first());
    }
}

/// `str::split("\r\n")`.
pub open spec fn crlf_lines(s: Seq<char>) -> Seq<Seq<char>>
    decreases s.len(),
{
    let i = crlf_index(s);
    if i >= s.len() {
        seq![s]
    } else {
        proof {
            lemma_crlf_index(s);
        }
        seq![s.take(i)] + crlf_lines(s.skip(i + 2))
    }
}

/// The text before the first white space, as the first item of
/// `split_whitespace` on a text without leading white space.
pub open spec fn word_len(s: Seq<char>) -> int
    decreases s.len(),
{
    if s.len() == 0 || is_ws(s[0]) {
        0
    } else {
        1 + word_len(s.drop_first())
    }
}

proof fn lemma_word_len(s: Seq<char>)
    ensures
        0 <= word_len(s) <= s.len(),
        forall|j: int| 0 <= j < word_len(s) ==> !is_ws(#[trigger] s[j]),
        word_len(s) < s.len() ==> is_ws(s[word_len(s)]),
    decreases s.len(),
{
    if s.len() > 0 && !is_ws(s[0]) {
        lemma_word_len(s.drop_first());
        assert forall|j: int| 0 <= j < word_len(s) implies !is_ws(#[trigger] s[j]) by {
            if j > 0 {
                assert(s[j] == s.drop_first()[j - 1]);
            }
        }
    }
}

/// The first two items of `split_whitespace`; an item is empty when missing.
pub open spec fn first_two_words(line: Seq<char>) -> (Seq<char>, Seq<char>) {
    let a = trim_start(line);
    let first = a.take(word_len(a));
    let b = trim_start(a.skip(word_len(a)));
    (first, b.take(word_len(b)))
}

/// A character of an HTTP token, which a method name is made of.
pub open spec fn token_char(c: char) -> bool {
    ||| ('a' <= c && c <= 'z')
    ||| ('A' <= c && c <= 'Z')
    ||| ('0' <= c && c <= '9')
    ||| c == '!' || c == '#' || c == '$' || c == '%' || c == '&' || c == '\'' || c == '*'
    ||| c == '+' || c == '-' || c == '.' || c == '^' || c == '_' || c == '`' || c == '|' || c == '~'
}

/// Whether `Method::from_bytes` accepts the name: a non-empty token.
pub open spec fn valid_method(m: Seq<char>) -> bool {
    m.len() > 0 && forall|i: int| 0 <= i < m.len() ==> #[trigger] token_char(m[i])
}

/// The header lines up to the first empty one, each with a `:` read as a name,
/// trimmed and in ASCII lower case, and a trimmed value; lines without `:` are
/// skipped.
pub open spec fn header_pairs(lines: Seq<Seq<char>>) -> Seq<(Seq<char>, Seq<char>)>
    decreases lines.len(),
{
    if lines.len() == 0 || lines[0].len() == 0 {
        seq![]
    } else {
        let (name, value) = split_once(lines[0], ':');
        let rest = header_pairs(lines.drop_first());
        match value {
            Some(v) => seq![(lower_seq(trim(name)), trim(v))] + rest,
            None => rest,
        }
    }
}

#[derive(Debug, Clone, Copy, PartialEq, Eq, Structural)]
pub enum RequestHeadError {
    MissingMethod,
    InvalidMethod,
    MissingTarget,
}

/// A request as the proxy reads it.
#[derive(Debug, Clone, PartialEq, Eq)]
pub struct ProxyRequest {
    pub method: String,
    pub target: String,
    /// The header lines in order; a later line with the same name wins.
    pub headers: Vec<(String, String)>,
}

/// What a request head reads as: the method and target are the first two words
/// of the first line, and the headers follow.
pub open spec fn request_of(head: Seq<char>) -> Result<(Seq<char>, Seq<char>, Seq<(Seq<char>, Seq<char>)>), RequestHeadError> {
    let lines = crlf_lines(head);
    let (method, target) = first_two_words(lines[0]);
    if method.len() == 0 {
        Err(RequestHeadError::MissingMethod)
    } else if !valid_method(method) {
        Err(RequestHeadError::InvalidMethod)
    } else if target.len() == 0 {
        Err(RequestHeadError::MissingTarget)
    } else {
        Ok((method, target, header_pairs(lines.drop_first())))
    }
}

pub open spec fn pairs_view(v: Seq<(String, String)>) -> Seq<(Seq<char>, Seq<char>)> {
    v.map_values(|p: (String, String)| (p.0@, p.1@))
}

fn crlf_position(v: &[char], pos: usize) -> (r: usize)
    requires
        pos <= v@.len(),
    ensures
        r == pos + crlf_index(v@.skip(pos as int)),
{
    let mut k = pos;
    assert(v@.skip(pos as int) =~= v@.skip(k as int));
    while k < v.len() && v.len() - k >= 2 && !(v[k] == '\r' && v[k + 1] == '\n')
        invariant
            pos <= k <= v@.len(),
            crlf_index(v@.skip(pos as int)) == (k - pos) + crlf_index(v@.skip(k as int)),
        decreases v@.len() - k,
    {
        assert(v@.skip(k as int).drop_first() =~= v@.skip(k + 1));
        k = k + 1;
    }
    if k < v.len() && v.len() - k >= 2 {
        k
    } else {
        v.len()
    }
}

fn split_lines(v: &[char]) -> (r: Vec<Vec<char>>)
    ensures
        r@.len() == crlf_lines(v@).len(),
        forall|i: int| 0 <= i < r@.len() ==> #[trigger] r@[i]@ == crlf_lines(v@)[i],
{
    let mut out: Vec<Vec<char>> = Vec::new();
    let mut pos: usize = 0;
    let mut done = false;
    let ghost mut taken: Seq<Seq<char>> = seq![];
    assert(v@.skip(0) =~= v@);
    while !done
        invariant
            pos <= v@.len(),
            out@.len() == taken.len(),
            forall|i: int| 0 <= i < out@.len() ==> #[trigger] out@[i]@ == taken[i],
            !done ==> crlf_lines(v@) == taken + crlf_lines(v@.skip(pos as int)),
            done ==> crlf_lines(v@) == taken,
        decreases v@.len() - pos + if done { 0int } else { 1int },
    {
        let ghost rest = v@.skip(pos as int);
        proof {
            lemma_crlf_index(rest);
        }
        let e = crlf_position(v, pos);
        if e >= v.len() {
            let line = crate::text::slice_chars(v, pos, v.len());
            assert(line@ =~= rest);
            proof {
                taken = taken.push(rest);
            }
            out.push(line);
            done = true;
        } else {
            let line = crate::text::slice_chars(v, pos, e);
            assert(line@ =~= rest.take(e - pos));
            assert(rest.skip(e - pos + 2) =~= v@.skip(e + 2));
            proof {
                assert(crlf_lines(rest) == seq![rest.take(e - pos)] + crlf_lines(rest.skip(e - pos + 2)));
                assert(taken + crlf_lines(rest) =~= taken.push(rest.take(e - pos)) + crlf_lines(v@.skip(e + 2)));
                taken = taken.push(rest.take(e - pos));
            }
            out.push(line);
            pos = e + 2;
        }
    }
    out
}

fn skip_ws(v: &[char], from: usize) -> (r: usize)
    requires
        from <= v@.len(),
    ensures
        from <= r <= v@.len(),
        trim_start(v@.skip(from as int)) == v@.skip(r as int),
{
    let mut k = from;
    while k < v.len() && crate::text::char_is_ws(v[k])
        invariant
            from <= k <= v@.len(),
            trim_start(v@.skip(from as int)) == trim_start(v@.skip(k as int)),
        decreases v@.len() - k,
    {
        assert(v@.skip(k as int).drop_first() =~= v@.skip(k + 1));
        k = k + 1;
    }
    k
}

fn word_end(v: &[char], from: usize) -> (r: usize)
    requires
        from <= v@.len(),
    ensures
        r == from + word_len(v@.skip(from as int)),
        from <= r <= v@.len(),
{
    proof {
        lemma_word_len(v@.skip(from as int));
    }
    let mut k = from;
    while k < v.len() && !crate::text::char_is_ws(v[k])
        invariant
            from <= k <= v@.len(),
            word_len(v@.skip(from as int)) == (k - from) + word_len(v@.skip(k as int)),
        decreases v@.len() - k,
    {
        assert(v@.skip(k as int).drop_first() =~= v@.skip(k + 1));
        k = k + 1;
    }
    k
}

fn is_token(v: &[char]) -> (r: bool)
    ensures
        r == valid_method(v@),
{
    if v.len() == 0 {
        return false;
    }
    let mut i: usize = 0;
    while i < v.len()
        invariant
            i <= v@.len(),
            forall|j: int| 0 <= j < i ==> #[trigger] token_char(v@[j]),
        decreases v@.len() - i,
    {
        let c = v[i];
        let ok = ('a' <= c && c <= 'z') || ('A' <= c && c <= 'Z') || ('0' <= c && c <= '9') || c
            == '!' || c == '#' || c == '$' || c == '%' || c == '&' || c == '\'' || c == '*' || c == '+'
            || c == '-' || c == '.' || c == '^' || c == '_' || c == '`' || c == '|' || c == '~';
        if !ok {
            assert(!token_char(v@[i as int]));
            return false;
        }
        i = i + 1;
    }
    true
}

fn headers_of(lines: &Vec<Vec<char>>) -> (r: Vec<(String, String)>)
    requires
        lines@.len() > 0,
    ensures
        pairs_view(r@) == header_pairs(lines@.map_values(|l: Vec<char>| l@).drop_first()),
{
    let ghost all = lines@.map_values(|l: Vec<char>| l@);
    let mut out: Vec<(String, String)> = Vec::new();
    let mut i: usize = 1;
    let mut done = false;
    assert(all.skip(1) =~= all.drop_first());
    while !done && i < lines.len()
        invariant
            1 <= i <= lines@.len(),
            all == lines@.map_values(|l: Vec<char>| l@),
            !done ==> header_pairs(all.drop_first()) == pairs_view(out@) + header_pairs(all.skip(i as int)),
            done ==> header_pairs(all.drop_first()) == pairs_view(out@),
        decreases lines@.len() - i + if done { 0int } else { 1int },
    {
        let ghost rest = all.skip(i as int);
        assert(rest[0] == lines@[i as int]@);
        assert(rest.drop_first() =~= all.skip(i + 1));
        let line = &lines[i];
        if line.len() == 0 {
            assert(header_pairs(rest) == Seq::<(Seq<char>, Seq<char>)>::empty());
            assert(pairs_view(out@) + header_pairs(rest) =~= pairs_view(out@));
            done = true;
        } else {
            let (name, value) = crate::text::split_once_chars(line.as_slice(), ':');
            match value {
                Some(v) => {
                    let n = crate::text::lower_chars(crate::text::trim_chars(name.as_slice()).as_slice());
                    let t = crate::text::trim_chars(v.as_slice());
                    let ghost before = out@;
                    out.push((string_of(n.as_slice()), string_of(t.as_slice())));
                    assert(pairs_view(out@) =~= pairs_view(before).push((n@, t@)));
                    assert(pairs_view(before) + header_pairs(rest) =~= pairs_view(out@) + header_pairs(
                        all.skip(i + 1),
                    ));
                },
                None => {},
            }
            i = i + 1;
        }
    }
    if !done {
        assert(all.skip(i as int).len() == 0);
        assert(pairs_view(out@) + header_pairs(all.skip(i as int)) =~= pairs_view(out@));
    }
    out
}

/// Reads a request head, given as text (invalid UTF-8 already replaced).
pub fn parse_request_head(head: &str) -> (r: Result<ProxyRequest, RequestHeadError>)
    ensures
        match (r, request_of(head@)) {
            (Ok(q), Ok((m, t, h))) => q.method@ == m && q.target@ == t && pairs_view(q.headers@) == h,
            (Err(e), Err(f)) => e == f,
            _ => false,
        },
{
    let v = chars_of(head);
    let lines = split_lines(v.as_slice());
    proof {
        if crlf_index(v@) >= v@.len() {
        } else {
            lemma_crlf_index(v@);
        }
    }
    assert(crlf_lines(v@).len() > 0);
    let first = &lines[0];
    let a = skip_ws(first.as_slice(), 0);
    let a_end = word_end(first.as_slice(), a);
    let b = skip_ws(first.as_slice(), a_end);
    let b_end = word_end(first.as_slice(), b);
    proof {
        let line = first@;
        assert(line.skip(0) =~= line);
        let ta = trim_start(line);
        assert(ta == line.skip(a as int));
        assert(ta.skip(word_len(ta)) =~= line.skip(a_end as int));
        let tb = trim_start(ta.skip(word_len(ta)));
        assert(tb == line.skip(b as int));
        assert(ta.take(word_len(ta)) =~= line.subrange(a as int, a_end as int));
        assert(tb.take(word_len(tb)) =~= line.subrange(b as int, b_end as int));
    }
    let method = crate::text::slice_chars(first.as_slice(), a, a_end);
    let target = crate::text::slice_chars(first.as_slice(), b, b_end);
    if method.len() == 0 {
        return Err(RequestHeadError::MissingMethod);
    }
    if !is_token(method.as_slice()) {
        return Err(RequestHeadError::InvalidMethod);
    }
    if target.len() == 0 {
        return Err(RequestHeadError::MissingTarget);
    }
    let headers = headers_of(&lines);
    proof {
        assert(lines@.map_values(|l: Vec<char>| l@) =~= crlf_lines(v@));
    }
    Ok(ProxyRequest { method: string_of(method.as_slice()), target: string_of(target.as_slice()), headers })
}

/// The value of the last header with the name, as a map filled in order keeps it.
pub open spec fn last_header(h: Seq<(Seq<char>, Seq<char>)>, name: Seq<char>) -> Option<Seq<char>>
    decreases h.len(),
{
    if h.len() == 0 {
        None
    } else if h.last().0 == name {
        Some(h.last().1)
    } else {
        last_header(h.drop_last(), name)
    }
}

impl ProxyRequest {
    pub fn is_get(&self) -> (r: bool)
        ensures
            r == (self.method@ == "GET"@),
    {
        crate::text::str_eq(self.method.as_str(), "GET")
    }

    /// The `Range` header to pass upstream: the request's, when it is a valid
    /// header value.
    pub fn forwarded_range(&self) -> (r: Option<String>)
        ensures
            match last_header(pairs_view(self.headers@), "range"@) {
                Some(v) => if crate::text::valid_header_value(v) {
                    r matches Some(x) && x@ == v
                } else {
                    r is None
                },
                None => r is None,
            },
    {
        let ghost h = pairs_view(self.headers@);
        let mut i: usize = self.headers.len();
        assert(h.subrange(0, h.len() as int) =~= h);
        while i > 0
            invariant
                i <= self.headers@.len(),
                h == pairs_view(self.headers@),
                last_header(h, "range"@) == last_header(h.subrange(0, i as int), "range"@),
            decreases i,
        {
            let ghost prefix = h.subrange(0, i as int);
            assert(prefix.last() == h[i - 1]);
            assert(prefix.drop_last() =~= h.subrange(0, i - 1));
            if crate::text::str_eq(self.headers[i - 1].0.as_str(), "range") {
                let v = &self.headers[i - 1].1;
                if crate::text::is_header_value(v.as_str()) {
                    return Some(v.clone());
                }
                return None;
            }
            i = i - 1;
        }
        None
    }
}

/// The upstream headers passed on to FFmpeg, in this order.
pub open spec fn forwarded_names() -> Seq<Seq<char>> {
    seq!["content-range"@, "accept-ranges"@, "content-type"@, "etag"@, "last-modified"@]
}

/// The first value of a header, as `HeaderMap::get` gives it.
pub open spec fn first_header(h: Seq<(Seq<char>, Seq<char>)>, name: Seq<char>) -> Option<Seq<char>>
    decreases h.len(),
{
    if h.len() == 0 {
        None
    } else if h[0].0 == name {
        Some(h[0].1)
    } else {
        first_header(h.drop_first(), name)
    }
}

/// The forwarded header lines for the names.
pub open spec fn header_lines(h: Seq<(Seq<char>, Seq<char>)>, names: Seq<Seq<char>>) -> Seq<char>
    decreases names.len(),
{
    if names.len() == 0 {
        seq![]
    } else {
        let line = match first_header(h, names[0]) {
            Some(v) => names[0] + ": "@ + v + "\r\n"@,
            None => seq![],
        };
        line + header_lines(h, names.drop_first())
    }
}

/// The length announced: the body's when known, else the upstream
/// `Content-Length` when it parses.
pub open spec fn announced_length(h: Seq<(Seq<char>, Seq<char>)>, body_length: Option<u64>) -> Option<nat> {
    match body_length {
        Some(n) => Some(n as nat),
        None => match first_header(h, "content-length"@) {
            Some(v) => parse_unsigned(v, u64::MAX as nat),
            None => None,
        },
    }
}

/// The response head: the status line with its reason (`error` when it has
/// none), the forwarded headers, the length when known, and `Connection: close`.
pub open spec fn response_head_text(
    status: u16,
    reason: Option<Seq<char>>,
    h: Seq<(Seq<char>, Seq<char>)>,
    body_length: Option<u64>,
) -> Seq<char> {
    "HTTP/1.1 "@ + dec_string(status as nat) + " "@ + match reason {
        Some(r) => r,
        None => "error"@,
    } + "\r\n"@ + header_lines(h, forwarded_names()) + match announced_length(h, body_length) {
        Some(n) => "Content-Length: "@ + dec_string(n) + "\r\n"@,
        None => seq![],
    } + "Connection: close\r\n\r\n"@
}

fn first_header_of(h: &[(String, String)], name: &str) -> (r: Option<String>)
    ensures
        crate::text::opt_text(r) == first_header(pairs_view(h@), name@),
{
    let ghost all = pairs_view(h@);
    let mut i: usize = 0;
    assert(all.skip(0) =~= all);
    while i < h.len()
        invariant
            i <= h@.len(),
            all == pairs_view(h@),
            first_header(all, name@) == first_header(all.skip(i as int), name@),
        decreases h@.len() - i,
    {
        let ghost rest = all.skip(i as int);
        assert(rest[0] == (h@[i as int].0@, h@[i as int].1@));
        assert(rest.drop_first() =~= all.skip(i + 1));
        if crate::text::str_eq(h[i].0.as_str(), name) {
            return Some(h[i].1.clone());
        }
        i = i + 1;
    }
    None
}

/// Writes the response head. `reason` is the status's canonical reason phrase,
/// and `upstream` holds, for each upstream header name in lower case, its first
/// value when that value is visible ASCII.
pub fn response_head(status: u16, reason: Option<&str>, upstream: &[(String, String)], body_length: Option<u64>) -> (r: String)
    ensures
        r@ == response_head_text(status, crate::server::notify::opt_str(reason), pairs_view(upstream@), body_length),
{
    let ghost h = pairs_view(upstream@);
    let mut out = owned("HTTP/1.1 ");
    crate::text::push_chars(&mut out, crate::text::dec_digits(status as u64).as_slice());
    crate::text::push_str(&mut out, " ");
    match reason {
        Some(r) => crate::text::push_str(&mut out, r),
        None => crate::text::push_str(&mut out, "error"),
    }
    crate::text::push_str(&mut out, "\r\n");
    let ghost head = out@;
    let names = ["content-range", "accept-ranges", "content-type", "etag", "last-modified"];
    let ghost ns = names@.map_values(|n: &str| n@);
    assert(ns =~= forwarded_names());
    let mut i: usize = 0;
    assert(ns.skip(0) =~= ns);
    assert(head + header_lines(h, ns) == head + header_lines(h, ns.skip(0)));
    while i < names.len()
        invariant
            i <= names@.len(),
            ns == names@.map_values(|n: &str| n@),
            h == pairs_view(upstream@),
            out@ + header_lines(h, ns.skip(i as int)) == head + header_lines(h, ns),
        decreases names@.len() - i,
    {
        let ghost rest = ns.skip(i as int);
        assert(rest[0] == names@[i as int]@);
        assert(rest.drop_first() =~= ns.skip(i + 1));
        let ghost before = out@;
        match first_header_of(upstream, names[i]) {
            Some(v) => {
                crate::text::push_str(&mut out, names[i]);
                crate::text::push_str(&mut out, ": ");
                crate::text::push_str(&mut out, v.as_str());
                crate::text::push_str(&mut out, "\r\n");
                assert(out@ =~= before + (names@[i as int]@ + ": "@ + v@ + "\r\n"@));
            },
            None => {
                assert(before + seq![] =~= before);
            },
        }
        assert(before + header_lines(h, rest) =~= out@ + header_lines(h, ns.skip(i + 1)));
        i = i + 1;
    }
    assert(ns.skip(i as int).len() == 0);
    assert(out@ + header_lines(h, ns.skip(i as int)) =~= out@);
    let length: Option<u64> = match body_length {
        Some(n) => Some(n),
        None => match first_header_of(upstream, "content-length") {
            Some(v) => crate::text::parse_unsigned_chars(chars_of(v.as_str()).as_slice(), u64::MAX),
            None => None,
        },
    };
    let ghost mid = out@;
    match length {
        Some(n) => {
            crate::text::push_str(&mut out, "Content-Length: ");
            crate::text::push_chars(&mut out, crate::text::dec_digits(n).as_slice());
            crate::text::push_str(&mut out, "\r\n");
        },
        None => {},
    }
    crate::text::push_str(&mut out, "Connection: close\r\n\r\n");
    out
}

} // verus!

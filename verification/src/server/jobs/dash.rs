//! DASH transfers: reading the manifest, keeping every reference on the
//! manifest's origin, and the capabilities the local proxy grants.
//!
//! The manifest is rewritten so that FFmpeg only ever fetches through the local
//! proxy at `/__dash/<token>/…`; each segment reference becomes a capability
//! (a path template and an optional query template) that the proxy matches
//! requests against.

use vstd::prelude::*;

use crate::json::{as_items, field, get, get_text, get_unsigned, items_of, text_field, unsigned_field, JsonValue};
use crate::text::{
    char_index, chars_of, contains, find_char, find_chars, first_occurrence, occurs_at,
    parse_unsigned, parse_unsigned_chars, slice_chars, starts_with, starts_with_chars, string_of,
};

verus! {

/// The first `<…>` chunk of each tag in the text, without the brackets, that
/// starts with `name`; the last chunk runs to the end when `>` is missing.
pub open spec fn tag_chunks(s: Seq<char>, name: Seq<char>) -> Seq<Seq<char>>
    decreases s.len(),
{
    let i = char_index(s, '<');
    if i >= s.len() {
        seq![]
    } else {
        let c = s.skip(i + 1);
        let e = char_index(c, '>');
        let chunk = c.take(e);
        let rest = if e >= c.len() {
            seq![]
        } else {
            proof {
                crate::text::lemma_char_index_bound(s, '<');
                crate::text::lemma_char_index_bound(c, '>');
            }
            tag_chunks(c.skip(e + 1), name)
        };
        if starts_with(chunk, name) {
            seq![chunk] + rest
        } else {
            rest
        }
    }
}

/// The tag chunks of a manifest whose text starts with `name`.
pub fn manifest_tag_chunks(text: &[char], name: &[char]) -> (r: Vec<Vec<char>>)
    ensures
        r@.len() == tag_chunks(text@, name@).len(),
        forall|k: int| 0 <= k < r@.len() ==> #[trigger] r@[k]@ == tag_chunks(text@, name@)[k],
{
    let mut out: Vec<Vec<char>> = Vec::new();
    let mut cursor: Vec<char> = slice_chars(text, 0, text.len());
    let ghost mut before: Seq<Seq<char>> = seq![];
    assert(text@.subrange(0, text@.len() as int) =~= text@);
    let mut done = false;
    while !done
        invariant
            out@.len() == before.len(),
            forall|k: int| 0 <= k < out@.len() ==> #[trigger] out@[k]@ == before[k],
            !done ==> tag_chunks(text@, name@) == before + tag_chunks(cursor@, name@),
            done ==> tag_chunks(text@, name@) == before,
        decreases cursor@.len(), if done { 0int } else { 1int },
    {
        let ghost s = cursor@;
        let i = find_char(cursor.as_slice(), '<');
        if i >= cursor.len() {
            assert(before + seq![] =~= before);
            done = true;
        } else {
            let c = slice_chars(cursor.as_slice(), i + 1, cursor.len());
            assert(c@ =~= s.skip(i + 1));
            let e = find_char(c.as_slice(), '>');
            let chunk = slice_chars(c.as_slice(), 0, e);
            assert(chunk@ =~= c@.take(e as int));
            let keep = starts_with_chars(chunk.as_slice(), name);
            let ghost rest = if e >= c@.len() {
                Seq::<Seq<char>>::empty()
            } else {
                tag_chunks(c@.skip(e + 1), name@)
            };
            if keep {
                proof {
                    before = before.push(chunk@);
                }
                out.push(chunk);
                assert(seq![c@.take(e as int)] + rest =~= seq![chunk@] + rest);
            }
            if e >= c.len() {
                done = true;
                assert(before + Seq::<Seq<char>>::empty() =~= before);
            } else {
                cursor = slice_chars(c.as_slice(), e + 1, c.len());
                assert(cursor@ =~= c@.skip(e + 1));
            }
            proof {
                if keep {
                    assert(tag_chunks(s, name@) == seq![chunk@] + rest);
                    assert(before.drop_last() + (seq![chunk@] + rest) =~= before + rest);
                } else {
                    assert(tag_chunks(s, name@) == rest);
                }
            }
        }
    }
    out
}

/// The quoted value of `name="…"` at its first occurrence in a tag.
pub open spec fn attribute_of(tag: Seq<char>, name: Seq<char>) -> Option<Seq<char>> {
    let marker = name + seq!['=', '"'];
    if contains(tag, marker) {
        let i = choose|i: int| first_occurrence(tag, marker, i);
        let rest = tag.skip(i + marker.len());
        let e = char_index(rest, '"');
        if e < rest.len() {
            Some(rest.take(e))
        } else {
            None
        }
    } else {
        None
    }
}

proof fn lemma_first_occurrence_unique(s: Seq<char>, p: Seq<char>, i: int, j: int)
    requires
        first_occurrence(s, p, i),
        first_occurrence(s, p, j),
    ensures
        i == j,
{
    if i < j {
        assert(!occurs_at(s, p, i));
    } else if j < i {
        assert(!occurs_at(s, p, j));
    }
}

/// The value of an attribute written as `name="value"` in a tag.
pub fn attribute(tag: &[char], name: &[char]) -> (r: Option<Vec<char>>)
    ensures
        match (r, attribute_of(tag@, name@)) {
            (Some(a), Some(b)) => a@ == b,
            (None, None) => true,
            _ => false,
        },
{
    let mut marker = slice_chars(name, 0, name.len());
    marker.push('=');
    marker.push('"');
    assert(name@.subrange(0, name@.len() as int) =~= name@);
    assert(marker@ =~= name@ + seq!['=', '"']);
    let i = match find_chars(tag, marker.as_slice()) {
        Some(i) => i,
        None => return None,
    };
    proof {
        let j = choose|j: int| first_occurrence(tag@, marker@, j);
        assert(first_occurrence(tag@, marker@, i as int));
        lemma_first_occurrence_unique(tag@, marker@, i as int, j);
    }
    assert(occurs_at(tag@, marker@, i as int));
    let n = tag.len();
    assert(i + marker@.len() <= n);
    let start = i + marker.len();
    let rest = slice_chars(tag, start, n);
    assert(rest@ =~= tag@.skip(start as int));
    let e = find_char(rest.as_slice(), '"');
    if e < rest.len() {
        let value = slice_chars(rest.as_slice(), 0, e);
        assert(value@ =~= rest@.take(e as int));
        Some(value)
    } else {
        None
    }
}

/// The declared height of a representation tag, when it reads as a `u16`.
pub open spec fn height_of(chunk: Seq<char>) -> Option<nat> {
    match attribute_of(chunk, "height"@) {
        Some(v) => parse_unsigned(v, 65535),
        None => None,
    }
}

/// A declared height within the limit.
pub open spec fn fitting_height(chunks: Seq<Seq<char>>, maximum_height: u16, h: nat) -> bool {
    exists|k: int| 0 <= k < chunks.len() && height_of(#[trigger] chunks[k]) == Some(h) && h <= maximum_height
}

/// Returns the highest declared video representation not exceeding the limit.
pub fn choose_video_height(manifest: &str, maximum_height: u16) -> (r: Option<u16>)
    ensures
        ({
            let chunks = tag_chunks(manifest@, "Representation"@);
            match r {
                Some(h) => fitting_height(chunks, maximum_height, h as nat) && forall|g: nat|
                    fitting_height(chunks, maximum_height, g) ==> g <= h,
                None => forall|g: nat| !fitting_height(chunks, maximum_height, g),
            }
        }),
{
    let text = chars_of(manifest);
    let name = chars_of("Representation");
    let height_name = chars_of("height");
    let chunks = manifest_tag_chunks(text.as_slice(), name.as_slice());
    let ghost cs = tag_chunks(manifest@, "Representation"@);
    let mut selected: Option<u16> = None;
    let mut i: usize = 0;
    while i < chunks.len()
        invariant
            i <= chunks@.len(),
            chunks@.len() == cs.len(),
            cs == tag_chunks(manifest@, "Representation"@),
            height_name@ == "height"@,
            forall|k: int| 0 <= k < chunks@.len() ==> #[trigger] chunks@[k]@ == cs[k],
            match selected {
                Some(h) => fitting_height(cs.take(i as int), maximum_height, h as nat) && forall|g: nat|
                    fitting_height(cs.take(i as int), maximum_height, g) ==> g <= h,
                None => forall|g: nat| !fitting_height(cs.take(i as int), maximum_height, g),
            },
        decreases chunks@.len() - i,
    {
        let ghost prev = cs.take(i as int);
        let ghost next = cs.take(i + 1);
        assert(next =~= prev.push(cs[i as int]));
        assert(chunks@[i as int]@ == cs[i as int]);
        let value = attribute(chunks[i].as_slice(), height_name.as_slice());
        let parsed: Option<u64> = match value {
            Some(v) => parse_unsigned_chars(v.as_slice(), 65535),
            None => None,
        };
        assert(match parsed {
            Some(n) => height_of(cs[i as int]) == Some(n as nat),
            None => height_of(cs[i as int]) is None,
        });
        proof {
            assert forall|g: nat| fitting_height(next, maximum_height, g) implies fitting_height(prev, maximum_height, g)
                || (height_of(cs[i as int]) == Some(g) && g <= maximum_height) by {
                let k = choose|k: int| 0 <= k < next.len() && height_of(#[trigger] next[k]) == Some(g) && g <= maximum_height;
                if k < i {
                    assert(next[k] == prev[k]);
                }
            }
            assert forall|g: nat| fitting_height(prev, maximum_height, g) implies fitting_height(next, maximum_height, g) by {
                let k = choose|k: int| 0 <= k < prev.len() && height_of(#[trigger] prev[k]) == Some(g) && g <= maximum_height;
                assert(next[k] == prev[k]);
            }
            if height_of(cs[i as int]) is Some && height_of(cs[i as int])->0 <= maximum_height {
                assert(next[i as int] == cs[i as int]);
                assert(fitting_height(next, maximum_height, height_of(cs[i as int])->0));
            }
        }
        match parsed {
            Some(h) => {
                if h <= maximum_height as u64 {
                    match selected {
                        Some(current) => {
                            if h > current as u64 {
                                selected = Some(h as u16);
                            }
                        },
                        None => {
                            selected = Some(h as u16);
                        },
                    }
                }
            },
            None => {},
        }
        i = i + 1;
    }
    assert(cs.take(cs.len() as int) =~= cs);
    selected
}

/// The pieces of a template: literal text, and variables written `$…$`; `None`
/// when a `$` is left open.
pub open spec fn template_pieces(t: Seq<char>) -> Option<Seq<(Seq<char>, bool)>>
    decreases t.len(),
{
    if t.len() == 0 {
        Some(seq![])
    } else {
        let s = char_index(t, '$');
        if s >= t.len() {
            Some(seq![(t, false)])
        } else {
            let after = t.skip(s + 1);
            let e = char_index(after, '$');
            if e >= after.len() {
                None
            } else {
                proof {
                    crate::text::lemma_char_index_bound(t, '$');
                    crate::text::lemma_char_index_bound(after, '$');
                }
                match template_pieces(after.skip(e + 1)) {
                    None => None,
                    Some(ps) => Some(seq![(t.take(s), false), (seq![], true)] + ps),
                }
            }
        }
    }
}

/// What is left of the value after matching the pieces in order: before any
/// variable a literal must come next; after one, its first occurrence is taken.
pub open spec fn match_pieces(ps: Seq<(Seq<char>, bool)>, rem: Seq<char>, seen: bool) -> Option<Seq<char>>
    decreases ps.len(),
{
    if ps.len() == 0 {
        Some(rem)
    } else {
        let lit = ps[0].0;
        if ps[0].1 {
            match_pieces(ps.drop_first(), rem, true)
        } else if lit.len() == 0 {
            match_pieces(ps.drop_first(), rem, seen)
        } else if !seen {
            if starts_with(rem, lit) {
                match_pieces(ps.drop_first(), rem.skip(lit.len() as int), seen)
            } else {
                None
            }
        } else if contains(rem, lit) {
            let idx = choose|i: int| first_occurrence(rem, lit, i);
            match_pieces(ps.drop_first(), rem.skip(idx + lit.len()), seen)
        } else {
            None
        }
    }
}

/// Whether a value matches a template whose `$…$` variables stand for any text.
pub open spec fn template_accepts(t: Seq<char>, v: Seq<char>) -> bool {
    match template_pieces(t) {
        None => false,
        Some(ps) => if ps.len() == 0 {
            v.len() == 0
        } else {
            match match_pieces(ps, v, false) {
                None => false,
                Some(rem) => crate::text::ends_with(t, seq!['$']) || rem.len() == 0,
            }
        },
    }
}

pub open spec fn prepend_pieces(acc: Seq<(Seq<char>, bool)>, rest: Option<Seq<(Seq<char>, bool)>>) -> Option<Seq<(Seq<char>, bool)>> {
    match rest {
        None => None,
        Some(ps) => Some(acc + ps),
    }
}

fn pieces_of(t: &[char]) -> (r: Option<Vec<(Vec<char>, bool)>>)
    ensures
        match (r, template_pieces(t@)) {
            (Some(a), Some(b)) => a@.len() == b.len() && forall|k: int|
                0 <= k < a@.len() ==> (#[trigger] a@[k]).0@ == b[k].0 && a@[k].1 == b[k].1,
            (None, None) => true,
            _ => false,
        },
{
    let mut out: Vec<(Vec<char>, bool)> = Vec::new();
    let ghost mut acc: Seq<(Seq<char>, bool)> = seq![];
    let mut cursor = slice_chars(t, 0, t.len());
    assert(t@.subrange(0, t@.len() as int) =~= t@);
    assert(acc + Seq::<(Seq<char>, bool)>::empty() =~= acc);
    while cursor.len() > 0
        invariant
            out@.len() == acc.len(),
            forall|k: int| 0 <= k < out@.len() ==> (#[trigger] out@[k]).0@ == acc[k].0 && out@[k].1 == acc[k].1,
            template_pieces(t@) == prepend_pieces(acc, template_pieces(cursor@)),
        decreases cursor@.len(),
    {
        let ghost c0 = cursor@;
        let s = find_char(cursor.as_slice(), '$');
        if s >= cursor.len() {
            proof {
                acc = acc.push((c0, false));
            }
            out.push((cursor, false));
            cursor = Vec::new();
            assert(acc.drop_last() + seq![(c0, false)] =~= acc);
            assert(acc + Seq::<(Seq<char>, bool)>::empty() =~= acc);
        } else {
            let after = slice_chars(cursor.as_slice(), s + 1, cursor.len());
            assert(after@ =~= c0.skip(s + 1));
            let e = find_char(after.as_slice(), '$');
            if e >= after.len() {
                return None;
            }
            let lit = slice_chars(cursor.as_slice(), 0, s);
            assert(lit@ =~= c0.take(s as int));
            let next = slice_chars(after.as_slice(), e + 1, after.len());
            assert(next@ =~= after@.skip(e + 1));
            proof {
                let old_acc = acc;
                acc = acc.push((lit@, false)).push((seq![], true));
                match template_pieces(next@) {
                    Some(ps) => {
                        assert(old_acc + (seq![(lit@, false), (Seq::<char>::empty(), true)] + ps) =~= acc + ps);
                    },
                    None => {},
                }
            }
            out.push((lit, false));
            out.push((Vec::new(), true));
            assert(out@[out@.len() - 1].0@ =~= Seq::<char>::empty());
            cursor = next;
        }
    }
    assert(acc + Seq::<(Seq<char>, bool)>::empty() =~= acc);
    Some(out)
}

/// Whether a value matches a template whose `$…$` variables stand for any text.
pub fn template_matches(template: &str, value: &str) -> (r: bool)
    ensures
        r == template_accepts(template@, value@),
{
    let t = chars_of(template);
    let ps = match pieces_of(t.as_slice()) {
        Some(ps) => ps,
        None => return false,
    };
    let ghost pieces = template_pieces(t@)->0;
    let v = chars_of(value);
    if ps.len() == 0 {
        return v.len() == 0;
    }
    let mut rem = slice_chars(v.as_slice(), 0, v.len());
    assert(v@.subrange(0, v@.len() as int) =~= v@);
    let mut seen = false;
    let mut k: usize = 0;
    assert(pieces.skip(0) =~= pieces);
    while k < ps.len()
        invariant
            t@ == template@,
            v@ == value@,
            template_pieces(t@) == Some(pieces),
            pieces.len() > 0,
            k <= ps@.len(),
            ps@.len() == pieces.len(),
            forall|j: int| 0 <= j < ps@.len() ==> (#[trigger] ps@[j]).0@ == pieces[j].0 && ps@[j].1 == pieces[j].1,
            match_pieces(pieces, v@, false) == match_pieces(pieces.skip(k as int), rem@, seen),
        decreases ps@.len() - k,
    {
        let ghost rest = pieces.skip(k as int);
        assert(rest[0] == pieces[k as int]);
        assert(rest.drop_first() =~= pieces.skip(k + 1));
        let lit = &ps[k].0;
        if ps[k].1 {
            seen = true;
        } else if lit.len() == 0 {
        } else if !seen {
            if !starts_with_chars(rem.as_slice(), lit.as_slice()) {
                return false;
            }
            rem = slice_chars(rem.as_slice(), lit.len(), rem.len());
        } else {
            match find_chars(rem.as_slice(), lit.as_slice()) {
                None => return false,
                Some(idx) => {
                    proof {
                        let j = choose|i: int| first_occurrence(rem@, lit@, i);
                        lemma_first_occurrence_unique(rem@, lit@, idx as int, j);
                        assert(occurs_at(rem@, lit@, idx as int));
                    }
                    let n = rem.len();
                    rem = slice_chars(rem.as_slice(), idx + lit.len(), n);
                },
            }
        }
        k = k + 1;
    }
    assert(pieces.skip(k as int).len() == 0);
    let dollar = ['$'];
    let ends = crate::text::ends_with_chars(t.as_slice(), dollar.as_slice());
    assert(dollar@ =~= seq!['$']);
    ends || rem.len() == 0
}

/// A route the proxy serves: a path template and an optional query template.
#[derive(Debug, Clone, PartialEq, Eq)]
pub struct DashCapability {
    pub path_template: String,
    pub query_template: Option<String>,
}

/// Whether a request path and query fall under a capability: both templates
/// must match, and a query is required exactly when the capability has one.
pub open spec fn capability_allows(c: DashCapability, path: Seq<char>, query: Option<Seq<char>>) -> bool {
    template_accepts(c.path_template@, path) && match (c.query_template, query) {
        (None, None) => true,
        (Some(expected), Some(actual)) => template_accepts(expected@, actual),
        _ => false,
    }
}

impl DashCapability {
    pub fn matches(&self, path: &str, query: Option<&str>) -> (r: bool)
        ensures
            r == capability_allows(
                *self,
                path@,
                match query {
                    Some(q) => Some(q@),
                    None => None,
                },
            ),
    {
        template_matches(self.path_template.as_str(), path) && match (&self.query_template, query) {
            (None, None) => true,
            (Some(expected), Some(actual)) => template_matches(expected.as_str(), actual),
            _ => false,
        }
    }
}

/// Schemes FFmpeg must never be pointed at.
pub open spec fn unsafe_scheme(v: Seq<char>) -> bool {
    let l = crate::text::lower_seq(crate::text::trim(v));
    ||| starts_with(l, "file:"@)
    ||| starts_with(l, "data:"@)
    ||| starts_with(l, "pipe:"@)
    ||| starts_with(l, "concat:"@)
    ||| starts_with(l, "subfile:"@)
}

pub fn is_unsafe_scheme(value: &[char]) -> (r: bool)
    ensures
        r == unsafe_scheme(value@),
{
    let l = crate::text::lower_chars(crate::text::trim_chars(value).as_slice());
    starts_with_chars(l.as_slice(), chars_of("file:").as_slice()) || starts_with_chars(
        l.as_slice(),
        chars_of("data:").as_slice(),
    ) || starts_with_chars(l.as_slice(), chars_of("pipe:").as_slice()) || starts_with_chars(
        l.as_slice(),
        chars_of("concat:").as_slice(),
    ) || starts_with_chars(l.as_slice(), chars_of("subfile:").as_slice())
}

#[derive(Debug, Clone, Copy, PartialEq, Eq)]
pub enum DashError {
    /// The download failed; the HTTP status when the server answered with one.
    Download(Option<u16>),
    InvalidManifest(&'static str),
    UnsafeManifestReference,
    ToolFailed { tool: &'static str, status: Option<i32> },
    MissingVideoStream,
    NoticeMedia,
    InvalidProbeOutput,
    Io,
    Cancelled,
    ProxySecurity,
    ProxyNetwork,
}

/// Text outside references may not point anywhere else: no unsafe scheme, no
/// scheme-relative or absolute URL.
pub open spec fn external_text_refused(v: Seq<char>) -> bool {
    let t = crate::text::trim(v);
    unsafe_scheme(t) || (t.len() > 0 && (starts_with(t, "//"@) || contains(t, "://"@)))
}

pub fn reject_external_text(value: &[char]) -> (r: Result<(), DashError>)
    ensures
        r is Err <==> external_text_refused(value@),
        r matches Err(e) ==> e == DashError::UnsafeManifestReference,
{
    let t = crate::text::trim_chars(value);
    if t.len() == 0 || is_unsafe_scheme(t.as_slice()) {
        if is_unsafe_scheme(t.as_slice()) {
            return Err(DashError::UnsafeManifestReference);
        }
        return Ok(());
    }
    if starts_with_chars(t.as_slice(), chars_of("//").as_slice()) || crate::text::contains_chars(
        t.as_slice(),
        chars_of("://").as_slice(),
    ) {
        return Err(DashError::UnsafeManifestReference);
    }
    Ok(())
}

/// Where FFmpeg writes before the file is moved into place.
pub fn temporary_output_path(destination: &str) -> (r: String)
    ensures
        r@ == destination@ + ".dash.tmp"@,
{
    crate::text::joined(destination, ".dash.tmp")
}

/// The value of a hexadecimal digit.
pub open spec fn hex_digit(c: char) -> Option<nat> {
    if '0' <= c && c <= '9' {
        Some((c as u32 - '0' as u32) as nat)
    } else if 'a' <= c && c <= 'f' {
        Some((c as u32 - 'a' as u32 + 10) as nat)
    } else if 'A' <= c && c <= 'F' {
        Some((c as u32 - 'A' as u32 + 10) as nat)
    } else {
        None
    }
}

pub open spec fn all_hex(s: Seq<char>) -> bool {
    forall|i: int| 0 <= i < s.len() ==> (#[trigger] hex_digit(s[i])) is Some
}

pub open spec fn hex_value(s: Seq<char>) -> nat
    decreases s.len(),
{
    if s.len() == 0 {
        0
    } else {
        hex_value(s.drop_last()) * 16 + match hex_digit(s.last()) {
            Some(d) => d,
            None => 0,
        }
    }
}

/// `u32::from_str_radix(s, 16)`.
pub open spec fn parse_hex(s: Seq<char>) -> Option<nat> {
    let d = crate::text::unsigned_digits(s);
    if d.len() > 0 && all_hex(d) && hex_value(d) <= u32::MAX {
        Some(hex_value(d))
    } else {
        None
    }
}

proof fn lemma_hex_value_grows(s: Seq<char>, t: Seq<char>)
    requires
        all_hex(t),
    ensures
        hex_value(s + t) >= hex_value(s),
    decreases t.len(),
{
    if t.len() > 0 {
        lemma_hex_value_grows(s, t.drop_last());
        assert((s + t).drop_last() =~= s + t.drop_last());
    } else {
        assert(s + t =~= s);
    }
}

fn hex_digit_of(c: char) -> (r: Option<u32>)
    ensures
        match (r, hex_digit(c)) {
            (Some(a), Some(b)) => a == b && a < 16,
            (None, None) => true,
            _ => false,
        },
{
    if '0' <= c && c <= '9' {
        Some(c as u32 - '0' as u32)
    } else if 'a' <= c && c <= 'f' {
        Some(c as u32 - 'a' as u32 + 10)
    } else if 'A' <= c && c <= 'F' {
        Some(c as u32 - 'A' as u32 + 10)
    } else {
        None
    }
}

fn parse_hex_chars(v: &[char]) -> (r: Option<u32>)
    ensures
        match (r, parse_hex(v@)) {
            (Some(a), Some(b)) => a == b,
            (None, None) => true,
            _ => false,
        },
{
    let start: usize = if v.len() > 0 && v[0] == '+' {
        1
    } else {
        0
    };
    let ghost d = crate::text::unsigned_digits(v@);
    assert(d =~= v@.subrange(start as int, v@.len() as int));
    if start >= v.len() {
        return None;
    }
    let mut acc: u64 = 0;
    let mut i: usize = start;
    while i < v.len()
        invariant
            start <= i <= v@.len(),
            d == v@.subrange(start as int, v@.len() as int),
            d == crate::text::unsigned_digits(v@),
            all_hex(v@.subrange(start as int, i as int)),
            acc as nat == hex_value(v@.subrange(start as int, i as int)),
            acc <= u32::MAX,
        decreases v@.len() - i,
    {
        let c = v[i];
        let digit = match hex_digit_of(c) {
            Some(x) => x,
            None => {
                assert(d[i - start] == c);
                return None;
            },
        };
        let ghost before = v@.subrange(start as int, i as int);
        assert(before.push(c) =~= v@.subrange(start as int, i + 1));
        assert(v@.subrange(start as int, i + 1).drop_last() =~= before);
        let next: u64 = acc * 16 + digit as u64;
        if next > u32::MAX as u64 {
            proof {
                let p = v@.subrange(start as int, i + 1);
                let t = v@.subrange(i + 1, v@.len() as int);
                assert(p + t =~= d);
                if all_hex(d) {
                    assert(all_hex(t)) by {
                        assert forall|j: int| 0 <= j < t.len() implies (#[trigger] hex_digit(t[j])) is Some by {
                            assert(t[j] == d[j + i + 1 - start]);
                        }
                    }
                    lemma_hex_value_grows(p, t);
                }
            }
            return None;
        }
        acc = next;
        i = i + 1;
        assert(all_hex(v@.subrange(start as int, i as int))) by {
            assert forall|j: int| 0 <= j < i - start implies (#[trigger] hex_digit(v@.subrange(start as int, i as int)[j])) is Some by {
                if j < i - 1 - start {
                    assert(v@.subrange(start as int, i as int)[j] == before[j]);
                }
            }
        }
    }
    Some(acc as u32)
}

/// `char::from_u32`: the character with that code, when it is one.
#[verifier::external_body]
fn char_from_code(code: u32) -> (r: Option<char>)
    ensures
        r matches Some(c) ==> c as u32 == code,
        r is None <==> (code > 0x10FFFF || (0xD800 <= code && code <= 0xDFFF)),
{
    char::from_u32(code)
}

pub open spec fn valid_code(n: nat) -> bool {
    n <= 0x10FFFF && !(0xD800 <= n && n <= 0xDFFF)
}

proof fn lemma_char_code_injective(a: char, b: char)
    requires
        char_code(a) == char_code(b),
    ensures
        a == b,
{
}

/// The code point of a character.
pub open spec fn char_code(ch: char) -> nat {
    ch as u32 as nat
}

/// The character with that code point, when it is one.
pub open spec fn code_char(n: Option<nat>) -> Option<Seq<char>> {
    match n {
        Some(c) => if valid_code(c) {
            Some(seq![choose|ch: char| #[trigger] char_code(ch) == c])
        } else {
            None
        },
        None => None,
    }
}

/// What an entity between `&` and `;` stands for: the five predefined ones and
/// numeric character references; anything else is refused.
pub open spec fn entity_value(e: Seq<char>) -> Option<Seq<char>> {
    if e == "amp"@ {
        Some(seq!['&'])
    } else if e == "lt"@ {
        Some(seq!['<'])
    } else if e == "gt"@ {
        Some(seq!['>'])
    } else if e == "quot"@ {
        Some(seq!['"'])
    } else if e == "apos"@ {
        Some(seq!['\''])
    } else if starts_with(e, "#x"@) || starts_with(e, "#X"@) {
        code_char(parse_hex(crate::text::trim(e.skip(2))))
    } else if starts_with(e, seq!['#']) {
        code_char(parse_unsigned(e.skip(1), u32::MAX as nat))
    } else {
        None
    }
}

pub open spec fn nat_of(n: Option<u64>) -> Option<nat> {
    match n {
        Some(x) => Some(x as nat),
        None => None,
    }
}

fn char_of_code(n: Option<u64>) -> (r: Option<Vec<char>>)
    requires
        n matches Some(x) ==> x <= u32::MAX,
    ensures
        match (r, code_char(nat_of(n))) {
            (Some(a), Some(b)) => a@ == b,
            (None, None) => true,
            _ => false,
        },
{
    if n.is_none() {
        assert(code_char(nat_of(n)) is None);
        return None;
    }
    let x = n.unwrap();
    let code = x as u32;
    assert(code as nat == x as nat);
    match char_from_code(code) {
        Some(c) => {
            let mut v: Vec<char> = Vec::new();
            v.push(c);
            assert(valid_code(x as nat));
            assert(char_code(c) == x as nat);
            let ghost w = choose|ch: char| #[trigger] char_code(ch) == x as nat;
            assert(char_code(w) == x as nat);
            proof {
                lemma_char_code_injective(w, c);
            }
            assert(v@ =~= seq![c]);
            assert(code_char(nat_of(n)) == Some(seq![w]));
            Some(v)
        },
        None => {
            assert(!valid_code(x as nat));
            None
        },
    }
}

fn entity(e: &[char]) -> (r: Option<Vec<char>>)
    ensures
        match (r, entity_value(e@)) {
            (Some(a), Some(b)) => a@ == b,
            (None, None) => true,
            _ => false,
        },
{
    let one = |c: char| -> (v: Vec<char>)
        ensures
            v@ == seq![c],
        {
            let mut v: Vec<char> = Vec::new();
            v.push(c);
            assert(v@ =~= seq![c]);
            v
        };
    if crate::text::chars_eq(e, chars_of("amp").as_slice()) {
        Some(one('&'))
    } else if crate::text::chars_eq(e, chars_of("lt").as_slice()) {
        Some(one('<'))
    } else if crate::text::chars_eq(e, chars_of("gt").as_slice()) {
        Some(one('>'))
    } else if crate::text::chars_eq(e, chars_of("quot").as_slice()) {
        Some(one('"'))
    } else if crate::text::chars_eq(e, chars_of("apos").as_slice()) {
        Some(one('\''))
    } else if starts_with_chars(e, chars_of("#x").as_slice()) || starts_with_chars(
        e,
        chars_of("#X").as_slice(),
    ) {
        proof {
            reveal_strlit("#x");
            reveal_strlit("#X");
        }
        let tail = slice_chars(e, 2, e.len());
        assert(tail@ =~= e@.skip(2));
        let digits = crate::text::trim_chars(tail.as_slice());
        let n = parse_hex_chars(digits.as_slice());
        let wide: Option<u64> = match n {
            Some(x) => Some(x as u64),
            None => None,
        };
        char_of_code(wide)
    } else if e.len() > 0 && e[0] == '#' {
        assert(starts_with(e@, seq!['#'])) by {
            assert(e@.subrange(0, 1) =~= seq!['#']);
        };
        let rest = slice_chars(e, 1, e.len());
        assert(rest@ =~= e@.skip(1));
        char_of_code(parse_unsigned_chars(rest.as_slice(), u32::MAX as u64))
    } else {
        assert(!starts_with(e@, seq!['#'])) by {
            if e@.len() > 0 && starts_with(e@, seq!['#']) {
                assert(e@.subrange(0, 1)[0] == e@[0]);
            }
        };
        None
    }
}

/// The text with its entities replaced, read from the front: an `&` with no
/// `;` after it stays as it is; an unknown entity is refused.
pub open spec fn decode_from(s: Seq<char>, acc: Seq<char>) -> Option<Seq<char>>
    decreases s.len(),
{
    let i = char_index(s, '&');
    if i >= s.len() {
        Some(acc + s)
    } else {
        let after = s.skip(i + 1);
        let j = char_index(after, ';');
        proof {
            crate::text::lemma_char_index_bound(s, '&');
            crate::text::lemma_char_index_bound(after, ';');
        }
        if j >= after.len() {
            decode_from(after, acc + s.take(i) + seq!['&'])
        } else {
            match entity_value(after.take(j)) {
                None => None,
                Some(d) => decode_from(after.skip(j + 1), acc + s.take(i) + d),
            }
        }
    }
}

/// `decode_xml_entities`: the decoded text, which may not open a markup
/// declaration (`<!`).
pub open spec fn decoded_entities(v: Seq<char>) -> Result<Seq<char>, DashError> {
    match decode_from(v, seq![]) {
        None => Err(DashError::UnsafeManifestReference),
        Some(t) => if contains(t, "<!"@) {
            Err(DashError::UnsafeManifestReference)
        } else {
            Ok(t)
        },
    }
}

pub fn decode_xml_entities(value: &[char]) -> (r: Result<Vec<char>, DashError>)
    ensures
        match (r, decoded_entities(value@)) {
            (Ok(a), Ok(b)) => a@ == b,
            (Err(e), Err(f)) => e == f,
            _ => false,
        },
{
    let mut out: Vec<char> = Vec::new();
    let mut rest = slice_chars(value, 0, value.len());
    assert(value@.subrange(0, value@.len() as int) =~= value@);
    let mut done = false;
    while !done
        invariant
            !done ==> decode_from(value@, seq![]) == decode_from(rest@, out@),
            done ==> decode_from(value@, seq![]) == Some(out@),
        decreases rest@.len(), if done { 0int } else { 1int },
    {
        let ghost s = rest@;
        let ghost out0 = out@;
        let i = find_char(rest.as_slice(), '&');
        if i >= rest.len() {
            out = crate::text::concat_chars(out.as_slice(), rest.as_slice());
            done = true;
        } else {
            let head = slice_chars(rest.as_slice(), 0, i);
            assert(head@ =~= s.take(i as int));
            let after = slice_chars(rest.as_slice(), i + 1, rest.len());
            assert(after@ =~= s.skip(i + 1));
            let j = find_char(after.as_slice(), ';');
            if j >= after.len() {
                let mut next = crate::text::concat_chars(out.as_slice(), head.as_slice());
                next.push('&');
                out = next;
                rest = after;
                assert(out@ =~= out0 + s.take(i as int) + seq!['&']);
            } else {
                let name = slice_chars(after.as_slice(), 0, j);
                assert(name@ =~= after@.take(j as int));
                match entity(name.as_slice()) {
                    None => return Err(DashError::UnsafeManifestReference),
                    Some(d) => {
                        let next = crate::text::concat_chars(out.as_slice(), head.as_slice());
                        out = crate::text::concat_chars(next.as_slice(), d.as_slice());
                        rest = slice_chars(after.as_slice(), j + 1, after.len());
                        assert(rest@ =~= after@.skip(j + 1));
                        assert(out@ =~= out0 + s.take(i as int) + d@);
                    },
                }
            }
        }
    }
    let marker = chars_of("<!");
    if crate::text::contains_chars(out.as_slice(), marker.as_slice()) {
        return Err(DashError::UnsafeManifestReference);
    }
    Ok(out)
}

/// The size of the provider's notice clip, which stands in for refused media.
pub const NOTICE_SIZE_BYTES: u64 = 917554;

/// A manifest that lists representations must offer one within the height limit.
pub open spec fn heights_acceptable(manifest: Seq<char>, maximum_height: u16) -> bool {
    let chunks = tag_chunks(manifest, "Representation"@);
    chunks.len() == 0 || exists|g: nat| fitting_height(chunks, maximum_height, g)
}

pub fn check_manifest_heights(manifest: &str, maximum_height: u16) -> (r: Result<(), DashError>)
    ensures
        r is Ok <==> heights_acceptable(manifest@, maximum_height),
        r matches Err(e) ==> e == DashError::InvalidManifest("no video representation is within the requested height"),
{
    let chunks = manifest_tag_chunks(chars_of(manifest).as_slice(), chars_of("Representation").as_slice());
    if chunks.len() > 0 && choose_video_height(manifest, maximum_height).is_none() {
        return Err(DashError::InvalidManifest("no video representation is within the requested height"));
    }
    proof {
        if chunks.len() > 0 {
            let chunks_spec = tag_chunks(manifest@, "Representation"@);
            assert(chunks_spec.len() > 0);
        }
    }
    Ok(())
}

/// A finished output of exactly the notice clip's size is the notice, not the title.
pub fn check_output_size(bytes: u64) -> (r: Result<(), DashError>)
    ensures
        r is Err <==> bytes == NOTICE_SIZE_BYTES,
        r matches Err(e) ==> e == DashError::NoticeMedia,
{
    if bytes == NOTICE_SIZE_BYTES {
        Err(DashError::NoticeMedia)
    } else {
        Ok(())
    }
}

/// Why the proxy refused or failed an upstream request.
#[derive(Debug, Clone, Copy, PartialEq, Eq, Structural)]
pub enum ProxyFailure {
    /// The upstream answered 401 or 403.
    Auth(u16),
    Security,
    Network,
}

/// The first failure is kept; later ones do not replace it.
pub fn record_proxy_failure(current: Option<ProxyFailure>, next: ProxyFailure) -> (r: Option<ProxyFailure>)
    ensures
        r == match current {
            Some(f) => Some(f),
            None => Some(next),
        },
{
    match current {
        Some(f) => Some(f),
        None => Some(next),
    }
}

pub open spec fn failure_error(f: ProxyFailure) -> DashError {
    match f {
        ProxyFailure::Auth(status) => DashError::Download(Some(status)),
        ProxyFailure::Security => DashError::ProxySecurity,
        ProxyFailure::Network => DashError::ProxyNetwork,
    }
}

/// The error a recorded proxy failure stands for.
pub fn proxy_error(failure: Option<ProxyFailure>) -> (r: Option<DashError>)
    ensures
        r == match failure {
            Some(f) => Some(failure_error(f)),
            None => None,
        },
{
    match failure {
        Some(ProxyFailure::Auth(status)) => Some(DashError::Download(Some(status))),
        Some(ProxyFailure::Security) => Some(DashError::ProxySecurity),
        Some(ProxyFailure::Network) => Some(DashError::ProxyNetwork),
        None => None,
    }
}

/// A recorded proxy failure explains a tool error better than the tool can.
pub fn proxy_error_or(error: DashError, failure: Option<ProxyFailure>) -> (r: DashError)
    ensures
        r == match failure {
            Some(f) => failure_error(f),
            None => error,
        },
{
    match proxy_error(failure) {
        Some(e) => e,
        None => error,
    }
}

/// The arguments FFmpeg runs with: only HTTP and its transports, the chosen video
/// stream and the first audio stream if any, copied into Matroska.
pub open spec fn ffmpeg_arguments(url: Seq<char>, video_stream_index: u32, output: Seq<char>) -> Seq<Seq<char>> {
    seq![
        "-hide_banner"@,
        "-loglevel"@,
        "error"@,
        "-y"@,
        "-protocol_whitelist"@,
        "http,tcp,tls,crypto"@,
        "-i"@,
        url,
        "-map"@,
        "0:"@ + crate::text::dec_string(video_stream_index as nat),
        "-map"@,
        "0:a:0?"@,
        "-c"@,
        "copy"@,
        "-f"@,
        "matroska"@,
        output,
    ]
}

pub fn private_ffmpeg_arguments(url: &str, video_stream_index: u32, output: &str) -> (r: Vec<String>)
    ensures
        r@.len() == ffmpeg_arguments(url@, video_stream_index, output@).len(),
        forall|i: int| 0 <= i < r@.len() ==> #[trigger] r@[i]@ == ffmpeg_arguments(url@, video_stream_index, output@)[i],
{
    let digits = crate::text::dec_digits(video_stream_index as u64);
    let map_target = crate::text::concat_chars(chars_of("0:").as_slice(), digits.as_slice());
    let args = vec![
        crate::text::owned("-hide_banner"),
        crate::text::owned("-loglevel"),
        crate::text::owned("error"),
        crate::text::owned("-y"),
        crate::text::owned("-protocol_whitelist"),
        crate::text::owned("http,tcp,tls,crypto"),
        crate::text::owned("-i"),
        crate::text::owned(url),
        crate::text::owned("-map"),
        crate::text::string_of(map_target.as_slice()),
        crate::text::owned("-map"),
        crate::text::owned("0:a:0?"),
        crate::text::owned("-c"),
        crate::text::owned("copy"),
        crate::text::owned("-f"),
        crate::text::owned("matroska"),
        crate::text::owned(output),
    ];
    args
}

/// The redacted arguments shown in diagnostics: stream zero.
pub fn build_ffmpeg_arguments(url: &str, output: &str) -> (r: Vec<String>)
    ensures
        r@.len() == ffmpeg_arguments(url@, 0, output@).len(),
        forall|i: int| 0 <= i < r@.len() ==> #[trigger] r@[i]@ == ffmpeg_arguments(url@, 0, output@)[i],
{
    private_ffmpeg_arguments(url, 0, output)
}

/// One entry of the `streams` array that ffprobe prints, as JSON gives its
/// fields: the text of `codec_type` and the unsigned integers `index` and `height`.
#[derive(Debug, Clone, PartialEq, Eq)]
pub struct ProbeStream {
    pub codec_type: Option<String>,
    pub index: Option<u64>,
    pub height: Option<u64>,
}

pub struct ProbeStreamView {
    pub codec_type: Option<Seq<char>>,
    pub index: Option<u64>,
    pub height: Option<u64>,
}

impl View for ProbeStream {
    type V = ProbeStreamView;

    open spec fn view(&self) -> ProbeStreamView {
        ProbeStreamView {
            codec_type: crate::text::opt_text(self.codec_type),
            index: self.index,
            height: self.height,
        }
    }
}

/// One entry of the `streams` array as the library reads it: the text of
/// `codec_type` and the unsigned integers `index` and `height`, each absent when
/// the member is missing or of another kind.
pub open spec fn probe_entry(e: JsonValue) -> ProbeStreamView {
    ProbeStreamView {
        codec_type: text_field(e, "codec_type"@),
        index: unsigned_field(e, "index"@),
        height: unsigned_field(e, "height"@),
    }
}

/// The entries of the `streams` array of ffprobe's output, or `None` when the
/// document has no `streams` member or it is not an array.
pub open spec fn probe_entries(v: JsonValue) -> Option<Seq<ProbeStreamView>> {
    match field(v, "streams"@) {
        Some(a) => match items_of(a) {
            Some(items) => Some(items.map_values(|e: JsonValue| probe_entry(e))),
            None => None,
        },
        None => None,
    }
}

/// Reads one entry of the `streams` array.
pub fn probe_stream_of(e: &JsonValue) -> (r: ProbeStream)
    ensures
        r@ == probe_entry(*e),
{
    let codec_type = match get_text(e, "codec_type") {
        Some(t) => Some(crate::text::owned(t)),
        None => None,
    };
    ProbeStream { codec_type, index: get_unsigned(e, "index"), height: get_unsigned(e, "height") }
}

/// The entries of the `streams` array of ffprobe's JSON output, each read by
/// `probe_stream_of`.
pub fn streams_of(v: &JsonValue) -> (r: Option<Vec<ProbeStream>>)
    ensures
        match (r, probe_entries(*v)) {
            (Some(a), Some(b)) => a@.map_values(|s: ProbeStream| s@) == b,
            (None, None) => true,
            _ => false,
        },
{
    let items = match get(v, "streams") {
        Some(a) => match as_items(a) {
            Some(items) => items,
            None => return None,
        },
        None => return None,
    };
    let ghost want = items@.map_values(|e: JsonValue| probe_entry(e));
    let mut out: Vec<ProbeStream> = Vec::new();
    let mut k: usize = 0;
    while k < items.len()
        invariant
            k <= items@.len(),
            want == items@.map_values(|e: JsonValue| probe_entry(e)),
            out@.len() == k,
            forall|j: int| 0 <= j < k ==> #[trigger] out@[j]@ == want[j],
        decreases items@.len() - k,
    {
        out.push(probe_stream_of(&items[k]));
        k = k + 1;
    }
    assert(out@.map_values(|s: ProbeStream| s@) =~= want);
    Some(out)
}

/// The video stream to keep: the tallest within the limit, the lowest index among
/// equals; a video stream without a valid index or height spoils the output.
pub open spec fn pick_stream(streams: Seq<ProbeStreamView>, maximum_height: u16, selected: Option<(u64, u64)>) -> Result<Option<(u64, u64)>, DashError>
    decreases streams.len(),
{
    if streams.len() == 0 {
        Ok(selected)
    } else {
        let s = streams[0];
        if s.codec_type != Some("video"@) {
            pick_stream(streams.drop_first(), maximum_height, selected)
        } else if !(s.index matches Some(i) && i <= u32::MAX) {
            Err(DashError::InvalidProbeOutput)
        } else if !(s.height matches Some(h) && h <= u16::MAX) {
            Err(DashError::InvalidProbeOutput)
        } else {
            let h = s.height->0;
            let i = s.index->0;
            if h > maximum_height {
                pick_stream(streams.drop_first(), maximum_height, selected)
            } else {
                let better = match selected {
                    None => true,
                    Some((ch, ci)) => h > ch || (h == ch && i < ci),
                };
                pick_stream(streams.drop_first(), maximum_height, if better { Some((h, i)) } else { selected })
            }
        }
    }
}

/// `choose_video_stream` on the streams ffprobe listed.
pub open spec fn chosen_stream(streams: Seq<ProbeStreamView>, maximum_height: u16) -> Result<u32, DashError> {
    match pick_stream(streams, maximum_height, None) {
        Err(e) => Err(e),
        Ok(None) => Err(DashError::InvalidManifest("no video stream is within the requested height")),
        Ok(Some((_, i))) => Ok(i as u32),
    }
}

pub fn choose_video_stream_in(streams: &Vec<ProbeStream>, maximum_height: u16) -> (r: Result<u32, DashError>)
    ensures
        r == chosen_stream(streams@.map_values(|s: ProbeStream| s@), maximum_height),
{
    let ghost all = streams@.map_values(|s: ProbeStream| s@);
    let mut selected: Option<(u64, u64)> = None;
    let mut k: usize = 0;
    assert(all.skip(0) =~= all);
    while k < streams.len()
        invariant
            k <= streams@.len(),
            all == streams@.map_values(|s: ProbeStream| s@),
            selected matches Some((_, i)) ==> i <= u32::MAX,
            pick_stream(all, maximum_height, None) == pick_stream(all.skip(k as int), maximum_height, selected),
        decreases streams@.len() - k,
    {
        let ghost rest = all.skip(k as int);
        assert(rest[0] == streams@[k as int]@);
        assert(rest.drop_first() =~= all.skip(k + 1));
        let s = &streams[k];
        let video = match &s.codec_type {
            Some(t) => crate::text::str_eq(t.as_str(), "video"),
            None => false,
        };
        if video {
            let index = match s.index {
                Some(i) => {
                    if i > u32::MAX as u64 {
                        return Err(DashError::InvalidProbeOutput);
                    }
                    i
                },
                None => return Err(DashError::InvalidProbeOutput),
            };
            let height = match s.height {
                Some(h) => {
                    if h > u16::MAX as u64 {
                        return Err(DashError::InvalidProbeOutput);
                    }
                    h
                },
                None => return Err(DashError::InvalidProbeOutput),
            };
            if height <= maximum_height as u64 {
                let better = match selected {
                    None => true,
                    Some((ch, ci)) => height > ch || (height == ch && index < ci),
                };
                if better {
                    selected = Some((height, index));
                }
            }
        }
        k = k + 1;
    }
    assert(all.skip(k as int).len() == 0);
    match selected {
        None => Err(DashError::InvalidManifest("no video stream is within the requested height")),
        Some((_, i)) => Ok(i as u32),
    }
}

/// The stream index ffprobe gives for the video to keep, from its parsed JSON
/// output; output that is not JSON is the caller's `InvalidProbeOutput`.
pub fn choose_video_stream(probe: &JsonValue, maximum_height: u16) -> (r: Result<u32, DashError>)
    ensures
        r == match probe_entries(*probe) {
            None => Err(DashError::InvalidProbeOutput),
            Some(streams) => chosen_stream(streams, maximum_height),
        },
{
    match streams_of(probe) {
        None => Err(DashError::InvalidProbeOutput),
        Some(streams) => choose_video_stream_in(&streams, maximum_height),
    }
}

/// Segments that could climb out of the granted paths, plain or percent-encoded.
pub open spec fn dot_segment(seg: Seq<char>) -> bool {
    seg == "."@ || seg == ".."@ || crate::text::lower_seq(seg) == "%2e"@ || crate::text::lower_seq(seg) == "%2e%2e"@
}

pub open spec fn has_dot_segment(p: Seq<char>) -> bool {
    exists|i: int| 0 <= i < crate::text::split_pieces(p, '/').len() && dot_segment(#[trigger] crate::text::split_pieces(p, '/')[i])
}

fn dot_segment_exec(seg: &[char]) -> (r: bool)
    ensures
        r == dot_segment(seg@),
{
    let l = crate::text::lower_chars(seg);
    crate::text::chars_eq(seg, chars_of(".").as_slice()) || crate::text::chars_eq(seg, chars_of("..").as_slice())
        || crate::text::chars_eq(l.as_slice(), chars_of("%2e").as_slice()) || crate::text::chars_eq(
        l.as_slice(),
        chars_of("%2e%2e").as_slice(),
    )
}

fn has_dot_segment_exec(p: &[char]) -> (r: bool)
    ensures
        r == has_dot_segment(p@),
{
    let mut pieces: Vec<Vec<char>> = Vec::new();
    pieces.push(Vec::new());
    let mut i: usize = 0;
    assert(pieces@.map_values(|v: Vec<char>| v@) =~= crate::text::split_pieces(p@.subrange(0, 0), '/'));
    while i < p.len()
        invariant
            i <= p@.len(),
            pieces@.len() > 0,
            pieces@.map_values(|v: Vec<char>| v@) == crate::text::split_pieces(p@.subrange(0, i as int), '/'),
        decreases p@.len() - i,
    {
        let ghost before = pieces@.map_values(|v: Vec<char>| v@);
        assert(p@.subrange(0, i + 1).drop_last() =~= p@.subrange(0, i as int));
        if p[i] == '/' {
            pieces.push(Vec::new());
            assert(pieces@.map_values(|v: Vec<char>| v@) =~= before.push(seq![]));
        } else {
            let mut last = pieces.pop().unwrap();
            last.push(p[i]);
            pieces.push(last);
            assert(pieces@.map_values(|v: Vec<char>| v@) =~= before.update(
                before.len() - 1,
                before.last().push(p@[i as int]),
            ));
        }
        i = i + 1;
    }
    assert(p@.subrange(0, p@.len() as int) =~= p@);
    let ghost all = crate::text::split_pieces(p@, '/');
    let mut k: usize = 0;
    while k < pieces.len()
        invariant
            k <= pieces@.len(),
            pieces@.map_values(|v: Vec<char>| v@) == all,
            all == crate::text::split_pieces(p@, '/'),
            forall|j: int| 0 <= j < k ==> !dot_segment(#[trigger] all[j]),
        decreases pieces@.len() - k,
    {
        assert(all[k as int] == pieces@[k as int]@);
        if dot_segment_exec(pieces[k].as_slice()) {
            return true;
        }
        k = k + 1;
    }
    false
}

/// The text without its leading slashes.
pub open spec fn without_leading_slashes(s: Seq<char>) -> Seq<char>
    decreases s.len(),
{
    if s.len() > 0 && s[0] == '/' {
        without_leading_slashes(s.drop_first())
    } else {
        s
    }
}

/// What `Url::join` of a reference against the URL that `Url::parse` reads from
/// `base`, followed by `Url::set_query` and `Url::set_fragment(None)`, gives.
pub uninterp spec fn url_join_query(base: Seq<char>, reference: Seq<char>, query: Option<Seq<char>>) -> Option<crate::urls::ParsedUrlView>;

/// Resolves a proxied path on the origin and puts the request's query on it.
#[verifier::external_body]
fn join_with_query(base: &str, reference: &str, query: Option<&str>) -> (r: Option<crate::urls::ParsedUrl>)
    ensures
        crate::urls::parsed_view(r) == url_join_query(
            base@,
            reference@,
            match query {
                Some(q) => Some(q@),
                None => None,
            },
        ),
{
    let mut upstream = url::Url::parse(base).ok()?.join(reference).ok()?;
    upstream.set_query(query);
    upstream.set_fragment(None);
    Some(crate::urls::parts_of(&upstream))
}

/// The upstream URL a proxied request asks for: the route must carry the proxy's
/// token, climb nowhere, fall under a granted capability and stay on the origin.
pub open spec fn proxy_target(path: Seq<char>, query: Option<Seq<char>>, token: Seq<char>, origin: crate::urls::ParsedUrlView, caps: Seq<DashCapability>) -> Result<crate::urls::ParsedUrlView, DashError> {
    if !starts_with(path, "/__dash/"@) {
        Err(DashError::UnsafeManifestReference)
    } else {
        let (tok, rest) = crate::text::split_once(path.skip(8), '/');
        match rest {
            None => Err(DashError::UnsafeManifestReference),
            Some(r) => {
                let p = seq!['/'] + r;
                if tok != token || has_dot_segment(p) {
                    Err(DashError::UnsafeManifestReference)
                } else if !(exists|i: int| 0 <= i < caps.len() && capability_allows(#[trigger] caps[i], p, query)) {
                    Err(DashError::UnsafeManifestReference)
                } else {
                    match url_join_query(origin.serialization, without_leading_slashes(p), query) {
                        None => Err(DashError::UnsafeManifestReference),
                        Some(u) => if crate::urls::same_origin(u, origin) {
                            Ok(u)
                        } else {
                            Err(DashError::UnsafeManifestReference)
                        },
                    }
                }
            },
        }
    }
}

pub fn proxy_target_url(
    path: &str,
    query: Option<&str>,
    token: &str,
    origin: &crate::urls::ParsedUrl,
    caps: &Vec<DashCapability>,
) -> (r: Result<crate::urls::ParsedUrl, DashError>)
    ensures
        match (
            r,
            proxy_target(
                path@,
                match query {
                    Some(q) => Some(q@),
                    None => None,
                },
                token@,
                origin@,
                caps@,
            ),
        ) {
            (Ok(a), Ok(b)) => a@ == b,
            (Err(e), Err(f)) => e == f,
            _ => false,
        },
{
    let ghost qv = match query {
        Some(q) => Some(q@),
        None => None,
    };
    let v = chars_of(path);
    proof {
        reveal_strlit("/__dash/");
    }
    if !starts_with_chars(v.as_slice(), chars_of("/__dash/").as_slice()) {
        return Err(DashError::UnsafeManifestReference);
    }
    let prefix = slice_chars(v.as_slice(), 8, v.len());
    assert(prefix@ =~= path@.skip(8));
    let (tok, rest) = crate::text::split_once_chars(prefix.as_slice(), '/');
    let rest = match rest {
        Some(r) => r,
        None => return Err(DashError::UnsafeManifestReference),
    };
    let mut p: Vec<char> = Vec::new();
    p.push('/');
    let p = crate::text::concat_chars(p.as_slice(), rest.as_slice());
    assert(p@ =~= seq!['/'] + rest@);
    if !crate::text::chars_eq(tok.as_slice(), chars_of(token).as_slice()) || has_dot_segment_exec(p.as_slice()) {
        return Err(DashError::UnsafeManifestReference);
    }
    let p_text = string_of(p.as_slice());
    let mut allowed = false;
    let mut i: usize = 0;
    while i < caps.len()
        invariant
            i <= caps@.len(),
            p_text@ == p@,
            qv == match query {
                Some(q) => Some(q@),
                None => None,
            },
            allowed == exists|j: int| 0 <= j < i && capability_allows(#[trigger] caps@[j], p@, qv),
        decreases caps@.len() - i,
    {
        if caps[i].matches(p_text.as_str(), query) {
            allowed = true;
        }
        i = i + 1;
    }
    if !allowed {
        return Err(DashError::UnsafeManifestReference);
    }
    let mut lo: usize = 0;
    assert(p@.skip(0) =~= p@);
    while lo < p.len() && p[lo] == '/'
        invariant
            lo <= p@.len(),
            without_leading_slashes(p@) == without_leading_slashes(p@.skip(lo as int)),
        decreases p@.len() - lo,
    {
        assert(p@.skip(lo as int).drop_first() =~= p@.skip(lo + 1));
        lo = lo + 1;
    }
    let relative = slice_chars(p.as_slice(), lo, p.len());
    assert(relative@ =~= p@.skip(lo as int));
    let upstream = match join_with_query(origin.serialization.as_str(), string_of(relative.as_slice()).as_str(), query) {
        Some(u) => u,
        None => return Err(DashError::UnsafeManifestReference),
    };
    if !crate::urls::origins_match(&upstream, origin) {
        return Err(DashError::UnsafeManifestReference);
    }
    Ok(upstream)
}

/// What the proxy does with one request.
#[derive(Debug, Clone)]
pub enum ProxyDecision {
    MethodNotAllowed,
    ServeManifest,
    /// The target is not a URL path; the connection is dropped.
    BadTarget,
    /// Refused as unsafe: answered 404, and recorded as a security failure.
    NotFound,
    Forward(crate::urls::ParsedUrl),
}

/// What an upstream response leads to: a failure to record, and whether its body
/// is passed on.
pub fn upstream_response(status: u16) -> (r: (Option<ProxyFailure>, bool))
    ensures
        r.0 == (if status == 401 || status == 403 { Some(ProxyFailure::Auth(status)) } else { None }),
        r.1 == (200 <= status && status <= 299),
{
    let failure = if status == 401 || status == 403 {
        Some(ProxyFailure::Auth(status))
    } else {
        None
    };
    (failure, 200 <= status && status <= 299)
}

/// A failed upstream request: a transport error is a network failure, anything the
/// checks refused a security one.
pub fn classify_proxy_failure(transport_error: bool) -> (r: ProxyFailure)
    ensures
        r == (if transport_error { ProxyFailure::Network } else { ProxyFailure::Security }),
{
    if transport_error {
        ProxyFailure::Network
    } else {
        ProxyFailure::Security
    }
}

/// The host every proxied request target is read against.
pub const PROXY_ORIGIN: &'static str = "http://dash-proxy.invalid";

/// Decides what the proxy answers a request with.
pub fn proxy_decision(
    is_get: bool,
    target: &str,
    manifest_path: &str,
    token: &str,
    origin: &crate::urls::ParsedUrl,
    caps: &Vec<DashCapability>,
) -> (r: ProxyDecision)
    ensures
        !is_get ==> r is MethodNotAllowed,
        is_get && target@ == manifest_path@ ==> r is ServeManifest,
        is_get && target@ != manifest_path@ ==> match crate::urls::url_parse(PROXY_ORIGIN@ + target@) {
            None => r is BadTarget,
            Some(local) => match (r, proxy_target(local.path, local.query, token@, origin@, caps@)) {
                (ProxyDecision::Forward(u), Ok(t)) => u@ == t,
                (ProxyDecision::NotFound, Err(_)) => true,
                _ => false,
            },
        },
{
    if !is_get {
        return ProxyDecision::MethodNotAllowed;
    }
    if crate::text::str_eq(target, manifest_path) {
        return ProxyDecision::ServeManifest;
    }
    let local = match crate::urls::parse_url(crate::text::joined(PROXY_ORIGIN, target).as_str()) {
        Some(u) => u,
        None => return ProxyDecision::BadTarget,
    };
    let query = match &local.query {
        Some(q) => Some(q.as_str()),
        None => None,
    };
    match proxy_target_url(local.path.as_str(), query, token, origin, caps) {
        Ok(u) => ProxyDecision::Forward(u),
        Err(_) => ProxyDecision::NotFound,
    }
}

/// Two lower-case hexadecimal digits per byte, as `{:02x}` writes them.
pub open spec fn hex_bytes(bytes: Seq<u8>) -> Seq<char>
    decreases bytes.len(),
{
    if bytes.len() == 0 {
        seq![]
    } else {
        hex_bytes(bytes.drop_last()) + crate::server::jobs::model::hex_digits(bytes.last() as nat, 2)
    }
}

/// The bytes in lower-case hexadecimal.
pub fn hex_string(bytes: &[u8]) -> (r: String)
    ensures
        r@ == hex_bytes(bytes@),
{
    let mut out = String::new();
    let mut i: usize = 0;
    while i < bytes.len()
        invariant
            i <= bytes@.len(),
            out@ == hex_bytes(bytes@.subrange(0, i as int)),
        decreases bytes@.len() - i,
    {
        let b = bytes[i];
        let hi = b / 16;
        let lo = b % 16;
        let ghost before = out@;
        crate::text::push_char(&mut out, if hi < 10 { (hi + 48) as char } else { (hi + 87) as char });
        crate::text::push_char(&mut out, if lo < 10 { (lo + 48) as char } else { (lo + 87) as char });
        proof {
            let t = bytes@.subrange(0, i + 1);
            assert(t.drop_last() =~= bytes@.subrange(0, i as int));
            assert(t.last() == b);
            reveal_with_fuel(crate::server::jobs::model::hex_digits, 3);
            assert((b as nat) / 16 % 16 == hi as nat);
        }
        i = i + 1;
    }
    assert(bytes@.subrange(0, bytes@.len() as int) =~= bytes@);
    out
}

/// The secret path segment of a proxy: 24 random bytes in hexadecimal.
pub fn random_proxy_token() -> (r: String)
    ensures
        exists|b: Seq<u8>| b.len() == 24 && r@ == hex_bytes(b),
{
    let bytes = crate::server::auth::random_bytes(24);
    hex_string(bytes.as_slice())
}

/// The path the proxy serves the rewritten manifest at.
pub open spec fn manifest_path_of(token: Seq<char>) -> Seq<char> {
    "/__dash/"@ + token + "/manifest.mpd"@
}

pub fn proxy_manifest_path(token: &str) -> (r: String)
    ensures
        r@ == manifest_path_of(token@),
{
    let head = crate::text::joined("/__dash/", token);
    crate::text::joined(head.as_str(), "/manifest.mpd")
}

/// What `Url::set_path` leaves of the URL that `Url::parse` reads from the
/// text, serialised.
pub uninterp spec fn url_with_path(text: Seq<char>, path: Seq<char>) -> Option<Seq<char>>;

/// What `Url::set_query(None)` leaves of the URL that `Url::parse` reads from
/// the text, serialised.
pub uninterp spec fn url_without_query(text: Seq<char>) -> Option<Seq<char>>;

/// `Url::set_path` on a parsed URL.
#[verifier::external_body]
fn set_path(text: &str, path: &str) -> (r: Option<String>)
    ensures
        crate::text::opt_text(r) == url_with_path(text@, path@),
{
    url::Url::parse(text).ok().map(|mut u| {
        u.set_path(path);
        u.to_string()
    })
}

/// `Url::set_query(None)` on a parsed URL.
#[verifier::external_body]
fn clear_query(text: &str) -> (r: Option<String>)
    ensures
        crate::text::opt_text(r) == url_without_query(text@),
{
    url::Url::parse(text).ok().map(|mut u| {
        u.set_query(None);
        u.to_string()
    })
}

/// The origin the proxy forwards to: the manifest's URL with the path `/` and
/// neither query nor fragment.
pub open spec fn proxy_origin_of(remote: Seq<char>) -> Option<crate::urls::ParsedUrlView> {
    match url_with_path(remote, "/"@) {
        None => None,
        Some(a) => match url_without_query(a) {
            None => None,
            Some(b) => crate::server::jobs::manifest::url_without_fragment(b),
        },
    }
}

/// The address FFmpeg reads the manifest from: the proxy's port on the
/// loopback address, and the manifest path.
pub open spec fn proxy_url_of(port: u16, manifest_path: Seq<char>) -> Seq<char> {
    "http://127.0.0.1:"@ + crate::text::dec_string(port as nat) + manifest_path
}

/// What a proxy for a manifest is set up with.
pub struct ProxySetup {
    /// The path the rewritten manifest is served at.
    pub manifest_path: String,
    /// Where the references of the manifest are fetched.
    pub origin: crate::urls::ParsedUrl,
    /// The address FFmpeg is given.
    pub url: crate::urls::ParsedUrl,
}

/// Sets up the proxy for a manifest fetched from `remote`, once it listens on
/// `port`: the manifest path under the token, the origin it forwards to, and
/// the address FFmpeg reads. A URL the parser refuses is reported as the
/// proxy's URL being invalid.
pub fn proxy_setup(remote: &crate::urls::ParsedUrl, token: &str, port: u16) -> (r: Result<ProxySetup, DashError>)
    ensures
        match (proxy_origin_of(remote.serialization@), crate::urls::url_parse(proxy_url_of(port, manifest_path_of(token@)))) {
            (Some(o), Some(u)) => r matches Ok(p) && p.manifest_path@ == manifest_path_of(token@)
                && p.origin@ == o && p.url@ == u,
            _ => r == Err::<ProxySetup, DashError>(DashError::InvalidManifest("proxy URL is invalid")),
        },
{
    let invalid = DashError::InvalidManifest("proxy URL is invalid");
    let with_path = match set_path(remote.serialization.as_str(), "/") {
        Some(t) => t,
        None => return Err(invalid),
    };
    let plain = match clear_query(with_path.as_str()) {
        Some(t) => t,
        None => return Err(invalid),
    };
    let origin = match crate::server::jobs::manifest::strip_fragment(plain.as_str()) {
        Some(o) => o,
        None => return Err(invalid),
    };
    let manifest_path = proxy_manifest_path(token);
    let digits = crate::text::dec_digits(port as u64);
    let address = crate::text::joined("http://127.0.0.1:", crate::text::string_of(digits.as_slice()).as_str());
    let text = crate::text::joined(address.as_str(), manifest_path.as_str());
    match crate::urls::parse_url(text.as_str()) {
        Some(url) => Ok(ProxySetup { manifest_path, origin, url }),
        None => Err(invalid),
    }
}

// ---------------------------------------------------------------------------
// A DASH transfer, step by step: the decisions between the outside work of
// fetching the manifest, serving it through the proxy, probing streams and
// running FFmpeg. Durations are fractions, so the caller checks them and
// reports the outcome.

/// Where a DASH transfer stands.
#[derive(Debug, Clone, Copy, PartialEq, Eq, Structural)]
pub enum DashPhase {
    FetchingManifest,
    ReadingManifest,
    StartingProxy,
    ProbingStreams,
    Converting,
    CheckingOutput,
    MeasuringOutput,
    Finished,
}

#[derive(Debug, Clone, Copy, PartialEq, Eq, Structural)]
pub struct DashRun {
    pub phase: DashPhase,
    pub maximum_height: u16,
}

/// How a finished transfer ends when it does not fail.
#[derive(Debug, Clone, Copy, PartialEq, Eq, Structural)]
pub enum DashOutcome {
    Paused,
    Completed { bytes: u64 },
}

/// What the outside work reported.
#[derive(Debug, PartialEq, Eq)]
pub enum DashEvent {
    /// Cancellation won the race against the work being awaited.
    Cancelled,
    /// The work failed; `proxy_failure` is what the proxy recorded, if it runs.
    Failed { error: DashError, proxy_failure: Option<ProxyFailure> },
    /// The manifest request was answered with this status.
    ManifestAnswered { status: u16 },
    /// The manifest body, and whether cancellation was asked for meanwhile.
    ManifestRead { body: Vec<u8>, cancelled: bool },
    ProxyStarted,
    /// The video stream to convert, and whether cancellation was asked for.
    StreamChosen { index: u32, cancelled: bool },
    /// FFmpeg exited.
    Converted { success: bool, code: Option<i32>, proxy_failure: Option<ProxyFailure> },
    /// The caller's check of the probed output against the provider's duration.
    OutputChecked(Result<(), DashError>),
    /// The output's size, and whether cancellation was asked for.
    OutputMeasured { bytes: u64, cancelled: bool },
}

/// What to do next.
#[derive(Debug, PartialEq, Eq)]
pub enum DashAction {
    FetchManifest,
    ReadManifest,
    /// Serve the manifest text through the proxy.
    StartProxy,
    ProbeStreams,
    /// Run FFmpeg on this video stream.
    Convert { video_stream: u32 },
    ProbeOutput,
    MeasureOutput,
    /// Move the output into place and report its size.
    Finish { bytes: u64 },
    /// The transfer is over; `remove_output` says whether the partial output
    /// is to be deleted.
    Done { result: Result<DashOutcome, DashError>, remove_output: bool },
}

pub open spec fn finished_with(run: DashRun, result: Result<DashOutcome, DashError>, remove_output: bool) -> (DashRun, DashAction) {
    (DashRun { phase: DashPhase::Finished, ..run }, DashAction::Done { result, remove_output })
}

pub open spec fn moved(run: DashRun, phase: DashPhase, action: DashAction) -> (DashRun, DashAction) {
    (DashRun { phase, ..run }, action)
}

/// The first step: only DASH requests are handled, a cancelled transfer
/// pauses, and the provider's duration (checked by the caller) must be usable.
pub open spec fn dash_start(is_dash: bool, maximum_height: u16, cancelled: bool, duration: Result<(), DashError>) -> (DashRun, DashAction) {
    let run = DashRun { phase: DashPhase::FetchingManifest, maximum_height };
    if !is_dash {
        finished_with(run, Err(DashError::InvalidManifest("non-DASH request")), false)
    } else if cancelled {
        finished_with(run, Ok(DashOutcome::Paused), false)
    } else {
        match duration {
            Err(e) => finished_with(run, Err(e), false),
            Ok(_) => (run, DashAction::FetchManifest),
        }
    }
}

/// One step of a transfer.
pub open spec fn dash_next(run: DashRun, ev: DashEvent) -> (DashRun, DashAction) {
    let converting = run.phase == DashPhase::Converting || run.phase == DashPhase::CheckingOutput
        || run.phase == DashPhase::MeasuringOutput;
    match ev {
        DashEvent::Cancelled => finished_with(run, Ok(DashOutcome::Paused), converting),
        DashEvent::Failed { error, proxy_failure } => finished_with(
            run,
            Err(if run.phase == DashPhase::ProbingStreams || run.phase == DashPhase::CheckingOutput {
                match proxy_failure {
                    Some(f) => failure_error(f),
                    None => error,
                }
            } else {
                error
            }),
            converting,
        ),
        DashEvent::ManifestAnswered { status } => if 200 <= status <= 299 {
            moved(run, DashPhase::ReadingManifest, DashAction::ReadManifest)
        } else {
            finished_with(run, Err(DashError::Download(Some(status))), false)
        },
        DashEvent::ManifestRead { body, cancelled } => if !vstd::utf8::valid_utf8(body@) {
            finished_with(run, Err(DashError::InvalidManifest("not UTF-8")), false)
        } else if !heights_acceptable(vstd::utf8::decode_utf8(body@), run.maximum_height) {
            finished_with(
                run,
                Err(DashError::InvalidManifest("no video representation is within the requested height")),
                false,
            )
        } else if cancelled {
            finished_with(run, Ok(DashOutcome::Paused), false)
        } else {
            moved(run, DashPhase::StartingProxy, DashAction::StartProxy)
        },
        DashEvent::ProxyStarted => moved(run, DashPhase::ProbingStreams, DashAction::ProbeStreams),
        DashEvent::StreamChosen { index, cancelled } => if cancelled {
            finished_with(run, Ok(DashOutcome::Paused), false)
        } else {
            moved(run, DashPhase::Converting, DashAction::Convert { video_stream: index })
        },
        DashEvent::Converted { success, code, proxy_failure } => if !success {
            finished_with(
                run,
                Err(match proxy_failure {
                    Some(f) => failure_error(f),
                    None => DashError::ToolFailed { tool: "ffmpeg", status: code },
                }),
                true,
            )
        } else {
            match proxy_failure {
                Some(f) => finished_with(run, Err(failure_error(f)), true),
                None => moved(run, DashPhase::CheckingOutput, DashAction::ProbeOutput),
            }
        },
        DashEvent::OutputChecked(checked) => match checked {
            Err(e) => finished_with(run, Err(e), true),
            Ok(_) => moved(run, DashPhase::MeasuringOutput, DashAction::MeasureOutput),
        },
        DashEvent::OutputMeasured { bytes, cancelled } => if bytes == NOTICE_SIZE_BYTES {
            finished_with(run, Err(DashError::NoticeMedia), true)
        } else if cancelled {
            finished_with(run, Ok(DashOutcome::Paused), true)
        } else {
            (DashRun { phase: DashPhase::Finished, ..run }, DashAction::Finish { bytes })
        },
    }
}

/// Starts a DASH transfer.
pub fn dash_begin(is_dash: bool, maximum_height: u16, cancelled: bool, duration: Result<(), DashError>) -> (r: (DashRun, DashAction))
    ensures
        r == dash_start(is_dash, maximum_height, cancelled, duration),
{
    let run = DashRun { phase: DashPhase::FetchingManifest, maximum_height };
    if !is_dash {
        return (DashRun { phase: DashPhase::Finished, ..run }, DashAction::Done { result: Err(DashError::InvalidManifest("non-DASH request")), remove_output: false });
    }
    if cancelled {
        return (DashRun { phase: DashPhase::Finished, ..run }, DashAction::Done { result: Ok(DashOutcome::Paused), remove_output: false });
    }
    match duration {
        Err(e) => (DashRun { phase: DashPhase::Finished, ..run }, DashAction::Done { result: Err(e), remove_output: false }),
        Ok(_) => (run, DashAction::FetchManifest),
    }
}

/// Takes what the outside work reported and decides the next step.
pub fn dash_step(run: DashRun, ev: DashEvent) -> (r: (DashRun, DashAction))
    ensures
        r == dash_next(run, ev),
{
    let converting = run.phase == DashPhase::Converting || run.phase == DashPhase::CheckingOutput
        || run.phase == DashPhase::MeasuringOutput;
    let done = DashRun { phase: DashPhase::Finished, ..run };
    match ev {
        DashEvent::Cancelled => (done, DashAction::Done { result: Ok(DashOutcome::Paused), remove_output: converting }),
        DashEvent::Failed { error, proxy_failure } => {
            let e = if run.phase == DashPhase::ProbingStreams || run.phase == DashPhase::CheckingOutput {
                proxy_error_or(error, proxy_failure)
            } else {
                error
            };
            (done, DashAction::Done { result: Err(e), remove_output: converting })
        },
        DashEvent::ManifestAnswered { status } => if 200 <= status && status <= 299 {
            (DashRun { phase: DashPhase::ReadingManifest, ..run }, DashAction::ReadManifest)
        } else {
            (done, DashAction::Done { result: Err(DashError::Download(Some(status))), remove_output: false })
        },
        DashEvent::ManifestRead { body, cancelled } => {
            let text = match crate::server::jobs::manifest::utf8_text(body.as_slice()) {
                Some(t) => t,
                None => return (done, DashAction::Done { result: Err(DashError::InvalidManifest("not UTF-8")), remove_output: false }),
            };
            if let Err(e) = check_manifest_heights(text.as_str(), run.maximum_height) {
                return (done, DashAction::Done { result: Err(e), remove_output: false });
            }
            if cancelled {
                return (done, DashAction::Done { result: Ok(DashOutcome::Paused), remove_output: false });
            }
            (DashRun { phase: DashPhase::StartingProxy, ..run }, DashAction::StartProxy)
        },
        DashEvent::ProxyStarted => (DashRun { phase: DashPhase::ProbingStreams, ..run }, DashAction::ProbeStreams),
        DashEvent::StreamChosen { index, cancelled } => if cancelled {
            (done, DashAction::Done { result: Ok(DashOutcome::Paused), remove_output: false })
        } else {
            (DashRun { phase: DashPhase::Converting, ..run }, DashAction::Convert { video_stream: index })
        },
        DashEvent::Converted { success, code, proxy_failure } => if !success {
            let e = proxy_error_or(DashError::ToolFailed { tool: "ffmpeg", status: code }, proxy_failure);
            (done, DashAction::Done { result: Err(e), remove_output: true })
        } else {
            match proxy_error(proxy_failure) {
                Some(e) => (done, DashAction::Done { result: Err(e), remove_output: true }),
                None => (DashRun { phase: DashPhase::CheckingOutput, ..run }, DashAction::ProbeOutput),
            }
        },
        DashEvent::OutputChecked(checked) => match checked {
            Err(e) => (done, DashAction::Done { result: Err(e), remove_output: true }),
            Ok(_) => (DashRun { phase: DashPhase::MeasuringOutput, ..run }, DashAction::MeasureOutput),
        },
        DashEvent::OutputMeasured { bytes, cancelled } => if check_output_size(bytes).is_err() {
            (done, DashAction::Done { result: Err(DashError::NoticeMedia), remove_output: true })
        } else if cancelled {
            (done, DashAction::Done { result: Ok(DashOutcome::Paused), remove_output: true })
        } else {
            (done, DashAction::Finish { bytes })
        },
    }
}

/// A transfer completes only after FFmpeg succeeded with no proxy failure, the
/// output passed the caller's duration check, and its size is not the
/// provider's notice clip: no other step finishes it with bytes.
pub proof fn lemma_completion_needs_every_check(run: DashRun, ev: DashEvent)
    ensures
        dash_next(run, ev).1 matches DashAction::Finish { bytes } ==> ev matches DashEvent::OutputMeasured {
            bytes: b,
            cancelled: false,
        } && b == bytes && bytes != NOTICE_SIZE_BYTES,
        dash_next(run, ev).1 matches DashAction::ProbeOutput ==> ev matches DashEvent::Converted {
            success: true,
            proxy_failure: None,
            ..
        },
        dash_next(run, ev).1 matches DashAction::MeasureOutput ==> ev matches DashEvent::OutputChecked(Ok(_)),
{
}

} // verus!

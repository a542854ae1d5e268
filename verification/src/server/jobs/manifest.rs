//! Rewriting a DASH manifest so that every reference goes through the local
//! proxy.
//!
//! The XML is read and written by `quick_xml`; its events are held here as plain
//! values. The rules are this module's own: one `MPD` root, no comments,
//! processing instructions, CDATA or document types, no entity but the
//! predefined and numeric ones, `BaseURL` elements resolved against their
//! parent's base, and every segment reference kept on the manifest's origin and
//! turned into a proxy route with a matching capability.

use vstd::prelude::*;

use crate::server::jobs::dash::{
    decode_xml_entities, decoded_entities, external_text_refused, is_unsafe_scheme,
    reject_external_text, unsafe_scheme, DashCapability, DashError,
};
use crate::text::{
    chars_of, contains, ends_with, is_blank, lower_seq, opt_text, starts_with, string_of, trim,
};
use crate::urls::{join_url, origins_match, parsed_view, same_origin, url_join, ParsedUrl, ParsedUrlView};

verus! {

/// Manifests larger than this are refused.
pub const MAX_MANIFEST_BYTES: usize = 16777216;

/// One attribute of a start tag as the reader gives it: the key with its value
/// normalised, the key of a value that could not be normalised, or a malformed
/// attribute.
#[derive(Debug, Clone, PartialEq, Eq)]
pub enum AttrItem {
    Pair { key: String, value: String },
    Unreadable { key: String },
    Malformed,
}

#[derive(Debug, Clone, PartialEq, Eq)]
pub struct StartTag {
    pub name: String,
    pub local_name: String,
    pub attributes: Vec<AttrItem>,
}

/// An XML event, with its text as it appears in the source.
#[derive(Debug, Clone, PartialEq, Eq)]
pub enum XmlEvent {
    Start(StartTag),
    Empty(StartTag),
    Text(String),
    GeneralRef(String),
    End(String),
    Decl(String),
    /// A comment, CDATA section, processing instruction or document type.
    Refused,
    /// The reader could not go on.
    Malformed,
    Eof,
}

/// A start tag to write, with its attribute values escaped once.
#[derive(Debug, Clone, PartialEq, Eq)]
pub struct OutTag {
    pub name: String,
    pub attributes: Vec<(String, String)>,
}

/// An event to write: `RawText` goes out as read, `Text` is escaped.
#[derive(Debug, Clone, PartialEq, Eq)]
pub enum XmlOut {
    Start(OutTag),
    Empty(OutTag),
    RawText(String),
    Text(String),
    End(String),
    Decl(String),
}

pub enum AttrItemView {
    Pair(Seq<char>, Seq<char>),
    Unreadable(Seq<char>),
    Malformed,
}

impl View for AttrItem {
    type V = AttrItemView;

    open spec fn view(&self) -> AttrItemView {
        match self {
            AttrItem::Pair { key, value } => AttrItemView::Pair(key@, value@),
            AttrItem::Unreadable { key } => AttrItemView::Unreadable(key@),
            AttrItem::Malformed => AttrItemView::Malformed,
        }
    }
}

pub struct StartTagView {
    pub name: Seq<char>,
    pub local_name: Seq<char>,
    pub attributes: Seq<AttrItemView>,
}

impl View for StartTag {
    type V = StartTagView;

    open spec fn view(&self) -> StartTagView {
        StartTagView {
            name: self.name@,
            local_name: self.local_name@,
            attributes: self.attributes@.map_values(|a: AttrItem| a@),
        }
    }
}

pub enum XmlEventView {
    Start(StartTagView),
    Empty(StartTagView),
    Text(Seq<char>),
    GeneralRef(Seq<char>),
    End(Seq<char>),
    Decl(Seq<char>),
    Refused,
    Malformed,
    Eof,
}

impl View for XmlEvent {
    type V = XmlEventView;

    open spec fn view(&self) -> XmlEventView {
        match self {
            XmlEvent::Start(t) => XmlEventView::Start(t@),
            XmlEvent::Empty(t) => XmlEventView::Empty(t@),
            XmlEvent::Text(t) => XmlEventView::Text(t@),
            XmlEvent::GeneralRef(t) => XmlEventView::GeneralRef(t@),
            XmlEvent::End(t) => XmlEventView::End(t@),
            XmlEvent::Decl(t) => XmlEventView::Decl(t@),
            XmlEvent::Refused => XmlEventView::Refused,
            XmlEvent::Malformed => XmlEventView::Malformed,
            XmlEvent::Eof => XmlEventView::Eof,
        }
    }
}

pub struct OutTagView {
    pub name: Seq<char>,
    pub attributes: Seq<(Seq<char>, Seq<char>)>,
}

impl View for OutTag {
    type V = OutTagView;

    open spec fn view(&self) -> OutTagView {
        OutTagView {
            name: self.name@,
            attributes: self.attributes@.map_values(|a: (String, String)| (a.0@, a.1@)),
        }
    }
}

pub enum XmlOutView {
    Start(OutTagView),
    Empty(OutTagView),
    RawText(Seq<char>),
    Text(Seq<char>),
    End(Seq<char>),
    Decl(Seq<char>),
}

impl View for XmlOut {
    type V = XmlOutView;

    open spec fn view(&self) -> XmlOutView {
        match self {
            XmlOut::Start(t) => XmlOutView::Start(t@),
            XmlOut::Empty(t) => XmlOutView::Empty(t@),
            XmlOut::RawText(t) => XmlOutView::RawText(t@),
            XmlOut::Text(t) => XmlOutView::Text(t@),
            XmlOut::End(t) => XmlOutView::End(t@),
            XmlOut::Decl(t) => XmlOutView::Decl(t@),
        }
    }
}

pub open spec fn events_view(v: Seq<XmlEvent>) -> Seq<XmlEventView> {
    v.map_values(|e: XmlEvent| e@)
}

pub open spec fn outs_view(v: Seq<XmlOut>) -> Seq<XmlOutView> {
    v.map_values(|e: XmlOut| e@)
}

/// The events `quick_xml::Reader` reads from a text with text trimming off and end
/// names checked, up to its end or its first error.
pub uninterp spec fn xml_event_stream(text: Seq<char>) -> Seq<XmlEventView>;

/// The bytes `quick_xml::Writer` writes for the events, or `None` if writing fails.
pub uninterp spec fn xml_written(events: Seq<XmlOutView>) -> Option<Seq<u8>>;

/// `quick_xml::events::Event`, carried only into the conversion below.
#[verifier::external_type_specification]
#[verifier::external_body]
pub struct ExXmlEvent<'a>(quick_xml::events::Event<'a>);

/// `quick_xml::events::BytesStart`, carried only into the conversion below.
#[verifier::external_type_specification]
#[verifier::external_body]
pub struct ExBytesStart<'a>(quick_xml::events::BytesStart<'a>);

/// Reads a start tag's name, local name and attributes (checked for duplicates),
/// each value normalised as XML 1.0 attribute values are.
#[verifier::external_body]
fn start_tag_of(start: &quick_xml::events::BytesStart) -> StartTag {
    let attributes = start.attributes().with_checks(true).map(|a| match a {
        Ok(a) => match a.normalized_value(quick_xml::XmlVersion::Implicit1_0) {
            Ok(v) => AttrItem::Pair { key: a.key.as_ref().to_string(), value: v.into_owned() },
            Err(_) => AttrItem::Unreadable { key: a.key.as_ref().to_string() },
        },
        Err(_) => AttrItem::Malformed,
    }).collect();
    StartTag {
        name: start.name().as_ref().to_string(),
        local_name: start.local_name().as_ref().to_string(),
        attributes,
    }
}

/// One reader event as a plain value, one arm per variant.
#[verifier::external_body]
fn event_of(event: &quick_xml::events::Event) -> XmlEvent {
    match event {
        quick_xml::events::Event::Start(s) => XmlEvent::Start(start_tag_of(s)),
        quick_xml::events::Event::Empty(s) => XmlEvent::Empty(start_tag_of(s)),
        quick_xml::events::Event::Text(t) => XmlEvent::Text(t.as_ref().to_string()),
        quick_xml::events::Event::GeneralRef(r) => XmlEvent::GeneralRef(r.as_ref().to_string()),
        quick_xml::events::Event::End(e) => XmlEvent::End(e.name().as_ref().to_string()),
        quick_xml::events::Event::Decl(d) => XmlEvent::Decl(d.as_ref().to_string()),
        quick_xml::events::Event::Eof => XmlEvent::Eof,
        _ => XmlEvent::Refused,
    }
}

/// Reads the events of a manifest with `quick_xml::Reader`; the events are named.
#[verifier::external_body]
fn xml_events(text: &str) -> (r: Vec<XmlEvent>)
    ensures
        events_view(r@) == xml_event_stream(text@),
{
    let mut reader = quick_xml::Reader::from_str(text);
    reader.config_mut().trim_text(false);
    reader.config_mut().check_end_names = true;
    let mut events = Vec::new();
    loop {
        let event = reader.read_event().map(|e| event_of(&e)).unwrap_or(XmlEvent::Malformed);
        let last = matches!(event, XmlEvent::Eof | XmlEvent::Malformed);
        events.push(event);
        if last {
            return events;
        }
    }
}

/// A start tag as `quick_xml` holds it, each attribute added through
/// `BytesStart::extend_attributes`.
#[verifier::external_body]
fn bytes_start_of(t: &OutTag) -> quick_xml::events::BytesStart<'_> {
    let mut start = quick_xml::events::BytesStart::new(t.name.as_str());
    start.extend_attributes(t.attributes.iter().map(|(k, v)| (k.as_str(), v.as_str())));
    start
}

/// One event to write as `quick_xml` holds it, one arm per variant.
#[verifier::external_body]
fn out_event(event: &XmlOut) -> quick_xml::events::Event<'_> {
    match event {
        XmlOut::Start(t) => quick_xml::events::Event::Start(bytes_start_of(t)),
        XmlOut::Empty(t) => quick_xml::events::Event::Empty(bytes_start_of(t)),
        XmlOut::RawText(t) => quick_xml::events::Event::Text(quick_xml::events::BytesText::from_escaped(t.as_str())),
        XmlOut::Text(t) => quick_xml::events::Event::Text(quick_xml::events::BytesText::new(t.as_str())),
        XmlOut::End(n) => quick_xml::events::Event::End(quick_xml::events::BytesEnd::new(n.as_str())),
        XmlOut::Decl(d) => quick_xml::events::Event::Decl(quick_xml::events::BytesDecl::from_start(
            quick_xml::events::BytesStart::from_content(d.as_str(), 3),
        )),
    }
}

/// Writes the events with `quick_xml::Writer`; the bytes are named.
#[verifier::external_body]
fn write_xml(events: &Vec<XmlOut>) -> (r: Option<Vec<u8>>)
    ensures
        match (r, xml_written(outs_view(events@))) {
            (Some(a), Some(b)) => a@ == b,
            (None, None) => true,
            _ => false,
        },
{
    let mut writer = quick_xml::Writer::new(Vec::new());
    for event in events {
        if writer.write_event(out_event(event)).is_err() {
            return None;
        }
    }
    Some(writer.into_inner())
}

/// What `quick_xml::escape::escape` writes for one character.
pub open spec fn escape_char(c: char) -> Seq<char> {
    if c == '<' {
        "&lt;"@
    } else if c == '>' {
        "&gt;"@
    } else if c == '&' {
        "&amp;"@
    } else if c == '\'' {
        "&apos;"@
    } else if c == '"' {
        "&quot;"@
    } else if c == '\r' {
        "&#13;"@
    } else {
        seq![c]
    }
}

/// `quick_xml::escape::escape`: the five markup characters and carriage return
/// written as references.
pub open spec fn xml_escaped(s: Seq<char>) -> Seq<char>
    decreases s.len(),
{
    if s.len() == 0 {
        seq![]
    } else {
        xml_escaped(s.drop_last()) + escape_char(s.last())
    }
}

/// `quick_xml::escape::escape`, as its documentation lists the replacements.
#[verifier::external_body]
fn escape_text(s: &str) -> (r: String)
    ensures
        r@ == xml_escaped(s@),
{
    quick_xml::escape::escape(s).into_owned()
}

/// `std::str::from_utf8`: the text the bytes encode, when they are UTF-8.
#[verifier::external_body]
pub(crate) fn utf8_text(bytes: &[u8]) -> (r: Option<String>)
    ensures
        r is Some <==> vstd::utf8::valid_utf8(bytes@),
        r matches Some(s) ==> s@ == vstd::utf8::decode_utf8(bytes@),
{
    std::str::from_utf8(bytes).ok().map(str::to_string)
}

/// What `Url::set_fragment(None)` leaves of the URL that `Url::parse` reads.
pub uninterp spec fn url_without_fragment(text: Seq<char>) -> Option<ParsedUrlView>;

/// Parses a URL and drops its fragment.
#[verifier::external_body]
pub(crate) fn strip_fragment(text: &str) -> (r: Option<ParsedUrl>)
    ensures
        parsed_view(r) == url_without_fragment(text@),
{
    url::Url::parse(text).ok().map(|mut u| {
        u.set_fragment(None);
        crate::urls::parts_of(&u)
    })
}

/// A capability as its two templates.
pub open spec fn cap_view(c: DashCapability) -> (Seq<char>, Option<Seq<char>>) {
    (c.path_template@, opt_text(c.query_template))
}

pub open spec fn caps_view(caps: Seq<DashCapability>) -> Seq<(Seq<char>, Option<Seq<char>>)> {
    caps.map_values(|c: DashCapability| cap_view(c))
}

/// The capabilities with one more, unless it is already granted.
pub open spec fn with_capability(caps: Seq<(Seq<char>, Option<Seq<char>>)>, c: (Seq<char>, Option<Seq<char>>)) -> Seq<(Seq<char>, Option<Seq<char>>)> {
    if caps.contains(c) {
        caps
    } else {
        caps.push(c)
    }
}

/// The proxy route for a path and query on the manifest's origin.
pub open spec fn route_for(token: Seq<char>, path: Seq<char>, query: Option<Seq<char>>) -> Seq<char> {
    "/__dash/"@ + token + path + match query {
        Some(q) => seq!['?'] + q,
        None => seq![],
    }
}

/// Where a manifest reference leads, resolved against `base`: `None` for an
/// empty reference; refused when it uses an unsafe scheme, is scheme-relative,
/// does not resolve, leaves HTTP(S) or the manifest's origin, or names another
/// manifest.
pub open spec fn reference_target(value: Seq<char>, base: ParsedUrlView, remote: ParsedUrlView) -> Result<Option<ParsedUrlView>, DashError> {
    match decoded_entities(trim(value)) {
        Err(e) => Err(e),
        Ok(v) => if v.len() == 0 {
            Ok(None)
        } else if unsafe_scheme(v) || starts_with(v, "//"@) {
            Err(DashError::UnsafeManifestReference)
        } else {
            match url_join(base.serialization, v) {
                None => Err(DashError::UnsafeManifestReference),
                Some(t) => if !(t.scheme == "http"@ || t.scheme == "https"@) || !same_origin(t, remote) {
                    Err(DashError::UnsafeManifestReference)
                } else {
                    match url_without_fragment(t.serialization) {
                        None => Err(DashError::UnsafeManifestReference),
                        Some(u) => if ends_with(lower_seq(u.path), ".mpd"@) {
                            Err(DashError::UnsafeManifestReference)
                        } else {
                            Ok(Some(u))
                        },
                    }
                },
            }
        },
    }
}

fn push_capability(caps: &mut Vec<DashCapability>, path: &String, query: &Option<String>)
    ensures
        caps_view(final(caps)@) == with_capability(caps_view(old(caps)@), (path@, opt_text(*query))),
{
    let ghost c = (path@, opt_text(*query));
    let mut i: usize = 0;
    while i < caps.len()
        invariant
            i <= caps@.len(),
            c == (path@, opt_text(*query)),
            forall|k: int| 0 <= k < i ==> #[trigger] cap_view(caps@[k]) != c,
        decreases caps@.len() - i,
    {
        let same_query = match (&caps[i].query_template, query) {
            (None, None) => true,
            (Some(a), Some(b)) => crate::text::str_eq(a.as_str(), b.as_str()),
            _ => false,
        };
        if crate::text::str_eq(caps[i].path_template.as_str(), path.as_str()) && same_query {
            assert(caps_view(caps@)[i as int] == c);
            assert(caps_view(caps@).contains(c));
            return;
        }
        i = i + 1;
    }
    assert(!caps_view(caps@).contains(c)) by {
        if caps_view(caps@).contains(c) {
            let k = choose|k: int| 0 <= k < caps_view(caps@).len() && caps_view(caps@)[k] == c;
            assert(cap_view(caps@[k]) == c);
        }
    }
    let ghost before = caps@;
    caps.push(DashCapability { path_template: path.clone(), query_template: crate::catalog::models::duplicate_text(query) });
    assert(caps_view(caps@) =~= caps_view(before).push(c));
}

fn route_text(token: &str, path: &String, query: &Option<String>) -> (r: Vec<char>)
    ensures
        r@ == route_for(token@, path@, opt_text(*query)),
{
    let prefix = crate::text::concat_chars(chars_of("/__dash/").as_slice(), chars_of(token).as_slice());
    let mut route = crate::text::concat_chars(prefix.as_slice(), chars_of(path.as_str()).as_slice());
    match query {
        Some(q) => {
            route.push('?');
            let r = crate::text::concat_chars(route.as_slice(), chars_of(q.as_str()).as_slice());
            assert(r@ =~= route_for(token@, path@, opt_text(*query)));
            r
        },
        None => {
            assert(route@ =~= route_for(token@, path@, opt_text(*query)));
            route
        },
    }
}

/// Resolves a manifest reference, grants its capability, and gives its proxy
/// route with the resolved target.
pub fn canonicalize_dash_reference(
    value: &[char],
    base: &ParsedUrl,
    remote: &ParsedUrl,
    token: &str,
    caps: &mut Vec<DashCapability>,
) -> (r: Result<(Vec<char>, ParsedUrl), DashError>)
    ensures
        match (r, reference_target(value@, base@, remote@)) {
            (Ok((route, target)), Ok(None)) => route@.len() == 0 && target@ == base@
                && caps_view(final(caps)@) == caps_view(old(caps)@),
            (Ok((route, target)), Ok(Some(t))) => target@ == t && route@ == route_for(token@, t.path, t.query)
                && caps_view(final(caps)@) == with_capability(caps_view(old(caps)@), (t.path, t.query)),
            (Err(e), Err(f)) => e == f,
            _ => false,
        },
{
    let v = match decode_xml_entities(crate::text::trim_chars(value).as_slice()) {
        Ok(v) => v,
        Err(e) => return Err(e),
    };
    if v.len() == 0 {
        return Ok((Vec::new(), base.duplicate()));
    }
    if is_unsafe_scheme(v.as_slice()) || crate::text::starts_with_chars(v.as_slice(), chars_of("//").as_slice()) {
        return Err(DashError::UnsafeManifestReference);
    }
    let joined = match join_url(base.serialization.as_str(), string_of(v.as_slice()).as_str()) {
        Some(t) => t,
        None => return Err(DashError::UnsafeManifestReference),
    };
    let web = crate::text::str_eq(joined.scheme.as_str(), "http") || crate::text::str_eq(joined.scheme.as_str(), "https");
    if !web || !origins_match(&joined, remote) {
        return Err(DashError::UnsafeManifestReference);
    }
    let target = match strip_fragment(joined.serialization.as_str()) {
        Some(t) => t,
        None => return Err(DashError::UnsafeManifestReference),
    };
    let lowered = crate::text::lower_chars(chars_of(target.path.as_str()).as_slice());
    if crate::text::ends_with_chars(lowered.as_slice(), chars_of(".mpd").as_slice()) {
        return Err(DashError::UnsafeManifestReference);
    }
    push_capability(caps, &target.path, &target.query);
    let route = route_text(token, &target.path, &target.query);
    Ok((route, target))
}

pub open spec fn is_reference_key(k: Seq<char>) -> bool {
    k == "media"@ || k == "initialization"@ || k == "sourceURL"@ || k == "index"@
}

/// One attribute rewritten: its key and escaped value, and the capabilities
/// after it. Reference attributes become proxy routes; other values may not
/// point elsewhere, except namespace declarations.
pub open spec fn rewrite_attr(
    item: AttrItemView,
    base: ParsedUrlView,
    remote: ParsedUrlView,
    token: Seq<char>,
    caps: Seq<(Seq<char>, Option<Seq<char>>)>,
) -> Result<((Seq<char>, Seq<char>), Seq<(Seq<char>, Option<Seq<char>>)>), DashError> {
    match item {
        AttrItemView::Malformed => Err(DashError::InvalidManifest("malformed XML attribute")),
        AttrItemView::Unreadable(k) => if k.len() == 0 {
            Err(DashError::InvalidManifest("invalid XML name"))
        } else {
            Err(DashError::UnsafeManifestReference)
        },
        AttrItemView::Pair(k, value) => if k.len() == 0 {
            Err(DashError::InvalidManifest("invalid XML name"))
        } else {
            match decoded_entities(value) {
                Err(e) => Err(e),
                Ok(d) => if is_reference_key(k) {
                    match reference_target(trim(d), base, remote) {
                        Err(e) => Err(e),
                        Ok(None) => Ok(((k, xml_escaped(seq![])), caps)),
                        Ok(Some(t)) => Ok(
                            (
                                (k, xml_escaped(route_for(token, t.path, t.query))),
                                with_capability(caps, (t.path, t.query)),
                            ),
                        ),
                    }
                } else if !starts_with(k, "xmlns"@) && external_text_refused(d) {
                    Err(DashError::UnsafeManifestReference)
                } else {
                    Ok(((k, xml_escaped(d)), caps))
                },
            }
        },
    }
}

/// The attributes rewritten in order, threading the capabilities through.
pub open spec fn rewrite_attrs(
    items: Seq<AttrItemView>,
    base: ParsedUrlView,
    remote: ParsedUrlView,
    token: Seq<char>,
    caps: Seq<(Seq<char>, Option<Seq<char>>)>,
) -> Result<(Seq<(Seq<char>, Seq<char>)>, Seq<(Seq<char>, Option<Seq<char>>)>), DashError>
    decreases items.len(),
{
    if items.len() == 0 {
        Ok((seq![], caps))
    } else {
        match rewrite_attr(items[0], base, remote, token, caps) {
            Err(e) => Err(e),
            Ok((a, c1)) => match rewrite_attrs(items.drop_first(), base, remote, token, c1) {
                Err(e) => Err(e),
                Ok((rest, c2)) => Ok((seq![a] + rest, c2)),
            },
        }
    }
}

/// A start tag rewritten, whether it opens a `BaseURL`, and the capabilities
/// after it.
pub open spec fn rewrite_start(
    tag: StartTagView,
    base: ParsedUrlView,
    remote: ParsedUrlView,
    token: Seq<char>,
    caps: Seq<(Seq<char>, Option<Seq<char>>)>,
) -> Result<(OutTagView, bool, Seq<(Seq<char>, Option<Seq<char>>)>), DashError> {
    if tag.name.len() == 0 || tag.local_name.len() == 0 {
        Err(DashError::InvalidManifest("invalid XML name"))
    } else {
        match rewrite_attrs(tag.attributes, base, remote, token, caps) {
            Err(e) => Err(e),
            Ok((attrs, c)) => Ok(
                (OutTagView { name: tag.name, attributes: attrs }, tag.local_name == "BaseURL"@, c),
            ),
        }
    }
}

pub open spec fn after_attrs(
    done: Seq<(Seq<char>, Seq<char>)>,
    rest: Result<(Seq<(Seq<char>, Seq<char>)>, Seq<(Seq<char>, Option<Seq<char>>)>), DashError>,
) -> Result<(Seq<(Seq<char>, Seq<char>)>, Seq<(Seq<char>, Option<Seq<char>>)>), DashError> {
    match rest {
        Err(e) => Err(e),
        Ok((r, c)) => Ok((done + r, c)),
    }
}

fn rewrite_attribute(
    item: &AttrItem,
    base: &ParsedUrl,
    remote: &ParsedUrl,
    token: &str,
    caps: &mut Vec<DashCapability>,
) -> (r: Result<(String, String), DashError>)
    ensures
        match (r, rewrite_attr(item@, base@, remote@, token@, caps_view(old(caps)@))) {
            (Ok(a), Ok((b, c))) => (a.0@, a.1@) == b && caps_view(final(caps)@) == c,
            (Err(e), Err(f)) => e == f,
            _ => false,
        },
{
    match item {
        AttrItem::Malformed => Err(DashError::InvalidManifest("malformed XML attribute")),
        AttrItem::Unreadable { key } => {
            if chars_of(key.as_str()).len() == 0 {
                Err(DashError::InvalidManifest("invalid XML name"))
            } else {
                Err(DashError::UnsafeManifestReference)
            }
        },
        AttrItem::Pair { key, value } => {
            if chars_of(key.as_str()).len() == 0 {
                return Err(DashError::InvalidManifest("invalid XML name"));
            }
            let d = match decode_xml_entities(chars_of(value.as_str()).as_slice()) {
                Ok(d) => d,
                Err(e) => return Err(e),
            };
            let k = chars_of(key.as_str());
            let reference = crate::text::str_eq(key.as_str(), "media") || crate::text::str_eq(key.as_str(), "initialization")
                || crate::text::str_eq(key.as_str(), "sourceURL") || crate::text::str_eq(key.as_str(), "index");
            let rewritten = if reference {
                let trimmed = crate::text::trim_chars(d.as_slice());
                match canonicalize_dash_reference(trimmed.as_slice(), base, remote, token, caps) {
                    Ok((route, _)) => route,
                    Err(e) => return Err(e),
                }
            } else {
                if !crate::text::starts_with_chars(k.as_slice(), chars_of("xmlns").as_slice()) {
                    match reject_external_text(d.as_slice()) {
                        Ok(_) => {},
                        Err(e) => return Err(e),
                    }
                }
                d
            };
            let escaped = escape_text(string_of(rewritten.as_slice()).as_str());
            Ok((key.clone(), escaped))
        },
    }
}

/// Rewrites a start tag: its name stays, each attribute is rewritten in turn.
pub fn rewrite_manifest_start(
    start: &StartTag,
    base: &ParsedUrl,
    remote: &ParsedUrl,
    token: &str,
    caps: &mut Vec<DashCapability>,
) -> (r: Result<(OutTag, bool), DashError>)
    ensures
        match (r, rewrite_start(start@, base@, remote@, token@, caps_view(old(caps)@))) {
            (Ok((t, b)), Ok((u, c, k))) => t@ == u && b == c && caps_view(final(caps)@) == k,
            (Err(e), Err(f)) => e == f,
            _ => false,
        },
{
    if chars_of(start.name.as_str()).len() == 0 || chars_of(start.local_name.as_str()).len() == 0 {
        return Err(DashError::InvalidManifest("invalid XML name"));
    }
    let is_base = crate::text::str_eq(start.local_name.as_str(), "BaseURL");
    let ghost items = start@.attributes;
    let ghost caps0 = caps_view(caps@);
    let mut attributes: Vec<(String, String)> = Vec::new();
    let mut i: usize = 0;
    assert(items.skip(0) =~= items);
    assert(Seq::<(Seq<char>, Seq<char>)>::empty() + Seq::<(Seq<char>, Seq<char>)>::empty() =~= Seq::<(Seq<char>, Seq<char>)>::empty());
    while i < start.attributes.len()
        invariant
            caps0 == caps_view(old(caps)@),
            start@.name.len() > 0,
            start@.local_name.len() > 0,
            i <= start.attributes@.len(),
            items == start@.attributes,
            items.len() == start.attributes@.len(),
            rewrite_attrs(items, base@, remote@, token@, caps0) == after_attrs(
                attributes@.map_values(|a: (String, String)| (a.0@, a.1@)),
                rewrite_attrs(items.skip(i as int), base@, remote@, token@, caps_view(caps@)),
            ),
        decreases start.attributes@.len() - i,
    {
        let ghost rest = items.skip(i as int);
        assert(rest[0] == start.attributes@[i as int]@);
        assert(rest.drop_first() =~= items.skip(i + 1));
        let ghost before = attributes@.map_values(|a: (String, String)| (a.0@, a.1@));
        let ghost caps_before = caps_view(caps@);
        match rewrite_attribute(&start.attributes[i], base, remote, token, caps) {
            Ok(a) => {
                let ghost av = (a.0@, a.1@);
                attributes.push(a);
                proof {
                    let now = attributes@.map_values(|a: (String, String)| (a.0@, a.1@));
                    assert(now =~= before.push(av));
                    match rewrite_attrs(items.skip(i + 1), base@, remote@, token@, caps_view(caps@)) {
                        Ok((r, c)) => {
                            assert(before + (seq![av] + r) =~= now + r);
                        },
                        Err(_) => {},
                    }
                }
            },
            Err(e) => {
                return Err(e);
            },
        }
        i = i + 1;
    }
    proof {
        let done = attributes@.map_values(|a: (String, String)| (a.0@, a.1@));
        assert(items.skip(i as int).len() == 0);
        assert(done + Seq::<(Seq<char>, Seq<char>)>::empty() =~= done);
    }
    Ok((OutTag { name: start.name.clone(), attributes }, is_base))
}

/// An open element: its name, the base its children resolve against, whether
/// it is a `BaseURL`, and the text gathered for it.
pub struct Element {
    pub name: String,
    pub base: ParsedUrl,
    pub is_base: bool,
    pub base_text: Vec<char>,
}

pub struct ElementView {
    pub name: Seq<char>,
    pub base: ParsedUrlView,
    pub is_base: bool,
    pub base_text: Seq<char>,
}

impl View for Element {
    type V = ElementView;

    open spec fn view(&self) -> ElementView {
        ElementView {
            name: self.name@,
            base: self.base@,
            is_base: self.is_base,
            base_text: self.base_text@,
        }
    }
}

/// The rewriter between two events.
pub struct ManifestRewriter {
    pub stack: Vec<Element>,
    pub caps: Vec<DashCapability>,
    pub root_seen: bool,
    pub root_closed: bool,
    pub out: Vec<XmlOut>,
}

pub struct RewriteState {
    pub stack: Seq<ElementView>,
    pub caps: Seq<(Seq<char>, Option<Seq<char>>)>,
    pub root_seen: bool,
    pub root_closed: bool,
    pub out: Seq<XmlOutView>,
}

impl View for ManifestRewriter {
    type V = RewriteState;

    open spec fn view(&self) -> RewriteState {
        RewriteState {
            stack: self.stack@.map_values(|e: Element| e@),
            caps: caps_view(self.caps@),
            root_seen: self.root_seen,
            root_closed: self.root_closed,
            out: outs_view(self.out@),
        }
    }
}

/// The base that children of the innermost open element resolve against.
pub open spec fn parent_base(stack: Seq<ElementView>, remote: ParsedUrlView) -> ParsedUrlView {
    if stack.len() > 0 {
        stack.last().base
    } else {
        remote
    }
}

/// The stack with text added to the innermost element.
pub open spec fn gathered(stack: Seq<ElementView>, text: Seq<char>) -> Seq<ElementView> {
    stack.update(
        stack.len() - 1,
        ElementView { base_text: stack.last().base_text + text, ..stack.last() },
    )
}

/// The rewriter after one event, or the refusal.
pub open spec fn manifest_step(st: RewriteState, ev: XmlEventView, remote: ParsedUrlView, token: Seq<char>) -> Result<RewriteState, DashError> {
    match ev {
        XmlEventView::Malformed => Err(DashError::InvalidManifest("malformed XML")),
        XmlEventView::Refused => Err(DashError::UnsafeManifestReference),
        XmlEventView::Eof => Ok(st),
        XmlEventView::Decl(raw) => Ok(RewriteState { out: st.out.push(XmlOutView::Decl(raw)), ..st }),
        XmlEventView::Start(tag) => if tag.name.len() == 0 {
            Err(DashError::InvalidManifest("invalid XML name"))
        } else if st.root_closed || (st.stack.len() == 0 && st.root_seen) {
            Err(DashError::InvalidManifest("multiple XML roots"))
        } else if st.stack.len() == 0 && tag.name != "MPD"@ {
            Err(DashError::InvalidManifest("missing MPD root"))
        } else {
            let pb = parent_base(st.stack, remote);
            match rewrite_start(tag, pb, remote, token, st.caps) {
                Err(e) => Err(e),
                Ok((out_tag, is_base, caps)) => Ok(
                    RewriteState {
                        stack: st.stack.push(
                            ElementView { name: tag.name, base: pb, is_base, base_text: seq![] },
                        ),
                        caps,
                        root_seen: st.root_seen || st.stack.len() == 0,
                        root_closed: st.root_closed,
                        out: st.out.push(XmlOutView::Start(out_tag)),
                    },
                ),
            }
        },
        XmlEventView::Empty(tag) => if tag.name.len() == 0 {
            Err(DashError::InvalidManifest("invalid XML name"))
        } else if st.stack.len() == 0 && st.root_seen {
            Err(DashError::InvalidManifest("multiple XML roots"))
        } else if st.stack.len() == 0 && tag.name != "MPD"@ {
            Err(DashError::InvalidManifest("missing MPD root"))
        } else if tag.name == "BaseURL"@ {
            Err(DashError::InvalidManifest("empty BaseURL"))
        } else {
            match rewrite_start(tag, parent_base(st.stack, remote), remote, token, st.caps) {
                Err(e) => Err(e),
                Ok((out_tag, _, caps)) => Ok(
                    RewriteState {
                        stack: st.stack,
                        caps,
                        root_seen: st.root_seen || st.stack.len() == 0,
                        root_closed: st.root_closed || st.stack.len() == 0,
                        out: st.out.push(XmlOutView::Empty(out_tag)),
                    },
                ),
            }
        },
        XmlEventView::Text(raw) => if st.stack.len() == 0 && st.root_closed && !is_blank(raw) {
            Err(DashError::InvalidManifest("text outside MPD root"))
        } else {
            match decoded_entities(raw) {
                Err(e) => Err(e),
                Ok(d) => if st.stack.len() > 0 && st.stack.last().is_base {
                    Ok(RewriteState { stack: gathered(st.stack, d), ..st })
                } else if external_text_refused(d) {
                    Err(DashError::UnsafeManifestReference)
                } else {
                    Ok(RewriteState { out: st.out.push(XmlOutView::RawText(raw)), ..st })
                },
            }
        },
        XmlEventView::GeneralRef(name) => if st.stack.len() == 0 && st.root_closed {
            Err(DashError::InvalidManifest("reference outside MPD root"))
        } else {
            match decoded_entities(seq!['&'] + name + seq![';']) {
                Err(e) => Err(e),
                Ok(v) => if st.stack.len() > 0 && st.stack.last().is_base {
                    Ok(RewriteState { stack: gathered(st.stack, v), ..st })
                } else {
                    Err(DashError::UnsafeManifestReference)
                },
            }
        },
        XmlEventView::End(name) => if name.len() == 0 {
            Err(DashError::InvalidManifest("invalid XML name"))
        } else if st.stack.len() == 0 || st.stack.last().name != name {
            Err(DashError::InvalidManifest("unbalanced XML"))
        } else {
            let el = st.stack.last();
            let rest = st.stack.drop_last();
            if el.is_base {
                let pb = parent_base(rest, remote);
                match reference_target(trim(el.base_text), pb, remote) {
                    Err(e) => Err(e),
                    Ok(t) => {
                        let route = match t {
                            None => seq![],
                            Some(u) => route_for(token, u.path, u.query),
                        };
                        let target = match t {
                            None => pb,
                            Some(u) => u,
                        };
                        let caps = match t {
                            None => st.caps,
                            Some(u) => with_capability(st.caps, (u.path, u.query)),
                        };
                        let stack = if rest.len() > 0 {
                            rest.update(rest.len() - 1, ElementView { base: target, ..rest.last() })
                        } else {
                            rest
                        };
                        Ok(
                            RewriteState {
                                stack,
                                caps,
                                root_seen: st.root_seen,
                                root_closed: st.root_closed || rest.len() == 0,
                                out: st.out.push(XmlOutView::Text(route)).push(XmlOutView::End(name)),
                            },
                        )
                    },
                }
            } else {
                Ok(
                    RewriteState {
                        stack: rest,
                        root_closed: st.root_closed || rest.len() == 0,
                        out: st.out.push(XmlOutView::End(name)),
                        ..st
                    },
                )
            }
        },
    }
}

/// The rewriter after the events, stopping at the end of the document, which
/// must have closed one `MPD` root; a stream that ends without either an end or
/// an error is malformed.
pub open spec fn manifest_run(events: Seq<XmlEventView>, st: RewriteState, remote: ParsedUrlView, token: Seq<char>) -> Result<RewriteState, DashError>
    decreases events.len(),
{
    if events.len() == 0 {
        Err(DashError::InvalidManifest("malformed XML"))
    } else if events[0] is Eof {
        if !st.root_seen || !st.root_closed || st.stack.len() > 0 {
            Err(DashError::InvalidManifest("missing MPD root"))
        } else {
            Ok(st)
        }
    } else {
        match manifest_step(st, events[0], remote, token) {
            Err(e) => Err(e),
            Ok(next) => manifest_run(events.drop_first(), next, remote, token),
        }
    }
}

pub open spec fn initial_state() -> RewriteState {
    RewriteState { stack: seq![], caps: seq![], root_seen: false, root_closed: false, out: seq![] }
}

/// `parse_dash_manifest`: the rewritten manifest and the capabilities it grants.
pub open spec fn parsed_manifest(bytes: Seq<u8>, remote: ParsedUrlView, token: Seq<char>) -> Result<(Seq<u8>, Seq<(Seq<char>, Option<Seq<char>>)>), DashError> {
    if bytes.len() > MAX_MANIFEST_BYTES {
        Err(DashError::InvalidManifest("manifest is too large"))
    } else if !vstd::utf8::valid_utf8(bytes) {
        Err(DashError::InvalidManifest("not UTF-8"))
    } else {
        let text = vstd::utf8::decode_utf8(bytes);
        if contains(lower_seq(text), "<!"@) {
            Err(DashError::UnsafeManifestReference)
        } else {
            match manifest_run(xml_event_stream(text), initial_state(), remote, token) {
                Err(e) => Err(e),
                Ok(st) => match xml_written(st.out) {
                    None => Err(DashError::InvalidManifest("could not rewrite manifest")),
                    Some(b) => Ok((b, st.caps)),
                },
            }
        }
    }
}

pub open spec fn stack_view(stack: Seq<Element>) -> Seq<ElementView> {
    stack.map_values(|e: Element| e@)
}

impl ManifestRewriter {
    pub fn new() -> (r: Self)
        ensures
            r@ == initial_state(),
    {
        let r = ManifestRewriter {
            stack: Vec::new(),
            caps: Vec::new(),
            root_seen: false,
            root_closed: false,
            out: Vec::new(),
        };
        assert(r@.stack =~= Seq::<ElementView>::empty());
        assert(r@.caps =~= Seq::<(Seq<char>, Option<Seq<char>>)>::empty());
        assert(r@.out =~= Seq::<XmlOutView>::empty());
        r
    }

    fn current_base(&self, remote: &ParsedUrl) -> (r: ParsedUrl)
        ensures
            r@ == parent_base(self@.stack, remote@),
    {
        if self.stack.len() > 0 {
            let last = self.stack.len() - 1;
            assert(self@.stack.last() == self.stack@[last as int]@);
            self.stack[last].base.duplicate()
        } else {
            remote.duplicate()
        }
    }

    fn step_start(&mut self, tag: &StartTag, remote: &ParsedUrl, token: &str) -> (r: Result<(), DashError>)
        ensures
            match (r, manifest_step(old(self)@, XmlEventView::Start(tag@), remote@, token@)) {
                (Ok(_), Ok(s)) => final(self)@ == s,
                (Err(e), Err(f)) => e == f,
                _ => false,
            },
    {
        if chars_of(tag.name.as_str()).len() == 0 {
            return Err(DashError::InvalidManifest("invalid XML name"));
        }
        if self.root_closed || (self.stack.len() == 0 && self.root_seen) {
            return Err(DashError::InvalidManifest("multiple XML roots"));
        }
        if self.stack.len() == 0 && !crate::text::str_eq(tag.name.as_str(), "MPD") {
            return Err(DashError::InvalidManifest("missing MPD root"));
        }
        let pb = self.current_base(remote);
        let ghost before = self@;
        let (out_tag, is_base) = match rewrite_manifest_start(tag, &pb, remote, token, &mut self.caps) {
            Ok(x) => x,
            Err(e) => return Err(e),
        };
        let was_empty = self.stack.len() == 0;
        let element = Element { name: tag.name.clone(), base: pb, is_base, base_text: Vec::new() };
        assert(element@.base_text =~= Seq::<char>::empty());
        let ghost old_stack = self.stack@;
        self.stack.push(element);
        assert(stack_view(self.stack@) =~= stack_view(old_stack).push(element@));
        self.root_seen = self.root_seen || was_empty;
        let ghost old_out = self.out@;
        self.out.push(XmlOut::Start(out_tag));
        assert(outs_view(self.out@) =~= outs_view(old_out).push(XmlOutView::Start(out_tag@)));
        Ok(())
    }

    fn step_empty(&mut self, tag: &StartTag, remote: &ParsedUrl, token: &str) -> (r: Result<(), DashError>)
        ensures
            match (r, manifest_step(old(self)@, XmlEventView::Empty(tag@), remote@, token@)) {
                (Ok(_), Ok(s)) => final(self)@ == s,
                (Err(e), Err(f)) => e == f,
                _ => false,
            },
    {
        if chars_of(tag.name.as_str()).len() == 0 {
            return Err(DashError::InvalidManifest("invalid XML name"));
        }
        if self.stack.len() == 0 && self.root_seen {
            return Err(DashError::InvalidManifest("multiple XML roots"));
        }
        if self.stack.len() == 0 && !crate::text::str_eq(tag.name.as_str(), "MPD") {
            return Err(DashError::InvalidManifest("missing MPD root"));
        }
        if crate::text::str_eq(tag.name.as_str(), "BaseURL") {
            return Err(DashError::InvalidManifest("empty BaseURL"));
        }
        let pb = self.current_base(remote);
        let (out_tag, _) = match rewrite_manifest_start(tag, &pb, remote, token, &mut self.caps) {
            Ok(x) => x,
            Err(e) => return Err(e),
        };
        let was_empty = self.stack.len() == 0;
        self.root_seen = self.root_seen || was_empty;
        self.root_closed = self.root_closed || was_empty;
        let ghost old_out = self.out@;
        self.out.push(XmlOut::Empty(out_tag));
        assert(outs_view(self.out@) =~= outs_view(old_out).push(XmlOutView::Empty(out_tag@)));
        Ok(())
    }

    /// Adds decoded text to the innermost element.
    fn gather(&mut self, text: &[char])
        requires
            old(self).stack@.len() > 0,
        ensures
            final(self)@ == (RewriteState { stack: gathered(old(self)@.stack, text@), ..old(self)@ }),
    {
        let ghost before = stack_view(self.stack@);
        let mut top = self.stack.pop().unwrap();
        let ghost top0 = top@;
        assert(top0 == before.last());
        top.base_text = crate::text::concat_chars(top.base_text.as_slice(), text);
        let ghost rest = self.stack@;
        self.stack.push(top);
        assert(stack_view(self.stack@) =~= gathered(before, text@)) by {
            assert(stack_view(rest) =~= before.drop_last());
        }
    }

    fn top_is_base(&self) -> (r: bool)
        ensures
            r == (self@.stack.len() > 0 && self@.stack.last().is_base),
    {
        if self.stack.len() > 0 {
            let last = self.stack.len() - 1;
            assert(self@.stack.last() == self.stack@[last as int]@);
            self.stack[last].is_base
        } else {
            false
        }
    }

    fn step_text(&mut self, raw: &String) -> (r: Result<(), DashError>)
        ensures
            forall|remote: ParsedUrlView, token: Seq<char>|
                match (r, #[trigger] manifest_step(old(self)@, XmlEventView::Text(raw@), remote, token)) {
                    (Ok(_), Ok(s)) => final(self)@ == s,
                    (Err(e), Err(f)) => e == f,
                    _ => false,
                },
    {
        let v = chars_of(raw.as_str());
        if self.stack.len() == 0 && self.root_closed && !crate::text::chars_blank(v.as_slice()) {
            return Err(DashError::InvalidManifest("text outside MPD root"));
        }
        let d = match decode_xml_entities(v.as_slice()) {
            Ok(d) => d,
            Err(e) => return Err(e),
        };
        if self.top_is_base() {
            self.gather(d.as_slice());
            return Ok(());
        }
        match reject_external_text(d.as_slice()) {
            Ok(_) => {},
            Err(e) => return Err(e),
        }
        let ghost old_out = self.out@;
        self.out.push(XmlOut::RawText(raw.clone()));
        assert(outs_view(self.out@) =~= outs_view(old_out).push(XmlOutView::RawText(raw@)));
        Ok(())
    }

    fn step_reference(&mut self, name: &String) -> (r: Result<(), DashError>)
        ensures
            forall|remote: ParsedUrlView, token: Seq<char>|
                match (r, #[trigger] manifest_step(old(self)@, XmlEventView::GeneralRef(name@), remote, token)) {
                    (Ok(_), Ok(s)) => final(self)@ == s,
                    (Err(e), Err(f)) => e == f,
                    _ => false,
                },
    {
        if self.stack.len() == 0 && self.root_closed {
            return Err(DashError::InvalidManifest("reference outside MPD root"));
        }
        let mut reference: Vec<char> = Vec::new();
        reference.push('&');
        let mut reference = crate::text::concat_chars(reference.as_slice(), chars_of(name.as_str()).as_slice());
        reference.push(';');
        assert(reference@ =~= seq!['&'] + name@ + seq![';']);
        let v = match decode_xml_entities(reference.as_slice()) {
            Ok(v) => v,
            Err(e) => return Err(e),
        };
        if self.top_is_base() {
            self.gather(v.as_slice());
            Ok(())
        } else {
            Err(DashError::UnsafeManifestReference)
        }
    }

    fn step_end(&mut self, name: &String, remote: &ParsedUrl, token: &str) -> (r: Result<(), DashError>)
        ensures
            match (r, manifest_step(old(self)@, XmlEventView::End(name@), remote@, token@)) {
                (Ok(_), Ok(s)) => final(self)@ == s,
                (Err(e), Err(f)) => e == f,
                _ => false,
            },
    {
        if chars_of(name.as_str()).len() == 0 {
            return Err(DashError::InvalidManifest("invalid XML name"));
        }
        if self.stack.len() == 0 {
            return Err(DashError::InvalidManifest("unbalanced XML"));
        }
        let ghost st = self@;
        let ghost old_stack = self.stack@;
        let element = self.stack.pop().unwrap();
        assert(element@ == st.stack.last());
        assert(stack_view(self.stack@) =~= st.stack.drop_last());
        if !crate::text::str_eq(element.name.as_str(), name.as_str()) {
            return Err(DashError::InvalidManifest("unbalanced XML"));
        }
        if element.is_base {
            let pb = self.current_base(remote);
            let trimmed = crate::text::trim_chars(element.base_text.as_slice());
            let ghost caps_before = caps_view(self.caps@);
            let (route, target) = match canonicalize_dash_reference(trimmed.as_slice(), &pb, remote, token, &mut self.caps) {
                Ok(x) => x,
                Err(e) => return Err(e),
            };
            proof {
                if route@.len() == 0 {
                    assert(route@ =~= Seq::<char>::empty());
                }
            }
            let ghost old_out = self.out@;
            self.out.push(XmlOut::Text(string_of(route.as_slice())));
            proof {
                assert(pb@ == parent_base(st.stack.drop_last(), remote@));
                assert(trimmed@ == trim(st.stack.last().base_text));
            }
            if self.stack.len() > 0 {
                let ghost rest = self.stack@;
                let mut parent = self.stack.pop().unwrap();
                assert(parent@ == stack_view(rest).last());
                parent.base = target;
                let ghost parent_view = parent@;
                self.stack.push(parent);
                assert(stack_view(self.stack@) =~= stack_view(rest).update(
                    stack_view(rest).len() - 1,
                    parent_view,
                ));
            }
            self.out.push(XmlOut::End(name.clone()));
            assert(outs_view(self.out@) =~= outs_view(old_out).push(XmlOutView::Text(route@)).push(
                XmlOutView::End(name@),
            ));
        } else {
            let ghost old_out = self.out@;
            self.out.push(XmlOut::End(name.clone()));
            assert(outs_view(self.out@) =~= outs_view(old_out).push(XmlOutView::End(name@)));
        }
        if self.stack.len() == 0 {
            self.root_closed = true;
        }
        Ok(())
    }

    /// Takes one event that is not the end of the document.
    pub fn step(&mut self, event: &XmlEvent, remote: &ParsedUrl, token: &str) -> (r: Result<(), DashError>)
        requires
            !(event@ is Eof),
        ensures
            match (r, manifest_step(old(self)@, event@, remote@, token@)) {
                (Ok(_), Ok(s)) => final(self)@ == s,
                (Err(e), Err(f)) => e == f,
                _ => false,
            },
    {
        match event {
            XmlEvent::Start(tag) => self.step_start(tag, remote, token),
            XmlEvent::Empty(tag) => self.step_empty(tag, remote, token),
            XmlEvent::Text(raw) => self.step_text(raw),
            XmlEvent::GeneralRef(name) => self.step_reference(name),
            XmlEvent::End(name) => self.step_end(name, remote, token),
            XmlEvent::Decl(raw) => {
                let ghost old_out = self.out@;
                self.out.push(XmlOut::Decl(raw.clone()));
                assert(outs_view(self.out@) =~= outs_view(old_out).push(XmlOutView::Decl(raw@)));
                Ok(())
            },
            XmlEvent::Refused => Err(DashError::UnsafeManifestReference),
            XmlEvent::Malformed => Err(DashError::InvalidManifest("malformed XML")),
            XmlEvent::Eof => Ok(()),
        }
    }
}

/// A rewritten manifest and the capabilities its references grant.
#[derive(Debug, Clone)]
pub struct ParsedDashManifest {
    pub bytes: Vec<u8>,
    pub capabilities: Vec<DashCapability>,
}

/// Rewrites a manifest fetched from `remote_url` so that every reference goes
/// through the proxy routes of `token`.
pub fn parse_dash_manifest(bytes: &[u8], remote_url: &ParsedUrl, token: &str) -> (r: Result<ParsedDashManifest, DashError>)
    ensures
        match (r, parsed_manifest(bytes@, remote_url@, token@)) {
            (Ok(m), Ok((b, c))) => m.bytes@ == b && caps_view(m.capabilities@) == c,
            (Err(e), Err(f)) => e == f,
            _ => false,
        },
{
    if bytes.len() > MAX_MANIFEST_BYTES {
        return Err(DashError::InvalidManifest("manifest is too large"));
    }
    let text = match utf8_text(bytes) {
        Some(t) => t,
        None => return Err(DashError::InvalidManifest("not UTF-8")),
    };
    let lowered = crate::text::lower_chars(chars_of(text.as_str()).as_slice());
    if crate::text::contains_chars(lowered.as_slice(), chars_of("<!").as_slice()) {
        return Err(DashError::UnsafeManifestReference);
    }
    let events = xml_events(text.as_str());
    let ghost evs = events_view(events@);
    let mut machine = ManifestRewriter::new();
    let mut i: usize = 0;
    assert(evs.skip(0) =~= evs);
    while i < events.len()
        invariant
            i <= events@.len(),
            evs == events_view(events@),
            evs == xml_event_stream(text@),
            bytes@.len() <= MAX_MANIFEST_BYTES,
            vstd::utf8::valid_utf8(bytes@),
            text@ == vstd::utf8::decode_utf8(bytes@),
            !contains(lower_seq(text@), "<!"@),
            manifest_run(evs, initial_state(), remote_url@, token@) == manifest_run(
                evs.skip(i as int),
                machine@,
                remote_url@,
                token@,
            ),
        decreases events@.len() - i,
    {
        let ghost rest = evs.skip(i as int);
        assert(rest[0] == events@[i as int]@);
        assert(rest.drop_first() =~= evs.skip(i + 1));
        if let XmlEvent::Eof = &events[i] {
            if !machine.root_seen || !machine.root_closed || machine.stack.len() > 0 {
                return Err(DashError::InvalidManifest("missing MPD root"));
            }
            return match write_xml(&machine.out) {
                Some(b) => Ok(ParsedDashManifest { bytes: b, capabilities: machine.caps }),
                None => Err(DashError::InvalidManifest("could not rewrite manifest")),
            };
        }
        match machine.step(&events[i], remote_url, token) {
            Ok(_) => {},
            Err(e) => return Err(e),
        }
        i = i + 1;
    }
    Err(DashError::InvalidManifest("malformed XML"))
}

/// The origin a manifest is checked against before it is handed to FFmpeg.
pub const VALIDATION_ORIGIN: &'static str = "https://manifest.invalid/index.mpd";

/// Checks a fetched manifest as if it had come from a placeholder origin.
pub fn validate_manifest(bytes: &[u8]) -> (r: Result<(), DashError>)
    ensures
        match crate::urls::url_parse(VALIDATION_ORIGIN@) {
            None => r == Err::<(), DashError>(DashError::InvalidManifest("invalid parser origin")),
            Some(u) => match (r, parsed_manifest(bytes@, u, "validation"@)) {
                (Ok(_), Ok(_)) => true,
                (Err(e), Err(f)) => e == f,
                _ => false,
            },
        },
{
    let placeholder = match crate::urls::parse_url(VALIDATION_ORIGIN) {
        Some(u) => u,
        None => return Err(DashError::InvalidManifest("invalid parser origin")),
    };
    match parse_dash_manifest(bytes, &placeholder, "validation") {
        Ok(_) => Ok(()),
        Err(e) => Err(e),
    }
}

/// A capability drawn from `t`: an HTTP(S) URL on the manifest's origin which,
/// read again without its fragment, names something other than a manifest, and
/// whose path and query the capability is.
pub open spec fn granted_from(
    t: ParsedUrlView,
    remote: ParsedUrlView,
    c: (Seq<char>, Option<Seq<char>>),
) -> bool {
    &&& (t.scheme == "http"@ || t.scheme == "https"@)
    &&& same_origin(t, remote)
    &&& match url_without_fragment(t.serialization) {
        Some(u) => !ends_with(lower_seq(u.path), ".mpd"@) && c == (u.path, u.query),
        None => false,
    }
}

/// A capability drawn from some URL on the manifest's origin.
pub open spec fn grantable(c: (Seq<char>, Option<Seq<char>>), remote: ParsedUrlView) -> bool {
    exists|t: ParsedUrlView| #[trigger] granted_from(t, remote, c)
}

/// Every capability is drawn from some URL on the manifest's origin.
pub open spec fn all_grantable(caps: Seq<(Seq<char>, Option<Seq<char>>)>, remote: ParsedUrlView) -> bool {
    forall|k: int| 0 <= k < caps.len() ==> #[trigger] grantable(caps[k], remote)
}

proof fn lemma_target_grantable(value: Seq<char>, base: ParsedUrlView, remote: ParsedUrlView)
    ensures
        reference_target(value, base, remote) matches Ok(Some(u)) ==> grantable((u.path, u.query), remote),
{
    if let Ok(Some(u)) = reference_target(value, base, remote) {
        let v = decoded_entities(trim(value))->Ok_0;
        let t = url_join(base.serialization, v)->Some_0;
        assert(granted_from(t, remote, (u.path, u.query)));
    }
}

proof fn lemma_with_capability(
    caps: Seq<(Seq<char>, Option<Seq<char>>)>,
    c: (Seq<char>, Option<Seq<char>>),
    remote: ParsedUrlView,
)
    requires
        all_grantable(caps, remote),
        grantable(c, remote),
    ensures
        all_grantable(with_capability(caps, c), remote),
{
    if !caps.contains(c) {
        let next = caps.push(c);
        assert forall|k: int| 0 <= k < next.len() implies #[trigger] grantable(next[k], remote) by {
            if k < caps.len() {
                assert(next[k] == caps[k]);
            }
        }
    }
}

proof fn lemma_rewrite_attrs_grantable(
    items: Seq<AttrItemView>,
    base: ParsedUrlView,
    remote: ParsedUrlView,
    token: Seq<char>,
    caps: Seq<(Seq<char>, Option<Seq<char>>)>,
)
    requires
        all_grantable(caps, remote),
    ensures
        rewrite_attrs(items, base, remote, token, caps) matches Ok((_, c)) ==> all_grantable(c, remote),
    decreases items.len(),
{
    if items.len() > 0 {
        if let Ok((_, c1)) = rewrite_attr(items[0], base, remote, token, caps) {
            if let AttrItemView::Pair(k, value) = items[0] {
                if let Ok(d) = decoded_entities(value) {
                    if is_reference_key(k) {
                        lemma_target_grantable(trim(d), base, remote);
                        if let Ok(Some(t)) = reference_target(trim(d), base, remote) {
                            lemma_with_capability(caps, (t.path, t.query), remote);
                        }
                    }
                }
            }
            lemma_rewrite_attrs_grantable(items.drop_first(), base, remote, token, c1);
        }
    }
}

proof fn lemma_step_grantable(st: RewriteState, ev: XmlEventView, remote: ParsedUrlView, token: Seq<char>)
    requires
        all_grantable(st.caps, remote),
    ensures
        manifest_step(st, ev, remote, token) matches Ok(next) ==> all_grantable(next.caps, remote),
{
    match ev {
        XmlEventView::Start(tag) => {
            lemma_rewrite_attrs_grantable(tag.attributes, parent_base(st.stack, remote), remote, token, st.caps);
        },
        XmlEventView::Empty(tag) => {
            lemma_rewrite_attrs_grantable(tag.attributes, parent_base(st.stack, remote), remote, token, st.caps);
        },
        XmlEventView::End(name) => {
            if st.stack.len() > 0 {
                let el = st.stack.last();
                let pb = parent_base(st.stack.drop_last(), remote);
                lemma_target_grantable(trim(el.base_text), pb, remote);
                if let Ok(Some(u)) = reference_target(trim(el.base_text), pb, remote) {
                    lemma_with_capability(st.caps, (u.path, u.query), remote);
                }
            }
        },
        _ => {},
    }
}

proof fn lemma_run_grantable(events: Seq<XmlEventView>, st: RewriteState, remote: ParsedUrlView, token: Seq<char>)
    requires
        all_grantable(st.caps, remote),
    ensures
        manifest_run(events, st, remote, token) matches Ok(fin) ==> all_grantable(fin.caps, remote),
    decreases events.len(),
{
    if events.len() > 0 && !(events[0] is Eof) {
        lemma_step_grantable(st, events[0], remote, token);
        if let Ok(next) = manifest_step(st, events[0], remote, token) {
            lemma_run_grantable(events.drop_first(), next, remote, token);
        }
    }
}

/// The proxy only ever grants what a manifest may reach: every capability that
/// rewriting a manifest fetched from `remote` grants is the path and query of an
/// HTTP(S) URL on `remote`'s origin that does not name another manifest.
pub proof fn lemma_capabilities_stay_on_origin(bytes: Seq<u8>, remote: ParsedUrlView, token: Seq<char>)
    ensures
        parsed_manifest(bytes, remote, token) matches Ok((_, caps)) ==> all_grantable(caps, remote),
{
    if bytes.len() <= MAX_MANIFEST_BYTES && vstd::utf8::valid_utf8(bytes) {
        let text = vstd::utf8::decode_utf8(bytes);
        lemma_run_grantable(xml_event_stream(text), initial_state(), remote, token);
    }
}

} // verus!

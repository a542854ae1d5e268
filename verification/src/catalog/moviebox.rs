//! Reading MovieBox answers into catalogue entries.
//!
//! Each entry the catalogue hands out is identified by a signed opaque
//! identifier that stands for a provider record. The adapters here read the
//! provider's JSON and say, for each entry, which record it stands for; the
//! caller serialises and signs that record into the entry's identifier.

use vstd::prelude::*;

use crate::catalog::models::{CatalogError, MediaType, OpaquePayload, QualityPolicy};
use crate::json::{
    entry, as_items, as_signed, as_text, as_unsigned, bool_of, field, get, get_text, items_of, signed_of,
    text_field, text_of, unsigned_of, JsonValue,
};
use crate::text::{
    chars_of, dec_string, is_blank, lower_seq, opt_text, owned, parse_unsigned, signed_dec_string,
    string_of, trim, upper_seq,
};

verus! {

pub const MOVIEBOX_PROVIDER: &'static str = "moviebox";

/// The subjects of a search answer: the first result group's `subjects`.
pub open spec fn subjects_of(payload: JsonValue) -> Option<Seq<JsonValue>> {
    match field(payload, "results"@) {
        Some(r) => match items_of(r) {
            Some(groups) => if groups.len() > 0 {
                match field(groups[0], "subjects"@) {
                    Some(s) => items_of(s),
                    None => None,
                }
            } else {
                None
            },
            None => None,
        },
        None => None,
    }
}

pub fn extract_subjects(payload: &JsonValue) -> (r: Result<&Vec<JsonValue>, CatalogError>)
    ensures
        match (r, subjects_of(*payload)) {
            (Ok(v), Some(s)) => v@ == s,
            (Err(e), None) => e == CatalogError::InvalidPayload("results[0].subjects"),
            _ => false,
        },
{
    let groups = match get(payload, "results") {
        Some(r) => match as_items(r) {
            Some(g) => g,
            None => return Err(CatalogError::InvalidPayload("results[0].subjects")),
        },
        None => return Err(CatalogError::InvalidPayload("results[0].subjects")),
    };
    if groups.len() == 0 {
        return Err(CatalogError::InvalidPayload("results[0].subjects"));
    }
    match get(&groups[0], "subjects") {
        Some(s) => match as_items(s) {
            Some(items) => Ok(items),
            None => Err(CatalogError::InvalidPayload("results[0].subjects")),
        },
        None => Err(CatalogError::InvalidPayload("results[0].subjects")),
    }
}

/// Whether the pager says more pages follow: only an explicit boolean
/// `hasMore` (or, without that key, `has_more`) counts.
pub open spec fn has_more_of(payload: JsonValue) -> bool {
    match field(payload, "pager"@) {
        Some(p) => if p is Object {
            let flag = match field(p, "hasMore"@) {
                Some(x) => Some(x),
                None => field(p, "has_more"@),
            };
            match flag {
                Some(x) => bool_of(x) == Some(true),
                None => false,
            }
        } else {
            false
        },
        None => false,
    }
}

/// Paging follows the pager's own flag: a `hasMore` boolean decides; without a
/// `hasMore` member, a `has_more` boolean decides; a payload without a pager has
/// no further page. `adapt_search_page` reports exactly this.
pub proof fn lemma_pager_flag_decides(payload: JsonValue, pager: JsonValue, b: bool)
    ensures
        field(payload, "pager"@) is None ==> !has_more_of(payload),
        field(payload, "pager"@) == Some(pager) && pager is Object && field(pager, "hasMore"@) == Some(
            JsonValue::Bool(b),
        ) ==> has_more_of(payload) == b,
        field(payload, "pager"@) == Some(pager) && pager is Object && field(pager, "hasMore"@) is None
            && field(pager, "has_more"@) == Some(JsonValue::Bool(b)) ==> has_more_of(payload) == b,
        field(payload, "pager"@) == Some(pager) && (field(pager, "hasMore"@) matches Some(x) && !(x is Bool))
            ==> !has_more_of(payload),
        has_more_of(payload) ==> (field(payload, "pager"@) matches Some(p) && p is Object),
{
}

pub fn search_has_more(payload: &JsonValue) -> (r: bool)
    ensures
        r == has_more_of(*payload),
{
    let pager = match get(payload, "pager") {
        Some(p) => p,
        None => return false,
    };
    match pager {
        JsonValue::Object(_) => {},
        _ => return false,
    }
    let flag = match get(pager, "hasMore") {
        Some(x) => Some(x),
        None => get(pager, "has_more"),
    };
    match flag {
        Some(x) => match crate::json::as_bool(x) {
            Some(b) => b,
            None => false,
        },
        None => false,
    }
}

/// Subject type 2 is a series; anything else a movie.
pub fn media_type_from_value(subject_type: i64) -> (r: MediaType)
    ensures
        r == if subject_type == 2 { MediaType::Series } else { MediaType::Movie },
{
    if subject_type == 2 {
        MediaType::Series
    } else {
        MediaType::Movie
    }
}

/// A required text member: present, a string and not empty.
pub open spec fn required_text(v: JsonValue, key: &'static str) -> Result<Seq<char>, CatalogError> {
    match text_field(v, key@) {
        Some(t) => if t.len() > 0 {
            Ok(t)
        } else {
            Err(CatalogError::InvalidPayload(key))
        },
        None => Err(CatalogError::InvalidPayload(key)),
    }
}

pub fn string_field<'a>(value: &'a JsonValue, key: &'static str) -> (r: Result<&'a str, CatalogError>)
    ensures
        match (r, required_text(*value, key)) {
            (Ok(s), Ok(t)) => s@ == t,
            (Err(e), Err(f)) => e == f,
            _ => false,
        },
{
    match get_text(value, key) {
        Some(t) => {
            if chars_of(t).len() > 0 {
                Ok(t)
            } else {
                Err(CatalogError::InvalidPayload(key))
            }
        },
        None => Err(CatalogError::InvalidPayload(key)),
    }
}

/// An optional text member, trimmed; blank counts as absent.
pub open spec fn optional_text(v: JsonValue, key: Seq<char>) -> Option<Seq<char>> {
    match text_field(v, key) {
        Some(t) => if trim(t).len() > 0 {
            Some(trim(t))
        } else {
            None
        },
        None => None,
    }
}

pub fn optional_string(value: &JsonValue, key: &str) -> (r: Option<String>)
    ensures
        opt_text(r) == optional_text(*value, key@),
{
    match get_text(value, key) {
        Some(t) => {
            let trimmed = crate::text::trim_chars(chars_of(t).as_slice());
            if trimmed.len() > 0 {
                Some(string_of(trimmed.as_slice()))
            } else {
                None
            }
        },
        None => None,
    }
}

/// The year of an entry: the first four characters of `releaseDate` (or, when
/// that key is missing, `year`), read as text or as a whole number.
pub open spec fn year_of(v: JsonValue) -> Option<Seq<char>> {
    let raw = match field(v, "releaseDate"@) {
        Some(x) => Some(x),
        None => field(v, "year"@),
    };
    let text = match raw {
        Some(x) => match text_of(x) {
            Some(t) => Some(t),
            None => match signed_of(x) {
                Some(n) => Some(signed_dec_string(n as int)),
                None => None,
            },
        },
        None => None,
    };
    match text {
        Some(t) => if t.len() > 0 {
            Some(t.take(if t.len() < 4 { t.len() as int } else { 4 }))
        } else {
            None
        },
        None => None,
    }
}

pub fn optional_year(value: &JsonValue) -> (r: Option<String>)
    ensures
        opt_text(r) == year_of(*value),
{
    let raw = match get(value, "releaseDate") {
        Some(x) => Some(x),
        None => get(value, "year"),
    };
    let text: Option<Vec<char>> = match raw {
        Some(x) => match as_text(x) {
            Some(t) => Some(chars_of(t)),
            None => match as_signed(x) {
                Some(n) => Some(crate::text::signed_dec_digits(n)),
                None => None,
            },
        },
        None => None,
    };
    match text {
        Some(t) => {
            if t.len() > 0 {
                let n: usize = if t.len() < 4 {
                    t.len()
                } else {
                    4
                };
                let head = crate::text::slice_chars(t.as_slice(), 0, n);
                assert(head@ =~= t@.take(n as int));
                Some(string_of(head.as_slice()))
            } else {
                None
            }
        },
        None => None,
    }
}

/// A member read as a `u16`: a whole number in range, or text that parses as one.
pub open spec fn u16_member(v: JsonValue, key: Seq<char>) -> Option<u16> {
    match field(v, key) {
        Some(x) => match unsigned_of(x) {
            Some(n) => if n <= 65535 {
                Some(n as u16)
            } else {
                None
            },
            None => match text_of(x) {
                Some(t) => match parse_unsigned(t, 65535) {
                    Some(n) => Some(n as u16),
                    None => None,
                },
                None => None,
            },
        },
        None => None,
    }
}

pub fn parse_optional_u16_field(value: &JsonValue, key: &str) -> (r: Option<u16>)
    ensures
        r == u16_member(*value, key@),
{
    match get(value, key) {
        Some(x) => match as_unsigned(x) {
            Some(n) => {
                if n <= 65535 {
                    Some(n as u16)
                } else {
                    None
                }
            },
            None => match as_text(x) {
                Some(t) => match crate::text::parse_unsigned_chars(chars_of(t).as_slice(), 65535) {
                    Some(n) => Some(n as u16),
                    None => None,
                },
                None => None,
            },
        },
        None => None,
    }
}

pub fn parse_u16_field(value: &JsonValue, key: &'static str) -> (r: Result<u16, CatalogError>)
    ensures
        match u16_member(*value, key@) {
            Some(n) => r == Ok::<u16, CatalogError>(n),
            None => r == Err::<u16, CatalogError>(CatalogError::InvalidPayload(key)),
        },
{
    match parse_optional_u16_field(value, key) {
        Some(n) => Ok(n),
        None => Err(CatalogError::InvalidPayload(key)),
    }
}

/// A member read as a `u64`: a non-negative whole number, or text that parses
/// as one.
pub open spec fn u64_member(v: JsonValue, key: Seq<char>) -> Option<u64> {
    match field(v, key) {
        Some(x) => match unsigned_of(x) {
            Some(n) => Some(n),
            None => match signed_of(x) {
                Some(n) => if n >= 0 {
                    Some(n as u64)
                } else {
                    None
                },
                None => match text_of(x) {
                    Some(t) => match parse_unsigned(t, u64::MAX as nat) {
                        Some(n) => Some(n as u64),
                        None => None,
                    },
                    None => None,
                },
            },
        },
        None => None,
    }
}

pub fn parse_optional_u64_field(value: &JsonValue, key: &str) -> (r: Option<u64>)
    ensures
        r == u64_member(*value, key@),
{
    match get(value, key) {
        Some(x) => match as_unsigned(x) {
            Some(n) => Some(n),
            None => match as_signed(x) {
                Some(n) => {
                    if n >= 0 {
                        Some(n as u64)
                    } else {
                        None
                    }
                },
                None => match as_text(x) {
                    Some(t) => crate::text::parse_unsigned_chars(chars_of(t).as_slice(), u64::MAX),
                    None => None,
                },
            },
        },
        None => None,
    }
}

/// The episode numbers listed in `allEp`, in order, skipping what does not parse.
pub open spec fn listed_episodes(pieces: Seq<Seq<char>>) -> Seq<u16>
    decreases pieces.len(),
{
    if pieces.len() == 0 {
        seq![]
    } else {
        let rest = listed_episodes(pieces.drop_last());
        match parse_unsigned(trim(pieces.last()), 65535) {
            Some(n) => rest.push(n as u16),
            None => rest,
        }
    }
}

/// A season's episodes: those listed in `allEp` when any parse, else one to
/// `maxEp` (one when that is missing or too large).
pub open spec fn episode_numbers(season: JsonValue) -> Seq<u16> {
    let listed = match text_field(season, "allEp"@) {
        Some(all) => listed_episodes(crate::text::split_pieces(all, ',')),
        None => seq![],
    };
    if listed.len() > 0 {
        listed
    } else {
        let max: nat = match field(season, "maxEp"@) {
            Some(x) => match unsigned_of(x) {
                Some(n) => if n <= 65535 {
                    n as nat
                } else {
                    1
                },
                None => 1,
            },
            None => 1,
        };
        Seq::new(max, |i: int| (i + 1) as u16)
    }
}

pub fn parse_episode_numbers(season: &JsonValue) -> (r: Vec<u16>)
    ensures
        r@ == episode_numbers(*season),
{
    let mut listed: Vec<u16> = Vec::new();
    match get_text(season, "allEp") {
        Some(all) => {
            let pieces = crate::text::split_chars(chars_of(all).as_slice(), ',');
            let ghost ps = crate::text::split_pieces(all@, ',');
            assert(pieces@.map_values(|p: Vec<char>| p@) == ps);
            let mut i: usize = 0;
            while i < pieces.len()
                invariant
                    i <= pieces@.len(),
                    pieces@.map_values(|p: Vec<char>| p@) == ps,
                    listed@ == listed_episodes(ps.take(i as int)),
                decreases pieces@.len() - i,
            {
                assert(ps.take(i + 1).drop_last() =~= ps.take(i as int));
                assert(ps.take(i + 1).last() == pieces@[i as int]@);
                let t = crate::text::trim_chars(pieces[i].as_slice());
                match crate::text::parse_unsigned_chars(t.as_slice(), 65535) {
                    Some(n) => listed.push(n as u16),
                    None => {},
                }
                i = i + 1;
            }
            assert(ps.take(ps.len() as int) =~= ps);
        },
        None => {},
    }
    if listed.len() > 0 {
        return listed;
    }
    let max: u16 = match get(season, "maxEp") {
        Some(x) => match as_unsigned(x) {
            Some(n) => {
                if n <= 65535 {
                    n as u16
                } else {
                    1
                }
            },
            None => 1,
        },
        None => 1,
    };
    let mut out: Vec<u16> = Vec::new();
    let mut k: u16 = 0;
    while k < max
        invariant
            k <= max,
            out@ == Seq::new(k as nat, |i: int| (i + 1) as u16),
        decreases max - k,
    {
        out.push(k + 1);
        k = k + 1;
        assert(out@ =~= Seq::new(k as nat, |i: int| (i + 1) as u16));
    }
    out
}

/// The subject a sources answer is for: its non-empty `subjectId`.
pub open spec fn subject_of(payload: JsonValue) -> Result<Seq<char>, CatalogError> {
    match text_field(payload, "subjectId"@) {
        Some(t) => if t.len() > 0 {
            Ok(t)
        } else {
            Err(CatalogError::InvalidPayload("subjectId"))
        },
        None => Err(CatalogError::InvalidPayload("subjectId")),
    }
}

pub fn source_subject_id<'a>(payload: &'a JsonValue) -> (r: Result<&'a str, CatalogError>)
    ensures
        match (r, subject_of(*payload)) {
            (Ok(s), Ok(t)) => s@ == t,
            (Err(e), Err(f)) => e == f,
            _ => false,
        },
{
    match get_text(payload, "subjectId") {
        Some(t) => {
            if chars_of(t).len() > 0 {
                Ok(t)
            } else {
                Err(CatalogError::InvalidPayload("subjectId"))
            }
        },
        None => Err(CatalogError::InvalidPayload("subjectId")),
    }
}

/// The `list` of a sources answer.
pub open spec fn list_of(payload: JsonValue) -> Option<Seq<JsonValue>> {
    match field(payload, "list"@) {
        Some(l) => items_of(l),
        None => None,
    }
}

pub fn source_items(payload: &JsonValue) -> (r: Result<&Vec<JsonValue>, CatalogError>)
    ensures
        match (r, list_of(*payload)) {
            (Ok(v), Some(l)) => v@ == l,
            (Err(e), None) => e == CatalogError::InvalidPayload("list"),
            _ => false,
        },
{
    match get(payload, "list") {
        Some(l) => match as_items(l) {
            Some(v) => Ok(v),
            None => Err(CatalogError::InvalidPayload("list")),
        },
        None => Err(CatalogError::InvalidPayload("list")),
    }
}

/// What one entry of a sources answer says.
pub struct SourceFacts {
    pub resource_id: Seq<char>,
    pub season: Option<u16>,
    pub episode: Option<u16>,
    pub height: u16,
    pub codec: Option<Seq<char>>,
    pub language: Option<Seq<char>>,
    pub size: Option<u64>,
}

/// One entry: it must name its resource and its height; one above the ceiling
/// is skipped.
pub open spec fn source_facts(item: JsonValue, maximum_height: u16) -> Result<Option<SourceFacts>, CatalogError> {
    match text_field(item, "resourceId"@) {
        Some(id) => if id.len() == 0 {
            Err(CatalogError::InvalidPayload("resourceId"))
        } else {
            match u16_member(item, "resolution"@) {
                None => Err(CatalogError::InvalidPayload("resolution")),
                Some(h) => if h > maximum_height {
                    Ok(None)
                } else {
                    Ok(
                        Some(
                            SourceFacts {
                                resource_id: id,
                                season: u16_member(item, "se"@),
                                episode: u16_member(item, "ep"@),
                                height: h,
                                codec: optional_text(item, "codecName"@),
                                language: optional_text(item, "lanName"@),
                                size: match u64_member(item, "sizeBytes"@) {
                                    Some(n) => Some(n),
                                    None => u64_member(item, "size"@),
                                },
                            },
                        ),
                    )
                },
            }
        },
        None => Err(CatalogError::InvalidPayload("resourceId")),
    }
}

/// The entries read in order; the first refusal stops the reading.
pub open spec fn collected_sources(items: Seq<JsonValue>, maximum_height: u16) -> Result<Seq<SourceFacts>, CatalogError>
    decreases items.len(),
{
    if items.len() == 0 {
        Ok(seq![])
    } else {
        match collected_sources(items.drop_last(), maximum_height) {
            Err(e) => Err(e),
            Ok(fs) => match source_facts(items.last(), maximum_height) {
                Err(e) => Err(e),
                Ok(None) => Ok(fs),
                Ok(Some(f)) => Ok(fs.push(f)),
            },
        }
    }
}

/// An entry placed after every entry at least as high, as a stable sort from
/// the highest down places it.
pub open spec fn insert_by_height(s: Seq<SourceFacts>, x: SourceFacts) -> Seq<SourceFacts>
    decreases s.len(),
{
    if s.len() == 0 {
        seq![x]
    } else if s[0].height < x.height {
        seq![x] + s
    } else {
        seq![s[0]] + insert_by_height(s.drop_first(), x)
    }
}

/// The entries sorted from the highest down, equal heights in their order.
pub open spec fn by_height(s: Seq<SourceFacts>) -> Seq<SourceFacts>
    decreases s.len(),
{
    if s.len() == 0 {
        seq![]
    } else {
        insert_by_height(by_height(s.drop_last()), s.last())
    }
}

/// The label shown for a source: its height, and its codec in capitals.
pub open spec fn source_label(height: u16, codec: Option<Seq<char>>) -> Seq<char> {
    dec_string(height as nat) + "p"@ + match codec {
        Some(c) => " "@ + upper_seq(c),
        None => seq![],
    }
}

/// A source before its identifier is signed; `key` is the record it stands for.
#[derive(Debug, Clone, PartialEq, Eq)]
pub struct SourceDraft {
    pub key: OpaquePayload,
    pub height: u16,
    pub label: String,
    pub size_bytes: Option<u64>,
    pub language: Option<String>,
    pub recommended: bool,
}

/// The draft for an entry of the subject's answer.
pub open spec fn drafted_source(d: SourceDraft, f: SourceFacts, subject: Seq<char>) -> bool {
    &&& d.key matches OpaquePayload::Source {
        provider,
        subject_id,
        resource_id,
        season,
        episode,
        height,
        language,
    } && provider@ == MOVIEBOX_PROVIDER@ && subject_id@ == subject && resource_id@ == f.resource_id
        && season == f.season && episode == f.episode && height == f.height && opt_text(language)
        == f.language
    &&& d.height == f.height
    &&& d.label@ == source_label(f.height, f.codec)
    &&& d.size_bytes == f.size
    &&& opt_text(d.language) == f.language
}

fn source_draft(item: &JsonValue, subject: &str, maximum_height: u16) -> (r: Result<Option<SourceDraft>, CatalogError>)
    ensures
        match (r, source_facts(*item, maximum_height)) {
            (Ok(None), Ok(None)) => true,
            (Ok(Some(d)), Ok(Some(f))) => drafted_source(d, f, subject@) && !d.recommended,
            (Err(e), Err(f)) => e == f,
            _ => false,
        },
{
    let resource_id = match get_text(item, "resourceId") {
        Some(t) => {
            if chars_of(t).len() == 0 {
                return Err(CatalogError::InvalidPayload("resourceId"));
            }
            t
        },
        None => return Err(CatalogError::InvalidPayload("resourceId")),
    };
    let height = match parse_u16_field(item, "resolution") {
        Ok(h) => h,
        Err(e) => return Err(e),
    };
    if height > maximum_height {
        return Ok(None);
    }
    let codec_name = optional_string(item, "codecName");
    let mut label = string_of(crate::text::dec_digits(height as u64).as_slice());
    crate::text::push_str(&mut label, "p");
    match &codec_name {
        Some(c) => {
            crate::text::push_str(&mut label, " ");
            crate::text::push_chars(&mut label, crate::text::upper_chars(chars_of(c.as_str()).as_slice()).as_slice());
        },
        None => {},
    }
    let language = optional_string(item, "lanName");
    let size_bytes = match parse_optional_u64_field(item, "sizeBytes") {
        Some(n) => Some(n),
        None => parse_optional_u64_field(item, "size"),
    };
    let key = OpaquePayload::Source {
        provider: owned(MOVIEBOX_PROVIDER),
        subject_id: owned(subject),
        resource_id: owned(resource_id),
        season: parse_optional_u16_field(item, "se"),
        episode: parse_optional_u16_field(item, "ep"),
        height,
        language: crate::catalog::models::duplicate_text(&language),
    };
    proof {
        reveal_strlit("p");
        reveal_strlit(" ");
    }
    let d = SourceDraft { key, height, label, size_bytes, language, recommended: false };
    assert(source_facts(*item, maximum_height) is Ok);
    assert(source_facts(*item, maximum_height)->Ok_0 is Some);
    let ghost f = source_facts(*item, maximum_height)->Ok_0->Some_0;
    assert(d.height == f.height);
    assert(d.label@ == source_label(f.height, f.codec));
    assert(d.size_bytes == f.size);
    assert(opt_text(d.language) == f.language);
    Ok(Some(d))
}

proof fn lemma_insert_len(s: Seq<SourceFacts>, x: SourceFacts)
    ensures
        insert_by_height(s, x).len() == s.len() + 1,
    decreases s.len(),
{
    if s.len() > 0 && s[0].height >= x.height {
        lemma_insert_len(s.drop_first(), x);
    }
}

proof fn lemma_by_height_len(s: Seq<SourceFacts>)
    ensures
        by_height(s).len() == s.len(),
    decreases s.len(),
{
    if s.len() > 0 {
        lemma_by_height_len(s.drop_last());
        lemma_insert_len(by_height(s.drop_last()), s.last());
    }
}

proof fn lemma_insert_at(s: Seq<SourceFacts>, x: SourceFacts, p: int)
    requires
        0 <= p <= s.len(),
        forall|j: int| 0 <= j < p ==> (#[trigger] s[j]).height >= x.height,
        p < s.len() ==> s[p].height < x.height,
    ensures
        insert_by_height(s, x) == s.insert(p, x),
    decreases s.len(),
{
    if s.len() == 0 {
        assert(s.insert(p, x) =~= seq![x]);
    } else if p == 0 {
        assert(s.insert(0, x) =~= seq![x] + s);
    } else {
        assert forall|j: int| 0 <= j < p - 1 implies (#[trigger] s.drop_first()[j]).height >= x.height by {
            assert(s.drop_first()[j] == s[j + 1]);
        }
        if p - 1 < s.drop_first().len() {
            assert(s.drop_first()[p - 1] == s[p]);
        }
        lemma_insert_at(s.drop_first(), x, p - 1);
        assert(s[0].height >= x.height);
        assert(seq![s[0]] + s.drop_first().insert(p - 1, x) =~= s.insert(p, x));
    }
}

/// The sources of an answer for the subject it names: every entry must name
/// its resource and height, entries above the ceiling are dropped, the rest
/// come from the highest down (equal heights in the answer's order) with the
/// first recommended; no entry left means no quality is available.
pub fn adapt_sources(payload: &JsonValue, policy: QualityPolicy) -> (r: Result<Vec<SourceDraft>, CatalogError>)
    ensures
        match subject_of(*payload) {
            Err(e) => r == Err::<Vec<SourceDraft>, CatalogError>(e),
            Ok(subject) => match list_of(*payload) {
                None => r == Err::<Vec<SourceDraft>, CatalogError>(CatalogError::InvalidPayload("list")),
                Some(items) => match collected_sources(items, policy.maximum_height) {
                    Err(e) => r == Err::<Vec<SourceDraft>, CatalogError>(e),
                    Ok(fs) => if fs.len() == 0 {
                        r == Err::<Vec<SourceDraft>, CatalogError>(
                            CatalogError::QualityUnavailable {
                                maximum_height: policy.maximum_height,
                                requested_height: None,
                            },
                        )
                    } else {
                        r matches Ok(v) && v@.len() == fs.len() && forall|k: int|
                            0 <= k < v@.len() ==> drafted_source(#[trigger] v@[k], by_height(fs)[k], subject)
                                && v@[k].recommended == (k == 0)
                    },
                },
            },
        },
{
    let subject = match source_subject_id(payload) {
        Ok(s) => s,
        Err(e) => return Err(e),
    };
    let items = match source_items(payload) {
        Ok(v) => v,
        Err(e) => return Err(e),
    };
    let max = policy.maximum_height;
    let mut sorted: Vec<SourceDraft> = Vec::new();
    let ghost mut facts: Seq<SourceFacts> = seq![];
    let mut i: usize = 0;
    while i < items.len()
        invariant
            i <= items@.len(),
            max == policy.maximum_height,
            subject_of(*payload) == Ok::<Seq<char>, CatalogError>(subject@),
            list_of(*payload) == Some(items@),
            collected_sources(items@.take(i as int), max) == Ok::<Seq<SourceFacts>, CatalogError>(facts),
            sorted@.len() == by_height(facts).len(),
            forall|k: int|
                0 <= k < sorted@.len() ==> drafted_source(#[trigger] sorted@[k], by_height(facts)[k], subject@)
                    && !sorted@[k].recommended,
        decreases items@.len() - i,
    {
        assert(items@.take(i + 1).drop_last() =~= items@.take(i as int));
        assert(items@.take(i + 1).last() == items@[i as int]);
        match source_draft(&items[i], subject, max) {
            Err(e) => {
                proof {
                    lemma_collected_error(items@, max, i as int + 1);
                }
                return Err(e);
            },
            Ok(None) => {},
            Ok(Some(d)) => {
                let ghost f = source_facts(items@[i as int], max)->Ok_0->Some_0;
                let ghost before = by_height(facts);
                let mut p: usize = 0;
                while p < sorted.len() && sorted[p].height >= d.height
                    invariant
                        p <= sorted@.len(),
                        sorted@.len() == before.len(),
                        d.height == f.height,
                        forall|k: int| 0 <= k < sorted@.len() ==> (#[trigger] sorted@[k]).height == before[k].height,
                        forall|j: int| 0 <= j < p ==> (#[trigger] before[j]).height >= f.height,
                    decreases sorted@.len() - p,
                {
                    assert(sorted@[p as int].height == before[p as int].height);
                    p = p + 1;
                }
                proof {
                    if p < sorted@.len() {
                        assert(sorted@[p as int].height == before[p as int].height);
                    }
                    lemma_insert_at(before, f, p as int);
                    let old_facts = facts;
                    facts = facts.push(f);
                    assert(facts.drop_last() =~= old_facts);
                    assert(by_height(facts) == insert_by_height(before, f));
                }
                let ghost old_sorted = sorted@;
                sorted.insert(p, d);
                assert forall|k: int| 0 <= k < sorted@.len() implies drafted_source(
                    #[trigger] sorted@[k],
                    by_height(facts)[k],
                    subject@,
                ) && !sorted@[k].recommended by {
                    if k < p {
                        assert(sorted@[k] == old_sorted[k]);
                        assert(by_height(facts)[k] == before[k]);
                    } else if k > p {
                        assert(sorted@[k] == old_sorted[k - 1]);
                        assert(by_height(facts)[k] == before[k - 1]);
                    }
                }
            },
        }
        i = i + 1;
    }
    assert(items@.take(items@.len() as int) =~= items@);
    proof {
        lemma_by_height_len(facts);
    }
    if sorted.len() == 0 {
        return Err(CatalogError::QualityUnavailable { maximum_height: max, requested_height: None });
    }
    let first = sorted.remove(0);
    let recommended = SourceDraft {
        key: first.key,
        height: first.height,
        label: first.label,
        size_bytes: first.size_bytes,
        language: first.language,
        recommended: true,
    };
    let ghost rest = sorted@;
    sorted.insert(0, recommended);
    assert forall|k: int| 0 <= k < sorted@.len() implies drafted_source(
        #[trigger] sorted@[k],
        by_height(facts)[k],
        subject@,
    ) && sorted@[k].recommended == (k == 0) by {
        if k > 0 {
            assert(sorted@[k] == rest[k - 1]);
        }
    }
    Ok(sorted)
}

proof fn lemma_collected_error(items: Seq<JsonValue>, max: u16, n: int)
    requires
        0 < n <= items.len(),
        collected_sources(items.take(n - 1), max) is Ok,
        source_facts(items[n - 1], max) is Err,
    ensures
        collected_sources(items, max) == Err::<Seq<SourceFacts>, CatalogError>(
            source_facts(items[n - 1], max)->Err_0,
        ),
    decreases items.len() - n,
{
    assert(items.take(n).drop_last() =~= items.take(n - 1));
    assert(collected_sources(items.take(n), max) is Err);
    lemma_collected_stays_error(items, max, n);
}

proof fn lemma_collected_stays_error(items: Seq<JsonValue>, max: u16, n: int)
    requires
        0 <= n <= items.len(),
        collected_sources(items.take(n), max) is Err,
    ensures
        collected_sources(items, max) == collected_sources(items.take(n), max),
    decreases items.len() - n,
{
    if n < items.len() {
        assert(items.take(n + 1).drop_last() =~= items.take(n));
        lemma_collected_stays_error(items, max, n + 1);
    } else {
        assert(items.take(n) =~= items);
    }
}

impl SourceDraft {
    /// The source, once its record is signed into `id`.
    pub fn with_id(self, id: crate::catalog::models::SourceId) -> (r: crate::catalog::models::SourceOption)
        ensures
            r.id == id,
            r.height == self.height,
            r.label == self.label,
            r.size_bytes == self.size_bytes,
            r.language == self.language,
            r.recommended == self.recommended,
            r.quality == crate::catalog::quality::QualityTier::Good,
    {
        crate::catalog::models::SourceOption {
            id,
            height: self.height,
            label: self.label,
            size_bytes: self.size_bytes,
            language: self.language,
            recommended: self.recommended,
            quality: crate::catalog::quality::QualityTier::Good,
        }
    }
}

/// The text after the last `c`, or all of it when there is none.
pub open spec fn after_last(s: Seq<char>, c: char) -> Seq<char>
    decreases s.len(),
{
    if s.len() == 0 {
        s
    } else if s.last() == c {
        seq![]
    } else {
        after_last(s.drop_last(), c).push(s.last())
    }
}

pub(crate) fn after_last_chars(v: &[char], c: char) -> (r: Vec<char>)
    ensures
        r@ == after_last(v@, c),
{
    let mut k: usize = v.len();
    assert(v@.take(k as int) =~= v@);
    assert(v@.skip(k as int) =~= Seq::<char>::empty());
    assert(after_last(v@, c) + Seq::<char>::empty() =~= after_last(v@, c));
    while k > 0 && v[k - 1] != c
        invariant
            k <= v@.len(),
            after_last(v@, c) == after_last(v@.take(k as int), c) + v@.skip(k as int),
        decreases k,
    {
        let ghost pre = v@.take(k as int);
        assert(pre.drop_last() =~= v@.take(k - 1));
        assert(pre.last() == v@[k - 1]);
        assert(after_last(pre, c) == after_last(v@.take(k - 1), c).push(v@[k - 1]));
        assert(after_last(v@.take(k - 1), c).push(v@[k - 1]) + v@.skip(k as int) =~= after_last(
            v@.take(k - 1),
            c,
        ) + v@.skip(k - 1));
        k = k - 1;
    }
    proof {
        let pre = v@.take(k as int);
        if k > 0 {
            assert(pre.last() == v@[k - 1]);
        }
        assert(after_last(pre, c) =~= Seq::<char>::empty());
        assert(after_last(v@, c) =~= v@.skip(k as int));
    }
    crate::text::slice_chars(v, k, v.len())
}

/// The extension of the file a URL names: what follows the last `.` of its
/// last path segment, or the fallback when the URL does not parse, has no
/// path segments, or no such extension.
pub open spec fn extension_of(url: Seq<char>, fallback: Seq<char>) -> Seq<char> {
    match crate::urls::url_parse(url) {
        Some(u) => if u.path.len() > 0 && u.path[0] == '/' {
            let name = after_last(u.path, '/');
            if name.contains('.') && after_last(name, '.').len() > 0 {
                after_last(name, '.')
            } else {
                fallback
            }
        } else {
            fallback
        },
        None => fallback,
    }
}

pub fn parse_extension(url: &str, fallback: &str) -> (r: String)
    ensures
        r@ == extension_of(url@, fallback@),
{
    let u = match crate::urls::parse_url(url) {
        Some(u) => u,
        None => return owned(fallback),
    };
    let path = chars_of(u.path.as_str());
    if !(path.len() > 0 && path[0] == '/') {
        return owned(fallback);
    }
    let name = after_last_chars(path.as_slice(), '/');
    if crate::text::has_char(name.as_slice(), '.') {
        let ext = after_last_chars(name.as_slice(), '.');
        if ext.len() > 0 {
            return string_of(ext.as_slice());
        }
    }
    owned(fallback)
}

/// A subtitle before its identifier is signed.
#[derive(Debug, Clone, PartialEq, Eq)]
pub struct SubtitleDraft {
    pub key: OpaquePayload,
    pub language: String,
    pub format: Option<String>,
}

/// The language of a caption: its `lanName`, or `Unknown`.
pub open spec fn caption_language(caption: JsonValue) -> Seq<char> {
    match text_field(caption, "lanName"@) {
        Some(t) => if t.len() > 0 {
            t
        } else {
            "Unknown"@
        },
        None => "Unknown"@,
    }
}

/// A caption worth offering: one with a URL, at an index that fits in `u16`;
/// its format is the stated one, else the URL's extension, else `srt`.
pub open spec fn caption_facts(caption: JsonValue, index: int) -> Option<(Seq<char>, Seq<char>)> {
    match text_field(caption, "url"@) {
        Some(url) => if url.len() == 0 || index > 65535 {
            None
        } else {
            Some(
                (
                    caption_language(caption),
                    match optional_text(caption, "format"@) {
                        Some(f) => f,
                        None => extension_of(url, "srt"@),
                    },
                ),
            )
        },
        None => None,
    }
}

/// The draft for the caption at `index` of the resource's captions.
pub open spec fn drafted_subtitle(
    d: SubtitleDraft,
    subject: Seq<char>,
    resource: Seq<char>,
    index: int,
    facts: (Seq<char>, Seq<char>),
) -> bool {
    &&& d.key matches OpaquePayload::Subtitle { provider, subject_id, resource_id, index: i, language, format }
        && provider@ == MOVIEBOX_PROVIDER@ && subject_id@ == subject && resource_id@ == resource && i
        == index && language@ == facts.0 && opt_text(format) == Some(facts.1)
    &&& d.language@ == facts.0
    &&& opt_text(d.format) == Some(facts.1)
}

/// The positions of the captions worth offering, in order.
pub open spec fn offered_captions(captions: Seq<JsonValue>) -> Seq<int>
    decreases captions.len(),
{
    if captions.len() == 0 {
        seq![]
    } else {
        let rest = offered_captions(captions.drop_last());
        if caption_facts(captions.last(), captions.len() - 1) is Some {
            rest.push(captions.len() - 1)
        } else {
            rest
        }
    }
}

/// The captions of an answer.
pub open spec fn captions_of(payload: JsonValue) -> Seq<JsonValue> {
    match field(payload, "extCaptions"@) {
        Some(c) => match items_of(c) {
            Some(items) => items,
            None => seq![],
        },
        None => seq![],
    }
}

fn caption_draft(caption: &JsonValue, index: usize, subject: &str, resource: &str) -> (r: Option<SubtitleDraft>)
    ensures
        match (r, caption_facts(*caption, index as int)) {
            (Some(d), Some(f)) => drafted_subtitle(d, subject@, resource@, index as int, f),
            (None, None) => true,
            _ => false,
        },
{
    let url = match get_text(caption, "url") {
        Some(u) => u,
        None => return None,
    };
    if chars_of(url).len() == 0 || index > 65535 {
        return None;
    }
    let language = match get_text(caption, "lanName") {
        Some(t) => {
            if chars_of(t).len() > 0 {
                owned(t)
            } else {
                owned("Unknown")
            }
        },
        None => owned("Unknown"),
    };
    let format = match optional_string(caption, "format") {
        Some(f) => f,
        None => parse_extension(url, "srt"),
    };
    let key = OpaquePayload::Subtitle {
        provider: owned(MOVIEBOX_PROVIDER),
        subject_id: owned(subject),
        resource_id: owned(resource),
        index: index as u16,
        language: language.clone(),
        format: Some(format.clone()),
    };
    Some(SubtitleDraft { key, language, format: Some(format) })
}

/// The subtitles offered for a source, given the record its identifier stands
/// for: each caption with a URL, in order.
pub fn adapt_subtitles(payload: &JsonValue, source: &OpaquePayload) -> (r: Result<Vec<SubtitleDraft>, CatalogError>)
    ensures
        match *source {
            OpaquePayload::Source { provider, subject_id, resource_id, .. } => if provider@ != MOVIEBOX_PROVIDER@ {
                r == Err::<Vec<SubtitleDraft>, CatalogError>(CatalogError::UnsupportedProvider(provider))
            } else {
                r matches Ok(v) && v@.len() == offered_captions(captions_of(*payload)).len() && forall|k: int|
                    0 <= k < v@.len() ==> {
                        let i = #[trigger] offered_captions(captions_of(*payload))[k];
                        drafted_subtitle(
                            v@[k],
                            subject_id@,
                            resource_id@,
                            i,
                            caption_facts(captions_of(*payload)[i], i)->Some_0,
                        )
                    }
            },
            _ => r == Err::<Vec<SubtitleDraft>, CatalogError>(CatalogError::InvalidOpaqueId),
        },
{
    let (provider, subject, resource) = match source {
        OpaquePayload::Source { provider, subject_id, resource_id, .. } => (provider, subject_id, resource_id),
        _ => return Err(CatalogError::InvalidOpaqueId),
    };
    if !crate::text::str_eq(provider.as_str(), MOVIEBOX_PROVIDER) {
        return Err(CatalogError::UnsupportedProvider(provider.clone()));
    }
    let empty: Vec<JsonValue> = Vec::new();
    let captions: &Vec<JsonValue> = match get(payload, "extCaptions") {
        Some(c) => match as_items(c) {
            Some(items) => items,
            None => &empty,
        },
        None => &empty,
    };
    assert(captions@ == captions_of(*payload));
    let mut out: Vec<SubtitleDraft> = Vec::new();
    let mut i: usize = 0;
    while i < captions.len()
        invariant
            i <= captions@.len(),
            captions@ == captions_of(*payload),
            out@.len() == offered_captions(captions@.take(i as int)).len(),
            forall|k: int|
                0 <= k < out@.len() ==> {
                    let j = #[trigger] offered_captions(captions@.take(i as int))[k];
                    0 <= j < i && drafted_subtitle(
                        out@[k],
                        subject@,
                        resource@,
                        j,
                        caption_facts(captions@[j], j)->Some_0,
                    )
                },
        decreases captions@.len() - i,
    {
        let ghost pre = captions@.take(i + 1);
        assert(pre.drop_last() =~= captions@.take(i as int));
        assert(pre.last() == captions@[i as int]);
        let ghost before = offered_captions(captions@.take(i as int));
        match caption_draft(&captions[i], i, subject.as_str(), resource.as_str()) {
            Some(d) => {
                out.push(d);
                assert(offered_captions(pre) == before.push(i as int));
                assert forall|k: int| 0 <= k < out@.len() implies {
                    let j = #[trigger] offered_captions(pre)[k];
                    0 <= j < i + 1 && drafted_subtitle(
                        out@[k],
                        subject@,
                        resource@,
                        j,
                        caption_facts(captions@[j], j)->Some_0,
                    )
                } by {
                    if k < before.len() {
                        assert(offered_captions(pre)[k] == before[k]);
                    }
                }
            },
            None => {
                assert(offered_captions(pre) == before);
            },
        }
        i = i + 1;
    }
    assert(captions@.take(captions@.len() as int) =~= captions@);
    Ok(out)
}

/// The position of the first entry of `list` for the resource.
pub open spec fn source_item_index(payload: JsonValue, resource_id: Seq<char>) -> Option<int> {
    match list_of(payload) {
        Some(items) => if exists|i: int| 0 <= i < items.len() && text_field(#[trigger] items[i], "resourceId"@) == Some(resource_id) {
            Some(choose|i: int| 0 <= i < items.len() && text_field(#[trigger] items[i], "resourceId"@) == Some(resource_id)
                && forall|j: int| 0 <= j < i ==> text_field(#[trigger] items[j], "resourceId"@) != Some(resource_id))
        } else {
            None
        },
        None => None,
    }
}

/// The first entry of a sources answer for the resource.
pub fn find_source_item<'a>(payload: &'a JsonValue, resource_id: &str) -> (r: Option<&'a JsonValue>)
    ensures
        match (r, source_item_index(*payload, resource_id@)) {
            (Some(item), Some(i)) => *item == list_of(*payload)->Some_0[i],
            (None, None) => true,
            _ => false,
        },
{
    let items = match get(payload, "list") {
        Some(l) => match as_items(l) {
            Some(v) => v,
            None => return None,
        },
        None => return None,
    };
    let mut i: usize = 0;
    while i < items.len()
        invariant
            i <= items@.len(),
            list_of(*payload) == Some(items@),
            forall|j: int| 0 <= j < i ==> text_field(#[trigger] items@[j], "resourceId"@) != Some(resource_id@),
        decreases items@.len() - i,
    {
        let found = match get_text(&items[i], "resourceId") {
            Some(t) => crate::text::str_eq(t, resource_id),
            None => false,
        };
        if found {
            proof {
                let k = choose|k: int| 0 <= k < items@.len() && text_field(#[trigger] items@[k], "resourceId"@) == Some(resource_id@)
                    && forall|j: int| 0 <= j < k ==> text_field(#[trigger] items@[j], "resourceId"@) != Some(resource_id@);
                if k < i {
                } else if k > i {
                    assert(text_field(items@[i as int], "resourceId"@) == Some(resource_id@));
                }
            }
            return Some(&items[i]);
        }
        i = i + 1;
    }
    None
}

/// A source entry's height must be within the ceiling and the one its
/// identifier was signed with.
pub open spec fn checked_resolution(item: JsonValue, signed_height: u16, maximum_height: u16) -> Result<u16, CatalogError> {
    match u16_member(item, "resolution"@) {
        None => Err(CatalogError::InvalidPayload("resolution")),
        Some(h) => if h > maximum_height {
            Err(CatalogError::QualityUnavailable { maximum_height, requested_height: Some(h) })
        } else if h != signed_height {
            Err(CatalogError::SourceResolutionMismatch { signed_height, actual_height: h })
        } else {
            Ok(h)
        },
    }
}

pub fn validate_source_item_resolution(item: &JsonValue, signed_height: u16, policy: QualityPolicy) -> (r: Result<u16, CatalogError>)
    ensures
        r == checked_resolution(*item, signed_height, policy.maximum_height),
{
    let actual_height = match parse_u16_field(item, "resolution") {
        Ok(h) => h,
        Err(e) => return Err(e),
    };
    match policy.validate(actual_height) {
        Ok(_) => {},
        Err(e) => return Err(e),
    }
    if actual_height != signed_height {
        return Err(CatalogError::SourceResolutionMismatch { signed_height, actual_height });
    }
    Ok(actual_height)
}

/// Where a resolved source is fetched from.
#[derive(Debug, Clone)]
pub struct SourceLink {
    pub url: crate::urls::ParsedUrl,
    pub expected_size: Option<u64>,
    pub extension: String,
}

/// The link of the resource's entry: its height checked, its `resourceLink`
/// parsed, its announced size, and the extension its URL names (`mkv` when none).
pub fn resolve_source_item(payload: &JsonValue, resource_id: &str, signed_height: u16, policy: QualityPolicy) -> (r: Result<SourceLink, CatalogError>)
    ensures
        match source_item_index(*payload, resource_id@) {
            None => r == Err::<SourceLink, CatalogError>(CatalogError::NotFound("source")),
            Some(i) => {
                let item = list_of(*payload)->Some_0[i];
                match checked_resolution(item, signed_height, policy.maximum_height) {
                    Err(e) => r == Err::<SourceLink, CatalogError>(e),
                    Ok(_) => match required_text(item, "resourceLink") {
                        Err(e) => r == Err::<SourceLink, CatalogError>(e),
                        Ok(link) => match crate::urls::url_parse(link) {
                            None => r == Err::<SourceLink, CatalogError>(CatalogError::InvalidPayload("resourceLink")),
                            Some(u) => r matches Ok(l) && l.url@ == u && l.expected_size == (match u64_member(item, "sizeBytes"@) {
                                Some(n) => Some(n),
                                None => u64_member(item, "size"@),
                            }) && l.extension@ == extension_of(u.serialization, "mkv"@),
                        },
                    },
                }
            },
        },
{
    let item = match find_source_item(payload, resource_id) {
        Some(it) => it,
        None => return Err(CatalogError::NotFound("source")),
    };
    match validate_source_item_resolution(item, signed_height, policy) {
        Ok(_) => {},
        Err(e) => return Err(e),
    }
    let link = match string_field(item, "resourceLink") {
        Ok(t) => t,
        Err(e) => return Err(e),
    };
    let url = match crate::urls::parse_url(link) {
        Some(u) => u,
        None => return Err(CatalogError::InvalidPayload("resourceLink")),
    };
    let expected_size = match parse_optional_u64_field(item, "sizeBytes") {
        Some(n) => Some(n),
        None => parse_optional_u64_field(item, "size"),
    };
    let extension = parse_extension(url.serialization.as_str(), "mkv");
    Ok(SourceLink { url, expected_size, extension })
}

/// Where a resolved subtitle is fetched from.
#[derive(Debug, Clone)]
pub struct SubtitleLink {
    pub url: crate::urls::ParsedUrl,
    pub language: String,
    pub extension: String,
}

/// The caption at `index` of a captions answer: none when the answer lists no
/// captions, refused when there is no caption there or its URL is missing or
/// does not parse.
pub fn resolve_subtitle_from_payload(payload: &JsonValue, index: u16) -> (r: Result<Option<SubtitleLink>, CatalogError>)
    ensures
        match field(*payload, "extCaptions"@) {
            Some(c) if items_of(c) is Some => {
                let captions = items_of(c)->Some_0;
                if index >= captions.len() {
                    r == Err::<Option<SubtitleLink>, CatalogError>(CatalogError::NotFound("subtitle"))
                } else {
                    let caption = captions[index as int];
                    match required_text(caption, "url") {
                        Err(e) => r == Err::<Option<SubtitleLink>, CatalogError>(e),
                        Ok(text) => match crate::urls::url_parse(text) {
                            None => r == Err::<Option<SubtitleLink>, CatalogError>(CatalogError::InvalidPayload("url")),
                            Some(u) => r matches Ok(Some(l)) && l.url@ == u && l.language@ == caption_language(caption)
                                && l.extension@ == (match optional_text(caption, "format"@) {
                                    Some(f) => f,
                                    None => extension_of(u.serialization, "srt"@),
                                }),
                        },
                    }
                }
            },
            _ => r matches Ok(None),
        },
{
    let captions = match get(payload, "extCaptions") {
        Some(c) => match as_items(c) {
            Some(items) => items,
            None => return Ok(None),
        },
        None => return Ok(None),
    };
    if index as usize >= captions.len() {
        return Err(CatalogError::NotFound("subtitle"));
    }
    let caption = &captions[index as usize];
    let text = match string_field(caption, "url") {
        Ok(t) => t,
        Err(e) => return Err(e),
    };
    let url = match crate::urls::parse_url(text) {
        Some(u) => u,
        None => return Err(CatalogError::InvalidPayload("url")),
    };
    let language = match get_text(caption, "lanName") {
        Some(t) => {
            if chars_of(t).len() > 0 {
                owned(t)
            } else {
                owned("Unknown")
            }
        },
        None => owned("Unknown"),
    };
    let extension = match optional_string(caption, "format") {
        Some(f) => f,
        None => parse_extension(url.serialization.as_str(), "srt"),
    };
    Ok(Some(SubtitleLink { url, language, extension }))
}

/// The provider and subject a catalogue record names.
pub fn catalog_key(payload: &OpaquePayload) -> (r: Result<(String, String), CatalogError>)
    ensures
        match *payload {
            OpaquePayload::Catalog { provider, subject_id } => r == Ok::<(String, String), CatalogError>((provider, subject_id)),
            _ => r == Err::<(String, String), CatalogError>(CatalogError::InvalidOpaqueId),
        },
{
    match payload {
        OpaquePayload::Catalog { provider, subject_id } => Ok((provider.clone(), subject_id.clone())),
        _ => Err(CatalogError::InvalidOpaqueId),
    }
}

/// Only MovieBox records are served here.
pub fn ensure_moviebox_provider(provider: &str) -> (r: Result<(), CatalogError>)
    ensures
        provider@ == MOVIEBOX_PROVIDER@ ==> r is Ok,
        provider@ != MOVIEBOX_PROVIDER@ ==> (r matches Err(CatalogError::UnsupportedProvider(p)) && p@ == provider@),
{
    if crate::text::str_eq(provider, MOVIEBOX_PROVIDER) {
        Ok(())
    } else {
        Err(CatalogError::UnsupportedProvider(owned(provider)))
    }
}

/// Whether an object has the key.
pub open spec fn has_key(v: JsonValue, key: Seq<char>) -> bool {
    field(v, key) is Some
}

fn add_missing(pairs: &mut Vec<(String, JsonValue)>, key: &str, value: &str)
    ensures
        entry(old(pairs)@, key@) is Some ==> final(pairs)@ == old(pairs)@,
        entry(old(pairs)@, key@) is None ==> (entry(final(pairs)@, key@) matches Some(v) && text_of(v) == Some(
            value@,
        )),
        forall|k: Seq<char>| k != key@ ==> #[trigger] entry(final(pairs)@, k) == entry(old(pairs)@, k),
{
    let present = match crate::json::get_entry(pairs, key) {
        Some(_) => true,
        None => false,
    };
    if !present {
        let ghost before = pairs@;
        let item = (owned(key), JsonValue::String(owned(value)));
        pairs.push(item);
        proof {
            assert forall|k: Seq<char>| #[trigger] entry(pairs@, k) == (if k == key@ {
                Some(pairs@.last().1)
            } else {
                entry(before, k)
            }) by {
                crate::json::lemma_entry_push(before, pairs@.last(), k);
                assert(before.push(pairs@.last()) =~= pairs@);
            }
        }
    }
}

/// Fills in the subject of an object answer that does not name one.
pub fn ensure_object_with_subject_id(payload: JsonValue, subject_id: &str) -> (r: JsonValue)
    ensures
        payload is Object ==> r is Object && text_field(r, "subjectId"@) == (if has_key(payload, "subjectId"@) {
            text_field(payload, "subjectId"@)
        } else {
            Some(subject_id@)
        }),
        !(payload is Object) ==> r == payload,
{
    match payload {
        JsonValue::Object(mut pairs) => {
            add_missing(&mut pairs, "subjectId", subject_id);
            JsonValue::Object(pairs)
        },
        other => other,
    }
}

/// Fills in the subject and resource of an object answer that does not name them.
pub fn ensure_object_ids(payload: JsonValue, subject_id: &str, resource_id: &str) -> (r: JsonValue)
    ensures
        payload is Object ==> r is Object && text_field(r, "subjectId"@) == (if has_key(payload, "subjectId"@) {
            text_field(payload, "subjectId"@)
        } else {
            Some(subject_id@)
        }) && text_field(r, "resourceId"@) == (if has_key(payload, "resourceId"@) {
            text_field(payload, "resourceId"@)
        } else {
            Some(resource_id@)
        }),
        !(payload is Object) ==> r == payload,
{
    match payload {
        JsonValue::Object(mut pairs) => {
            add_missing(&mut pairs, "subjectId", subject_id);
            let ghost mid = pairs@;
            add_missing(&mut pairs, "resourceId", resource_id);
            proof {
                reveal_strlit("subjectId");
                reveal_strlit("resourceId");
                assert("subjectId"@[0] != "resourceId"@[0]);
                assert("subjectId"@ != "resourceId"@);
                assert(entry(pairs@, "subjectId"@) == entry(mid, "subjectId"@));
            }
            JsonValue::Object(pairs)
        },
        other => other,
    }
}

/// A member's items, or none when it is missing or not an array.
pub open spec fn member_items(v: JsonValue, key: Seq<char>) -> Seq<JsonValue> {
    match field(v, key) {
        Some(x) => match items_of(x) {
            Some(items) => items,
            None => seq![],
        },
        None => seq![],
    }
}

fn member_items_of<'a>(v: &'a JsonValue, key: &str, empty: &'a Vec<JsonValue>) -> (r: &'a Vec<JsonValue>)
    requires
        empty@.len() == 0,
    ensures
        r@ == member_items(*v, key@),
{
    match get(v, key) {
        Some(x) => match as_items(x) {
            Some(items) => items,
            None => empty,
        },
        None => empty,
    }
}

/// The seasons of a details answer: the entries of `seasons.seasons`.
pub open spec fn season_entries(payload: JsonValue) -> Seq<JsonValue> {
    match field(payload, "seasons"@) {
        Some(w) => member_items(w, "seasons"@),
        None => seq![],
    }
}

/// A season's number: its `se`, when it is a whole number that fits `u16`.
pub open spec fn season_number(season: JsonValue) -> Option<u16> {
    match field(season, "se"@) {
        Some(x) => match unsigned_of(x) {
            Some(n) => if n <= 65535 {
                Some(n as u16)
            } else {
                None
            },
            None => None,
        },
        None => None,
    }
}

/// The seasons that have a number, in order.
pub open spec fn numbered_seasons(ss: Seq<JsonValue>) -> Seq<JsonValue>
    decreases ss.len(),
{
    if ss.len() == 0 {
        seq![]
    } else {
        let rest = numbered_seasons(ss.drop_last());
        if season_number(ss.last()) is Some {
            rest.push(ss.last())
        } else {
            rest
        }
    }
}

/// The season read from an entry: its number and its episodes, untitled.
pub open spec fn read_season(s: crate::catalog::models::SeasonInfo, entry: JsonValue) -> bool {
    &&& Some(s.number) == season_number(entry)
    &&& s.episodes@.len() == episode_numbers(entry).len()
    &&& forall|k: int|
        0 <= k < s.episodes@.len() ==> (#[trigger] s.episodes@[k]).number == episode_numbers(entry)[k]
            && s.episodes@[k].title is None
}

pub fn parse_seasons(payload: &JsonValue) -> (r: Vec<crate::catalog::models::SeasonInfo>)
    ensures
        r@.len() == numbered_seasons(season_entries(*payload)).len(),
        forall|k: int| 0 <= k < r@.len() ==> read_season(#[trigger] r@[k], numbered_seasons(season_entries(*payload))[k]),
{
    let empty: Vec<JsonValue> = Vec::new();
    let seasons: &Vec<JsonValue> = match get(payload, "seasons") {
        Some(w) => member_items_of(w, "seasons", &empty),
        None => &empty,
    };
    assert(seasons@ == season_entries(*payload));
    let mut out: Vec<crate::catalog::models::SeasonInfo> = Vec::new();
    let mut i: usize = 0;
    while i < seasons.len()
        invariant
            i <= seasons@.len(),
            seasons@ == season_entries(*payload),
            out@.len() == numbered_seasons(seasons@.take(i as int)).len(),
            forall|k: int| 0 <= k < out@.len() ==> read_season(#[trigger] out@[k], numbered_seasons(seasons@.take(i as int))[k]),
        decreases seasons@.len() - i,
    {
        let ghost pre = seasons@.take(i + 1);
        assert(pre.drop_last() =~= seasons@.take(i as int));
        assert(pre.last() == seasons@[i as int]);
        let ghost before = numbered_seasons(seasons@.take(i as int));
        let season = &seasons[i];
        let number: Option<u16> = match get(season, "se") {
            Some(x) => match as_unsigned(x) {
                Some(n) => {
                    if n <= 65535 {
                        Some(n as u16)
                    } else {
                        None
                    }
                },
                None => None,
            },
            None => None,
        };
        match number {
            Some(n) => {
                let numbers = parse_episode_numbers(season);
                let mut episodes: Vec<crate::catalog::models::EpisodeInfo> = Vec::new();
                let mut j: usize = 0;
                while j < numbers.len()
                    invariant
                        j <= numbers@.len(),
                        episodes@.len() == j,
                        forall|k: int| 0 <= k < j ==> (#[trigger] episodes@[k]).number == numbers@[k] && episodes@[k].title is None,
                    decreases numbers@.len() - j,
                {
                    episodes.push(crate::catalog::models::EpisodeInfo { number: numbers[j], title: None });
                    j = j + 1;
                }
                out.push(crate::catalog::models::SeasonInfo { number: n, episodes });
                assert(numbered_seasons(pre) == before.push(seasons@[i as int]));
                assert forall|k: int| 0 <= k < out@.len() implies read_season(#[trigger] out@[k], numbered_seasons(pre)[k]) by {
                    if k < before.len() {
                        assert(numbered_seasons(pre)[k] == before[k]);
                    }
                }
            },
            None => {
                assert(numbered_seasons(pre) == before);
            },
        }
        i = i + 1;
    }
    assert(seasons@.take(seasons@.len() as int) =~= seasons@);
    out
}

/// An audio track before its identifier is signed.
#[derive(Debug, Clone, PartialEq, Eq)]
pub struct AudioDraft {
    pub key: OpaquePayload,
    pub label: String,
    pub original: bool,
}

/// The dubs that name their subject, in order.
pub open spec fn named_dubs(ds: Seq<JsonValue>) -> Seq<JsonValue>
    decreases ds.len(),
{
    if ds.len() == 0 {
        seq![]
    } else {
        let rest = named_dubs(ds.drop_last());
        if text_field(ds.last(), "subjectId"@) is Some {
            rest.push(ds.last())
        } else {
            rest
        }
    }
}

/// The audio track read from a dub: the subject it plays, its language (or
/// `Unknown`), and whether that is the original.
pub open spec fn read_dub(a: AudioDraft, dub: JsonValue) -> bool {
    &&& a.key matches OpaquePayload::Catalog { provider, subject_id } && provider@ == MOVIEBOX_PROVIDER@
        && Some(subject_id@) == text_field(dub, "subjectId"@)
    &&& a.label@ == caption_language(dub)
    &&& a.original == (lower_seq(caption_language(dub)) == "original"@)
}

pub fn parse_audio_options(payload: &JsonValue) -> (r: Vec<AudioDraft>)
    ensures
        r@.len() == named_dubs(member_items(*payload, "dubs"@)).len(),
        forall|k: int| 0 <= k < r@.len() ==> read_dub(#[trigger] r@[k], named_dubs(member_items(*payload, "dubs"@))[k]),
{
    let empty: Vec<JsonValue> = Vec::new();
    let dubs = member_items_of(payload, "dubs", &empty);
    let mut out: Vec<AudioDraft> = Vec::new();
    let mut i: usize = 0;
    let original = chars_of("original");
    while i < dubs.len()
        invariant
            i <= dubs@.len(),
            dubs@ == member_items(*payload, "dubs"@),
            original@ == "original"@,
            out@.len() == named_dubs(dubs@.take(i as int)).len(),
            forall|k: int| 0 <= k < out@.len() ==> read_dub(#[trigger] out@[k], named_dubs(dubs@.take(i as int))[k]),
        decreases dubs@.len() - i,
    {
        let ghost pre = dubs@.take(i + 1);
        assert(pre.drop_last() =~= dubs@.take(i as int));
        assert(pre.last() == dubs@[i as int]);
        let ghost before = named_dubs(dubs@.take(i as int));
        let dub = &dubs[i];
        match get_text(dub, "subjectId") {
            Some(subject) => {
                let label = match get_text(dub, "lanName") {
                    Some(t) => {
                        if chars_of(t).len() > 0 {
                            owned(t)
                        } else {
                            owned("Unknown")
                        }
                    },
                    None => owned("Unknown"),
                };
                let lowered = crate::text::lower_chars(chars_of(label.as_str()).as_slice());
                let is_original = crate::text::chars_eq(lowered.as_slice(), original.as_slice());
                out.push(AudioDraft {
                    key: OpaquePayload::Catalog { provider: owned(MOVIEBOX_PROVIDER), subject_id: owned(subject) },
                    label,
                    original: is_original,
                });
                assert(named_dubs(pre) == before.push(dubs@[i as int]));
                assert forall|k: int| 0 <= k < out@.len() implies read_dub(#[trigger] out@[k], named_dubs(pre)[k]) by {
                    if k < before.len() {
                        assert(named_dubs(pre)[k] == before[k]);
                    }
                }
            },
            None => {
                assert(named_dubs(pre) == before);
            },
        }
        i = i + 1;
    }
    assert(dubs@.take(dubs@.len() as int) =~= dubs@);
    out
}

/// A search result before its identifier is signed; the title is the provider's.
#[derive(Debug, Clone, PartialEq, Eq)]
pub struct CatalogItemDraft {
    pub key: OpaquePayload,
    pub title: String,
    pub media_type: MediaType,
    pub year: Option<String>,
    pub season_count: Option<u16>,
}

#[derive(Debug, Clone, PartialEq, Eq)]
pub struct SearchPageDraft {
    pub page: u32,
    pub items: Vec<CatalogItemDraft>,
    pub has_more: bool,
}

/// The subjects that name their id and title, in order.
pub open spec fn listed_subjects(ss: Seq<JsonValue>) -> Seq<JsonValue>
    decreases ss.len(),
{
    if ss.len() == 0 {
        seq![]
    } else {
        let rest = listed_subjects(ss.drop_last());
        if text_field(ss.last(), "subjectId"@) is Some && text_field(ss.last(), "title"@) is Some {
            rest.push(ss.last())
        } else {
            rest
        }
    }
}

/// The kind of a subject: its `subjectType`, zero when missing.
pub open spec fn subject_kind(v: JsonValue) -> MediaType {
    let t: i64 = match field(v, "subjectType"@) {
        Some(x) => match signed_of(x) {
            Some(n) => n,
            None => 0,
        },
        None => 0,
    };
    if t == 2 {
        MediaType::Series
    } else {
        MediaType::Movie
    }
}

pub open spec fn read_subject(d: CatalogItemDraft, subject: JsonValue) -> bool {
    &&& d.key matches OpaquePayload::Catalog { provider, subject_id } && provider@ == MOVIEBOX_PROVIDER@
        && Some(subject_id@) == text_field(subject, "subjectId"@)
    &&& Some(d.title@) == text_field(subject, "title"@)
    &&& d.media_type == subject_kind(subject)
    &&& opt_text(d.year) == year_of(subject)
    &&& d.season_count == season_count_of(subject)
}

/// The number of seasons a subject announces.
pub open spec fn season_count_of(v: JsonValue) -> Option<u16> {
    match field(v, "season"@) {
        Some(x) => match unsigned_of(x) {
            Some(n) => if n <= 65535 {
                Some(n as u16)
            } else {
                None
            },
            None => None,
        },
        None => None,
    }
}

fn subject_kind_of(v: &JsonValue) -> (r: MediaType)
    ensures
        r == subject_kind(*v),
{
    let t: i64 = match get(v, "subjectType") {
        Some(x) => match as_signed(x) {
            Some(n) => n,
            None => 0,
        },
        None => 0,
    };
    media_type_from_value(t)
}

/// A page of search results: the subjects of the first result group that name
/// their id and title, and whether the pager says more follow.
pub fn adapt_search_page(payload: &JsonValue, page: u32) -> (r: Result<SearchPageDraft, CatalogError>)
    ensures
        match subjects_of(*payload) {
            None => r == Err::<SearchPageDraft, CatalogError>(CatalogError::InvalidPayload("results[0].subjects")),
            Some(ss) => r matches Ok(p) && p.page == page && p.has_more == has_more_of(*payload)
                && p.items@.len() == listed_subjects(ss).len() && forall|k: int|
                0 <= k < p.items@.len() ==> read_subject(#[trigger] p.items@[k], listed_subjects(ss)[k]),
        },
{
    let subjects = match extract_subjects(payload) {
        Ok(v) => v,
        Err(e) => return Err(e),
    };
    let mut items: Vec<CatalogItemDraft> = Vec::new();
    let mut i: usize = 0;
    while i < subjects.len()
        invariant
            i <= subjects@.len(),
            subjects_of(*payload) == Some(subjects@),
            items@.len() == listed_subjects(subjects@.take(i as int)).len(),
            forall|k: int| 0 <= k < items@.len() ==> read_subject(#[trigger] items@[k], listed_subjects(subjects@.take(i as int))[k]),
        decreases subjects@.len() - i,
    {
        let ghost pre = subjects@.take(i + 1);
        assert(pre.drop_last() =~= subjects@.take(i as int));
        assert(pre.last() == subjects@[i as int]);
        let ghost before = listed_subjects(subjects@.take(i as int));
        let subject = &subjects[i];
        match (get_text(subject, "subjectId"), get_text(subject, "title")) {
            (Some(id), Some(title)) => {
                let season_count: Option<u16> = match get(subject, "season") {
                    Some(x) => match as_unsigned(x) {
                        Some(n) => {
                            if n <= 65535 {
                                Some(n as u16)
                            } else {
                                None
                            }
                        },
                        None => None,
                    },
                    None => None,
                };
                items.push(CatalogItemDraft {
                    key: OpaquePayload::Catalog { provider: owned(MOVIEBOX_PROVIDER), subject_id: owned(id) },
                    title: owned(title),
                    media_type: subject_kind_of(subject),
                    year: optional_year(subject),
                    season_count,
                });
                assert(listed_subjects(pre) == before.push(subjects@[i as int]));
                assert forall|k: int| 0 <= k < items@.len() implies read_subject(#[trigger] items@[k], listed_subjects(pre)[k]) by {
                    if k < before.len() {
                        assert(listed_subjects(pre)[k] == before[k]);
                    }
                }
            },
            _ => {
                assert(listed_subjects(pre) == before);
            },
        }
        i = i + 1;
    }
    assert(subjects@.take(subjects@.len() as int) =~= subjects@);
    Ok(SearchPageDraft { page, items, has_more: search_has_more(payload) })
}

/// The text items of an array member, in order.
pub open spec fn texts(items: Seq<JsonValue>) -> Seq<Seq<char>>
    decreases items.len(),
{
    if items.len() == 0 {
        seq![]
    } else {
        let rest = texts(items.drop_last());
        match text_of(items.last()) {
            Some(t) => rest.push(t),
            None => rest,
        }
    }
}

fn text_items(items: &Vec<JsonValue>) -> (r: Vec<String>)
    ensures
        r@.map_values(|s: String| s@) == texts(items@),
{
    let mut out: Vec<String> = Vec::new();
    let mut i: usize = 0;
    while i < items.len()
        invariant
            i <= items@.len(),
            out@.map_values(|s: String| s@) == texts(items@.take(i as int)),
        decreases items@.len() - i,
    {
        let ghost pre = items@.take(i + 1);
        assert(pre.drop_last() =~= items@.take(i as int));
        assert(pre.last() == items@[i as int]);
        let ghost before = out@;
        match as_text(&items[i]) {
            Some(t) => {
                out.push(owned(t));
                assert(out@.map_values(|s: String| s@) =~= before.map_values(|s: String| s@).push(t@));
            },
            None => {},
        }
        i = i + 1;
    }
    assert(items@.take(items@.len() as int) =~= items@);
    out
}

/// A title's details before its identifiers are signed; the title is the provider's.
#[derive(Debug, Clone, PartialEq, Eq)]
pub struct DetailsDraft {
    pub key: OpaquePayload,
    pub title: String,
    pub media_type: MediaType,
    pub year: Option<String>,
    pub description: Option<String>,
    pub tagline: Option<String>,
    pub imdb_rating: Option<String>,
    pub duration: Option<String>,
    pub genres: Vec<String>,
    pub country: Option<String>,
    pub seasons: Vec<crate::catalog::models::SeasonInfo>,
    pub audio_options: Vec<AudioDraft>,
}

/// The details of a title: it must name its subject and title; the rest is
/// read where present.
pub fn adapt_details(payload: &JsonValue) -> (r: Result<DetailsDraft, CatalogError>)
    ensures
        match required_text(*payload, "subjectId") {
            Err(e) => r == Err::<DetailsDraft, CatalogError>(e),
            Ok(subject) => match required_text(*payload, "title") {
                Err(e) => r == Err::<DetailsDraft, CatalogError>(e),
                Ok(title) => r matches Ok(d) && (d.key matches OpaquePayload::Catalog { provider, subject_id }
                    && provider@ == MOVIEBOX_PROVIDER@ && subject_id@ == subject) && d.title@ == title
                    && d.media_type == subject_kind(*payload) && opt_text(d.year) == year_of(*payload)
                    && opt_text(d.description) == optional_text(*payload, "description"@)
                    && opt_text(d.tagline) == optional_text(*payload, "tagline"@)
                    && opt_text(d.imdb_rating) == optional_text(*payload, "imdbRatingValue"@)
                    && opt_text(d.duration) == optional_text(*payload, "duration"@)
                    && d.genres@.map_values(|s: String| s@) == texts(member_items(*payload, "genre"@))
                    && opt_text(d.country) == optional_text(*payload, "countryName"@)
                    && d.seasons@.len() == numbered_seasons(season_entries(*payload)).len()
                    && (forall|k: int| 0 <= k < d.seasons@.len() ==> read_season(#[trigger] d.seasons@[k], numbered_seasons(season_entries(*payload))[k]))
                    && d.audio_options@.len() == named_dubs(member_items(*payload, "dubs"@)).len()
                    && (forall|k: int| 0 <= k < d.audio_options@.len() ==> read_dub(#[trigger] d.audio_options@[k], named_dubs(member_items(*payload, "dubs"@))[k])),
            },
        },
{
    let subject = match string_field(payload, "subjectId") {
        Ok(s) => s,
        Err(e) => return Err(e),
    };
    let title = match string_field(payload, "title") {
        Ok(t) => t,
        Err(e) => return Err(e),
    };
    let empty: Vec<JsonValue> = Vec::new();
    let genres = text_items(member_items_of(payload, "genre", &empty));
    Ok(DetailsDraft {
        key: OpaquePayload::Catalog { provider: owned(MOVIEBOX_PROVIDER), subject_id: owned(subject) },
        title: owned(title),
        media_type: subject_kind_of(payload),
        year: optional_year(payload),
        description: optional_string(payload, "description"),
        tagline: optional_string(payload, "tagline"),
        imdb_rating: optional_string(payload, "imdbRatingValue"),
        duration: optional_string(payload, "duration"),
        genres,
        country: optional_string(payload, "countryName"),
        seasons: parse_seasons(payload),
        audio_options: parse_audio_options(payload),
    })
}

impl CatalogItemDraft {
    /// The entry, once its record is signed into `id`.
    pub fn with_id(self, id: crate::catalog::models::CatalogId) -> (r: crate::catalog::models::CatalogItem)
        ensures
            r.id == id,
            r.title == self.title,
            r.media_type == self.media_type,
            r.year == self.year,
            r.season_count == self.season_count,
    {
        crate::catalog::models::CatalogItem {
            id,
            title: self.title,
            media_type: self.media_type,
            year: self.year,
            season_count: self.season_count,
        }
    }
}

impl AudioDraft {
    pub fn with_id(self, id: crate::catalog::models::CatalogId) -> (r: crate::catalog::models::AudioOption)
        ensures
            r.id == id,
            r.label == self.label,
            r.original == self.original,
    {
        crate::catalog::models::AudioOption { id, label: self.label, original: self.original }
    }
}

impl SubtitleDraft {
    pub fn with_id(self, id: crate::catalog::models::SubtitleId) -> (r: crate::catalog::models::SubtitleTrack)
        ensures
            r.id == id,
            r.language == self.language,
            r.format == self.format,
    {
        crate::catalog::models::SubtitleTrack { id, language: self.language, format: self.format }
    }
}

/// A decoded source record: provider, subject, resource, season, episode,
/// height and language.
pub type SourceKey = (String, String, String, Option<u16>, Option<u16>, u16, Option<String>);

/// The parts of a source record, or `InvalidOpaqueId` for another kind of record.
pub fn source_key(payload: OpaquePayload) -> (r: Result<SourceKey, CatalogError>)
    ensures
        match payload {
            OpaquePayload::Source { provider, subject_id, resource_id, season, episode, height, language } => r
                == Ok::<SourceKey, CatalogError>((provider, subject_id, resource_id, season, episode, height, language)),
            _ => r == Err::<SourceKey, CatalogError>(CatalogError::InvalidOpaqueId),
        },
{
    match payload {
        OpaquePayload::Source { provider, subject_id, resource_id, season, episode, height, language } => Ok(
            (provider, subject_id, resource_id, season, episode, height, language),
        ),
        _ => Err(CatalogError::InvalidOpaqueId),
    }
}

/// A decoded subtitle record: provider, subject, resource, index, language and format.
pub type SubtitleKey = (String, String, String, u16, String, Option<String>);

pub fn subtitle_key(payload: OpaquePayload) -> (r: Result<SubtitleKey, CatalogError>)
    ensures
        match payload {
            OpaquePayload::Subtitle { provider, subject_id, resource_id, index, language, format } => r
                == Ok::<SubtitleKey, CatalogError>((provider, subject_id, resource_id, index, language, format)),
            _ => r == Err::<SubtitleKey, CatalogError>(CatalogError::InvalidOpaqueId),
        },
{
    match payload {
        OpaquePayload::Subtitle { provider, subject_id, resource_id, index, language, format } => Ok(
            (provider, subject_id, resource_id, index, language, format),
        ),
        _ => Err(CatalogError::InvalidOpaqueId),
    }
}

/// A subtitle may only be resolved with the source it was offered for.
pub fn check_subtitle_source(subtitle: &SubtitleKey, subject_id: &str, resource_id: &str) -> (r: Result<(), CatalogError>)
    ensures
        r is Ok <==> (subtitle.1@ == subject_id@ && subtitle.2@ == resource_id@),
        r matches Err(e) ==> e == CatalogError::InvalidOpaqueId,
{
    if !crate::text::str_eq(subtitle.1.as_str(), subject_id) || !crate::text::str_eq(subtitle.2.as_str(), resource_id) {
        return Err(CatalogError::InvalidOpaqueId);
    }
    Ok(())
}

} // verus!

//! Catalogue records and the signed opaque identifiers handed to clients.

use base64::Engine;
use hmac::{KeyInit, Mac};
use vstd::prelude::*;

use crate::catalog::quality::QualityTier;
use crate::text::{chars_of, push_char, push_str};

verus! {

#[derive(Debug, Clone, Copy, PartialEq, Eq, Structural)]
pub enum MediaType {
    Movie,
    Series,
}

#[derive(Debug, Clone, PartialEq, Eq, Hash)]
pub struct CatalogId(pub String);

impl CatalogId {
    pub fn new(value: String) -> (r: Self)
        ensures
            r.0 == value,
    {
        CatalogId(value)
    }

    pub fn as_str(&self) -> (r: &str)
        ensures
            r@ == self.0@,
    {
        self.0.as_str()
    }
}

#[derive(Debug, Clone, PartialEq, Eq, Hash)]
pub struct SourceId(pub String);

impl SourceId {
    pub fn new(value: String) -> (r: Self)
        ensures
            r.0 == value,
    {
        SourceId(value)
    }

    pub fn as_str(&self) -> (r: &str)
        ensures
            r@ == self.0@,
    {
        self.0.as_str()
    }

    /// A copy of the identifier.
    pub fn duplicate(&self) -> (r: Self)
        ensures
            r == *self,
    {
        SourceId(self.0.clone())
    }
}

#[derive(Debug, Clone, PartialEq, Eq, Hash)]
pub struct SubtitleId(pub String);

impl SubtitleId {
    pub fn new(value: String) -> (r: Self)
        ensures
            r.0 == value,
    {
        SubtitleId(value)
    }

    pub fn as_str(&self) -> (r: &str)
        ensures
            r@ == self.0@,
    {
        self.0.as_str()
    }
}

#[derive(Debug, Clone, PartialEq, Eq)]
pub struct SearchPage {
    pub page: u32,
    pub items: Vec<CatalogItem>,
    pub has_more: bool,
}

#[derive(Debug, Clone, PartialEq, Eq)]
pub struct CatalogItem {
    pub id: CatalogId,
    pub title: String,
    pub media_type: MediaType,
    pub year: Option<String>,
    pub season_count: Option<u16>,
}

#[derive(Debug, Clone, PartialEq, Eq)]
pub struct EpisodeInfo {
    pub number: u16,
    pub title: Option<String>,
}

#[derive(Debug, Clone, PartialEq, Eq)]
pub struct SeasonInfo {
    pub number: u16,
    pub episodes: Vec<EpisodeInfo>,
}

#[derive(Debug, Clone, PartialEq, Eq)]
pub struct AudioOption {
    pub id: CatalogId,
    pub label: String,
    pub original: bool,
}

#[derive(Debug, Clone, PartialEq, Eq)]
pub struct CatalogDetails {
    pub id: CatalogId,
    pub title: String,
    pub media_type: MediaType,
    pub year: Option<String>,
    pub description: Option<String>,
    pub tagline: Option<String>,
    pub imdb_rating: Option<String>,
    pub duration: Option<String>,
    pub genres: Vec<String>,
    pub country: Option<String>,
    pub seasons: Vec<SeasonInfo>,
    pub audio_options: Vec<AudioOption>,
}

#[derive(Debug, Clone, PartialEq, Eq)]
pub struct SourceOption {
    pub id: SourceId,
    pub height: u16,
    pub label: String,
    pub size_bytes: Option<u64>,
    pub language: Option<String>,
    pub recommended: bool,
    pub quality: QualityTier,
}

/// A copy of an optional string.
pub fn duplicate_text(value: &Option<String>) -> (r: Option<String>)
    ensures
        r == *value,
{
    match value {
        Some(text) => Some(text.clone()),
        None => None,
    }
}

impl SourceOption {
    /// A copy of the option with the same fields.
    pub fn duplicate(&self) -> (r: Self)
        ensures
            r == *self,
    {
        SourceOption {
            id: self.id.duplicate(),
            height: self.height,
            label: self.label.clone(),
            size_bytes: self.size_bytes,
            language: duplicate_text(&self.language),
            recommended: self.recommended,
            quality: self.quality,
        }
    }
}

#[derive(Debug, Clone, PartialEq, Eq)]
pub struct SubtitleTrack {
    pub id: SubtitleId,
    pub language: String,
    pub format: Option<String>,
}

#[derive(Debug, Clone, PartialEq, Eq)]
pub struct EpisodeRequest {
    pub catalog_id: CatalogId,
    pub season: Option<u16>,
    pub episode: Option<u16>,
}

#[derive(Debug, Clone, PartialEq, Eq)]
pub enum CatalogError {
    InvalidPayload(&'static str),
    UnsupportedProvider(String),
    Provider(String),
    NotFound(&'static str),
    InvalidOpaqueId,
    OpaqueIdVerificationFailed,
    SourceResolutionMismatch { signed_height: u16, actual_height: u16 },
    QualityUnavailable { maximum_height: u16, requested_height: Option<u16> },
}

#[derive(Debug, Clone, Copy, PartialEq, Eq, Structural)]
pub struct QualityPolicy {
    pub maximum_height: u16,
}

impl QualityPolicy {
    pub fn new(maximum_height: u16) -> (r: Self)
        ensures
            r.maximum_height == maximum_height,
    {
        QualityPolicy { maximum_height }
    }

    pub fn maximum_height(&self) -> (r: u16)
        ensures
            r == self.maximum_height,
    {
        self.maximum_height
    }

    /// Accepts a height at or below the ceiling.
    pub fn validate(&self, height: u16) -> (r: Result<(), CatalogError>)
        ensures
            r is Ok <==> height <= self.maximum_height,
            r is Err ==> r == Err::<(), CatalogError>(
                CatalogError::QualityUnavailable {
                    maximum_height: self.maximum_height,
                    requested_height: Some(height),
                },
            ),
    {
        if height > self.maximum_height {
            return Err(
                CatalogError::QualityUnavailable {
                    maximum_height: self.maximum_height,
                    requested_height: Some(height),
                },
            );
        }
        Ok(())
    }
}

/// What an opaque identifier stands for: a catalogue entry, a source or a
/// subtitle of a provider. Its JSON form is what the codec signs.
#[derive(Debug, Clone, PartialEq, Eq)]
pub enum OpaquePayload {
    Catalog { provider: String, subject_id: String },
    Source {
        provider: String,
        subject_id: String,
        resource_id: String,
        season: Option<u16>,
        episode: Option<u16>,
        height: u16,
        language: Option<String>,
    },
    Subtitle {
        provider: String,
        subject_id: String,
        resource_id: String,
        index: u16,
        language: String,
        format: Option<String>,
    },
}

/// URL-safe base64 without padding, as `base64`'s `URL_SAFE_NO_PAD` engine writes it.
pub uninterp spec fn base64_url_text(bytes: Seq<u8>) -> Seq<char>;

/// What `URL_SAFE_NO_PAD` decodes from a text, `None` where it refuses the text.
pub uninterp spec fn base64_url_bytes(text: Seq<char>) -> Option<Seq<u8>>;

/// HMAC-SHA256 of a message under a key, as `hmac` computes it.
pub uninterp spec fn hmac_sha256_tag(key: Seq<u8>, message: Seq<u8>) -> Seq<u8>;

/// The URL-safe base64 alphabet.
pub open spec fn base64_url_char(c: char) -> bool {
    ('A' <= c && c <= 'Z') || ('a' <= c && c <= 'z') || ('0' <= c && c <= '9') || c == '-' || c
        == '_'
}

/// `URL_SAFE_NO_PAD.encode`: the text uses only the URL-safe alphabet and decodes back.
#[verifier::external_body]
pub(crate) fn encode_base64_url(bytes: &[u8]) -> (r: String)
    ensures
        r@ == base64_url_text(bytes@),
        forall|i: int| 0 <= i < r@.len() ==> #[trigger] base64_url_char(r@[i]),
        base64_url_bytes(r@) == Some(bytes@),
{
    base64::engine::general_purpose::URL_SAFE_NO_PAD.encode(bytes)
}

/// `URL_SAFE_NO_PAD.decode`.
#[verifier::external_body]
fn decode_base64_url(text: &str) -> (r: Option<Vec<u8>>)
    ensures
        r matches Some(v) ==> base64_url_bytes(text@) == Some(v@),
        r is None ==> base64_url_bytes(text@) is None,
{
    base64::engine::general_purpose::URL_SAFE_NO_PAD.decode(text).ok()
}

/// `Hmac::<Sha256>` over the message, finalized to its tag bytes.
#[verifier::external_body]
pub(crate) fn hmac_sha256(key: &[u8], message: &[u8]) -> (r: Vec<u8>)
    ensures
        r@ == hmac_sha256_tag(key@, message@),
{
    let mut mac = <hmac::Hmac<sha2::Sha256> as KeyInit>::new_from_slice(key).unwrap();
    mac.update(message);
    mac.finalize().into_bytes().to_vec()
}

/// `Mac::verify_slice`: whether the tag is the HMAC-SHA256 tag of the message.
#[verifier::external_body]
fn hmac_sha256_verify(key: &[u8], message: &[u8], tag: &[u8]) -> (r: bool)
    ensures
        r == (tag@ == hmac_sha256_tag(key@, message@)),
{
    let mut mac = <hmac::Hmac<sha2::Sha256> as KeyInit>::new_from_slice(key).unwrap();
    mac.update(message);
    mac.verify_slice(tag).is_ok()
}

/// The identifier text for a payload: its base64 form, a dot, and the base64 form of its tag.
pub open spec fn opaque_text(secret: Seq<u8>, payload: Seq<u8>) -> Seq<char> {
    base64_url_text(payload) + seq!['.'] + base64_url_text(hmac_sha256_tag(secret, payload))
}

/// The outcome of reading an identifier: split at the first dot, decode both halves,
/// check the tag, and hand back the payload bytes.
pub open spec fn opaque_payload(secret: Seq<u8>, value: Seq<char>) -> Result<
    Seq<u8>,
    CatalogError,
> {
    if !value.contains('.') {
        Err(CatalogError::InvalidOpaqueId)
    } else {
        let dot = choose|i: int| 0 <= i < value.len() && value[i] == '.' && forall|j: int|
            0 <= j < i ==> value[j] != '.';
        match (
            base64_url_bytes(value.subrange(0, dot)),
            base64_url_bytes(value.subrange(dot + 1, value.len() as int)),
        ) {
            (Some(payload), Some(tag)) => if tag == hmac_sha256_tag(secret, payload) {
                Ok(payload)
            } else {
                Err(CatalogError::OpaqueIdVerificationFailed)
            },
            _ => Err(CatalogError::InvalidOpaqueId),
        }
    }
}

/// The position of the first dot.
fn first_dot(v: &[char]) -> (r: Option<usize>)
    ensures
        r matches Some(i) ==> i < v@.len() && v@[i as int] == '.' && forall|j: int|
            0 <= j < i ==> v@[j] != '.',
        r is None ==> !v@.contains('.'),
{
    let mut i: usize = 0;
    while i < v.len()
        invariant
            i <= v@.len(),
            forall|j: int| 0 <= j < i ==> v@[j] != '.',
        decreases v@.len() - i,
    {
        if v[i] == '.' {
            return Some(i);
        }
        i = i + 1;
    }
    None
}

/// Signs and verifies the opaque identifiers that stand for provider records.
#[derive(Debug, Clone)]
pub struct OpaqueIdCodec {
    pub secret: [u8; 32],
}

impl OpaqueIdCodec {
    pub fn new(secret: [u8; 32]) -> (r: Self)
        ensures
            r.secret == secret,
    {
        OpaqueIdCodec { secret }
    }

    /// The identifier for the serialized payload.
    ///
    /// Reading the identifier back with `decode` gives back exactly these bytes.
    pub fn encode(&self, payload: &[u8]) -> (r: String)
        ensures
            r@ == opaque_text(self.secret@, payload@),
            opaque_payload(self.secret@, r@) == Ok::<Seq<u8>, CatalogError>(payload@),
    {
        let tag = hmac_sha256(self.secret.as_slice(), payload);
        let mut r = encode_base64_url(payload);
        let ghost head = r@;
        push_char(&mut r, '.');
        let tail = encode_base64_url(tag.as_slice());
        push_str(&mut r, tail.as_str());
        proof {
            let text = r@;
            let n = head.len() as int;
            assert(text =~= opaque_text(self.secret@, payload@));
            assert(text[n] == '.');
            assert(text.contains('.'));
            assert forall|j: int| 0 <= j < n implies text[j] != '.' by {
                assert(text[j] == head[j]);
                assert(base64_url_char(head[j]));
            }
            let d = choose|i: int| 0 <= i < text.len() && text[i] == '.' && forall|j: int|
                0 <= j < i ==> text[j] != '.';
            assert(d == n) by {
                if d < n {
                    assert(text[d] == head[d]);
                    assert(base64_url_char(head[d]));
                }
            }
            assert(text.subrange(0, n) =~= head);
            assert(text.subrange(n + 1, text.len() as int) =~= tail@);
        }
        r
    }

    /// The serialized payload that an identifier stands for, once its tag is checked.
    pub fn decode(&self, value: &str) -> (r: Result<Vec<u8>, CatalogError>)
        ensures
            r matches Ok(v) ==> opaque_payload(self.secret@, value@) == Ok::<
                Seq<u8>,
                CatalogError,
            >(v@),
            r matches Err(e) ==> opaque_payload(self.secret@, value@) == Err::<
                Seq<u8>,
                CatalogError,
            >(e),
    {
        let chars = chars_of(value);
        let dot = match first_dot(chars.as_slice()) {
            Some(i) => i,
            None => return Err(CatalogError::InvalidOpaqueId),
        };
        assert(dot < chars.len());
        proof {
            let d = choose|i: int| 0 <= i < value@.len() && value@[i] == '.' && forall|j: int|
                0 <= j < i ==> value@[j] != '.';
            assert(d == dot as int) by {
                if d < dot as int {
                    assert(chars@[d] != '.');
                }
                if d > dot as int {
                    assert(value@[dot as int] == '.');
                }
            }
        }
        let head = crate::text::string_of(crate::text::slice_chars(chars.as_slice(), 0, dot).as_slice());
        let rest = crate::text::string_of(
            crate::text::slice_chars(chars.as_slice(), dot + 1, chars.len()).as_slice(),
        );
        let payload = match decode_base64_url(head.as_str()) {
            Some(bytes) => bytes,
            None => return Err(CatalogError::InvalidOpaqueId),
        };
        let tag = match decode_base64_url(rest.as_str()) {
            Some(bytes) => bytes,
            None => return Err(CatalogError::InvalidOpaqueId),
        };
        if !hmac_sha256_verify(self.secret.as_slice(), payload.as_slice(), tag.as_slice()) {
            return Err(CatalogError::OpaqueIdVerificationFailed);
        }
        Ok(payload)
    }
}

} // verus!

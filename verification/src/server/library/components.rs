//! Making catalogue text safe to use as one path component.
//!
//! Text is first put in canonical composition (NFC) and cut by grapheme clusters;
//! both come from the Unicode crates and are named here, not restated. Everything
//! done with their results is stated and proved: separator and invisible
//! characters, runs of spaces and dots, reserved device names, and the limits on
//! clusters and on UTF-8 bytes.

use unicode_normalization::UnicodeNormalization;
use unicode_segmentation::UnicodeSegmentation;
use vstd::prelude::*;

use crate::text::{
    all_digits, byte_len, byte_len_of, char_is_control, char_is_ws, char_upper, char_utf8_len,
    chars_of, concat_chars, is_ascii_digit, is_control, is_ws, lemma_byte_len_concat,
    slice_chars, upper_seq, utf8_len,
};

verus! {

pub const MAX_COMPONENT_GRAPHEMES: usize = 120;

pub const MAX_COMPONENT_BYTES: usize = 255;

pub const MAX_LANGUAGE_GRAPHEMES: usize = 48;

pub const MAX_LANGUAGE_BYTES: usize = 128;

pub const MAX_SUPPORTED_SUBTITLE_EXTENSION_BYTES: usize = 3;

/// The canonical composition (Unicode NFC) of a text.
pub uninterp spec fn nfc_form(s: Seq<char>) -> Seq<char>;

/// The extended grapheme clusters of a text, in order.
pub uninterp spec fn grapheme_clusters(s: Seq<char>) -> Seq<Seq<char>>;

/// ASCII text: every character below U+0080.
pub open spec fn ascii_text(s: Seq<char>) -> bool {
    forall|i: int| 0 <= i < s.len() ==> (#[trigger] s[i] as u32) < 0x80
}

/// `UnicodeNormalization::nfc`, collected into a string; its result is named, not
/// restated. One fact of Unicode normalization is stated: ASCII characters have
/// no decomposition and combine with nothing, so ASCII text is its own NFC form.
#[verifier::external_body]
fn nfc(s: &str) -> (r: String)
    ensures
        r@ == nfc_form(s@),
        ascii_text(s@) ==> r@ == s@,
{
    s.nfc().collect::<String>()
}

/// `UnicodeSegmentation::graphemes` with extended clusters, each cluster as an
/// owned string; the clusters are named, not restated. One fact of the
/// segmentation rules is stated: in ASCII text without a carriage return, which
/// alone joins the line feed after it, every character is a cluster of its own.
#[verifier::external_body]
fn graphemes(s: &str) -> (r: Vec<String>)
    ensures
        r@.len() == grapheme_clusters(s@).len(),
        forall|i: int| 0 <= i < r@.len() ==> #[trigger] r@[i]@ == grapheme_clusters(s@)[i],
        ascii_text(s@) && !s@.contains('\r') ==> r@.len() == s@.len() && forall|i: int|
            0 <= i < r@.len() ==> #[trigger] r@[i]@ == seq![s@[i]],
{
    UnicodeSegmentation::graphemes(s, true).map(String::from).collect()
}

/// The NFC form of a character sequence.
pub fn nfc_chars(v: &[char]) -> (r: Vec<char>)
    ensures
        r@ == nfc_form(v@),
{
    let s = crate::text::string_of(v);
    let n = nfc(s.as_str());
    chars_of(n.as_str())
}

/// Number of grapheme clusters of a character sequence.
pub fn grapheme_count(v: &[char]) -> (n: usize)
    ensures
        n == grapheme_clusters(v@).len(),
{
    let s = crate::text::string_of(v);
    graphemes(s.as_str()).len()
}

/// Characters `trim_matches` removes: dots, and with `dots_only` false, spaces too.
pub open spec fn trimmable(c: char, dots_only: bool) -> bool {
    c == '.' || (!dots_only && c == ' ')
}

pub open spec fn strip_start(s: Seq<char>, dots_only: bool) -> Seq<char>
    decreases s.len(),
{
    if s.len() > 0 && trimmable(s[0], dots_only) {
        strip_start(s.drop_first(), dots_only)
    } else {
        s
    }
}

pub open spec fn strip_end(s: Seq<char>, dots_only: bool) -> Seq<char>
    decreases s.len(),
{
    if s.len() > 0 && trimmable(s.last(), dots_only) {
        strip_end(s.drop_last(), dots_only)
    } else {
        s
    }
}

/// `str::trim_matches` with `.` (and ` ` unless `dots_only`).
pub open spec fn strip(s: Seq<char>, dots_only: bool) -> Seq<char> {
    strip_end(strip_start(s, dots_only), dots_only)
}

proof fn lemma_strip_start_skip(s: Seq<char>, i: int, d: bool)
    requires
        0 <= i < s.len(),
        trimmable(s[i], d),
    ensures
        strip_start(s.subrange(i, s.len() as int), d) == strip_start(
            s.subrange(i + 1, s.len() as int),
            d,
        ),
{
    assert(s.subrange(i, s.len() as int).drop_first() =~= s.subrange(i + 1, s.len() as int));
}

proof fn lemma_strip_end_skip(s: Seq<char>, k: int, d: bool)
    requires
        0 < k <= s.len(),
        trimmable(s[k - 1], d),
    ensures
        strip_end(s.subrange(0, k), d) == strip_end(s.subrange(0, k - 1), d),
{
    assert(s.subrange(0, k).drop_last() =~= s.subrange(0, k - 1));
}

/// `trim_matches` for the trimmable characters.
pub fn strip_chars(v: &[char], dots_only: bool) -> (r: Vec<char>)
    ensures
        r@ == strip(v@, dots_only),
{
    let n = v.len();
    let mut lo: usize = 0;
    assert(v@.subrange(0, n as int) =~= v@);
    while lo < n && (v[lo] == '.' || (!dots_only && v[lo] == ' '))
        invariant
            lo <= n,
            n == v@.len(),
            strip_start(v@, dots_only) == strip_start(v@.subrange(lo as int, n as int), dots_only),
        decreases n - lo,
    {
        proof {
            lemma_strip_start_skip(v@, lo as int, dots_only);
        }
        lo = lo + 1;
    }
    let ghost rest = v@.subrange(lo as int, n as int);
    assert(strip_start(rest, dots_only) == rest);
    let mut hi: usize = n;
    assert(rest.subrange(0, rest.len() as int) =~= rest);
    while hi > lo && (v[hi - 1] == '.' || (!dots_only && v[hi - 1] == ' '))
        invariant
            lo <= hi <= n,
            n == v@.len(),
            rest == v@.subrange(lo as int, n as int),
            strip_end(rest, dots_only) == strip_end(rest.subrange(0, hi - lo), dots_only),
        decreases hi - lo,
    {
        proof {
            lemma_strip_end_skip(rest, (hi - lo) as int, dots_only);
        }
        hi = hi - 1;
    }
    assert(rest.subrange(0, hi - lo) =~= v@.subrange(lo as int, hi as int));
    slice_chars(v, lo, hi)
}

/// The longest run of whole characters from the start that fits in `n` bytes.
pub open spec fn utf8_prefix(s: Seq<char>, n: int) -> Seq<char>
    decreases s.len(),
{
    if s.len() == 0 || utf8_len(s[0]) > n {
        seq![]
    } else {
        seq![s[0]] + utf8_prefix(s.drop_first(), n - utf8_len(s[0]))
    }
}

/// Cuts text to at most `max_bytes` UTF-8 bytes at a character boundary.
pub fn truncate_to_utf8_bytes(v: &[char], max_bytes: usize) -> (r: Vec<char>)
    ensures
        r@ == utf8_prefix(v@, max_bytes as int),
{
    let mut r: Vec<char> = Vec::new();
    let mut budget: usize = max_bytes;
    let mut i: usize = 0;
    assert(v@.subrange(0, v@.len() as int) =~= v@);
    assert(r@ + utf8_prefix(v@, max_bytes as int) =~= utf8_prefix(v@, max_bytes as int));
    while i < v.len()
        invariant
            i <= v@.len(),
            budget <= max_bytes,
            utf8_prefix(v@, max_bytes as int) == r@ + utf8_prefix(
                v@.subrange(i as int, v@.len() as int),
                budget as int,
            ),
        decreases v@.len() - i,
    {
        let ghost rest = v@.subrange(i as int, v@.len() as int);
        assert(rest.drop_first() =~= v@.subrange(i + 1, v@.len() as int));
        let w = char_utf8_len(v[i]);
        if w > budget as u128 {
            assert(r@ + utf8_prefix(rest, budget as int) =~= r@);
            return r;
        }
        let ghost before = r@;
        r.push(v[i]);
        budget = budget - w as usize;
        i = i + 1;
        assert(before + (seq![v@[i - 1]] + utf8_prefix(
            v@.subrange(i as int, v@.len() as int),
            budget as int,
        )) =~= r@ + utf8_prefix(v@.subrange(i as int, v@.len() as int), budget as int));
    }
    assert(utf8_prefix(v@.subrange(i as int, v@.len() as int), budget as int) =~= seq![]);
    assert(r@ + seq![] =~= r@);
    r
}

/// What `truncate_component` keeps of the clusters, before trimming: whole
/// clusters while they fit in `max_bytes`, or the fitting start of the first
/// cluster when not even that one fits.
pub open spec fn fill(gs: Seq<Seq<char>>, acc: Seq<char>, max_bytes: int) -> Seq<char>
    decreases gs.len(),
{
    if gs.len() == 0 {
        acc
    } else {
        let avail = max_bytes - byte_len(acc);
        if avail <= 0 {
            acc
        } else if byte_len(gs[0]) <= avail {
            fill(gs.drop_first(), acc + gs[0], max_bytes)
        } else if acc.len() == 0 {
            utf8_prefix(gs[0], avail)
        } else {
            acc
        }
    }
}

/// The first `n` clusters, or all of them when there are fewer.
pub open spec fn first_clusters(gs: Seq<Seq<char>>, n: int) -> Seq<Seq<char>> {
    if n < gs.len() {
        gs.take(n)
    } else {
        gs
    }
}

/// `truncate_component`: at most `max_graphemes` clusters and `max_bytes` bytes of
/// the NFC form, without leading or trailing dots and spaces.
pub open spec fn truncated(value: Seq<char>, max_graphemes: int, max_bytes: int) -> Seq<char> {
    strip(
        fill(first_clusters(grapheme_clusters(nfc_form(value)), max_graphemes), seq![], max_bytes),
        false,
    )
}

/// Cuts text to a number of grapheme clusters and of UTF-8 bytes.
pub fn truncate_component(v: &[char], max_graphemes: usize, max_bytes: usize) -> (r: Vec<char>)
    ensures
        r@ == truncated(v@, max_graphemes as int, max_bytes as int),
{
    let value = crate::text::string_of(nfc_chars(v).as_slice());
    let all = graphemes(value.as_str());
    let ghost gs = grapheme_clusters(value@);
    let ghost taken = first_clusters(gs, max_graphemes as int);
    let limit: usize = if max_graphemes < all.len() {
        max_graphemes
    } else {
        all.len()
    };
    assert(taken.len() == limit);
    let mut acc: Vec<char> = Vec::new();
    let mut used: u128 = 0;
    let mut i: usize = 0;
    let mut done = false;
    let ghost target = fill(taken, seq![], max_bytes as int);
    assert(taken.subrange(0, taken.len() as int) =~= taken);
    while i < limit && !done
        invariant
            i <= limit,
            limit == taken.len(),
            limit <= all@.len(),
            all@.len() == gs.len(),
            forall|k: int| 0 <= k < all@.len() ==> #[trigger] all@[k]@ == gs[k],
            forall|k: int| 0 <= k < limit ==> #[trigger] taken[k] == gs[k],
            !done ==> used == byte_len(acc@),
            used <= max_bytes,
            target == fill(taken, seq![], max_bytes as int),
            !done ==> target == fill(taken.subrange(i as int, limit as int), acc@, max_bytes as int),
            done ==> target == acc@,
        decreases (limit - i) * 2 + if done { 0int } else { 1int },
    {
        let ghost rest = taken.subrange(i as int, limit as int);
        assert(rest[0] == gs[i as int]);
        assert(rest.drop_first() =~= taken.subrange(i + 1, limit as int));
        let available: u128 = max_bytes as u128 - used;
        if available == 0 {
            done = true;
        } else {
            let g = chars_of(all[i].as_str());
            let glen = byte_len_of(g.as_slice());
            if glen <= available {
                proof {
                    lemma_byte_len_concat(acc@, g@);
                }
                acc = concat_chars(acc.as_slice(), g.as_slice());
                used = used + glen;
                i = i + 1;
            } else if acc.len() == 0 {
                acc = truncate_to_utf8_bytes(g.as_slice(), available as usize);
                done = true;
            } else {
                done = true;
            }
        }
    }
    assert(acc@ == target) by {
        if !done {
            assert(taken.subrange(i as int, limit as int).len() == 0);
        }
    }
    strip_chars(acc.as_slice(), false)
}

/// Runs of dots squeezed to one dot.
pub open spec fn squeeze_dots(s: Seq<char>) -> Seq<char>
    decreases s.len(),
{
    if s.len() == 0 {
        s
    } else if s.last() == '.' && s.len() >= 2 && s[s.len() - 2] == '.' {
        squeeze_dots(s.drop_last())
    } else {
        squeeze_dots(s.drop_last()).push(s.last())
    }
}

/// Squeezes runs of dots and trims dots from both ends.
pub fn collapse_double_dots(v: &[char]) -> (r: Vec<char>)
    ensures
        r@ == strip(squeeze_dots(v@), true),
{
    let mut out: Vec<char> = Vec::new();
    let mut previous_dot = false;
    let mut i: usize = 0;
    while i < v.len()
        invariant
            i <= v@.len(),
            out@ == squeeze_dots(v@.subrange(0, i as int)),
            previous_dot == (i > 0 && v@[i - 1] == '.'),
        decreases v@.len() - i,
    {
        let c = v[i];
        assert(v@.subrange(0, i + 1).drop_last() =~= v@.subrange(0, i as int));
        if c == '.' {
            if !previous_dot {
                out.push(c);
            }
            previous_dot = true;
        } else {
            out.push(c);
            previous_dot = false;
        }
        i = i + 1;
    }
    assert(v@.subrange(0, v@.len() as int) =~= v@);
    strip_chars(out.as_slice(), true)
}

pub open spec fn is_separator(c: char) -> bool {
    c == '/' || c == '\\' || c == ':' || c == '*' || c == '?' || c == '"' || c == '<' || c
        == '>' || c == '|'
}

/// Zero-width characters that are dropped.
pub open spec fn is_invisible(c: char) -> bool {
    c == '\u{200B}' || c == '\u{200C}' || c == '\u{200D}' || c == '\u{2060}' || c == '\u{FEFF}'
}

/// What a character becomes: separators and white space a space, invisible and
/// control characters nothing, anything else itself.
pub open spec fn mapped(c: char) -> Option<char> {
    if is_separator(c) {
        Some(' ')
    } else if is_invisible(c) || is_control(c) {
        None
    } else if is_ws(c) {
        Some(' ')
    } else {
        Some(c)
    }
}

/// The mapped text with runs of spaces made single and no leading space, and
/// whether a space waits for the next kept character.
pub open spec fn spaced(s: Seq<char>) -> (Seq<char>, bool)
    decreases s.len(),
{
    if s.len() == 0 {
        (seq![], false)
    } else {
        let (acc, pending) = spaced(s.drop_last());
        match mapped(s.last()) {
            None => (acc, pending),
            Some(m) => if m == ' ' {
                (acc, acc.len() > 0)
            } else if pending {
                (acc.push(' ').push(m), false)
            } else {
                (acc.push(m), false)
            },
        }
    }
}

fn map_char(c: char) -> (r: Option<char>)
    ensures
        r == mapped(c),
{
    if c == '/' || c == '\\' || c == ':' || c == '*' || c == '?' || c == '"' || c == '<' || c
        == '>' || c == '|' {
        Some(' ')
    } else if c == '\u{200B}' || c == '\u{200C}' || c == '\u{200D}' || c == '\u{2060}' || c
        == '\u{FEFF}' || char_is_control(c) {
        None
    } else if char_is_ws(c) {
        Some(' ')
    } else {
        Some(c)
    }
}

/// Maps every character and collapses spaces.
pub fn space_out(v: &[char]) -> (r: Vec<char>)
    ensures
        r@ == spaced(v@).0,
{
    let mut out: Vec<char> = Vec::new();
    let mut pending = false;
    let mut i: usize = 0;
    while i < v.len()
        invariant
            i <= v@.len(),
            (out@, pending) == spaced(v@.subrange(0, i as int)),
        decreases v@.len() - i,
    {
        assert(v@.subrange(0, i + 1).drop_last() =~= v@.subrange(0, i as int));
        match map_char(v[i]) {
            None => {},
            Some(m) => {
                if m == ' ' {
                    pending = out.len() > 0;
                } else {
                    if pending {
                        out.push(' ');
                        pending = false;
                    }
                    out.push(m);
                }
            },
        }
        i = i + 1;
    }
    assert(v@.subrange(0, v@.len() as int) =~= v@);
    out
}

pub open spec fn all_dots(w: Seq<char>) -> bool {
    forall|i: int| 0 <= i < w.len() ==> #[trigger] w[i] == '.'
}

/// Keeps a word unless it is empty or only dots.
pub open spec fn keep_word(done: Seq<Seq<char>>, w: Seq<char>) -> Seq<Seq<char>> {
    if all_dots(w) {
        done
    } else {
        done.push(w)
    }
}

/// The words finished so far and the word being read.
pub open spec fn scan_words(s: Seq<char>) -> (Seq<Seq<char>>, Seq<char>)
    decreases s.len(),
{
    if s.len() == 0 {
        (seq![], seq![])
    } else {
        let (done, w) = scan_words(s.drop_last());
        if is_ws(s.last()) {
            (keep_word(done, w), seq![])
        } else {
            (done, w.push(s.last()))
        }
    }
}

/// `split_whitespace`, without the words made only of dots.
pub open spec fn dotless_words(s: Seq<char>) -> Seq<Seq<char>> {
    keep_word(scan_words(s).0, scan_words(s).1)
}

/// Words joined with single spaces.
pub open spec fn join_words(ws: Seq<Seq<char>>) -> Seq<char>
    decreases ws.len(),
{
    if ws.len() == 0 {
        seq![]
    } else if ws.len() == 1 {
        ws[0]
    } else {
        join_words(ws.drop_last()).push(' ') + ws.last()
    }
}

fn is_all_dots(w: &[char]) -> (b: bool)
    ensures
        b == all_dots(w@),
{
    let mut i: usize = 0;
    while i < w.len()
        invariant
            i <= w@.len(),
            forall|j: int| 0 <= j < i ==> #[trigger] w@[j] == '.',
        decreases w@.len() - i,
    {
        if w[i] != '.' {
            return false;
        }
        i = i + 1;
    }
    true
}

/// Appends a word to the joined text.
fn append_word(out: &mut Vec<char>, count: usize, w: &[char], ghost_words: Ghost<Seq<Seq<char>>>)
    requires
        old(out)@ == join_words(ghost_words@),
        count == ghost_words@.len(),
    ensures
        final(out)@ == join_words(ghost_words@.push(w@)),
{
    let ghost ws = ghost_words@;
    assert(ws.push(w@).drop_last() =~= ws);
    if count > 0 {
        out.push(' ');
    }
    let ghost start = out@;
    let mut i: usize = 0;
    while i < w.len()
        invariant
            i <= w@.len(),
            out@ == start + w@.subrange(0, i as int),
        decreases w@.len() - i,
    {
        out.push(w[i]);
        i = i + 1;
        assert(out@ =~= start + w@.subrange(0, i as int));
    }
    assert(w@.subrange(0, w@.len() as int) =~= w@);
    if count == 0 {
        assert(out@ =~= w@);
    }
}

/// The words of the text that are not only dots, joined by single spaces.
pub fn normalized_words(v: &[char]) -> (r: Vec<char>)
    ensures
        r@ == join_words(dotless_words(v@)),
{
    let mut out: Vec<char> = Vec::new();
    let mut count: usize = 0;
    let mut word: Vec<char> = Vec::new();
    let ghost mut words: Seq<Seq<char>> = seq![];
    let mut i: usize = 0;
    while i < v.len()
        invariant
            i <= v@.len(),
            words == scan_words(v@.subrange(0, i as int)).0,
            word@ == scan_words(v@.subrange(0, i as int)).1,
            out@ == join_words(words),
            count == words.len(),
            count <= i,
        decreases v@.len() - i,
    {
        assert(v@.subrange(0, i + 1).drop_last() =~= v@.subrange(0, i as int));
        let c = v[i];
        if char_is_ws(c) {
            if !is_all_dots(word.as_slice()) {
                append_word(&mut out, count, word.as_slice(), Ghost(words));
                proof {
                    words = words.push(word@);
                }
                count = count + 1;
            }
            word = Vec::new();
            assert(word@ =~= seq![]);
        } else {
            word.push(c);
        }
        i = i + 1;
    }
    assert(v@.subrange(0, v@.len() as int) =~= v@);
    if !is_all_dots(word.as_slice()) {
        append_word(&mut out, count, word.as_slice(), Ghost(words));
    }
    out
}

/// Index of the first dot, or the length when there is none.
pub open spec fn dot_index(s: Seq<char>) -> int
    decreases s.len(),
{
    if s.len() == 0 || s[0] == '.' {
        0
    } else {
        1 + dot_index(s.drop_first())
    }
}

/// The suffix of `COM` and `LPT` device names.
pub open spec fn device_number(n: Seq<char>) -> bool {
    n == seq!['\u{B9}'] || n == seq!['\u{B2}'] || n == seq!['\u{B3}'] || (n.len() == 1 && '1'
        <= n[0] && n[0] <= '9')
}

/// Upper-cased names that Windows reserves for devices.
pub open spec fn reserved_name(u: Seq<char>) -> bool {
    ||| u == "CON"@
    ||| u == "PRN"@
    ||| u == "AUX"@
    ||| u == "NUL"@
    ||| (u.len() >= 3 && (u.take(3) == "COM"@ || u.take(3) == "LPT"@) && device_number(u.skip(3)))
}

/// `ensure_non_reserved`: the NFC form, `Untitled` when empty, and an underscore
/// after a reserved device name before the first dot.
pub open spec fn non_reserved(component: Seq<char>) -> Seq<char> {
    let c0 = nfc_form(component);
    let c = if c0.len() == 0 {
        "Untitled"@
    } else {
        c0
    };
    let end = dot_index(c);
    if reserved_name(upper_seq(c.take(end))) {
        c.take(end) + seq!['_'] + c.skip(end)
    } else {
        c
    }
}

fn first_dot(v: &[char]) -> (r: usize)
    ensures
        r == dot_index(v@),
        r <= v@.len(),
{
    let mut i: usize = 0;
    assert(v@.subrange(0, v@.len() as int) =~= v@);
    while i < v.len() && v[i] != '.'
        invariant
            i <= v@.len(),
            dot_index(v@) == i + dot_index(v@.subrange(i as int, v@.len() as int)),
        decreases v@.len() - i,
    {
        assert(v@.subrange(i as int, v@.len() as int).drop_first() =~= v@.subrange(
            i + 1,
            v@.len() as int,
        ));
        i = i + 1;
    }
    proof {
        if i == v.len() {
            assert(v@.subrange(i as int, v@.len() as int).len() == 0);
        } else {
            assert(v@.subrange(i as int, v@.len() as int)[0] == '.');
        }
    }
    i
}

fn is_reserved(u: &[char]) -> (b: bool)
    ensures
        b == reserved_name(u@),
{
    let con = chars_of("CON");
    let prn = chars_of("PRN");
    let aux = chars_of("AUX");
    let nul = chars_of("NUL");
    if crate::text::chars_eq(u, con.as_slice()) || crate::text::chars_eq(u, prn.as_slice())
        || crate::text::chars_eq(u, aux.as_slice()) || crate::text::chars_eq(u, nul.as_slice()) {
        return true;
    }
    if u.len() < 3 {
        return false;
    }
    let head = slice_chars(u, 0, 3);
    let com = chars_of("COM");
    let lpt = chars_of("LPT");
    assert(head@ == u@.take(3));
    if !(crate::text::chars_eq(head.as_slice(), com.as_slice()) || crate::text::chars_eq(
        head.as_slice(),
        lpt.as_slice(),
    )) {
        return false;
    }
    let rest = slice_chars(u, 3, u.len());
    assert(rest@ == u@.skip(3));
    if rest.len() != 1 {
        assert(rest@ != seq!['\u{B9}'] && rest@ != seq!['\u{B2}'] && rest@ != seq!['\u{B3}']);
        return false;
    }
    let c = rest[0];
    let r = c == '\u{B9}' || c == '\u{B2}' || c == '\u{B3}' || ('1' <= c && c <= '9');
    proof {
        if c == '\u{B9}' {
            assert(rest@ =~= seq!['\u{B9}']);
        }
        if c == '\u{B2}' {
            assert(rest@ =~= seq!['\u{B2}']);
        }
        if c == '\u{B3}' {
            assert(rest@ =~= seq!['\u{B3}']);
        }
    }
    r
}

/// Renames Windows device names and fills an empty component.
pub fn ensure_non_reserved(v: &[char]) -> (r: Vec<char>)
    ensures
        r@ == non_reserved(v@),
{
    let c0 = nfc_chars(v);
    let c = if c0.len() == 0 {
        chars_of("Untitled")
    } else {
        c0
    };
    let end = first_dot(c.as_slice());
    let base = slice_chars(c.as_slice(), 0, end);
    let upper = crate::text::upper_chars(base.as_slice());
    assert(base@ == c@.take(end as int));
    if is_reserved(upper.as_slice()) {
        let mut head = base;
        head.push('_');
        let tail = slice_chars(c.as_slice(), end, c.len());
        assert(tail@ == c@.skip(end as int));
        concat_chars(head.as_slice(), tail.as_slice())
    } else {
        c
    }
}

/// `sanitize_component`: the text made safe as a single path component.
pub open spec fn sanitized(value: Seq<char>) -> Seq<char> {
    let collapsed = spaced(nfc_form(value)).0;
    let words = join_words(dotless_words(strip(squeeze_dots(strip(collapsed, false)), true)));
    let first = if words.len() == 0 {
        "Untitled"@
    } else {
        truncated(words, MAX_COMPONENT_GRAPHEMES as int, MAX_COMPONENT_BYTES as int)
    };
    non_reserved(
        truncated(non_reserved(first), MAX_COMPONENT_GRAPHEMES as int, MAX_COMPONENT_BYTES as int),
    )
}

/// Makes catalogue text usable as one path component: separators become spaces,
/// invisible and control characters go, spaces and dots are collapsed, words of
/// dots are dropped, the length is bounded and device names are renamed.
pub fn sanitize_component(v: &[char]) -> (r: Vec<char>)
    ensures
        r@ == sanitized(v@),
{
    let value = nfc_chars(v);
    let collapsed = space_out(value.as_slice());
    let trimmed = strip_chars(collapsed.as_slice(), false);
    let dots = collapse_double_dots(trimmed.as_slice());
    let words = normalized_words(dots.as_slice());
    let first = if words.len() == 0 {
        chars_of("Untitled")
    } else {
        truncate_component(words.as_slice(), MAX_COMPONENT_GRAPHEMES, MAX_COMPONENT_BYTES)
    };
    let second = ensure_non_reserved(first.as_slice());
    let third = truncate_component(second.as_slice(), MAX_COMPONENT_GRAPHEMES, MAX_COMPONENT_BYTES);
    ensure_non_reserved(third.as_slice())
}

/// The first four consecutive ASCII digits of the text.
pub open spec fn first_year(s: Seq<char>) -> Option<Seq<char>>
    decreases s.len(),
{
    if s.len() < 4 {
        None
    } else if all_digits(s.take(4)) {
        Some(s.take(4))
    } else {
        first_year(s.drop_first())
    }
}

fn digit(c: char) -> (b: bool)
    ensures
        b == is_ascii_digit(c),
{
    '0' <= c && c <= '9'
}

/// The first run of four digits in a release date or year field.
pub fn sanitize_year(v: &[char]) -> (r: Option<Vec<char>>)
    ensures
        match (r, first_year(v@)) {
            (Some(a), Some(b)) => a@ == b,
            (None, None) => true,
            _ => false,
        },
{
    let mut i: usize = 0;
    assert(v@.subrange(0, v@.len() as int) =~= v@);
    while 4 <= v.len() && i <= v.len() - 4
        invariant
            i <= v@.len(),
            first_year(v@) == first_year(v@.subrange(i as int, v@.len() as int)),
        decreases v@.len() - i,
    {
        let ghost rest = v@.subrange(i as int, v@.len() as int);
        let window = slice_chars(v, i, i + 4);
        assert(window@ =~= rest.take(4));
        if digit(window[0]) && digit(window[1]) && digit(window[2]) && digit(window[3]) {
            assert(all_digits(window@)) by {
                assert forall|j: int| 0 <= j < 4 implies #[trigger] is_ascii_digit(
                    window@[j],
                ) by {
                    if j == 0 {
                    } else if j == 1 {
                    } else if j == 2 {
                    } else {
                    }
                }
            }
            return Some(window);
        }
        assert(!all_digits(window@)) by {
            if all_digits(window@) {
                assert(is_ascii_digit(window@[0]));
                assert(is_ascii_digit(window@[1]));
                assert(is_ascii_digit(window@[2]));
                assert(is_ascii_digit(window@[3]));
            }
        }
        assert(rest.drop_first() =~= v@.subrange(i + 1, v@.len() as int));
        i = i + 1;
    }
    None
}

/// `normalize_extension`: the NFC form, trimmed, without leading dots, lower-cased.
pub open spec fn normalized_extension(v: Seq<char>) -> Seq<char> {
    crate::text::lower_seq(strip_start(crate::text::trim(nfc_form(v)), true))
}

/// A file extension as given, normalised for comparison.
pub fn normalize_extension(v: &[char]) -> (r: Vec<char>)
    ensures
        r@ == normalized_extension(v@),
{
    let n = nfc_chars(v);
    let t = crate::text::trim_chars(n.as_slice());
    let mut lo: usize = 0;
    assert(t@.subrange(0, t@.len() as int) =~= t@);
    while lo < t.len() && t[lo] == '.'
        invariant
            lo <= t@.len(),
            strip_start(t@, true) == strip_start(t@.subrange(lo as int, t@.len() as int), true),
        decreases t@.len() - lo,
    {
        proof {
            lemma_strip_start_skip(t@, lo as int, true);
        }
        lo = lo + 1;
    }
    let rest = slice_chars(t.as_slice(), lo, t.len());
    crate::text::lower_chars(rest.as_slice())
}

/// `sanitize_language`: a sanitised component of at most 48 clusters and 128 bytes.
pub open spec fn sanitized_language(v: Seq<char>) -> Seq<char> {
    truncated(sanitized(v), MAX_LANGUAGE_GRAPHEMES as int, MAX_LANGUAGE_BYTES as int)
}

pub fn sanitize_language(v: &[char]) -> (r: Vec<char>)
    ensures
        r@ == sanitized_language(v@),
{
    let language = sanitize_component(v);
    truncate_component(language.as_slice(), MAX_LANGUAGE_GRAPHEMES, MAX_LANGUAGE_BYTES)
}

/// `usize::saturating_sub`.
pub open spec fn sat_sub(a: int, b: int) -> int {
    if a > b {
        a - b
    } else {
        0
    }
}

/// `truncate_with_suffix`: the value and the suffix when both fit; otherwise the
/// value cut to leave room for the suffix, or the suffix alone, cut, when nothing
/// of the value fits.
pub open spec fn with_suffix(value: Seq<char>, suffix: Seq<char>, max_graphemes: int, max_bytes: int) -> Seq<char> {
    let v = nfc_form(value);
    let s = nfc_form(suffix);
    let suffix_len = grapheme_clusters(s).len() as int;
    if grapheme_clusters(v).len() + suffix_len <= max_graphemes && byte_len(v) + byte_len(s)
        <= max_bytes {
        v + s
    } else {
        let prefix = truncated(
            v,
            sat_sub(max_graphemes, suffix_len),
            sat_sub(max_bytes, byte_len(s) as int),
        );
        if prefix.len() == 0 {
            truncated(s, max_graphemes, max_bytes)
        } else {
            prefix + s
        }
    }
}

fn sat_sub_usize(a: usize, b: u128) -> (r: usize)
    ensures
        r == sat_sub(a as int, b as int),
{
    if a as u128 > b {
        (a as u128 - b) as usize
    } else {
        0
    }
}

pub fn truncate_with_suffix(value: &[char], suffix: &[char], max_graphemes: usize, max_bytes: usize) -> (r: Vec<char>)
    ensures
        r@ == with_suffix(value@, suffix@, max_graphemes as int, max_bytes as int),
{
    let v = nfc_chars(value);
    let s = nfc_chars(suffix);
    let suffix_len = grapheme_count(s.as_slice());
    let value_len = grapheme_count(v.as_slice());
    let vb = byte_len_of(v.as_slice());
    let sb = byte_len_of(s.as_slice());
    if value_len as u128 + suffix_len as u128 <= max_graphemes as u128 && vb + sb <= max_bytes as u128 {
        return concat_chars(v.as_slice(), s.as_slice());
    }
    let prefix = truncate_component(
        v.as_slice(),
        sat_sub_usize(max_graphemes, suffix_len as u128),
        sat_sub_usize(max_bytes, sb),
    );
    if prefix.len() == 0 {
        truncate_component(s.as_slice(), max_graphemes, max_bytes)
    } else {
        concat_chars(prefix.as_slice(), s.as_slice())
    }
}

/// `display_title`: the sanitised title, with ` (year)` when the year field holds
/// four digits, within 120 clusters and `max_bytes` bytes.
pub open spec fn display_title_of(title: Seq<char>, year: Option<Seq<char>>, max_bytes: int) -> Seq<char> {
    let t = sanitized(title);
    let y = match year {
        Some(text) => first_year(text),
        None => None,
    };
    match y {
        Some(digits) => with_suffix(
            t,
            " ("@ + digits + ")"@,
            MAX_COMPONENT_GRAPHEMES as int,
            max_bytes,
        ),
        None => truncated(t, MAX_COMPONENT_GRAPHEMES as int, max_bytes),
    }
}

pub fn display_title(title: &[char], year: Option<&[char]>, max_bytes: usize) -> (r: Vec<char>)
    ensures
        r@ == display_title_of(
            title@,
            match year {
                Some(y) => Some(y@),
                None => None,
            },
            max_bytes as int,
        ),
{
    let t = sanitize_component(title);
    let y = match year {
        Some(text) => sanitize_year(text),
        None => None,
    };
    match y {
        Some(digits) => {
            let open = chars_of(" (");
            let close = chars_of(")");
            let suffix = concat_chars(concat_chars(open.as_slice(), digits.as_slice()).as_slice(), close.as_slice());
            truncate_with_suffix(t.as_slice(), suffix.as_slice(), MAX_COMPONENT_GRAPHEMES, max_bytes)
        },
        None => truncate_component(t.as_slice(), MAX_COMPONENT_GRAPHEMES, max_bytes),
    }
}

/// The ` SxxEyy` code of an episode.
pub open spec fn episode_code(season: u16, episode: u16) -> Seq<char> {
    " S"@ + crate::text::dec_string2(season as nat) + "E"@ + crate::text::dec_string2(episode as nat)
}

/// `episode_stem`: the series cut to leave room for the code, the code, and the
/// sanitised episode title when any room is left for it.
pub open spec fn episode_stem_of(series: Seq<char>, season: u16, episode: u16, title: Option<Seq<char>>, max_bytes: int) -> Seq<char> {
    let code = episode_code(season, episode);
    let reserved = grapheme_clusters(code).len() as int;
    let cut = truncated(
        series,
        sat_sub(MAX_COMPONENT_GRAPHEMES as int, reserved),
        sat_sub(max_bytes, byte_len(code) as int),
    );
    let prefix = cut + code;
    match title {
        Some(t) => {
            let name = sanitized(t);
            if name.len() == 0 {
                prefix
            } else {
                let available = sat_sub(sat_sub(MAX_COMPONENT_GRAPHEMES as int, grapheme_clusters(prefix).len() as int), 1);
                let available_bytes = sat_sub(sat_sub(max_bytes, byte_len(prefix) as int), 1);
                if available == 0 || available_bytes == 0 {
                    prefix
                } else {
                    let cut_title = truncated(name, available, available_bytes);
                    if cut_title.len() == 0 {
                        prefix
                    } else {
                        prefix + seq![' '] + cut_title
                    }
                }
            }
        },
        None => prefix,
    }
}

pub fn episode_stem(series: &[char], season: u16, episode: u16, title: Option<&[char]>, max_bytes: usize) -> (r: Vec<char>)
    ensures
        r@ == episode_stem_of(
            series@,
            season,
            episode,
            match title {
                Some(t) => Some(t@),
                None => None,
            },
            max_bytes as int,
        ),
{
    let s_code = chars_of(" S");
    let e_code = chars_of("E");
    let sd = crate::text::dec_digits2(season as u64);
    let ed = crate::text::dec_digits2(episode as u64);
    let code = concat_chars(
        concat_chars(concat_chars(s_code.as_slice(), sd.as_slice()).as_slice(), e_code.as_slice()).as_slice(),
        ed.as_slice(),
    );
    assert(code@ == episode_code(season, episode));
    let reserved = grapheme_count(code.as_slice());
    let code_bytes = byte_len_of(code.as_slice());
    let cut = truncate_component(
        series,
        sat_sub_usize(MAX_COMPONENT_GRAPHEMES, reserved as u128),
        sat_sub_usize(max_bytes, code_bytes),
    );
    let prefix = concat_chars(cut.as_slice(), code.as_slice());
    match title {
        None => prefix,
        Some(t) => {
            let name = sanitize_component(t);
            if name.len() == 0 {
                return prefix;
            }
            let prefix_graphemes = grapheme_count(prefix.as_slice());
            let prefix_bytes = byte_len_of(prefix.as_slice());
            let available = sat_sub_usize(sat_sub_usize(MAX_COMPONENT_GRAPHEMES, prefix_graphemes as u128), 1);
            let available_bytes = sat_sub_usize(sat_sub_usize(max_bytes, prefix_bytes), 1);
            if available == 0 || available_bytes == 0 {
                return prefix;
            }
            let cut_title = truncate_component(name.as_slice(), available, available_bytes);
            if cut_title.len() == 0 {
                prefix
            } else {
                let mut head = prefix;
                head.push(' ');
                assert(head@ == prefix@ + seq![' ']);
                concat_chars(head.as_slice(), cut_title.as_slice())
            }
        },
    }
}

/// `filename_stem_byte_limit`: what is left of 255 bytes for a file stem once the
/// longest suffix a partial file of this job can get is counted.
pub open spec fn stem_byte_limit(video_extension: Seq<char>) -> int {
    let video_suffix: int = 1 + byte_len(video_extension) as int + 5;
    let subtitle_suffix: int = 1 + MAX_LANGUAGE_BYTES + 1 + MAX_SUPPORTED_SUBTITLE_EXTENSION_BYTES + 5;
    sat_sub(
        MAX_COMPONENT_BYTES as int,
        if video_suffix > subtitle_suffix {
            video_suffix
        } else {
            subtitle_suffix
        },
    )
}

pub fn filename_stem_byte_limit(video_extension: &[char]) -> (r: usize)
    ensures
        r == stem_byte_limit(video_extension@),
{
    let video_suffix: u128 = 1 + byte_len_of(video_extension) + 5;
    let subtitle_suffix: u128 = (1 + MAX_LANGUAGE_BYTES + 1 + MAX_SUPPORTED_SUBTITLE_EXTENSION_BYTES + 5) as u128;
    let longest = if video_suffix > subtitle_suffix {
        video_suffix
    } else {
        subtitle_suffix
    };
    sat_sub_usize(MAX_COMPONENT_BYTES, longest)
}

} // verus!

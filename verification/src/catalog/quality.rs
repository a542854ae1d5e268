//! Ranking the sources offered for one title.
//!
//! Resolution alone is a poor guide to how a file actually looks: a small HEVC
//! file routinely beats a larger H.264 file at the same resolution. Every source
//! for a title is the same film, so file size is a direct proxy for bitrate once
//! it is weighted by how efficient its codec is.
//!
//! Codec weights are kept in tenths (H.264 10, VP9 14, HEVC 16, AV1 20), so every
//! comparison here is exact integer arithmetic.

use vstd::prelude::*;

use crate::catalog::models::SourceOption;
use crate::text::{
    char_is_ws, chars_of, contains, contains_chars, is_ws, lower_chars, lower_seq, slice_chars,
};

verus! {

/// How this source compares with the others offered for the same title.
#[derive(Debug, Clone, Copy, PartialEq, Eq, Structural)]
pub enum QualityTier {
    /// The best available balance of resolution and bitrate.
    Best,
    /// Perfectly watchable, but bettered by another source.
    Good,
    /// Noticeably compressed for its resolution.
    Lower,
}

/// Length of the run of non-whitespace characters at the start of `s`.
pub open spec fn leading_word_len(s: Seq<char>) -> nat
    decreases s.len(),
{
    if s.len() > 0 && !is_ws(s[0]) {
        1 + leading_word_len(s.drop_first())
    } else {
        0
    }
}

pub proof fn lemma_leading_word_len(s: Seq<char>)
    ensures
        leading_word_len(s) <= s.len(),
        s.len() > 0 && !is_ws(s[0]) ==> leading_word_len(s) >= 1,
    decreases s.len(),
{
    if s.len() > 0 && !is_ws(s[0]) {
        lemma_leading_word_len(s.drop_first());
    }
}

/// The `n`th whitespace-separated word, as `split_whitespace().nth(n)` gives it.
pub open spec fn nth_word(s: Seq<char>, n: nat) -> Option<Seq<char>>
    decreases s.len(),
{
    if s.len() == 0 {
        None
    } else if is_ws(s[0]) {
        nth_word(s.drop_first(), n)
    } else {
        let k = leading_word_len(s);
        proof {
            lemma_leading_word_len(s);
        }
        if n == 0 {
            Some(s.take(k as int))
        } else {
            nth_word(s.skip(k as int), (n - 1) as nat)
        }
    }
}

/// Relative weight of a codec at equal file size, in tenths.
pub open spec fn codec_weight(codec: Option<Seq<char>>) -> nat {
    let name = lower_seq(
        match codec {
            Some(c) => c,
            None => Seq::<char>::empty(),
        },
    );
    if contains(name, seq!['a', 'v', '1']) {
        20
    } else if contains(name, seq!['2', '6', '5']) || contains(name, seq!['h', 'e', 'v', 'c']) {
        16
    } else if contains(name, seq!['v', 'p', '9']) {
        14
    } else {
        10
    }
}

/// Codec-weighted size: the codec is the second word of the label.
pub open spec fn weighted_size(o: SourceOption) -> nat {
    let size: nat = match o.size_bytes {
        Some(s) => s as nat,
        None => 0,
    };
    size * codec_weight(nth_word(o.label@, 1))
}

/// `a` is ranked strictly ahead of `b`: taller, or as tall with a larger weighted size.
pub open spec fn ahead(a: SourceOption, b: SourceOption) -> bool {
    a.height > b.height || (a.height == b.height && weighted_size(a) > weighted_size(b))
}

/// `a` and `b` tie on both ranking keys.
pub open spec fn tied(a: SourceOption, b: SourceOption) -> bool {
    a.height == b.height && weighted_size(a) == weighted_size(b)
}

/// Bytes per vertical pixel of `o` are under 45% of those of `p`.
pub open spec fn thinner(o: SourceOption, p: SourceOption) -> bool {
    p.height > 0 && if o.height == 0 {
        weighted_size(p) > 0
    } else {
        100 * weighted_size(o) * p.height < 45 * weighted_size(p) * o.height
    }
}

/// A source is starved when its size is known and its density is under 45% of the richest.
pub open spec fn starved(o: SourceOption, all: Seq<SourceOption>) -> bool {
    o.size_bytes is Some && exists|k: int| 0 <= k < all.len() && thinner(o, #[trigger] all[k])
}

/// The tier of the source at `index` in a ranked list.
pub open spec fn tier_at(all: Seq<SourceOption>, index: int) -> QualityTier {
    if starved(all[index], all) {
        QualityTier::Lower
    } else if index == 0 {
        QualityTier::Best
    } else {
        QualityTier::Good
    }
}

/// The two options describe the same offer, whatever their ranking fields say.
pub open spec fn same_offer(a: SourceOption, b: SourceOption) -> bool {
    a.id == b.id && a.height == b.height && a.label == b.label && a.size_bytes == b.size_bytes
        && a.language == b.language
}

/// `order[i]` is the input position of the `i`th ranked source: a permutation of the input,
/// best first, with ties kept in input order.
pub open spec fn stable_order(input: Seq<SourceOption>, order: Seq<int>) -> bool {
    &&& order.len() == input.len()
    &&& forall|i: int| 0 <= i < order.len() ==> 0 <= #[trigger] order[i] < input.len()
    &&& forall|i: int, j: int| 0 <= i < j < order.len() ==> order[i] != order[j]
    &&& forall|i: int, j: int|
        0 <= i < j < order.len() ==> !ahead(input[order[j]], input[order[i]])
    &&& forall|i: int, j: int|
        0 <= i < j < order.len() && tied(input[order[i]], input[order[j]]) ==> order[i] < order[j]
}

/// `output` is `input` ranked along `order`, each source labelled with its place.
pub open spec fn ranked_along(
    input: Seq<SourceOption>,
    output: Seq<SourceOption>,
    order: Seq<int>,
) -> bool {
    &&& stable_order(input, order)
    &&& output.len() == input.len()
    &&& forall|i: int| 0 <= i < output.len() ==> same_offer(#[trigger] output[i], input[order[i]])
    &&& forall|i: int| 0 <= i < output.len() ==> (#[trigger] output[i]).recommended == (i == 0)
    &&& forall|i: int| 0 <= i < output.len() ==> (#[trigger] output[i]).quality == tier_at(output, i)
}

/// The index of the source `best_within` picks: eligible, ranked no lower than any other
/// eligible source, and strictly ahead of every eligible source after it.
pub open spec fn picked(options: Seq<SourceOption>, maximum_height: u16, i: int) -> bool {
    &&& 0 <= i < options.len()
    &&& options[i].height <= maximum_height
    &&& forall|j: int|
        0 <= j < options.len() && (#[trigger] options[j]).height <= maximum_height ==> !ahead(
            options[j],
            options[i],
        )
    &&& forall|j: int|
        i < j < options.len() && (#[trigger] options[j]).height <= maximum_height ==> ahead(
            options[i],
            options[j],
        )
}

/// The run of non-whitespace characters that starts at `start`.
fn word_end(v: &[char], start: usize) -> (end: usize)
    requires
        start <= v@.len(),
    ensures
        start <= end <= v@.len(),
        end - start == leading_word_len(v@.subrange(start as int, v@.len() as int)),
    decreases v@.len() - start,
{
    if start < v.len() && !char_is_ws(v[start]) {
        let end = word_end(v, start + 1);
        assert(v@.subrange(start as int, v@.len() as int).drop_first() =~= v@.subrange(
            start + 1,
            v@.len() as int,
        ));
        end
    } else {
        start
    }
}

/// Bounds of the `n`th word of `v[start..]`.
fn nth_word_from(v: &[char], start: usize, n: usize) -> (r: Option<(usize, usize)>)
    requires
        start <= v@.len(),
    ensures
        match r {
            Some((a, b)) => a <= b <= v@.len() && nth_word(
                v@.subrange(start as int, v@.len() as int),
                n as nat,
            ) == Some(v@.subrange(a as int, b as int)),
            None => nth_word(v@.subrange(start as int, v@.len() as int), n as nat) is None,
        },
    decreases v@.len() - start,
{
    let ghost s = v@.subrange(start as int, v@.len() as int);
    if start >= v.len() {
        return None;
    }
    if char_is_ws(v[start]) {
        assert(s.drop_first() =~= v@.subrange(start + 1, v@.len() as int));
        return nth_word_from(v, start + 1, n);
    }
    let end = word_end(v, start);
    proof {
        lemma_leading_word_len(s);
    }
    if n == 0 {
        assert(s.take((end - start) as int) =~= v@.subrange(start as int, end as int));
        Some((start, end))
    } else {
        assert(s.skip((end - start) as int) =~= v@.subrange(end as int, v@.len() as int));
        nth_word_from(v, end, n - 1)
    }
}

/// The codec weight of a label, in tenths.
fn label_codec_weight(label: &str) -> (w: u64)
    ensures
        w == codec_weight(nth_word(label@, 1)),
        w <= 20,
{
    let chars = chars_of(label);
    assert(chars@.subrange(0, chars@.len() as int) =~= chars@);
    let codec: Vec<char> = match nth_word_from(chars.as_slice(), 0, 1) {
        Some((a, b)) => slice_chars(chars.as_slice(), a, b),
        None => Vec::new(),
    };
    let ghost name = lower_seq(
        match nth_word(label@, 1) {
            Some(c) => c,
            None => Seq::<char>::empty(),
        },
    );
    let lowered = lower_chars(codec.as_slice());
    assert(lowered@ =~= name);
    let av1 = ['a', 'v', '1'];
    let h265 = ['2', '6', '5'];
    let hevc = ['h', 'e', 'v', 'c'];
    let vp9 = ['v', 'p', '9'];
    assert(av1@ =~= seq!['a', 'v', '1']);
    assert(h265@ =~= seq!['2', '6', '5']);
    assert(hevc@ =~= seq!['h', 'e', 'v', 'c']);
    assert(vp9@ =~= seq!['v', 'p', '9']);
    if contains_chars(lowered.as_slice(), av1.as_slice()) {
        20
    } else if contains_chars(lowered.as_slice(), h265.as_slice()) || contains_chars(
        lowered.as_slice(),
        hevc.as_slice(),
    ) {
        16
    } else if contains_chars(lowered.as_slice(), vp9.as_slice()) {
        14
    } else {
        10
    }
}

/// The codec-weighted size of a source.
fn weighted_size_of(o: &SourceOption) -> (w: u128)
    ensures
        w == weighted_size(*o),
        w <= 20 * 0xffff_ffff_ffff_ffff,
{
    let weight = label_codec_weight(o.label.as_str());
    let size: u64 = match o.size_bytes {
        Some(s) => s,
        None => 0,
    };
    assert((size as u128) * (weight as u128) <= 20 * 0xffff_ffff_ffff_ffff) by (nonlinear_arith)
        requires
            weight <= 20,
            size <= 0xffff_ffff_ffff_ffff,
    ;
    (size as u128) * (weight as u128)
}

/// Weighted sizes of every source, by position.
fn weighted_sizes(options: &[SourceOption]) -> (w: Vec<u128>)
    ensures
        w@.len() == options@.len(),
        forall|i: int| 0 <= i < w@.len() ==> #[trigger] w@[i] == weighted_size(options@[i]),
        forall|i: int| 0 <= i < w@.len() ==> #[trigger] w@[i] <= 20 * 0xffff_ffff_ffff_ffff,
{
    let mut w: Vec<u128> = Vec::new();
    let mut i: usize = 0;
    while i < options.len()
        invariant
            i <= options@.len(),
            w@.len() == i,
            forall|k: int| 0 <= k < i ==> #[trigger] w@[k] == weighted_size(options@[k]),
            forall|k: int| 0 <= k < i ==> #[trigger] w@[k] <= 20 * 0xffff_ffff_ffff_ffff,
        decreases options@.len() - i,
    {
        w.push(weighted_size_of(&options[i]));
        i = i + 1;
    }
    w
}

/// The stable, best-first order of the sources, as input positions.
fn ranking_order(options: &[SourceOption], sizes: &Vec<u128>) -> (order: Vec<usize>)
    requires
        sizes@.len() == options@.len(),
        forall|i: int| 0 <= i < sizes@.len() ==> #[trigger] sizes@[i] == weighted_size(
            options@[i],
        ),
    ensures
        stable_order(options@, order@.map_values(|k: usize| k as int)),
{
    let ghost input = options@;
    let mut order: Vec<usize> = Vec::new();
    let mut i: usize = 0;
    while i < options.len()
        invariant
            i <= input.len(),
            input == options@,
            sizes@.len() == input.len(),
            forall|k: int| 0 <= k < sizes@.len() ==> #[trigger] sizes@[k] == weighted_size(
                input[k],
            ),
            order@.len() == i,
            forall|a: int| 0 <= a < order@.len() ==> #[trigger] order@[a] < i,
            forall|a: int, b: int| 0 <= a < b < order@.len() ==> order@[a] != order@[b],
            forall|a: int, b: int|
                0 <= a < b < order@.len() ==> !ahead(
                    input[order@[b] as int],
                    input[order@[a] as int],
                ),
            forall|a: int, b: int|
                0 <= a < b < order@.len() && tied(
                    input[order@[a] as int],
                    input[order@[b] as int],
                ) ==> order@[a] < order@[b],
        decreases input.len() - i,
    {
        let h = options[i].height;
        let e = sizes[i];
        let mut p: usize = 0;
        while p < order.len() && !(h > options[order[p]].height || (h == options[order[p]].height
            && e > sizes[order[p]]))
            invariant
                p <= order@.len(),
                i < input.len(),
                input == options@,
                sizes@.len() == input.len(),
                h == input[i as int].height,
                e == weighted_size(input[i as int]),
                forall|k: int| 0 <= k < sizes@.len() ==> #[trigger] sizes@[k] == weighted_size(
                    input[k],
                ),
                forall|a: int| 0 <= a < order@.len() ==> #[trigger] order@[a] < i,
                forall|a: int| 0 <= a < p ==> !ahead(input[i as int], input[order@[a] as int]),
            decreases order@.len() - p,
        {
            p = p + 1;
        }
        let ghost before = order@;
        order.insert(p, i);
        proof {
            assert(order@ == before.insert(p as int, i));
            assert forall|a: int, b: int| 0 <= a < b < order@.len() implies !ahead(
                input[order@[b] as int],
                input[order@[a] as int],
            ) by {
                if b == p as int {
                    assert(order@[a] == before[a]);
                } else if a == p as int {
                    assert(order@[b] == before[b - 1]);
                    assert(ahead(input[i as int], input[before[p as int] as int]));
                    if b - 1 > p as int {
                        assert(!ahead(input[before[b - 1] as int], input[before[p as int] as int]));
                    }
                } else if a < p && b < p {
                    assert(order@[a] == before[a] && order@[b] == before[b]);
                } else if a < p && b > p {
                    assert(order@[a] == before[a] && order@[b] == before[b - 1]);
                } else {
                    assert(order@[a] == before[a - 1] && order@[b] == before[b - 1]);
                }
            }
            assert forall|a: int, b: int|
                0 <= a < b < order@.len() && tied(
                    input[order@[a] as int],
                    input[order@[b] as int],
                ) implies order@[a] < order@[b] by {
                if b == p as int {
                    assert(order@[a] == before[a]);
                } else if a == p as int {
                    assert(order@[b] == before[b - 1]);
                    assert(ahead(input[i as int], input[before[p as int] as int]));
                    if b - 1 > p as int {
                        assert(!ahead(input[before[b - 1] as int], input[before[p as int] as int]));
                    }
                } else if a < p && b < p {
                    assert(order@[a] == before[a] && order@[b] == before[b]);
                } else if a < p && b > p {
                    assert(order@[a] == before[a] && order@[b] == before[b - 1]);
                } else {
                    assert(order@[a] == before[a - 1] && order@[b] == before[b - 1]);
                }
            }
            assert forall|a: int, b: int| 0 <= a < b < order@.len() implies order@[a]
                != order@[b] by {
                if b == p as int {
                    assert(order@[a] == before[a]);
                } else if a == p as int {
                    assert(order@[b] == before[b - 1]);
                } else if a < p && b < p {
                    assert(order@[a] == before[a] && order@[b] == before[b]);
                } else if a < p && b > p {
                    assert(order@[a] == before[a] && order@[b] == before[b - 1]);
                } else {
                    assert(order@[a] == before[a - 1] && order@[b] == before[b - 1]);
                }
            }
            assert forall|a: int| 0 <= a < order@.len() implies #[trigger] order@[a] < i + 1 by {
                if a < p {
                    assert(order@[a] == before[a]);
                } else if a > p {
                    assert(order@[a] == before[a - 1]);
                }
            }
        }
        i = i + 1;
    }
    let ghost ord = order@.map_values(|k: usize| k as int);
    assert(ord.len() == input.len());
    assert forall|a: int| 0 <= a < ord.len() implies 0 <= #[trigger] ord[a] < input.len() by {
        assert(ord[a] == order@[a] as int);
    }
    assert forall|a: int, b: int| 0 <= a < b < ord.len() implies ord[a] != ord[b] by {
        assert(ord[a] == order@[a] as int && ord[b] == order@[b] as int);
    }
    assert forall|a: int, b: int| 0 <= a < b < ord.len() implies !ahead(
        input[ord[b]],
        input[ord[a]],
    ) by {
        assert(ord[a] == order@[a] as int && ord[b] == order@[b] as int);
    }
    assert forall|a: int, b: int|
        0 <= a < b < ord.len() && tied(input[ord[a]], input[ord[b]]) implies ord[a] < ord[b] by {
        assert(ord[a] == order@[a] as int && ord[b] == order@[b] as int);
    }
    order
}

/// Whether `o` (height `oh`, weighted size `oe`) is under 45% of the density of `p`.
fn is_thinner(oh: u16, oe: u128, ph: u16, pe: u128) -> (b: bool)
    requires
        oe <= 20 * 0xffff_ffff_ffff_ffff,
        pe <= 20 * 0xffff_ffff_ffff_ffff,
    ensures
        b == (ph > 0 && if oh == 0 {
            pe > 0
        } else {
            100 * oe * ph < 45 * pe * oh
        }),
{
    if ph == 0 {
        return false;
    }
    if oh == 0 {
        return pe > 0;
    }
    assert(100 * oe * (ph as u128) <= 100 * (20 * 0xffff_ffff_ffff_ffff) * 0xffff) by (
    nonlinear_arith)
        requires
            oe <= 20 * 0xffff_ffff_ffff_ffff,
            ph <= 0xffff,
    ;
    assert(45 * pe * (oh as u128) <= 45 * (20 * 0xffff_ffff_ffff_ffff) * 0xffff) by (
    nonlinear_arith)
        requires
            pe <= 20 * 0xffff_ffff_ffff_ffff,
            oh <= 0xffff,
    ;
    100 * oe * (ph as u128) < 45 * pe * (oh as u128)
}

/// Order sources best-first and label each one's relative quality.
///
/// Height leads; within a height the codec-weighted size decides, and ties keep
/// their order. The first source is recommended. A source whose density is under
/// 45% of the richest source's is `Lower`; otherwise the first is `Best` and the
/// rest `Good`.
pub fn rank(options: &mut Vec<SourceOption>)
    ensures
        exists|order: Seq<int>| ranked_along(old(options)@, final(options)@, order),
{
    let ghost input = options@;
    let sizes = weighted_sizes(options.as_slice());
    let order = ranking_order(options.as_slice(), &sizes);
    let ghost ord = order@.map_values(|k: usize| k as int);
    let n = options.len();
    let mut ranked: Vec<SourceOption> = Vec::new();
    let mut ranked_sizes: Vec<u128> = Vec::new();
    let mut k: usize = 0;
    while k < n
        invariant
            n == input.len(),
            input == options@,
            k <= n,
            stable_order(input, ord),
            order@.len() == n,
            forall|a: int| 0 <= a < n ==> #[trigger] ord[a] == order@[a] as int,
            sizes@.len() == n,
            forall|a: int| 0 <= a < n ==> #[trigger] sizes@[a] == weighted_size(input[a]),
            forall|a: int| 0 <= a < n ==> #[trigger] sizes@[a] <= 20 * 0xffff_ffff_ffff_ffff,
            ranked@.len() == k,
            ranked_sizes@.len() == k,
            forall|a: int| 0 <= a < k ==> #[trigger] ranked@[a] == input[ord[a]],
            forall|a: int| 0 <= a < k ==> #[trigger] ranked_sizes@[a] == weighted_size(ranked@[a]),
            forall|a: int| 0 <= a < k ==> #[trigger] ranked_sizes@[a] <= 20 * 0xffff_ffff_ffff_ffff,
        decreases n - k,
    {
        let source = order[k];
        assert(ord[k as int] == source as int);
        assert(0 <= ord[k as int] < n);
        ranked.push(options[source].duplicate());
        ranked_sizes.push(sizes[source]);
        k = k + 1;
    }
    let ghost plain = ranked@;
    let mut out: Vec<SourceOption> = Vec::new();
    let mut i: usize = 0;
    while i < n
        invariant
            n == input.len(),
            i <= n,
            plain.len() == n,
            ranked@ == plain,
            ranked_sizes@.len() == n,
            forall|a: int| 0 <= a < n ==> #[trigger] ranked_sizes@[a] == weighted_size(plain[a]),
            forall|a: int| 0 <= a < n ==> #[trigger] ranked_sizes@[a] <= 20 * 0xffff_ffff_ffff_ffff,
            out@.len() == i,
            forall|a: int| 0 <= a < i ==> same_offer(#[trigger] out@[a], plain[a]),
            forall|a: int| 0 <= a < i ==> (#[trigger] out@[a]).recommended == (a == 0),
            forall|a: int| 0 <= a < i ==> (#[trigger] out@[a]).quality == tier_at(plain, a),
        decreases n - i,
    {
        let oh = ranked[i].height;
        let oe = ranked_sizes[i];
        let mut thin = false;
        let mut j: usize = 0;
        while j < n
            invariant
                n == plain.len(),
                i < n,
                j <= n,
                ranked@ == plain,
                ranked_sizes@.len() == n,
                oh == plain[i as int].height,
                oe == weighted_size(plain[i as int]),
                oe <= 20 * 0xffff_ffff_ffff_ffff,
                forall|a: int| 0 <= a < n ==> #[trigger] ranked_sizes@[a] == weighted_size(
                    plain[a],
                ),
                forall|a: int| 0 <= a < n ==> #[trigger] ranked_sizes@[a] <= 20
                    * 0xffff_ffff_ffff_ffff,
                thin == exists|a: int| 0 <= a < j && thinner(plain[i as int], #[trigger] plain[a]),
            decreases n - j,
        {
            let t = is_thinner(oh, oe, ranked[j].height, ranked_sizes[j]);
            proof {
                if t {
                    assert(thinner(plain[i as int], plain[j as int]));
                }
                if thin || t {
                    let w = if t { j as int } else {
                        choose|a: int| 0 <= a < j && thinner(plain[i as int], #[trigger] plain[a])
                    };
                    assert(0 <= w < j + 1 && thinner(plain[i as int], plain[w]));
                } else {
                    assert forall|a: int| 0 <= a < j + 1 implies !thinner(
                        plain[i as int],
                        #[trigger] plain[a],
                    ) by {
                        if a == j as int {
                            assert(!t);
                        }
                    }
                }
            }
            thin = thin || t;
            j = j + 1;
        }
        let is_starved = ranked[i].size_bytes.is_some() && thin;
        let tier = if is_starved {
            QualityTier::Lower
        } else if i == 0 {
            QualityTier::Best
        } else {
            QualityTier::Good
        };
        assert(is_starved == starved(plain[i as int], plain));
        let mut item = ranked[i].duplicate();
        item.recommended = i == 0;
        item.quality = tier;
        out.push(item);
        i = i + 1;
    }
    proof {
        assert forall|a: int| 0 <= a < n implies (#[trigger] out@[a]).quality == tier_at(out@, a) by {
            assert forall|b: int| 0 <= b < n implies thinner(out@[a], out@[b]) == thinner(
                plain[a],
                plain[b],
            ) by {
                assert(same_offer(out@[a], plain[a]));
                assert(same_offer(out@[b], plain[b]));
            }
            if starved(plain[a], plain) {
                let w = choose|b: int| 0 <= b < plain.len() && thinner(plain[a], #[trigger] plain[b]);
                assert(thinner(out@[a], out@[w]));
            }
            if starved(out@[a], out@) {
                let w = choose|b: int| 0 <= b < out@.len() && thinner(out@[a], #[trigger] out@[b]);
                assert(thinner(plain[a], plain[w]));
            }
        }
        assert(ranked_along(input, out@, ord));
    }
    *options = out;
}

/// The source to download when the caller expressed no preference: the highest
/// ranked source at or below `maximum_height`, the last of equals.
pub fn best_within_index(options: &[SourceOption], maximum_height: u16) -> (r: Option<usize>)
    ensures
        r matches Some(i) ==> picked(options@, maximum_height, i as int),
        r is None <==> forall|j: int|
            0 <= j < options@.len() ==> (#[trigger] options@[j]).height > maximum_height,
{
    let sizes = weighted_sizes(options);
    let mut best: Option<usize> = None;
    let mut i: usize = 0;
    while i < options.len()
        invariant
            i <= options@.len(),
            sizes@.len() == options@.len(),
            forall|k: int| 0 <= k < sizes@.len() ==> #[trigger] sizes@[k] == weighted_size(
                options@[k],
            ),
            match best {
                Some(b) => b < i && picked(options@.subrange(0, i as int), maximum_height, b as int),
                None => forall|j: int|
                    0 <= j < i ==> (#[trigger] options@[j]).height > maximum_height,
            },
        decreases options@.len() - i,
    {
        let ghost prefix = options@.subrange(0, i as int);
        let ghost next = options@.subrange(0, i + 1);
        if options[i].height <= maximum_height {
            let replace = match best {
                None => true,
                Some(b) => !(options[b].height > options[i].height || (options[b].height
                    == options[i].height && sizes[b] > sizes[i])),
            };
            if replace {
                proof {
                    assert forall|j: int|
                        0 <= j < next.len() && (#[trigger] next[j]).height
                            <= maximum_height implies !ahead(next[j], next[i as int]) by {
                        if j < i {
                            assert(next[j] == prefix[j]);
                            if let Some(b) = best {
                                assert(!ahead(prefix[j], prefix[b as int]));
                            }
                        }
                    }
                }
                best = Some(i);
            } else {
                proof {
                    let b = best.unwrap() as int;
                    assert forall|j: int|
                        0 <= j < next.len() && (#[trigger] next[j]).height
                            <= maximum_height implies !ahead(next[j], next[b]) by {
                        if j < i {
                            assert(next[j] == prefix[j]);
                        }
                    }
                    assert forall|j: int|
                        b < j < next.len() && (#[trigger] next[j]).height
                            <= maximum_height implies ahead(next[b], next[j]) by {
                        if j < i {
                            assert(next[j] == prefix[j]);
                        }
                    }
                }
            }
        } else {
            proof {
                if let Some(b) = best {
                    assert forall|j: int|
                        0 <= j < next.len() && (#[trigger] next[j]).height
                            <= maximum_height implies !ahead(next[j], next[b as int]) by {
                        if j < i {
                            assert(next[j] == prefix[j]);
                        }
                    }
                    assert forall|j: int|
                        b < j < next.len() && (#[trigger] next[j]).height
                            <= maximum_height implies ahead(next[b as int], next[j]) by {
                        if j < i {
                            assert(next[j] == prefix[j]);
                        }
                    }
                }
            }
        }
        i = i + 1;
    }
    assert(options@.subrange(0, options@.len() as int) =~= options@);
    best
}

/// The highest ranked source at or below `maximum_height`.
pub fn best_within(options: &[SourceOption], maximum_height: u16) -> (r: Option<&SourceOption>)
    ensures
        r matches Some(o) ==> exists|i: int| picked(options@, maximum_height, i) && *o == options@[i],
        r is None <==> forall|j: int|
            0 <= j < options@.len() ==> (#[trigger] options@[j]).height > maximum_height,
{
    match best_within_index(options, maximum_height) {
        Some(i) => Some(&options[i]),
        None => None,
    }
}

proof fn lemma_codec_words()
    ensures
        "hevc"@ =~= seq!['h', 'e', 'v', 'c'],
        "av1"@ =~= seq!['a', 'v', '1'],
        "265"@ =~= seq!['2', '6', '5'],
        "vp9"@ =~= seq!['v', 'p', '9'],
{
    reveal_strlit("hevc");
    reveal_strlit("av1");
    reveal_strlit("265");
    reveal_strlit("vp9");
}

/// A codec word naming HEVC, in any case, weighs what one naming H.265 does,
/// 1.6 times H.264, unless it also names AV1; a word naming none of AV1, H.265,
/// HEVC or VP9 weighs as H.264.
pub proof fn lemma_hevc_weighs_as_h265(hevc: Seq<char>, h265: Seq<char>, plain: Seq<char>)
    requires
        contains(lower_seq(hevc), "hevc"@),
        !contains(lower_seq(hevc), "av1"@),
        contains(lower_seq(h265), "265"@),
        !contains(lower_seq(h265), "av1"@),
        !contains(lower_seq(plain), "av1"@),
        !contains(lower_seq(plain), "265"@),
        !contains(lower_seq(plain), "hevc"@),
        !contains(lower_seq(plain), "vp9"@),
    ensures
        codec_weight(Some(hevc)) == codec_weight(Some(h265)),
        codec_weight(Some(hevc)) == 16,
        codec_weight(Some(plain)) == 10,
{
    lemma_codec_words();
}

/// Within a resolution the leaner HEVC encode is ranked ahead of an H.264 one
/// whenever its size times 1.6 exceeds the other's: in any ranking `rank` may
/// produce, a source whose codec word names HEVC (and not AV1) comes before a
/// source of the same height whose codec word names none of AV1, H.265, HEVC or
/// VP9, once 16 times its size exceeds 10 times the other's.
pub proof fn lemma_leaner_hevc_ranks_first(
    input: Seq<SourceOption>,
    order: Seq<int>,
    a: int,
    b: int,
    p: int,
    q: int,
)
    requires
        stable_order(input, order),
        0 <= p < order.len(),
        0 <= q < order.len(),
        order[p] == a,
        order[q] == b,
        input[a].height == input[b].height,
        nth_word(input[a].label@, 1) matches Some(w) && contains(lower_seq(w), "hevc"@) && !contains(
            lower_seq(w),
            "av1"@,
        ),
        nth_word(input[b].label@, 1) matches Some(w) && !contains(lower_seq(w), "av1"@) && !contains(
            lower_seq(w),
            "265"@,
        ) && !contains(lower_seq(w), "hevc"@) && !contains(lower_seq(w), "vp9"@),
        input[a].size_bytes matches Some(x) && input[b].size_bytes matches Some(y) && 16 * x > 10 * y,
    ensures
        p < q,
{
    let wa = nth_word(input[a].label@, 1)->0;
    let wb = nth_word(input[b].label@, 1)->0;
    lemma_codec_words();
    assert(codec_weight(Some(wa)) == 16);
    assert(codec_weight(Some(wb)) == 10);
    assert(ahead(input[a], input[b]));
    if q < p {
        assert(!ahead(input[order[p]], input[order[q]]));
    }
}

/// The codec word's family sets its weight, AV1 first: a word naming AV1 weighs
/// 2.0 times H.264; else one naming H.265 or HEVC 1.6 times; else one naming
/// VP9 1.4 times; any other word, or none, weighs as H.264. A later family in
/// this list never outweighs an earlier one.
pub proof fn lemma_codec_families(c: Seq<char>)
    ensures
        contains(lower_seq(c), "av1"@) ==> codec_weight(Some(c)) == 20,
        !contains(lower_seq(c), "av1"@) && (contains(lower_seq(c), "265"@) || contains(lower_seq(c), "hevc"@))
            ==> codec_weight(Some(c)) == 16,
        !contains(lower_seq(c), "av1"@) && !contains(lower_seq(c), "265"@) && !contains(lower_seq(c), "hevc"@)
            && contains(lower_seq(c), "vp9"@) ==> codec_weight(Some(c)) == 14,
        !contains(lower_seq(c), "av1"@) && !contains(lower_seq(c), "265"@) && !contains(lower_seq(c), "hevc"@)
            && !contains(lower_seq(c), "vp9"@) ==> codec_weight(Some(c)) == 10,
        codec_weight(None) == 10,
{
    lemma_codec_words();
    assert(lower_seq(Seq::<char>::empty()) =~= Seq::<char>::empty());
}

} // verus!



//! The span selector: which parts of a line get styled. Up to two patterns
//! narrow the selection, the second searched within each match of the first.
use vstd::prelude::*;

use regex::Regex;

use crate::error::ConfigError;
use crate::styles::StyleTable;
use crate::text::{byte_pos, char_width, chars_of, is_boundary, push_char, string_of, utf8_width};

verus! {

/// A compiled pattern of `regex`.
#[verifier::external_type_specification]
#[verifier::external_body]
pub struct ExRegex(regex::Regex);

/// Why `regex` could not compile a pattern.
#[verifier::external_type_specification]
#[verifier::external_body]
pub struct ExRegexError(regex::Error);

/// Whether `regex` compiles a pattern text.
pub uninterp spec fn regex_compiles(pattern: Seq<char>) -> bool;

/// The successive non-overlapping matches, as byte spans, of a pattern in a text.
pub uninterp spec fn regex_matches(pattern: Seq<char>, text: Seq<char>) -> Seq<(usize, usize)>;

/// A compiled pattern, with the text it was compiled from.
pub struct Pattern {
    re: Regex,
    text: String,
}

impl Pattern {
    /// The text the pattern was compiled from.
    pub closed spec fn source(&self) -> Seq<char> {
        self.text@
    }
}

/// Relies on `regex::Regex::new`: compiles a pattern or says why it cannot;
/// which of the two depends on the pattern text alone.
#[verifier::external_body]
fn compile(pattern: &str) -> (r: Result<Pattern, regex::Error>)
    ensures
        r is Ok <==> regex_compiles(pattern@),
        r matches Ok(p) ==> p.source() == pattern@,
{
    match Regex::new(pattern) {
        Ok(re) => Ok(Pattern { re, text: pattern.to_string() }),
        Err(e) => Err(e),
    }
}

/// Byte spans of a text: each starts no later than it ends, at character
/// boundaries of the text's UTF-8 encoding, and ends no later than the next starts.
pub open spec fn byte_spans_ok(spans: Seq<(usize, usize)>, text: Seq<char>) -> bool {
    &&& forall|k: int|
        0 <= k < spans.len() ==> #[trigger] spans[k].0 <= spans[k].1 && is_boundary(text, spans[k].0 as int)
            && is_boundary(text, spans[k].1 as int)
    &&& forall|k: int| 0 <= k < spans.len() - 1 ==> #[trigger] spans[k].1 <= spans[k + 1].0
}

/// Relies on `regex::Regex::find_iter`: the successive non-overlapping matches
/// of the pattern in `text`, as byte offsets, each with `start <= end` and
/// both on UTF-8 boundaries of `text`; they depend on the pattern text and
/// `text` alone.
#[verifier::external_body]
fn find_all(p: &Pattern, text: &str) -> (r: Vec<(usize, usize)>)
    ensures
        r@ == regex_matches(p.source(), text@),
        byte_spans_ok(r@, text@),
{
    p.re.find_iter(text).map(|m| (m.start(), m.end())).collect()
}

/// The matches of a pattern in a text are well-formed byte spans of it.
pub open spec fn matches_ok(pattern: Seq<char>, text: Seq<char>) -> bool {
    byte_spans_ok(regex_matches(pattern, text), text)
}

/// The character at which byte `b` of the UTF-8 encoding of `s` starts.
pub open spec fn char_index(s: Seq<char>, b: int) -> int {
    choose|i: int| 0 <= i <= s.len() && byte_pos(s, i) == b
}

/// Byte spans of the text `s` as character spans.
pub open spec fn char_spans_of(s: Seq<char>, bs: Seq<(usize, usize)>) -> Seq<(usize, usize)> {
    bs.map_values(|x: (usize, usize)| (char_index(s, x.0 as int) as usize, char_index(s, x.1 as int) as usize))
}

/// The spans that one pattern selects in a line: its matches, as characters.
pub open spec fn one_selection(pattern: Seq<char>, line: Seq<char>) -> Seq<(usize, usize)> {
    char_spans_of(line, regex_matches(pattern, line))
}

/// The selections of a pattern within each outer span of a line.
pub open spec fn inner_selections(pattern: Seq<char>, line: Seq<char>, outer: Seq<(usize, usize)>) -> Seq<
    Seq<(usize, usize)>,
> {
    outer.map_values(|o: (usize, usize)| one_selection(pattern, line.subrange(o.0 as int, o.1 as int)))
}

/// The spans that up to two patterns select in a line: the whole line without
/// patterns, the matches of one pattern, or the matches of the second within
/// each match of the first.
pub open spec fn selected(patterns: Seq<Seq<char>>, line: Seq<char>) -> Seq<(usize, usize)> {
    if patterns.len() == 0 {
        seq![(0usize, line.len() as usize)]
    } else if patterns.len() == 1 {
        one_selection(patterns[0], line)
    } else {
        let outer = one_selection(patterns[0], line);
        and_spans_spec(outer, inner_selections(patterns[1], line, outer))
    }
}

/// Character spans of a line of `n` characters: each starts no later than it
/// ends, within the line, and ends no later than the next starts.
pub open spec fn spans_ok(spans: Seq<(usize, usize)>, n: int) -> bool {
    &&& forall|k: int| 0 <= k < spans.len() ==> #[trigger] spans[k].0 <= spans[k].1 <= n
    &&& forall|k: int| 0 <= k < spans.len() - 1 ==> #[trigger] spans[k].1 <= spans[k + 1].0
}

/// Whether position `p` lies in one of the spans.
pub open spec fn covered(spans: Seq<(usize, usize)>, p: int) -> bool {
    exists|k: int| 0 <= k < spans.len() && #[trigger] spans[k].0 <= p < spans[k].1
}

proof fn lemma_byte_pos_step(s: Seq<char>, i: int)
    requires
        0 <= i < s.len(),
    ensures
        byte_pos(s, i + 1) == byte_pos(s, i) + utf8_width(s[i]),
{
    assert(s.take(i + 1).drop_last() =~= s.take(i));
}

proof fn lemma_byte_pos_mono(s: Seq<char>, i: int, j: int)
    requires
        0 <= i <= j <= s.len(),
    ensures
        byte_pos(s, i) <= byte_pos(s, j),
        i < j ==> byte_pos(s, i) < byte_pos(s, j),
    decreases j - i,
{
    if i < j {
        lemma_byte_pos_mono(s, i, j - 1);
        lemma_byte_pos_step(s, j - 1);
    }
}

proof fn lemma_char_index(s: Seq<char>, i: int)
    requires
        0 <= i <= s.len(),
    ensures
        char_index(s, byte_pos(s, i) as int) == i,
{
    let j = char_index(s, byte_pos(s, i) as int);
    assert(0 <= j <= s.len() && byte_pos(s, j) == byte_pos(s, i));
    if j < i {
        lemma_byte_pos_mono(s, j, i);
    }
    if i < j {
        lemma_byte_pos_mono(s, i, j);
    }
}

proof fn lemma_byte_pos_at_least(s: Seq<char>, i: int)
    requires
        0 <= i <= s.len(),
    ensures
        byte_pos(s, i) >= i,
    decreases i,
{
    if i > 0 {
        lemma_byte_pos_at_least(s, i - 1);
        lemma_byte_pos_step(s, i - 1);
    }
}

proof fn lemma_char_index_bounds(s: Seq<char>, a: int, b: int)
    requires
        is_boundary(s, a),
        is_boundary(s, b),
        a <= b,
    ensures
        0 <= char_index(s, a) <= char_index(s, b) <= s.len(),
        char_index(s, a) <= a,
        char_index(s, b) <= b,
{
    let i = char_index(s, a);
    let j = char_index(s, b);
    lemma_byte_pos_at_least(s, i);
    lemma_byte_pos_at_least(s, j);
    if j < i {
        lemma_byte_pos_mono(s, j, i);
    }
}

/// Well-formed byte spans of a text are well-formed character spans of it.
proof fn lemma_char_spans_ok(s: Seq<char>, bs: Seq<(usize, usize)>)
    requires
        byte_spans_ok(bs, s),
    ensures
        spans_ok(char_spans_of(s, bs), s.len() as int),
{
    let cs = char_spans_of(s, bs);
    assert forall|k: int| 0 <= k < cs.len() implies #[trigger] cs[k].0 <= cs[k].1 <= s.len() by {
        assert(bs[k].0 <= bs[k].1);
        lemma_char_index_bounds(s, bs[k].0 as int, bs[k].1 as int);
    }
    assert forall|k: int| 0 <= k < cs.len() - 1 implies #[trigger] cs[k].1 <= cs[k + 1].0 by {
        assert(bs[k].1 <= bs[k + 1].0);
        assert(bs[k].0 <= bs[k].1);
        lemma_char_index_bounds(s, bs[k].1 as int, bs[k + 1].0 as int);
    }
}

/// Walks from character `i` at byte `b` to the character at which byte `t` lies.
fn advance(chars: &Vec<char>, i: usize, b: usize, t: usize) -> (r: (usize, usize))
    requires
        i <= chars@.len(),
        b == byte_pos(chars@, i as int),
        b <= t,
        is_boundary(chars@, t as int),
    ensures
        i <= r.0 <= chars@.len(),
        r.1 == t,
        byte_pos(chars@, r.0 as int) == t,
{
    let ghost j = choose|j: int| 0 <= j <= chars@.len() && byte_pos(chars@, j) == t;
    proof {
        if i > j {
            lemma_byte_pos_mono(chars@, j, i as int);
        }
    }
    let len = chars.len();
    let mut i = i;
    let mut b = b;
    while b < t
        invariant
            len == chars@.len(),
            i <= j <= chars@.len(),
            b == byte_pos(chars@, i as int),
            b <= t,
            byte_pos(chars@, j) == t,
        decreases t - b,
    {
        proof {
            if i >= j {
                lemma_byte_pos_mono(chars@, j, i as int);
            }
            lemma_byte_pos_step(chars@, i as int);
            lemma_byte_pos_mono(chars@, i + 1, j);
        }
        b = b + char_width(chars[i]);
        i = i + 1;
    }
    proof {
        lemma_byte_pos_mono(chars@, i as int, j);
    }
    (i, b)
}

/// Byte spans of the text made of `chars`, as character spans.
pub fn to_char_spans(chars: &Vec<char>, spans: &Vec<(usize, usize)>) -> (r: Vec<(usize, usize)>)
    requires
        byte_spans_ok(spans@, chars@),
    ensures
        r@ == char_spans_of(chars@, spans@),
        spans_ok(r@, chars@.len() as int),
{
    let mut r: Vec<(usize, usize)> = Vec::new();
    let mut i: usize = 0;
    let mut b: usize = 0;
    let mut k: usize = 0;
    proof {
        assert(chars@.take(0) =~= Seq::<char>::empty());
    }
    while k < spans.len()
        invariant
            k <= spans@.len(),
            r@.len() == k,
            i <= chars@.len(),
            b == byte_pos(chars@, i as int),
            byte_spans_ok(spans@, chars@),
            k > 0 ==> b == spans@[k - 1].1 && i == r@[k - 1].1,
            k == 0 ==> b == 0,
            forall|m: int|
                0 <= m < r@.len() ==> byte_pos(chars@, #[trigger] r@[m].0 as int) == spans@[m].0
                    && byte_pos(chars@, r@[m].1 as int) == spans@[m].1,
            spans_ok(r@, chars@.len() as int),
            forall|m: int| 0 <= m < r@.len() ==> #[trigger] r@[m].1 <= i,
        decreases spans@.len() - k,
    {
        let (s, e) = spans[k];
        assert(spans@[k as int].0 <= spans@[k as int].1);
        proof {
            if k > 0 {
                assert(spans@[k - 1].1 <= spans@[k as int].0);
            }
        }
        let (i1, b1) = advance(chars, i, b, s);
        let (i2, b2) = advance(chars, i1, b1, e);
        r.push((i1, i2));
        i = i2;
        b = b2;
        k = k + 1;
    }
    assert forall|m: int| 0 <= m < r@.len() implies #[trigger] r@[m] == char_spans_of(chars@, spans@)[m] by {
        lemma_char_index(chars@, r@[m].0 as int);
        lemma_char_index(chars@, r@[m].1 as int);
    }
    assert(r@ =~= char_spans_of(chars@, spans@));
    r
}

/// Spans moved right by `d` positions.
pub open spec fn shift(spans: Seq<(usize, usize)>, d: usize) -> Seq<(usize, usize)> {
    spans.map_values(|s: (usize, usize)| ((s.0 + d) as usize, (s.1 + d) as usize))
}

/// The spans of each inner list shifted by the start of its outer span, in order.
pub open spec fn and_spans_spec(outer: Seq<(usize, usize)>, inners: Seq<Seq<(usize, usize)>>) -> Seq<
    (usize, usize),
>
    decreases outer.len(),
{
    if outer.len() == 0 || inners.len() == 0 {
        Seq::empty()
    } else {
        and_spans_spec(outer.drop_last(), inners.drop_last()) + shift(inners.last(), outer.last().0)
    }
}

/// Each inner list holds spans of the text of its outer span.
pub open spec fn inners_ok(outer: Seq<(usize, usize)>, inners: Seq<Seq<(usize, usize)>>) -> bool {
    &&& inners.len() == outer.len()
    &&& forall|k: int|
        0 <= k < outer.len() ==> spans_ok(#[trigger] inners[k], outer[k].1 - outer[k].0)
}

/// The views of a list of span lists.
pub open spec fn span_lists(v: Seq<Vec<(usize, usize)>>) -> Seq<Seq<(usize, usize)>> {
    v.map_values(|x: Vec<(usize, usize)>| x@)
}

/// Appends the spans of `inner`, shifted by `lo`, to `r`.
fn push_shifted(r: &mut Vec<(usize, usize)>, inner: &Vec<(usize, usize)>, lo: usize, hi: usize, n: usize)
    requires
        lo <= hi <= n,
        spans_ok(inner@, hi - lo),
        spans_ok(old(r)@, n as int),
        forall|m: int| 0 <= m < old(r)@.len() ==> #[trigger] old(r)@[m].1 <= lo,
    ensures
        final(r)@ == old(r)@ + shift(inner@, lo),
        spans_ok(final(r)@, n as int),
        forall|m: int| 0 <= m < final(r)@.len() ==> #[trigger] final(r)@[m].1 <= hi,
{
    let mut q: usize = 0;
    let mut last: usize = lo;
    while q < inner.len()
        invariant
            q <= inner@.len(),
            lo <= last <= hi <= n,
            spans_ok(inner@, hi - lo),
            q < inner@.len() ==> last <= lo + inner@[q as int].0,
            r@ == old(r)@ + shift(inner@.take(q as int), lo),
            spans_ok(r@, n as int),
            forall|m: int| 0 <= m < r@.len() ==> #[trigger] r@[m].1 <= last,
        decreases inner@.len() - q,
    {
        let (a, b) = inner[q];
        assert(a <= b <= hi - lo);
        r.push((a + lo, b + lo));
        last = b + lo;
        proof {
            if q + 1 < inner@.len() {
                assert(inner@[q as int].1 <= inner@[q + 1].0);
            }
            assert(inner@.take(q + 1) =~= inner@.take(q as int).push((a, b)));
            assert(r@ =~= old(r)@ + shift(inner@.take(q + 1), lo));
        }
        q = q + 1;
    }
    assert(inner@.take(q as int) =~= inner@);
}

/// The spans selected by two patterns: the matches of the inner pattern within
/// each match of the outer one, as spans of the whole line.
pub fn and_spans(outer: &Vec<(usize, usize)>, inners: &Vec<Vec<(usize, usize)>>, n: usize) -> (r: Vec<
    (usize, usize),
>)
    requires
        spans_ok(outer@, n as int),
        inners_ok(outer@, span_lists(inners@)),
    ensures
        r@ == and_spans_spec(outer@, span_lists(inners@)),
        spans_ok(r@, n as int),
{
    let ghost iv = span_lists(inners@);
    let mut r: Vec<(usize, usize)> = Vec::new();
    let mut k: usize = 0;
    while k < outer.len()
        invariant
            k <= outer@.len(),
            iv == span_lists(inners@),
            spans_ok(outer@, n as int),
            inners_ok(outer@, iv),
            r@ == and_spans_spec(outer@.take(k as int), iv.take(k as int)),
            spans_ok(r@, n as int),
            k > 0 ==> forall|m: int| 0 <= m < r@.len() ==> #[trigger] r@[m].1 <= outer@[k - 1].1,
            k == 0 ==> r@.len() == 0,
        decreases outer@.len() - k,
    {
        let (lo, hi) = outer[k];
        assert(outer@[k as int].0 <= outer@[k as int].1);
        assert(inners[k as int]@ == iv[k as int]);
        proof {
            if k > 0 {
                assert(outer@[k - 1].1 <= outer@[k as int].0);
            }
        }
        push_shifted(&mut r, &inners[k], lo, hi, n);
        proof {
            assert(outer@.take(k + 1).drop_last() =~= outer@.take(k as int));
            assert(iv.take(k + 1).drop_last() =~= iv.take(k as int));
        }
        k = k + 1;
    }
    assert(outer@.take(k as int) =~= outer@);
    assert(iv.take(k as int) =~= iv);
    r
}

/// Two patterns select no more than the first alone: every position in a span
/// of the combined selection lies in a match of the outer pattern.
pub proof fn and_selection_within_outer(
    outer: Seq<(usize, usize)>,
    inners: Seq<Seq<(usize, usize)>>,
    n: int,
)
    requires
        spans_ok(outer, n),
        inners_ok(outer, inners),
    ensures
        forall|p: int| covered(and_spans_spec(outer, inners), p) ==> covered(outer, p),
    decreases outer.len(),
{
    if outer.len() > 0 {
        let o2 = outer.drop_last();
        let i2 = inners.drop_last();
        assert(spans_ok(o2, n)) by {
            assert forall|k: int| 0 <= k < o2.len() - 1 implies #[trigger] o2[k].1 <= o2[k + 1].0 by {
                assert(outer[k].1 <= outer[k + 1].0);
            }
        }
        assert(inners_ok(o2, i2)) by {
            assert forall|k: int| 0 <= k < o2.len() implies spans_ok(#[trigger] i2[k], o2[k].1 - o2[k].0) by {
                assert(spans_ok(inners[k], outer[k].1 - outer[k].0));
            }
        }
        and_selection_within_outer(o2, i2, n);
        let pre = and_spans_spec(o2, i2);
        let lo = outer.last().0;
        let tail = shift(inners.last(), lo);
        assert(and_spans_spec(outer, inners) == pre + tail);
        assert forall|p: int| covered(and_spans_spec(outer, inners), p) implies covered(outer, p) by {
            let all = pre + tail;
            let k = choose|k: int| 0 <= k < all.len() && #[trigger] all[k].0 <= p < all[k].1;
            if k < pre.len() {
                assert(pre[k] == all[k]);
                assert(covered(o2, p));
                let m = choose|m: int| 0 <= m < o2.len() && #[trigger] o2[m].0 <= p < o2[m].1;
                assert(outer[m] == o2[m]);
            } else {
                let q = k - pre.len();
                let last = outer.len() - 1;
                assert(spans_ok(inners[last], outer[last].1 - outer[last].0));
                assert(inners.last()[q].0 <= inners.last()[q].1 <= outer[last].1 - outer[last].0);
                assert(all[k] == tail[q]);
                assert(outer[last].0 <= p < outer[last].1);
            }
        }
    }
}

/// A decimal digit as a character.
pub open spec fn digit_char(d: int) -> char {
    seq!['0', '1', '2', '3', '4', '5', '6', '7', '8', '9'][d]
}

/// The decimal notation of a natural number.
pub open spec fn decimal(n: nat) -> Seq<char>
    decreases n,
{
    if n < 10 {
        seq![digit_char(n as int)]
    } else {
        decimal(n / 10).push(digit_char((n % 10) as int))
    }
}

fn digit(d: u32) -> (c: char)
    requires
        d < 10,
    ensures
        c == digit_char(d as int),
{
    if d == 0 {
        '0'
    } else if d == 1 {
        '1'
    } else if d == 2 {
        '2'
    } else if d == 3 {
        '3'
    } else if d == 4 {
        '4'
    } else if d == 5 {
        '5'
    } else if d == 6 {
        '6'
    } else if d == 7 {
        '7'
    } else if d == 8 {
        '8'
    } else {
        '9'
    }
}

/// Appends the decimal notation of `n` to `s`.
fn push_decimal(s: &mut String, n: u32)
    ensures
        final(s)@ == old(s)@ + decimal(n as nat),
    decreases n,
{
    if n >= 10 {
        push_decimal(s, n / 10);
    }
    push_char(s, digit(n % 10));
    assert(final(s)@ =~= old(s)@ + decimal(n as nat));
}

/// Characters with a meaning of their own inside a bracketed character class.
pub open spec fn class_special(c: char) -> bool {
    c == '^' || c == '[' || c == ']' || c == '-' || c == '\\' || c == '&' || c == '~'
}

/// The characters of a bracketed class matching exactly `keys`, with the
/// special ones escaped.
pub open spec fn class_body(keys: Seq<char>) -> Seq<char>
    decreases keys.len(),
{
    if keys.len() == 0 {
        Seq::empty()
    } else {
        class_body(keys.drop_last()) + if class_special(keys.last()) {
            seq!['\\', keys.last()]
        } else {
            seq![keys.last()]
        }
    }
}

/// The pattern of runs of at least `n` characters taken from `keys`.
pub open spec fn run_pattern(keys: Seq<char>, n: nat) -> Seq<char> {
    seq!['['] + class_body(keys) + seq![']', '{'] + decimal(n) + seq![',', '}']
}

/// The pattern `[keys]{n,}` with the special characters of a class escaped.
pub fn min_length_pattern(keys: &Vec<char>, n: u32) -> (p: String)
    ensures
        p@ == run_pattern(keys@, n as nat),
{
    let mut p = String::new();
    push_char(&mut p, '[');
    let mut i: usize = 0;
    while i < keys.len()
        invariant
            i <= keys@.len(),
            p@ == seq!['['] + class_body(keys@.take(i as int)),
        decreases keys@.len() - i,
    {
        let c = keys[i];
        if c == '^' || c == '[' || c == ']' || c == '-' || c == '\\' || c == '&' || c == '~' {
            push_char(&mut p, '\\');
        }
        push_char(&mut p, c);
        proof {
            assert(keys@.take(i + 1).drop_last() =~= keys@.take(i as int));
            assert(p@ =~= seq!['['] + class_body(keys@.take(i + 1)));
        }
        i = i + 1;
    }
    assert(keys@.take(i as int) =~= keys@);
    push_char(&mut p, ']');
    push_char(&mut p, '{');
    push_decimal(&mut p, n);
    push_char(&mut p, ',');
    push_char(&mut p, '}');
    assert(p@ =~= run_pattern(keys@, n as nat));
    p
}

/// The patterns of a selector built from a pattern and an optional minimum
/// run length over the keys `keys`: the pattern unless it is `.*`, then the
/// pattern of runs of at least that many key characters.
pub open spec fn selector_patterns(pattern: Seq<char>, min_len: Option<u32>, keys: Seq<char>) -> Seq<Seq<char>> {
    (if pattern == seq!['.', '*'] {
        Seq::empty()
    } else {
        seq![pattern]
    }) + match min_len {
        Some(n) => seq![run_pattern(keys, n as nat)],
        None => Seq::empty(),
    }
}

/// Up to two compiled patterns that select the styled spans of a line.
pub struct SpanSelector {
    patterns: Vec<Pattern>,
}

impl SpanSelector {
    #[verifier::type_invariant]
    spec fn inv(&self) -> bool {
        self.patterns@.len() <= 2
    }

    /// The texts of the patterns, in the order they narrow the selection.
    pub closed spec fn pattern_texts(&self) -> Seq<Seq<char>> {
        self.patterns@.map_values(|p: Pattern| p.source())
    }

    /// The selector of a run: the given pattern unless it is `.*`, which
    /// selects every line whole, and with a minimum run length the pattern of
    /// runs of at least that many characters of the style table. It fails
    /// exactly when a pattern that it needs does not compile.
    pub fn new(pattern: &str, min_len: Option<u32>, table: &StyleTable) -> (r: Result<
        SpanSelector,
        ConfigError,
    >)
        ensures
            r is Ok <==> (pattern@ == seq!['.', '*'] || regex_compiles(pattern@)) && (min_len matches Some(
                n,
            ) ==> regex_compiles(run_pattern(table.key_seq(), n as nat))),
            r matches Ok(sel) ==> sel.pattern_texts() == selector_patterns(pattern@, min_len, table.key_seq()),
            r matches Err(e) ==> e is BadPattern,
    {
        let mut patterns: Vec<Pattern> = Vec::new();
        let p = chars_of(pattern);
        let whole = p.len() == 2 && p[0] == '.' && p[1] == '*';
        proof {
            if pattern@ == seq!['.', '*'] {
                assert(p@[0] == '.' && p@[1] == '*');
            }
            if whole {
                assert(pattern@ =~= seq!['.', '*']);
            }
        }
        if !whole {
            match compile(pattern) {
                Ok(re) => patterns.push(re),
                Err(_) => return Err(ConfigError::BadPattern(pattern.to_owned())),
            }
        }
        let ghost first = patterns@.map_values(|p: Pattern| p.source());
        assert(first =~= if whole {
            Seq::<Seq<char>>::empty()
        } else {
            seq![pattern@]
        });
        if let Some(n) = min_len {
            let run = min_length_pattern(&table.keys(), n);
            match compile(run.as_str()) {
                Ok(re) => patterns.push(re),
                Err(_) => return Err(ConfigError::BadPattern(run)),
            }
        }
        let sel = SpanSelector { patterns };
        assert(sel.pattern_texts() =~= selector_patterns(pattern@, min_len, table.key_seq()));
        Ok(sel)
    }

    /// How many patterns narrow the selection.
    pub fn count(&self) -> (n: usize)
        ensures
            n == self.pattern_texts().len(),
            n <= 2,
    {
        proof {
            use_type_invariant(self);
        }
        self.patterns.len()
    }

    /// The selected spans of a line, as character positions: the whole line
    /// without patterns, the matches of one pattern, or the matches of the
    /// second pattern within each match of the first.
    pub fn selection(&self, line: &str) -> (r: Vec<(usize, usize)>)
        ensures
            r@ == selected(self.pattern_texts(), line@),
            spans_ok(r@, line@.len() as int),
    {
        proof {
            use_type_invariant(self);
        }
        let ghost texts = self.pattern_texts();
        let chars = chars_of(line);
        let n = self.patterns.len();
        if n == 0 {
            return vec![(0, chars.len())];
        }
        assert(texts[0] == self.patterns@[0].source());
        let outer = to_char_spans(&chars, &find_all(&self.patterns[0], line));
        assert(texts.take(1) =~= seq![texts[0]]);
        if n == 1 {
            return outer;
        }
        assert(texts[1] == self.patterns@[1].source());
        let mut inners: Vec<Vec<(usize, usize)>> = Vec::new();
        let mut k: usize = 0;
        while k < outer.len()
            invariant
                k <= outer@.len(),
                inners@.len() == k,
                n == self.patterns@.len(),
                n == 2,
                texts == self.pattern_texts(),
                chars@ == line@,
                spans_ok(outer@, chars@.len() as int),
                forall|m: int| 0 <= m < k ==> spans_ok(#[trigger] inners@[m]@, outer@[m].1 - outer@[m].0),
                forall|m: int|
                    0 <= m < k ==> #[trigger] inners@[m]@ == one_selection(
                        texts[1],
                        line@.subrange(outer@[m].0 as int, outer@[m].1 as int),
                    ),
                forall|m: int|
                    0 <= m < k ==> matches_ok(
                        texts[1],
                        line@.subrange((#[trigger] outer@[m]).0 as int, outer@[m].1 as int),
                    ),
            decreases outer@.len() - k,
        {
            let (lo, hi) = outer[k];
            assert(outer@[k as int].0 <= outer@[k as int].1);
            let sub = string_of(&chars, lo, hi);
            let sub_chars = chars_of(sub.as_str());
            let found = find_all(&self.patterns[1], sub.as_str());
            inners.push(to_char_spans(&sub_chars, &found));
            k = k + 1;
        }
        assert(inners_ok(outer@, span_lists(inners@)));
        assert(span_lists(inners@) =~= inner_selections(texts[1], line@, outer@));
        proof {
            and_selection_within_outer(outer@, span_lists(inners@), chars@.len() as int);
        }
        and_spans(&outer, &inners, chars.len())
    }
}

/// Two patterns select no more than the first alone: every position that the
/// pair selects in a line lies in a match of the first pattern, given that
/// the matches of each pattern are well-formed spans of the text searched
/// (which `SpanSelector::selection` ensures of every line it selects in).
pub proof fn two_patterns_select_within_first(p1: Seq<char>, p2: Seq<char>, line: Seq<char>)
    requires
        matches_ok(p1, line),
        forall|k: int|
            0 <= k < one_selection(p1, line).len() ==> matches_ok(
                p2,
                line.subrange(
                    (#[trigger] one_selection(p1, line)[k]).0 as int,
                    one_selection(p1, line)[k].1 as int,
                ),
            ),
    ensures
        forall|pos: int| covered(selected(seq![p1, p2], line), pos) ==> covered(selected(seq![p1], line), pos),
{
    let outer = one_selection(p1, line);
    lemma_char_spans_ok(line, regex_matches(p1, line));
    let inners = inner_selections(p2, line, outer);
    assert(inners_ok(outer, inners)) by {
        assert forall|k: int| 0 <= k < outer.len() implies spans_ok(#[trigger] inners[k], outer[k].1 - outer[k].0) by {
            let sub = line.subrange(outer[k].0 as int, outer[k].1 as int);
            assert(outer[k].0 <= outer[k].1 <= line.len());
            lemma_char_spans_ok(sub, regex_matches(p2, sub));
        }
    }
    and_selection_within_outer(outer, inners, line.len() as int);
    assert(seq![p1, p2][0] == p1 && seq![p1, p2][1] == p2 && seq![p1][0] == p1);
}

} // verus!

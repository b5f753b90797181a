//! Colour schemes as text: colour descriptions (hex, integer triplet or name),
//! scheme files of `character<delimiter>colour` lines, and the tab-separated
//! form of the bundled schemes.
use vstd::prelude::*;

use yansi::Color;

use crate::charmap::CharMap;
use crate::error::ConfigError;
use crate::styles::ColorScheme;
use crate::consensus::Emphasis;
use crate::text::{chars_of, string_of};

verus! {

/// Unicode White_Space: the characters that trimming removes.
pub open spec fn is_ws(c: char) -> bool {
    let u = c as u32;
    (0x9 <= u <= 0xd) || u == 0x20 || u == 0x85 || u == 0xa0 || u == 0x1680 || (0x2000 <= u <= 0x200a)
        || u == 0x2028 || u == 0x2029 || u == 0x202f || u == 0x205f || u == 0x3000
}

/// Whether `c` has the Unicode White_Space property.
pub fn is_white_space(c: char) -> (r: bool)
    ensures
        r == is_ws(c),
{
    let u = c as u32;
    (0x9 <= u && u <= 0xd) || u == 0x20 || u == 0x85 || u == 0xa0 || u == 0x1680 || (0x2000 <= u && u
        <= 0x200a) || u == 0x2028 || u == 0x2029 || u == 0x202f || u == 0x205f || u == 0x3000
}

/// `s` without its leading white space.
pub open spec fn trim_start(s: Seq<char>) -> Seq<char>
    decreases s.len(),
{
    if s.len() > 0 && is_ws(s[0]) {
        trim_start(s.drop_first())
    } else {
        s
    }
}

/// `s` without its trailing white space.
pub open spec fn trim_end(s: Seq<char>) -> Seq<char>
    decreases s.len(),
{
    if s.len() > 0 && is_ws(s.last()) {
        trim_end(s.drop_last())
    } else {
        s
    }
}

/// `s` without leading and trailing white space.
pub open spec fn trim(s: Seq<char>) -> Seq<char> {
    trim_end(trim_start(s))
}

proof fn lemma_trim_start_edge(s: Seq<char>)
    ensures
        trim_start(s).len() == 0 || !is_ws(trim_start(s)[0]),
    decreases s.len(),
{
    if s.len() > 0 && is_ws(s[0]) {
        lemma_trim_start_edge(s.drop_first());
    }
}

proof fn lemma_trim_end_edges(s: Seq<char>)
    ensures
        trim_end(s).len() == 0 || !is_ws(trim_end(s).last()),
        trim_end(s).len() > 0 ==> trim_end(s)[0] == s[0],
    decreases s.len(),
{
    if s.len() > 0 && is_ws(s.last()) {
        lemma_trim_end_edges(s.drop_last());
    }
}

/// Trimming twice trims no more than trimming once.
proof fn lemma_trim_idempotent(s: Seq<char>)
    ensures
        trim(trim(s)) == trim(s),
{
    let u = trim_start(s);
    let v = trim_end(u);
    lemma_trim_start_edge(s);
    lemma_trim_end_edges(u);
    assert(trim_start(v) == v);
    assert(trim_end(v) == v);
}

/// Surrounding white space does not change what a colour description gives:
/// the colour, or the error, is that of the trimmed description.
pub proof fn color_ignores_surrounding_space(s: Seq<char>)
    ensures
        parsed_color(trim(trim(s))) == parsed_color(trim(s)),
        forall|e: ConfigError| color_error(e, trim(s)) == color_error(e, s),
{
    lemma_trim_idempotent(s);
}

/// The characters of `v` without leading and trailing white space.
pub fn trimmed(v: &Vec<char>) -> (r: Vec<char>)
    ensures
        r@ == trim(v@),
{
    let n = v.len();
    let mut lo: usize = 0;
    assert(v@.subrange(0, n as int) =~= v@);
    while lo < n && is_white_space(v[lo])
        invariant
            lo <= n == v@.len(),
            trim_start(v@) == trim_start(v@.subrange(lo as int, n as int)),
        decreases n - lo,
    {
        assert(v@.subrange(lo as int, n as int).drop_first() =~= v@.subrange(lo + 1, n as int));
        lo = lo + 1;
    }
    assert(v@.subrange(0, n as int) =~= v@);
    let mut hi: usize = n;
    while hi > lo && is_white_space(v[hi - 1])
        invariant
            lo <= hi <= n == v@.len(),
            trim_end(v@.subrange(lo as int, n as int)) == trim_end(v@.subrange(lo as int, hi as int)),
        decreases hi,
    {
        assert(v@.subrange(lo as int, hi as int).drop_last() =~= v@.subrange(lo as int, hi - 1));
        hi = hi - 1;
    }
    let mut r: Vec<char> = Vec::new();
    let mut i: usize = lo;
    while i < hi
        invariant
            lo <= i <= hi <= n == v@.len(),
            r@ == v@.subrange(lo as int, i as int),
        decreases hi - i,
    {
        r.push(v[i]);
        i = i + 1;
        assert(r@ =~= v@.subrange(lo as int, i as int));
    }
    r
}

/// The value of a hexadecimal digit.
pub open spec fn hex_value(c: char) -> Option<nat> {
    let u = c as u32;
    if 0x30 <= u <= 0x39 {
        Some((u - 0x30) as nat)
    } else if 0x61 <= u <= 0x66 {
        Some((u - 0x61 + 10) as nat)
    } else if 0x41 <= u <= 0x46 {
        Some((u - 0x41 + 10) as nat)
    } else {
        None
    }
}

/// The value of a hexadecimal digit, if `c` is one.
pub fn hex_digit(c: char) -> (r: Option<u8>)
    ensures
        match hex_value(c) {
            Some(v) => r == Some(v as u8) && v < 16,
            None => r is None,
        },
{
    let u = c as u32;
    if 0x30 <= u && u <= 0x39 {
        Some((u - 0x30) as u8)
    } else if 0x61 <= u && u <= 0x66 {
        Some((u - 0x61 + 10) as u8)
    } else if 0x41 <= u && u <= 0x46 {
        Some((u - 0x41 + 10) as u8)
    } else {
        None
    }
}

/// Whether the first six characters of `s` are hexadecimal digits.
pub open spec fn hex6(s: Seq<char>) -> bool {
    s.len() >= 6 && forall|i: int| 0 <= i < 6 ==> (#[trigger] hex_value(s[i])) is Some
}

/// The byte written by the two hexadecimal digits at `i` and `i + 1`.
pub open spec fn hex_byte(s: Seq<char>, i: int) -> u8 {
    (hex_value(s[i])->0 * 16 + hex_value(s[i + 1])->0) as u8
}

/// The colour `#RRGGBB` written by the first six characters of `s`.
pub open spec fn hex_color(s: Seq<char>) -> Color {
    Color::Rgb(hex_byte(s, 0), hex_byte(s, 2), hex_byte(s, 4))
}

/// The byte written by two hexadecimal digits.
fn hex_pair(h: char, l: char) -> (b: u8)
    requires
        hex_value(h) is Some,
        hex_value(l) is Some,
    ensures
        b == (hex_value(h)->0 * 16 + hex_value(l)->0) as u8,
{
    let hi = hex_digit(h).unwrap();
    let lo = hex_digit(l).unwrap();
    hi * 16 + lo
}

/// The colour of a six-digit hexadecimal string `RRGGBB`.
pub fn parse_hex(hex: &str) -> (c: Color)
    requires
        hex6(hex@),
    ensures
        c == hex_color(hex@),
{
    let s = chars_of(hex);
    assert(hex_value(s@[0]) is Some && hex_value(s@[1]) is Some && hex_value(s@[2]) is Some);
    assert(hex_value(s@[3]) is Some && hex_value(s@[4]) is Some && hex_value(s@[5]) is Some);
    Color::Rgb(hex_pair(s[0], s[1]), hex_pair(s[2], s[3]), hex_pair(s[4], s[5]))
}

/// An ASCII decimal digit.
pub open spec fn is_digit(c: char) -> bool {
    0x30 <= (c as u32) <= 0x39
}

/// An ASCII letter.
pub open spec fn is_letter(c: char) -> bool {
    (0x41 <= (c as u32) <= 0x5a) || (0x61 <= (c as u32) <= 0x7a)
}

/// A separator of an integer triplet: white space or a comma.
pub open spec fn is_sep(c: char) -> bool {
    is_ws(c) || c == ','
}

/// A character of a colour name: an ASCII letter or a space.
pub open spec fn is_name_char(c: char) -> bool {
    is_letter(c) || c == ' '
}

/// Where the run of digits that ends at `end` starts.
pub open spec fn digits_start(t: Seq<char>, end: int) -> int
    decreases end,
{
    if 0 < end <= t.len() && is_digit(t[end - 1]) {
        digits_start(t, end - 1)
    } else {
        end
    }
}

/// Where the run of separators that ends at `end` starts.
pub open spec fn seps_start(t: Seq<char>, end: int) -> int
    decreases end,
{
    if 0 < end <= t.len() && is_sep(t[end - 1]) {
        seps_start(t, end - 1)
    } else {
        end
    }
}

/// Where the run of name characters that ends at `end` starts.
pub open spec fn names_start(t: Seq<char>, end: int) -> int
    decreases end,
{
    if 0 < end <= t.len() && is_name_char(t[end - 1]) {
        names_start(t, end - 1)
    } else {
        end
    }
}

/// The hexadecimal form: six hex digits at the end, after characters that are
/// neither ASCII letters nor digits (such as `#`).
pub open spec fn hex_form(t: Seq<char>) -> bool {
    &&& t.len() >= 6
    &&& hex6(t.subrange(t.len() - 6, t.len() as int))
    &&& forall|i: int| 0 <= i < t.len() - 6 ==> !is_digit(#[trigger] t[i]) && !is_letter(t[i])
}

/// The bounds of the three numbers of a trailing integer triplet:
/// (start, end) of the first, second and third.
pub open spec fn triplet_bounds(t: Seq<char>) -> (int, int, int, int, int, int) {
    let e3 = t.len() as int;
    let s3 = digits_start(t, e3);
    let e2 = seps_start(t, s3);
    let s2 = digits_start(t, e2);
    let e1 = seps_start(t, s2);
    let s1 = digits_start(t, e1);
    (s1, e1, s2, e2, s3, e3)
}

/// The integer triplet form: three runs of digits separated by white space or
/// commas at the end of the text.
pub open spec fn triplet_form(t: Seq<char>) -> bool {
    let b = triplet_bounds(t);
    b.0 < b.1 < b.2 < b.3 < b.4 < b.5
}

/// The value of a string of decimal digits.
pub open spec fn decimal_value(s: Seq<char>) -> nat
    decreases s.len(),
{
    if s.len() == 0 {
        0
    } else {
        decimal_value(s.drop_last()) * 10 + ((s.last() as u32) - 0x30) as nat
    }
}

/// The three numbers of the triplet form.
pub open spec fn triplet_values(t: Seq<char>) -> (nat, nat, nat) {
    let b = triplet_bounds(t);
    (
        decimal_value(t.subrange(b.0, b.1)),
        decimal_value(t.subrange(b.2, b.3)),
        decimal_value(t.subrange(b.4, b.5)),
    )
}

/// The name form: letters and spaces, then possibly digits, at the end of the text.
pub open spec fn name_form(t: Seq<char>) -> bool {
    names_start(t, digits_start(t, t.len() as int)) < digits_start(t, t.len() as int)
}

/// An ASCII letter in lower case.
pub open spec fn lower(c: char) -> char {
    if 0x41 <= (c as u32) <= 0x5a {
        (((c as u32) + 32) as u8) as char
    } else {
        c
    }
}

/// Text in lower case with its spaces removed.
pub open spec fn compact_lower(s: Seq<char>) -> Seq<char>
    decreases s.len(),
{
    if s.len() == 0 {
        Seq::empty()
    } else if s.last() == ' ' {
        compact_lower(s.drop_last())
    } else {
        compact_lower(s.drop_last()).push(lower(s.last()))
    }
}

/// The name written by the name form, in lower case without spaces.
pub open spec fn name_of(t: Seq<char>) -> Seq<char> {
    compact_lower(t.subrange(names_start(t, digits_start(t, t.len() as int)), t.len() as int))
}

/// The colour of a name, from a fixed table.
pub open spec fn named_color(name: Seq<char>) -> Option<Color> {
    if name == "black"@ {
        Some(Color::Black)
    } else if name == "red"@ {
        Some(Color::Red)
    } else if name == "green"@ {
        Some(Color::Green)
    } else if name == "yellow"@ {
        Some(Color::Yellow)
    } else if name == "blue"@ {
        Some(Color::Blue)
    } else if name == "magenta"@ {
        Some(Color::Magenta)
    } else if name == "cyan"@ {
        Some(Color::Cyan)
    } else if name == "white"@ {
        Some(Color::White)
    } else if name == "brightblack"@ {
        Some(Color::BrightBlack)
    } else if name == "brightred"@ {
        Some(Color::BrightRed)
    } else if name == "brightgreen"@ {
        Some(Color::BrightGreen)
    } else if name == "brightyellow"@ {
        Some(Color::BrightYellow)
    } else if name == "brightblue"@ {
        Some(Color::BrightBlue)
    } else if name == "brightmagenta"@ {
        Some(Color::BrightMagenta)
    } else if name == "brightcyan"@ {
        Some(Color::BrightCyan)
    } else if name == "brightwhite"@ {
        Some(Color::BrightWhite)
    } else if name == "primary"@ {
        Some(Color::Primary)
    } else if name == "gray"@ || name == "grey"@ {
        Some(Color::Rgb(127, 127, 127))
    } else {
        None
    }
}

/// The colour that a trimmed description gives, trying the hexadecimal form,
/// then the integer triplet (each at most 255), then the name form.
pub open spec fn parsed_color(t: Seq<char>) -> Option<Color> {
    if hex_form(t) {
        Some(hex_color(t.subrange(t.len() - 6, t.len() as int)))
    } else if triplet_form(t) {
        let v = triplet_values(t);
        if v.0 <= 255 && v.1 <= 255 && v.2 <= 255 {
            Some(Color::Rgb(v.0 as u8, v.1 as u8, v.2 as u8))
        } else {
            None
        }
    } else if name_form(t) {
        named_color(name_of(t))
    } else {
        None
    }
}

/// Whether the characters of `v` are those of `s`.
pub fn eq_str(v: &Vec<char>, s: &str) -> (r: bool)
    ensures
        r == (v@ == s@),
{
    let n = s.unicode_len();
    if v.len() != n {
        return false;
    }
    let mut i: usize = 0;
    while i < n
        invariant
            i <= n,
            n == v@.len(),
            n == s@.len(),
            forall|j: int| 0 <= j < i ==> v@[j] == s@[j],
        decreases n - i,
    {
        if v[i] != s.get_char(i) {
            return false;
        }
        i = i + 1;
    }
    assert(v@ =~= s@);
    true
}

/// The colour of a name in lower case without spaces, from the fixed table.
pub fn color_by_name(name: &Vec<char>) -> (r: Option<Color>)
    ensures
        r == named_color(name@),
{
    if eq_str(name, "black") {
        Some(Color::Black)
    } else if eq_str(name, "red") {
        Some(Color::Red)
    } else if eq_str(name, "green") {
        Some(Color::Green)
    } else if eq_str(name, "yellow") {
        Some(Color::Yellow)
    } else if eq_str(name, "blue") {
        Some(Color::Blue)
    } else if eq_str(name, "magenta") {
        Some(Color::Magenta)
    } else if eq_str(name, "cyan") {
        Some(Color::Cyan)
    } else if eq_str(name, "white") {
        Some(Color::White)
    } else if eq_str(name, "brightblack") {
        Some(Color::BrightBlack)
    } else if eq_str(name, "brightred") {
        Some(Color::BrightRed)
    } else if eq_str(name, "brightgreen") {
        Some(Color::BrightGreen)
    } else if eq_str(name, "brightyellow") {
        Some(Color::BrightYellow)
    } else if eq_str(name, "brightblue") {
        Some(Color::BrightBlue)
    } else if eq_str(name, "brightmagenta") {
        Some(Color::BrightMagenta)
    } else if eq_str(name, "brightcyan") {
        Some(Color::BrightCyan)
    } else if eq_str(name, "brightwhite") {
        Some(Color::BrightWhite)
    } else if eq_str(name, "primary") {
        Some(Color::Primary)
    } else if eq_str(name, "gray") || eq_str(name, "grey") {
        Some(Color::Rgb(127, 127, 127))
    } else {
        None
    }
}

fn digit_at(c: char) -> (r: bool)
    ensures
        r == is_digit(c),
{
    0x30 <= (c as u32) && (c as u32) <= 0x39
}

fn letter_at(c: char) -> (r: bool)
    ensures
        r == is_letter(c),
{
    (0x41 <= (c as u32) && (c as u32) <= 0x5a) || (0x61 <= (c as u32) && (c as u32) <= 0x7a)
}

fn digits_back(t: &Vec<char>, end: usize) -> (s: usize)
    requires
        end <= t@.len(),
    ensures
        s == digits_start(t@, end as int),
        s <= end,
        forall|i: int| s <= i < end ==> is_digit(#[trigger] t@[i]),
{
    let mut i = end;
    while i > 0 && digit_at(t[i - 1])
        invariant
            i <= end <= t@.len(),
            digits_start(t@, end as int) == digits_start(t@, i as int),
            forall|j: int| i <= j < end ==> is_digit(#[trigger] t@[j]),
        decreases i,
    {
        i = i - 1;
    }
    i
}

fn seps_back(t: &Vec<char>, end: usize) -> (s: usize)
    requires
        end <= t@.len(),
    ensures
        s == seps_start(t@, end as int),
        s <= end,
{
    let mut i = end;
    while i > 0 && (is_white_space(t[i - 1]) || t[i - 1] == ',')
        invariant
            i <= end <= t@.len(),
            seps_start(t@, end as int) == seps_start(t@, i as int),
        decreases i,
    {
        i = i - 1;
    }
    i
}

fn names_back(t: &Vec<char>, end: usize) -> (s: usize)
    requires
        end <= t@.len(),
    ensures
        s == names_start(t@, end as int),
        s <= end,
{
    let mut i = end;
    while i > 0 && (letter_at(t[i - 1]) || t[i - 1] == ' ')
        invariant
            i <= end <= t@.len(),
            names_start(t@, end as int) == names_start(t@, i as int),
        decreases i,
    {
        i = i - 1;
    }
    i
}

proof fn lemma_decimal_grows(s: Seq<char>, i: int)
    requires
        0 <= i <= s.len(),
    ensures
        decimal_value(s.take(i)) <= decimal_value(s),
    decreases s.len() - i,
{
    if i < s.len() {
        lemma_decimal_grows(s.drop_last(), i);
        assert(s.drop_last().take(i) =~= s.take(i));
    } else {
        assert(s.take(i) =~= s);
    }
}

/// The value of the digits `t[lo..hi]`, if it is at most 255.
fn decimal_u8(t: &Vec<char>, lo: usize, hi: usize) -> (r: Option<u8>)
    requires
        lo <= hi <= t@.len(),
        forall|i: int| lo <= i < hi ==> is_digit(#[trigger] t@[i]),
    ensures
        r == if decimal_value(t@.subrange(lo as int, hi as int)) <= 255 {
            Some(decimal_value(t@.subrange(lo as int, hi as int)) as u8)
        } else {
            None::<u8>
        },
{
    let ghost d = t@.subrange(lo as int, hi as int);
    let mut v: u32 = 0;
    let mut i: usize = lo;
    while i < hi
        invariant
            lo <= i <= hi <= t@.len(),
            d == t@.subrange(lo as int, hi as int),
            forall|j: int| lo <= j < hi ==> is_digit(#[trigger] t@[j]),
            v == decimal_value(d.take(i - lo)),
            v <= 255,
        decreases hi - i,
    {
        assert(d.take(i - lo + 1).drop_last() =~= d.take(i - lo));
        assert(d.take(i - lo + 1).last() == t@[i as int]);
        assert(is_digit(t@[i as int]));
        let next = v * 10 + ((t[i] as u32) - 0x30);
        i = i + 1;
        if next > 255 {
            proof {
                lemma_decimal_grows(d, i - lo);
            }
            return None;
        }
        v = next;
    }
    assert(d.take(i - lo) =~= d);
    Some(v as u8)
}

fn lower_char(c: char) -> (r: char)
    ensures
        r == lower(c),
{
    let u = c as u32;
    if 0x41 <= u && u <= 0x5a {
        ((u + 32) as u8) as char
    } else {
        c
    }
}

/// `t[lo..hi]` in lower case with its spaces removed.
fn compact_lowered(t: &Vec<char>, lo: usize, hi: usize) -> (r: Vec<char>)
    requires
        lo <= hi <= t@.len(),
    ensures
        r@ == compact_lower(t@.subrange(lo as int, hi as int)),
{
    let mut r: Vec<char> = Vec::new();
    let mut i: usize = lo;
    while i < hi
        invariant
            lo <= i <= hi <= t@.len(),
            r@ == compact_lower(t@.subrange(lo as int, i as int)),
        decreases hi - i,
    {
        assert(t@.subrange(lo as int, i + 1).drop_last() =~= t@.subrange(lo as int, i as int));
        if t[i] != ' ' {
            r.push(lower_char(t[i]));
        }
        i = i + 1;
    }
    r
}

/// Whether `t` is in the hexadecimal form.
fn is_hex_form(t: &Vec<char>) -> (r: bool)
    ensures
        r == hex_form(t@),
{
    let n = t.len();
    if n < 6 {
        return false;
    }
    let mut i: usize = n - 6;
    while i < n
        invariant
            n - 6 <= i <= n,
            n >= 6,
            n == t@.len(),
            forall|j: int| n - 6 <= j < i ==> (#[trigger] hex_value(t@[j])) is Some,
        decreases n - i,
    {
        if hex_digit(t[i]).is_none() {
            assert(hex_value(t@.subrange(n - 6, n as int)[i - (n - 6)]) is None);
            return false;
        }
        i = i + 1;
    }
    assert(hex6(t@.subrange(n - 6, n as int))) by {
        assert forall|j: int| 0 <= j < 6 implies (#[trigger] hex_value(t@.subrange(n - 6, n as int)[j])) is Some by {
            assert(t@.subrange(n - 6, n as int)[j] == t@[n - 6 + j]);
        }
    }
    let mut k: usize = 0;
    while k < n - 6
        invariant
            k <= n - 6,
            n >= 6,
            n == t@.len(),
            hex6(t@.subrange(n - 6, n as int)),
            forall|j: int| 0 <= j < k ==> !is_digit(#[trigger] t@[j]) && !is_letter(t@[j]),
        decreases n - 6 - k,
    {
        if digit_at(t[k]) || letter_at(t[k]) {
            return false;
        }
        k = k + 1;
    }
    true
}

/// The error for a colour description that does not parse: an unknown name
/// when it has only the name form, else an unparsable description; either
/// carries the description without surrounding white space.
pub open spec fn color_error(e: ConfigError, coltext: Seq<char>) -> bool {
    let t = trim(coltext);
    if name_form(t) && !hex_form(t) && !triplet_form(t) {
        e matches ConfigError::UnknownColorName(x) && x@ == t
    } else {
        e matches ConfigError::UnparsableColor(x) && x@ == t
    }
}

/// The colour of a description: after trimming, six hexadecimal digits at
/// the end (after non-alphanumeric characters such as `#`), else three
/// integers up to 255 separated by white space or commas at the end, else a
/// colour name (case and spaces ignored).
pub fn parse_color(coltext: &str) -> (r: Result<Color, ConfigError>)
    ensures
        parsed_color(trim(coltext@)) matches Some(c) ==> r == Ok::<Color, ConfigError>(c),
        parsed_color(trim(coltext@)) is None ==> r is Err,
        r matches Err(e) ==> color_error(e, coltext@),
{
    let t = trimmed(&chars_of(coltext));
    let n = t.len();
    assert(t@.subrange(0, n as int) =~= t@);
    if is_hex_form(&t) {
        let hex = string_of(&t, n - 6, n);
        return Ok(parse_hex(hex.as_str()));
    }
    let s3 = digits_back(&t, n);
    let e2 = seps_back(&t, s3);
    let s2 = digits_back(&t, e2);
    let e1 = seps_back(&t, s2);
    let s1 = digits_back(&t, e1);
    if s1 < e1 && e1 < s2 && s2 < e2 && e2 < s3 && s3 < n {
        let r = decimal_u8(&t, s1, e1);
        let g = decimal_u8(&t, s2, e2);
        let b = decimal_u8(&t, s3, n);
        return match (r, g, b) {
            (Some(r), Some(g), Some(b)) => Ok(Color::Rgb(r, g, b)),
            _ => Err(ConfigError::UnparsableColor(string_of(&t, 0, n))),
        };
    }
    let ds = digits_back(&t, n);
    let ls = names_back(&t, ds);
    if ls < ds {
        let name = compact_lowered(&t, ls, n);
        return match color_by_name(&name) {
            Some(c) => Ok(c),
            None => Err(ConfigError::UnknownColorName(string_of(&t, 0, n))),
        };
    }
    Err(ConfigError::UnparsableColor(string_of(&t, 0, n)))
}

/// What a line of a scheme file holds: nothing if blank, else its first
/// non-blank character and the colour of the rest (none if unparsable).
pub open spec fn line_entry(line: Seq<char>) -> Option<(char, Option<Color>)> {
    let t = trim(line);
    if t.len() == 0 {
        None
    } else {
        Some((t[0], parsed_color(trim(t.drop_first()))))
    }
}

/// Whether every non-blank line of a scheme file has a colour.
pub open spec fn scheme_lines_ok(lines: Seq<Seq<char>>) -> bool {
    forall|i: int| 0 <= i < lines.len() ==> !(#[trigger] line_entry(lines[i]) matches Some((_, None)))
}

/// The scheme that the lines of a scheme file give; a later line wins.
pub open spec fn scheme_of_lines(lines: Seq<Seq<char>>) -> Map<char, Color>
    decreases lines.len(),
{
    if lines.len() == 0 {
        Map::empty()
    } else {
        let m = scheme_of_lines(lines.drop_last());
        match line_entry(lines.last()) {
            Some((k, Some(c))) => m.insert(k, c),
            _ => m,
        }
    }
}

/// The views of a sequence of strings.
pub open spec fn string_views(v: Seq<String>) -> Seq<Seq<char>> {
    v.map_values(|s: String| s@)
}

/// The colour scheme of the lines of a scheme file: each non-blank line holds
/// a character and, after a delimiter, a colour description. A line whose
/// description does not parse is an error, which names the description.
pub fn read_colorscheme(lines: &Vec<String>) -> (r: Result<ColorScheme, ConfigError>)
    ensures
        scheme_lines_ok(string_views(lines@)) ==> r is Ok && r->Ok_0@ == scheme_of_lines(string_views(lines@)),
        !scheme_lines_ok(string_views(lines@)) ==> r is Err,
        r matches Err(e) ==> exists|i: int|
            0 <= i < lines@.len() && scheme_lines_ok(string_views(lines@).take(i)) && (line_entry(
                #[trigger] string_views(lines@)[i],
            ) matches Some((_, None))) && color_error(e, trim(string_views(lines@)[i]).drop_first()),
{
    let ghost ls = string_views(lines@);
    let mut scheme: ColorScheme = CharMap::new();
    let mut i: usize = 0;
    while i < lines.len()
        invariant
            i <= lines@.len(),
            ls == string_views(lines@),
            scheme_lines_ok(ls.take(i as int)),
            scheme@ == scheme_of_lines(ls.take(i as int)),
        decreases lines@.len() - i,
    {
        assert(ls.take(i + 1).drop_last() =~= ls.take(i as int));
        assert(ls[i as int] == lines@[i as int]@);
        let t = trimmed(&chars_of(lines[i].as_str()));
        if t.len() > 0 {
            let rest = string_of(&t, 1, t.len());
            assert(rest@ =~= t@.drop_first());
            match parse_color(rest.as_str()) {
                Ok(c) => scheme.insert(t[0], c),
                Err(e) => {
                    assert(line_entry(ls[i as int]) matches Some((_, None)));
                    assert(color_error(e, trim(ls[i as int]).drop_first()));
                    return Err(e);
                },
            }
        }
        assert(scheme_lines_ok(ls.take(i + 1))) by {
            assert forall|j: int| 0 <= j < i + 1 implies !(#[trigger] line_entry(ls.take(i + 1)[j]) matches Some((_, None))) by {
                if j < i {
                    assert(ls.take(i + 1)[j] == ls.take(i as int)[j]);
                }
            }
        }
        i = i + 1;
    }
    assert(ls.take(i as int) =~= ls);
    Ok(scheme)
}

/// The pieces of a text between newlines, as `str::split` gives them.
pub open spec fn split_lines(s: Seq<char>) -> Seq<Seq<char>>
    decreases s.len(),
{
    if s.len() == 0 {
        seq![Seq::empty()]
    } else {
        let p = split_lines(s.drop_last());
        if s.last() == '\n' {
            p.push(Seq::empty())
        } else {
            p.update(p.len() - 1, p.last().push(s.last()))
        }
    }
}

proof fn lemma_split_nonempty(s: Seq<char>)
    ensures
        split_lines(s).len() >= 1,
    decreases s.len(),
{
    if s.len() > 0 {
        lemma_split_nonempty(s.drop_last());
    }
}

/// The pieces of `s` between newlines.
pub fn split_on_newlines(s: &Vec<char>) -> (r: Vec<Vec<char>>)
    ensures
        r@.map_values(|v: Vec<char>| v@) == split_lines(s@),
{
    let mut done: Vec<Vec<char>> = Vec::new();
    let mut cur: Vec<char> = Vec::new();
    let mut i: usize = 0;
    while i < s.len()
        invariant
            i <= s@.len(),
            done@.map_values(|v: Vec<char>| v@).push(cur@) == split_lines(s@.take(i as int)),
        decreases s@.len() - i,
    {
        proof {
            assert(s@.take(i + 1).drop_last() =~= s@.take(i as int));
            lemma_split_nonempty(s@.take(i as int));
        }
        if s[i] == '\n' {
            let ghost before = done@.map_values(|v: Vec<char>| v@).push(cur@);
            done.push(cur);
            cur = Vec::new();
            assert(done@.map_values(|v: Vec<char>| v@).push(cur@) =~= before.push(Seq::empty()));
        } else {
            let ghost before = done@.map_values(|v: Vec<char>| v@).push(cur@);
            cur.push(s[i]);
            assert(done@.map_values(|v: Vec<char>| v@).push(cur@) =~= before.update(
                before.len() - 1,
                before.last().push(s@[i as int]),
            ));
        }
        i = i + 1;
    }
    assert(s@.take(i as int) =~= s@);
    done.push(cur);
    assert(done@.map_values(|v: Vec<char>| v@) =~= split_lines(s@));
    done
}

/// What a line of a bundled scheme holds: `None` if malformed; a line without
/// a tab holds nothing; else the first character before the tab and the
/// colour of the six hex digits after one character (`#`) past it.
#[verifier::opaque]
pub open spec fn bundled_entry(line: Seq<char>) -> Option<Option<(char, Color)>> {
    if !line.contains('\t') {
        Some(None)
    } else {
        let tab = choose|i: int| 0 <= i < line.len() && line[i] == '\t' && forall|j: int| 0 <= j < i ==> line[j] != '\t';
        let hex = line.subrange(tab + 1, line.len() as int);
        if tab > 0 && hex.len() >= 1 && hex6(hex.drop_first()) {
            Some(Some((line[0], hex_color(hex.drop_first()))))
        } else {
            None
        }
    }
}

/// The scheme of the pieces of a bundled scheme file, if none is malformed.
pub open spec fn bundled_scheme(lines: Seq<Seq<char>>) -> Option<Map<char, Color>>
    decreases lines.len(),
{
    if lines.len() == 0 {
        Some(Map::empty())
    } else {
        match (bundled_scheme(lines.drop_last()), bundled_entry(lines.last())) {
            (Some(m), Some(Some((k, c)))) => Some(m.insert(k, c)),
            (Some(m), Some(None)) => Some(m),
            _ => None,
        }
    }
}

/// Whether the first six characters of `v` are hexadecimal digits.
fn is_hex6(v: &Vec<char>) -> (r: bool)
    ensures
        r == hex6(v@),
{
    if v.len() < 6 {
        return false;
    }
    let mut i: usize = 0;
    while i < 6
        invariant
            i <= 6,
            v@.len() >= 6,
            forall|j: int| 0 <= j < i ==> (#[trigger] hex_value(v@[j])) is Some,
        decreases 6 - i,
    {
        if hex_digit(v[i]).is_none() {
            return false;
        }
        i = i + 1;
    }
    true
}

proof fn lemma_bundled_none(lines: Seq<Seq<char>>, j: int)
    requires
        0 <= j <= lines.len(),
        bundled_scheme(lines.take(j)) is None,
    ensures
        bundled_scheme(lines) is None,
    decreases lines.len() - j,
{
    if j < lines.len() {
        assert(lines.take(j + 1).drop_last() =~= lines.take(j));
        lemma_bundled_none(lines, j + 1);
    } else {
        assert(lines.take(j) =~= lines);
    }
}

/// The first tab of `v`, if it has one.
fn find_tab(v: &Vec<char>) -> (r: Option<usize>)
    ensures
        match r {
            Some(i) => i < v@.len() && v@[i as int] == '\t' && forall|j: int| 0 <= j < i ==> v@[j] != '\t',
            None => !v@.contains('\t'),
        },
{
    let mut i: usize = 0;
    while i < v.len()
        invariant
            i <= v@.len(),
            forall|j: int| 0 <= j < i ==> v@[j] != '\t',
        decreases v@.len() - i,
    {
        if v[i] == '\t' {
            return Some(i);
        }
        i = i + 1;
    }
    None
}

/// What a line of a bundled scheme holds.
fn bundled_line(line: &Vec<char>) -> (r: Option<Option<(char, Color)>>)
    ensures
        r == bundled_entry(line@),
{
    reveal(bundled_entry);
    match find_tab(line) {
        None => Some(None),
        Some(tab) => {
            proof {
                let t = choose|t: int|
                    0 <= t < line@.len() && line@[t] == '\t' && forall|j: int| 0 <= j < t ==> line@[j] != '\t';
                assert(line@.contains('\t'));
                assert(t == tab) by {
                    if t < tab {
                        assert(line@[t] != '\t');
                    }
                    if t > tab {
                        assert(line@[tab as int] != '\t');
                    }
                }
            }
            let hex_len = line.len() - (tab + 1);
            if tab > 0 && hex_len >= 7 {
                let hex = string_of(line, tab + 2, tab + 8);
                let ghost h = line@.subrange(tab + 1, line@.len() as int);
                let ghost hd = h.drop_first();
                assert forall|j: int| 0 <= j < 6 implies #[trigger] hd[j] == hex@[j] by {}
                if is_hex6(&chars_of(hex.as_str())) {
                    assert(hex6(hd)) by {
                        assert forall|j: int| 0 <= j < 6 implies (#[trigger] hex_value(hd[j])) is Some by {
                            assert(hex_value(hex@[j]) is Some);
                        }
                    }
                    assert(hd[0] == hex@[0] && hd[1] == hex@[1] && hd[2] == hex@[2]);
                    assert(hd[3] == hex@[3] && hd[4] == hex@[4] && hd[5] == hex@[5]);
                    assert(hex_color(hd) == hex_color(hex@));
                    Some(Some((line[0], parse_hex(hex.as_str()))))
                } else {
                    assert(!hex6(hd)) by {
                        if hex6(hd) {
                            assert forall|j: int| 0 <= j < 6 implies (#[trigger] hex_value(hex@[j])) is Some by {
                                assert(hex_value(hd[j]) is Some);
                            }
                        }
                    }
                    None
                }
            } else {
                None
            }
        },
    }
}

/// The colour scheme of a bundled scheme file: lines of a character, a tab
/// and `#RRGGBB`; `None` if a line is malformed.
pub fn parse_bundled_scheme(contents: &str) -> (r: Option<ColorScheme>)
    ensures
        match bundled_scheme(split_lines(contents@)) {
            Some(m) => r is Some && r->0@ == m,
            None => r is None,
        },
{
    let pieces = split_on_newlines(&chars_of(contents));
    let ghost ps = pieces@.map_values(|v: Vec<char>| v@);
    let mut scheme: ColorScheme = CharMap::new();
    let mut i: usize = 0;
    while i < pieces.len()
        invariant
            i <= pieces@.len(),
            ps == pieces@.map_values(|v: Vec<char>| v@),
            ps == split_lines(contents@),
            bundled_scheme(ps.take(i as int)) == Some(scheme@),
        decreases pieces@.len() - i,
    {
        assert(ps.take(i + 1).drop_last() =~= ps.take(i as int));
        let line = &pieces[i];
        assert(line@ == ps[i as int]);
        assert(ps.take(i + 1).last() == ps[i as int]);
        match bundled_line(line) {
            Some(Some((k, c))) => scheme.insert(k, c),
            Some(None) => {},
            None => {
                proof {
                    assert(ps.take(i + 1).last() == ps[i as int]);
                    assert(bundled_scheme(ps.take(i + 1)) is None);
                    lemma_bundled_none(ps, i + 1);
                }
                return None;
            },
        }
        i = i + 1;
    }
    assert(ps.take(i as int) =~= ps);
    Some(scheme)
}

/// The emphasis of a consensus spec: "bold", "underline", or else a colour
/// description for the background.
pub fn parse_emphasis(spec: &str) -> (r: Result<Emphasis, ConfigError>)
    ensures
        spec@ == "bold"@ ==> r == Ok::<Emphasis, ConfigError>(Emphasis::Bold),
        spec@ == "underline"@ ==> r == Ok::<Emphasis, ConfigError>(Emphasis::Underline),
        spec@ != "bold"@ && spec@ != "underline"@ ==> match parsed_color(trim(spec@)) {
            Some(c) => r == Ok::<Emphasis, ConfigError>(Emphasis::Background(c)),
            None => r is Err,
        },
{
    proof {
        reveal_strlit("bold");
        reveal_strlit("underline");
    }
    let s = chars_of(spec);
    if eq_str(&s, "bold") {
        Ok(Emphasis::Bold)
    } else if eq_str(&s, "underline") {
        Ok(Emphasis::Underline)
    } else {
        match parse_color(spec) {
            Ok(c) => Ok(Emphasis::Background(c)),
            Err(e) => Err(e),
        }
    }
}

/// The scheme name of a bundled file: its file name without the `.tsv` extension.
pub open spec fn tsv_stem(name: Seq<char>) -> Option<Seq<char>> {
    if name.len() >= 4 && name.subrange(name.len() - 4, name.len() as int) == seq!['.', 't', 's', 'v'] {
        Some(name.subrange(0, name.len() - 4))
    } else {
        None
    }
}

/// The scheme name of a bundled file name, if it ends in `.tsv`.
pub fn scheme_name(file_name: &str) -> (r: Option<String>)
    ensures
        match tsv_stem(file_name@) {
            Some(stem) => r is Some && r->0@ == stem,
            None => r is None,
        },
{
    let v = chars_of(file_name);
    let n = v.len();
    if n >= 4 && v[n - 4] == '.' && v[n - 3] == 't' && v[n - 2] == 's' && v[n - 1] == 'v' {
        assert(v@.subrange(n - 4, n as int) =~= seq!['.', 't', 's', 'v']);
        Some(string_of(&v, 0, n - 4))
    } else {
        proof {
            if n >= 4 && v@.subrange(n - 4, n as int) == seq!['.', 't', 's', 'v'] {
                assert(v@.subrange(n - 4, n as int)[0] == v@[n - 4]);
                assert(v@.subrange(n - 4, n as int)[1] == v@[n - 3]);
                assert(v@.subrange(n - 4, n as int)[2] == v@[n - 2]);
                assert(v@.subrange(n - 4, n as int)[3] == v@[n - 1]);
            }
        }
        None
    }
}

/// The names of the bundled schemes, from their file names; `None` if a file
/// name does not end in `.tsv`.
pub fn get_colorscheme_names(file_names: &Vec<String>) -> (r: Option<Vec<String>>)
    ensures
        r is Some <==> forall|i: int| 0 <= i < file_names@.len() ==> tsv_stem(#[trigger] file_names@[i]@) is Some,
        r matches Some(v) ==> v@.len() == file_names@.len() && forall|i: int|
            0 <= i < v@.len() ==> Some((#[trigger] v@[i])@) == tsv_stem(file_names@[i]@),
{
    let mut names: Vec<String> = Vec::new();
    let mut i: usize = 0;
    while i < file_names.len()
        invariant
            i <= file_names@.len(),
            names@.len() == i,
            forall|j: int| 0 <= j < i ==> tsv_stem(#[trigger] file_names@[j]@) is Some,
            forall|j: int| 0 <= j < i ==> Some((#[trigger] names@[j])@) == tsv_stem(file_names@[j]@),
        decreases file_names@.len() - i,
    {
        match scheme_name(file_names[i].as_str()) {
            Some(name) => names.push(name),
            None => return None,
        }
        i = i + 1;
    }
    Some(names)
}

/// The library of bundled schemes from (file name, contents) pairs; `None`
/// if a file name does not end in `.tsv` or a file is malformed.
pub fn load_colorschemes(files: &Vec<(String, String)>) -> (r: Option<SchemeLibrary>)
    ensures
        r matches Some(lib) ==> lib.view_entries().len() == files@.len() && forall|i: int|
            0 <= i < files@.len() ==> {
                &&& Some((#[trigger] lib.view_entries()[i]).0) == tsv_stem(files@[i].0@)
                &&& Some(lib.view_entries()[i].1) == bundled_scheme(split_lines(files@[i].1@))
            },
        r is None ==> exists|i: int|
            0 <= i < files@.len() && (tsv_stem((#[trigger] files@[i]).0@) is None || bundled_scheme(
                split_lines(files@[i].1@),
            ) is None),
{
    let mut lib = SchemeLibrary::new();
    let mut i: usize = 0;
    while i < files.len()
        invariant
            i <= files@.len(),
            lib.view_entries().len() == i,
            forall|j: int|
                0 <= j < i ==> {
                    &&& Some((#[trigger] lib.view_entries()[j]).0) == tsv_stem(files@[j].0@)
                    &&& Some(lib.view_entries()[j].1) == bundled_scheme(split_lines(files@[j].1@))
                },
        decreases files@.len() - i,
    {
        let (file_name, contents) = &files[i];
        let name = match scheme_name(file_name.as_str()) {
            Some(n) => n,
            None => return None,
        };
        let scheme = match parse_bundled_scheme(contents.as_str()) {
            Some(s) => s,
            None => return None,
        };
        lib.add(name, scheme);
        i = i + 1;
    }
    Some(lib)
}

/// Named colour schemes, such as those bundled with the program.
pub struct SchemeLibrary {
    entries: Vec<(String, ColorScheme)>,
}

/// Where the colours of a scheme specifier come from.
pub enum SchemeSource<'a> {
    /// The empty specifier, which adds no colours.
    Ignored,
    /// A scheme of the library with that name.
    Bundled(&'a ColorScheme),
    /// No scheme has that name: it names a scheme file.
    File,
}

impl SchemeLibrary {
    /// The names and schemes, in the order they were added.
    pub closed spec fn view_entries(&self) -> Seq<(Seq<char>, Map<char, Color>)> {
        self.entries@.map_values(|e: (String, ColorScheme)| (e.0@, e.1@))
    }

    /// The library without schemes.
    pub fn new() -> (l: SchemeLibrary)
        ensures
            l.view_entries() == Seq::<(Seq<char>, Map<char, Color>)>::empty(),
    {
        let l = SchemeLibrary { entries: Vec::new() };
        assert(l.view_entries() =~= Seq::<(Seq<char>, Map<char, Color>)>::empty());
        l
    }

    /// Adds a named scheme.
    pub fn add(&mut self, name: String, scheme: ColorScheme)
        ensures
            final(self).view_entries() == old(self).view_entries().push((name@, scheme@)),
    {
        let ghost e = (name@, scheme@);
        self.entries.push((name, scheme));
        assert(self.view_entries() =~= old(self).view_entries().push(e));
    }

    /// The first scheme with the given name.
    pub fn get(&self, name: &str) -> (r: Option<&ColorScheme>)
        ensures
            match r {
                Some(s) => exists|i: int|
                    0 <= i < self.view_entries().len() && (#[trigger] self.view_entries()[i]).0 == name@
                        && self.view_entries()[i].1 == s@ && forall|j: int|
                        0 <= j < i ==> (#[trigger] self.view_entries()[j]).0 != name@,
                None => forall|i: int|
                    0 <= i < self.view_entries().len() ==> (#[trigger] self.view_entries()[i]).0 != name@,
            },
    {
        let n = chars_of(name);
        let mut i: usize = 0;
        while i < self.entries.len()
            invariant
                i <= self.entries@.len(),
                n@ == name@,
                forall|j: int| 0 <= j < i ==> (#[trigger] self.view_entries()[j]).0 != name@,
            decreases self.entries@.len() - i,
        {
            assert(self.view_entries()[i as int] == (self.entries@[i as int].0@, self.entries@[i as int].1@));
            if eq_str(&n, self.entries[i].0.as_str()) {
                return Some(&self.entries[i].1);
            }
            i = i + 1;
        }
        None
    }

    /// The names of the schemes, in the order they were added.
    pub fn names(&self) -> (r: Vec<String>)
        ensures
            r@.len() == self.view_entries().len(),
            forall|i: int| 0 <= i < r@.len() ==> (#[trigger] r@[i])@ == self.view_entries()[i].0,
    {
        let mut r: Vec<String> = Vec::new();
        let mut i: usize = 0;
        while i < self.entries.len()
            invariant
                i <= self.entries@.len(),
                r@.len() == i,
                forall|j: int| 0 <= j < i ==> (#[trigger] r@[j])@ == self.view_entries()[j].0,
            decreases self.entries@.len() - i,
        {
            r.push(self.entries[i].0.clone());
            i = i + 1;
        }
        r
    }

    /// Where the colours of a specifier come from: nothing for the empty
    /// specifier, the library's scheme of that name, else a scheme file.
    pub fn resolve(&self, spec: &str) -> (r: SchemeSource)
        ensures
            spec@.len() == 0 ==> r is Ignored,
            spec@.len() > 0 ==> match r {
                SchemeSource::Bundled(s) => exists|i: int|
                    0 <= i < self.view_entries().len() && (#[trigger] self.view_entries()[i]).0 == spec@
                        && self.view_entries()[i].1 == s@,
                SchemeSource::File => forall|i: int|
                    0 <= i < self.view_entries().len() ==> (#[trigger] self.view_entries()[i]).0 != spec@,
                SchemeSource::Ignored => false,
            },
    {
        if spec.unicode_len() == 0 {
            return SchemeSource::Ignored;
        }
        match self.get(spec) {
            Some(s) => SchemeSource::Bundled(s),
            None => SchemeSource::File,
        }
    }
}

} // verus!

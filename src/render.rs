//! Rendering: the streaming renderer, which writes each selected span with
//! per-character SGR sequences, and the buffered cells used for consensus and
//! transposition.
use vstd::prelude::*;

use crate::select::{covered, selected, spans_ok, SpanSelector};
use crate::styles::{Style, StyleTable};
use crate::text::{chars_of, push_char, push_chars, push_range, string_of};

verus! {

/// The SGR sequence that switches a terminal to a style, as `yansi` writes it.
pub uninterp spec fn sgr_prefix(s: Style) -> Seq<char>;

/// Relies on `yansi::Style::prefix`: the SGR sequence for a style with these
/// colours and attribute, which is empty for the style that sets nothing and
/// otherwise starts with `ESC [` and ends with `m`.
#[verifier::external_body]
fn style_prefix(s: Style) -> (r: String)
    ensures
        r@ == sgr_prefix(s),
        s.is_plain() ==> r@.len() == 0,
        !s.is_plain() ==> r@.len() >= 3 && r@[0] == '\u{1b}' && r@[1] == '[' && r@.last() == 'm',
{
    let mut y = yansi::Style::new();
    y.foreground = s.fg;
    y.background = s.bg;
    match s.attr {
        Some(a) => y.attr(a).prefix().into_owned(),
        None => y.prefix().into_owned(),
    }
}

/// The SGR sequence that resets all styling.
pub open spec fn reset_seq() -> Seq<char> {
    seq!['\u{1b}', '[', '0', 'm']
}

/// Appends the reset sequence.
fn push_reset(s: &mut String)
    ensures
        final(s)@ == old(s)@ + reset_seq(),
{
    push_char(s, '\u{1b}');
    push_char(s, '[');
    push_char(s, '0');
    push_char(s, 'm');
    assert(final(s)@ =~= old(s)@ + reset_seq());
}

/// Which of foreground and background a style sets.
pub open spec fn presence(s: Style) -> (bool, bool) {
    (s.fg is Some, s.bg is Some)
}

/// The text written for `text` when the terminal has the colours of `state`
/// set (`None`: nothing set). A mapped character gets a reset first only when
/// the colours set change which of foreground and background are present; an
/// unmapped one gets a reset first when anything is set.
pub open spec fn ansi_from(table: Map<char, Style>, text: Seq<char>, state: Option<(bool, bool)>) -> Seq<
    char,
>
    decreases text.len(),
{
    if text.len() == 0 {
        Seq::empty()
    } else {
        let c = text[0];
        if table.contains_key(c) {
            let p = presence(table[c]);
            (if state is Some && state->0 != p {
                reset_seq()
            } else {
                Seq::empty()
            }) + sgr_prefix(table[c]) + seq![c] + ansi_from(table, text.drop_first(), Some(p))
        } else {
            (if state is Some {
                reset_seq()
            } else {
                Seq::empty()
            }) + seq![c] + ansi_from(table, text.drop_first(), None)
        }
    }
}

/// The text written for a styled span: its characters with their styles, then a reset.
pub open spec fn ansi_text(table: Map<char, Style>, text: Seq<char>) -> Seq<char> {
    ansi_from(table, text, None) + reset_seq()
}

/// Where two mapped characters follow each other, exactly one reset stands
/// between them when they differ in which of foreground and background are
/// set, and none when they differ in attributes alone.
pub proof fn reset_only_on_presence_change(
    table: Map<char, Style>,
    a: char,
    b: char,
    rest: Seq<char>,
    state: Option<(bool, bool)>,
)
    requires
        table.contains_key(a),
        table.contains_key(b),
    ensures
        ansi_from(table, seq![a, b] + rest, state) == (if state is Some && state->0 != presence(
            table[a],
        ) {
            reset_seq()
        } else {
            Seq::empty()
        }) + sgr_prefix(table[a]) + seq![a] + (if presence(table[a]) != presence(table[b]) {
            reset_seq()
        } else {
            Seq::empty()
        }) + sgr_prefix(table[b]) + seq![b] + ansi_from(table, rest, Some(presence(table[b]))),
{
    let t = seq![a, b] + rest;
    assert(t[0] == a);
    assert(t.drop_first() =~= seq![b] + rest);
    assert((seq![b] + rest)[0] == b);
    assert((seq![b] + rest).drop_first() =~= rest);
    let lead = if state is Some && state->0 != presence(table[a]) {
        reset_seq()
    } else {
        Seq::empty()
    };
    let mid = if presence(table[a]) != presence(table[b]) {
        reset_seq()
    } else {
        Seq::empty()
    };
    let tail = ansi_from(table, rest, Some(presence(table[b])));
    assert(ansi_from(table, seq![b] + rest, Some(presence(table[a]))) == mid + sgr_prefix(table[b])
        + seq![b] + tail);
    assert(lead + sgr_prefix(table[a]) + seq![a] + (mid + sgr_prefix(table[b]) + seq![b] + tail)
        =~= lead + sgr_prefix(table[a]) + seq![a] + mid + sgr_prefix(table[b]) + seq![b] + tail);
}

/// Writes `text` with the styles of `styles` into `buf`: each mapped character
/// after its style's SGR sequence, unmapped characters plain, resets only where
/// needed, and a reset at the end.
pub fn write_ansi(buf: &mut String, styles: &StyleTable, text: &str)
    ensures
        final(buf)@ == old(buf)@ + ansi_text(styles@, text@),
{
    let chars = chars_of(text);
    let n = chars.len();
    let mut state: Option<(bool, bool)> = None;
    let mut i: usize = 0;
    assert(chars@.subrange(0, n as int) =~= text@);
    while i < n
        invariant
            n == chars@.len(),
            chars@ == text@,
            i <= n,
            buf@ + ansi_from(styles@, chars@.subrange(i as int, n as int), state) == old(buf)@ + ansi_from(
                styles@,
                text@,
                None,
            ),
        decreases n - i,
    {
        let c = chars[i];
        let ghost rest = chars@.subrange(i as int, n as int);
        let ghost next = chars@.subrange(i + 1, n as int);
        let ghost before = buf@;
        let ghost st0 = state;
        assert(rest[0] == c);
        assert(rest.drop_first() =~= next);
        match styles.get(c) {
            Some(style) => {
                let p = (style.fg.is_some(), style.bg.is_some());
                let reset = match state {
                    Some(q) => q.0 != p.0 || q.1 != p.1,
                    None => false,
                };
                if reset {
                    push_reset(buf);
                }
                let ghost mid = buf@;
                push_chars(buf, &chars_of(style_prefix(style).as_str()));
                push_char(buf, c);
                state = Some(p);
                proof {
                    let lead = if reset {
                        reset_seq()
                    } else {
                        Seq::<char>::empty()
                    };
                    assert(mid =~= before + lead);
                    assert(buf@ =~= before + (lead + sgr_prefix(style) + seq![c]));
                    assert(ansi_from(styles@, rest, st0) == lead + sgr_prefix(style) + seq![c]
                        + ansi_from(styles@, next, state));
                }
            },
            None => {
                if state.is_some() {
                    push_reset(buf);
                }
                let ghost mid = buf@;
                push_char(buf, c);
                state = None;
                proof {
                    let lead = if st0 is Some {
                        reset_seq()
                    } else {
                        Seq::<char>::empty()
                    };
                    assert(mid =~= before + lead);
                    assert(buf@ =~= before + (lead + seq![c]));
                    assert(ansi_from(styles@, rest, st0) == lead + seq![c] + ansi_from(
                        styles@,
                        next,
                        state,
                    ));
                }
            },
        }
        i = i + 1;
    }
    push_reset(buf);
    proof {
        assert(chars@.subrange(n as int, n as int) =~= Seq::<char>::empty());
        assert(final(buf)@ =~= old(buf)@ + ansi_text(styles@, text@));
    }
}

/// The streamed text of a line from character `cursor` on: the plain text
/// before each span, the span written with styles, and the plain rest.
pub open spec fn stream_from(
    table: Map<char, Style>,
    line: Seq<char>,
    spans: Seq<(usize, usize)>,
    cursor: int,
) -> Seq<char>
    decreases spans.len(),
{
    if spans.len() == 0 {
        line.subrange(cursor, line.len() as int)
    } else {
        line.subrange(cursor, spans[0].0 as int) + ansi_text(
            table,
            line.subrange(spans[0].0 as int, spans[0].1 as int),
        ) + stream_from(table, line, spans.drop_first(), spans[0].1 as int)
    }
}

/// The streamed text of a line with its selected spans, ended by a newline.
pub open spec fn streamed(table: Map<char, Style>, line: Seq<char>, spans: Seq<(usize, usize)>) -> Seq<
    char,
> {
    stream_from(table, line, spans, 0) + seq!['\n']
}

/// The text that the streaming renderer writes for one line and its spans.
pub fn stream_line(styles: &StyleTable, line: &str, spans: &Vec<(usize, usize)>) -> (out: String)
    requires
        spans_ok(spans@, line@.len() as int),
    ensures
        out@ == streamed(styles@, line@, spans@),
{
    let chars = chars_of(line);
    let n = chars.len();
    let mut out = String::new();
    let mut cursor: usize = 0;
    let mut k: usize = 0;
    assert(spans@.subrange(0, spans@.len() as int) =~= spans@);
    while k < spans.len()
        invariant
            n == chars@.len(),
            chars@ == line@,
            k <= spans@.len(),
            spans_ok(spans@, n as int),
            cursor <= n,
            k > 0 ==> cursor == spans@[k - 1].1,
            k == 0 ==> cursor == 0,
            out@ + stream_from(styles@, chars@, spans@.subrange(k as int, spans@.len() as int), cursor as int)
                == stream_from(styles@, chars@, spans@, 0),
        decreases spans@.len() - k,
    {
        let (lo, hi) = spans[k];
        assert(spans@[k as int].0 <= spans@[k as int].1);
        proof {
            if k > 0 {
                assert(spans@[k - 1].1 <= spans@[k as int].0);
            }
        }
        let ghost before = out@;
        let ghost rest = spans@.subrange(k as int, spans@.len() as int);
        assert(rest[0] == (lo, hi));
        assert(rest.drop_first() =~= spans@.subrange(k + 1, spans@.len() as int));
        push_range(&mut out, &chars, cursor, lo);
        let sub = string_of(&chars, lo, hi);
        write_ansi(&mut out, styles, sub.as_str());
        assert(out@ =~= before + (chars@.subrange(cursor as int, lo as int) + ansi_text(
            styles@,
            chars@.subrange(lo as int, hi as int),
        )));
        cursor = hi;
        k = k + 1;
    }
    let ghost before = out@;
    push_range(&mut out, &chars, cursor, n);
    push_char(&mut out, '\n');
    proof {
        assert(spans@.subrange(k as int, spans@.len() as int) =~= Seq::<(usize, usize)>::empty());
        assert(chars@.subrange(0, n as int) =~= chars@);
        assert(out@ =~= streamed(styles@, line@, spans@));
    }
    out
}

/// One line as the streaming renderer writes it: the selection of `selector`
/// styled with `styles`.
pub fn render_streaming(styles: &StyleTable, selector: &SpanSelector, line: &str) -> (out: String)
    ensures
        out@ == streamed(styles@, line@, selected(selector.pattern_texts(), line@)),
{
    let spans = selector.selection(line);
    stream_line(styles, line, &spans)
}

/// A character of buffered output: styled with a style of the table (which
/// may set nothing, for a character that the table does not map), or outside
/// every selected span.
#[derive(Debug, Clone, Copy, PartialEq)]
pub enum Char {
    Styled(char, Style),
    Unstyled(char),
}

/// The character that a cell shows.
pub open spec fn char_value(c: Char) -> char {
    match c {
        Char::Styled(v, _) => v,
        Char::Unstyled(v) => v,
    }
}

/// Whether a cell carries a style that sets something.
pub open spec fn char_styled(c: Char) -> bool {
    match c {
        Char::Styled(_, s) => !s.is_plain(),
        Char::Unstyled(_) => false,
    }
}

/// The text written for a cell: the character wrapped in its style's SGR
/// sequence and a reset, or the bare character when nothing is set.
pub open spec fn cell_text(c: Char) -> Seq<char> {
    match c {
        Char::Styled(v, s) => if s.is_plain() {
            seq![v]
        } else {
            sgr_prefix(s) + seq![v] + reset_seq()
        },
        Char::Unstyled(v) => seq![v],
    }
}

impl Char {
    /// The character that the cell shows.
    pub fn value(&self) -> (v: char)
        ensures
            v == char_value(*self),
    {
        match self {
            Char::Styled(v, _) => *v,
            Char::Unstyled(v) => *v,
        }
    }

    /// Whether the cell carries a style that sets something.
    pub fn is_styled(&self) -> (r: bool)
        ensures
            r == char_styled(*self),
    {
        match self {
            Char::Styled(_, s) => s.is_styled(),
            Char::Unstyled(_) => false,
        }
    }

    /// Appends the cell's text to `buf`.
    pub fn write(&self, buf: &mut String)
        ensures
            final(buf)@ == old(buf)@ + cell_text(*self),
    {
        match self {
            Char::Styled(v, s) => {
                if s.is_styled() {
                    push_chars(buf, &chars_of(style_prefix(*s).as_str()));
                    push_char(buf, *v);
                    push_reset(buf);
                    assert(final(buf)@ =~= old(buf)@ + cell_text(*self));
                } else {
                    push_char(buf, *v);
                    assert(final(buf)@ =~= old(buf)@ + cell_text(*self));
                }
            },
            Char::Unstyled(v) => {
                push_char(buf, *v);
                assert(final(buf)@ =~= old(buf)@ + cell_text(*self));
            },
        }
    }
}

/// The style of a character in a table; the style that sets nothing if unmapped.
pub open spec fn style_of(table: Map<char, Style>, c: char) -> Style {
    if table.contains_key(c) {
        table[c]
    } else {
        Style { fg: None, bg: None, attr: None }
    }
}

/// A character as a styled cell, with its style in the table.
pub fn to_painted_char(styles: &StyleTable, c: char) -> (r: Char)
    ensures
        r == Char::Styled(c, style_of(styles@, c)),
{
    match styles.get(c) {
        Some(s) => Char::Styled(c, s),
        None => Char::Styled(c, Style::plain()),
    }
}

/// Every character of `text` as a styled cell.
pub fn to_painted(styles: &StyleTable, text: &str) -> (r: Vec<Char>)
    ensures
        r@.len() == text@.len(),
        forall|i: int| 0 <= i < r@.len() ==> #[trigger] r@[i] == Char::Styled(text@[i], style_of(styles@, text@[i])),
{
    let chars = chars_of(text);
    let mut r: Vec<Char> = Vec::new();
    let mut i: usize = 0;
    while i < chars.len()
        invariant
            i <= chars@.len(),
            chars@ == text@,
            r@.len() == i,
            forall|j: int| 0 <= j < i ==> #[trigger] r@[j] == Char::Styled(text@[j], style_of(styles@, text@[j])),
        decreases chars@.len() - i,
    {
        r.push(to_painted_char(styles, chars[i]));
        i = i + 1;
    }
    r
}

/// The cell at position `p` of a line: styled inside a selected span, plain outside.
pub open spec fn painted_cell(table: Map<char, Style>, line: Seq<char>, spans: Seq<(usize, usize)>, p: int) -> Char {
    if covered(spans, p) {
        Char::Styled(line[p], style_of(table, line[p]))
    } else {
        Char::Unstyled(line[p])
    }
}

/// A line as cells with the given selection.
pub open spec fn painted(table: Map<char, Style>, line: Seq<char>, spans: Seq<(usize, usize)>) -> Seq<Char> {
    Seq::new(line.len(), |p: int| painted_cell(table, line, spans, p))
}

/// A line as buffered cells: the characters of the selected spans styled, the others plain.
pub fn paint_line(styles: &StyleTable, line: &str, spans: &Vec<(usize, usize)>) -> (r: Vec<Char>)
    requires
        spans_ok(spans@, line@.len() as int),
    ensures
        r@ == painted(styles@, line@, spans@),
        r@.len() == line@.len(),
        forall|p: int| 0 <= p < r@.len() ==> #[trigger] r@[p] == painted_cell(styles@, line@, spans@, p),
{
    let chars = chars_of(line);
    let n = chars.len();
    let mut mask: Vec<bool> = Vec::new();
    let mut p: usize = 0;
    while p < n
        invariant
            p <= n,
            mask@.len() == p,
            forall|q: int| 0 <= q < p ==> !#[trigger] mask@[q],
        decreases n - p,
    {
        mask.push(false);
        p = p + 1;
    }
    let mut k: usize = 0;
    while k < spans.len()
        invariant
            k <= spans@.len(),
            n == line@.len(),
            mask@.len() == n,
            spans_ok(spans@, n as int),
            forall|q: int| 0 <= q < n ==> #[trigger] mask@[q] == covered(spans@.take(k as int), q),
        decreases spans@.len() - k,
    {
        let (lo, hi) = spans[k];
        assert(spans@[k as int].0 <= spans@[k as int].1 <= n);
        let mut q: usize = lo;
        while q < hi
            invariant
                lo <= q <= hi <= n,
                mask@.len() == n,
                spans@[k as int] == (lo, hi),
                k < spans@.len(),
                forall|x: int|
                    0 <= x < n ==> #[trigger] mask@[x] == (covered(spans@.take(k as int), x) || (lo <= x < q)),
            decreases hi - q,
        {
            mask.set(q, true);
            q = q + 1;
        }
        proof {
            let t1 = spans@.take(k + 1);
            assert(t1 =~= spans@.take(k as int).push((lo, hi)));
            assert forall|x: int| 0 <= x < n implies #[trigger] mask@[x] == covered(t1, x) by {
                if covered(spans@.take(k as int), x) {
                    let j = choose|j: int| 0 <= j < k && #[trigger] spans@.take(k as int)[j].0 <= x < spans@.take(k as int)[j].1;
                    assert(t1[j] == spans@.take(k as int)[j]);
                }
                if lo <= x < hi {
                    assert(t1[k as int] == (lo, hi));
                }
                if covered(t1, x) {
                    let j = choose|j: int| 0 <= j < t1.len() && #[trigger] t1[j].0 <= x < t1[j].1;
                    if j < k {
                        assert(spans@.take(k as int)[j] == t1[j]);
                    }
                }
            }
        }
        k = k + 1;
    }
    assert(spans@.take(k as int) =~= spans@);
    let mut r: Vec<Char> = Vec::new();
    let mut i: usize = 0;
    while i < n
        invariant
            i <= n,
            n == chars@.len(),
            chars@ == line@,
            mask@.len() == n,
            forall|q: int| 0 <= q < n ==> #[trigger] mask@[q] == covered(spans@, q),
            r@.len() == i,
            forall|j: int| 0 <= j < i ==> #[trigger] r@[j] == painted_cell(styles@, line@, spans@, j),
        decreases n - i,
    {
        let cell = if mask[i] {
            to_painted_char(styles, chars[i])
        } else {
            Char::Unstyled(chars[i])
        };
        assert(cell == painted_cell(styles@, line@, spans@, i as int));
        r.push(cell);
        assert(r@[i as int] == cell);
        i = i + 1;
    }
    assert(r@ =~= painted(styles@, line@, spans@));
    r
}

/// One line as buffered cells, with the selection of `selector`.
pub fn paint_selected(styles: &StyleTable, selector: &SpanSelector, line: &str) -> (r: Vec<Char>)
    ensures
        r@ == painted(styles@, line@, selected(selector.pattern_texts(), line@)),
{
    let spans = selector.selection(line);
    paint_line(styles, line, &spans)
}

/// The text of a row of cells.
pub open spec fn cells_text(cells: Seq<Char>) -> Seq<char>
    decreases cells.len(),
{
    if cells.len() == 0 {
        Seq::empty()
    } else {
        cells_text(cells.drop_last()) + cell_text(cells.last())
    }
}

/// The text of a line of cells, ended by a newline.
pub fn render_cells(cells: &Vec<Char>) -> (out: String)
    ensures
        out@ == cells_text(cells@) + seq!['\n'],
{
    let mut out = String::new();
    let mut i: usize = 0;
    while i < cells.len()
        invariant
            i <= cells@.len(),
            out@ == cells_text(cells@.take(i as int)),
        decreases cells@.len() - i,
    {
        cells[i].write(&mut out);
        assert(cells@.take(i + 1).drop_last() =~= cells@.take(i as int));
        i = i + 1;
    }
    assert(cells@.take(i as int) =~= cells@);
    push_char(&mut out, '\n');
    out
}

/// The views of buffered lines.
pub open spec fn cell_rows(lines: Seq<Vec<Char>>) -> Seq<Seq<Char>> {
    lines.map_values(|v: Vec<Char>| v@)
}

/// Column `j` of the buffered lines as text: each line's cell at `j`, or a
/// space where the line is shorter.
pub open spec fn column_text(lines: Seq<Seq<Char>>, j: int) -> Seq<char>
    decreases lines.len(),
{
    if lines.len() == 0 {
        Seq::empty()
    } else {
        column_text(lines.drop_last(), j) + if j < lines.last().len() {
            cell_text(lines.last()[j])
        } else {
            seq![' ']
        }
    }
}

/// The transposed output: for each column below `width`, its text and a newline.
pub fn transpose(lines: &Vec<Vec<Char>>, width: usize) -> (rows: Vec<String>)
    ensures
        rows@.len() == width,
        forall|j: int| 0 <= j < width ==> #[trigger] rows@[j]@ == column_text(cell_rows(lines@), j) + seq!['\n'],
{
    let ghost ls = cell_rows(lines@);
    let mut rows: Vec<String> = Vec::new();
    let mut j: usize = 0;
    while j < width
        invariant
            j <= width,
            ls == cell_rows(lines@),
            rows@.len() == j,
            forall|m: int| 0 <= m < j ==> #[trigger] rows@[m]@ == column_text(ls, m) + seq!['\n'],
        decreases width - j,
    {
        let mut row = String::new();
        let mut l: usize = 0;
        while l < lines.len()
            invariant
                l <= lines@.len(),
                ls == cell_rows(lines@),
                row@ == column_text(ls.take(l as int), j as int),
            decreases lines@.len() - l,
        {
            let line = &lines[l];
            assert(line@ == ls[l as int]);
            if j < line.len() {
                line[j].write(&mut row);
            } else {
                push_char(&mut row, ' ');
            }
            assert(ls.take(l + 1).drop_last() =~= ls.take(l as int));
            l = l + 1;
        }
        assert(ls.take(l as int) =~= ls);
        push_char(&mut row, '\n');
        rows.push(row);
        j = j + 1;
    }
    rows
}

} // verus!

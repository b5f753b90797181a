use seqcolor::charmap::CharMap;
use seqcolor::error::ConfigError;
use seqcolor::render::{
    paint_line, render_cells, render_streaming, stream_line, to_painted, to_painted_char, transpose, write_ansi, Char,
};
use seqcolor::select::{and_spans, min_length_pattern, to_char_spans, SpanSelector};
use seqcolor::styles::{Style, StyleTable};
use yansi::{Attribute, Color};

fn bg(c: Color) -> Style {
    Style { fg: None, bg: Some(c), attr: None }
}

fn table(entries: &[(char, Style)]) -> StyleTable {
    let mut t = CharMap::new();
    for &(c, s) in entries {
        t.insert(c, s);
    }
    t
}

#[test]
fn end_to_end_streaming_line() {
    let styles = table(&[('A', bg(Color::Red))]);
    let sel = SpanSelector::new(".*", None, &styles).unwrap();
    let out = render_streaming(&styles, &sel, "ACGT");
    assert_eq!(out, "\x1b[41mA\x1b[0mCGT\x1b[0m\n");
}

#[test]
fn no_reset_between_same_presence() {
    let styles = table(&[('A', bg(Color::Red)), ('C', bg(Color::Blue))]);
    let mut out = String::new();
    write_ansi(&mut out, &styles, "AC");
    assert_eq!(out, "\x1b[41mA\x1b[44mC\x1b[0m");
}

#[test]
fn one_reset_when_presence_changes() {
    let both = Style { fg: Some(Color::White), bg: Some(Color::Red), attr: None };
    let styles = table(&[('A', both), ('C', bg(Color::Blue))]);
    let mut out = String::new();
    write_ansi(&mut out, &styles, "AC");
    assert_eq!(out.matches("\x1b[0m").count(), 2);
    assert!(out.contains("A\x1b[0m\x1b[44mC"));
}

#[test]
fn no_reset_for_attribute_change_alone() {
    let bold = Style { fg: None, bg: Some(Color::Red), attr: Some(Attribute::Bold) };
    let styles = table(&[('A', bold), ('C', bg(Color::Red))]);
    let mut out = String::new();
    write_ansi(&mut out, &styles, "AC");
    assert_eq!(out.matches("\x1b[0m").count(), 1);
    assert!(out.ends_with("C\x1b[0m"));
}

#[test]
fn empty_span_writes_only_reset() {
    let styles = table(&[]);
    let mut out = String::new();
    write_ansi(&mut out, &styles, "");
    assert_eq!(out, "\x1b[0m");
}

#[test]
fn selection_without_patterns_is_whole_line() {
    let styles = table(&[('A', bg(Color::Red))]);
    let sel = SpanSelector::new(".*", None, &styles).unwrap();
    assert_eq!(sel.count(), 0);
    assert_eq!(sel.selection("ACGTX"), vec![(0, 5)]);
    assert_eq!(sel.selection(""), vec![(0, 0)]);
}

#[test]
fn selection_with_one_pattern_skips_headers() {
    let styles = table(&[('A', bg(Color::Red))]);
    let sel = SpanSelector::new("^[^>@+].*", None, &styles).unwrap();
    assert_eq!(sel.count(), 1);
    assert_eq!(sel.selection(">header"), vec![]);
    assert_eq!(sel.selection("ACGT"), vec![(0, 4)]);
}

#[test]
fn selection_counts_characters_not_bytes() {
    let styles = table(&[('A', bg(Color::Red))]);
    let sel = SpanSelector::new("A+", None, &styles).unwrap();
    assert_eq!(sel.selection("éAAé A"), vec![(1, 3), (5, 6)]);
}

#[test]
fn two_patterns_select_within_first() {
    let styles = table(&[('A', bg(Color::Red)), ('C', bg(Color::Blue))]);
    let one = SpanSelector::new("[^>].*", None, &styles).unwrap();
    let two = SpanSelector::new("[^>].*", Some(2), &styles).unwrap();
    assert_eq!(two.count(), 2);
    let line = "AxACCxA";
    let outer = one.selection(line);
    let inner = two.selection(line);
    assert_eq!(inner, vec![(2, 5)]);
    for &(s, e) in &inner {
        assert!(outer.iter().any(|&(os, oe)| os <= s && e <= oe));
    }
}

#[test]
fn min_length_alone_selects_long_runs() {
    let styles = table(&[('A', bg(Color::Red)), ('C', bg(Color::Blue))]);
    let sel = SpanSelector::new(".*", Some(3), &styles).unwrap();
    assert_eq!(sel.count(), 1);
    assert_eq!(sel.selection("AACxACAC"), vec![(0, 3), (4, 8)]);
}

#[test]
fn min_length_pattern_escapes_class_characters() {
    let keys = vec!['A', '-', '^', ']'];
    assert_eq!(min_length_pattern(&keys, 12), "[A\\-\\^\\]]{12,}");
    assert_eq!(min_length_pattern(&vec!['C'], 0), "[C]{0,}");
}

#[test]
fn bad_pattern_is_an_error() {
    let styles = table(&[]);
    assert!(matches!(SpanSelector::new("(", None, &styles), Err(ConfigError::BadPattern(_))));
    // An empty table gives an empty class, which does not compile.
    assert!(matches!(SpanSelector::new(".*", Some(2), &styles), Err(ConfigError::BadPattern(_))));
}

#[test]
fn byte_spans_become_char_spans() {
    let chars: Vec<char> = "aé€b".chars().collect();
    // a:1 byte, é:2, €:3, b:1
    assert_eq!(to_char_spans(&chars, &vec![(0, 1), (1, 6), (6, 7)]), vec![(0, 1), (1, 3), (3, 4)]);
}

#[test]
fn and_spans_shifts_inner_matches() {
    let outer = vec![(1, 4), (6, 9)];
    let inners = vec![vec![(0, 1), (2, 3)], vec![(1, 3)]];
    assert_eq!(and_spans(&outer, &inners, 10), vec![(1, 2), (3, 4), (7, 9)]);
}

#[test]
fn stream_line_keeps_gaps_plain() {
    let styles = table(&[('A', bg(Color::Red))]);
    let out = stream_line(&styles, ">xA", &vec![(2, 3)]);
    assert_eq!(out, ">x\x1b[41mA\x1b[0m\n");
}

#[test]
fn paint_line_styles_selection_only() {
    let styles = table(&[('A', bg(Color::Red))]);
    let cells = paint_line(&styles, "AAC", &vec![(1, 3)]);
    assert_eq!(
        cells,
        vec![Char::Unstyled('A'), Char::Styled('A', bg(Color::Red)), Char::Styled('C', Style::plain())]
    );
    assert!(!cells[0].is_styled());
    assert!(cells[1].is_styled());
    assert!(!cells[2].is_styled());
    assert_eq!(cells[2].value(), 'C');
}

#[test]
fn painted_cells_of_text() {
    let styles = table(&[('A', bg(Color::Red))]);
    assert_eq!(to_painted_char(&styles, 'A'), Char::Styled('A', bg(Color::Red)));
    assert_eq!(to_painted(&styles, "AT"), vec![Char::Styled('A', bg(Color::Red)), Char::Styled('T', Style::plain())]);
}

#[test]
fn cells_write_like_painted_text() {
    let mut out = String::new();
    Char::Styled('A', bg(Color::Red)).write(&mut out);
    Char::Styled('C', Style::plain()).write(&mut out);
    Char::Unstyled('G').write(&mut out);
    assert_eq!(out, "\x1b[41mA\x1b[0mCG");
    assert_eq!(render_cells(&vec![Char::Unstyled('x')]), "x\n");
}

#[test]
fn transpose_pads_short_lines() {
    let lines = vec![vec![Char::Unstyled('A'), Char::Unstyled('B')], vec![Char::Unstyled('C')]];
    let rows = transpose(&lines, 2);
    assert_eq!(rows, vec!["AC\n".to_string(), "B \n".to_string()]);
}

#[test]
fn whole_line_selector_never_fails() {
    let empty = table(&[]);
    let sel = SpanSelector::new(".*", None, &empty).unwrap();
    assert_eq!(sel.count(), 0);
    assert_eq!(render_streaming(&empty, &sel, "xy"), "xy\x1b[0m\n");
}

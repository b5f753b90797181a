use seqcolor::buffered::render_buffered;
use seqcolor::charmap::CharMap;
use seqcolor::consensus::{column_counts, consensus, consensus_at, emphasize_style, mark_consensus, Emphasis};
use seqcolor::inout::read_lines_max;
use seqcolor::render::Char;
use seqcolor::select::SpanSelector;
use seqcolor::styles::{Style, StyleTable};
use yansi::{Attribute, Color};

fn red() -> Style {
    Style { fg: None, bg: Some(Color::Red), attr: None }
}

fn column(values: &[char]) -> Vec<Vec<Char>> {
    values.iter().map(|&c| vec![Char::Styled(c, red())]).collect()
}

#[test]
fn consensus_of_a_a_t_is_a() {
    let lines = column(&['A', 'A', 'T']);
    assert_eq!(consensus_at(&lines, 0), Some('A'));
}

#[test]
fn consensus_tie_takes_lowest_code_point() {
    let lines = column(&['T', 'A', 'A', 'T']);
    assert_eq!(consensus_at(&lines, 0), Some('A'));
}

#[test]
fn consensus_ignores_unstyled_cells() {
    let lines = vec![
        vec![Char::Unstyled('T')],
        vec![Char::Unstyled('T')],
        vec![Char::Styled('A', red())],
        vec![Char::Styled('G', Style::plain())],
    ];
    assert_eq!(consensus_at(&lines, 0), Some('A'));
    let counts = column_counts(&lines, 0);
    assert_eq!(counts.get('A'), Some(1));
    assert_eq!(counts.get('T'), None);
}

#[test]
fn consensus_of_empty_column_is_none() {
    let lines = vec![vec![Char::Unstyled('A')], vec![]];
    assert_eq!(consensus(&lines, 2), vec![None, None]);
}

#[test]
fn marking_applies_one_emphasis() {
    let lines = column(&['A', 'A', 'T']);
    let cons = consensus(&lines, 1);
    let marked = mark_consensus(&lines, &cons, Emphasis::Bold);
    let bold = Style { attr: Some(Attribute::Bold), ..red() };
    assert_eq!(marked[0][0], Char::Styled('A', bold));
    assert_eq!(marked[1][0], Char::Styled('A', bold));
    assert_eq!(marked[2][0], Char::Styled('T', red()));
    let marked = mark_consensus(&lines, &cons, Emphasis::Background(Color::Blue));
    assert_eq!(marked[0][0], Char::Styled('A', Style { bg: Some(Color::Blue), ..red() }));
}

#[test]
fn emphasis_underline() {
    assert_eq!(emphasize_style(red(), Emphasis::Underline).attr, Some(Attribute::Underline));
}

#[test]
fn read_lines_max_counts_characters() {
    let (lines, max) = read_lines_max(vec!["ab".to_string(), "éééé".to_string(), String::new()]);
    assert_eq!(lines.len(), 3);
    assert_eq!(max, 4);
    assert_eq!(read_lines_max(vec![]).1, 0);
}

fn styles() -> StyleTable {
    let mut t = CharMap::new();
    t.insert('A', red());
    t
}

#[test]
fn buffered_transpose_output() {
    let t = styles();
    let sel = SpanSelector::new(".*", None, &t).unwrap();
    let rows = render_buffered(vec!["AB".to_string(), "C".to_string()], &t, &sel, None, true);
    assert_eq!(rows, vec!["\x1b[41mA\x1b[0mC\n".to_string(), "B \n".to_string()]);
}

#[test]
fn buffered_consensus_output() {
    let t = styles();
    let sel = SpanSelector::new(".*", None, &t).unwrap();
    let rows = render_buffered(vec!["A".to_string(), "A".to_string()], &t, &sel, Some(Emphasis::Underline), false);
    assert_eq!(rows, vec!["\x1b[4;41mA\x1b[0m\n".to_string(), "\x1b[4;41mA\x1b[0m\n".to_string()]);
}

use seqcolor::charmap::{merge, CharMap};
use seqcolor::error::ConfigError;
use seqcolor::styles::{
    build_style_table, combine, default_foreground, invisible_foreground, merge_all, ColorScheme, Style,
};
use seqcolor::ansi_colors::Tier;
use yansi::Color;

fn scheme(entries: &[(char, Color)]) -> ColorScheme {
    let mut m = CharMap::new();
    for &(c, col) in entries {
        m.insert(c, col);
    }
    m
}

#[test]
fn merge_prefers_right_and_keeps_left_only_keys() {
    let a = scheme(&[('A', Color::Red), ('C', Color::Green)]);
    let b = scheme(&[('A', Color::Blue), ('G', Color::Yellow)]);
    let m = merge(&a, &b);
    assert_eq!(m.get('A'), Some(Color::Blue));
    assert_eq!(m.get('C'), Some(Color::Green));
    assert_eq!(m.get('G'), Some(Color::Yellow));
    assert_eq!(m.get('T'), None);
    assert_eq!(m.len(), 3);
}

#[test]
fn merge_with_itself_is_unchanged() {
    let a = scheme(&[('A', Color::Red), ('C', Color::Green)]);
    let m = merge(&a, &a);
    assert_eq!(m.len(), 2);
    assert_eq!(m.get('A'), Some(Color::Red));
    assert_eq!(m.get('C'), Some(Color::Green));
}

#[test]
fn insert_replaces_existing_key() {
    let mut a = scheme(&[('A', Color::Red)]);
    a.insert('A', Color::Cyan);
    assert_eq!(a.len(), 1);
    assert_eq!(a.get('A'), Some(Color::Cyan));
    assert!(a.contains_key('A'));
    assert!(!a.contains_key('B'));
}

#[test]
fn merge_all_later_scheme_wins() {
    let v = vec![scheme(&[('A', Color::Red)]), scheme(&[('A', Color::Green)]), scheme(&[('C', Color::Blue)])];
    let m = merge_all(&v);
    assert_eq!(m.get('A'), Some(Color::Green));
    assert_eq!(m.get('C'), Some(Color::Blue));
    assert_eq!(merge_all(&vec![]).len(), 0);
}

#[test]
fn default_foreground_contrasts_and_greys_gap() {
    let bg = scheme(&[('A', Color::White), ('C', Color::Black), ('-', Color::White)]);
    let fg = default_foreground(&bg);
    assert_eq!(fg.get('A'), Some(Color::Black));
    assert_eq!(fg.get('C'), Some(Color::White));
    assert_eq!(fg.get('-'), Some(Color::Rgb(128, 128, 128)));
    let empty = default_foreground(&CharMap::new());
    assert_eq!(empty.len(), 1);
    assert_eq!(empty.get('-'), Some(Color::Rgb(128, 128, 128)));
}

#[test]
fn invisible_dot_hides_every_mapped_character() {
    let bg = scheme(&[('A', Color::Red), ('C', Color::Green)]);
    let fg = scheme(&[('A', Color::White), ('T', Color::Black)]);
    let r = invisible_foreground(fg, &bg, ".").unwrap();
    assert_eq!(r.get('A'), Some(Color::Red));
    assert_eq!(r.get('C'), Some(Color::Green));
    assert_eq!(r.get('T'), Some(Color::Black));
}

#[test]
fn invisible_caret_spares_listed_characters() {
    let bg = scheme(&[('A', Color::Red), ('C', Color::Green), ('X', Color::Blue)]);
    let fg = scheme(&[('X', Color::White)]);
    let r = invisible_foreground(fg, &bg, "^X").unwrap();
    assert_eq!(r.get('A'), Some(Color::Red));
    assert_eq!(r.get('C'), Some(Color::Green));
    assert_eq!(r.get('X'), Some(Color::White));
}

#[test]
fn invisible_list_hides_only_listed() {
    let bg = scheme(&[('A', Color::Red), ('C', Color::Green)]);
    let r = invisible_foreground(CharMap::new(), &bg, "C").unwrap();
    assert_eq!(r.get('C'), Some(Color::Green));
    assert_eq!(r.get('A'), None);
}

#[test]
fn invisible_without_background_is_an_error() {
    let bg = scheme(&[('A', Color::Red)]);
    let r = invisible_foreground(CharMap::new(), &bg, "AZQ");
    assert!(matches!(r, Err(ConfigError::InvisibleWithoutBackground('Z'))));
}

#[test]
fn combine_sets_whatever_is_present() {
    let bg = scheme(&[('A', Color::Red), ('C', Color::Green)]);
    let fg = scheme(&[('C', Color::White), ('T', Color::Black)]);
    let t = combine(&bg, &fg);
    assert_eq!(t.get('A'), Some(Style { fg: None, bg: Some(Color::Red), attr: None }));
    assert_eq!(t.get('C'), Some(Style { fg: Some(Color::White), bg: Some(Color::Green), attr: None }));
    assert_eq!(t.get('T'), Some(Style { fg: Some(Color::Black), bg: None, attr: None }));
    assert_eq!(t.len(), 3);
}

#[test]
fn build_table_degrades_for_256_colours() {
    let bg = vec![scheme(&[('A', Color::Red)])];
    let t = build_style_table(Some(&bg), &CharMap::new(), None, None, Tier::Indexed256).unwrap();
    assert_eq!(
        t.get('A'),
        Some(Style { fg: Some(Color::Fixed(255)), bg: Some(Color::Fixed(124)), attr: None })
    );
    assert_eq!(
        t.get('-'),
        Some(Style { fg: Some(Color::Fixed(ansi_grey())), bg: None, attr: None })
    );
}

fn ansi_grey() -> u8 {
    seqcolor::ansi_colors::ansi256(Color::Rgb(128, 128, 128))
}

#[test]
fn build_table_uses_default_background() {
    let default_bg = scheme(&[('G', Color::Yellow)]);
    let t = build_style_table(None, &default_bg, Some(&vec![]), None, Tier::Truecolor).unwrap();
    assert_eq!(t.get('G'), Some(Style { fg: None, bg: Some(Color::Yellow), attr: None }));
    assert_eq!(t.len(), 1);
}

#[test]
fn build_table_errors() {
    let bg = vec![scheme(&[('A', Color::Red)])];
    let r = build_style_table(Some(&bg), &CharMap::new(), None, Some("B"), Tier::Truecolor);
    assert!(matches!(r, Err(ConfigError::InvisibleWithoutBackground('B'))));
    let r = build_style_table(Some(&bg), &CharMap::new(), None, None, Tier::NoColor);
    assert!(matches!(r, Err(ConfigError::UnsupportedTier(Tier::NoColor))));
}

#[test]
fn style_plain_is_not_styled() {
    assert!(!Style::plain().is_styled());
    assert!(Style { fg: None, bg: None, attr: Some(yansi::Attribute::Bold) }.is_styled());
}

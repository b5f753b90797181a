use seqcolor::colorschemes::{
    get_colorscheme_names, load_colorschemes, parse_bundled_scheme, parse_color, parse_emphasis, parse_hex,
    read_colorscheme, scheme_name, SchemeLibrary, SchemeSource,
};
use seqcolor::charmap::CharMap;
use seqcolor::consensus::Emphasis;
use seqcolor::error::ConfigError;
use yansi::Color;

#[test]
fn hex_forms() {
    assert_eq!(parse_hex("ff8000"), Color::Rgb(255, 128, 0));
    assert_eq!(parse_color("#FF8000").unwrap(), Color::Rgb(255, 128, 0));
    assert_eq!(parse_color("  ##0a0B0c  ").unwrap(), Color::Rgb(10, 11, 12));
    assert_eq!(parse_color("\t: 102030").unwrap(), Color::Rgb(16, 32, 48));
}

#[test]
fn triplet_forms() {
    assert_eq!(parse_color("255 0 10").unwrap(), Color::Rgb(255, 0, 10));
    assert_eq!(parse_color("rgb 1,2 ,3").unwrap(), Color::Rgb(1, 2, 3));
    assert_eq!(parse_color("0007, 08, 9").unwrap(), Color::Rgb(7, 8, 9));
}

#[test]
fn triplet_out_of_range_is_an_error() {
    assert!(matches!(parse_color("256 0 0"), Err(ConfigError::UnparsableColor(_))));
}

#[test]
fn name_forms() {
    assert_eq!(parse_color("red").unwrap(), Color::Red);
    assert_eq!(parse_color(" Bright Blue ").unwrap(), Color::BrightBlue);
    assert_eq!(parse_color(",grey").unwrap(), Color::Rgb(127, 127, 127));
    assert_eq!(parse_color("primary").unwrap(), Color::Primary);
}

#[test]
fn unknown_name_and_unparsable_text() {
    assert!(matches!(parse_color("reddish"), Err(ConfigError::UnknownColorName(t)) if t == "reddish"));
    assert!(matches!(parse_color("red5"), Err(ConfigError::UnknownColorName(_))));
    assert!(matches!(parse_color("#12"), Err(ConfigError::UnparsableColor(t)) if t == "#12"));
    assert!(matches!(parse_color(""), Err(ConfigError::UnparsableColor(_))));
}

#[test]
fn scheme_file_lines() {
    let lines = vec!["A\t#ff0000".to_string(), "".to_string(), "  C, 0 0 255".to_string(), "A;green".to_string()];
    let s = read_colorscheme(&lines).unwrap();
    assert_eq!(s.get('A'), Some(Color::Green));
    assert_eq!(s.get('C'), Some(Color::Rgb(0, 0, 255)));
    assert_eq!(s.len(), 2);
}

#[test]
fn scheme_file_bad_line() {
    let lines = vec!["A red".to_string(), "B nonsense".to_string()];
    assert!(matches!(read_colorscheme(&lines), Err(ConfigError::UnknownColorName(t)) if t == "nonsense"));
    let lines = vec!["A #12".to_string()];
    assert!(matches!(read_colorscheme(&lines), Err(ConfigError::UnparsableColor(t)) if t == "#12"));
}

#[test]
fn bundled_scheme_text() {
    let s = parse_bundled_scheme("A\t#ff0000\nC\t#00ff00\n\n").unwrap();
    assert_eq!(s.get('A'), Some(Color::Rgb(255, 0, 0)));
    assert_eq!(s.get('C'), Some(Color::Rgb(0, 255, 0)));
    assert!(parse_bundled_scheme("A\t#zz0000").is_none());
    assert!(parse_bundled_scheme("\t#ff0000").is_none());
}

#[test]
fn scheme_names_and_library() {
    assert_eq!(scheme_name("shapely_aa.tsv"), Some("shapely_aa".to_string()));
    assert_eq!(scheme_name("readme"), None);
    assert_eq!(
        get_colorscheme_names(&vec!["a.tsv".to_string(), "b.tsv".to_string()]),
        Some(vec!["a".to_string(), "b".to_string()])
    );
    assert_eq!(get_colorscheme_names(&vec!["a.txt".to_string()]), None);
    let lib = load_colorschemes(&vec![("dna.tsv".to_string(), "A\t#ff0000".to_string())]).unwrap();
    assert_eq!(lib.names(), vec!["dna".to_string()]);
    assert_eq!(lib.get("dna").unwrap().get('A'), Some(Color::Rgb(255, 0, 0)));
    assert!(lib.get("rna").is_none());
    assert!(matches!(lib.resolve(""), SchemeSource::Ignored));
    assert!(matches!(lib.resolve("dna"), SchemeSource::Bundled(_)));
    assert!(matches!(lib.resolve("my.txt"), SchemeSource::File));
    let mut lib2 = SchemeLibrary::new();
    lib2.add("x".to_string(), CharMap::new());
    assert_eq!(lib2.names(), vec!["x".to_string()]);
}

#[test]
fn emphasis_specs() {
    assert_eq!(parse_emphasis("bold").unwrap(), Emphasis::Bold);
    assert_eq!(parse_emphasis("underline").unwrap(), Emphasis::Underline);
    assert_eq!(parse_emphasis("blue").unwrap(), Emphasis::Background(Color::Blue));
    assert!(parse_emphasis("bolder").is_err());
}

#[test]
fn surrounding_space_does_not_change_the_result() {
    assert!(matches!(parse_color(" "), Err(ConfigError::UnparsableColor(t)) if t.is_empty()));
    assert!(matches!(parse_color(""), Err(ConfigError::UnparsableColor(t)) if t.is_empty()));
    assert!(matches!(parse_color(" \treddish \n"), Err(ConfigError::UnknownColorName(t)) if t == "reddish"));
    assert_eq!(parse_color(" \tred \n").unwrap(), parse_color("red").unwrap());
}

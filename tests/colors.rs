use seqcolor::ansi_colors::{ansi256, downgrade, is_light, is_light_rgb, tier_from_probe, Tier};
use seqcolor::error::ConfigError;
use yansi::Color;

#[test]
fn downgrade_twice_is_downgrade_once() {
    for c in [
        Color::Red,
        Color::BrightWhite,
        Color::Primary,
        Color::Fixed(77),
        Color::Rgb(100, 200, 150),
        Color::Rgb(0, 0, 0),
    ] {
        let once = downgrade(c, Tier::Indexed256).unwrap();
        let twice = downgrade(once, Tier::Indexed256).unwrap();
        assert_eq!(once, twice);
    }
}

#[test]
fn downgrade_named_uses_curated_table() {
    assert_eq!(downgrade(Color::Red, Tier::Indexed256).unwrap(), Color::Fixed(124));
    assert_eq!(downgrade(Color::BrightBlack, Tier::Indexed256).unwrap(), Color::Fixed(238));
    assert_eq!(downgrade(Color::Primary, Tier::Indexed256).unwrap(), Color::Fixed(15));
}

#[test]
fn downgrade_truecolor_is_identity() {
    assert_eq!(downgrade(Color::Rgb(1, 2, 3), Tier::Truecolor).unwrap(), Color::Rgb(1, 2, 3));
}

#[test]
fn downgrade_unsupported_tier_fails() {
    assert!(matches!(downgrade(Color::Red, Tier::Limited), Err(ConfigError::UnsupportedTier(Tier::Limited))));
    assert!(matches!(downgrade(Color::Red, Tier::NoColor), Err(ConfigError::UnsupportedTier(Tier::NoColor))));
}

#[test]
fn ansi256_of_rgb_is_nearest_palette_entry() {
    assert_eq!(ansi256(Color::Rgb(255, 255, 255)), 231);
    assert_eq!(ansi256(Color::Rgb(95, 135, 175)), 67);
    assert_eq!(ansi256(Color::Rgb(1, 1, 1)), 16);
    assert_eq!(ansi256(Color::Fixed(200)), 200);
}

#[test]
fn lightness_of_named_colors() {
    assert!(is_light(Color::White));
    assert!(is_light(Color::BrightRed));
    assert!(!is_light(Color::BrightBlack));
    assert!(!is_light(Color::Red));
    assert!(!is_light(Color::Primary));
}

#[test]
fn lightness_of_rgb_and_indexed() {
    assert!(is_light(Color::Rgb(255, 255, 255)));
    assert!(!is_light(Color::Rgb(0, 0, 0)));
    assert!(is_light(Color::Fixed(231)));
    assert!(!is_light(Color::Fixed(16)));
    assert!(is_light(Color::Fixed(255)));
}

#[test]
fn luminance_threshold_is_strict() {
    // 0.7152 * 179 = 128.02 > 128; 0.7152 * 178 = 127.3.
    assert!(is_light_rgb(0, 179, 0));
    assert!(!is_light_rgb(0, 178, 0));
    // 0.2126 * 255 + 0.0722 * 255 = 72.6.
    assert!(!is_light_rgb(255, 0, 255));
}

#[test]
fn tier_from_probe_prefers_truecolor() {
    assert_eq!(tier_from_probe(true, true, true), Tier::Truecolor);
    assert_eq!(tier_from_probe(false, true, true), Tier::Indexed256);
    assert_eq!(tier_from_probe(false, false, true), Tier::Limited);
    assert_eq!(tier_from_probe(false, false, false), Tier::NoColor);
}

#[test]
fn palette_grey_ramp_and_system_colours() {
    // Index 244 is grey 128, not above the threshold; 245 is grey 138.
    assert!(!is_light(Color::Fixed(244)));
    assert!(is_light(Color::Fixed(245)));
    // System colour 7 is (229, 229, 229); 9 is (255, 0, 0).
    assert!(is_light(Color::Fixed(7)));
    assert!(!is_light(Color::Fixed(9)));
    // Cube entry 67 is (95, 135, 175): 20.2 + 96.6 + 12.6 > 128.
    assert!(is_light(Color::Fixed(67)));
}

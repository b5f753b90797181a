//! The colour model: lightness of a colour and its degradation to the
//! 256-colour palette.
use vstd::prelude::*;

use yansi::Color;

use crate::error::ConfigError;

verus! {

/// The colour capability of a terminal.
#[derive(Debug, Clone, Copy, PartialEq, Eq, Structural)]
pub enum Tier {
    /// 24-bit colour.
    Truecolor,
    /// The 256-colour palette.
    Indexed256,
    /// Only the basic colours.
    Limited,
    /// No colour at all.
    NoColor,
}

/// Whether colours are rendered for a tier: true colour and the 256-colour palette.
pub open spec fn supported(tier: Tier) -> bool {
    tier is Truecolor || tier is Indexed256
}

/// A colour as a terminal of a supported tier shows it.
pub open spec fn downgraded(c: Color, tier: Tier) -> Color {
    if tier is Indexed256 {
        Color::Fixed(ansi256_index(c))
    } else {
        c
    }
}

/// The tier that a terminal probe reports: true colour, else the 256-colour
/// palette where ANSI colour is supported, else basic colours, else none.
pub fn tier_from_probe(truecolor: bool, ansi_color: bool, any_color: bool) -> (t: Tier)
    ensures
        truecolor ==> t == Tier::Truecolor,
        !truecolor && ansi_color ==> t == Tier::Indexed256,
        !truecolor && !ansi_color && any_color ==> t == Tier::Limited,
        !truecolor && !ansi_color && !any_color ==> t == Tier::NoColor,
{
    if truecolor {
        Tier::Truecolor
    } else if ansi_color {
        Tier::Indexed256
    } else if any_color {
        Tier::Limited
    } else {
        Tier::NoColor
    }
}

/// The terminal colour of `yansi`, whose variants are plain values.
#[verifier::external_type_specification]
pub struct ExColor(yansi::Color);

/// The 16 system colours as xterm shows them by default.
pub open spec fn system_rgb(idx: int) -> (u8, u8, u8) {
    seq![
        (0u8, 0u8, 0u8), (205, 0, 0), (0, 205, 0), (205, 205, 0),
        (0, 0, 238), (205, 0, 205), (0, 205, 205), (229, 229, 229),
        (127, 127, 127), (255, 0, 0), (0, 255, 0), (255, 255, 0),
        (92, 92, 255), (255, 0, 255), (0, 255, 255), (255, 255, 255),
    ][idx]
}

/// A component level of the 6×6×6 colour cube: 0, 95, 135, 175, 215 or 255.
pub open spec fn cube_level(v: int) -> u8 {
    if v == 0 {
        0
    } else {
        (55 + 40 * v) as u8
    }
}

/// The palette entry (red, green, blue) at an index of the 256-colour
/// palette: the system colours, then the colour cube, then a grey ramp.
pub open spec fn palette_rgb(idx: u8) -> (u8, u8, u8) {
    if idx < 16 {
        system_rgb(idx as int)
    } else if idx < 232 {
        let i = idx - 16;
        (cube_level(i / 36), cube_level((i / 6) % 6), cube_level(i % 6))
    } else {
        let v = ((idx - 232) * 10 + 8) as u8;
        (v, v, v)
    }
}

/// The index of the 256-colour palette entry that approximates an RGB colour.
pub uninterp spec fn nearest_index(r: u8, g: u8, b: u8) -> u8;

/// Relies on `ansi_colours::rgb_from_ansi256`: the palette entry at `idx`.
#[verifier::external_body]
fn rgb_from_ansi256(idx: u8) -> (r: (u8, u8, u8))
    ensures
        r == palette_rgb(idx),
{
    ansi_colours::rgb_from_ansi256(idx)
}

/// Relies on `ansi_colours::ansi256_from_rgb`: the palette index approximating `(r, g, b)`.
#[verifier::external_body]
fn ansi256_from_rgb(r: u8, g: u8, b: u8) -> (i: u8)
    ensures
        i == nearest_index(r, g, b),
{
    ansi_colours::ansi256_from_rgb((r, g, b))
}

/// Relative luminance `0.2126 r + 0.7152 g + 0.0722 b` above 128, in exact
/// integer arithmetic (scaled by 10000).
pub open spec fn rgb_is_light(r: u8, g: u8, b: u8) -> bool {
    2126 * r + 7152 * g + 722 * b > 1_280_000
}

/// Whether a colour is light: white and the bright colours other than bright
/// black are; a palette index is judged by its RGB entry.
pub open spec fn light(c: Color) -> bool {
    match c {
        Color::White | Color::BrightRed | Color::BrightGreen | Color::BrightYellow
        | Color::BrightBlue | Color::BrightMagenta | Color::BrightCyan | Color::BrightWhite => true,
        Color::Fixed(idx) => rgb_is_light(palette_rgb(idx).0, palette_rgb(idx).1, palette_rgb(idx).2),
        Color::Rgb(r, g, b) => rgb_is_light(r, g, b),
        _ => false,
    }
}

/// The 256-colour palette index of a colour: a curated table for the named
/// colours, the index itself for indexed colours, the nearest entry for RGB.
pub open spec fn ansi256_index(c: Color) -> u8 {
    match c {
        Color::Black => 0,
        Color::Red => 124,
        Color::Green => 2,
        Color::Yellow => 184,
        Color::Blue => 12,
        Color::Magenta => 90,
        Color::Cyan => 43,
        Color::White => 255,
        Color::BrightBlack => 238,
        Color::BrightRed => 9,
        Color::BrightGreen => 40,
        Color::BrightYellow => 11,
        Color::BrightBlue => 33,
        Color::BrightMagenta => 13,
        Color::BrightCyan => 14,
        Color::BrightWhite => 15,
        Color::Fixed(idx) => idx,
        Color::Rgb(r, g, b) => nearest_index(r, g, b),
        Color::Primary => 15,
    }
}

/// Whether an RGB colour is light by its relative luminance.
pub fn is_light_rgb(r: u8, g: u8, b: u8) -> (light: bool)
    ensures
        light == rgb_is_light(r, g, b),
{
    2126 * (r as u32) + 7152 * (g as u32) + 722 * (b as u32) > 1_280_000
}

/// Whether text on this background should be dark (the colour is light).
pub fn is_light(col: Color) -> (r: bool)
    ensures
        r == light(col),
{
    match col {
        Color::White | Color::BrightRed | Color::BrightGreen | Color::BrightYellow
        | Color::BrightBlue | Color::BrightMagenta | Color::BrightCyan | Color::BrightWhite => true,
        Color::Fixed(idx) => {
            let (r, g, b) = rgb_from_ansi256(idx);
            is_light_rgb(r, g, b)
        },
        Color::Rgb(r, g, b) => is_light_rgb(r, g, b),
        _ => false,
    }
}

/// The colour code in the range 0 to 255 for a colour.
pub fn ansi256(col: Color) -> (r: u8)
    ensures
        r == ansi256_index(col),
{
    match col {
        Color::Black => 0,
        Color::Red => 124,
        Color::Green => 2,
        Color::Yellow => 184,
        Color::Blue => 12,
        Color::Magenta => 90,
        Color::Cyan => 43,
        Color::White => 255,
        Color::BrightBlack => 238,
        Color::BrightRed => 9,
        Color::BrightGreen => 40,
        Color::BrightYellow => 11,
        Color::BrightBlue => 33,
        Color::BrightMagenta => 13,
        Color::BrightCyan => 14,
        Color::BrightWhite => 15,
        Color::Fixed(idx) => idx,
        Color::Rgb(r, g, b) => ansi256_from_rgb(r, g, b),
        Color::Primary => 15,
    }
}

/// The best representation of a colour that a tier supports; a tier without
/// colour support is an error.
pub fn downgrade(col: Color, tier: Tier) -> (r: Result<Color, ConfigError>)
    ensures
        supported(tier) ==> r == Ok::<Color, ConfigError>(downgraded(col, tier)),
        !supported(tier) ==> r == Err::<Color, ConfigError>(ConfigError::UnsupportedTier(tier)),
{
    match tier {
        Tier::Truecolor => Ok(col),
        Tier::Indexed256 => Ok(Color::Fixed(ansi256(col))),
        _ => Err(ConfigError::UnsupportedTier(tier)),
    }
}

/// The one byte that encodes an ASCII character in UTF-8.
pub fn ansi_byte(c: char) -> (b: [u8; 1])
    requires
        (c as u32) < 0x80,
    ensures
        b[0] as u32 == c as u32,
{
    [(c as u32) as u8]
}

/// Degrading to the 256-colour palette twice gives what degrading once gives.
pub proof fn downgrade_is_idempotent(c: Color)
    ensures
        downgraded(downgraded(c, Tier::Indexed256), Tier::Indexed256) == downgraded(c, Tier::Indexed256),
{
}

} // verus!

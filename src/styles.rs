//! Styles, and the style table built from background and foreground colour
//! schemes: merging, default contrast foregrounds, invisibility, degradation.
use vstd::prelude::*;

use yansi::{Attribute, Color};

use crate::ansi_colors::{downgrade, downgraded, is_light, light, supported, Tier};
use crate::charmap::CharMap;
use crate::error::ConfigError;
use crate::text::chars_of;

verus! {

broadcast use vstd::seq_lib::lemma_seq_contains_after_push, vstd::prelude::Seq::lemma_push_to_set_commute;

/// A text attribute of `yansi`, whose variants are plain values.
#[verifier::external_type_specification]
pub struct ExAttribute(yansi::Attribute);

/// A mapping from characters to colours.
pub type ColorScheme = CharMap<Color>;

/// A mapping from characters to styles.
pub type StyleTable = CharMap<Style>;

/// How a character is shown: an optional foreground and background colour,
/// and an optional attribute such as bold or underline.
#[derive(Debug, Clone, Copy, PartialEq)]
pub struct Style {
    pub fg: Option<Color>,
    pub bg: Option<Color>,
    pub attr: Option<Attribute>,
}

impl Style {
    /// The style that changes nothing.
    pub open spec fn is_plain(self) -> bool {
        self.fg is None && self.bg is None && self.attr is None
    }

    /// The style that changes nothing.
    pub fn plain() -> (s: Style)
        ensures
            s == (Style { fg: None, bg: None, attr: None }),
    {
        Style { fg: None, bg: None, attr: None }
    }

    /// Whether this style changes anything.
    pub fn is_styled(&self) -> (r: bool)
        ensures
            r == !self.is_plain(),
    {
        self.fg.is_some() || self.bg.is_some() || self.attr.is_some()
    }
}

/// The gap character of sequence alignments.
pub const GAP: char = '-';

/// The neutral grey foreground of the gap character.
pub open spec fn gap_gray() -> Color {
    Color::Rgb(128, 128, 128)
}

/// Black on a light background, white on a dark one.
pub open spec fn contrast(bg: Color) -> Color {
    if light(bg) {
        Color::Black
    } else {
        Color::White
    }
}

/// The foreground used when none is given: the contrasting colour of each
/// background, and grey for the gap whatever its background.
pub open spec fn default_fg_map(bg: Map<char, Color>) -> Map<char, Color> {
    bg.map_values(|c: Color| contrast(c)).insert(GAP, gap_gray())
}

/// The characters that an invisibility spec hides: "." all characters with a
/// background, "^" followed by a list all of them but those listed, any other
/// text the characters it lists.
pub open spec fn invisible_keys(bg: Map<char, Color>, spec: Seq<char>) -> Set<char> {
    if spec == seq!['.'] {
        bg.dom()
    } else if spec.len() > 0 && spec[0] == '^' {
        bg.dom().filter(|c: char| !spec.drop_first().contains(c))
    } else {
        spec.to_set()
    }
}

/// Whether a spec that lists characters lists only characters with a background.
pub open spec fn invisibility_ok(bg: Map<char, Color>, spec: Seq<char>) -> bool {
    spec == seq!['.'] || (spec.len() > 0 && spec[0] == '^') || (forall|i: int|
        0 <= i < spec.len() ==> bg.contains_key(#[trigger] spec[i]))
}

/// The foreground after hiding: each hidden character takes its background as foreground.
pub open spec fn invisible_fg(fg: Map<char, Color>, bg: Map<char, Color>, spec: Seq<char>) -> Map<
    char,
    Color,
> {
    fg.union_prefer_right(bg.restrict(invisible_keys(bg, spec)))
}

/// A character with a background, a foreground or both gets both that are set.
pub open spec fn combined(bg: Map<char, Color>, fg: Map<char, Color>) -> Map<char, Style> {
    Map::new(
        |c: char| bg.contains_key(c) || fg.contains_key(c),
        |c: char|
            Style {
                fg: if fg.contains_key(c) {
                    Some(fg[c])
                } else {
                    None
                },
                bg: if bg.contains_key(c) {
                    Some(bg[c])
                } else {
                    None
                },
                attr: None,
            },
    )
}

/// Every colour of a scheme degraded for a tier.
pub open spec fn downgraded_map(m: Map<char, Color>, tier: Tier) -> Map<char, Color> {
    m.map_values(|c: Color| downgraded(c, tier))
}

/// The right-biased merge of a sequence of schemes: later ones win.
pub open spec fn merged(schemes: Seq<Map<char, Color>>) -> Map<char, Color>
    decreases schemes.len(),
{
    if schemes.len() == 0 {
        Map::empty()
    } else {
        merged(schemes.drop_last()).union_prefer_right(schemes.last())
    }
}

/// The views of a sequence of schemes.
pub open spec fn scheme_views(v: Seq<ColorScheme>) -> Seq<Map<char, Color>> {
    v.map_values(|s: ColorScheme| s@)
}

/// Merges schemes in order; a later scheme wins over an earlier one.
pub fn merge_all(schemes: &Vec<ColorScheme>) -> (r: ColorScheme)
    ensures
        r@ == merged(scheme_views(schemes@)),
{
    let mut r: ColorScheme = CharMap::new();
    let mut i: usize = 0;
    while i < schemes.len()
        invariant
            i <= schemes@.len(),
            r@ == merged(scheme_views(schemes@).take(i as int)),
        decreases schemes@.len() - i,
    {
        r.extend(&schemes[i]);
        proof {
            let vs = scheme_views(schemes@);
            assert(vs.take(i + 1).drop_last() =~= vs.take(i as int));
        }
        i = i + 1;
    }
    assert(scheme_views(schemes@).take(i as int) =~= scheme_views(schemes@));
    r
}

/// The default foreground for a background scheme: black on light
/// backgrounds, white on dark ones, grey for the gap.
pub fn default_foreground(bg: &ColorScheme) -> (fg: ColorScheme)
    ensures
        fg@ == default_fg_map(bg@),
{
    let keys = bg.keys();
    let mut fg: ColorScheme = CharMap::new();
    let mut i: usize = 0;
    while i < keys.len()
        invariant
            i <= keys@.len(),
            keys@.to_set() == bg@.dom(),
            fg@ == Map::new(|c: char| keys@.take(i as int).contains(c), |c: char| contrast(bg@[c])),
        decreases keys@.len() - i,
    {
        let k = keys[i];
        assert(keys@.to_set().contains(k));
        let col = bg.get(k).unwrap();
        let f = if is_light(col) {
            Color::Black
        } else {
            Color::White
        };
        fg.insert(k, f);
        proof {
            assert(keys@.take(i + 1) =~= keys@.take(i as int).push(k));
            assert(fg@ =~= Map::new(
                |c: char| keys@.take(i + 1).contains(c),
                |c: char| contrast(bg@[c]),
            ));
        }
        i = i + 1;
    }
    fg.insert(GAP, Color::Rgb(128, 128, 128));
    proof {
        assert(keys@.take(i as int) =~= keys@);
        assert(fg@ =~= default_fg_map(bg@));
    }
    fg
}

/// Copies into `fg` the entries of `bg`: all of them, or all but those whose
/// keys are listed in `all_but`.
fn copy_backgrounds(fg: &mut ColorScheme, bg: &ColorScheme, all_but: Option<&Vec<char>>)
    ensures
        final(fg)@ == old(fg)@.union_prefer_right(
            bg@.restrict(
                match all_but {
                    Some(v) => bg@.dom().filter(|c: char| !v@.contains(c)),
                    None => bg@.dom(),
                },
            ),
        ),
{
    let ghost keep = match all_but {
        Some(v) => bg@.dom().filter(|c: char| !v@.contains(c)),
        None => bg@.dom(),
    };
    let keys = bg.keys();
    let mut i: usize = 0;
    while i < keys.len()
        invariant
            i <= keys@.len(),
            keys@.to_set() == bg@.dom(),
            keep <= bg@.dom(),
            keep == match all_but {
                Some(v) => bg@.dom().filter(|c: char| !v@.contains(c)),
                None => bg@.dom(),
            },
            fg@ == old(fg)@.union_prefer_right(
                bg@.restrict(keep.intersect(keys@.take(i as int).to_set())),
            ),
        decreases keys@.len() - i,
    {
        let k = keys[i];
        assert(keys@.to_set().contains(k));
        let col = bg.get(k).unwrap();
        let hidden = match all_but {
            Some(v) => !contains_char(v, k),
            None => true,
        };
        if hidden {
            fg.insert(k, col);
        }
        proof {
            assert(keys@.take(i + 1) =~= keys@.take(i as int).push(k));
            assert(keys@.take(i + 1).to_set() =~= keys@.take(i as int).to_set().insert(k));
            assert(fg@ =~= old(fg)@.union_prefer_right(
                bg@.restrict(keep.intersect(keys@.take(i + 1).to_set())),
            ));
        }
        i = i + 1;
    }
    proof {
        assert(keys@.take(i as int) =~= keys@);
        assert(keep.intersect(keys@.to_set()) =~= keep);
    }
}

/// The foreground scheme after an invisibility spec is applied: every hidden
/// character takes its own background as foreground. A spec that lists a
/// character without a background is an error naming the first such character.
pub fn invisible_foreground(fg: ColorScheme, bg: &ColorScheme, spec: &str) -> (r: Result<
    ColorScheme,
    ConfigError,
>)
    ensures
        invisibility_ok(bg@, spec@) ==> r is Ok && r->Ok_0@ == invisible_fg(fg@, bg@, spec@),
        !invisibility_ok(bg@, spec@) ==> exists|i: int|
            0 <= i < spec@.len() && !bg@.contains_key(#[trigger] spec@[i]) && (forall|j: int|
                0 <= j < i ==> bg@.contains_key(#[trigger] spec@[j])) && r == Err::<
                ColorScheme,
                ConfigError,
            >(ConfigError::InvisibleWithoutBackground(spec@[i])),
{
    let mut fg = fg;
    let s = chars_of(spec);
    if s.len() == 1 && s[0] == '.' {
        assert(s@ =~= seq!['.']);
        copy_backgrounds(&mut fg, bg, None);
        return Ok(fg);
    }
    if s.len() > 0 && s[0] == '^' {
        let mut rest: Vec<char> = Vec::new();
        let mut i: usize = 1;
        while i < s.len()
            invariant
                1 <= i <= s@.len(),
                rest@ == s@.subrange(1, i as int),
            decreases s@.len() - i,
        {
            rest.push(s[i]);
            i = i + 1;
            assert(rest@ =~= s@.subrange(1, i as int));
        }
        assert(rest@ =~= s@.drop_first());
        copy_backgrounds(&mut fg, bg, Some(&rest));
        return Ok(fg);
    }
    let ghost fg0 = fg@;
    let mut i: usize = 0;
    while i < s.len()
        invariant
            i <= s@.len(),
            s@ == spec@,
            !(s@.len() == 1 && s@[0] == '.'),
            !(s@.len() > 0 && s@[0] == '^'),
            forall|j: int| 0 <= j < i ==> bg@.contains_key(#[trigger] s@[j]),
            fg@ == fg0.union_prefer_right(bg@.restrict(s@.take(i as int).to_set())),
        decreases s@.len() - i,
    {
        let c = s[i];
        match bg.get(c) {
            Some(col) => {
                fg.insert(c, col);
                proof {
                    assert(s@.take(i + 1) =~= s@.take(i as int).push(c));
                    assert(fg@ =~= fg0.union_prefer_right(bg@.restrict(s@.take(i + 1).to_set())));
                }
            },
            None => {
                proof {
                    assert(!bg@.contains_key(spec@[i as int]));
                    if spec@ == seq!['.'] {
                        assert(seq!['.'][0] == '.');
                    }
                }
                return Err(ConfigError::InvisibleWithoutBackground(c));
            },
        }
        i = i + 1;
    }
    assert(s@.take(i as int) =~= s@);
    Ok(fg)
}

/// Hiding with "." gives every character with a background that background as
/// foreground; hiding with "^" and a character `x` does so for every such
/// character but `x`, whose foreground stays as it was.
pub proof fn invisibility_hides_backgrounds(fg: Map<char, Color>, bg: Map<char, Color>, x: char)
    ensures
        forall|c: char| #[trigger]
            bg.contains_key(c) ==> invisible_fg(fg, bg, seq!['.'])[c] == bg[c],
        forall|c: char| #[trigger]
            bg.contains_key(c) && c != x ==> invisible_fg(fg, bg, seq!['^', x])[c] == bg[c],
        fg.contains_key(x) ==> invisible_fg(fg, bg, seq!['^', x])[x] == fg[x],
        !fg.contains_key(x) ==> !invisible_fg(fg, bg, seq!['^', x]).contains_key(x),
{
    let s = seq!['^', x];
    assert(s.drop_first() =~= seq![x]);
    assert(seq![x].contains(x));
    assert forall|c: char| #[trigger] bg.contains_key(c) && c != x implies invisible_fg(
        fg,
        bg,
        seq!['^', x],
    )[c] == bg[c] by {
        assert(!seq![x].contains(c));
        assert(invisible_keys(bg, s).contains(c));
    }
}

/// The style table of a background and a foreground scheme: each character of
/// either gets the colours that it has.
pub fn combine(bg: &ColorScheme, fg: &ColorScheme) -> (t: StyleTable)
    ensures
        t@ == combined(bg@, fg@),
{
    let bk = bg.keys();
    let fk = fg.keys();
    let mut t: StyleTable = CharMap::new();
    let mut i: usize = 0;
    while i < bk.len()
        invariant
            i <= bk@.len(),
            bk@.to_set() == bg@.dom(),
            t@ == Map::new(|c: char| bk@.take(i as int).contains(c), |c: char| combined(bg@, fg@)[c]),
        decreases bk@.len() - i,
    {
        let k = bk[i];
        assert(bk@.to_set().contains(k));
        t.insert(k, Style { fg: fg.get(k), bg: bg.get(k), attr: None });
        proof {
            assert(bk@.take(i + 1) =~= bk@.take(i as int).push(k));
            assert(t@ =~= Map::new(
                |c: char| bk@.take(i + 1).contains(c),
                |c: char| combined(bg@, fg@)[c],
            ));
        }
        i = i + 1;
    }
    assert(bk@.take(i as int) =~= bk@);
    let mut j: usize = 0;
    while j < fk.len()
        invariant
            j <= fk@.len(),
            bk@.to_set() == bg@.dom(),
            fk@.to_set() == fg@.dom(),
            t@ == Map::new(
                |c: char| bk@.contains(c) || fk@.take(j as int).contains(c),
                |c: char| combined(bg@, fg@)[c],
            ),
        decreases fk@.len() - j,
    {
        let k = fk[j];
        assert(fk@.to_set().contains(k));
        t.insert(k, Style { fg: fg.get(k), bg: bg.get(k), attr: None });
        proof {
            assert(fk@.take(j + 1) =~= fk@.take(j as int).push(k));
            assert(t@ =~= Map::new(
                |c: char| bk@.contains(c) || fk@.take(j + 1).contains(c),
                |c: char| combined(bg@, fg@)[c],
            ));
        }
        j = j + 1;
    }
    assert(fk@.take(j as int) =~= fk@);
    assert(t@ =~= combined(bg@, fg@));
    t
}

/// Every colour of a scheme degraded for a tier; an unsupported tier is an error.
pub fn downgrade_scheme(s: &ColorScheme, tier: Tier) -> (r: Result<ColorScheme, ConfigError>)
    ensures
        supported(tier) ==> r is Ok && r->Ok_0@ == downgraded_map(s@, tier),
        !supported(tier) ==> r == Err::<ColorScheme, ConfigError>(ConfigError::UnsupportedTier(tier)),
{
    if !(matches!(tier, Tier::Truecolor) || matches!(tier, Tier::Indexed256)) {
        return Err(ConfigError::UnsupportedTier(tier));
    }
    let keys = s.keys();
    let mut r: ColorScheme = CharMap::new();
    let mut i: usize = 0;
    while i < keys.len()
        invariant
            i <= keys@.len(),
            supported(tier),
            keys@.to_set() == s@.dom(),
            r@ == Map::new(|c: char| keys@.take(i as int).contains(c), |c: char| downgraded(s@[c], tier)),
        decreases keys@.len() - i,
    {
        let k = keys[i];
        assert(keys@.to_set().contains(k));
        let col = s.get(k).unwrap();
        match downgrade(col, tier) {
            Ok(d) => r.insert(k, d),
            Err(_) => {},
        }
        proof {
            assert(keys@.take(i + 1) =~= keys@.take(i as int).push(k));
            assert(r@ =~= Map::new(
                |c: char| keys@.take(i + 1).contains(c),
                |c: char| downgraded(s@[c], tier),
            ));
        }
        i = i + 1;
    }
    assert(keys@.take(i as int) =~= keys@);
    assert(r@ =~= downgraded_map(s@, tier));
    Ok(r)
}

/// The schemes given for a role, if any were.
pub open spec fn given_schemes(o: Option<&Vec<ColorScheme>>) -> Option<Seq<Map<char, Color>>> {
    match o {
        Some(v) => Some(scheme_views(v@)),
        None => None,
    }
}

/// The background of a table: the merge of the given schemes, else the default scheme.
pub open spec fn table_background(
    given: Option<Seq<Map<char, Color>>>,
    default_bg: Map<char, Color>,
) -> Map<char, Color> {
    match given {
        Some(v) => merged(v),
        None => default_bg,
    }
}

/// The foreground of a table: the merge of the given schemes, else the default
/// contrast foreground, then the invisibility spec applied.
pub open spec fn table_foreground(
    given: Option<Seq<Map<char, Color>>>,
    bg: Map<char, Color>,
    invisible: Option<Seq<char>>,
) -> Map<char, Color> {
    let fg = match given {
        Some(v) => merged(v),
        None => default_fg_map(bg),
    };
    match invisible {
        Some(spec) => invisible_fg(fg, bg, spec),
        None => fg,
    }
}

/// The text of an optional spec.
pub open spec fn spec_text(o: Option<&str>) -> Option<Seq<char>> {
    match o {
        Some(s) => Some(s@),
        None => None,
    }
}

/// Builds the style table of a run from its background schemes (or a default
/// one), its foreground schemes (or contrast defaults), an invisibility spec
/// and the terminal tier, whose colours it degrades to.
pub fn build_style_table(
    backgrounds: Option<&Vec<ColorScheme>>,
    default_bg: &ColorScheme,
    foregrounds: Option<&Vec<ColorScheme>>,
    invisible: Option<&str>,
    tier: Tier,
) -> (r: Result<StyleTable, ConfigError>)
    ensures
        ({
            let bg = table_background(given_schemes(backgrounds), default_bg@);
            let fg = table_foreground(given_schemes(foregrounds), bg, spec_text(invisible));
            let hiding_ok = match invisible {
                Some(spec) => invisibility_ok(bg, spec@),
                None => true,
            };
            &&& hiding_ok && supported(tier) ==> r is Ok && r->Ok_0@ == combined(
                downgraded_map(bg, tier),
                downgraded_map(fg, tier),
            )
            &&& match invisible {
                Some(spec) => !hiding_ok ==> exists|i: int|
                    0 <= i < spec@.len() && !bg.contains_key(#[trigger] spec@[i]) && (forall|j: int|
                        0 <= j < i ==> bg.contains_key(#[trigger] spec@[j])) && r == Err::<
                        StyleTable,
                        ConfigError,
                    >(ConfigError::InvisibleWithoutBackground(spec@[i])),
                None => true,
            }
            &&& hiding_ok && !supported(tier) ==> r == Err::<StyleTable, ConfigError>(
                ConfigError::UnsupportedTier(tier),
            )
        }),
{
    let bg = match backgrounds {
        Some(v) => merge_all(v),
        None => {
            let mut b: ColorScheme = CharMap::new();
            b.extend(default_bg);
            assert(Map::<char, Color>::empty().union_prefer_right(default_bg@) =~= default_bg@);
            b
        },
    };
    let fg = match foregrounds {
        Some(v) => merge_all(v),
        None => default_foreground(&bg),
    };
    let fg = match invisible {
        Some(spec) => invisible_foreground(fg, &bg, spec)?,
        None => fg,
    };
    let bg = downgrade_scheme(&bg, tier)?;
    let fg = downgrade_scheme(&fg, tier)?;
    Ok(combine(&bg, &fg))
}

/// Whether `c` occurs in `v`.
pub fn contains_char(v: &Vec<char>, c: char) -> (r: bool)
    ensures
        r == v@.contains(c),
{
    let mut i: usize = 0;
    while i < v.len()
        invariant
            i <= v@.len(),
            forall|j: int| 0 <= j < i ==> v@[j] != c,
        decreases v@.len() - i,
    {
        if v[i] == c {
            return true;
        }
        i = i + 1;
    }
    false
}

} // verus!

//! Themes as custom properties of the page.

use vstd::prelude::*;

use crate::config::ThemeColors;
use crate::numbers::{
    decimal, hex_pair, hex_text, hex_text_reads_back, parse_unsigned, parse_up_to, to_decimal,
};
use crate::text::{
    a_tidy_text_is_kept, chars_of, concat2, concat3, hex_digit, is_hex, trim, trim_start_of,
    trim_start_set, trimmed,
};

verus! {

// ---------------------------------------------------------------------------
// Colours
// ---------------------------------------------------------------------------

/// The six digits of a colour, with or without a `#` before them.
pub open spec fn bare_hex(hex: Seq<char>) -> Seq<char> {
    trim_start_of(trimmed(hex), seq!['#'])
}

/// The red, green and blue of a colour that is written in six digits.
pub open spec fn hex_color(hex: Seq<char>) -> Option<(u8, u8, u8)> {
    let h = bare_hex(hex);
    if h.len() == 6 && forall|i: int| 0 <= i < 6 ==> is_hex(#[trigger] h[i]) {
        Some((hex_pair(h[0], h[1]), hex_pair(h[2], h[3]), hex_pair(h[4], h[5])))
    } else {
        None
    }
}

/// The byte that two digits write.
fn pair(v: &Vec<char>, i: usize) -> (r: Option<u8>)
    requires
        i + 1 < v@.len(),
    ensures
        match r {
            Some(b) => is_hex(v@[i as int]) && is_hex(v@[i + 1]) && b == hex_pair(
                v@[i as int],
                v@[i + 1],
            ),
            None => !is_hex(v@[i as int]) || !is_hex(v@[i + 1]),
        },
{
    let n: usize = v.len();
    assert(i + 1 < n);
    match (hex_digit(v[i]), hex_digit(v[i + 1])) {
        (Some(a), Some(b)) => Some(a * 16 + b),
        _ => None,
    }
}

/// Reads a colour that is written in six digits, with or without a `#`.
pub fn parse_hex(hex: &str) -> (r: Option<(u8, u8, u8)>)
    ensures
        r == hex_color(hex@),
{
    proof {
        reveal_strlit("#");
        assert("#"@ =~= seq!['#']);
    }
    let bare = trim(hex);
    let h = trim_start_set(bare.as_str(), "#");
    let v = chars_of(h.as_str());
    if v.len() != 6 {
        return None;
    }
    let (red, green, blue) = (pair(&v, 0), pair(&v, 2), pair(&v, 4));
    assert(v@ == bare_hex(hex@));
    match (red, green, blue) {
        (Some(r), Some(g), Some(b)) => {
            assert forall|i: int| 0 <= i < 6 implies is_hex(#[trigger] v@[i]) by {}
            Some((r, g, b))
        },
        _ => {
            assert(hex_color(hex@) is None) by {
                if forall|i: int| 0 <= i < 6 ==> is_hex(#[trigger] v@[i]) {
                    assert(is_hex(v@[0]) && is_hex(v@[1]) && is_hex(v@[2]));
                    assert(is_hex(v@[3]) && is_hex(v@[4]) && is_hex(v@[5]));
                }
            }
            None
        },
    }
}

/// A colour with an opacity. What is no colour is a grey.
pub open spec fn rgba_text(hex: Seq<char>, alpha: Seq<char>) -> Seq<char> {
    let (r, g, b) = match hex_color(hex) {
        Some(c) => c,
        None => (127, 127, 127),
    };
    "rgba("@ + decimal(r as nat) + ","@ + decimal(g as nat) + ","@ + decimal(b as nat) + ","@
        + alpha + ")"@
}

/// A colour with an opacity, whose text is given.
pub fn rgba(hex: &str, alpha: &str) -> (r: String)
    ensures
        r@ == rgba_text(hex@, alpha@),
{
    let (red, green, blue) = match parse_hex(hex) {
        Some(c) => c,
        None => (127, 127, 127),
    };
    let red = to_decimal(red as u128);
    let green = to_decimal(green as u128);
    let blue = to_decimal(blue as u128);
    let mut out = concat3("rgba(", red.as_str(), ",");
    out.append(green.as_str());
    out.append(",");
    out.append(blue.as_str());
    out.append(",");
    out.append(alpha);
    out.append(")");
    out
}

/// The colour of a page whose background is no colour.
pub open spec fn ground_of(background: Seq<char>) -> Seq<char> {
    if hex_color(background) is Some {
        background
    } else {
        "#0f0f10"@
    }
}

/// The background as a colour: itself where it is one, else a dark one.
pub fn ground(background: &str) -> (r: String)
    ensures
        r@ == ground_of(background@),
{
    match parse_hex(background) {
        Some(_) => String::from_str(background),
        None => String::from_str("#0f0f10"),
    }
}

/// The ink on a filled accent, given whether the background reads at least as
/// well on it as white does: whichever of the two reads better.
pub fn readable_ink(background: &str, background_reads: bool) -> (r: String)
    ensures
        r@ == if background_reads {
            ground_of(background@)
        } else {
            "#ffffff"@
        },
{
    if background_reads {
        ground(background)
    } else {
        String::from_str("#ffffff")
    }
}

// ---------------------------------------------------------------------------
// The style sheet
// ---------------------------------------------------------------------------

/// The custom properties of a theme, given the ink on its accent.
pub open spec fn properties(t: ThemeColors, ink: Seq<char>) -> Seq<(Seq<char>, Seq<char>)> {
    seq![
        ("--bg"@, t.bg@),
        ("--surface"@, t.cards@),
        ("--border"@, t.border@),
        ("--text"@, t.text@),
        ("--text-muted"@, t.text_muted@),
        ("--accent"@, t.accent@),
        ("--danger"@, t.danger@),
        ("--warning"@, t.warning@),
        ("--radius"@, decimal(t.border_radius as nat) + "px"@),
        ("--max-width"@, decimal(t.max_width_desktop as nat) + "%"@),
        ("--accent-soft"@, rgba_text(t.accent@, "0.14"@)),
        ("--danger-soft"@, rgba_text(t.danger@, "0.14"@)),
        ("--on-accent"@, ink),
    ]
}

/// Properties as a style.
pub open spec fn style_text(props: Seq<(Seq<char>, Seq<char>)>) -> Seq<char>
    decreases props.len(),
{
    if props.len() == 0 {
        seq![]
    } else {
        let (key, value) = props.last();
        style_text(props.drop_last()) + (key + ": "@ + value + ";"@)
    }
}

/// Adds a property to a style.
fn set(css: &mut String, key: &str, value: &str, Ghost(before): Ghost<Seq<(Seq<char>, Seq<char>)>>)
    requires
        old(css)@ == style_text(before),
    ensures
        final(css)@ == style_text(before.push((key@, value@))),
{
    let one = concat3(key, ": ", value);
    let one = concat2(one.as_str(), ";");
    css.append(one.as_str());
    assert(before.push((key@, value@)).drop_last() =~= before);
}

/// The style that applies a theme, given the ink on its accent.
pub fn css(t: &ThemeColors, ink: &str) -> (r: String)
    ensures
        r@ == style_text(properties(*t, ink@)),
{
    let ghost all = properties(*t, ink@);
    let mut out = String::new();
    let radius = concat2(to_decimal(t.border_radius as u128).as_str(), "px");
    let width = concat2(to_decimal(t.max_width_desktop as u128).as_str(), "%");
    let accent = rgba(t.accent.as_str(), "0.14");
    let danger = rgba(t.danger.as_str(), "0.14");
    let ghost p0 = Seq::<(Seq<char>, Seq<char>)>::empty();
    set(&mut out, "--bg", t.bg.as_str(), Ghost(p0));
    let ghost p1 = p0.push(all[0]);
    set(&mut out, "--surface", t.cards.as_str(), Ghost(p1));
    let ghost p2 = p1.push(all[1]);
    set(&mut out, "--border", t.border.as_str(), Ghost(p2));
    let ghost p3 = p2.push(all[2]);
    set(&mut out, "--text", t.text.as_str(), Ghost(p3));
    let ghost p4 = p3.push(all[3]);
    set(&mut out, "--text-muted", t.text_muted.as_str(), Ghost(p4));
    let ghost p5 = p4.push(all[4]);
    set(&mut out, "--accent", t.accent.as_str(), Ghost(p5));
    let ghost p6 = p5.push(all[5]);
    set(&mut out, "--danger", t.danger.as_str(), Ghost(p6));
    let ghost p7 = p6.push(all[6]);
    set(&mut out, "--warning", t.warning.as_str(), Ghost(p7));
    let ghost p8 = p7.push(all[7]);
    set(&mut out, "--radius", radius.as_str(), Ghost(p8));
    let ghost p9 = p8.push(all[8]);
    set(&mut out, "--max-width", width.as_str(), Ghost(p9));
    let ghost p10 = p9.push(all[9]);
    set(&mut out, "--accent-soft", accent.as_str(), Ghost(p10));
    let ghost p11 = p10.push(all[10]);
    set(&mut out, "--danger-soft", danger.as_str(), Ghost(p11));
    let ghost p12 = p11.push(all[11]);
    set(&mut out, "--on-accent", ink, Ghost(p12));
    assert(p12.push(all[12]) =~= all);
    out
}

/// The background image of the page, where the theme has one.
pub fn wallpaper(t: &ThemeColors) -> (r: Option<String>)
    ensures
        match r {
            Some(image) => t.wallpaper@.len() > 0 && image@ == "url(\""@ + t.wallpaper@ + "\")"@,
            None => t.wallpaper@.len() == 0,
        },
{
    if t.wallpaper.as_str().is_empty() {
        None
    } else {
        Some(concat3("url(\"", t.wallpaper.as_str(), "\")"))
    }
}

// ---------------------------------------------------------------------------
// The theme editor
// ---------------------------------------------------------------------------

/// The colours that can be edited.
#[derive(Debug, Clone, Copy, PartialEq, Eq, Structural)]
pub enum Color {
    Bg,
    Cards,
    Border,
    Text,
    Accent,
    Danger,
    Warning,
}

/// The sizes that can be edited.
#[derive(Debug, Clone, Copy, PartialEq, Eq, Structural)]
pub enum Size {
    Radius,
    Width,
}

impl ThemeColors {
    /// The colour in that place.
    pub open spec fn color_of(self, which: Color) -> Seq<char> {
        match which {
            Color::Bg => self.bg@,
            Color::Cards => self.cards@,
            Color::Border => self.border@,
            Color::Text => self.text@,
            Color::Accent => self.accent@,
            Color::Danger => self.danger@,
            Color::Warning => self.warning@,
        }
    }

    /// The size in that place.
    pub open spec fn size_of(self, which: Size) -> u8 {
        match which {
            Size::Radius => self.border_radius,
            Size::Width => self.max_width_desktop,
        }
    }

    /// Is everything that no control edits as before?
    pub open spec fn keeps_the_rest(self, before: ThemeColors) -> bool {
        &&& self.text_muted == before.text_muted
        &&& self.glass == before.glass
        &&& self.blur == before.blur
        &&& self.wallpaper == before.wallpaper
    }

    /// The colour in that place.
    pub fn color(&self, which: Color) -> (r: &str)
        ensures
            r@ == self.color_of(which),
    {
        match which {
            Color::Bg => self.bg.as_str(),
            Color::Cards => self.cards.as_str(),
            Color::Border => self.border.as_str(),
            Color::Text => self.text.as_str(),
            Color::Accent => self.accent.as_str(),
            Color::Danger => self.danger.as_str(),
            Color::Warning => self.warning.as_str(),
        }
    }

    /// Puts a colour in that place.
    pub fn set_color(&mut self, which: Color, value: String)
        ensures
            final(self).color_of(which) == value@,
            forall|other: Color|
                other != which ==> #[trigger] final(self).color_of(other) == old(self).color_of(
                    other,
                ),
            final(self).border_radius == old(self).border_radius,
            final(self).max_width_desktop == old(self).max_width_desktop,
            final(self).keeps_the_rest(*old(self)),
    {
        match which {
            Color::Bg => self.bg = value,
            Color::Cards => self.cards = value,
            Color::Border => self.border = value,
            Color::Text => self.text = value,
            Color::Accent => self.accent = value,
            Color::Danger => self.danger = value,
            Color::Warning => self.warning = value,
        }
    }

    /// The size in that place.
    pub fn size(&self, which: Size) -> (r: u8)
        ensures
            r == self.size_of(which),
    {
        match which {
            Size::Radius => self.border_radius,
            Size::Width => self.max_width_desktop,
        }
    }

    /// Puts the size that was typed in that place; what is no size is zero.
    pub fn set_size(&mut self, which: Size, typed: &str)
        ensures
            final(self).size_of(which) == match parse_unsigned(typed@, 255) {
                Some(n) => n as u8,
                None => 0,
            },
            forall|other: Size|
                other != which ==> #[trigger] final(self).size_of(other) == old(self).size_of(
                    other,
                ),
            forall|c: Color| #[trigger] final(self).color_of(c) == old(self).color_of(c),
            final(self).keeps_the_rest(*old(self)),
    {
        let n: u8 = match parse_up_to(typed, 255) {
            Some(n) => n as u8,
            None => 0,
        };
        match which {
            Size::Radius => self.border_radius = n,
            Size::Width => self.max_width_desktop = n,
        }
    }
}

// ---------------------------------------------------------------------------
// Laws of the style
// ---------------------------------------------------------------------------

/// A colour that is written in hexadecimal, with or without a `#`, is read as the
/// red, the green and the blue that it was written from.
pub proof fn a_written_color_reads_back(r: u8, g: u8, b: u8)
    ensures
        hex_color(hex_text(seq![r, g, b])) == Some((r, g, b)),
        hex_color(seq!['#'] + hex_text(seq![r, g, b])) == Some((r, g, b)),
{
    let c = seq![r, g, b];
    let h = hex_text(c);
    hex_text_reads_back(c, 0);
    hex_text_reads_back(c, 1);
    hex_text_reads_back(c, 2);
    assert(is_hex(h[0]) && is_hex(h[1]) && is_hex(h[2]) && is_hex(h[3]));
    assert(is_hex(h[4]) && is_hex(h[5]));
    let set = seq!['#'];
    assert forall|x: char| set.contains(x) implies x == '#' by {}
    assert(set[0] == '#');
    assert(set.contains('#'));
    a_tidy_text_is_kept(h);
    assert(trim_start_of(h, set) == h);
    let s = set + h;
    assert(s.last() == h.last() && s[0] == '#');
    a_tidy_text_is_kept(s);
    assert(s.drop_first() =~= h);
    assert(trim_start_of(s, set) == h);
}

/// What is not written in six hexadecimal digits is no colour.
pub proof fn a_color_has_six_digits(hex: Seq<char>, i: int)
    ensures
        bare_hex(hex).len() != 6 ==> hex_color(hex) is None,
        0 <= i < 6 && bare_hex(hex).len() == 6 && !is_hex(bare_hex(hex)[i]) ==> hex_color(hex)
            is None,
{
    if 0 <= i < 6 && bare_hex(hex).len() == 6 && !is_hex(bare_hex(hex)[i]) {
        let h = bare_hex(hex);
        assert(!(forall|k: int| 0 <= k < 6 ==> is_hex(#[trigger] h[k])));
    }
}

/// A colour with an opacity names its red, its green, its blue and the opacity,
/// in this order; what is no colour is a middle grey.
pub proof fn a_color_with_an_opacity(
    hex: Seq<char>,
    alpha: Seq<char>,
    r: u8,
    g: u8,
    b: u8,
)
    ensures
        hex_color(hex) == Some((r, g, b)) ==> rgba_text(hex, alpha) == "rgba("@ + decimal(r as nat)
            + ","@ + decimal(g as nat) + ","@ + decimal(b as nat) + ","@ + alpha + ")"@,
        hex_color(hex) is None ==> rgba_text(hex, alpha) == "rgba("@ + decimal(127) + ","@
            + decimal(127) + ","@ + decimal(127) + ","@ + alpha + ")"@,
{
}

/// A background that is a colour is kept, and another one is the dark default.
pub proof fn a_background_is_a_color(background: Seq<char>)
    ensures
        hex_color(background) is Some ==> ground_of(background) == background,
        hex_color(background) is None ==> ground_of(background) == "#0f0f10"@,
{
}

/// Every colour and measure of a theme is set under its own property.
pub proof fn every_part_of_a_theme_has_its_property(t: ThemeColors, ink: Seq<char>)
    ensures
        ({
            let p = properties(t, ink);
            &&& p.len() == 13
            &&& p.contains(("--bg"@, t.bg@)) && p.contains(("--surface"@, t.cards@))
            &&& p.contains(("--border"@, t.border@)) && p.contains(("--text"@, t.text@))
            &&& p.contains(("--text-muted"@, t.text_muted@))
            &&& p.contains(("--accent"@, t.accent@)) && p.contains(("--danger"@, t.danger@))
            &&& p.contains(("--warning"@, t.warning@))
            &&& p.contains(("--radius"@, decimal(t.border_radius as nat) + "px"@))
            &&& p.contains(("--max-width"@, decimal(t.max_width_desktop as nat) + "%"@))
            &&& p.contains(("--accent-soft"@, rgba_text(t.accent@, "0.14"@)))
            &&& p.contains(("--danger-soft"@, rgba_text(t.danger@, "0.14"@)))
            &&& p.contains(("--on-accent"@, ink))
        }),
{
    let p = properties(t, ink);
    assert(p[0] == ("--bg"@, t.bg@) && p[1] == ("--surface"@, t.cards@));
    assert(p[2] == ("--border"@, t.border@) && p[3] == ("--text"@, t.text@));
    assert(p[4] == ("--text-muted"@, t.text_muted@) && p[5] == ("--accent"@, t.accent@));
    assert(p[6] == ("--danger"@, t.danger@) && p[7] == ("--warning"@, t.warning@));
    assert(p[8] == ("--radius"@, decimal(t.border_radius as nat) + "px"@));
    assert(p[9] == ("--max-width"@, decimal(t.max_width_desktop as nat) + "%"@));
    assert(p[10] == ("--accent-soft"@, rgba_text(t.accent@, "0.14"@)));
    assert(p[11] == ("--danger-soft"@, rgba_text(t.danger@, "0.14"@)));
    assert(p[12] == ("--on-accent"@, ink));
}

/// A style sets its properties one behind the other, each to its value.
pub proof fn a_style_sets_every_property(
    props: Seq<(Seq<char>, Seq<char>)>,
    key: Seq<char>,
    value: Seq<char>,
)
    ensures
        style_text(seq![]).len() == 0,
        style_text(props.push((key, value))) == style_text(props) + key + ": "@ + value + ";"@,
{
    assert(props.push((key, value)).drop_last() =~= props);
    assert(style_text(props) + (key + ": "@ + value + ";"@) =~= style_text(props) + key + ": "@
        + value + ";"@);
}

/// The places of the editor are the parts of the theme that they name.
pub proof fn the_editor_names_the_parts(t: ThemeColors)
    ensures
        t.color_of(Color::Bg) == t.bg@ && t.color_of(Color::Cards) == t.cards@,
        t.color_of(Color::Border) == t.border@ && t.color_of(Color::Text) == t.text@,
        t.color_of(Color::Accent) == t.accent@ && t.color_of(Color::Danger) == t.danger@,
        t.color_of(Color::Warning) == t.warning@,
        t.size_of(Size::Radius) == t.border_radius,
        t.size_of(Size::Width) == t.max_width_desktop,
{
}

/// What no control edits is kept: the muted text, the glass, the blur and the
/// wallpaper.
pub proof fn what_is_not_edited_is_kept(t: ThemeColors, before: ThemeColors)
    requires
        t.keeps_the_rest(before),
    ensures
        t.text_muted == before.text_muted && t.glass == before.glass && t.blur == before.blur,
        t.wallpaper == before.wallpaper,
{
}

} // verus!

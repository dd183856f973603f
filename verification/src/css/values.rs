//! Values: colors, display keywords and lengths as written.

use crate::text::{
    ends_with, from_chars, has_suffix, lowercase_of, str_to_lowercase, subvec, to_chars, trim,
    trimmed,
};
use vstd::prelude::*;

verus! {

/// A color with an alpha channel, each component from 0 to 255.
#[derive(Debug, Clone, Copy, PartialEq, Eq, Structural)]
pub struct Color {
    pub r: u8,
    pub g: u8,
    pub b: u8,
    pub a: u8,
}

/// The value of a hexadecimal digit, in either case.
pub open spec fn hex_digit(c: char) -> Option<int> {
    if '0' <= c && c <= '9' {
        Some(c as int - '0' as int)
    } else if 'a' <= c && c <= 'f' {
        Some(c as int - 'a' as int + 10)
    } else if 'A' <= c && c <= 'F' {
        Some(c as int - 'A' as int + 10)
    } else {
        None
    }
}

/// Whether every character of the text is a hexadecimal digit.
pub open spec fn all_hex(s: Seq<char>) -> bool {
    forall|i: int| 0 <= i < s.len() ==> (#[trigger] hex_digit(s[i])) is Some
}

/// The number that two hexadecimal digits spell.
pub open spec fn hex_pair(hi: char, lo: char) -> int {
    16 * hex_digit(hi)->0 + hex_digit(lo)->0
}

/// A hexadecimal color without its optional leading `#`.
pub open spec fn hex_body(s: Seq<char>) -> Seq<char> {
    if s.len() > 0 && s[0] == '#' {
        s.drop_first()
    } else {
        s
    }
}

/// The color that a hexadecimal notation stands for: after an optional `#`,
/// three digits (each one doubled), six digits, or eight digits with the
/// alpha channel last. Any other text stands for no color.
pub open spec fn color_of_hex(s: Seq<char>) -> Option<Color> {
    let h = hex_body(s);
    if !all_hex(h) {
        None
    } else if h.len() == 3 {
        Some(
            Color {
                r: (17 * hex_digit(h[0])->0) as u8,
                g: (17 * hex_digit(h[1])->0) as u8,
                b: (17 * hex_digit(h[2])->0) as u8,
                a: 255,
            },
        )
    } else if h.len() == 6 {
        Some(
            Color {
                r: hex_pair(h[0], h[1]) as u8,
                g: hex_pair(h[2], h[3]) as u8,
                b: hex_pair(h[4], h[5]) as u8,
                a: 255,
            },
        )
    } else if h.len() == 8 {
        Some(
            Color {
                r: hex_pair(h[0], h[1]) as u8,
                g: hex_pair(h[2], h[3]) as u8,
                b: hex_pair(h[4], h[5]) as u8,
                a: hex_pair(h[6], h[7]) as u8,
            },
        )
    } else {
        None
    }
}

/// The color that a lowercase keyword names.
pub open spec fn color_named(s: Seq<char>) -> Option<Color> {
    if s == "black"@ {
        Some(Color { r: 0, g: 0, b: 0, a: 255 })
    } else if s == "white"@ {
        Some(Color { r: 255, g: 255, b: 255, a: 255 })
    } else if s == "red"@ {
        Some(Color { r: 255, g: 0, b: 0, a: 255 })
    } else if s == "green"@ {
        Some(Color { r: 0, g: 128, b: 0, a: 255 })
    } else if s == "blue"@ {
        Some(Color { r: 0, g: 0, b: 255, a: 255 })
    } else if s == "transparent"@ {
        Some(Color { r: 0, g: 0, b: 0, a: 0 })
    } else {
        None
    }
}

/// Whether a lowercase keyword is one of the color names that a
/// `background` shorthand is recognised by.
pub open spec fn is_color_word(s: Seq<char>) -> bool {
    s == "black"@ || s == "white"@ || s == "red"@ || s == "green"@ || s == "blue"@ || s
        == "transparent"@ || s == "yellow"@ || s == "orange"@ || s == "purple"@ || s == "pink"@
        || s == "gray"@ || s == "grey"@
}

fn is_word(word: &String, literal: &str) -> (r: bool)
    ensures
        r == (word@ == literal@),
{
    let other = literal.to_string();
    *word == other
}

fn hex_value(c: char) -> (r: Option<u8>)
    ensures
        r is Some <==> hex_digit(c) is Some,
        r is Some ==> r->0 == hex_digit(c)->0 && r->0 < 16,
{
    if c >= '0' && c <= '9' {
        Some(((c as u32) - ('0' as u32)) as u8)
    } else if c >= 'a' && c <= 'f' {
        Some(((c as u32) - ('a' as u32) + 10) as u8)
    } else if c >= 'A' && c <= 'F' {
        Some(((c as u32) - ('A' as u32) + 10) as u8)
    } else {
        None
    }
}

/// The values of the hexadecimal digits of `v`, where all of them are.
fn hex_values(v: &Vec<char>) -> (r: Option<Vec<u8>>)
    ensures
        r is Some <==> all_hex(v@),
        r is Some ==> r->0.len() == v.len() && forall|i: int|
            0 <= i < v.len() ==> (#[trigger] r->0[i]) == hex_digit(v@[i])->0 && r->0[i] < 16,
{
    let mut out: Vec<u8> = Vec::new();
    let mut i: usize = 0;
    while i < v.len()
        invariant
            i <= v.len(),
            out.len() == i,
            forall|k: int| 0 <= k < i ==> (#[trigger] hex_digit(v@[k])) is Some,
            forall|k: int| 0 <= k < i ==> (#[trigger] out[k]) == hex_digit(v@[k])->0 && out[k] < 16,
        decreases v.len() - i,
    {
        match hex_value(v[i]) {
            Some(d) => {
                out.push(d);
            },
            None => {
                return None;
            },
        }
        i += 1;
    }
    Some(out)
}

impl Color {
    /// Opaque black.
    pub fn black() -> (c: Self)
        ensures
            c == (Color { r: 0, g: 0, b: 0, a: 255 }),
    {
        Color { r: 0, g: 0, b: 0, a: 255 }
    }

    /// An opaque color.
    pub fn rgb(r: u8, g: u8, b: u8) -> (c: Self)
        ensures
            c == (Color { r, g, b, a: 255 }),
    {
        Color { r, g, b, a: 255 }
    }

    pub fn rgba(r: u8, g: u8, b: u8, a: u8) -> (c: Self)
        ensures
            c == (Color { r, g, b, a }),
    {
        Color { r, g, b, a }
    }

    /// Black with no opacity at all.
    pub fn transparent() -> (c: Self)
        ensures
            c == (Color { r: 0, g: 0, b: 0, a: 0 }),
    {
        Color { r: 0, g: 0, b: 0, a: 0 }
    }

    /// The color that a keyword names, whatever its case.
    pub fn from_name(name: &str) -> (r: Option<Self>)
        ensures
            r == color_named(lowercase_of(name@)),
    {
        let lower = str_to_lowercase(name);
        Self::from_lowercase_name(lower.as_str())
    }

    /// The color that a lowercase keyword names: one of `black`, `white`,
    /// `red`, `green`, `blue` and `transparent`.
    pub fn from_lowercase_name(name: &str) -> (r: Option<Self>)
        ensures
            r == color_named(name@),
    {
        let n = name.to_string();
        if is_word(&n, "black") {
            Some(Color::rgb(0, 0, 0))
        } else if is_word(&n, "white") {
            Some(Color::rgb(255, 255, 255))
        } else if is_word(&n, "red") {
            Some(Color::rgb(255, 0, 0))
        } else if is_word(&n, "green") {
            Some(Color::rgb(0, 128, 0))
        } else if is_word(&n, "blue") {
            Some(Color::rgb(0, 0, 255))
        } else if is_word(&n, "transparent") {
            Some(Color::transparent())
        } else {
            None
        }
    }

    /// Whether a keyword, whatever its case, is a color name by which a
    /// `background` shorthand is recognised.
    pub fn from_name_exists(name: &str) -> (r: bool)
        ensures
            r == is_color_word(lowercase_of(name@)),
    {
        let lower = str_to_lowercase(name);
        Self::is_lowercase_color_word(lower.as_str())
    }

    /// Whether a lowercase keyword is a color name by which a `background`
    /// shorthand is recognised.
    pub fn is_lowercase_color_word(name: &str) -> (r: bool)
        ensures
            r == is_color_word(name@),
    {
        let n = name.to_string();
        is_word(&n, "black") || is_word(&n, "white") || is_word(&n, "red") || is_word(&n, "green")
            || is_word(&n, "blue") || is_word(&n, "transparent") || is_word(&n, "yellow")
            || is_word(&n, "orange") || is_word(&n, "purple") || is_word(&n, "pink") || is_word(
            &n,
            "gray",
        ) || is_word(&n, "grey")
    }

    /// The color written in hexadecimal notation, if the text is one.
    pub fn from_hex(hex: &str) -> (r: Option<Self>)
        ensures
            r == color_of_hex(hex@),
    {
        let raw = to_chars(hex);
        let body = if raw.len() > 0 && raw[0] == '#' {
            subvec(&raw, 1, raw.len())
        } else {
            raw
        };
        assert(body@ == hex_body(hex@));
        match hex_values(&body) {
            None => None,
            Some(d) => {
                if d.len() == 3 {
                    Some(Color::rgb(d[0] * 17, d[1] * 17, d[2] * 17))
                } else if d.len() == 6 {
                    Some(Color::rgb(d[0] * 16 + d[1], d[2] * 16 + d[3], d[4] * 16 + d[5]))
                } else if d.len() == 8 {
                    Some(
                        Color::rgba(
                            d[0] * 16 + d[1],
                            d[2] * 16 + d[3],
                            d[4] * 16 + d[5],
                            d[6] * 16 + d[7],
                        ),
                    )
                } else {
                    None
                }
            },
        }
    }
}

impl Default for Color {
    fn default() -> (c: Self)
        ensures
            c == (Color { r: 0, g: 0, b: 0, a: 255 }),
    {
        Color { r: 0, g: 0, b: 0, a: 255 }
    }
}

/// How an element takes part in layout.
#[derive(Debug, Clone, Copy, PartialEq, Eq, Structural)]
pub enum Display {
    Block,
    Inline,
    InlineBlock,
    Flex,
    Grid,
    /// `none`: the element and all below it are left out.
    Hidden,
    Contents,
}

/// The display value that a lowercase keyword names.
pub open spec fn display_named(s: Seq<char>) -> Option<Display> {
    if s == "block"@ {
        Some(Display::Block)
    } else if s == "inline"@ {
        Some(Display::Inline)
    } else if s == "inline-block"@ {
        Some(Display::InlineBlock)
    } else if s == "flex"@ {
        Some(Display::Flex)
    } else if s == "grid"@ {
        Some(Display::Grid)
    } else if s == "none"@ {
        Some(Display::Hidden)
    } else if s == "contents"@ {
        Some(Display::Contents)
    } else {
        None
    }
}

impl Display {
    /// The display value that the text names, whatever its case and the
    /// white space around it.
    pub fn parse(s: &str) -> (r: Option<Self>)
        ensures
            r == display_named(lowercase_of(trimmed(s@))),
    {
        let t = from_chars(&trim(&to_chars(s)));
        let lower = str_to_lowercase(t.as_str());
        Self::from_keyword(lower.as_str())
    }

    /// The display value that a lowercase keyword names.
    pub fn from_keyword(word: &str) -> (r: Option<Self>)
        ensures
            r == display_named(word@),
    {
        let n = word.to_string();
        if is_word(&n, "block") {
            Some(Display::Block)
        } else if is_word(&n, "inline") {
            Some(Display::Inline)
        } else if is_word(&n, "inline-block") {
            Some(Display::InlineBlock)
        } else if is_word(&n, "flex") {
            Some(Display::Flex)
        } else if is_word(&n, "grid") {
            Some(Display::Grid)
        } else if is_word(&n, "none") {
            Some(Display::Hidden)
        } else if is_word(&n, "contents") {
            Some(Display::Contents)
        } else {
            None
        }
    }
}

impl Default for Display {
    fn default() -> (d: Self)
        ensures
            d == Display::Inline,
    {
        Display::Inline
    }
}

/// The units in which a length can be written.
#[derive(Debug, Clone, Copy, PartialEq, Eq, Structural)]
pub enum LengthUnit {
    Px,
    Em,
    Rem,
    Percent,
    Vw,
    Vh,
}

/// A length as it is written: a keyword, or the text of a number with its
/// unit. Whether that text is a number is decided where it is read.
#[derive(Debug, Clone, PartialEq, Eq)]
pub enum LengthText {
    /// `auto`
    Auto,
    /// A bare `0`.
    Zero,
    /// The text before a unit, or the whole text where no unit ends it, in
    /// which case the unit is pixels.
    Number { text: String, unit: LengthUnit },
}

/// What a written length says, as plain text.
pub enum LengthModel {
    Auto,
    Zero,
    Number { text: Seq<char>, unit: LengthUnit },
}

impl View for LengthText {
    type V = LengthModel;

    open spec fn view(&self) -> LengthModel {
        match self {
            LengthText::Auto => LengthModel::Auto,
            LengthText::Zero => LengthModel::Zero,
            LengthText::Number { text, unit } => LengthModel::Number { text: text@, unit: *unit },
        }
    }
}

/// A text without its last `n` characters.
pub open spec fn without_last(s: Seq<char>, n: int) -> Seq<char> {
    s.subrange(0, s.len() - n)
}

/// How a length is written, white space around it aside: `auto`, a bare
/// `0`, or a number before one of `px`, `rem`, `em`, `%`, `vw`, `vh`. A text
/// that ends in none of them is taken whole, as pixels.
pub open spec fn length_of(s: Seq<char>) -> LengthModel {
    let t = trimmed(s);
    if t == "auto"@ {
        LengthModel::Auto
    } else if t == "0"@ {
        LengthModel::Zero
    } else if has_suffix(t, "px"@) {
        LengthModel::Number { text: without_last(t, 2), unit: LengthUnit::Px }
    } else if has_suffix(t, "rem"@) {
        LengthModel::Number { text: without_last(t, 3), unit: LengthUnit::Rem }
    } else if has_suffix(t, "em"@) {
        LengthModel::Number { text: without_last(t, 2), unit: LengthUnit::Em }
    } else if has_suffix(t, "%"@) {
        LengthModel::Number { text: without_last(t, 1), unit: LengthUnit::Percent }
    } else if has_suffix(t, "vw"@) {
        LengthModel::Number { text: without_last(t, 2), unit: LengthUnit::Vw }
    } else if has_suffix(t, "vh"@) {
        LengthModel::Number { text: without_last(t, 2), unit: LengthUnit::Vh }
    } else {
        LengthModel::Number { text: t, unit: LengthUnit::Px }
    }
}

fn number_before(t: &Vec<char>, suffix_len: usize, unit: LengthUnit) -> (r: LengthText)
    requires
        suffix_len <= t.len(),
    ensures
        r@ == (LengthModel::Number { text: without_last(t@, suffix_len as int), unit }),
{
    LengthText::Number { text: from_chars(&subvec(t, 0, t.len() - suffix_len)), unit }
}

impl LengthText {
    /// Reads how a length is written.
    pub fn scan(s: &str) -> (r: Self)
        ensures
            r@ == length_of(s@),
    {
        let t = trim(&to_chars(s));
        let px = to_chars("px");
        let rem = to_chars("rem");
        let em = to_chars("em");
        let percent = to_chars("%");
        let vw = to_chars("vw");
        let vh = to_chars("vh");
        proof {
            reveal_strlit("px");
            reveal_strlit("rem");
            reveal_strlit("em");
            reveal_strlit("%");
            reveal_strlit("vw");
            reveal_strlit("vh");
        }
        if crate::text::chars_are(&t, "auto") {
            LengthText::Auto
        } else if crate::text::chars_are(&t, "0") {
            LengthText::Zero
        } else if ends_with(&t, &px) {
            number_before(&t, 2, LengthUnit::Px)
        } else if ends_with(&t, &rem) {
            number_before(&t, 3, LengthUnit::Rem)
        } else if ends_with(&t, &em) {
            number_before(&t, 2, LengthUnit::Em)
        } else if ends_with(&t, &percent) {
            number_before(&t, 1, LengthUnit::Percent)
        } else if ends_with(&t, &vw) {
            number_before(&t, 2, LengthUnit::Vw)
        } else if ends_with(&t, &vh) {
            number_before(&t, 2, LengthUnit::Vh)
        } else {
            LengthText::Number { text: from_chars(&t), unit: LengthUnit::Px }
        }
    }
}

} // verus!

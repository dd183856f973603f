use browser_core::css::properties::PropertyId;
use browser_core::css::values::{Color, Display, LengthText, LengthUnit};

#[test]
fn hex_colors() {
    assert_eq!(Color::from_hex("#336699"), Some(Color { r: 0x33, g: 0x66, b: 0x99, a: 255 }));
    assert_eq!(Color::from_hex("#fff"), Some(Color { r: 255, g: 255, b: 255, a: 255 }));
    assert_eq!(Color::from_hex("a1B2c3"), Some(Color { r: 0xa1, g: 0xb2, b: 0xc3, a: 255 }));
    assert_eq!(Color::from_hex("#11223344"), Some(Color { r: 0x11, g: 0x22, b: 0x33, a: 0x44 }));
    assert_eq!(Color::from_hex("#1a2"), Some(Color { r: 0x11, g: 0xaa, b: 0x22, a: 255 }));
}

#[test]
fn hex_colors_that_are_none() {
    for bad in ["", "#", "#12", "#1234", "#12345", "#1234567", "#123456789", "#ggg", "##fff", "#+f+f+f", "#12345é"] {
        assert_eq!(Color::from_hex(bad), None, "{}", bad);
    }
}

#[test]
fn named_colors() {
    assert_eq!(Color::from_name("black"), Some(Color::rgb(0, 0, 0)));
    assert_eq!(Color::from_name("WHITE"), Some(Color::rgb(255, 255, 255)));
    assert_eq!(Color::from_name("Red"), Some(Color::rgb(255, 0, 0)));
    assert_eq!(Color::from_name("green"), Some(Color::rgb(0, 128, 0)));
    assert_eq!(Color::from_name("blue"), Some(Color::rgb(0, 0, 255)));
    assert_eq!(Color::from_name("transparent"), Some(Color::rgba(0, 0, 0, 0)));
    assert_eq!(Color::from_name("yellow"), None);
    assert_eq!(Color::from_lowercase_name("RED"), None);
    assert_eq!(Color::transparent().a, 0);
    assert_eq!(Color::black(), Color::rgb(0, 0, 0));
    assert_eq!(Color::default(), Color::black());
}

#[test]
fn color_words_for_backgrounds() {
    assert!(Color::from_name_exists("Yellow"));
    assert!(Color::from_name_exists("grey"));
    assert!(!Color::from_name_exists("mauve"));
    assert!(!Color::is_lowercase_color_word("Yellow"));
}

#[test]
fn display_keywords() {
    assert_eq!(Display::parse(" Block "), Some(Display::Block));
    assert_eq!(Display::parse("inline"), Some(Display::Inline));
    assert_eq!(Display::parse("INLINE-BLOCK"), Some(Display::InlineBlock));
    assert_eq!(Display::parse("flex"), Some(Display::Flex));
    assert_eq!(Display::parse("grid"), Some(Display::Grid));
    assert_eq!(Display::parse("none"), Some(Display::Hidden));
    assert_eq!(Display::parse("contents"), Some(Display::Contents));
    assert_eq!(Display::parse("list-item"), None);
    assert_eq!(Display::from_keyword("Block"), None);
    assert_eq!(Display::default(), Display::Inline);
}

fn number(text: &str, unit: LengthUnit) -> LengthText {
    LengthText::Number { text: text.to_string(), unit }
}

#[test]
fn lengths_as_written() {
    assert_eq!(LengthText::scan(" auto "), LengthText::Auto);
    assert_eq!(LengthText::scan("0"), LengthText::Zero);
    assert_eq!(LengthText::scan("10px"), number("10", LengthUnit::Px));
    assert_eq!(LengthText::scan("1.5em"), number("1.5", LengthUnit::Em));
    assert_eq!(LengthText::scan("2rem"), number("2", LengthUnit::Rem));
    assert_eq!(LengthText::scan("50%"), number("50", LengthUnit::Percent));
    assert_eq!(LengthText::scan("3vw"), number("3", LengthUnit::Vw));
    assert_eq!(LengthText::scan("4vh"), number("4", LengthUnit::Vh));
    assert_eq!(LengthText::scan("12"), number("12", LengthUnit::Px));
    assert_eq!(LengthText::scan("wide"), number("wide", LengthUnit::Px));
    assert_eq!(LengthText::scan("px"), number("", LengthUnit::Px));
}

#[test]
fn property_names() {
    assert_eq!(PropertyId::from_name("display"), PropertyId::Display);
    assert_eq!(PropertyId::from_name("Margin-Top"), PropertyId::MarginTop);
    assert_eq!(PropertyId::from_name("background_color"), PropertyId::BackgroundColor);
    assert_eq!(PropertyId::from_name("z-index"), PropertyId::ZIndex);
    assert_eq!(PropertyId::from_name("box-sizing"), PropertyId::BoxSizing);
    assert_eq!(PropertyId::from_name("border-collapse"), PropertyId::Unknown);
    assert_eq!(PropertyId::from_name(""), PropertyId::Unknown);
    assert_eq!(PropertyId::from_normalized("Display"), PropertyId::Unknown);
    assert_eq!(PropertyId::from_normalized("gap"), PropertyId::Gap);
}

#[test]
fn inherited_properties() {
    assert!(PropertyId::Color.is_inherited());
    assert!(PropertyId::FontSize.is_inherited());
    assert!(PropertyId::Cursor.is_inherited());
    assert!(!PropertyId::Display.is_inherited());
    assert!(!PropertyId::MarginTop.is_inherited());
    assert!(!PropertyId::Unknown.is_inherited());
}

#[test]
fn property_codes_differ() {
    assert_eq!(PropertyId::Display.code(), 0);
    assert_ne!(PropertyId::Color.code(), PropertyId::BackgroundColor.code());
    assert_eq!(PropertyId::Unknown.code(), 71);
}

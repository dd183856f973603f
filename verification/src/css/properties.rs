//! Property identifiers.

use crate::text::{lowercase_of, str_to_lowercase, to_chars, from_chars};
use vstd::prelude::*;

verus! {

/// The properties that the engine knows by name, and `Unknown` for every
/// other name.
#[derive(Debug, Clone, Copy, PartialEq, Eq, Hash, Structural)]
pub enum PropertyId {
    Display,
    Position,
    Float,
    Clear,
    Width,
    Height,
    MinWidth,
    MinHeight,
    MaxWidth,
    MaxHeight,
    Margin,
    MarginTop,
    MarginRight,
    MarginBottom,
    MarginLeft,
    Padding,
    PaddingTop,
    PaddingRight,
    PaddingBottom,
    PaddingLeft,
    BorderWidth,
    BorderTopWidth,
    BorderRightWidth,
    BorderBottomWidth,
    BorderLeftWidth,
    BorderColor,
    BorderTopColor,
    BorderRightColor,
    BorderBottomColor,
    BorderLeftColor,
    BorderStyle,
    BorderRadius,
    Color,
    BackgroundColor,
    Background,
    FontFamily,
    FontSize,
    FontWeight,
    FontStyle,
    LineHeight,
    TextAlign,
    TextDecoration,
    TextTransform,
    LetterSpacing,
    WordSpacing,
    WhiteSpace,
    FlexDirection,
    FlexWrap,
    JustifyContent,
    AlignItems,
    AlignContent,
    FlexGrow,
    FlexShrink,
    FlexBasis,
    GridTemplateColumns,
    GridTemplateRows,
    GridColumn,
    GridRow,
    Gap,
    Top,
    Right,
    Bottom,
    Left,
    ZIndex,
    Overflow,
    OverflowX,
    OverflowY,
    Visibility,
    Opacity,
    Cursor,
    BoxSizing,
    Unknown,
}

/// A text with every `_` replaced by `-`.
pub open spec fn hyphenated(s: Seq<char>) -> Seq<char> {
    Seq::new(
        s.len(),
        |i: int|
            if s[i] == '_' {
                '-'
            } else {
                s[i]
            },
    )
}

/// The form in which a property name is looked up: in lowercase, with `-`
/// for `_`.
pub open spec fn normalized_name(s: Seq<char>) -> Seq<char> {
    hyphenated(lowercase_of(s))
}

/// The property that a normalized name stands for.
pub open spec fn property_named(s: Seq<char>) -> PropertyId {
    if s == "display"@ {
        PropertyId::Display
    } else if s == "position"@ {
        PropertyId::Position
    } else if s == "float"@ {
        PropertyId::Float
    } else if s == "clear"@ {
        PropertyId::Clear
    } else if s == "width"@ {
        PropertyId::Width
    } else if s == "height"@ {
        PropertyId::Height
    } else if s == "min-width"@ {
        PropertyId::MinWidth
    } else if s == "min-height"@ {
        PropertyId::MinHeight
    } else if s == "max-width"@ {
        PropertyId::MaxWidth
    } else if s == "max-height"@ {
        PropertyId::MaxHeight
    } else if s == "margin"@ {
        PropertyId::Margin
    } else if s == "margin-top"@ {
        PropertyId::MarginTop
    } else if s == "margin-right"@ {
        PropertyId::MarginRight
    } else if s == "margin-bottom"@ {
        PropertyId::MarginBottom
    } else if s == "margin-left"@ {
        PropertyId::MarginLeft
    } else if s == "padding"@ {
        PropertyId::Padding
    } else if s == "padding-top"@ {
        PropertyId::PaddingTop
    } else if s == "padding-right"@ {
        PropertyId::PaddingRight
    } else if s == "padding-bottom"@ {
        PropertyId::PaddingBottom
    } else if s == "padding-left"@ {
        PropertyId::PaddingLeft
    } else if s == "border-width"@ {
        PropertyId::BorderWidth
    } else if s == "border-top-width"@ {
        PropertyId::BorderTopWidth
    } else if s == "border-right-width"@ {
        PropertyId::BorderRightWidth
    } else if s == "border-bottom-width"@ {
        PropertyId::BorderBottomWidth
    } else if s == "border-left-width"@ {
        PropertyId::BorderLeftWidth
    } else if s == "border-color"@ {
        PropertyId::BorderColor
    } else if s == "border-top-color"@ {
        PropertyId::BorderTopColor
    } else if s == "border-right-color"@ {
        PropertyId::BorderRightColor
    } else if s == "border-bottom-color"@ {
        PropertyId::BorderBottomColor
    } else if s == "border-left-color"@ {
        PropertyId::BorderLeftColor
    } else if s == "border-style"@ {
        PropertyId::BorderStyle
    } else if s == "border-radius"@ {
        PropertyId::BorderRadius
    } else if s == "color"@ {
        PropertyId::Color
    } else if s == "background-color"@ {
        PropertyId::BackgroundColor
    } else if s == "background"@ {
        PropertyId::Background
    } else if s == "font-family"@ {
        PropertyId::FontFamily
    } else if s == "font-size"@ {
        PropertyId::FontSize
    } else if s == "font-weight"@ {
        PropertyId::FontWeight
    } else if s == "font-style"@ {
        PropertyId::FontStyle
    } else if s == "line-height"@ {
        PropertyId::LineHeight
    } else if s == "text-align"@ {
        PropertyId::TextAlign
    } else if s == "text-decoration"@ {
        PropertyId::TextDecoration
    } else if s == "text-transform"@ {
        PropertyId::TextTransform
    } else if s == "letter-spacing"@ {
        PropertyId::LetterSpacing
    } else if s == "word-spacing"@ {
        PropertyId::WordSpacing
    } else if s == "white-space"@ {
        PropertyId::WhiteSpace
    } else if s == "flex-direction"@ {
        PropertyId::FlexDirection
    } else if s == "flex-wrap"@ {
        PropertyId::FlexWrap
    } else if s == "justify-content"@ {
        PropertyId::JustifyContent
    } else if s == "align-items"@ {
        PropertyId::AlignItems
    } else if s == "align-content"@ {
        PropertyId::AlignContent
    } else if s == "flex-grow"@ {
        PropertyId::FlexGrow
    } else if s == "flex-shrink"@ {
        PropertyId::FlexShrink
    } else if s == "flex-basis"@ {
        PropertyId::FlexBasis
    } else if s == "grid-template-columns"@ {
        PropertyId::GridTemplateColumns
    } else if s == "grid-template-rows"@ {
        PropertyId::GridTemplateRows
    } else if s == "grid-column"@ {
        PropertyId::GridColumn
    } else if s == "grid-row"@ {
        PropertyId::GridRow
    } else if s == "gap"@ {
        PropertyId::Gap
    } else if s == "top"@ {
        PropertyId::Top
    } else if s == "right"@ {
        PropertyId::Right
    } else if s == "bottom"@ {
        PropertyId::Bottom
    } else if s == "left"@ {
        PropertyId::Left
    } else if s == "z-index"@ {
        PropertyId::ZIndex
    } else if s == "overflow"@ {
        PropertyId::Overflow
    } else if s == "overflow-x"@ {
        PropertyId::OverflowX
    } else if s == "overflow-y"@ {
        PropertyId::OverflowY
    } else if s == "visibility"@ {
        PropertyId::Visibility
    } else if s == "opacity"@ {
        PropertyId::Opacity
    } else if s == "cursor"@ {
        PropertyId::Cursor
    } else if s == "box-sizing"@ {
        PropertyId::BoxSizing
    } else {
        PropertyId::Unknown
    }
}

fn is_name(name: &String, literal: &str) -> (r: bool)
    ensures
        r == (name@ == literal@),
{
    let other = literal.to_string();
    *name == other
}

impl PropertyId {
    /// The property whose name is `name`, whatever its case and with `_`
    /// read as `-`; `Unknown` for a name that is not known.
    pub fn from_name(name: &str) -> (r: Self)
        ensures
            r == property_named(normalized_name(name@)),
    {
        let lower = str_to_lowercase(name);
        let chars = to_chars(lower.as_str());
        let mut fixed: Vec<char> = Vec::new();
        let mut i: usize = 0;
        while i < chars.len()
            invariant
                i <= chars.len(),
                fixed@ == hyphenated(chars@).take(i as int),
            decreases chars.len() - i,
        {
            let c = chars[i];
            assert(hyphenated(chars@).take(i + 1) == hyphenated(chars@).take(i as int).push(
                hyphenated(chars@)[i as int],
            ));
            fixed.push(
                if c == '_' {
                    '-'
                } else {
                    c
                },
            );
            i += 1;
        }
        assert(hyphenated(chars@).take(chars.len() as int) == hyphenated(chars@));
        let normalized = from_chars(&fixed);
        Self::from_normalized(normalized.as_str())
    }

    /// The property that the normalized name `name` stands for.
    pub fn from_normalized(name: &str) -> (r: Self)
        ensures
            r == property_named(name@),
    {
        let n = name.to_string();
        if is_name(&n, "display") {
            PropertyId::Display
        } else if is_name(&n, "position") {
            PropertyId::Position
        } else if is_name(&n, "float") {
            PropertyId::Float
        } else if is_name(&n, "clear") {
            PropertyId::Clear
        } else if is_name(&n, "width") {
            PropertyId::Width
        } else if is_name(&n, "height") {
            PropertyId::Height
        } else if is_name(&n, "min-width") {
            PropertyId::MinWidth
        } else if is_name(&n, "min-height") {
            PropertyId::MinHeight
        } else if is_name(&n, "max-width") {
            PropertyId::MaxWidth
        } else if is_name(&n, "max-height") {
            PropertyId::MaxHeight
        } else if is_name(&n, "margin") {
            PropertyId::Margin
        } else if is_name(&n, "margin-top") {
            PropertyId::MarginTop
        } else if is_name(&n, "margin-right") {
            PropertyId::MarginRight
        } else if is_name(&n, "margin-bottom") {
            PropertyId::MarginBottom
        } else if is_name(&n, "margin-left") {
            PropertyId::MarginLeft
        } else if is_name(&n, "padding") {
            PropertyId::Padding
        } else if is_name(&n, "padding-top") {
            PropertyId::PaddingTop
        } else if is_name(&n, "padding-right") {
            PropertyId::PaddingRight
        } else if is_name(&n, "padding-bottom") {
            PropertyId::PaddingBottom
        } else if is_name(&n, "padding-left") {
            PropertyId::PaddingLeft
        } else if is_name(&n, "border-width") {
            PropertyId::BorderWidth
        } else if is_name(&n, "border-top-width") {
            PropertyId::BorderTopWidth
        } else if is_name(&n, "border-right-width") {
            PropertyId::BorderRightWidth
        } else if is_name(&n, "border-bottom-width") {
            PropertyId::BorderBottomWidth
        } else if is_name(&n, "border-left-width") {
            PropertyId::BorderLeftWidth
        } else if is_name(&n, "border-color") {
            PropertyId::BorderColor
        } else if is_name(&n, "border-top-color") {
            PropertyId::BorderTopColor
        } else if is_name(&n, "border-right-color") {
            PropertyId::BorderRightColor
        } else if is_name(&n, "border-bottom-color") {
            PropertyId::BorderBottomColor
        } else if is_name(&n, "border-left-color") {
            PropertyId::BorderLeftColor
        } else if is_name(&n, "border-style") {
            PropertyId::BorderStyle
        } else if is_name(&n, "border-radius") {
            PropertyId::BorderRadius
        } else if is_name(&n, "color") {
            PropertyId::Color
        } else if is_name(&n, "background-color") {
            PropertyId::BackgroundColor
        } else if is_name(&n, "background") {
            PropertyId::Background
        } else if is_name(&n, "font-family") {
            PropertyId::FontFamily
        } else if is_name(&n, "font-size") {
            PropertyId::FontSize
        } else if is_name(&n, "font-weight") {
            PropertyId::FontWeight
        } else if is_name(&n, "font-style") {
            PropertyId::FontStyle
        } else if is_name(&n, "line-height") {
            PropertyId::LineHeight
        } else if is_name(&n, "text-align") {
            PropertyId::TextAlign
        } else if is_name(&n, "text-decoration") {
            PropertyId::TextDecoration
        } else if is_name(&n, "text-transform") {
            PropertyId::TextTransform
        } else if is_name(&n, "letter-spacing") {
            PropertyId::LetterSpacing
        } else if is_name(&n, "word-spacing") {
            PropertyId::WordSpacing
        } else if is_name(&n, "white-space") {
            PropertyId::WhiteSpace
        } else if is_name(&n, "flex-direction") {
            PropertyId::FlexDirection
        } else if is_name(&n, "flex-wrap") {
            PropertyId::FlexWrap
        } else if is_name(&n, "justify-content") {
            PropertyId::JustifyContent
        } else if is_name(&n, "align-items") {
            PropertyId::AlignItems
        } else if is_name(&n, "align-content") {
            PropertyId::AlignContent
        } else if is_name(&n, "flex-grow") {
            PropertyId::FlexGrow
        } else if is_name(&n, "flex-shrink") {
            PropertyId::FlexShrink
        } else if is_name(&n, "flex-basis") {
            PropertyId::FlexBasis
        } else if is_name(&n, "grid-template-columns") {
            PropertyId::GridTemplateColumns
        } else if is_name(&n, "grid-template-rows") {
            PropertyId::GridTemplateRows
        } else if is_name(&n, "grid-column") {
            PropertyId::GridColumn
        } else if is_name(&n, "grid-row") {
            PropertyId::GridRow
        } else if is_name(&n, "gap") {
            PropertyId::Gap
        } else if is_name(&n, "top") {
            PropertyId::Top
        } else if is_name(&n, "right") {
            PropertyId::Right
        } else if is_name(&n, "bottom") {
            PropertyId::Bottom
        } else if is_name(&n, "left") {
            PropertyId::Left
        } else if is_name(&n, "z-index") {
            PropertyId::ZIndex
        } else if is_name(&n, "overflow") {
            PropertyId::Overflow
        } else if is_name(&n, "overflow-x") {
            PropertyId::OverflowX
        } else if is_name(&n, "overflow-y") {
            PropertyId::OverflowY
        } else if is_name(&n, "visibility") {
            PropertyId::Visibility
        } else if is_name(&n, "opacity") {
            PropertyId::Opacity
        } else if is_name(&n, "cursor") {
            PropertyId::Cursor
        } else if is_name(&n, "box-sizing") {
            PropertyId::BoxSizing
        } else {
            PropertyId::Unknown
        }
    }

    /// Whether an element takes this property from its parent where no
    /// declaration sets it.
    pub open spec fn inherited(&self) -> bool {
        matches!(
            self,
            PropertyId::Color
                | PropertyId::FontFamily
                | PropertyId::FontSize
                | PropertyId::FontWeight
                | PropertyId::FontStyle
                | PropertyId::LineHeight
                | PropertyId::TextAlign
                | PropertyId::TextDecoration
                | PropertyId::TextTransform
                | PropertyId::LetterSpacing
                | PropertyId::WordSpacing
                | PropertyId::WhiteSpace
                | PropertyId::Visibility
                | PropertyId::Cursor
        )
    }

    /// Whether the property is inherited by default.
    pub fn is_inherited(&self) -> (r: bool)
        ensures
            r == self.inherited(),
    {
        matches!(
            self,
            PropertyId::Color
                | PropertyId::FontFamily
                | PropertyId::FontSize
                | PropertyId::FontWeight
                | PropertyId::FontStyle
                | PropertyId::LineHeight
                | PropertyId::TextAlign
                | PropertyId::TextDecoration
                | PropertyId::TextTransform
                | PropertyId::LetterSpacing
                | PropertyId::WordSpacing
                | PropertyId::WhiteSpace
                | PropertyId::Visibility
                | PropertyId::Cursor
        )
    }

    /// The number under which the property is filed: its place in the list
    /// of properties, from 0.
    pub open spec fn code_of(&self) -> u8 {
        match self {
            PropertyId::Display => 0,
            PropertyId::Position => 1,
            PropertyId::Float => 2,
            PropertyId::Clear => 3,
            PropertyId::Width => 4,
            PropertyId::Height => 5,
            PropertyId::MinWidth => 6,
            PropertyId::MinHeight => 7,
            PropertyId::MaxWidth => 8,
            PropertyId::MaxHeight => 9,
            PropertyId::Margin => 10,
            PropertyId::MarginTop => 11,
            PropertyId::MarginRight => 12,
            PropertyId::MarginBottom => 13,
            PropertyId::MarginLeft => 14,
            PropertyId::Padding => 15,
            PropertyId::PaddingTop => 16,
            PropertyId::PaddingRight => 17,
            PropertyId::PaddingBottom => 18,
            PropertyId::PaddingLeft => 19,
            PropertyId::BorderWidth => 20,
            PropertyId::BorderTopWidth => 21,
            PropertyId::BorderRightWidth => 22,
            PropertyId::BorderBottomWidth => 23,
            PropertyId::BorderLeftWidth => 24,
            PropertyId::BorderColor => 25,
            PropertyId::BorderTopColor => 26,
            PropertyId::BorderRightColor => 27,
            PropertyId::BorderBottomColor => 28,
            PropertyId::BorderLeftColor => 29,
            PropertyId::BorderStyle => 30,
            PropertyId::BorderRadius => 31,
            PropertyId::Color => 32,
            PropertyId::BackgroundColor => 33,
            PropertyId::Background => 34,
            PropertyId::FontFamily => 35,
            PropertyId::FontSize => 36,
            PropertyId::FontWeight => 37,
            PropertyId::FontStyle => 38,
            PropertyId::LineHeight => 39,
            PropertyId::TextAlign => 40,
            PropertyId::TextDecoration => 41,
            PropertyId::TextTransform => 42,
            PropertyId::LetterSpacing => 43,
            PropertyId::WordSpacing => 44,
            PropertyId::WhiteSpace => 45,
            PropertyId::FlexDirection => 46,
            PropertyId::FlexWrap => 47,
            PropertyId::JustifyContent => 48,
            PropertyId::AlignItems => 49,
            PropertyId::AlignContent => 50,
            PropertyId::FlexGrow => 51,
            PropertyId::FlexShrink => 52,
            PropertyId::FlexBasis => 53,
            PropertyId::GridTemplateColumns => 54,
            PropertyId::GridTemplateRows => 55,
            PropertyId::GridColumn => 56,
            PropertyId::GridRow => 57,
            PropertyId::Gap => 58,
            PropertyId::Top => 59,
            PropertyId::Right => 60,
            PropertyId::Bottom => 61,
            PropertyId::Left => 62,
            PropertyId::ZIndex => 63,
            PropertyId::Overflow => 64,
            PropertyId::OverflowX => 65,
            PropertyId::OverflowY => 66,
            PropertyId::Visibility => 67,
            PropertyId::Opacity => 68,
            PropertyId::Cursor => 69,
            PropertyId::BoxSizing => 70,
            PropertyId::Unknown => 71,
        }
    }

    /// The number under which the property is filed.
    pub fn code(&self) -> (r: u8)
        ensures
            r == self.code_of(),
    {
        match self {
            PropertyId::Display => 0,
            PropertyId::Position => 1,
            PropertyId::Float => 2,
            PropertyId::Clear => 3,
            PropertyId::Width => 4,
            PropertyId::Height => 5,
            PropertyId::MinWidth => 6,
            PropertyId::MinHeight => 7,
            PropertyId::MaxWidth => 8,
            PropertyId::MaxHeight => 9,
            PropertyId::Margin => 10,
            PropertyId::MarginTop => 11,
            PropertyId::MarginRight => 12,
            PropertyId::MarginBottom => 13,
            PropertyId::MarginLeft => 14,
            PropertyId::Padding => 15,
            PropertyId::PaddingTop => 16,
            PropertyId::PaddingRight => 17,
            PropertyId::PaddingBottom => 18,
            PropertyId::PaddingLeft => 19,
            PropertyId::BorderWidth => 20,
            PropertyId::BorderTopWidth => 21,
            PropertyId::BorderRightWidth => 22,
            PropertyId::BorderBottomWidth => 23,
            PropertyId::BorderLeftWidth => 24,
            PropertyId::BorderColor => 25,
            PropertyId::BorderTopColor => 26,
            PropertyId::BorderRightColor => 27,
            PropertyId::BorderBottomColor => 28,
            PropertyId::BorderLeftColor => 29,
            PropertyId::BorderStyle => 30,
            PropertyId::BorderRadius => 31,
            PropertyId::Color => 32,
            PropertyId::BackgroundColor => 33,
            PropertyId::Background => 34,
            PropertyId::FontFamily => 35,
            PropertyId::FontSize => 36,
            PropertyId::FontWeight => 37,
            PropertyId::FontStyle => 38,
            PropertyId::LineHeight => 39,
            PropertyId::TextAlign => 40,
            PropertyId::TextDecoration => 41,
            PropertyId::TextTransform => 42,
            PropertyId::LetterSpacing => 43,
            PropertyId::WordSpacing => 44,
            PropertyId::WhiteSpace => 45,
            PropertyId::FlexDirection => 46,
            PropertyId::FlexWrap => 47,
            PropertyId::JustifyContent => 48,
            PropertyId::AlignItems => 49,
            PropertyId::AlignContent => 50,
            PropertyId::FlexGrow => 51,
            PropertyId::FlexShrink => 52,
            PropertyId::FlexBasis => 53,
            PropertyId::GridTemplateColumns => 54,
            PropertyId::GridTemplateRows => 55,
            PropertyId::GridColumn => 56,
            PropertyId::GridRow => 57,
            PropertyId::Gap => 58,
            PropertyId::Top => 59,
            PropertyId::Right => 60,
            PropertyId::Bottom => 61,
            PropertyId::Left => 62,
            PropertyId::ZIndex => 63,
            PropertyId::Overflow => 64,
            PropertyId::OverflowX => 65,
            PropertyId::OverflowY => 66,
            PropertyId::Visibility => 67,
            PropertyId::Opacity => 68,
            PropertyId::Cursor => 69,
            PropertyId::BoxSizing => 70,
            PropertyId::Unknown => 71,
        }
    }
}

/// No two properties are filed under one number.
pub proof fn lemma_code_injective(p: PropertyId, q: PropertyId)
    requires
        p.code_of() == q.code_of(),
    ensures
        p == q,
{
}

} // verus!

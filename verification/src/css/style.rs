//! Rules, declarations and the computed style of a node.

use crate::css::properties::{lemma_code_injective, PropertyId};
use crate::css::selector::{Selector, Specificity};
use crate::css::values::{
    color_named, color_of_hex, display_named, length_of, Color, Display, LengthModel, LengthText,
};
use crate::text::{lowercase_of, trimmed};
use fnv::FnvHashMap;
use vstd::prelude::*;

verus! {

/// One declaration of a rule: a property, its value as written, and whether
/// it is marked important.
#[derive(Debug)]
pub struct StyleDeclaration {
    pub property: PropertyId,
    pub value: String,
    pub important: bool,
}

/// A declaration as plain values.
pub struct DeclarationModel {
    pub property: PropertyId,
    pub value: Seq<char>,
    pub important: bool,
}

impl View for StyleDeclaration {
    type V = DeclarationModel;

    open spec fn view(&self) -> DeclarationModel {
        DeclarationModel { property: self.property, value: self.value@, important: self.important }
    }
}

impl Clone for StyleDeclaration {
    fn clone(&self) -> (r: Self)
        ensures
            r@ == self@,
    {
        StyleDeclaration {
            property: self.property,
            value: self.value.clone(),
            important: self.important,
        }
    }
}

/// A rule: the selectors that share one block of declarations.
#[derive(Debug, Clone)]
pub struct StyleRule {
    pub selectors: Vec<Selector>,
    pub declarations: Vec<StyleDeclaration>,
}

impl StyleRule {
    pub fn new(selectors: Vec<Selector>, declarations: Vec<StyleDeclaration>) -> (r: Self)
        ensures
            r.selectors == selectors,
            r.declarations == declarations,
    {
        StyleRule { selectors, declarations }
    }
}

/// The value of a property together with what it won the cascade by.
#[derive(Debug)]
pub struct StyleProperty {
    pub value: String,
    pub specificity: Specificity,
    pub important: bool,
}

/// A property value as plain values.
pub struct PropertyModel {
    pub value: Seq<char>,
    pub specificity: Specificity,
    pub important: bool,
}

impl View for StyleProperty {
    type V = PropertyModel;

    open spec fn view(&self) -> PropertyModel {
        PropertyModel {
            value: self.value@,
            specificity: self.specificity,
            important: self.important,
        }
    }
}

/// Whether a declaration applied now replaces the stored one: it does if it
/// alone is important; it does not if the stored one alone is; otherwise it
/// does if its specificity is at least the stored one's, so that of two
/// equals the later wins.
pub open spec fn overrides(new: PropertyModel, stored: PropertyModel) -> bool {
    if new.important != stored.important {
        new.important
    } else {
        new.specificity.at_least(stored.specificity)
    }
}

impl StyleProperty {
    pub fn new(value: String, specificity: Specificity, important: bool) -> (r: Self)
        ensures
            r@ == (PropertyModel { value: value@, specificity, important }),
    {
        StyleProperty { value, specificity, important }
    }

    /// Whether this value, applied now, replaces `other`.
    pub fn should_override(&self, other: &StyleProperty) -> (r: bool)
        ensures
            r == overrides(self@, other@),
    {
        if self.important != other.important {
            return self.important;
        }
        self.specificity.ge(&other.specificity)
    }
}

impl Clone for StyleProperty {
    fn clone(&self) -> (r: Self)
        ensures
            r@ == self@,
    {
        StyleProperty {
            value: self.value.clone(),
            specificity: self.specificity,
            important: self.important,
        }
    }
}

/// A table from property numbers to values with a fast hash for small keys.
#[verifier::external_body]
#[derive(Debug)]
pub struct StyleTable {
    inner: FnvHashMap<u8, StyleProperty>,
}

/// The value that a table holds for each property number that it holds.
pub uninterp spec fn style_table_entries(table: StyleTable) -> Map<u8, PropertyModel>;

/// The table that holds nothing.
pub open spec fn no_entries() -> Map<u8, PropertyModel> {
    Map::empty()
}

/// `FnvHashMap::default`: an empty map.
#[verifier::external_body]
fn table_new() -> (table: StyleTable)
    ensures
        style_table_entries(table) == no_entries(),
{
    StyleTable { inner: FnvHashMap::default() }
}

/// `HashMap::get`: the value stored under the key, if the key is there.
#[verifier::external_body]
fn table_get(table: &StyleTable, key: u8) -> (value: Option<&StyleProperty>)
    ensures
        value is Some <==> style_table_entries(*table).contains_key(key),
        value is Some ==> value->0@ == style_table_entries(*table)[key],
{
    table.inner.get(&key)
}

/// `HashMap::insert`: the key is bound to the value, in place of any value
/// it had; all other keys stay as they are.
#[verifier::external_body]
fn table_insert(table: &mut StyleTable, key: u8, value: StyleProperty)
    ensures
        style_table_entries(*final(table)) == style_table_entries(*old(table)).insert(key, value@),
{
    table.inner.insert(key, value);
}

/// `HashMap::clone`: a map with the same keys and values.
#[verifier::external_body]
fn table_clone(table: &StyleTable) -> (copy: StyleTable)
    ensures
        style_table_entries(copy) == style_table_entries(*table),
{
    StyleTable { inner: table.inner.clone() }
}

/// The computed style of a node: for each property that some declaration
/// set, the value that won.
#[derive(Debug)]
pub struct ComputedStyle {
    properties: StyleTable,
}

/// A computed style as a map from properties to the values they have.
pub type StyleModel = Map<PropertyId, PropertyModel>;

/// The style that a table of entries by property number stands for.
pub open spec fn style_of_entries(entries: Map<u8, PropertyModel>) -> StyleModel {
    Map::new(|p: PropertyId| entries.contains_key(p.code_of()), |p: PropertyId| entries[p.code_of()])
}

impl View for ComputedStyle {
    type V = StyleModel;

    closed spec fn view(&self) -> StyleModel {
        style_of_entries(style_table_entries(self.properties))
    }
}

/// The style once a declaration for `property` is applied to it: the new
/// value is stored unless a stored one holds against it.
pub open spec fn applied(style: StyleModel, property: PropertyId, value: PropertyModel) -> StyleModel {
    if style.contains_key(property) && !overrides(value, style[property]) {
        style
    } else {
        style.insert(property, value)
    }
}

/// The style once it has taken from `parent` every inherited property that
/// it does not set itself and the parent has.
pub open spec fn inherited(style: StyleModel, parent: StyleModel) -> StyleModel {
    Map::new(
        |p: PropertyId| style.contains_key(p) || (p.inherited() && parent.contains_key(p)),
        |p: PropertyId|
            if style.contains_key(p) {
                style[p]
            } else {
                parent[p]
            },
    )
}

/// The style once it has taken from `parent` those of the properties
/// `which` that it does not set itself and the parent has.
pub open spec fn inherited_among(style: StyleModel, parent: StyleModel, which: Seq<PropertyId>) -> StyleModel {
    Map::new(
        |p: PropertyId| style.contains_key(p) || (which.contains(p) && parent.contains_key(p)),
        |p: PropertyId|
            if style.contains_key(p) {
                style[p]
            } else {
                parent[p]
            },
    )
}

/// The inherited properties.
fn inherited_properties() -> (list: Vec<PropertyId>)
    ensures
        forall|p: PropertyId| list@.contains(p) <==> p.inherited(),
{
    let list = vec![
            PropertyId::Color,
            PropertyId::FontFamily,
            PropertyId::FontSize,
            PropertyId::FontWeight,
            PropertyId::FontStyle,
            PropertyId::LineHeight,
            PropertyId::TextAlign,
            PropertyId::TextDecoration,
            PropertyId::TextTransform,
            PropertyId::LetterSpacing,
            PropertyId::WordSpacing,
            PropertyId::WhiteSpace,
            PropertyId::Visibility,
            PropertyId::Cursor,
    ];
    proof {
        assert forall|p: PropertyId| p.inherited() implies list@.contains(p) by {
            let k = choose|k: int| 0 <= k < 14 && list@[k] == p;
            assert(list@[k] == p);
        }
    }
    list
}

/// The value of `display` where no declaration sets it.
pub open spec fn default_display(is_block_element: bool) -> PropertyModel {
    PropertyModel {
        value: if is_block_element {
            "block"@
        } else {
            "inline"@
        },
        specificity: Specificity(0, 0, 0, 0),
        important: false,
    }
}

/// The style with `display` filled in where it is missing.
pub open spec fn with_defaults(style: StyleModel, is_block_element: bool) -> StyleModel {
    if style.contains_key(PropertyId::Display) {
        style
    } else {
        style.insert(PropertyId::Display, default_display(is_block_element))
    }
}

/// The value as written of `property`, if the style has it.
pub open spec fn value_of(style: StyleModel, property: PropertyId) -> Option<Seq<char>> {
    if style.contains_key(property) {
        Some(style[property].value)
    } else {
        None
    }
}

/// The display of a style: what its `display` value names, and inline where
/// it names nothing or is missing.
pub open spec fn display_of(style: StyleModel) -> Display {
    match value_of(style, PropertyId::Display) {
        Some(v) => match display_named(lowercase_of(trimmed(v))) {
            Some(d) => d,
            None => Display::Inline,
        },
        None => Display::Inline,
    }
}

/// The color that a value stands for: a color name, else a hexadecimal
/// notation.
pub open spec fn color_of(v: Seq<char>) -> Option<Color> {
    match color_named(lowercase_of(v)) {
        Some(c) => Some(c),
        None => color_of_hex(v),
    }
}

/// The color of `property` in a style, `fallback` where the property is
/// missing or its value stands for no color.
pub open spec fn color_or(style: StyleModel, property: PropertyId, fallback: Color) -> Color {
    match value_of(style, property) {
        Some(v) => match color_of(v) {
            Some(c) => c,
            None => fallback,
        },
        None => fallback,
    }
}

/// The length as written of `property` in a style.
pub open spec fn length_in(style: StyleModel, property: PropertyId) -> Option<LengthModel> {
    match value_of(style, property) {
        Some(v) => Some(length_of(v)),
        None => None,
    }
}

/// The length as written of `property`, a bare zero where it is missing.
pub open spec fn length_or_zero(style: StyleModel, property: PropertyId) -> LengthModel {
    match length_in(style, property) {
        Some(l) => l,
        None => LengthModel::Zero,
    }
}

/// The view of an optional length.
pub open spec fn optional_length(l: Option<LengthText>) -> Option<LengthModel> {
    match l {
        Some(x) => Some(x@),
        None => None,
    }
}

proof fn lemma_insert_entry(entries: Map<u8, PropertyModel>, p: PropertyId, v: PropertyModel)
    ensures
        style_of_entries(entries.insert(p.code_of(), v)) == style_of_entries(entries).insert(p, v),
{
    assert forall|q: PropertyId| q.code_of() == p.code_of() implies q == p by {
        lemma_code_injective(q, p);
    }
    assert(style_of_entries(entries.insert(p.code_of(), v)) =~= style_of_entries(entries).insert(
        p,
        v,
    ));
}

impl ComputedStyle {
    /// A style in which no property is set.
    pub fn new() -> (r: Self)
        ensures
            r@ == Map::<PropertyId, PropertyModel>::empty(),
    {
        let r = ComputedStyle { properties: table_new() };
        assert(r@ =~= Map::<PropertyId, PropertyModel>::empty());
        r
    }

    /// Applies a declaration: the value is stored unless a stored one holds
    /// against it.
    pub fn set(&mut self, property: PropertyId, value: StyleProperty)
        ensures
            final(self)@ == applied(old(self)@, property, value@),
    {
        let replace = match table_get(&self.properties, property.code()) {
            Some(existing) => value.should_override(existing),
            None => true,
        };
        if replace {
            proof {
                lemma_insert_entry(style_table_entries(self.properties), property, value@);
            }
            table_insert(&mut self.properties, property.code(), value);
        }
    }

    /// The value as written of `property`, if it is set.
    pub fn get(&self, property: PropertyId) -> (r: Option<&str>)
        ensures
            r is Some <==> self@.contains_key(property),
            r is Some ==> r->0@ == self@[property].value,
    {
        match table_get(&self.properties, property.code()) {
            Some(p) => Some(p.value.as_str()),
            None => None,
        }
    }

    /// The stored value of `property` with what it won by, if it is set.
    pub fn get_property(&self, property: PropertyId) -> (r: Option<&StyleProperty>)
        ensures
            r is Some <==> self@.contains_key(property),
            r is Some ==> r->0@ == self@[property],
    {
        table_get(&self.properties, property.code())
    }

    /// The display.
    pub fn display(&self) -> (r: Display)
        ensures
            r == display_of(self@),
    {
        match self.get(PropertyId::Display) {
            Some(v) => match Display::parse(v) {
                Some(d) => d,
                None => Display::Inline,
            },
            None => Display::Inline,
        }
    }

    fn color_value(&self, property: PropertyId, fallback: Color) -> (r: Color)
        ensures
            r == color_or(self@, property, fallback),
    {
        match self.get(property) {
            Some(v) => match Color::from_name(v) {
                Some(c) => c,
                None => match Color::from_hex(v) {
                    Some(c) => c,
                    None => fallback,
                },
            },
            None => fallback,
        }
    }

    /// The text color, black where none is set or readable.
    pub fn color(&self) -> (r: Color)
        ensures
            r == color_or(self@, PropertyId::Color, Color { r: 0, g: 0, b: 0, a: 255 }),
    {
        self.color_value(PropertyId::Color, Color::black())
    }

    /// The background color, transparent where none is set or readable.
    pub fn background_color(&self) -> (r: Color)
        ensures
            r == color_or(self@, PropertyId::BackgroundColor, Color { r: 0, g: 0, b: 0, a: 0 }),
    {
        self.color_value(PropertyId::BackgroundColor, Color::transparent())
    }

    /// The length as written of `property`, if it is set.
    pub fn length(&self, property: PropertyId) -> (r: Option<LengthText>)
        ensures
            optional_length(r) == length_in(self@, property),
    {
        match self.get(property) {
            Some(v) => Some(LengthText::scan(v)),
            None => None,
        }
    }

    fn length_or_zero(&self, property: PropertyId) -> (r: LengthText)
        ensures
            r@ == length_or_zero(self@, property),
    {
        match self.length(property) {
            Some(l) => l,
            None => LengthText::Zero,
        }
    }

    /// The width as written, if it is set.
    pub fn width(&self) -> (r: Option<LengthText>)
        ensures
            optional_length(r) == length_in(self@, PropertyId::Width),
    {
        self.length(PropertyId::Width)
    }

    /// The height as written, if it is set.
    pub fn height(&self) -> (r: Option<LengthText>)
        ensures
            optional_length(r) == length_in(self@, PropertyId::Height),
    {
        self.length(PropertyId::Height)
    }

    /// The margins as written: top, right, bottom, left; a bare zero for
    /// one that is not set.
    pub fn margin(&self) -> (r: (LengthText, LengthText, LengthText, LengthText))
        ensures
            r.0@ == length_or_zero(self@, PropertyId::MarginTop),
            r.1@ == length_or_zero(self@, PropertyId::MarginRight),
            r.2@ == length_or_zero(self@, PropertyId::MarginBottom),
            r.3@ == length_or_zero(self@, PropertyId::MarginLeft),
    {
        (
            self.length_or_zero(PropertyId::MarginTop),
            self.length_or_zero(PropertyId::MarginRight),
            self.length_or_zero(PropertyId::MarginBottom),
            self.length_or_zero(PropertyId::MarginLeft),
        )
    }

    /// The paddings as written: top, right, bottom, left; a bare zero for
    /// one that is not set.
    pub fn padding(&self) -> (r: (LengthText, LengthText, LengthText, LengthText))
        ensures
            r.0@ == length_or_zero(self@, PropertyId::PaddingTop),
            r.1@ == length_or_zero(self@, PropertyId::PaddingRight),
            r.2@ == length_or_zero(self@, PropertyId::PaddingBottom),
            r.3@ == length_or_zero(self@, PropertyId::PaddingLeft),
    {
        (
            self.length_or_zero(PropertyId::PaddingTop),
            self.length_or_zero(PropertyId::PaddingRight),
            self.length_or_zero(PropertyId::PaddingBottom),
            self.length_or_zero(PropertyId::PaddingLeft),
        )
    }

    fn inherit_one(&mut self, parent: &ComputedStyle, property: PropertyId)
        ensures
            final(self)@ == if !old(self)@.contains_key(property) && parent@.contains_key(property) {
                old(self)@.insert(property, parent@[property])
            } else {
                old(self)@
            },
    {
        if table_get(&self.properties, property.code()).is_none() {
            match table_get(&parent.properties, property.code()) {
                Some(value) => {
                    let copy = value.clone();
                    proof {
                        lemma_insert_entry(style_table_entries(self.properties), property, copy@);
                    }
                    table_insert(&mut self.properties, property.code(), copy);
                },
                None => {},
            }
        }
    }

    /// Takes from `parent` every inherited property that this style does
    /// not set itself.
    pub fn inherit_from(&mut self, parent: &ComputedStyle)
        ensures
            final(self)@ == inherited(old(self)@, parent@),
    {
        let list = inherited_properties();
        let mut i: usize = 0;
        assert(list@.take(0) =~= Seq::<PropertyId>::empty());
        assert(self@ =~= inherited_among(old(self)@, parent@, list@.take(0)));
        while i < list.len()
            invariant
                i <= list.len(),
                self@ == inherited_among(old(self)@, parent@, list@.take(i as int)),
            decreases list.len() - i,
        {
            let ghost before = list@.take(i as int);
            let ghost after = list@.take(i + 1);
            assert(after =~= before.push(list@[i as int]));
            self.inherit_one(parent, list[i]);
            assert(self@ =~= inherited_among(old(self)@, parent@, after)) by {
                assert forall|p: PropertyId| after.contains(p) <==> (before.contains(p) || p
                    == list@[i as int]) by {
                    if before.contains(p) {
                        let k = choose|k: int| 0 <= k < before.len() && before[k] == p;
                        assert(after[k] == p);
                    }
                    if p == list@[i as int] {
                        assert(after[i as int] == p);
                    }
                }
            }
            i += 1;
        }
        assert(list@.take(list.len() as int) =~= list@);
        assert(self@ =~= inherited(old(self)@, parent@));
    }

    /// Fills in `display` where it is missing: `block` for an element that
    /// is a block by its tag name, `inline` for any other.
    pub fn apply_defaults(&mut self, is_block_element: bool)
        ensures
            final(self)@ == with_defaults(old(self)@, is_block_element),
    {
        if self.get(PropertyId::Display).is_none() {
            let display = if is_block_element {
                "block"
            } else {
                "inline"
            };
            self.set(
                PropertyId::Display,
                StyleProperty::new(display.to_string(), Specificity::default(), false),
            );
        }
    }
}

impl Clone for ComputedStyle {
    fn clone(&self) -> (r: Self)
        ensures
            r@ == self@,
    {
        ComputedStyle { properties: table_clone(&self.properties) }
    }
}

impl Default for ComputedStyle {
    fn default() -> (r: Self)
        ensures
            r@ == Map::<PropertyId, PropertyModel>::empty(),
    {
        ComputedStyle::new()
    }
}

/// An important declaration replaces one that is not, and is not replaced by
/// one, whatever their specificities.
pub proof fn lemma_important_wins(new: PropertyModel, stored: PropertyModel)
    requires
        new.important != stored.important,
    ensures
        overrides(new, stored) == new.important,
        overrides(stored, new) == stored.important,
{
}

/// Of two declarations that are both important, or both not, the one with
/// the higher specificity replaces the other and is not replaced by it; with
/// equal specificities each replaces the other, so the one applied later
/// stays.
pub proof fn lemma_specificity_then_order(new: PropertyModel, stored: PropertyModel)
    requires
        new.important == stored.important,
    ensures
        overrides(new, stored) == new.specificity.at_least(stored.specificity),
        new.specificity != stored.specificity ==> overrides(new, stored) != overrides(stored, new),
        new.specificity == stored.specificity ==> overrides(new, stored) && overrides(stored, new),
{
}

/// Being at least as strong is a total preorder on declarations: each is as
/// strong as itself, of any two one is as strong as the other, and strength
/// carries over a chain.
pub proof fn lemma_overrides_is_total_preorder(a: PropertyModel, b: PropertyModel, c: PropertyModel)
    ensures
        overrides(a, a),
        overrides(a, b) || overrides(b, a),
        overrides(a, b) && overrides(b, c) ==> overrides(a, c),
{
}

/// After two declarations for one property are applied to a style that
/// lacks it, the style holds the second if it replaces the first, and the
/// first otherwise.
pub proof fn lemma_winner_of_two(
    style: StyleModel,
    property: PropertyId,
    first: PropertyModel,
    second: PropertyModel,
)
    requires
        !style.contains_key(property),
    ensures
        applied(applied(style, property, first), property, second)[property] == if overrides(
            second,
            first,
        ) {
            second
        } else {
            first
        },
        applied(applied(style, property, first), property, second).contains_key(property),
{
}

} // verus!

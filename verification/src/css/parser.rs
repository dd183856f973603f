//! The stylesheet parser: rules, declarations and shorthand properties.

use crate::css::properties::{normalized_name, property_named, PropertyId};
use crate::css::selector::{selector_of, Selector, SelectorModel};
use crate::css::style::{DeclarationModel, StyleDeclaration, StyleRule};
use crate::css::values::{is_color_word, Color};
use crate::text::{
    find_from, from_chars, has_prefix, lowercase_of, scan_to, split, split_on, starts_with, subvec,
    to_chars, trim, trimmed, views, words, words_of,
};
use vstd::prelude::*;

verus! {

/// A rule as plain values.
pub struct RuleModel {
    pub selectors: Seq<SelectorModel>,
    pub declarations: Seq<DeclarationModel>,
}

/// The models of a list of selectors.
pub open spec fn selector_models(list: Seq<Selector>) -> Seq<SelectorModel> {
    list.map_values(|s: Selector| s@)
}

/// The models of a list of declarations.
pub open spec fn declaration_models(list: Seq<StyleDeclaration>) -> Seq<DeclarationModel> {
    list.map_values(|d: StyleDeclaration| d@)
}

impl View for StyleRule {
    type V = RuleModel;

    open spec fn view(&self) -> RuleModel {
        RuleModel {
            selectors: selector_models(self.selectors@),
            declarations: declaration_models(self.declarations@),
        }
    }
}

/// The models of a list of rules.
pub open spec fn rule_models(list: Seq<StyleRule>) -> Seq<RuleModel> {
    list.map_values(|r: StyleRule| r@)
}

/// The models of a list of properties with their values.
pub open spec fn pair_models(list: Seq<(PropertyId, String)>) -> Seq<(PropertyId, Seq<char>)> {
    list.map_values(|p: (PropertyId, String)| (p.0, p.1@))
}

/// The values for top, right, bottom and left that one to four values
/// stand for: one value is for all sides; of two, the first is for top and
/// bottom and the second for right and left; of three, the first is for
/// top, the second for right and left, the third for bottom; four are top,
/// right, bottom, left. Any other number of values stands for nothing.
pub open spec fn four_sides(v: Seq<Seq<char>>) -> Option<(Seq<char>, Seq<char>, Seq<char>, Seq<char>)> {
    if v.len() == 1 {
        Some((v[0], v[0], v[0], v[0]))
    } else if v.len() == 2 {
        Some((v[0], v[1], v[0], v[1]))
    } else if v.len() == 3 {
        Some((v[0], v[1], v[2], v[1]))
    } else if v.len() == 4 {
        Some((v[0], v[1], v[2], v[3]))
    } else {
        None
    }
}

/// Whether the value of a `background` looks like a color: it starts with
/// `#` or `rgb`, or is a color name.
pub open spec fn looks_like_color(value: Seq<char>) -> bool {
    (value.len() > 0 && value[0] == '#') || has_prefix(value, "rgb"@) || is_color_word(
        lowercase_of(value),
    )
}

/// The declarations that one declaration stands for. `margin` and `padding`
/// with one to four values, split at white space, stand for their four
/// sides: top, right, bottom, left. `background` with a value that looks
/// like a color stands for `background-color`. Anything else stands for
/// itself.
pub open spec fn expansion(property: PropertyId, value: Seq<char>) -> Seq<(PropertyId, Seq<char>)> {
    match property {
        PropertyId::Margin => match four_sides(words_of(value)) {
            Some(s) => seq![
                (PropertyId::MarginTop, s.0),
                (PropertyId::MarginRight, s.1),
                (PropertyId::MarginBottom, s.2),
                (PropertyId::MarginLeft, s.3),
            ],
            None => seq![(property, value)],
        },
        PropertyId::Padding => match four_sides(words_of(value)) {
            Some(s) => seq![
                (PropertyId::PaddingTop, s.0),
                (PropertyId::PaddingRight, s.1),
                (PropertyId::PaddingBottom, s.2),
                (PropertyId::PaddingLeft, s.3),
            ],
            None => seq![(property, value)],
        },
        PropertyId::Background => if looks_like_color(value) {
            seq![(PropertyId::BackgroundColor, value)]
        } else {
            seq![(property, value)]
        },
        _ => seq![(property, value)],
    }
}

/// The values for the four sides that the words stand for.
fn sides(list: &Vec<Vec<char>>) -> (r: Option<(String, String, String, String)>)
    ensures
        match r {
            Some(s) => four_sides(views(list@)) == Some((s.0@, s.1@, s.2@, s.3@)),
            None => four_sides(views(list@)) is None,
        },
{
    let n = list.len();
    if n == 1 {
        Some((from_chars(&list[0]), from_chars(&list[0]), from_chars(&list[0]), from_chars(&list[0])))
    } else if n == 2 {
        Some((from_chars(&list[0]), from_chars(&list[1]), from_chars(&list[0]), from_chars(&list[1])))
    } else if n == 3 {
        Some((from_chars(&list[0]), from_chars(&list[1]), from_chars(&list[2]), from_chars(&list[1])))
    } else if n == 4 {
        Some((from_chars(&list[0]), from_chars(&list[1]), from_chars(&list[2]), from_chars(&list[3])))
    } else {
        None
    }
}

fn one(property: PropertyId, value: &str) -> (r: Vec<(PropertyId, String)>)
    ensures
        pair_models(r@) == seq![(property, value@)],
{
    let r = vec![(property, value.to_string())];
    assert(pair_models(r@) =~= seq![(property, value@)]);
    r
}

fn four(
    top: PropertyId,
    right: PropertyId,
    bottom: PropertyId,
    left: PropertyId,
    s: (String, String, String, String),
) -> (r: Vec<(PropertyId, String)>)
    ensures
        pair_models(r@) == seq![(top, s.0@), (right, s.1@), (bottom, s.2@), (left, s.3@)],
{
    let r = vec![(top, s.0), (right, s.1), (bottom, s.2), (left, s.3)];
    assert(pair_models(r@) =~= seq![(top, s.0@), (right, s.1@), (bottom, s.2@), (left, s.3@)]);
    r
}

/// The declarations that a shorthand declaration stands for.
pub fn expand_shorthand(property: PropertyId, value: &str) -> (r: Vec<(PropertyId, String)>)
    ensures
        pair_models(r@) == expansion(property, value@),
{
    match property {
        PropertyId::Margin => {
            match sides(&words(&to_chars(value))) {
                Some(s) => four(
                    PropertyId::MarginTop,
                    PropertyId::MarginRight,
                    PropertyId::MarginBottom,
                    PropertyId::MarginLeft,
                    s,
                ),
                None => one(property, value),
            }
        },
        PropertyId::Padding => {
            match sides(&words(&to_chars(value))) {
                Some(s) => four(
                    PropertyId::PaddingTop,
                    PropertyId::PaddingRight,
                    PropertyId::PaddingBottom,
                    PropertyId::PaddingLeft,
                    s,
                ),
                None => one(property, value),
            }
        },
        PropertyId::Background => {
            let v = to_chars(value);
            let rgb = to_chars("rgb");
            if (v.len() > 0 && v[0] == '#') || starts_with(&v, &rgb) || Color::from_name_exists(
                value,
            ) {
                one(PropertyId::BackgroundColor, value)
            } else {
                one(property, value)
            }
        },
        _ => one(property, value),
    }
}

/// Whether `c` is the character at place `i` of `!important`, in either
/// case.
pub open spec fn important_char(c: char, i: int) -> bool {
    c == "!important"@[i] || c == "!IMPORTANT"@[i]
}

/// Whether a value ends in `!important`, whatever the case of its letters.
pub open spec fn ends_important(v: Seq<char>) -> bool {
    v.len() >= 10 && forall|i: int| 0 <= i < 10 ==> important_char(#[trigger] v[v.len() - 10 + i], i)
}

/// The declarations that the text between two semicolons stands for: none
/// for a text without a colon. The property's name stands before the first
/// colon and the value behind it, each without the white space around it.
/// A value that ends in `!important` is important and goes without it.
pub open spec fn declarations_of_piece(piece: Seq<char>) -> Seq<DeclarationModel> {
    let d = trimmed(piece);
    let colon = scan_to(d, ':', 0);
    if colon >= d.len() {
        Seq::empty()
    } else {
        let name = trimmed(d.subrange(0, colon));
        let raw = trimmed(d.subrange(colon + 1, d.len() as int));
        let important = ends_important(raw);
        let value = if important {
            trimmed(raw.subrange(0, raw.len() - 10))
        } else {
            raw
        };
        expansion(property_named(normalized_name(name)), value).map_values(
            |e: (PropertyId, Seq<char>)|
                DeclarationModel { property: e.0, value: e.1, important },
        )
    }
}

/// The declarations of pieces of text, in order.
pub open spec fn declarations_among(pieces: Seq<Seq<char>>) -> Seq<DeclarationModel>
    decreases pieces.len(),
{
    if pieces.len() == 0 {
        Seq::empty()
    } else {
        declarations_among(pieces.drop_last()) + declarations_of_piece(pieces.last())
    }
}

/// The declarations of a block: those of its pieces between semicolons.
pub open spec fn declarations_of(content: Seq<char>) -> Seq<DeclarationModel> {
    declarations_among(split_on(content, ';'))
}

fn is_important(v: &Vec<char>) -> (r: bool)
    ensures
        r == ends_important(v@),
{
    if v.len() < 10 {
        return false;
    }
    let lower = to_chars("!important");
    let upper = to_chars("!IMPORTANT");
    proof {
        reveal_strlit("!important");
        reveal_strlit("!IMPORTANT");
    }
    let base = v.len() - 10;
    let mut i: usize = 0;
    while i < 10
        invariant
            i <= 10,
            base == v.len() - 10,
            lower@ == "!important"@,
            upper@ == "!IMPORTANT"@,
            lower.len() == 10,
            upper.len() == 10,
            forall|k: int| 0 <= k < i ==> important_char(#[trigger] v@[base + k], k),
        decreases 10 - i,
    {
        let c = v[base + i];
        if c != lower[i] && c != upper[i] {
            assert(!important_char(v@[v@.len() - 10 + i], i as int));
            return false;
        }
        i += 1;
    }
    true
}

fn piece_declarations(piece: &Vec<char>, out: &mut Vec<StyleDeclaration>)
    ensures
        declaration_models(final(out)@) == declaration_models(old(out)@) + declarations_of_piece(
            piece@,
        ),
{
    let d = trim(piece);
    let colon = find_from(&d, ':', 0);
    if colon >= d.len() {
        assert(declaration_models(out@) + Seq::<DeclarationModel>::empty() =~= declaration_models(
            out@,
        ));
        return ;
    }
    let name = from_chars(&trim(&subvec(&d, 0, colon)));
    let raw = trim(&subvec(&d, colon + 1, d.len()));
    let important = is_important(&raw);
    let value = if important {
        from_chars(&trim(&subvec(&raw, 0, raw.len() - 10)))
    } else {
        from_chars(&raw)
    };
    let property = PropertyId::from_name(name.as_str());
    let expanded = expand_shorthand(property, value.as_str());
    let ghost start = declaration_models(out@);
    let ghost target = expansion(property, value@).map_values(
        |e: (PropertyId, Seq<char>)| DeclarationModel { property: e.0, value: e.1, important },
    );
    let mut k: usize = 0;
    assert(start + target.take(0) =~= start);
    while k < expanded.len()
        invariant
            k <= expanded.len(),
            pair_models(expanded@) == expansion(property, value@),
            target == expansion(property, value@).map_values(
                |e: (PropertyId, Seq<char>)|
                    DeclarationModel { property: e.0, value: e.1, important },
            ),
            declaration_models(out@) == start + target.take(k as int),
        decreases expanded.len() - k,
    {
        let decl = StyleDeclaration {
            property: expanded[k].0,
            value: expanded[k].1.clone(),
            important,
        };
        assert(pair_models(expanded@)[k as int] == (expanded@[k as int].0, expanded@[k as int].1@));
        assert(decl@ == target[k as int]);
        assert(target.len() == expanded.len());
        assert(target.take(k + 1) =~= target.take(k as int).push(target[k as int]));
        assert(declaration_models(out@.push(decl)) =~= declaration_models(out@).push(decl@));
        assert(declaration_models(out@.push(decl)) =~= start + target.take(k + 1));
        out.push(decl);
        k += 1;
    }
    assert(target.take(expanded.len() as int) =~= target);
}

/// The declarations of a block.
pub fn parse_declarations(content: &str) -> (r: Vec<StyleDeclaration>)
    ensures
        declaration_models(r@) == declarations_of(content@),
{
    let pieces = split(&to_chars(content), ';');
    let mut out: Vec<StyleDeclaration> = Vec::new();
    let mut i: usize = 0;
    let ghost all = views(pieces@);
    assert(all.take(0) =~= Seq::<Seq<char>>::empty());
    assert(declaration_models(out@) =~= Seq::<DeclarationModel>::empty());
    while i < pieces.len()
        invariant
            i <= pieces.len(),
            all == views(pieces@),
            declaration_models(out@) == declarations_among(all.take(i as int)),
        decreases pieces.len() - i,
    {
        assert(all.take(i + 1).drop_last() =~= all.take(i as int));
        assert(all.take(i + 1).last() == pieces@[i as int]@);
        piece_declarations(&pieces[i], &mut out);
        i += 1;
    }
    assert(all.take(pieces.len() as int) =~= all);
    out
}

/// The selectors of pieces of text, in order; a piece that holds no
/// selector gives none.
pub open spec fn selectors_among(pieces: Seq<Seq<char>>) -> Seq<SelectorModel>
    decreases pieces.len(),
{
    if pieces.len() == 0 {
        Seq::empty()
    } else {
        match selector_of(pieces.last()) {
            Some(s) => selectors_among(pieces.drop_last()).push(s),
            None => selectors_among(pieces.drop_last()),
        }
    }
}

/// The rule that a selector list and a block stand for: the selectors are
/// the pieces of the list between commas, and there is no rule where none
/// of them holds a selector.
pub open spec fn rule_of(selectors: Seq<char>, block: Seq<char>) -> Option<RuleModel> {
    let list = selectors_among(split_on(selectors, ','));
    if list.len() == 0 {
        None
    } else {
        Some(RuleModel { selectors: list, declarations: declarations_of(block) })
    }
}

/// The view of an optional rule.
pub open spec fn optional_rule(r: Option<StyleRule>) -> Option<RuleModel> {
    match r {
        Some(x) => Some(x@),
        None => None,
    }
}

/// The rule that a selector list and a block of declarations stand for.
pub fn parse_rule(selectors_str: &str, declarations_str: &str) -> (r: Option<StyleRule>)
    ensures
        optional_rule(r) == rule_of(selectors_str@, declarations_str@),
{
    let pieces = split(&to_chars(selectors_str), ',');
    let mut selectors: Vec<Selector> = Vec::new();
    let mut i: usize = 0;
    let ghost all = views(pieces@);
    assert(all.take(0) =~= Seq::<Seq<char>>::empty());
    assert(selector_models(selectors@) =~= Seq::<SelectorModel>::empty());
    while i < pieces.len()
        invariant
            i <= pieces.len(),
            all == views(pieces@),
            selector_models(selectors@) == selectors_among(all.take(i as int)),
        decreases pieces.len() - i,
    {
        assert(all.take(i + 1).drop_last() =~= all.take(i as int));
        assert(all.take(i + 1).last() == pieces@[i as int]@);
        let text = from_chars(&pieces[i]);
        match Selector::parse(text.as_str()) {
            Some(s) => {
                assert(selector_models(selectors@.push(s)) =~= selector_models(selectors@).push(s@));
                selectors.push(s);
            },
            None => {},
        }
        i += 1;
    }
    assert(all.take(pieces.len() as int) =~= all);
    if selectors.len() == 0 {
        return None;
    }
    let declarations = parse_declarations(declarations_str);
    Some(StyleRule::new(selectors, declarations))
}

/// Where a comment that was opened just before index `i` ends: behind the
/// next `*/`, or at the end of the text.
pub open spec fn comment_end(s: Seq<char>, i: int) -> int
    decreases s.len() - i,
{
    if i < 0 || i >= s.len() {
        i
    } else if s[i] == '*' && i + 1 < s.len() && s[i + 1] == '/' {
        i + 2
    } else {
        comment_end(s, i + 1)
    }
}

pub proof fn lemma_comment_end_bounds(s: Seq<char>, i: int)
    requires
        0 <= i <= s.len(),
    ensures
        i <= comment_end(s, i) <= s.len(),
    decreases s.len() - i,
{
    if i < s.len() && !(s[i] == '*' && i + 1 < s.len() && s[i + 1] == '/') {
        lemma_comment_end_bounds(s, i + 1);
    }
}

/// What the parser holds while it reads a stylesheet.
pub struct SheetState {
    /// The rules read so far.
    pub rules: Seq<RuleModel>,
    /// The selector list under way.
    pub selectors: Seq<char>,
    /// The block under way.
    pub block: Seq<char>,
    /// Whether a block is open.
    pub in_block: bool,
    /// How many braces are open.
    pub depth: int,
}

/// The rules with an optional one added.
pub open spec fn with_rule(rules: Seq<RuleModel>, rule: Option<RuleModel>) -> Seq<RuleModel> {
    match rule {
        Some(r) => rules.push(r),
        None => rules,
    }
}

/// The state after the character `c`, which opens no comment. The first
/// `{` opens a block and a further one belongs to it; the `}` that closes
/// the block ends a rule, and any other `}` belongs to the block; any other
/// character belongs to the block where one is open and to the selector
/// list where none is.
pub open spec fn sheet_step(st: SheetState, c: char) -> SheetState {
    if c == '{' {
        if !st.in_block {
            SheetState { in_block: true, depth: 1, ..st }
        } else {
            SheetState { depth: st.depth + 1, block: st.block.push(c), ..st }
        }
    } else if c == '}' {
        if st.depth - 1 == 0 {
            SheetState {
                rules: with_rule(st.rules, rule_of(st.selectors, st.block)),
                selectors: Seq::empty(),
                block: Seq::empty(),
                in_block: false,
                depth: 0,
            }
        } else {
            SheetState { depth: st.depth - 1, block: st.block.push(c), ..st }
        }
    } else if st.in_block {
        SheetState { block: st.block.push(c), ..st }
    } else {
        SheetState { selectors: st.selectors.push(c), ..st }
    }
}

/// The rules of the stylesheet text `s` read from index `i` on in the state
/// `st`. A comment, from `/*` to the next `*/`, is passed over. What is
/// under way at the end of the text gives no rule.
pub open spec fn sheet_from(s: Seq<char>, i: int, st: SheetState) -> Seq<RuleModel>
    decreases s.len() - i,
{
    if i < 0 || i >= s.len() {
        st.rules
    } else if s[i] == '/' && i + 1 < s.len() && s[i + 1] == '*' {
        proof {
            lemma_comment_end_bounds(s, i + 2);
        }
        sheet_from(s, comment_end(s, i + 2), st)
    } else {
        sheet_from(s, i + 1, sheet_step(st, s[i]))
    }
}

/// The rules of a stylesheet, white space around it aside.
pub open spec fn stylesheet_of(css: Seq<char>) -> Seq<RuleModel> {
    sheet_from(
        trimmed(css),
        0,
        SheetState {
            rules: Seq::empty(),
            selectors: Seq::empty(),
            block: Seq::empty(),
            in_block: false,
            depth: 0,
        },
    )
}

fn skip_comment(v: &Vec<char>, i: usize) -> (r: usize)
    requires
        i <= v.len(),
    ensures
        r == comment_end(v@, i as int),
        i <= r <= v.len(),
{
    let n = v.len();
    let mut k: usize = i;
    while k < n
        invariant
            i <= k <= n == v.len(),
            comment_end(v@, i as int) == comment_end(v@, k as int),
        decreases n - k,
    {
        if v[k] == '*' && k + 1 < n && v[k + 1] == '/' {
            return k + 2;
        }
        k += 1;
    }
    k
}

/// The rules of a stylesheet.
pub fn parse_stylesheet(css: &str) -> (r: Vec<StyleRule>)
    ensures
        rule_models(r@) == stylesheet_of(css@),
{
    let v = trim(&to_chars(css));
    let n = v.len();
    let mut rules: Vec<StyleRule> = Vec::new();
    let mut selectors: Vec<char> = Vec::new();
    let mut block: Vec<char> = Vec::new();
    let mut in_block = false;
    let mut depth: i128 = 0;
    let mut i: usize = 0;
    assert(rule_models(rules@) =~= Seq::<RuleModel>::empty());
    while i < n
        invariant
            i <= n == v.len(),
            -(i as int) <= depth <= i + 1,
            stylesheet_of(css@) == sheet_from(
                v@,
                i as int,
                SheetState {
                    rules: rule_models(rules@),
                    selectors: selectors@,
                    block: block@,
                    in_block,
                    depth: depth as int,
                },
            ),
        decreases n - i,
    {
        let c = v[i];
        if c == '/' && i + 1 < n && v[i + 1] == '*' {
            i = skip_comment(&v, i + 2);
        } else {
            if c == '{' {
                if !in_block {
                    in_block = true;
                    depth = 1;
                } else {
                    depth = depth + 1;
                    block.push(c);
                }
            } else if c == '}' {
                depth = depth - 1;
                if depth == 0 {
                    let rule = parse_rule(from_chars(&selectors).as_str(), from_chars(&block).as_str());
                    match rule {
                        Some(r) => {
                            assert(rule_models(rules@.push(r)) =~= rule_models(rules@).push(r@));
                            rules.push(r);
                        },
                        None => {},
                    }
                    selectors = Vec::new();
                    block = Vec::new();
                    in_block = false;
                } else {
                    block.push(c);
                }
            } else if in_block {
                block.push(c);
            } else {
                selectors.push(c);
            }
            i += 1;
        }
    }
    rules
}

/// The four sides of a `margin` with one to four values: the declarations
/// for top, right, bottom and left, in that order, with the values that the
/// shorthand rule gives them.
pub proof fn lemma_margin_sides(value: Seq<char>)
    requires
        1 <= words_of(value).len() <= 4,
    ensures
        ({
            let v = words_of(value);
            let e = expansion(PropertyId::Margin, value);
            &&& e.len() == 4
            &&& e[0].0 == PropertyId::MarginTop && e[1].0 == PropertyId::MarginRight
            &&& e[2].0 == PropertyId::MarginBottom && e[3].0 == PropertyId::MarginLeft
            &&& e[0].1 == v[0]
            &&& e[1].1 == if v.len() == 1 {
                v[0]
            } else {
                v[1]
            }
            &&& e[2].1 == if v.len() <= 2 {
                v[0]
            } else {
                v[2]
            }
            &&& e[3].1 == if v.len() == 1 {
                v[0]
            } else if v.len() == 4 {
                v[3]
            } else {
                v[1]
            }
        }),
{
}

/// The four sides of a `padding` with one to four values, as for `margin`.
pub proof fn lemma_padding_sides(value: Seq<char>)
    requires
        1 <= words_of(value).len() <= 4,
    ensures
        ({
            let v = words_of(value);
            let e = expansion(PropertyId::Padding, value);
            &&& e.len() == 4
            &&& e[0].0 == PropertyId::PaddingTop && e[1].0 == PropertyId::PaddingRight
            &&& e[2].0 == PropertyId::PaddingBottom && e[3].0 == PropertyId::PaddingLeft
            &&& e[0].1 == v[0]
            &&& e[1].1 == if v.len() == 1 {
                v[0]
            } else {
                v[1]
            }
            &&& e[2].1 == if v.len() <= 2 {
                v[0]
            } else {
                v[2]
            }
            &&& e[3].1 == if v.len() == 1 {
                v[0]
            } else if v.len() == 4 {
                v[3]
            } else {
                v[1]
            }
        }),
{
}

} // verus!

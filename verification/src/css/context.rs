//! The style context: the stylesheets in force and the computed style of
//! every node.

use crate::css::parser::{
    parse_stylesheet, rule_models, stylesheet_of, RuleModel,
};
use crate::css::properties::{normalized_name, property_named, PropertyId};
use crate::css::selector::{selector_matches, SelectorModel, Specificity};
use crate::css::style::{
    applied, inherited, lemma_overrides_is_total_preorder, overrides, with_defaults, ComputedStyle, DeclarationModel, PropertyModel, StyleModel,
    StyleProperty, StyleRule,
};
use crate::dom::document::{tagged, text_under, Document};
use crate::dom::node::{NodeId, NodeModel, NodeType};
use crate::text::{
    find_from, from_chars, scan_to, split, split_on, str_eq, subvec, to_chars, trim, trimmed, views,
};
use fnv::FnvHashMap;
use vstd::prelude::*;

verus! {

/// The stylesheet that every document starts from.
pub const USER_AGENT_CSS: &'static str = r#"
html, body, div, span, p, h1, h2, h3, h4, h5, h6,
ul, ol, li, table, tr, td, th, form, fieldset, legend,
article, aside, footer, header, nav, section, main {
    display: block;
}

body {
    margin: 8px;
    font-family: sans-serif;
    font-size: 16px;
    line-height: 1.2;
}

h1 { font-size: 2em; margin: 0.67em 0; font-weight: bold; }
h2 { font-size: 1.5em; margin: 0.83em 0; font-weight: bold; }
h3 { font-size: 1.17em; margin: 1em 0; font-weight: bold; }
h4 { margin: 1.33em 0; font-weight: bold; }
h5 { font-size: 0.83em; margin: 1.67em 0; font-weight: bold; }
h6 { font-size: 0.67em; margin: 2.33em 0; font-weight: bold; }

p { margin: 1em 0; }

a { color: blue; text-decoration: underline; }

ul, ol { padding-left: 40px; margin: 1em 0; }
li { display: list-item; }

strong, b { font-weight: bold; }
em, i { font-style: italic; }

pre, code { font-family: monospace; }

img { display: inline-block; }

table { border-collapse: collapse; }
td, th { padding: 1px; }

input, textarea, select, button {
    display: inline-block;
}

[hidden] { display: none; }
"#;

/// A table from node indices to computed styles with a fast hash for small
/// keys.
#[verifier::external_body]
pub struct StyleCache {
    inner: FnvHashMap<usize, ComputedStyle>,
}

/// The style that a cache holds for each node index that it holds.
pub uninterp spec fn style_cache_entries(cache: StyleCache) -> Map<usize, StyleModel>;

/// The cache that holds nothing.
pub open spec fn no_styles() -> Map<usize, StyleModel> {
    Map::empty()
}

/// `FnvHashMap::default`: an empty map.
#[verifier::external_body]
fn cache_new() -> (cache: StyleCache)
    ensures
        style_cache_entries(cache) == no_styles(),
{
    StyleCache { inner: FnvHashMap::default() }
}

/// `HashMap::clear`: every entry is removed.
#[verifier::external_body]
fn cache_clear(cache: &mut StyleCache)
    ensures
        style_cache_entries(*final(cache)) == no_styles(),
{
    cache.inner.clear();
}

/// `HashMap::insert`: the key is bound to the value, in place of any value
/// it had; all other keys stay as they are.
#[verifier::external_body]
fn cache_insert(cache: &mut StyleCache, key: usize, style: ComputedStyle)
    ensures
        style_cache_entries(*final(cache)) == style_cache_entries(*old(cache)).insert(key, style@),
{
    cache.inner.insert(key, style);
}

/// `HashMap::get`: the value stored under the key, if the key is there.
#[verifier::external_body]
fn cache_get(cache: &StyleCache, key: usize) -> (style: Option<&ComputedStyle>)
    ensures
        style is Some <==> style_cache_entries(*cache).contains_key(key),
        style is Some ==> style->0@ == style_cache_entries(*cache)[key],
{
    cache.inner.get(&key)
}

/// Whether an element with this tag name is a block where no declaration
/// sets its display.
pub open spec fn is_block_tag(tag: Seq<char>) -> bool {
    tag == "html"@ ||
        tag == "body"@ ||
        tag == "div"@ ||
        tag == "p"@ ||
        tag == "h1"@ ||
        tag == "h2"@ ||
        tag == "h3"@ ||
        tag == "h4"@ ||
        tag == "h5"@ ||
        tag == "h6"@ ||
        tag == "ul"@ ||
        tag == "ol"@ ||
        tag == "li"@ ||
        tag == "table"@ ||
        tag == "tr"@ ||
        tag == "form"@ ||
        tag == "fieldset"@ ||
        tag == "article"@ ||
        tag == "aside"@ ||
        tag == "footer"@ ||
        tag == "header"@ ||
        tag == "nav"@ ||
        tag == "section"@ ||
        tag == "main"@ ||
        tag == "blockquote"@ ||
        tag == "pre"@ ||
        tag == "figure"@ ||
        tag == "figcaption"@ ||
        tag == "hr"@
}

/// Whether an element with this tag name is a block by default.
pub fn is_block_element(tag: &str) -> (r: bool)
    ensures
        r == is_block_tag(tag@),
{
    str_eq(tag, "html") ||
        str_eq(tag, "body") ||
        str_eq(tag, "div") ||
        str_eq(tag, "p") ||
        str_eq(tag, "h1") ||
        str_eq(tag, "h2") ||
        str_eq(tag, "h3") ||
        str_eq(tag, "h4") ||
        str_eq(tag, "h5") ||
        str_eq(tag, "h6") ||
        str_eq(tag, "ul") ||
        str_eq(tag, "ol") ||
        str_eq(tag, "li") ||
        str_eq(tag, "table") ||
        str_eq(tag, "tr") ||
        str_eq(tag, "form") ||
        str_eq(tag, "fieldset") ||
        str_eq(tag, "article") ||
        str_eq(tag, "aside") ||
        str_eq(tag, "footer") ||
        str_eq(tag, "header") ||
        str_eq(tag, "nav") ||
        str_eq(tag, "section") ||
        str_eq(tag, "main") ||
        str_eq(tag, "blockquote") ||
        str_eq(tag, "pre") ||
        str_eq(tag, "figure") ||
        str_eq(tag, "figcaption") ||
        str_eq(tag, "hr")
}

/// The specificity of a declaration in a `style` attribute.
pub open spec fn inline_specificity() -> Specificity {
    Specificity(1, 0, 0, 0)
}

/// The style once the declarations of a rule are applied to it, in order,
/// with the specificity `weight` of the selector that matched.
pub open spec fn apply_declarations(
    style: StyleModel,
    declarations: Seq<DeclarationModel>,
    weight: Specificity,
) -> StyleModel
    decreases declarations.len(),
{
    if declarations.len() == 0 {
        style
    } else {
        let d = declarations.last();
        applied(
            apply_declarations(style, declarations.drop_last(), weight),
            d.property,
            PropertyModel { value: d.value, specificity: weight, important: d.important },
        )
    }
}

/// The style once a rule's declarations are applied for each of its
/// selectors that matches node `id`, in the order of the selectors.
pub open spec fn apply_selectors(
    style: StyleModel,
    nodes: Seq<NodeModel>,
    id: usize,
    selectors: Seq<SelectorModel>,
    declarations: Seq<DeclarationModel>,
) -> StyleModel
    decreases selectors.len(),
{
    if selectors.len() == 0 {
        style
    } else {
        let before = apply_selectors(style, nodes, id, selectors.drop_last(), declarations);
        if selector_matches(nodes, selectors.last().groups, id) {
            apply_declarations(before, declarations, selectors.last().weight)
        } else {
            before
        }
    }
}

/// The style once the rules are applied to it for node `id`, in order.
pub open spec fn apply_rules(style: StyleModel, nodes: Seq<NodeModel>, id: usize, rules: Seq<RuleModel>) -> StyleModel
    decreases rules.len(),
{
    if rules.len() == 0 {
        style
    } else {
        apply_selectors(
            apply_rules(style, nodes, id, rules.drop_last()),
            nodes,
            id,
            rules.last().selectors,
            rules.last().declarations,
        )
    }
}

/// The style once the declaration in one piece of a `style` attribute is
/// applied to it; a piece without a colon holds none. Such a declaration
/// has the inline specificity and is never important.
pub open spec fn apply_inline_piece(style: StyleModel, piece: Seq<char>) -> StyleModel {
    let d = trimmed(piece);
    let colon = scan_to(d, ':', 0);
    if colon >= d.len() {
        style
    } else {
        applied(
            style,
            property_named(normalized_name(trimmed(d.subrange(0, colon)))),
            PropertyModel {
                value: trimmed(d.subrange(colon + 1, d.len() as int)),
                specificity: inline_specificity(),
                important: false,
            },
        )
    }
}

/// The style once the declarations in the pieces are applied, in order.
pub open spec fn apply_inline_pieces(style: StyleModel, pieces: Seq<Seq<char>>) -> StyleModel
    decreases pieces.len(),
{
    if pieces.len() == 0 {
        style
    } else {
        apply_inline_piece(apply_inline_pieces(style, pieces.drop_last()), pieces.last())
    }
}

/// The style once the declarations of a `style` attribute are applied.
pub open spec fn apply_inline(style: StyleModel, text: Seq<char>) -> StyleModel {
    apply_inline_pieces(style, split_on(text, ';'))
}

/// The style in which nothing is set.
pub open spec fn empty_style() -> StyleModel {
    Map::empty()
}

/// The computed style of node `id`. For an element: the user-agent rules,
/// then the author rules, then the `style` attribute are applied; what is
/// inherited and still missing is taken from the parent's style; `display`
/// is filled in by the tag name. For any other node, and for a node that is
/// not there, it is empty.
pub open spec fn node_style(
    nodes: Seq<NodeModel>,
    id: usize,
    ua: Seq<RuleModel>,
    author: Seq<RuleModel>,
    parent: Option<StyleModel>,
) -> StyleModel {
    if id < nodes.len() && nodes[id as int].data.kind() == NodeType::Element {
        let ruled = apply_rules(apply_rules(empty_style(), nodes, id, ua), nodes, id, author);
        let own = match nodes[id as int].data.attribute("style"@) {
            Some(text) => apply_inline(ruled, text),
            None => ruled,
        };
        let full = match parent {
            Some(p) => inherited(own, p),
            None => own,
        };
        with_defaults(full, is_block_tag(nodes[id as int].data.tag()->0))
    } else {
        empty_style()
    }
}

/// The cache once node `id` and all below it are styled, each node before
/// its children and with its own style as their parent's, going at most
/// `fuel` levels down.
pub open spec fn styled(
    cache: Map<usize, StyleModel>,
    nodes: Seq<NodeModel>,
    id: usize,
    ua: Seq<RuleModel>,
    author: Seq<RuleModel>,
    parent: Option<StyleModel>,
    fuel: nat,
) -> Map<usize, StyleModel>
    decreases fuel, 0nat,
{
    if fuel == 0 {
        cache
    } else {
        let style = node_style(nodes, id, ua, author, parent);
        let with_own = cache.insert(id, style);
        if id < nodes.len() {
            styled_among(
                with_own,
                nodes,
                nodes[id as int].children,
                ua,
                author,
                Some(style),
                (fuel - 1) as nat,
            )
        } else {
            with_own
        }
    }
}

/// The cache once the nodes `ids` and all below them are styled, in order.
pub open spec fn styled_among(
    cache: Map<usize, StyleModel>,
    nodes: Seq<NodeModel>,
    ids: Seq<usize>,
    ua: Seq<RuleModel>,
    author: Seq<RuleModel>,
    parent: Option<StyleModel>,
    fuel: nat,
) -> Map<usize, StyleModel>
    decreases fuel, ids.len() + 1,
{
    if ids.len() == 0 {
        cache
    } else {
        styled(
            styled_among(cache, nodes, ids.drop_last(), ua, author, parent, fuel),
            nodes,
            ids.last(),
            ua,
            author,
            parent,
            fuel,
        )
    }
}

/// The rules of the stylesheets that the nodes `ids` hold as their text,
/// in order.
pub open spec fn sheets_of(nodes: Seq<NodeModel>, ids: Seq<NodeId>) -> Seq<RuleModel>
    decreases ids.len(),
{
    if ids.len() == 0 {
        Seq::empty()
    } else {
        sheets_of(nodes, ids.drop_last()) + stylesheet_of(
            text_under(nodes, ids.last().0, nodes.len()),
        )
    }
}

/// The rules of the `style` elements of a document, in document order.
pub open spec fn document_sheets(nodes: Seq<NodeModel>, root: NodeId) -> Seq<RuleModel> {
    sheets_of(nodes, tagged(nodes, root.0, "style"@, nodes.len()))
}

/// The computed style of every node of a document under the given rules.
pub open spec fn computed_styles(
    nodes: Seq<NodeModel>,
    root: NodeId,
    ua: Seq<RuleModel>,
    author: Seq<RuleModel>,
) -> Map<usize, StyleModel> {
    styled(no_styles(), nodes, root.0, ua, author, None, nodes.len())
}

/// A style context as plain values.
pub struct ContextModel {
    pub ua: Seq<RuleModel>,
    pub author: Seq<RuleModel>,
    pub cache: Map<usize, StyleModel>,
}

/// The stylesheets in force and the computed styles by node.
pub struct StyleContext {
    ua_rules: Vec<StyleRule>,
    author_rules: Vec<StyleRule>,
    computed_cache: StyleCache,
}

impl View for StyleContext {
    type V = ContextModel;

    closed spec fn view(&self) -> ContextModel {
        ContextModel {
            ua: rule_models(self.ua_rules@),
            author: rule_models(self.author_rules@),
            cache: style_cache_entries(self.computed_cache),
        }
    }
}

/// The view of an optional parent style.
pub open spec fn optional_style(s: Option<&ComputedStyle>) -> Option<StyleModel> {
    match s {
        Some(x) => Some(x@),
        None => None,
    }
}

fn apply_rule_declarations(rule: &StyleRule, weight: Specificity, style: &mut ComputedStyle)
    ensures
        final(style)@ == apply_declarations(old(style)@, rule@.declarations, weight),
{
    let mut k: usize = 0;
    let ghost all = rule@.declarations;
    assert(all.take(0) =~= Seq::<DeclarationModel>::empty());
    while k < rule.declarations.len()
        invariant
            k <= rule.declarations.len(),
            all == rule@.declarations,
            style@ == apply_declarations(old(style)@, all.take(k as int), weight),
        decreases rule.declarations.len() - k,
    {
        assert(all.take(k + 1).drop_last() =~= all.take(k as int));
        assert(all.take(k + 1).last() == rule.declarations@[k as int]@);
        let decl = &rule.declarations[k];
        style.set(decl.property, StyleProperty::new(decl.value.clone(), weight, decl.important));
        k += 1;
    }
    assert(all.take(rule.declarations.len() as int) =~= all);
}

/// Applies a rule to the style of a node: its declarations, once for each
/// of its selectors that matches.
pub fn apply_matching_rule(doc: &Document, node_id: NodeId, rule: &StyleRule, style: &mut ComputedStyle)
    ensures
        final(style)@ == apply_selectors(
            old(style)@,
            doc@.nodes,
            node_id.0,
            rule@.selectors,
            rule@.declarations,
        ),
{
    let mut k: usize = 0;
    let ghost all = rule@.selectors;
    assert(all.take(0) =~= Seq::<SelectorModel>::empty());
    while k < rule.selectors.len()
        invariant
            k <= rule.selectors.len(),
            all == rule@.selectors,
            style@ == apply_selectors(
                old(style)@,
                doc@.nodes,
                node_id.0,
                all.take(k as int),
                rule@.declarations,
            ),
        decreases rule.selectors.len() - k,
    {
        assert(all.take(k + 1).drop_last() =~= all.take(k as int));
        assert(all.take(k + 1).last() == rule.selectors@[k as int]@);
        let selector = &rule.selectors[k];
        if selector.matches(doc, node_id) {
            apply_rule_declarations(rule, selector.specificity(), style);
        }
        k += 1;
    }
    assert(all.take(rule.selectors.len() as int) =~= all);
}

fn apply_rule_list(doc: &Document, node_id: NodeId, rules: &Vec<StyleRule>, style: &mut ComputedStyle)
    ensures
        final(style)@ == apply_rules(old(style)@, doc@.nodes, node_id.0, rule_models(rules@)),
{
    let mut k: usize = 0;
    let ghost all = rule_models(rules@);
    assert(all.take(0) =~= Seq::<RuleModel>::empty());
    while k < rules.len()
        invariant
            k <= rules.len(),
            all == rule_models(rules@),
            style@ == apply_rules(old(style)@, doc@.nodes, node_id.0, all.take(k as int)),
        decreases rules.len() - k,
    {
        assert(all.take(k + 1).drop_last() =~= all.take(k as int));
        assert(all.take(k + 1).last() == rules@[k as int]@);
        apply_matching_rule(doc, node_id, &rules[k], style);
        k += 1;
    }
    assert(all.take(rules.len() as int) =~= all);
}

/// Applies the declarations of a `style` attribute.
pub fn apply_inline_styles(inline: &str, style: &mut ComputedStyle)
    ensures
        final(style)@ == apply_inline(old(style)@, inline@),
{
    let pieces = split(&to_chars(inline), ';');
    let ghost all = views(pieces@);
    let mut k: usize = 0;
    assert(all.take(0) =~= Seq::<Seq<char>>::empty());
    while k < pieces.len()
        invariant
            k <= pieces.len(),
            all == views(pieces@),
            style@ == apply_inline_pieces(old(style)@, all.take(k as int)),
        decreases pieces.len() - k,
    {
        assert(all.take(k + 1).drop_last() =~= all.take(k as int));
        assert(all.take(k + 1).last() == pieces@[k as int]@);
        let d = trim(&pieces[k]);
        let colon = find_from(&d, ':', 0);
        if colon < d.len() {
            let name = from_chars(&trim(&subvec(&d, 0, colon)));
            let value = from_chars(&trim(&subvec(&d, colon + 1, d.len())));
            let property = PropertyId::from_name(name.as_str());
            style.set(property, StyleProperty::new(value, Specificity::new(1, 0, 0, 0), false));
        }
        k += 1;
    }
    assert(all.take(pieces.len() as int) =~= all);
}

/// The computed style of one node under the given rules and parent style.
pub fn compute_node_style(
    doc: &Document,
    node_id: NodeId,
    ua: &Vec<StyleRule>,
    author: &Vec<StyleRule>,
    parent: Option<&ComputedStyle>,
) -> (style: ComputedStyle)
    ensures
        style@ == node_style(
            doc@.nodes,
            node_id.0,
            rule_models(ua@),
            rule_models(author@),
            optional_style(parent),
        ),
{
    let mut style = ComputedStyle::new();
    match doc.get_node(node_id) {
        Some(node) => {
            if node.is_element() {
                apply_rule_list(doc, node_id, ua, &mut style);
                apply_rule_list(doc, node_id, author, &mut style);
                match node.get_attribute("style") {
                    Some(inline) => {
                        apply_inline_styles(inline, &mut style);
                    },
                    None => {},
                }
                match parent {
                    Some(p) => {
                        style.inherit_from(p);
                    },
                    None => {},
                }
                let is_block = match node.tag_name() {
                    Some(t) => is_block_element(t),
                    None => false,
                };
                style.apply_defaults(is_block);
            }
        },
        None => {},
    }
    style
}

impl StyleContext {
    /// A context with the user-agent stylesheet and nothing else.
    pub fn new() -> (ctx: Self)
        ensures
            ctx@ == (ContextModel {
                ua: stylesheet_of(USER_AGENT_CSS@),
                author: Seq::empty(),
                cache: no_styles(),
            }),
    {
        let author_rules: Vec<StyleRule> = Vec::new();
        assert(rule_models(author_rules@) =~= Seq::<RuleModel>::empty());
        StyleContext {
            ua_rules: parse_stylesheet(USER_AGENT_CSS),
            author_rules,
            computed_cache: cache_new(),
        }
    }

    /// Adds the rules of a stylesheet behind the author rules so far. All
    /// computed styles are forgotten.
    pub fn add_stylesheet(&mut self, css: &str)
        ensures
            final(self)@ == (ContextModel {
                ua: old(self)@.ua,
                author: old(self)@.author + stylesheet_of(css@),
                cache: no_styles(),
            }),
    {
        let mut rules = parse_stylesheet(css);
        proof {
            lemma_rule_models_add(self.author_rules@, rules@);
        }
        self.author_rules.append(&mut rules);
        cache_clear(&mut self.computed_cache);
    }

    /// Drops every author rule. All computed styles are forgotten.
    pub fn clear_author_styles(&mut self)
        ensures
            final(self)@ == (ContextModel {
                ua: old(self)@.ua,
                author: Seq::empty(),
                cache: no_styles(),
            }),
    {
        self.author_rules.clear();
        assert(rule_models(self.author_rules@) =~= Seq::<RuleModel>::empty());
        cache_clear(&mut self.computed_cache);
    }

    fn compute_styles_recursive(
        &mut self,
        doc: &Document,
        node_id: NodeId,
        parent_style: Option<&ComputedStyle>,
        fuel: usize,
    )
        ensures
            final(self)@ == (ContextModel {
                cache: styled(
                    old(self)@.cache,
                    doc@.nodes,
                    node_id.0,
                    old(self)@.ua,
                    old(self)@.author,
                    optional_style(parent_style),
                    fuel as nat,
                ),
                ..old(self)@
            }),
        decreases fuel,
    {
        if fuel == 0 {
            return ;
        }
        let style = compute_node_style(doc, node_id, &self.ua_rules, &self.author_rules, parent_style);
        cache_insert(&mut self.computed_cache, node_id.0, style.clone());
        match doc.get_node(node_id) {
            Some(node) => {
                let n = node.children.len();
                let ghost ids = node@.children;
                let ghost start = self@.cache;
                let mut k: usize = 0;
                assert(ids.take(0) =~= Seq::<usize>::empty());
                while k < n
                    invariant
                        k <= n == ids.len(),
                        ids == node@.children,
                        fuel > 0,
                        self@.ua == old(self)@.ua,
                        self@.author == old(self)@.author,
                        self@.cache == styled_among(
                            start,
                            doc@.nodes,
                            ids.take(k as int),
                            old(self)@.ua,
                            old(self)@.author,
                            Some(style@),
                            (fuel - 1) as nat,
                        ),
                    decreases n - k,
                {
                    assert(ids.take(k + 1).drop_last() =~= ids.take(k as int));
                    assert(ids.take(k + 1).last() == ids[k as int]);
                    let child = node.children.get(k).unwrap();
                    self.compute_styles_recursive(doc, NodeId(child), Some(&style), fuel - 1);
                    k += 1;
                }
                assert(ids.take(n as int) =~= ids);
            },
            None => {},
        }
    }

    /// Computes the style of every node. The rules of the document's
    /// `style` elements are first added behind the author rules; then every
    /// node is styled from the root down.
    pub fn apply_styles(&mut self, doc: &mut Document)
        ensures
            final(doc)@ == old(doc)@,
            restyled(old(self)@, final(self)@, old(doc)@.nodes, old(doc)@.root),
    {
        cache_clear(&mut self.computed_cache);
        let style_nodes = doc.get_elements_by_lowercase_tag("style");
        let ghost ids = style_nodes@;
        let mut k: usize = 0;
        assert(ids.take(0) =~= Seq::<NodeId>::empty());
        assert(self@.author + Seq::<RuleModel>::empty() =~= self@.author);
        while k < style_nodes.len()
            invariant
                k <= style_nodes.len(),
                ids == style_nodes@,
                doc@ == old(doc)@,
                self@.ua == old(self)@.ua,
                self@.cache == no_styles(),
                self@.author == old(self)@.author + sheets_of(doc@.nodes, ids.take(k as int)),
            decreases style_nodes.len() - k,
        {
            assert(ids.take(k + 1).drop_last() =~= ids.take(k as int));
            assert(ids.take(k + 1).last() == ids[k as int]);
            let css = doc.get_text_content(style_nodes[k]);
            self.add_stylesheet(css.as_str());
            assert(self@.author =~= old(self)@.author + sheets_of(doc@.nodes, ids.take(k + 1)));
            k += 1;
        }
        assert(ids.take(style_nodes.len() as int) =~= ids);
        let root = doc.root();
        let count = doc.node_count();
        self.compute_styles_recursive(doc, root, None, count);
    }

    /// The computed style of a node, if one was computed.
    pub fn get_computed_style(&self, node_id: NodeId) -> (r: Option<&ComputedStyle>)
        ensures
            r is Some <==> self@.cache.contains_key(node_id.0),
            r is Some ==> r->0@ == self@.cache[node_id.0],
    {
        cache_get(&self.computed_cache, node_id.0)
    }
}

proof fn lemma_rule_models_add(a: Seq<StyleRule>, b: Seq<StyleRule>)
    ensures
        rule_models(a + b) == rule_models(a) + rule_models(b),
{
    assert(rule_models(a + b) =~= rule_models(a) + rule_models(b));
}

impl Default for StyleContext {
    fn default() -> (ctx: Self)
        ensures
            ctx@ == (ContextModel {
                ua: stylesheet_of(USER_AGENT_CSS@),
                author: Seq::empty(),
                cache: no_styles(),
            }),
    {
        StyleContext::new()
    }
}

/// A declaration of a `style` attribute replaces the value that any
/// declaration of a stylesheet rule has set, unless that one is important,
/// and is never replaced by one that is not important: the specificity of a
/// selector has no inline part.
pub proof fn lemma_inline_outranks_rules(
    inline_value: Seq<char>,
    rule_value: Seq<char>,
    groups: Seq<crate::css::selector::GroupModel>,
    important: bool,
)
    ensures
        ({
            let inline = PropertyModel {
                value: inline_value,
                specificity: inline_specificity(),
                important: false,
            };
            let ruled = PropertyModel {
                value: rule_value,
                specificity: crate::css::selector::specificity_of(groups),
                important,
            };
            &&& overrides(inline, ruled) == !important
            &&& overrides(ruled, inline) == important
        }),
{
}

/// One application of a declaration: the property and the value with what
/// it is applied by.
pub type Step = (PropertyId, PropertyModel);

/// The style once the steps are applied to it, in order.
pub open spec fn apply_steps(style: StyleModel, steps: Seq<Step>) -> StyleModel
    decreases steps.len(),
{
    if steps.len() == 0 {
        style
    } else {
        applied(apply_steps(style, steps.drop_last()), steps.last().0, steps.last().1)
    }
}

/// The steps that the declarations of a rule make with the specificity
/// `weight`.
pub open spec fn steps_of_declarations(declarations: Seq<DeclarationModel>, weight: Specificity) -> Seq<
    Step,
>
    decreases declarations.len(),
{
    if declarations.len() == 0 {
        Seq::empty()
    } else {
        let d = declarations.last();
        steps_of_declarations(declarations.drop_last(), weight).push(
            (d.property, PropertyModel { value: d.value, specificity: weight, important: d.important }),
        )
    }
}

/// The steps that a rule makes for node `id`.
pub open spec fn steps_of_selectors(
    nodes: Seq<NodeModel>,
    id: usize,
    selectors: Seq<SelectorModel>,
    declarations: Seq<DeclarationModel>,
) -> Seq<Step>
    decreases selectors.len(),
{
    if selectors.len() == 0 {
        Seq::empty()
    } else {
        let before = steps_of_selectors(nodes, id, selectors.drop_last(), declarations);
        if selector_matches(nodes, selectors.last().groups, id) {
            before + steps_of_declarations(declarations, selectors.last().weight)
        } else {
            before
        }
    }
}

/// The steps that the rules make for node `id`.
pub open spec fn steps_of_rules(nodes: Seq<NodeModel>, id: usize, rules: Seq<RuleModel>) -> Seq<Step>
    decreases rules.len(),
{
    if rules.len() == 0 {
        Seq::empty()
    } else {
        steps_of_rules(nodes, id, rules.drop_last()) + steps_of_selectors(
            nodes,
            id,
            rules.last().selectors,
            rules.last().declarations,
        )
    }
}

/// Applying two runs of steps one after the other is applying them joined.
pub proof fn lemma_steps_join(style: StyleModel, a: Seq<Step>, b: Seq<Step>)
    ensures
        apply_steps(style, a + b) == apply_steps(apply_steps(style, a), b),
    decreases b.len(),
{
    if b.len() == 0 {
        assert(a + b =~= a);
    } else {
        assert((a + b).drop_last() =~= a + b.drop_last());
        assert((a + b).last() == b.last());
        lemma_steps_join(style, a, b.drop_last());
    }
}

proof fn lemma_declarations_as_steps(style: StyleModel, declarations: Seq<DeclarationModel>, weight: Specificity)
    ensures
        apply_declarations(style, declarations, weight) == apply_steps(
            style,
            steps_of_declarations(declarations, weight),
        ),
    decreases declarations.len(),
{
    if declarations.len() > 0 {
        lemma_declarations_as_steps(style, declarations.drop_last(), weight);
        let before = steps_of_declarations(declarations.drop_last(), weight);
        let all = steps_of_declarations(declarations, weight);
        assert(all.drop_last() =~= before);
    }
}

proof fn lemma_selectors_as_steps(
    style: StyleModel,
    nodes: Seq<NodeModel>,
    id: usize,
    selectors: Seq<SelectorModel>,
    declarations: Seq<DeclarationModel>,
)
    ensures
        apply_selectors(style, nodes, id, selectors, declarations) == apply_steps(
            style,
            steps_of_selectors(nodes, id, selectors, declarations),
        ),
    decreases selectors.len(),
{
    if selectors.len() > 0 {
        lemma_selectors_as_steps(style, nodes, id, selectors.drop_last(), declarations);
        let before = steps_of_selectors(nodes, id, selectors.drop_last(), declarations);
        if selector_matches(nodes, selectors.last().groups, id) {
            lemma_declarations_as_steps(
                apply_steps(style, before),
                declarations,
                selectors.last().weight,
            );
            lemma_steps_join(
                style,
                before,
                steps_of_declarations(declarations, selectors.last().weight),
            );
        }
    }
}

/// Applying rules is applying the steps that they make.
pub proof fn lemma_rules_as_steps(style: StyleModel, nodes: Seq<NodeModel>, id: usize, rules: Seq<RuleModel>)
    ensures
        apply_rules(style, nodes, id, rules) == apply_steps(style, steps_of_rules(nodes, id, rules)),
    decreases rules.len(),
{
    if rules.len() > 0 {
        lemma_rules_as_steps(style, nodes, id, rules.drop_last());
        let before = steps_of_rules(nodes, id, rules.drop_last());
        lemma_selectors_as_steps(
            apply_steps(style, before),
            nodes,
            id,
            rules.last().selectors,
            rules.last().declarations,
        );
        lemma_steps_join(
            style,
            before,
            steps_of_selectors(nodes, id, rules.last().selectors, rules.last().declarations),
        );
    }
}

/// The steps of two lists of rules joined are their steps joined.
pub proof fn lemma_steps_of_joined_rules(nodes: Seq<NodeModel>, id: usize, a: Seq<RuleModel>, b: Seq<RuleModel>)
    ensures
        steps_of_rules(nodes, id, a + b) == steps_of_rules(nodes, id, a) + steps_of_rules(
            nodes,
            id,
            b,
        ),
    decreases b.len(),
{
    if b.len() == 0 {
        assert(a + b =~= a);
        assert(steps_of_rules(nodes, id, a) + Seq::<Step>::empty() =~= steps_of_rules(nodes, id, a));
    } else {
        assert((a + b).drop_last() =~= a + b.drop_last());
        assert((a + b).last() == b.last());
        lemma_steps_of_joined_rules(nodes, id, a, b.drop_last());
        let tail = steps_of_selectors(nodes, id, b.last().selectors, b.last().declarations);
        assert((steps_of_rules(nodes, id, a) + steps_of_rules(nodes, id, b.drop_last())) + tail
            =~= steps_of_rules(nodes, id, a) + (steps_of_rules(nodes, id, b.drop_last()) + tail));
    }
}

/// The value that the last of the first `k` steps for `property` to be at
/// least as strong as `mark` carries, and `mark` where there is none.
pub open spec fn last_as_strong(steps: Seq<Step>, k: nat, property: PropertyId, mark: PropertyModel) -> PropertyModel
    decreases k,
{
    if k == 0 || k > steps.len() {
        mark
    } else if steps[k - 1].0 == property && overrides(steps[k - 1].1, mark) {
        steps[k - 1].1
    } else {
        last_as_strong(steps, (k - 1) as nat, property, mark)
    }
}

proof fn lemma_last_as_strong_prefix(a: Seq<Step>, b: Seq<Step>, k: nat, property: PropertyId, mark: PropertyModel)
    requires
        k <= a.len(),
        k <= b.len(),
        forall|i: int| 0 <= i < k ==> a[i] == b[i],
    ensures
        last_as_strong(a, k, property, mark) == last_as_strong(b, k, property, mark),
    decreases k,
{
    if k > 0 {
        lemma_last_as_strong_prefix(a, b, (k - 1) as nat, property, mark);
    }
}

proof fn lemma_last_as_strong_is_strong(steps: Seq<Step>, k: nat, property: PropertyId, mark: PropertyModel)
    requires
        k <= steps.len(),
    ensures
        overrides(last_as_strong(steps, k, property, mark), mark),
    decreases k,
{
    if k > 0 {
        lemma_last_as_strong_is_strong(steps, (k - 1) as nat, property, mark);
    }
}

/// What the steps leave for a property is as strong as every step for it.
proof fn lemma_result_is_strongest(style: StyleModel, steps: Seq<Step>, i: int)
    requires
        0 <= i < steps.len(),
    ensures
        apply_steps(style, steps).contains_key(steps[i].0),
        overrides(apply_steps(style, steps)[steps[i].0], steps[i].1),
    decreases steps.len(),
{
    let before = apply_steps(style, steps.drop_last());
    let last = steps.last();
    if i < steps.len() - 1 {
        lemma_result_is_strongest(style, steps.drop_last(), i);
        assert(steps.drop_last()[i] == steps[i]);
    }
}

/// What the steps leave for a property is the value of the last step for
/// it that is as strong as what they leave.
proof fn lemma_result_is_last_as_strong(style: StyleModel, steps: Seq<Step>, property: PropertyId)
    requires
        apply_steps(style, steps).contains_key(property),
    ensures
        apply_steps(style, steps)[property] == last_as_strong(
            steps,
            steps.len(),
            property,
            apply_steps(style, steps)[property],
        ),
    decreases steps.len(),
{
    if steps.len() > 0 {
        let rest = steps.drop_last();
        let before = apply_steps(style, rest);
        let last = steps.last();
        let result = apply_steps(style, steps);
        if last.0 == property && (!before.contains_key(property) || overrides(
            last.1,
            before[property],
        )) {
        } else {
            assert(before.contains_key(property));
            assert(result[property] == before[property]);
            lemma_result_is_last_as_strong(style, rest, property);
            lemma_last_as_strong_prefix(
                rest,
                steps,
                rest.len(),
                property,
                before[property],
            );
        }
    }
}

/// Applying the first `k` of the steps again to what all of them left
/// leaves, for each property, the value of the last of these `k` steps
/// that is as strong as what was left.
proof fn lemma_second_pass(result: StyleModel, steps: Seq<Step>, k: nat)
    requires
        k <= steps.len(),
        forall|i: int|
            0 <= i < steps.len() ==> result.contains_key((#[trigger] steps[i]).0) && overrides(
                result[steps[i].0],
                steps[i].1,
            ),
    ensures
        apply_steps(result, steps.take(k as int)).dom() == result.dom(),
        forall|p: PropertyId|
            result.contains_key(p) ==> (#[trigger] apply_steps(result, steps.take(k as int))[p])
                == last_as_strong(steps, k, p, result[p]),
    decreases k,
{
    if k > 0 {
        lemma_second_pass(result, steps, (k - 1) as nat);
        let now = steps.take(k as int);
        let rest = steps.take(k - 1);
        assert(now.drop_last() =~= rest);
        assert(now.last() == steps[k - 1]);
        let before = apply_steps(result, rest);
        let after = apply_steps(result, now);
        let q = steps[k - 1].0;
        let v = steps[k - 1].1;
        assert(result.contains_key(q));
        assert(before.contains_key(q));
        lemma_last_as_strong_is_strong(steps, (k - 1) as nat, q, result[q]);
        assert(after.dom() =~= result.dom());
        assert forall|p: PropertyId| result.contains_key(p) implies (#[trigger] after[p])
            == last_as_strong(steps, k, p, result[p]) by {
            if p == q {
                let c = before[q];
                assert(c == last_as_strong(steps, (k - 1) as nat, q, result[q]));
                assert(overrides(c, result[q]));
                lemma_strength_of_held(result, steps, (k - 1) as nat, q);
                assert(overrides(result[q], c));
                lemma_overrides_is_total_preorder(v, c, result[q]);
                lemma_overrides_is_total_preorder(v, result[q], c);
            }
        }
    } else {
        assert(steps.take(0) =~= Seq::<Step>::empty());
    }
}

/// What is held after some of the steps are applied again is no stronger
/// than what all of them left the first time.
proof fn lemma_strength_of_held(result: StyleModel, steps: Seq<Step>, k: nat, property: PropertyId)
    requires
        k <= steps.len(),
        result.contains_key(property),
        forall|i: int|
            0 <= i < steps.len() ==> result.contains_key((#[trigger] steps[i]).0) && overrides(
                result[steps[i].0],
                steps[i].1,
            ),
    ensures
        overrides(result[property], last_as_strong(steps, k, property, result[property])),
    decreases k,
{
    if k > 0 {
        lemma_strength_of_held(result, steps, (k - 1) as nat, property);
        lemma_overrides_is_total_preorder(result[property], result[property], result[property]);
    } else {
        lemma_overrides_is_total_preorder(result[property], result[property], result[property]);
    }
}

/// Applying steps a second time changes nothing.
pub proof fn lemma_steps_twice(style: StyleModel, steps: Seq<Step>)
    ensures
        apply_steps(apply_steps(style, steps), steps) == apply_steps(style, steps),
{
    let result = apply_steps(style, steps);
    assert forall|i: int| 0 <= i < steps.len() implies result.contains_key((#[trigger] steps[i]).0)
        && overrides(result[steps[i].0], steps[i].1) by {
        lemma_result_is_strongest(style, steps, i);
    }
    lemma_second_pass(result, steps, steps.len());
    assert(steps.take(steps.len() as int) =~= steps);
    let again = apply_steps(result, steps);
    assert forall|p: PropertyId| result.contains_key(p) implies again[p] == result[p] by {
        lemma_result_is_last_as_strong(style, steps, p);
    }
    assert(again =~= result);
}

/// Rules that stand twice at the end of a list apply as if they stood
/// there once.
pub proof fn lemma_rules_twice(
    style: StyleModel,
    nodes: Seq<NodeModel>,
    id: usize,
    rules: Seq<RuleModel>,
    again: Seq<RuleModel>,
)
    ensures
        apply_rules(style, nodes, id, rules + again + again) == apply_rules(
            style,
            nodes,
            id,
            rules + again,
        ),
{
    let a = steps_of_rules(nodes, id, rules);
    let b = steps_of_rules(nodes, id, again);
    lemma_rules_as_steps(style, nodes, id, rules + again + again);
    lemma_rules_as_steps(style, nodes, id, rules + again);
    lemma_steps_of_joined_rules(nodes, id, rules, again);
    lemma_steps_of_joined_rules(nodes, id, rules + again, again);
    lemma_steps_join(style, a + b, b);
    lemma_steps_join(style, a, b);
    lemma_steps_twice(apply_steps(style, a), b);
}

proof fn lemma_styled_twice(
    cache: Map<usize, StyleModel>,
    nodes: Seq<NodeModel>,
    id: usize,
    ua: Seq<RuleModel>,
    rules: Seq<RuleModel>,
    again: Seq<RuleModel>,
    parent: Option<StyleModel>,
    fuel: nat,
)
    ensures
        styled(cache, nodes, id, ua, rules + again + again, parent, fuel) == styled(
            cache,
            nodes,
            id,
            ua,
            rules + again,
            parent,
            fuel,
        ),
    decreases fuel, 0nat,
{
    if fuel > 0 {
        lemma_rules_twice(apply_rules(empty_style(), nodes, id, ua), nodes, id, rules, again);
        let style = node_style(nodes, id, ua, rules + again, parent);
        assert(node_style(nodes, id, ua, rules + again + again, parent) == style);
        if id < nodes.len() {
            lemma_styled_among_twice(
                cache.insert(id, style),
                nodes,
                nodes[id as int].children,
                ua,
                rules,
                again,
                Some(style),
                (fuel - 1) as nat,
            );
        }
    }
}

proof fn lemma_styled_among_twice(
    cache: Map<usize, StyleModel>,
    nodes: Seq<NodeModel>,
    ids: Seq<usize>,
    ua: Seq<RuleModel>,
    rules: Seq<RuleModel>,
    again: Seq<RuleModel>,
    parent: Option<StyleModel>,
    fuel: nat,
)
    ensures
        styled_among(cache, nodes, ids, ua, rules + again + again, parent, fuel) == styled_among(
            cache,
            nodes,
            ids,
            ua,
            rules + again,
            parent,
            fuel,
        ),
    decreases fuel, ids.len() + 1,
{
    if ids.len() > 0 {
        lemma_styled_among_twice(cache, nodes, ids.drop_last(), ua, rules, again, parent, fuel);
        lemma_styled_twice(
            styled_among(cache, nodes, ids.drop_last(), ua, rules + again, parent, fuel),
            nodes,
            ids.last(),
            ua,
            rules,
            again,
            parent,
            fuel,
        );
    }
}

/// What `apply_styles` does to a context for a document.
pub open spec fn restyled(
    before: ContextModel,
    after: ContextModel,
    nodes: Seq<NodeModel>,
    root: NodeId,
) -> bool {
    &&& after.ua == before.ua
    &&& after.author == before.author + document_sheets(nodes, root)
    &&& after.cache == computed_styles(nodes, root, after.ua, after.author)
}

/// Computing the styles of an unchanged document a second time gives the
/// styles of the first time, for every node and every property. The second
/// run adds the rules of the document's `style` elements once more behind
/// the author rules, and that changes no computed style.
pub proof fn lemma_restyling_is_idempotent(
    start: ContextModel,
    once: ContextModel,
    twice: ContextModel,
    nodes: Seq<NodeModel>,
    root: NodeId,
)
    requires
        restyled(start, once, nodes, root),
        restyled(once, twice, nodes, root),
    ensures
        twice.cache == once.cache,
{
    lemma_styled_twice(
        no_styles(),
        nodes,
        root.0,
        start.ua,
        start.author,
        document_sheets(nodes, root),
        None,
        nodes.len(),
    );
}

} // verus!

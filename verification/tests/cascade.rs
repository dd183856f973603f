use browser_core::css::context::{is_block_element, StyleContext};
use browser_core::css::properties::PropertyId;
use browser_core::css::selector::Specificity;
use browser_core::css::style::{ComputedStyle, StyleProperty};
use browser_core::css::values::{Color, Display, LengthText, LengthUnit};
use browser_core::dom::document::Document;
use browser_core::dom::node::NodeId;
use browser_core::layout::box_model::BoxType;
use browser_core::layout::tree::{LayoutId, LayoutTree};

fn element(doc: &mut Document, parent: NodeId, tag: &str, attrs: &[(&str, &str)]) -> NodeId {
    let id = doc.create_element(tag, None);
    for (k, v) in attrs {
        doc.set_attribute(id, k.to_string(), v.to_string());
    }
    doc.append_child(parent, id);
    id
}

fn text(doc: &mut Document, parent: NodeId, content: &str) -> NodeId {
    let id = doc.create_text(content);
    doc.append_child(parent, id);
    id
}

fn prop(value: &str, spec: Specificity, important: bool) -> StyleProperty {
    StyleProperty::new(value.to_string(), spec, important)
}

#[test]
fn important_beats_specificity() {
    let low_important = prop("a", Specificity::new(0, 0, 0, 1), true);
    let high_plain = prop("b", Specificity::new(1, 9, 9, 9), false);
    assert!(low_important.should_override(&high_plain));
    assert!(!high_plain.should_override(&low_important));
}

#[test]
fn higher_specificity_wins_and_later_wins_ties() {
    let a = prop("a", Specificity::new(0, 1, 0, 0), false);
    let b = prop("b", Specificity::new(0, 0, 5, 5), false);
    assert!(a.should_override(&b));
    assert!(!b.should_override(&a));
    let c = prop("c", Specificity::new(0, 1, 0, 0), false);
    assert!(c.should_override(&a) && a.should_override(&c));
    let d = prop("d", Specificity::new(0, 1, 0, 0), true);
    let e = prop("e", Specificity::new(0, 2, 0, 0), true);
    assert!(e.should_override(&d) && !d.should_override(&e));
}

#[test]
fn set_keeps_the_winner() {
    let mut s = ComputedStyle::new();
    assert_eq!(s.get(PropertyId::Color), None);
    s.set(PropertyId::Color, prop("red", Specificity::new(0, 1, 0, 0), false));
    s.set(PropertyId::Color, prop("blue", Specificity::new(0, 0, 1, 0), false));
    assert_eq!(s.get(PropertyId::Color), Some("red"));
    s.set(PropertyId::Color, prop("green", Specificity::new(0, 1, 0, 0), false));
    assert_eq!(s.get(PropertyId::Color), Some("green"));
    s.set(PropertyId::Color, prop("black", Specificity::new(0, 0, 0, 0), true));
    assert_eq!(s.get(PropertyId::Color), Some("black"));
    assert!(s.get_property(PropertyId::Color).unwrap().important);
    assert_eq!(s.get(PropertyId::Width), None);
}

#[test]
fn typed_accessors_fall_back() {
    let mut s = ComputedStyle::default();
    assert_eq!(s.display(), Display::Inline);
    assert_eq!(s.color(), Color::black());
    assert_eq!(s.background_color(), Color::transparent());
    assert_eq!(s.width(), None);
    assert_eq!(s.margin().0, LengthText::Zero);
    let w = Specificity::default();
    s.set(PropertyId::Display, prop("FLEX", w, false));
    s.set(PropertyId::Color, prop("#010203", w, false));
    s.set(PropertyId::BackgroundColor, prop("Blue", w, false));
    s.set(PropertyId::Width, prop("10px", w, false));
    s.set(PropertyId::Height, prop("auto", w, false));
    s.set(PropertyId::MarginLeft, prop("2em", w, false));
    s.set(PropertyId::PaddingBottom, prop("5%", w, false));
    assert_eq!(s.display(), Display::Flex);
    assert_eq!(s.color(), Color::rgb(1, 2, 3));
    assert_eq!(s.background_color(), Color::rgb(0, 0, 255));
    assert_eq!(s.width(), Some(LengthText::Number { text: "10".to_string(), unit: LengthUnit::Px }));
    assert_eq!(s.height(), Some(LengthText::Auto));
    assert_eq!(s.margin().3, LengthText::Number { text: "2".to_string(), unit: LengthUnit::Em });
    assert_eq!(s.padding().2, LengthText::Number { text: "5".to_string(), unit: LengthUnit::Percent });
    s.set(PropertyId::Color, prop("no such color", w, false));
    assert_eq!(s.color(), Color::black());
    s.set(PropertyId::Display, prop("list-item", w, false));
    assert_eq!(s.display(), Display::Inline);
}

#[test]
fn inheritance_takes_only_inherited_and_missing_properties() {
    let w = Specificity::default();
    let mut parent = ComputedStyle::new();
    parent.set(PropertyId::Color, prop("red", w, false));
    parent.set(PropertyId::FontSize, prop("20px", w, false));
    parent.set(PropertyId::Width, prop("10px", w, false));
    let mut child = ComputedStyle::new();
    child.set(PropertyId::FontSize, prop("12px", w, false));
    child.inherit_from(&parent);
    assert_eq!(child.get(PropertyId::Color), Some("red"));
    assert_eq!(child.get(PropertyId::FontSize), Some("12px"));
    assert_eq!(child.get(PropertyId::Width), None);
    let copy = child.clone();
    child.apply_defaults(true);
    assert_eq!(child.get(PropertyId::Display), Some("block"));
    assert_eq!(copy.get(PropertyId::Display), None);
    let mut other = ComputedStyle::new();
    other.apply_defaults(false);
    assert_eq!(other.get(PropertyId::Display), Some("inline"));
    other.apply_defaults(true);
    assert_eq!(other.get(PropertyId::Display), Some("inline"));
}

#[test]
fn block_elements_by_tag() {
    assert!(is_block_element("div") && is_block_element("hr") && is_block_element("figcaption"));
    assert!(!is_block_element("span") && !is_block_element("DIV") && !is_block_element("td"));
}

fn styled(css: &str, inline: Option<&str>) -> (Document, StyleContext, NodeId) {
    let mut doc = Document::new();
    let root = doc.root();
    let body = element(&mut doc, root, "body", &[]);
    let p = match inline {
        Some(s) => element(&mut doc, body, "p", &[("style", s)]),
        None => element(&mut doc, body, "p", &[]),
    };
    let mut ctx = StyleContext::new();
    ctx.add_stylesheet(css);
    ctx.apply_styles(&mut doc);
    (doc, ctx, p)
}

#[test]
fn inline_style_beats_a_rule_but_not_an_important_one() {
    let (_, ctx, p) = styled("p { color: blue }", Some("color:red"));
    assert_eq!(ctx.get_computed_style(p).unwrap().get(PropertyId::Color), Some("red"));
    let (_, ctx, p) = styled("p { color: blue !important }", Some("color:red"));
    assert_eq!(ctx.get_computed_style(p).unwrap().get(PropertyId::Color), Some("blue"));
    let (_, ctx, p) = styled("#x.y.z p { color: blue }", Some("color: red; ; width : 3px"));
    let s = ctx.get_computed_style(p).unwrap();
    assert_eq!(s.get(PropertyId::Color), Some("red"));
    assert_eq!(s.get(PropertyId::Width), Some("3px"));
}

#[test]
fn user_agent_rules_then_author_rules() {
    let (doc, ctx, p) = styled("p { margin: 0; display: inline }", None);
    let s = ctx.get_computed_style(p).unwrap();
    assert_eq!(s.get(PropertyId::MarginTop), Some("0"));
    assert_eq!(s.display(), Display::Inline);
    let body = ctx.get_computed_style(doc.body().unwrap()).unwrap();
    assert_eq!(body.get(PropertyId::MarginLeft), Some("8px"));
    assert_eq!(body.get(PropertyId::FontSize), Some("16px"));
    assert_eq!(s.get(PropertyId::FontSize), Some("16px"));
    assert_eq!(s.get(PropertyId::MarginLeft), Some("0"));
    let root_style = ctx.get_computed_style(doc.root()).unwrap();
    assert_eq!(root_style.get(PropertyId::Display), None);
    assert!(ctx.get_computed_style(NodeId(77)).is_none());
}

#[test]
fn later_rule_wins_at_equal_specificity() {
    let (_, ctx, p) = styled("p { color: red } p { color: green }", None);
    assert_eq!(ctx.get_computed_style(p).unwrap().get(PropertyId::Color), Some("green"));
    let (_, ctx, p) = styled("body p { color: red } p { color: green }", None);
    assert_eq!(ctx.get_computed_style(p).unwrap().get(PropertyId::Color), Some("red"));
}

#[test]
fn style_elements_add_author_rules_and_rerunning_changes_nothing() {
    let mut doc = Document::new();
    let root = doc.root();
    let head = element(&mut doc, root, "head", &[]);
    let style = element(&mut doc, head, "style", &[]);
    text(&mut doc, style, "p { color: red } .x { color: blue; width: 5px }");
    let body = element(&mut doc, root, "body", &[]);
    let p = element(&mut doc, body, "p", &[("class", "x")]);
    let span = element(&mut doc, p, "span", &[("hidden", "")]);
    let mut ctx = StyleContext::new();
    ctx.apply_styles(&mut doc);
    let first: Vec<Option<String>> = [p, span, body]
        .iter()
        .flat_map(|id| {
            let s = ctx.get_computed_style(*id).unwrap();
            [PropertyId::Color, PropertyId::Width, PropertyId::Display]
                .map(|q| s.get(q).map(|v| v.to_string()))
        })
        .collect();
    assert_eq!(first[0].as_deref(), Some("blue"));
    assert_eq!(first[1].as_deref(), Some("5px"));
    assert_eq!(first[3].as_deref(), Some("blue"));
    assert_eq!(first[5].as_deref(), Some("none"));
    ctx.apply_styles(&mut doc);
    let second: Vec<Option<String>> = [p, span, body]
        .iter()
        .flat_map(|id| {
            let s = ctx.get_computed_style(*id).unwrap();
            [PropertyId::Color, PropertyId::Width, PropertyId::Display]
                .map(|q| s.get(q).map(|v| v.to_string()))
        })
        .collect();
    assert_eq!(first, second);
}

#[test]
fn changing_the_stylesheets_forgets_the_styles() {
    let (mut doc, mut ctx, p) = styled("p { color: red }", None);
    assert!(ctx.get_computed_style(p).is_some());
    ctx.add_stylesheet("p { color: blue }");
    assert!(ctx.get_computed_style(p).is_none());
    ctx.apply_styles(&mut doc);
    assert_eq!(ctx.get_computed_style(p).unwrap().get(PropertyId::Color), Some("blue"));
    ctx.clear_author_styles();
    assert!(ctx.get_computed_style(p).is_none());
    ctx.apply_styles(&mut doc);
    assert_eq!(ctx.get_computed_style(p).unwrap().get(PropertyId::Color), None);
    assert!(StyleContext::default().get_computed_style(p).is_none());
}

#[test]
fn box_tree_follows_display() {
    let mut doc = Document::new();
    let root = doc.root();
    let body = element(&mut doc, root, "body", &[]);
    let div = element(&mut doc, body, "div", &[]);
    let t = text(&mut doc, div, "hello");
    let gone = element(&mut doc, body, "div", &[("hidden", "")]);
    text(&mut doc, gone, "never");
    let through = element(&mut doc, body, "section", &[("style", "display: contents")]);
    let span = element(&mut doc, through, "em", &[]);
    let img = element(&mut doc, body, "img", &[]);
    let c = doc.create_comment("c");
    doc.append_child(body, c);
    let mut ctx = StyleContext::new();
    ctx.apply_styles(&mut doc);
    let tree = LayoutTree::build(&doc, &ctx);
    assert_eq!(tree.root(), LayoutId(0));
    let boxes = tree.nodes();
    let seen: Vec<(Option<NodeId>, BoxType)> = boxes.iter().map(|b| (b.dom_node, b.box_type)).collect();
    assert_eq!(
        seen,
        vec![
            (None, BoxType::Block),
            (Some(body), BoxType::Block),
            (Some(div), BoxType::Block),
            (Some(t), BoxType::Text),
            (Some(span), BoxType::Inline),
            (Some(img), BoxType::InlineBlock),
        ]
    );
    assert_eq!(boxes[0].children.to_vec(), vec![1]);
    assert_eq!(boxes[1].children.to_vec(), vec![2, 4, 5]);
    assert_eq!(boxes[2].children.to_vec(), vec![3]);
    assert_eq!(boxes[3].text.as_deref(), Some("hello"));
    assert_eq!(boxes[4].parent, Some(LayoutId(1)));
    assert_eq!(boxes[0].parent, None);
    assert_eq!(tree.get_node(LayoutId(3)).unwrap().id, LayoutId(3));
    assert!(tree.get_node(LayoutId(6)).is_none());
}

#[test]
fn box_tree_without_a_body_or_without_styles() {
    let doc = Document::new();
    let ctx = StyleContext::new();
    assert_eq!(LayoutTree::build(&doc, &ctx).nodes().len(), 1);
    let mut doc = Document::new();
    let root = doc.root();
    let body = element(&mut doc, root, "body", &[]);
    element(&mut doc, body, "em", &[]);
    let tree = LayoutTree::build(&doc, &ctx);
    assert_eq!(tree.nodes().len(), 3);
    assert_eq!(tree.nodes()[2].box_type, BoxType::Block);
}

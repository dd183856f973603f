use browser_core::css::selector::{AttributeOp, Combinator, Selector, SelectorPart, Specificity};
use browser_core::dom::document::Document;
use browser_core::dom::node::NodeId;

fn element(doc: &mut Document, parent: NodeId, tag: &str, attrs: &[(&str, &str)]) -> NodeId {
    let id = doc.create_element(tag, None);
    for (k, v) in attrs {
        doc.set_attribute(id, k.to_string(), v.to_string());
    }
    doc.append_child(parent, id);
    id
}

#[test]
fn child_combinator_asks_for_the_parent() {
    let mut doc = Document::new();
    let root = doc.root();
    let div = element(&mut doc, root, "div", &[("class", "foo")]);
    let direct = element(&mut doc, div, "p", &[]);
    let section = element(&mut doc, div, "section", &[]);
    let nested = element(&mut doc, section, "p", &[]);
    let sel = Selector::parse("div.foo > p").unwrap();
    assert!(sel.matches(&doc, direct));
    assert!(!sel.matches(&doc, nested));
    assert!(!sel.matches(&doc, div));
}

#[test]
fn descendant_combinator_reaches_any_depth() {
    let mut doc = Document::new();
    let root = doc.root();
    let ul = element(&mut doc, root, "ul", &[]);
    let li1 = element(&mut doc, ul, "li", &[]);
    let wrap = element(&mut doc, ul, "div", &[]);
    let inner = element(&mut doc, wrap, "span", &[]);
    let li2 = element(&mut doc, inner, "li", &[]);
    let ol = element(&mut doc, root, "ol", &[]);
    let li3 = element(&mut doc, ol, "li", &[]);
    let sel = Selector::parse("ul li").unwrap();
    assert!(sel.matches(&doc, li1));
    assert!(sel.matches(&doc, li2));
    assert!(!sel.matches(&doc, li3));
}

#[test]
fn sibling_combinators() {
    let mut doc = Document::new();
    let root = doc.root();
    let a = element(&mut doc, root, "h1", &[]);
    let b = element(&mut doc, root, "p", &[]);
    let c = element(&mut doc, root, "p", &[]);
    let adjacent = Selector::parse("h1 + p").unwrap();
    assert!(adjacent.matches(&doc, b));
    assert!(!adjacent.matches(&doc, c));
    assert!(!adjacent.matches(&doc, a));
    let general = Selector::parse("h1 ~ p").unwrap();
    assert!(general.matches(&doc, b));
    assert!(general.matches(&doc, c));
    assert!(!general.matches(&doc, a));
}

#[test]
fn three_compounds() {
    let mut doc = Document::new();
    let root = doc.root();
    let a = element(&mut doc, root, "article", &[]);
    let s = element(&mut doc, a, "section", &[]);
    let d = element(&mut doc, s, "div", &[]);
    let p = element(&mut doc, d, "p", &[]);
    let q = element(&mut doc, a, "p", &[]);
    let sel = Selector::parse("article > section p").unwrap();
    assert!(sel.matches(&doc, p));
    assert!(!sel.matches(&doc, q));
}

#[test]
fn groups_carry_the_combinator_that_follows() {
    let sel = Selector::parse("  div.foo > p ").unwrap();
    assert_eq!(sel.parts.len(), 2);
    assert_eq!(
        sel.parts[0].0,
        vec![SelectorPart::Type("div".to_string()), SelectorPart::Class("foo".to_string())]
    );
    assert_eq!(sel.parts[0].1, Some(Combinator::Child));
    assert_eq!(sel.parts[1].0, vec![SelectorPart::Type("p".to_string())]);
    assert_eq!(sel.parts[1].1, None);
}

#[test]
fn a_class_before_a_space_still_splits() {
    let sel = Selector::parse("ul.nav li").unwrap();
    assert_eq!(sel.parts.len(), 2);
    assert_eq!(sel.parts[0].1, Some(Combinator::Descendant));
    let both = Selector::parse("#main.wide").unwrap();
    assert_eq!(
        both.parts[0].0,
        vec![SelectorPart::Id("main".to_string()), SelectorPart::Class("wide".to_string())]
    );
}

#[test]
fn type_names_are_stored_in_lowercase() {
    let sel = Selector::parse("DIV").unwrap();
    assert_eq!(sel.parts[0].0, vec![SelectorPart::Type("div".to_string())]);
}

#[test]
fn empty_text_is_no_selector() {
    assert!(Selector::parse("").is_none());
    assert!(Selector::parse("   ").is_none());
    assert!(Selector::parse(">").is_none());
    assert!(Selector::parse("[]").is_none());
}

#[test]
fn specificity_counts() {
    let s = Selector::parse("#a .b[c] d:hover *").unwrap();
    assert_eq!(s.specificity(), Specificity::new(0, 1, 3, 1));
    assert_eq!(Selector::calculate_specificity(&s.parts), Specificity::new(0, 1, 3, 1));
    assert_eq!(Selector::parse("*").unwrap().specificity(), Specificity::new(0, 0, 0, 0));
}

#[test]
fn specificity_value_and_order() {
    assert_eq!(Specificity::new(1, 2, 3, 4).value(), 1020304);
    assert!(Specificity::new(0, 1, 0, 0) > Specificity::new(0, 0, 9, 9));
    assert!(Specificity::new(0, 1, 0, 0).ge(&Specificity::new(0, 0, 9, 9)));
    assert!(Specificity::new(0, 1, 0, 0).ge(&Specificity::new(0, 1, 0, 0)));
    assert!(!Specificity::new(0, 0, 9, 9).ge(&Specificity::new(0, 1, 0, 0)));
    assert_eq!(Specificity::default(), Specificity::new(0, 0, 0, 0));
}

#[test]
fn attribute_selectors_are_read() {
    let part = |s: &str| Selector::parse_attribute(s);
    assert_eq!(
        part(" hidden "),
        Some(SelectorPart::Attribute { name: "hidden".to_string(), op: None, value: None })
    );
    assert_eq!(part("  "), None);
    let ops = [
        ("a=\"x\"", AttributeOp::Exact),
        ("a~='x'", AttributeOp::Contains),
        ("a|=x", AttributeOp::StartsWith),
        ("a^=x", AttributeOp::Prefix),
        ("a$=x", AttributeOp::Suffix),
        ("a*=x", AttributeOp::Substring),
    ];
    for (text, op) in ops {
        assert_eq!(
            part(text),
            Some(SelectorPart::Attribute {
                name: "a".to_string(),
                op: Some(op),
                value: Some("x".to_string())
            })
        );
    }
}

#[test]
fn attribute_selectors_match() {
    let mut doc = Document::new();
    let root = doc.root();
    let a = element(&mut doc, root, "a", &[("lang", "en-GB"), ("rel", "next nofollow"), ("href", "https://x.org/page")]);
    let b = element(&mut doc, root, "a", &[("lang", "english")]);
    let yes = |s: &str, id: NodeId| Selector::parse(s).unwrap().matches(&doc, id);
    assert!(yes("[lang]", a));
    assert!(!yes("[title]", a));
    assert!(yes("[lang=\"en-GB\"]", a));
    assert!(!yes("[lang=\"en\"]", a));
    assert!(yes("[lang|=\"en\"]", a));
    assert!(!yes("[lang|=\"en\"]", b));
    assert!(yes("[rel~=\"nofollow\"]", a));
    assert!(!yes("[rel~=\"follow\"]", a));
    assert!(yes("[href^=\"https\"]", a));
    assert!(yes("[href$=\"page\"]", a));
    assert!(yes("[href*=\"x.org\"]", a));
    assert!(!yes("[href*=\"y.org\"]", a));
}

#[test]
fn pseudo_classes_never_match() {
    let mut doc = Document::new();
    let root = doc.root();
    let a = element(&mut doc, root, "a", &[]);
    let sel = Selector::parse("a:hover").unwrap();
    assert_eq!(
        sel.parts[0].0,
        vec![SelectorPart::Type("a".to_string()), SelectorPart::PseudoClass("hover".to_string())]
    );
    assert!(!sel.matches(&doc, a));
    assert!(Selector::parse("a").unwrap().matches(&doc, a));
    assert!(Selector::parse("*").unwrap().matches(&doc, a));
}

#[test]
fn id_and_class_match() {
    let mut doc = Document::new();
    let root = doc.root();
    let a = element(&mut doc, root, "div", &[("id", "main"), ("class", "x  wide\ty")]);
    let yes = |s: &str| Selector::parse(s).unwrap().matches(&doc, a);
    assert!(yes("#main"));
    assert!(!yes("#other"));
    assert!(yes(".wide"));
    assert!(yes("div.x.y"));
    assert!(!yes(".wid"));
    assert!(!Selector::parse("div").unwrap().matches(&doc, NodeId(99)));
}

use browser_core::dom::attributes::Attributes;
use browser_core::dom::document::Document;
use browser_core::dom::element::{Element, ElementQuery};
use browser_core::dom::node::{Node, NodeData, NodeId, NodeType};
use browser_core::dom::parser::{build_document, convert_node, MarkupNode, DEFAULT_NAMESPACE};
use browser_core::id_list::IdList;

fn el(tag: &str, attrs: &[(&str, &str)], children: Vec<MarkupNode>) -> MarkupNode {
    MarkupNode::Element {
        tag_name: tag.to_string(),
        namespace: DEFAULT_NAMESPACE.to_string(),
        attributes: attrs.iter().map(|(k, v)| (k.to_string(), v.to_string())).collect(),
        children,
    }
}

fn text(s: &str) -> MarkupNode {
    MarkupNode::Text { content: s.to_string() }
}

fn page() -> Document {
    let tree = MarkupNode::Document {
        children: vec![
            MarkupNode::Doctype,
            text("\n   "),
            el(
                "html",
                &[],
                vec![
                    el("head", &[], vec![el("title", &[], vec![text("  Test ")])]),
                    text("\n"),
                    el(
                        "body",
                        &[],
                        vec![
                            el("p", &[("id", "first"), ("class", "a b")], vec![text("Hello "), el("b", &[], vec![text("World")])]),
                            MarkupNode::Comment { content: "note".to_string() },
                            MarkupNode::ProcessingInstruction,
                            el("P", &[("id", "second"), ("id", "third")], vec![]),
                        ],
                    ),
                ],
            ),
        ],
    };
    build_document(&tree)
}

#[test]
fn a_new_document_holds_its_root() {
    let doc = Document::new();
    assert_eq!(doc.node_count(), 1);
    assert_eq!(doc.root(), NodeId(0));
    assert!(doc.head().is_none() && doc.body().is_none() && doc.document_element().is_none());
    assert_eq!(doc.get_node(NodeId(0)).unwrap().node_type(), NodeType::Document);
    assert!(doc.get_node(NodeId(1)).is_none());
    assert_eq!(doc.get_title(), None);
    assert_eq!(Document::default().node_count(), 1);
}

#[test]
fn created_nodes_get_the_next_index() {
    let mut doc = Document::new();
    let a = doc.create_element("DIV", Some("urn:x".to_string()));
    let b = doc.create_text("t");
    let c = doc.create_comment("c");
    assert_eq!((a, b, c), (NodeId(1), NodeId(2), NodeId(3)));
    let n = doc.get_node(a).unwrap();
    assert_eq!(n.tag_name(), Some("div"));
    assert!(n.is_element() && !n.is_text());
    assert!(n.parent.is_none() && n.children.is_empty());
    match &n.data {
        NodeData::Element { namespace, attributes, .. } => {
            assert_eq!(namespace.as_deref(), Some("urn:x"));
            assert!(attributes.is_empty());
        }
        _ => panic!("not an element"),
    }
    assert_eq!(doc.get_node(b).unwrap().text_content(), Some("t"));
    assert_eq!(doc.get_node(c).unwrap().node_type(), NodeType::Comment);
}

#[test]
fn append_child_links_both_ways() {
    let mut doc = Document::new();
    let root = doc.root();
    let a = doc.create_element("a", None);
    let b = doc.create_element("b", None);
    let c = doc.create_element("c", None);
    doc.append_child(root, a);
    doc.append_child(root, b);
    doc.append_child(root, c);
    let r = doc.get_node(root).unwrap();
    assert_eq!(r.children.to_vec(), vec![1, 2, 3]);
    let nb = doc.get_node(b).unwrap();
    assert_eq!(nb.parent, Some(root));
    assert_eq!(nb.prev_sibling, Some(a));
    assert_eq!(nb.next_sibling, Some(c));
    assert_eq!(doc.get_node(a).unwrap().prev_sibling, None);
    assert_eq!(doc.get_node(c).unwrap().next_sibling, None);
}

#[test]
fn append_child_with_ids_that_are_not_there() {
    let mut doc = Document::new();
    let a = doc.create_element("a", None);
    doc.append_child(NodeId(50), a);
    assert_eq!(doc.get_node(a).unwrap().parent, Some(NodeId(50)));
    doc.append_child(doc.root(), NodeId(60));
    assert_eq!(doc.get_node(doc.root()).unwrap().children.to_vec(), vec![60]);
    assert_eq!(doc.node_count(), 2);
}

#[test]
fn cached_elements_follow_append() {
    let doc = page();
    let html = doc.document_element().unwrap();
    let head = doc.head().unwrap();
    let body = doc.body().unwrap();
    assert_eq!(doc.get_node(html).unwrap().tag_name(), Some("html"));
    assert_eq!(doc.get_node(head).unwrap().tag_name(), Some("head"));
    assert_eq!(doc.get_node(body).unwrap().tag_name(), Some("body"));
}

#[test]
fn title_is_the_trimmed_text_of_the_title_in_head() {
    let doc = page();
    assert_eq!(doc.get_title(), Some("Test".to_string()));
    let mut other = Document::new();
    let root = other.root();
    let t = other.create_element("title", None);
    other.append_child(root, t);
    let x = other.create_text("outside head");
    other.append_child(t, x);
    assert_eq!(other.get_title(), None);
}

#[test]
fn title_joins_the_text_nodes() {
    let mut doc = Document::new();
    let root = doc.root();
    let head = doc.create_element("head", None);
    doc.append_child(root, head);
    let empty = doc.create_element("title", None);
    doc.append_child(head, empty);
    let title = doc.create_element("title", None);
    doc.append_child(head, title);
    let a = doc.create_text("  One");
    let b = doc.create_text(" Two  ");
    doc.append_child(title, a);
    doc.append_child(title, b);
    assert_eq!(doc.get_title(), Some("One Two".to_string()));
}

#[test]
fn whitespace_text_is_dropped_only_under_the_root() {
    let doc = page();
    let root = doc.get_node(doc.root()).unwrap();
    assert_eq!(root.children.len(), 1);
    let html = doc.get_node(doc.document_element().unwrap()).unwrap();
    assert_eq!(html.children.len(), 3);
    let kept = doc.get_node(NodeId(html.children.get(1).unwrap())).unwrap();
    assert_eq!(kept.text_content(), Some("\n"));
}

#[test]
fn queries_go_in_document_order() {
    let doc = page();
    let ps = doc.get_elements_by_tag_name("P");
    assert_eq!(ps.len(), 2);
    assert!(ps[0].0 < ps[1].0);
    assert_eq!(doc.get_elements_by_lowercase_tag("P").len(), 0);
    assert_eq!(doc.get_element_by_id("first"), Some(ps[0]));
    assert_eq!(doc.get_element_by_id("third"), Some(ps[1]));
    assert_eq!(doc.get_element_by_id("second"), None);
    assert_eq!(doc.get_text_content(ps[0]), "Hello World");
    assert_eq!(doc.get_text_content(doc.root()), "  Test \nHello World");
    assert_eq!(doc.get_text_content(NodeId(1000)), "");
}

#[test]
fn first_match_in_depth_wins_for_ids() {
    let mut doc = Document::new();
    let root = doc.root();
    let a = doc.create_element("a", None);
    let b = doc.create_element("b", None);
    let c = doc.create_element("c", None);
    doc.append_child(root, a);
    doc.append_child(a, b);
    doc.append_child(root, c);
    doc.set_attribute(b, "id".to_string(), "x".to_string());
    doc.set_attribute(c, "id".to_string(), "x".to_string());
    assert_eq!(doc.get_element_by_id("x"), Some(b));
}

#[test]
fn namespaces_other_than_the_default_are_kept() {
    let mut doc = Document::new();
    let root = doc.root();
    let svg = MarkupNode::Element {
        tag_name: "svg".to_string(),
        namespace: "http://www.w3.org/2000/svg".to_string(),
        attributes: vec![],
        children: vec![],
    };
    convert_node(&svg, &mut doc, root);
    convert_node(&el("div", &[], vec![]), &mut doc, root);
    match &doc.get_node(NodeId(1)).unwrap().data {
        NodeData::Element { namespace, .. } => {
            assert_eq!(namespace.as_deref(), Some("http://www.w3.org/2000/svg"))
        }
        _ => panic!("not an element"),
    }
    match &doc.get_node(NodeId(2)).unwrap().data {
        NodeData::Element { namespace, .. } => assert!(namespace.is_none()),
        _ => panic!("not an element"),
    }
}

#[test]
fn get_node_mut_changes_the_node_in_place() {
    let mut doc = Document::new();
    let a = doc.create_element("a", None);
    doc.get_node_mut(a).unwrap().set_attribute("href".to_string(), "x".to_string());
    assert_eq!(doc.get_node(a).unwrap().get_attribute("href"), Some("x"));
    assert!(doc.get_node_mut(NodeId(9)).is_none());
    assert!(doc.get_node(a).unwrap().attribute_is("href", "x"));
    assert!(doc.get_node(a).unwrap().has_tag("a"));
    assert_eq!(doc.nodes().len(), 2);
}

#[test]
fn attributes_behave_as_a_map() {
    let mut a = Attributes::new();
    assert!(a.is_empty());
    a.set("Class".to_string(), "x".to_string());
    a.set("class".to_string(), "one  two".to_string());
    a.set("class".to_string(), "three four".to_string());
    a.set("id".to_string(), "me".to_string());
    assert_eq!(a.len(), 3);
    assert_eq!(a.get("class"), Some("three four"));
    assert_eq!(a.get("Class"), Some("x"));
    assert_eq!(a.get("missing"), None);
    assert!(a.contains("id") && !a.contains("ID"));
    assert_eq!(a.id(), Some("me"));
    assert!(a.has_class("four") && !a.has_class("one") && !a.has_class("three four"));
    let classes: Vec<String> = a.classes().iter().map(|c| c.iter().collect()).collect();
    assert_eq!(classes, vec!["three", "four"]);
    let mut pairs = a.iter();
    pairs.sort();
    assert_eq!(pairs.len(), 3);
    assert_eq!(pairs[0], ("Class".to_string(), "x".to_string()));
    let copy = a.clone();
    assert_eq!(a.remove("id"), Some("me".to_string()));
    assert_eq!(a.remove("id"), None);
    assert_eq!(a.len(), 2);
    assert_eq!(copy.len(), 3);
    assert!(Attributes::with_capacity(4).is_empty());
    assert!(Attributes::default().classes().is_empty());
}

#[test]
fn id_lists_keep_their_order() {
    let mut list = IdList::new();
    assert!(list.is_empty() && list.last().is_none());
    for i in 0..20 {
        list.push(i * 2);
    }
    assert_eq!(list.len(), 20);
    assert_eq!(list.get(3), Some(6));
    assert_eq!(list.get(20), None);
    assert_eq!(list.last(), Some(38));
    let copy = list.clone();
    list.push(1);
    assert_eq!(copy.to_vec().len(), 20);
    assert_eq!(list.to_vec()[20], 1);
}

#[test]
fn element_classes() {
    let e = Element::new("BR".to_string(), None);
    assert_eq!(e.tag_name, "br");
    assert!(e.is_void_element() && e.is_inline() && !e.creates_block_context());
    let d = Element::with_attributes("div".to_string(), None, Attributes::new());
    assert!(d.creates_block_context() && !d.is_inline() && !d.is_void_element());
}

#[test]
fn simple_selector_queries() {
    let mut a = Attributes::new();
    a.set("id".to_string(), "main".to_string());
    a.set("class".to_string(), "wide tall".to_string());
    assert!(ElementQuery::matches_selector("div", &a, " #main "));
    assert!(!ElementQuery::matches_selector("div", &a, "#other"));
    assert!(ElementQuery::matches_selector("div", &a, ".tall"));
    assert!(!ElementQuery::matches_selector("div", &a, ".small"));
    assert!(ElementQuery::matches_selector("div", &a, "DIV"));
    assert!(!ElementQuery::matches_selector("div", &a, "span"));
}

#[test]
fn a_node_on_its_own() {
    let n = Node::new(NodeId::new(7), NodeData::Text { content: "x".to_string() });
    assert_eq!(n.id.index(), 7);
    assert_eq!(n.node_type(), NodeType::Text);
    assert!(n.attributes().is_none() && n.tag_name().is_none());
    assert_eq!(n.get_attribute("id"), None);
}

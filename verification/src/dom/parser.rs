//! Building a document from the tree that a markup parser hands over.

use crate::dom::attributes::no_attributes;
use crate::dom::document::{
    appended, empty_document, lemma_append_keeps_links, lemma_create_keeps_links,
    lemma_empty_document_links, lemma_links_agree_by_links, links_agree, same_links, with_node,
    Document, DocumentModel,
};
use crate::dom::node::{with_attribute_set, DataModel, NodeId};
use crate::text::{lowercase_of, str_eq, to_chars, trim, trimmed};
use vstd::prelude::*;

verus! {

/// A node of the tree that a markup parser produces.
#[derive(Debug)]
pub enum MarkupNode {
    /// The root of a parsed document, with what is directly inside.
    Document { children: Vec<MarkupNode> },
    /// A document type declaration.
    Doctype,
    /// A run of text.
    Text { content: String },
    /// A comment.
    Comment { content: String },
    /// An element: its local name, its namespace, its attributes in the
    /// order they were written, and what is inside.
    Element {
        tag_name: String,
        namespace: String,
        attributes: Vec<(String, String)>,
        children: Vec<MarkupNode>,
    },
    /// A processing instruction.
    ProcessingInstruction,
}

/// The namespace that elements have where none is given.
pub const DEFAULT_NAMESPACE: &'static str = "http://www.w3.org/1999/xhtml";

impl MarkupNode {
    /// The nodes directly inside.
    pub open spec fn inner(self) -> Seq<MarkupNode> {
        match self {
            MarkupNode::Document { children } => children@,
            MarkupNode::Element { children, .. } => children@,
            _ => Seq::empty(),
        }
    }
}

/// The namespace stored with an element: none for the default one.
pub open spec fn stored_namespace(namespace: Seq<char>) -> Option<Seq<char>> {
    if namespace == DEFAULT_NAMESPACE@ {
        None
    } else {
        Some(namespace)
    }
}

/// The document with the first `k` of the attributes set on node `id`, in
/// order, so that of two with one name the later stays.
pub open spec fn with_attributes(d: DocumentModel, id: NodeId, attrs: Seq<(String, String)>, k: nat) -> DocumentModel
    decreases k,
{
    if k == 0 || k > attrs.len() || id.0 >= d.nodes.len() {
        d
    } else {
        let before = with_attributes(d, id, attrs, (k - 1) as nat);
        DocumentModel {
            nodes: before.nodes.update(
                id.0 as int,
                with_attribute_set(
                    before.nodes[id.0 as int],
                    attrs[k - 1].0@,
                    attrs[k - 1].1@,
                ),
            ),
            ..before
        }
    }
}

/// Whether a text found directly under `parent` is kept: white space alone
/// is dropped directly under the root of the arena.
pub open spec fn keeps_text(content: Seq<char>, parent: NodeId) -> bool {
    trimmed(content).len() > 0 || parent.0 > 0
}

/// The document once the markup node and all inside it are added under
/// `parent`. What is inside a document root goes directly under `parent`.
/// Text becomes a text node, unless it is dropped; a comment becomes a
/// comment. An element becomes an element with its attributes, is appended
/// under `parent`, and what is inside it goes under it. Document types and
/// processing instructions add nothing.
pub open spec fn converted(d: DocumentModel, node: MarkupNode, parent: NodeId) -> DocumentModel
    decreases node, node.inner().len() + 1,
{
    match node {
        MarkupNode::Document { children } => converted_inner(d, node, children@.len(), parent),
        MarkupNode::Doctype => d,
        MarkupNode::Text { content } => if keeps_text(content@, parent) {
            appended(
                with_node(d, DataModel::Text { content: content@ }),
                parent,
                NodeId(d.nodes.len() as usize),
            )
        } else {
            d
        },
        MarkupNode::Comment { content } => appended(
            with_node(d, DataModel::Comment { content: content@ }),
            parent,
            NodeId(d.nodes.len() as usize),
        ),
        MarkupNode::Element { tag_name, namespace, attributes, children } => {
            let id = NodeId(d.nodes.len() as usize);
            let created = with_node(
                d,
                DataModel::Element {
                    tag_name: lowercase_of(tag_name@),
                    namespace: stored_namespace(namespace@),
                    attributes: no_attributes(),
                },
            );
            let dressed = with_attributes(created, id, attributes@, attributes@.len());
            converted_inner(appended(dressed, parent, id), node, children@.len(), id)
        },
        MarkupNode::ProcessingInstruction => d,
    }
}

/// The document once the first `k` of the nodes inside `node` and all
/// inside them are added under `parent`, in order.
pub open spec fn converted_inner(d: DocumentModel, node: MarkupNode, k: nat, parent: NodeId) -> DocumentModel
    decreases node, k,
{
    if k == 0 || k > node.inner().len() {
        d
    } else {
        converted(converted_inner(d, node, (k - 1) as nat, parent), node.inner()[k - 1], parent)
    }
}

fn set_attributes(document: &mut Document, id: NodeId, attrs: &Vec<(String, String)>)
    requires
        id.0 < old(document)@.nodes.len(),
    ensures
        final(document)@ == with_attributes(old(document)@, id, attrs@, attrs@.len()),
{
    let mut k: usize = 0;
    while k < attrs.len()
        invariant
            k <= attrs.len(),
            id.0 < old(document)@.nodes.len(),
            document@.nodes.len() == old(document)@.nodes.len(),
            document@ == with_attributes(old(document)@, id, attrs@, k as nat),
        decreases attrs.len() - k,
    {
        document.set_attribute(id, attrs[k].0.clone(), attrs[k].1.clone());
        k += 1;
    }
}

fn convert_inner(node: &MarkupNode, children: &Vec<MarkupNode>, document: &mut Document, parent_id: NodeId)
    requires
        children@ == node.inner(),
        node is Document || node is Element,
    ensures
        final(document)@ == converted_inner(old(document)@, *node, children@.len(), parent_id),
    decreases *node, children@.len(),
{
    let mut k: usize = 0;
    while k < children.len()
        invariant
            k <= children.len(),
            children@ == node.inner(),
            document@ == converted_inner(old(document)@, *node, k as nat, parent_id),
        decreases children.len() - k,
    {
        convert_node(&children[k], document, parent_id);
        k += 1;
    }
}

/// Adds a markup node and all inside it to the document, under
/// `parent_id`.
pub fn convert_node(node: &MarkupNode, document: &mut Document, parent_id: NodeId)
    ensures
        final(document)@ == converted(old(document)@, *node, parent_id),
    decreases *node, node.inner().len() + 1,
{
    match node {
        MarkupNode::Document { children } => {
            convert_inner(node, children, document, parent_id);
        },
        MarkupNode::Doctype => {},
        MarkupNode::Text { content } => {
            let bare = trim(&to_chars(content.as_str()));
            if bare.len() > 0 || parent_id.0 > 0 {
                let id = document.create_text(content.as_str());
                document.append_child(parent_id, id);
            }
        },
        MarkupNode::Comment { content } => {
            let id = document.create_comment(content.as_str());
            document.append_child(parent_id, id);
        },
        MarkupNode::Element { tag_name, namespace, attributes, children } => {
            let stored = if str_eq(namespace.as_str(), DEFAULT_NAMESPACE) {
                None
            } else {
                Some(namespace.clone())
            };
            let id = document.create_element(tag_name.as_str(), stored);
            set_attributes(document, id, attributes);
            document.append_child(parent_id, id);
            convert_inner(node, children, document, id);
        },
        MarkupNode::ProcessingInstruction => {},
    }
}

/// The document that a parsed tree stands for.
pub fn build_document(tree: &MarkupNode) -> (document: Document)
    ensures
        document@ == converted(empty_document(), *tree, NodeId(0)),
{
    let mut document = Document::new();
    let root = document.root();
    convert_node(tree, &mut document, root);
    document
}

proof fn lemma_attributes_keep_links(d: DocumentModel, id: NodeId, attrs: Seq<(String, String)>, k: nat)
    ensures
        same_links(d.nodes, with_attributes(d, id, attrs, k).nodes),
    decreases k,
{
    if k == 0 || k > attrs.len() || id.0 >= d.nodes.len() {
    } else {
        lemma_attributes_keep_links(d, id, attrs, (k - 1) as nat);
    }
}

/// Adding markup never takes a node away.
pub proof fn lemma_converted_grows(d: DocumentModel, node: MarkupNode, parent: NodeId)
    ensures
        converted(d, node, parent).nodes.len() >= d.nodes.len(),
    decreases node, node.inner().len() + 1,
{
    match node {
        MarkupNode::Document { children } => {
            lemma_converted_inner_grows(d, node, children@.len(), parent);
        },
        MarkupNode::Element { tag_name, namespace, attributes, children } => {
            let id = NodeId(d.nodes.len() as usize);
            let created = with_node(
                d,
                DataModel::Element {
                    tag_name: lowercase_of(tag_name@),
                    namespace: stored_namespace(namespace@),
                    attributes: no_attributes(),
                },
            );
            lemma_attributes_keep_links(created, id, attributes@, attributes@.len());
            let dressed = with_attributes(created, id, attributes@, attributes@.len());
            lemma_converted_inner_grows(appended(dressed, parent, id), node, children@.len(), id);
        },
        _ => {},
    }
}

proof fn lemma_converted_inner_grows(d: DocumentModel, node: MarkupNode, k: nat, parent: NodeId)
    ensures
        converted_inner(d, node, k, parent).nodes.len() >= d.nodes.len(),
    decreases node, k,
{
    if k == 0 || k > node.inner().len() {
    } else {
        lemma_converted_inner_grows(d, node, (k - 1) as nat, parent);
        lemma_converted_grows(
            converted_inner(d, node, (k - 1) as nat, parent),
            node.inner()[k - 1],
            parent,
        );
    }
}

/// A document whose links agree still has links that agree once markup is
/// added to it under one of its nodes, as long as its nodes can be counted
/// in a `usize`.
pub proof fn lemma_converted_links(d: DocumentModel, node: MarkupNode, parent: NodeId)
    requires
        links_agree(d.nodes),
        parent.0 < d.nodes.len(),
        converted(d, node, parent).nodes.len() <= usize::MAX,
    ensures
        links_agree(converted(d, node, parent).nodes),
    decreases node, node.inner().len() + 1,
{
    lemma_converted_grows(d, node, parent);
    match node {
        MarkupNode::Document { children } => {
            lemma_converted_inner_links(d, node, children@.len(), parent);
        },
        MarkupNode::Doctype => {},
        MarkupNode::Text { content } => {
            if keeps_text(content@, parent) {
                let data = DataModel::Text { content: content@ };
                lemma_create_keeps_links(d, data);
                lemma_append_keeps_links(with_node(d, data), parent, NodeId(d.nodes.len() as usize));
            }
        },
        MarkupNode::Comment { content } => {
            let data = DataModel::Comment { content: content@ };
            lemma_create_keeps_links(d, data);
            lemma_append_keeps_links(with_node(d, data), parent, NodeId(d.nodes.len() as usize));
        },
        MarkupNode::Element { tag_name, namespace, attributes, children } => {
            let id = NodeId(d.nodes.len() as usize);
            let data = DataModel::Element {
                tag_name: lowercase_of(tag_name@),
                namespace: stored_namespace(namespace@),
                attributes: no_attributes(),
            };
            let created = with_node(d, data);
            lemma_create_keeps_links(d, data);
            let dressed = with_attributes(created, id, attributes@, attributes@.len());
            lemma_attributes_keep_links(created, id, attributes@, attributes@.len());
            lemma_links_agree_by_links(created.nodes, dressed.nodes);
            let linked = appended(dressed, parent, id);
            lemma_converted_inner_grows(linked, node, children@.len(), id);
            assert(id.0 == d.nodes.len());
            assert(created.nodes[id.0 as int].parent is None);
            assert(dressed.nodes[id.0 as int].parent == created.nodes[id.0 as int].parent);
            lemma_append_keeps_links(dressed, parent, id);
            lemma_converted_inner_links(linked, node, children@.len(), id);
        },
        MarkupNode::ProcessingInstruction => {},
    }
}

proof fn lemma_converted_inner_links(d: DocumentModel, node: MarkupNode, k: nat, parent: NodeId)
    requires
        links_agree(d.nodes),
        parent.0 < d.nodes.len(),
        converted_inner(d, node, k, parent).nodes.len() <= usize::MAX,
    ensures
        links_agree(converted_inner(d, node, k, parent).nodes),
    decreases node, k,
{
    if k == 0 || k > node.inner().len() {
    } else {
        let before = converted_inner(d, node, (k - 1) as nat, parent);
        lemma_converted_inner_grows(d, node, (k - 1) as nat, parent);
        lemma_converted_grows(before, node.inner()[k - 1], parent);
        lemma_converted_inner_links(d, node, (k - 1) as nat, parent);
        lemma_converted_links(before, node.inner()[k - 1], parent);
    }
}

/// The links of a document built from a parsed tree agree.
pub proof fn lemma_built_document_links(tree: MarkupNode)
    requires
        converted(empty_document(), tree, NodeId(0)).nodes.len() <= usize::MAX,
    ensures
        links_agree(converted(empty_document(), tree, NodeId(0)).nodes),
{
    lemma_empty_document_links();
    lemma_converted_links(empty_document(), tree, NodeId(0));
}

} // verus!

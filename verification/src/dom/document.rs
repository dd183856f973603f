//! The document: it owns every node and links them by index.

use crate::dom::attributes::{no_attributes, Attributes};
use crate::dom::node::{
    optional_text, unlinked, with_attribute_set, DataModel, Node, NodeData, NodeId, NodeModel,
};
use crate::text::{from_chars, lowercase_of, str_to_lowercase, to_chars, trim, trimmed};
use vstd::prelude::*;
use vstd::string::StringExecFns;

verus! {

/// A document as plain values: its nodes by index and the cached elements.
pub struct DocumentModel {
    pub nodes: Seq<NodeModel>,
    pub root: NodeId,
    pub document_element: Option<NodeId>,
    pub head: Option<NodeId>,
    pub body: Option<NodeId>,
}

/// The document. Nodes are appended and never removed, so an identifier
/// stays valid for the life of the document that gave it.
#[derive(Debug)]
pub struct Document {
    nodes: Vec<Node>,
    root: NodeId,
    document_element: Option<NodeId>,
    head: Option<NodeId>,
    body: Option<NodeId>,
}

/// The models of a list of nodes.
pub open spec fn node_models(nodes: Seq<Node>) -> Seq<NodeModel> {
    nodes.map_values(|n: Node| n@)
}

impl View for Document {
    type V = DocumentModel;

    closed spec fn view(&self) -> DocumentModel {
        DocumentModel {
            nodes: node_models(self.nodes@),
            root: self.root,
            document_element: self.document_element,
            head: self.head,
            body: self.body,
        }
    }
}

/// The nodes with `next` as the sibling after node `i`, where `i` exists.
pub open spec fn set_next(nodes: Seq<NodeModel>, i: int, next: NodeId) -> Seq<NodeModel> {
    if 0 <= i < nodes.len() {
        nodes.update(i, NodeModel { next_sibling: Some(next), ..nodes[i] })
    } else {
        nodes
    }
}

/// The nodes with `prev` as the sibling before node `i`, where `i` exists.
pub open spec fn set_prev(nodes: Seq<NodeModel>, i: int, prev: NodeId) -> Seq<NodeModel> {
    if 0 <= i < nodes.len() {
        nodes.update(i, NodeModel { prev_sibling: Some(prev), ..nodes[i] })
    } else {
        nodes
    }
}

/// The nodes with `parent` as the parent of node `i`, where `i` exists.
pub open spec fn set_parent(nodes: Seq<NodeModel>, i: int, parent: NodeId) -> Seq<NodeModel> {
    if 0 <= i < nodes.len() {
        nodes.update(i, NodeModel { parent: Some(parent), ..nodes[i] })
    } else {
        nodes
    }
}

/// The nodes with `child` added as the last child of node `i`, where `i`
/// exists.
pub open spec fn push_child(nodes: Seq<NodeModel>, i: int, child: usize) -> Seq<NodeModel> {
    if 0 <= i < nodes.len() {
        nodes.update(i, NodeModel { children: nodes[i].children.push(child), ..nodes[i] })
    } else {
        nodes
    }
}

/// The nodes once `child` is linked behind the last child that `parent`
/// has so far, if it has one.
pub open spec fn linked_to_last(nodes: Seq<NodeModel>, parent: NodeId, child: NodeId) -> Seq<
    NodeModel,
> {
    if parent.0 < nodes.len() && nodes[parent.0 as int].children.len() > 0 {
        let last = nodes[parent.0 as int].children.last();
        set_prev(set_next(nodes, last as int, child), child.0 as int, NodeId(last))
    } else {
        nodes
    }
}

/// The tag name of node `i`, where it exists and is an element.
pub open spec fn tag_at(nodes: Seq<NodeModel>, i: NodeId) -> Option<Seq<char>> {
    if i.0 < nodes.len() {
        nodes[i.0 as int].data.tag()
    } else {
        None
    }
}

/// The document once `child` is appended under `parent`: the child becomes
/// the next sibling of the last child so far, takes `parent` as its parent
/// and joins the parent's children at the end; an `html`, `head` or `body`
/// element is remembered as such. Each step is left out where the node it
/// would change does not exist.
pub open spec fn appended(d: DocumentModel, parent: NodeId, child: NodeId) -> DocumentModel {
    let nodes = push_child(
        set_parent(linked_to_last(d.nodes, parent, child), child.0 as int, parent),
        parent.0 as int,
        child.0,
    );
    let tag = tag_at(nodes, child);
    DocumentModel {
        nodes,
        root: d.root,
        document_element: if tag == Some("html"@) {
            Some(child)
        } else {
            d.document_element
        },
        head: if tag == Some("head"@) {
            Some(child)
        } else {
            d.head
        },
        body: if tag == Some("body"@) {
            Some(child)
        } else {
            d.body
        },
    }
}

/// The document that holds its root and nothing else.
pub open spec fn empty_document() -> DocumentModel {
    DocumentModel {
        nodes: seq![unlinked(NodeId(0), DataModel::Document)],
        root: NodeId(0),
        document_element: None,
        head: None,
        body: None,
    }
}

/// The document with one more node, which holds `data` and is linked to
/// nothing.
pub open spec fn with_node(d: DocumentModel, data: DataModel) -> DocumentModel {
    DocumentModel { nodes: d.nodes.push(unlinked(NodeId(d.nodes.len() as usize), data)), ..d }
}

/// The elements with tag name `tag` among node `id` and what is below it,
/// in document order, going at most `fuel` levels down.
pub open spec fn tagged(nodes: Seq<NodeModel>, id: usize, tag: Seq<char>, fuel: nat) -> Seq<NodeId>
    decreases fuel, 0nat,
{
    if fuel == 0 || id >= nodes.len() {
        Seq::empty()
    } else {
        let own = if nodes[id as int].data.tag() == Some(tag) {
            seq![NodeId(id)]
        } else {
            Seq::empty()
        };
        own + tagged_among(nodes, nodes[id as int].children, tag, (fuel - 1) as nat)
    }
}

/// The elements with tag name `tag` among the nodes `ids` and what is below
/// them, in order.
pub open spec fn tagged_among(nodes: Seq<NodeModel>, ids: Seq<usize>, tag: Seq<char>, fuel: nat) -> Seq<
    NodeId,
>
    decreases fuel, ids.len() + 1,
{
    if ids.len() == 0 {
        Seq::empty()
    } else {
        tagged_among(nodes, ids.drop_last(), tag, fuel) + tagged(nodes, ids.last(), tag, fuel)
    }
}

/// The first node in document order, among node `id` and what is below it,
/// whose `id` attribute is `key`.
pub open spec fn found(nodes: Seq<NodeModel>, id: usize, key: Seq<char>, fuel: nat) -> Option<
    NodeId,
>
    decreases fuel, 0nat,
{
    if fuel == 0 || id >= nodes.len() {
        None
    } else if nodes[id as int].data.attribute("id"@) == Some(key) {
        Some(NodeId(id))
    } else {
        found_among(nodes, nodes[id as int].children, key, (fuel - 1) as nat)
    }
}

/// The first node in document order, among the nodes `ids` and what is
/// below them, whose `id` attribute is `key`.
pub open spec fn found_among(nodes: Seq<NodeModel>, ids: Seq<usize>, key: Seq<char>, fuel: nat) -> Option<
    NodeId,
>
    decreases fuel, ids.len() + 1,
{
    if ids.len() == 0 {
        None
    } else {
        match found_among(nodes, ids.drop_last(), key, fuel) {
            Some(n) => Some(n),
            None => found(nodes, ids.last(), key, fuel),
        }
    }
}

/// The text of node `id` and of what is below it, in document order.
pub open spec fn text_under(nodes: Seq<NodeModel>, id: usize, fuel: nat) -> Seq<char>
    decreases fuel, 0nat,
{
    if fuel == 0 || id >= nodes.len() {
        Seq::empty()
    } else {
        let own = match nodes[id as int].data.text() {
            Some(t) => t,
            None => Seq::empty(),
        };
        own + text_among(nodes, nodes[id as int].children, (fuel - 1) as nat)
    }
}

/// The text of the nodes `ids` and of what is below them, in order.
pub open spec fn text_among(nodes: Seq<NodeModel>, ids: Seq<usize>, fuel: nat) -> Seq<char>
    decreases fuel, ids.len() + 1,
{
    if ids.len() == 0 {
        Seq::empty()
    } else {
        text_among(nodes, ids.drop_last(), fuel) + text_under(nodes, ids.last(), fuel)
    }
}

/// The text of node `i`, where it exists and is a text node.
pub open spec fn text_at(nodes: Seq<NodeModel>, i: usize) -> Option<Seq<char>> {
    if i < nodes.len() {
        nodes[i as int].data.text()
    } else {
        None
    }
}

/// Whether one of the nodes `ids` is a text node.
pub open spec fn has_text(nodes: Seq<NodeModel>, ids: Seq<usize>) -> bool {
    exists|k: int| 0 <= k < ids.len() && (#[trigger] text_at(nodes, ids[k])) is Some
}

/// The texts of the text nodes among `ids`, joined in order.
pub open spec fn joined_text(nodes: Seq<NodeModel>, ids: Seq<usize>) -> Seq<char>
    decreases ids.len(),
{
    if ids.len() == 0 {
        Seq::empty()
    } else {
        joined_text(nodes, ids.drop_last()) + match text_at(nodes, ids.last()) {
            Some(t) => t,
            None => Seq::empty(),
        }
    }
}

/// The title that node `i` gives: it is a `title` element with a text node
/// among its children, and the title is their joined text without the white
/// space around it.
pub open spec fn title_at(nodes: Seq<NodeModel>, i: usize) -> Option<Seq<char>> {
    if i < nodes.len() && nodes[i as int].data.tag() == Some("title"@) && has_text(
        nodes,
        nodes[i as int].children,
    ) {
        Some(trimmed(joined_text(nodes, nodes[i as int].children)))
    } else {
        None
    }
}

/// The title that the first of the nodes `ids` to give one gives.
pub open spec fn title_among(nodes: Seq<NodeModel>, ids: Seq<usize>) -> Option<Seq<char>>
    decreases ids.len(),
{
    if ids.len() == 0 {
        None
    } else {
        match title_among(nodes, ids.drop_last()) {
            Some(t) => Some(t),
            None => title_at(nodes, ids.last()),
        }
    }
}

/// The title of the document: the one that the first child of its `head`
/// to give one gives.
pub open spec fn title_of(d: DocumentModel) -> Option<Seq<char>> {
    match d.head {
        Some(h) => if h.0 < d.nodes.len() {
            title_among(d.nodes, d.nodes[h.0 as int].children)
        } else {
            None
        },
        None => None,
    }
}

proof fn lemma_models_update(nodes: Seq<Node>, i: int, n: Node)
    requires
        0 <= i < nodes.len(),
    ensures
        node_models(nodes.update(i, n)) == node_models(nodes).update(i, n@),
{
    assert(node_models(nodes.update(i, n)) =~= node_models(nodes).update(i, n@));
}

proof fn lemma_models_push(nodes: Seq<Node>, n: Node)
    ensures
        node_models(nodes.push(n)) == node_models(nodes).push(n@),
{
    assert(node_models(nodes.push(n)) =~= node_models(nodes).push(n@));
}

impl Document {
    /// A document that holds its root and nothing else.
    pub fn new() -> (doc: Self)
        ensures
            doc@ == empty_document(),
    {
        let mut nodes: Vec<Node> = Vec::with_capacity(256);
        let root = Node::new(NodeId(0), NodeData::Document);
        proof {
            lemma_models_push(nodes@, root);
            assert(node_models(nodes@) =~= Seq::<NodeModel>::empty());
        }
        nodes.push(root);
        assert(node_models(nodes@) =~= seq![unlinked(NodeId(0), DataModel::Document)]);
        Document { nodes, root: NodeId(0), document_element: None, head: None, body: None }
    }

    /// The identifier of the root.
    pub fn root(&self) -> (r: NodeId)
        ensures
            r == self@.root,
    {
        self.root
    }

    /// The `html` element appended last, if any was.
    pub fn document_element(&self) -> (r: Option<NodeId>)
        ensures
            r == self@.document_element,
    {
        self.document_element
    }

    /// The `head` element appended last, if any was.
    pub fn head(&self) -> (r: Option<NodeId>)
        ensures
            r == self@.head,
    {
        self.head
    }

    /// The `body` element appended last, if any was.
    pub fn body(&self) -> (r: Option<NodeId>)
        ensures
            r == self@.body,
    {
        self.body
    }

    /// The node with this identifier, if the document has one.
    pub fn get_node(&self, id: NodeId) -> (r: Option<&Node>)
        ensures
            r is Some <==> id.0 < self@.nodes.len(),
            r is Some ==> r->0@ == self@.nodes[id.0 as int],
    {
        self.nodes.get(id.0)
    }

    /// The node with this identifier, to be changed in place.
    pub fn get_node_mut(&mut self, id: NodeId) -> (r: Option<&mut Node>)
        ensures
            r is Some <==> id.0 < old(self)@.nodes.len(),
            r is None ==> final(self)@ == old(self)@,
            r is Some ==> (*r->0)@ == old(self)@.nodes[id.0 as int],
            r is Some ==> final(self)@ == (DocumentModel {
                nodes: old(self)@.nodes.update(id.0 as int, (*final(r->0))@),
                ..old(self)@
            }),
    {
        if id.0 < self.nodes.len() {
            let ghost before = self.nodes@;
            let node = &mut self.nodes[id.0];
            proof {
                lemma_models_update(before, id.0 as int, *final(node));
            }
            Some(node)
        } else {
            None
        }
    }

    /// The number of nodes.
    pub fn node_count(&self) -> (n: usize)
        ensures
            n == self@.nodes.len(),
    {
        self.nodes.len()
    }

    /// All nodes, by index.
    pub fn nodes(&self) -> (r: &Vec<Node>)
        ensures
            node_models(r@) == self@.nodes,
    {
        &self.nodes
    }

    fn push_node(&mut self, data: NodeData) -> (id: NodeId)
        ensures
            id.0 == old(self)@.nodes.len(),
            final(self)@ == with_node(old(self)@, data@),
    {
        let id = NodeId(self.nodes.len());
        let node = Node::new(id, data);
        proof {
            lemma_models_push(self.nodes@, node);
        }
        self.nodes.push(node);
        id
    }

    /// Adds an element, its tag name in lowercase and without attributes,
    /// and returns its identifier. It is linked to nothing yet.
    pub fn create_element(&mut self, tag_name: &str, namespace: Option<String>) -> (id: NodeId)
        ensures
            id.0 == old(self)@.nodes.len(),
            final(self)@ == with_node(
                old(self)@,
                DataModel::Element {
                    tag_name: lowercase_of(tag_name@),
                    namespace: optional_text(namespace),
                    attributes: no_attributes(),
                },
            ),
    {
        let tag = str_to_lowercase(tag_name);
        self.push_node(NodeData::Element { tag_name: tag, namespace, attributes: Attributes::new() })
    }

    /// Adds a text node and returns its identifier.
    pub fn create_text(&mut self, content: &str) -> (id: NodeId)
        ensures
            id.0 == old(self)@.nodes.len(),
            final(self)@ == with_node(old(self)@, DataModel::Text { content: content@ }),
    {
        self.push_node(NodeData::Text { content: content.to_string() })
    }

    /// Adds a comment and returns its identifier.
    pub fn create_comment(&mut self, content: &str) -> (id: NodeId)
        ensures
            id.0 == old(self)@.nodes.len(),
            final(self)@ == with_node(old(self)@, DataModel::Comment { content: content@ }),
    {
        self.push_node(NodeData::Comment { content: content.to_string() })
    }

    /// Sets an attribute of the element `node_id`. Nothing changes where
    /// there is no such node or it is no element.
    pub fn set_attribute(&mut self, node_id: NodeId, name: String, value: String)
        ensures
            final(self)@ == (DocumentModel {
                nodes: if node_id.0 < old(self)@.nodes.len() {
                    old(self)@.nodes.update(
                        node_id.0 as int,
                        with_attribute_set(old(self)@.nodes[node_id.0 as int], name@, value@),
                    )
                } else {
                    old(self)@.nodes
                },
                ..old(self)@
            }),
    {
        if node_id.0 < self.nodes.len() {
            let ghost before = self.nodes@;
            let node = &mut self.nodes[node_id.0];
            node.set_attribute(name, value);
            proof {
                lemma_models_update(before, node_id.0 as int, *node);
            }
        }
    }

    fn link_next(&mut self, i: usize, next: NodeId)
        ensures
            final(self)@ == (DocumentModel {
                nodes: set_next(old(self)@.nodes, i as int, next),
                ..old(self)@
            }),
    {
        if i < self.nodes.len() {
            let ghost before = self.nodes@;
            let node = &mut self.nodes[i];
            node.next_sibling = Some(next);
            proof {
                lemma_models_update(before, i as int, *node);
            }
        }
    }

    fn link_prev(&mut self, i: usize, prev: NodeId)
        ensures
            final(self)@ == (DocumentModel {
                nodes: set_prev(old(self)@.nodes, i as int, prev),
                ..old(self)@
            }),
    {
        if i < self.nodes.len() {
            let ghost before = self.nodes@;
            let node = &mut self.nodes[i];
            node.prev_sibling = Some(prev);
            proof {
                lemma_models_update(before, i as int, *node);
            }
        }
    }

    fn link_parent(&mut self, i: usize, parent: NodeId)
        ensures
            final(self)@ == (DocumentModel {
                nodes: set_parent(old(self)@.nodes, i as int, parent),
                ..old(self)@
            }),
    {
        if i < self.nodes.len() {
            let ghost before = self.nodes@;
            let node = &mut self.nodes[i];
            node.parent = Some(parent);
            proof {
                lemma_models_update(before, i as int, *node);
            }
        }
    }

    fn link_child(&mut self, i: usize, child: usize)
        ensures
            final(self)@ == (DocumentModel {
                nodes: push_child(old(self)@.nodes, i as int, child),
                ..old(self)@
            }),
    {
        if i < self.nodes.len() {
            let ghost before = self.nodes@;
            let node = &mut self.nodes[i];
            node.children.push(child);
            proof {
                lemma_models_update(before, i as int, *node);
            }
        }
    }

    /// Appends `child_id` under `parent_id` as its last child and updates
    /// the sibling links. An `html`, `head` or `body` element is remembered
    /// as the document's. A step that would change a node that does not
    /// exist is left out.
    pub fn append_child(&mut self, parent_id: NodeId, child_id: NodeId)
        ensures
            final(self)@ == appended(old(self)@, parent_id, child_id),
    {
        let last: Option<usize> = match self.nodes.get(parent_id.0) {
            Some(parent) => parent.children.last(),
            None => None,
        };
        match last {
            Some(l) => {
                self.link_next(l, child_id);
                self.link_prev(child_id.0, NodeId(l));
            },
            None => {},
        }
        self.link_parent(child_id.0, parent_id);
        self.link_child(parent_id.0, child_id.0);
        let mut is_html = false;
        let mut is_head = false;
        let mut is_body = false;
        match self.nodes.get(child_id.0) {
            Some(node) => {
                is_html = node.has_tag("html");
                is_head = node.has_tag("head");
                is_body = node.has_tag("body");
            },
            None => {},
        }
        if is_html {
            self.document_element = Some(child_id);
        }
        if is_head {
            self.head = Some(child_id);
        }
        if is_body {
            self.body = Some(child_id);
        }
    }

    /// The joined text of the text nodes among the children of `node`, and
    /// whether there is any.
    fn direct_text(&self, node: &Node) -> (r: (bool, String))
        ensures
            r.0 == has_text(self@.nodes, node@.children),
            r.1@ == joined_text(self@.nodes, node@.children),
    {
        let mut any = false;
        let mut text = String::new();
        let n = node.children.len();
        let mut k: usize = 0;
        let ghost ids = node@.children;
        assert(ids.take(0) =~= Seq::<usize>::empty());
        while k < n
            invariant
                k <= n == ids.len(),
                ids == node@.children,
                any == has_text(self@.nodes, ids.take(k as int)),
                text@ == joined_text(self@.nodes, ids.take(k as int)),
            decreases n - k,
        {
            let ghost before = ids.take(k as int);
            let ghost after = ids.take(k + 1);
            assert(after.drop_last() =~= before);
            assert(after.last() == ids[k as int]);
            let child = node.children.get(k).unwrap();
            let mut here = false;
            match self.nodes.get(child) {
                Some(c) => match c.text_content() {
                    Some(t) => {
                        text.append(t);
                        here = true;
                    },
                    None => {
                        assert(text@ + Seq::<char>::empty() =~= text@);
                    },
                },
                None => {
                    assert(text@ + Seq::<char>::empty() =~= text@);
                },
            }
            proof {
                assert(here == (text_at(self@.nodes, ids[k as int]) is Some));
                if has_text(self@.nodes, after) {
                    let w = choose|w: int|
                        0 <= w < after.len() && (#[trigger] text_at(self@.nodes, after[w])) is Some;
                    if w < k {
                        assert(before[w] == after[w]);
                    }
                }
                if any {
                    let w = choose|w: int|
                        0 <= w < before.len() && (#[trigger] text_at(self@.nodes, before[w]))
                            is Some;
                    assert(after[w] == before[w]);
                }
                if here {
                    assert(text_at(self@.nodes, after[k as int]) is Some);
                }
            }
            any = any || here;
            k += 1;
        }
        assert(ids.take(n as int) =~= ids);
        (any, text)
    }

    /// The title that node `id` gives, if it gives one.
    fn title_from(&self, id: usize) -> (r: Option<String>)
        ensures
            optional_text(r) == title_at(self@.nodes, id),
    {
        match self.nodes.get(id) {
            Some(node) => {
                if node.has_tag("title") {
                    let (any, text) = self.direct_text(node);
                    if any {
                        Some(from_chars(&trim(&to_chars(text.as_str()))))
                    } else {
                        None
                    }
                } else {
                    None
                }
            },
            None => None,
        }
    }

    /// The title of the page: among the children of `head`, the first
    /// `title` element with text gives it, as its text without the white
    /// space around it.
    pub fn get_title(&self) -> (r: Option<String>)
        ensures
            optional_text(r) == title_of(self@),
    {
        let head = match self.head {
            Some(h) => h,
            None => {
                return None;
            },
        };
        let node = match self.nodes.get(head.0) {
            Some(n) => n,
            None => {
                return None;
            },
        };
        let ghost ids = node@.children;
        let n = node.children.len();
        let mut k: usize = 0;
        assert(ids.take(0) =~= Seq::<usize>::empty());
        while k < n
            invariant
                k <= n == ids.len(),
                ids == node@.children,
                self@.head == Some(head),
                head.0 < self@.nodes.len(),
                node@ == self@.nodes[head.0 as int],
                title_among(self@.nodes, ids.take(k as int)) is None,
            decreases n - k,
        {
            assert(ids.take(k + 1).drop_last() =~= ids.take(k as int));
            assert(ids.take(k + 1).last() == ids[k as int]);
            let child = node.children.get(k).unwrap();
            let found = self.title_from(child);
            if found.is_some() {
                proof {
                    assert(title_among(self@.nodes, ids.take(k + 1)) == title_at(
                        self@.nodes,
                        ids[k as int],
                    ));
                    lemma_title_prefix(self@.nodes, ids, k + 1);
                }
                return found;
            }
            k += 1;
        }
        assert(ids.take(n as int) =~= ids);
        None
    }

    fn collect_elements_by_tag(&self, id: usize, tag: &str, fuel: usize, result: &mut Vec<NodeId>)
        ensures
            final(result)@ == old(result)@ + tagged(self@.nodes, id, tag@, fuel as nat),
        decreases fuel,
    {
        if fuel == 0 {
            assert(result@ + Seq::<NodeId>::empty() =~= result@);
            return ;
        }
        let node = match self.nodes.get(id) {
            Some(n) => n,
            None => {
                assert(result@ + Seq::<NodeId>::empty() =~= result@);
                return ;
            },
        };
        let ghost start = result@;
        let ghost own = if node@.data.tag() == Some(tag@) {
            seq![NodeId(id)]
        } else {
            Seq::<NodeId>::empty()
        };
        if node.has_tag(tag) {
            result.push(NodeId(id));
        }
        assert(result@ =~= start + own);
        let ghost ids = node@.children;
        let n = node.children.len();
        let mut k: usize = 0;
        assert(ids.take(0) =~= Seq::<usize>::empty());
        assert(result@ =~= start + (own + Seq::<NodeId>::empty()));
        while k < n
            invariant
                k <= n == ids.len(),
                ids == node@.children,
                fuel > 0,
                result@ == start + (own + tagged_among(
                    self@.nodes,
                    ids.take(k as int),
                    tag@,
                    (fuel - 1) as nat,
                )),
            decreases n - k,
        {
            assert(ids.take(k + 1).drop_last() =~= ids.take(k as int));
            assert(ids.take(k + 1).last() == ids[k as int]);
            let child = node.children.get(k).unwrap();
            let ghost mid = result@;
            self.collect_elements_by_tag(child, tag, fuel - 1, result);
            assert(result@ =~= start + (own + tagged_among(
                self@.nodes,
                ids.take(k + 1),
                tag@,
                (fuel - 1) as nat,
            )));
            k += 1;
        }
        assert(ids.take(n as int) =~= ids);
    }

    /// The elements with the tag name `tag_name`, whatever its case, in
    /// document order.
    pub fn get_elements_by_tag_name(&self, tag_name: &str) -> (r: Vec<NodeId>)
        ensures
            r@ == tagged(
                self@.nodes,
                self@.root.0,
                lowercase_of(tag_name@),
                self@.nodes.len(),
            ),
    {
        let tag = str_to_lowercase(tag_name);
        self.get_elements_by_lowercase_tag(tag.as_str())
    }

    /// The elements whose tag name is exactly `tag`, in document order.
    pub fn get_elements_by_lowercase_tag(&self, tag: &str) -> (r: Vec<NodeId>)
        ensures
            r@ == tagged(self@.nodes, self@.root.0, tag@, self@.nodes.len()),
    {
        let mut result: Vec<NodeId> = Vec::new();
        self.collect_elements_by_tag(self.root.0, tag, self.nodes.len(), &mut result);
        assert(Seq::<NodeId>::empty() + result@ =~= result@);
        result
    }

    fn find_element_by_id(&self, node_id: usize, id: &str, fuel: usize) -> (r: Option<NodeId>)
        ensures
            r == found(self@.nodes, node_id, id@, fuel as nat),
        decreases fuel,
    {
        if fuel == 0 {
            return None;
        }
        let node = match self.nodes.get(node_id) {
            Some(n) => n,
            None => {
                return None;
            },
        };
        if node.attribute_is("id", id) {
            return Some(NodeId(node_id));
        }
        let ghost ids = node@.children;
        let n = node.children.len();
        let mut k: usize = 0;
        assert(ids.take(0) =~= Seq::<usize>::empty());
        while k < n
            invariant
                k <= n == ids.len(),
                ids == node@.children,
                fuel > 0,
                node_id < self@.nodes.len(),
                node@ == self@.nodes[node_id as int],
                node@.data.attribute("id"@) != Some(id@),
                found_among(self@.nodes, ids.take(k as int), id@, (fuel - 1) as nat) is None,
            decreases n - k,
        {
            assert(ids.take(k + 1).drop_last() =~= ids.take(k as int));
            assert(ids.take(k + 1).last() == ids[k as int]);
            let child = node.children.get(k).unwrap();
            let hit = self.find_element_by_id(child, id, fuel - 1);
            if hit.is_some() {
                proof {
                    assert(found_among(self@.nodes, ids.take(k + 1), id@, (fuel - 1) as nat)
                        == found(self@.nodes, ids[k as int], id@, (fuel - 1) as nat));
                    lemma_found_prefix(self@.nodes, ids, k + 1, id@, (fuel - 1) as nat);
                }
                return hit;
            }
            k += 1;
        }
        assert(ids.take(n as int) =~= ids);
        None
    }

    /// The first node in document order whose `id` attribute is `id`.
    pub fn get_element_by_id(&self, id: &str) -> (r: Option<NodeId>)
        ensures
            r == found(self@.nodes, self@.root.0, id@, self@.nodes.len()),
    {
        self.find_element_by_id(self.root.0, id, self.nodes.len())
    }

    fn collect_text_content(&self, node_id: usize, fuel: usize, result: &mut String)
        ensures
            final(result)@ == old(result)@ + text_under(self@.nodes, node_id, fuel as nat),
        decreases fuel,
    {
        if fuel == 0 {
            assert(result@ + Seq::<char>::empty() =~= result@);
            return ;
        }
        let node = match self.nodes.get(node_id) {
            Some(n) => n,
            None => {
                assert(result@ + Seq::<char>::empty() =~= result@);
                return ;
            },
        };
        let ghost start = result@;
        let ghost own = match node@.data.text() {
            Some(t) => t,
            None => Seq::<char>::empty(),
        };
        match node.text_content() {
            Some(t) => {
                result.append(t);
            },
            None => {},
        }
        assert(result@ =~= start + own);
        let ghost ids = node@.children;
        let n = node.children.len();
        let mut k: usize = 0;
        assert(ids.take(0) =~= Seq::<usize>::empty());
        assert(result@ =~= start + (own + Seq::<char>::empty()));
        while k < n
            invariant
                k <= n == ids.len(),
                ids == node@.children,
                fuel > 0,
                result@ == start + (own + text_among(
                    self@.nodes,
                    ids.take(k as int),
                    (fuel - 1) as nat,
                )),
            decreases n - k,
        {
            assert(ids.take(k + 1).drop_last() =~= ids.take(k as int));
            assert(ids.take(k + 1).last() == ids[k as int]);
            let child = node.children.get(k).unwrap();
            self.collect_text_content(child, fuel - 1, result);
            assert(result@ =~= start + (own + text_among(
                self@.nodes,
                ids.take(k + 1),
                (fuel - 1) as nat,
            )));
            k += 1;
        }
        assert(ids.take(n as int) =~= ids);
    }

    /// The text of the node and of everything below it, in document order.
    pub fn get_text_content(&self, node_id: NodeId) -> (r: String)
        ensures
            r@ == text_under(self@.nodes, node_id.0, self@.nodes.len()),
    {
        let mut result = String::new();
        self.collect_text_content(node_id.0, self.nodes.len(), &mut result);
        assert(Seq::<char>::empty() + result@ =~= result@);
        result
    }
}

/// A title given within the first `k` of the nodes `ids` is the title given
/// among all of them.
pub proof fn lemma_title_prefix(nodes: Seq<NodeModel>, ids: Seq<usize>, k: int)
    requires
        0 <= k <= ids.len(),
        title_among(nodes, ids.take(k)) is Some,
    ensures
        title_among(nodes, ids) == title_among(nodes, ids.take(k)),
    decreases ids.len() - k,
{
    if k < ids.len() {
        assert(ids.take(k + 1).drop_last() =~= ids.take(k));
        lemma_title_prefix(nodes, ids, k + 1);
    } else {
        assert(ids.take(k) =~= ids);
    }
}

/// A node found within the first `k` of the nodes `ids` is the node found
/// among all of them.
pub proof fn lemma_found_prefix(
    nodes: Seq<NodeModel>,
    ids: Seq<usize>,
    k: int,
    key: Seq<char>,
    fuel: nat,
)
    requires
        0 <= k <= ids.len(),
        found_among(nodes, ids.take(k), key, fuel) is Some,
    ensures
        found_among(nodes, ids, key, fuel) == found_among(nodes, ids.take(k), key, fuel),
    decreases ids.len() - k,
{
    if k < ids.len() {
        assert(ids.take(k + 1).drop_last() =~= ids.take(k));
        lemma_found_prefix(nodes, ids, k + 1, key, fuel);
    } else {
        assert(ids.take(k) =~= ids);
    }
}

impl Default for Document {
    fn default() -> (doc: Self)
        ensures
            doc@ == empty_document(),
    {
        Document::new()
    }
}

/// Whether the child at place `k` of node `p` is linked back: it exists,
/// has `p` as its parent, and has the children around it as its siblings.
pub open spec fn child_linked(nodes: Seq<NodeModel>, p: int, k: int) -> bool {
    let kids = nodes[p].children;
    let c = kids[k];
    &&& c < nodes.len()
    &&& nodes[c as int].parent == Some(NodeId(p as usize))
    &&& nodes[c as int].prev_sibling == if k > 0 {
        Some(NodeId(kids[k - 1]))
    } else {
        None
    }
    &&& nodes[c as int].next_sibling == if k + 1 < kids.len() {
        Some(NodeId(kids[k + 1]))
    } else {
        None
    }
}

/// Whether the parent of node `c` exists and lists it among its children.
pub open spec fn listed(nodes: Seq<NodeModel>, c: int) -> bool {
    let p = (nodes[c].parent->0).0;
    p < nodes.len() && nodes[p as int].children.contains(c as usize)
}

/// Whether the links of the nodes agree: every child of a node is linked
/// back to it and to its neighbours, and every node with a parent is among
/// that parent's children.
pub open spec fn links_agree(nodes: Seq<NodeModel>) -> bool {
    &&& forall|p: int, k: int|
        0 <= p < nodes.len() && 0 <= k < nodes[p].children.len() ==> #[trigger] child_linked(
            nodes,
            p,
            k,
        )
    &&& forall|c: int|
        0 <= c < nodes.len() && nodes[c].parent is Some ==> #[trigger] listed(nodes, c)
}

/// Appending a node that is linked to nothing yet under a node of the
/// document keeps the links in agreement.
pub proof fn lemma_append_keeps_links(d: DocumentModel, parent: NodeId, child: NodeId)
    requires
        links_agree(d.nodes),
        d.nodes.len() <= usize::MAX,
        parent.0 < d.nodes.len(),
        child.0 < d.nodes.len(),
        d.nodes[child.0 as int].parent is None,
        d.nodes[child.0 as int].prev_sibling is None,
        d.nodes[child.0 as int].next_sibling is None,
    ensures
        links_agree(appended(d, parent, child).nodes),
{
    let nodes = d.nodes;
    let after = appended(d, parent, child).nodes;
    let kids = nodes[parent.0 as int].children;
    let n = kids.len() as int;
    let pi = parent.0 as int;
    let ci = child.0 as int;
    assert(after.len() == nodes.len());
    // The child is in no list, and the last child is not the child.
    assert forall|p: int, k: int|
        0 <= p < nodes.len() && 0 <= k < nodes[p].children.len() implies nodes[p].children[k]
        != child.0 by {
        assert(child_linked(nodes, p, k));
    }
    if n > 0 {
        assert(child_linked(nodes, pi, n - 1));
    }
    assert forall|p: int| 0 <= p < nodes.len() implies #[trigger] after[p].children == if p == pi {
        kids.push(child.0)
    } else {
        nodes[p].children
    } by {}
    assert forall|p: int, k: int|
        0 <= p < after.len() && 0 <= k < after[p].children.len() implies #[trigger] child_linked(
        after,
        p,
        k,
    ) by {
        if p == pi && k == n {
        } else {
            assert(child_linked(nodes, p, k));
            let c = nodes[p].children[k] as int;
            assert(c != ci);
            if n > 0 && c == kids[n - 1] as int {
                assert(child_linked(nodes, pi, n - 1));
                assert(p == pi);
                if k != n - 1 {
                    assert(child_linked(nodes, pi, k));
                }
            }
        }
    }
    assert forall|c: int| 0 <= c < after.len() && after[c].parent is Some implies #[trigger] listed(
        after,
        c,
    ) by {
        if c == ci {
            assert(after[pi].children[n] == child.0);
        } else {
            assert(after[c].parent == nodes[c].parent);
            assert(listed(nodes, c));
            let p = (nodes[c].parent->0).0 as int;
            assert(nodes[p].children.contains(c as usize));
            let k = choose|k: int|
                0 <= k < nodes[p].children.len() && nodes[p].children[k] == c as usize;
            assert(after[p].children[k] == c as usize);
        }
    }
}

/// The links of a document that holds only its root agree.
pub proof fn lemma_empty_document_links()
    ensures
        links_agree(empty_document().nodes),
{
}

/// Adding a node that is linked to nothing keeps the links in agreement.
pub proof fn lemma_create_keeps_links(d: DocumentModel, data: DataModel)
    requires
        links_agree(d.nodes),
    ensures
        links_agree(with_node(d, data).nodes),
{
    let nodes = d.nodes;
    let after = with_node(d, data).nodes;
    assert forall|p: int, k: int|
        0 <= p < after.len() && 0 <= k < after[p].children.len() implies #[trigger] child_linked(
        after,
        p,
        k,
    ) by {
        assert(child_linked(nodes, p, k));
    }
    assert forall|c: int| 0 <= c < after.len() && after[c].parent is Some implies #[trigger] listed(
        after,
        c,
    ) by {
        assert(listed(nodes, c));
    }
}

/// Whether two lists of nodes have the same links, node by node.
pub open spec fn same_links(a: Seq<NodeModel>, b: Seq<NodeModel>) -> bool {
    &&& a.len() == b.len()
    &&& forall|i: int|
        0 <= i < a.len() ==> (#[trigger] a[i]).parent == b[i].parent && a[i].children
            == b[i].children && a[i].prev_sibling == b[i].prev_sibling && a[i].next_sibling
            == b[i].next_sibling
}

/// Whether the links agree depends on the links alone.
pub proof fn lemma_links_agree_by_links(a: Seq<NodeModel>, b: Seq<NodeModel>)
    requires
        links_agree(a),
        same_links(a, b),
    ensures
        links_agree(b),
{
    assert forall|p: int, k: int|
        0 <= p < b.len() && 0 <= k < b[p].children.len() implies #[trigger] child_linked(b, p, k) by {
        assert(child_linked(a, p, k));
        assert(a[p].children == b[p].children);
        let c = a[p].children[k] as int;
        assert(a[c].parent == b[c].parent);
    }
    assert forall|c: int| 0 <= c < b.len() && b[c].parent is Some implies #[trigger] listed(b, c) by {
        assert(a[c].parent == b[c].parent);
        assert(listed(a, c));
        let p = (a[c].parent->0).0 as int;
        assert(a[p].children == b[p].children);
    }
}

} // verus!

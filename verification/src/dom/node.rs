//! Nodes of the document and their identifiers.

use crate::dom::attributes::Attributes;
use crate::id_list::IdList;
use crate::text::str_eq;
use vstd::prelude::*;

verus! {

/// The identifier of a node: its index in the arena of the document that
/// made it.
#[derive(Debug, Clone, Copy, PartialEq, Eq, Hash, Structural)]
pub struct NodeId(pub usize);

impl NodeId {
    pub fn new(id: usize) -> (r: Self)
        ensures
            r == NodeId(id),
    {
        NodeId(id)
    }

    pub fn index(&self) -> (r: usize)
        ensures
            r == self.0,
    {
        self.0
    }
}

/// The kinds of node.
#[derive(Debug, Clone, Copy, PartialEq, Eq, Structural)]
pub enum NodeType {
    Document,
    DocumentType,
    Element,
    Text,
    Comment,
    ProcessingInstruction,
}

/// What a node holds, by kind.
#[derive(Debug, Clone)]
pub enum NodeData {
    Document,
    DocumentType { name: String, public_id: String, system_id: String },
    Element { tag_name: String, namespace: Option<String>, attributes: Attributes },
    Text { content: String },
    Comment { content: String },
    ProcessingInstruction { target: String, data: String },
}

/// What a node holds, as plain text.
pub enum DataModel {
    Document,
    DocumentType { name: Seq<char>, public_id: Seq<char>, system_id: Seq<char> },
    Element {
        tag_name: Seq<char>,
        namespace: Option<Seq<char>>,
        attributes: Map<Seq<char>, Seq<char>>,
    },
    Text { content: Seq<char> },
    Comment { content: Seq<char> },
    ProcessingInstruction { target: Seq<char>, data: Seq<char> },
}

/// The view of an optional string.
pub open spec fn optional_text(s: Option<String>) -> Option<Seq<char>> {
    match s {
        Some(t) => Some(t@),
        None => None,
    }
}

impl View for NodeData {
    type V = DataModel;

    open spec fn view(&self) -> DataModel {
        match self {
            NodeData::Document => DataModel::Document,
            NodeData::DocumentType { name, public_id, system_id } => DataModel::DocumentType {
                name: name@,
                public_id: public_id@,
                system_id: system_id@,
            },
            NodeData::Element { tag_name, namespace, attributes } => DataModel::Element {
                tag_name: tag_name@,
                namespace: optional_text(*namespace),
                attributes: attributes@,
            },
            NodeData::Text { content } => DataModel::Text { content: content@ },
            NodeData::Comment { content } => DataModel::Comment { content: content@ },
            NodeData::ProcessingInstruction { target, data } => DataModel::ProcessingInstruction {
                target: target@,
                data: data@,
            },
        }
    }
}

impl DataModel {
    /// The kind of node that holds this.
    pub open spec fn kind(self) -> NodeType {
        match self {
            DataModel::Document => NodeType::Document,
            DataModel::DocumentType { .. } => NodeType::DocumentType,
            DataModel::Element { .. } => NodeType::Element,
            DataModel::Text { .. } => NodeType::Text,
            DataModel::Comment { .. } => NodeType::Comment,
            DataModel::ProcessingInstruction { .. } => NodeType::ProcessingInstruction,
        }
    }

    /// The tag name, for an element.
    pub open spec fn tag(self) -> Option<Seq<char>> {
        match self {
            DataModel::Element { tag_name, .. } => Some(tag_name),
            _ => None,
        }
    }

    /// The text, for a text node.
    pub open spec fn text(self) -> Option<Seq<char>> {
        match self {
            DataModel::Text { content } => Some(content),
            _ => None,
        }
    }

    /// The value of the attribute `name`, for an element that has it.
    pub open spec fn attribute(self, name: Seq<char>) -> Option<Seq<char>> {
        match self {
            DataModel::Element { attributes, .. } => if attributes.contains_key(name) {
                Some(attributes[name])
            } else {
                None
            },
            _ => None,
        }
    }

    /// The attributes, for an element.
    pub open spec fn attributes(self) -> Option<Map<Seq<char>, Seq<char>>> {
        match self {
            DataModel::Element { attributes, .. } => Some(attributes),
            _ => None,
        }
    }
}

/// A node of the document.
#[derive(Debug, Clone)]
pub struct Node {
    /// The node's own identifier.
    pub id: NodeId,
    /// What the node holds.
    pub data: NodeData,
    /// The parent, none for the root and for a node not yet linked.
    pub parent: Option<NodeId>,
    /// The indices of the children, in document order.
    pub children: IdList,
    /// The sibling just before.
    pub prev_sibling: Option<NodeId>,
    /// The sibling just after.
    pub next_sibling: Option<NodeId>,
}

/// A node as plain values.
pub struct NodeModel {
    pub id: NodeId,
    pub data: DataModel,
    pub parent: Option<NodeId>,
    pub children: Seq<usize>,
    pub prev_sibling: Option<NodeId>,
    pub next_sibling: Option<NodeId>,
}

impl View for Node {
    type V = NodeModel;

    open spec fn view(&self) -> NodeModel {
        NodeModel {
            id: self.id,
            data: self.data@,
            parent: self.parent,
            children: self.children@,
            prev_sibling: self.prev_sibling,
            next_sibling: self.next_sibling,
        }
    }
}

/// A node that holds `data` and is linked to nothing.
pub open spec fn unlinked(id: NodeId, data: DataModel) -> NodeModel {
    NodeModel {
        id,
        data,
        parent: None,
        children: Seq::empty(),
        prev_sibling: None,
        next_sibling: None,
    }
}

impl Node {
    /// A node that is linked to nothing yet.
    pub fn new(id: NodeId, data: NodeData) -> (r: Self)
        ensures
            r@ == unlinked(id, data@),
    {
        Node {
            id,
            data,
            parent: None,
            children: IdList::new(),
            prev_sibling: None,
            next_sibling: None,
        }
    }

    pub fn node_type(&self) -> (r: NodeType)
        ensures
            r == self@.data.kind(),
    {
        match &self.data {
            NodeData::Document => NodeType::Document,
            NodeData::DocumentType { .. } => NodeType::DocumentType,
            NodeData::Element { .. } => NodeType::Element,
            NodeData::Text { .. } => NodeType::Text,
            NodeData::Comment { .. } => NodeType::Comment,
            NodeData::ProcessingInstruction { .. } => NodeType::ProcessingInstruction,
        }
    }

    pub fn is_element(&self) -> (r: bool)
        ensures
            r == (self@.data.kind() == NodeType::Element),
    {
        matches!(self.data, NodeData::Element { .. })
    }

    pub fn is_text(&self) -> (r: bool)
        ensures
            r == (self@.data.kind() == NodeType::Text),
    {
        matches!(self.data, NodeData::Text { .. })
    }

    /// The tag name, for an element.
    pub fn tag_name(&self) -> (r: Option<&str>)
        ensures
            r is Some <==> self@.data.tag() is Some,
            r is Some ==> r->0@ == self@.data.tag()->0,
    {
        match &self.data {
            NodeData::Element { tag_name, .. } => Some(tag_name.as_str()),
            _ => None,
        }
    }

    /// The text, for a text node.
    pub fn text_content(&self) -> (r: Option<&str>)
        ensures
            r is Some <==> self@.data.text() is Some,
            r is Some ==> r->0@ == self@.data.text()->0,
    {
        match &self.data {
            NodeData::Text { content } => Some(content.as_str()),
            _ => None,
        }
    }

    /// The attributes, for an element.
    pub fn attributes(&self) -> (r: Option<&Attributes>)
        ensures
            r is Some <==> self@.data.attributes() is Some,
            r is Some ==> r->0@ == self@.data.attributes()->0,
    {
        match &self.data {
            NodeData::Element { attributes, .. } => Some(attributes),
            _ => None,
        }
    }

    /// The attributes of an element, to be changed in place.
    pub fn attributes_mut(&mut self) -> (r: Option<&mut Attributes>)
        ensures
            r is Some <==> old(self)@.data.attributes() is Some,
            r is None ==> final(self)@ == old(self)@,
            r is Some ==> (*r->0)@ == old(self)@.data.attributes()->0,
            r is Some ==> final(self)@ == with_attributes(old(self)@, (*final(r->0))@),
    {
        match &mut self.data {
            NodeData::Element { attributes, .. } => Some(attributes),
            _ => None,
        }
    }

    /// Sets an attribute of an element; another node stays as it is.
    pub fn set_attribute(&mut self, name: String, value: String)
        ensures
            final(self)@ == with_attribute_set(old(self)@, name@, value@),
    {
        match &mut self.data {
            NodeData::Element { attributes, .. } => {
                attributes.set(name, value);
            },
            _ => {},
        }
    }

    /// Whether the node is an element with the tag name `tag`.
    pub fn has_tag(&self, tag: &str) -> (r: bool)
        ensures
            r == (self@.data.tag() == Some(tag@)),
    {
        match &self.data {
            NodeData::Element { tag_name, .. } => str_eq(tag_name.as_str(), tag),
            _ => false,
        }
    }

    /// Whether the node is an element whose attribute `name` is `value`.
    pub fn attribute_is(&self, name: &str, value: &str) -> (r: bool)
        ensures
            r == (self@.data.attribute(name@) == Some(value@)),
    {
        match self.get_attribute(name) {
            Some(v) => str_eq(v, value),
            None => false,
        }
    }

    /// The value of the attribute `name`, for an element that has it.
    pub fn get_attribute(&self, name: &str) -> (r: Option<&str>)
        ensures
            r is Some <==> self@.data.attribute(name@) is Some,
            r is Some ==> r->0@ == self@.data.attribute(name@)->0,
    {
        match &self.data {
            NodeData::Element { attributes, .. } => attributes.get(name),
            _ => None,
        }
    }
}

/// The node with `attrs` for its attributes, if it is an element.
pub open spec fn with_attributes(n: NodeModel, attrs: Map<Seq<char>, Seq<char>>) -> NodeModel {
    match n.data {
        DataModel::Element { tag_name, namespace, attributes } => NodeModel {
            data: DataModel::Element { tag_name, namespace, attributes: attrs },
            ..n
        },
        _ => n,
    }
}

/// The node with the attribute `name` set to `value`, if it is an element.
pub open spec fn with_attribute_set(n: NodeModel, name: Seq<char>, value: Seq<char>) -> NodeModel {
    match n.data {
        DataModel::Element { tag_name, namespace, attributes } => NodeModel {
            data: DataModel::Element {
                tag_name,
                namespace,
                attributes: attributes.insert(name, value),
            },
            ..n
        },
        _ => n,
    }
}

} // verus!

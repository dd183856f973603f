//! The box tree and how it is built from a styled document.

use crate::css::context::StyleContext;
use crate::css::style::{display_of, StyleModel};
use crate::css::values::Display;
use crate::dom::document::Document;
use crate::dom::node::{NodeId, NodeModel, NodeType};
use crate::id_list::IdList;
use crate::layout::box_model::BoxType;
use vstd::prelude::*;

verus! {

/// The identifier of a box: its index in the tree that made it.
#[derive(Debug, Clone, Copy, PartialEq, Eq, Hash, Structural)]
pub struct LayoutId(pub usize);

/// A box of the tree.
#[derive(Debug)]
pub struct LayoutNode {
    /// The box's own identifier.
    pub id: LayoutId,
    /// The node of the document that the box renders, none for the root.
    pub dom_node: Option<NodeId>,
    /// The kind of box.
    pub box_type: BoxType,
    /// The indices of the boxes inside, in order.
    pub children: IdList,
    /// The box around, none for the root.
    pub parent: Option<LayoutId>,
    /// The text, for a text box.
    pub text: Option<String>,
}

/// A box as plain values.
pub struct LayoutModel {
    pub id: LayoutId,
    pub dom_node: Option<NodeId>,
    pub box_type: BoxType,
    pub children: Seq<usize>,
    pub parent: Option<LayoutId>,
    pub text: Option<Seq<char>>,
}

impl View for LayoutNode {
    type V = LayoutModel;

    open spec fn view(&self) -> LayoutModel {
        LayoutModel {
            id: self.id,
            dom_node: self.dom_node,
            box_type: self.box_type,
            children: self.children@,
            parent: self.parent,
            text: match self.text {
                Some(t) => Some(t@),
                None => None,
            },
        }
    }
}

/// A box of the given kind that is linked to nothing and holds no text.
pub open spec fn fresh_box(id: LayoutId, dom_node: Option<NodeId>, box_type: BoxType) -> LayoutModel {
    LayoutModel { id, dom_node, box_type, children: Seq::empty(), parent: None, text: None }
}

impl LayoutNode {
    /// A box that is linked to nothing yet.
    pub fn new(id: LayoutId, dom_node: Option<NodeId>, box_type: BoxType) -> (r: Self)
        ensures
            r@ == fresh_box(id, dom_node, box_type),
    {
        LayoutNode { id, dom_node, box_type, children: IdList::new(), parent: None, text: None }
    }
}

/// The models of a list of boxes.
pub open spec fn box_models(boxes: Seq<LayoutNode>) -> Seq<LayoutModel> {
    boxes.map_values(|b: LayoutNode| b@)
}

/// The display of node `id`, where a style was computed for it.
pub open spec fn display_at(styles: Map<usize, StyleModel>, id: usize) -> Option<Display> {
    if styles.contains_key(id) {
        Some(display_of(styles[id]))
    } else {
        None
    }
}

/// The kind of box of an element by its display: a block for an element
/// without a computed style and for block, flex and grid.
pub open spec fn box_for(display: Option<Display>) -> BoxType {
    match display {
        Some(Display::Inline) => BoxType::Inline,
        Some(Display::InlineBlock) => BoxType::InlineBlock,
        _ => BoxType::Block,
    }
}

/// The boxes with one more, for node `dom_id`, placed last inside the box
/// `parent`.
pub open spec fn placed(
    boxes: Seq<LayoutModel>,
    dom_id: usize,
    box_type: BoxType,
    text: Option<Seq<char>>,
    parent: usize,
) -> Seq<LayoutModel> {
    let id = boxes.len() as usize;
    let added = boxes.push(
        LayoutModel {
            id: LayoutId(id),
            dom_node: Some(NodeId(dom_id)),
            box_type,
            children: Seq::empty(),
            parent: Some(LayoutId(parent)),
            text,
        },
    );
    if parent < added.len() {
        added.update(
            parent as int,
            LayoutModel { children: added[parent as int].children.push(id), ..added[parent as int] },
        )
    } else {
        added
    }
}

/// The boxes once node `dom_id` and all below it are given theirs inside
/// the box `parent`. A node whose display is none gives no box, nor does
/// anything below it. An element whose display is contents gives no box,
/// and what is below it goes inside `parent`. Any other element gives a box
/// by its display and a text node gives a text box with its text; what is
/// below goes inside that box. Other nodes give nothing.
pub open spec fn built(
    boxes: Seq<LayoutModel>,
    nodes: Seq<NodeModel>,
    styles: Map<usize, StyleModel>,
    dom_id: usize,
    parent: usize,
    fuel: nat,
) -> Seq<LayoutModel>
    decreases fuel, 0nat,
{
    if fuel == 0 || dom_id >= nodes.len() {
        boxes
    } else {
        let node = nodes[dom_id as int];
        let display = display_at(styles, dom_id);
        if display == Some(Display::Hidden) {
            boxes
        } else if node.data.kind() == NodeType::Element && display == Some(Display::Contents) {
            built_among(boxes, nodes, styles, node.children, parent, (fuel - 1) as nat)
        } else if node.data.kind() == NodeType::Element {
            built_among(
                placed(boxes, dom_id, box_for(display), None, parent),
                nodes,
                styles,
                node.children,
                boxes.len() as usize,
                (fuel - 1) as nat,
            )
        } else if node.data.kind() == NodeType::Text {
            built_among(
                placed(boxes, dom_id, BoxType::Text, node.data.text(), parent),
                nodes,
                styles,
                node.children,
                boxes.len() as usize,
                (fuel - 1) as nat,
            )
        } else {
            boxes
        }
    }
}

/// The boxes once the nodes `ids` and all below them are given theirs
/// inside the box `parent`, in order.
pub open spec fn built_among(
    boxes: Seq<LayoutModel>,
    nodes: Seq<NodeModel>,
    styles: Map<usize, StyleModel>,
    ids: Seq<usize>,
    parent: usize,
    fuel: nat,
) -> Seq<LayoutModel>
    decreases fuel, ids.len() + 1,
{
    if ids.len() == 0 {
        boxes
    } else {
        built(
            built_among(boxes, nodes, styles, ids.drop_last(), parent, fuel),
            nodes,
            styles,
            ids.last(),
            parent,
            fuel,
        )
    }
}

/// The box tree of a document: a root block, and inside it the boxes of
/// the `body` and of all below it.
pub open spec fn box_tree(
    nodes: Seq<NodeModel>,
    body: Option<NodeId>,
    styles: Map<usize, StyleModel>,
) -> Seq<LayoutModel> {
    let root = seq![fresh_box(LayoutId(0), None, BoxType::Block)];
    match body {
        Some(b) => built(root, nodes, styles, b.0, 0, nodes.len()),
        None => root,
    }
}

/// The box tree.
#[derive(Debug)]
pub struct LayoutTree {
    nodes: Vec<LayoutNode>,
    root: LayoutId,
}

/// A box tree as plain values.
pub struct TreeModel {
    pub boxes: Seq<LayoutModel>,
    pub root: LayoutId,
}

impl View for LayoutTree {
    type V = TreeModel;

    closed spec fn view(&self) -> TreeModel {
        TreeModel { boxes: box_models(self.nodes@), root: self.root }
    }
}

proof fn lemma_boxes_push(boxes: Seq<LayoutNode>, b: LayoutNode)
    ensures
        box_models(boxes.push(b)) == box_models(boxes).push(b@),
{
    assert(box_models(boxes.push(b)) =~= box_models(boxes).push(b@));
}

proof fn lemma_boxes_update(boxes: Seq<LayoutNode>, i: int, b: LayoutNode)
    requires
        0 <= i < boxes.len(),
    ensures
        box_models(boxes.update(i, b)) == box_models(boxes).update(i, b@),
{
    assert(box_models(boxes.update(i, b)) =~= box_models(boxes).update(i, b@));
}

impl LayoutTree {
    /// Builds the box tree of a styled document. Where a box lies is not
    /// decided here.
    pub fn build(doc: &Document, styles: &StyleContext) -> (tree: Self)
        ensures
            tree@ == (TreeModel {
                boxes: box_tree(doc@.nodes, doc@.body, styles@.cache),
                root: LayoutId(0),
            }),
    {
        let mut nodes: Vec<LayoutNode> = Vec::new();
        let root = LayoutNode::new(LayoutId(0), None, BoxType::Block);
        proof {
            lemma_boxes_push(nodes@, root);
            assert(box_models(nodes@) =~= Seq::<LayoutModel>::empty());
        }
        nodes.push(root);
        assert(box_models(nodes@) =~= seq![fresh_box(LayoutId(0), None, BoxType::Block)]);
        let mut tree = LayoutTree { nodes, root: LayoutId(0) };
        match doc.body() {
            Some(body) => {
                tree.build_recursive(doc, styles, body, LayoutId(0), doc.node_count());
            },
            None => {},
        }
        tree
    }

    /// Adds a box for node `dom_id` as the last one inside `parent`.
    fn place(&mut self, dom_id: NodeId, box_type: BoxType, text: Option<String>, parent: LayoutId) -> (id:
        LayoutId)
        ensures
            id.0 == old(self)@.boxes.len(),
            final(self)@ == (TreeModel {
                boxes: placed(
                    old(self)@.boxes,
                    dom_id.0,
                    box_type,
                    match text {
                        Some(t) => Some(t@),
                        None => None,
                    },
                    parent.0,
                ),
                ..old(self)@
            }),
    {
        let id = LayoutId(self.nodes.len());
        let node = LayoutNode {
            id,
            dom_node: Some(dom_id),
            box_type,
            children: IdList::new(),
            parent: Some(parent),
            text,
        };
        proof {
            lemma_boxes_push(self.nodes@, node);
        }
        self.nodes.push(node);
        if parent.0 < self.nodes.len() {
            let ghost before = self.nodes@;
            let p = &mut self.nodes[parent.0];
            p.children.push(id.0);
            proof {
                lemma_boxes_update(before, parent.0 as int, *p);
            }
        }
        id
    }

    fn build_recursive(
        &mut self,
        doc: &Document,
        styles: &StyleContext,
        dom_id: NodeId,
        parent_id: LayoutId,
        fuel: usize,
    )
        ensures
            final(self)@ == (TreeModel {
                boxes: built(
                    old(self)@.boxes,
                    doc@.nodes,
                    styles@.cache,
                    dom_id.0,
                    parent_id.0,
                    fuel as nat,
                ),
                ..old(self)@
            }),
        decreases fuel,
    {
        if fuel == 0 {
            return ;
        }
        let node = match doc.get_node(dom_id) {
            Some(n) => n,
            None => {
                return ;
            },
        };
        let display: Option<Display> = match styles.get_computed_style(dom_id) {
            Some(style) => Some(style.display()),
            None => None,
        };
        match display {
            Some(Display::Hidden) => {
                return ;
            },
            _ => {},
        }
        let mut inside = parent_id;
        match node.node_type() {
            NodeType::Element => {
                let contents = match display {
                    Some(Display::Contents) => true,
                    _ => false,
                };
                if !contents {
                    let box_type = match display {
                        Some(Display::Inline) => BoxType::Inline,
                        Some(Display::InlineBlock) => BoxType::InlineBlock,
                        _ => BoxType::Block,
                    };
                    inside = self.place(dom_id, box_type, None, parent_id);
                }
            },
            NodeType::Text => {
                let text = match node.text_content() {
                    Some(t) => Some(t.to_string()),
                    None => None,
                };
                inside = self.place(dom_id, BoxType::Text, text, parent_id);
            },
            _ => {
                return ;
            },
        }
        let n = node.children.len();
        let ghost ids = node@.children;
        let ghost start = self@.boxes;
        let mut k: usize = 0;
        assert(ids.take(0) =~= Seq::<usize>::empty());
        while k < n
            invariant
                k <= n == ids.len(),
                ids == node@.children,
                fuel > 0,
                self@.root == old(self)@.root,
                self@.boxes == built_among(
                    start,
                    doc@.nodes,
                    styles@.cache,
                    ids.take(k as int),
                    inside.0,
                    (fuel - 1) as nat,
                ),
            decreases n - k,
        {
            assert(ids.take(k + 1).drop_last() =~= ids.take(k as int));
            assert(ids.take(k + 1).last() == ids[k as int]);
            let child = node.children.get(k).unwrap();
            self.build_recursive(doc, styles, NodeId(child), inside, fuel - 1);
            k += 1;
        }
        assert(ids.take(n as int) =~= ids);
    }

    /// The box with this identifier, if the tree has one.
    pub fn get_node(&self, id: LayoutId) -> (r: Option<&LayoutNode>)
        ensures
            r is Some <==> id.0 < self@.boxes.len(),
            r is Some ==> r->0@ == self@.boxes[id.0 as int],
    {
        self.nodes.get(id.0)
    }

    /// The identifier of the root box.
    pub fn root(&self) -> (r: LayoutId)
        ensures
            r == self@.root,
    {
        self.root
    }

    /// All boxes, by index.
    pub fn nodes(&self) -> (r: &Vec<LayoutNode>)
        ensures
            box_models(r@) == self@.boxes,
    {
        &self.nodes
    }
}

/// Whether a box renders a node as the node's style asks: the node exists
/// and its display is not none; an element's display is not contents and
/// gives the kind of the box, which holds no text; a text node has a text
/// box with its text.
pub open spec fn renders(b: LayoutModel, nodes: Seq<NodeModel>, styles: Map<usize, StyleModel>) -> bool {
    match b.dom_node {
        Some(d) => {
            let display = display_at(styles, d.0);
            &&& d.0 < nodes.len()
            &&& display != Some(Display::Hidden)
            &&& match nodes[d.0 as int].data.kind() {
                NodeType::Element => display != Some(Display::Contents) && b.box_type == box_for(
                    display,
                ) && b.text is None,
                NodeType::Text => b.box_type == BoxType::Text && b.text == nodes[d.0 as int].data.text(),
                _ => false,
            }
        },
        None => false,
    }
}

/// Whether `after` has the boxes of `before` and more, each of the old ones
/// rendering what it rendered.
pub open spec fn extends(before: Seq<LayoutModel>, after: Seq<LayoutModel>) -> bool {
    &&& before.len() <= after.len()
    &&& forall|i: int|
        0 <= i < before.len() ==> (#[trigger] after[i]).dom_node == before[i].dom_node
            && after[i].box_type == before[i].box_type && after[i].text == before[i].text
}

/// Every box that building adds renders a node as the node's style asks,
/// and the boxes that were there render what they rendered.
pub proof fn lemma_built_renders(
    boxes: Seq<LayoutModel>,
    nodes: Seq<NodeModel>,
    styles: Map<usize, StyleModel>,
    dom_id: usize,
    parent: usize,
    fuel: nat,
)
    ensures
        extends(boxes, built(boxes, nodes, styles, dom_id, parent, fuel)),
        forall|i: int|
            boxes.len() <= i < built(boxes, nodes, styles, dom_id, parent, fuel).len() ==> renders(
                #[trigger] built(boxes, nodes, styles, dom_id, parent, fuel)[i],
                nodes,
                styles,
            ),
    decreases fuel, 0nat,
{
    if fuel == 0 || dom_id >= nodes.len() {
    } else {
        let node = nodes[dom_id as int];
        let display = display_at(styles, dom_id);
        if display == Some(Display::Hidden) {
        } else if node.data.kind() == NodeType::Element && display == Some(Display::Contents) {
            lemma_built_among_renders(boxes, nodes, styles, node.children, parent, (fuel - 1) as nat);
        } else if node.data.kind() == NodeType::Element || node.data.kind() == NodeType::Text {
            let text = if node.data.kind() == NodeType::Element {
                None
            } else {
                node.data.text()
            };
            let kind = if node.data.kind() == NodeType::Element {
                box_for(display)
            } else {
                BoxType::Text
            };
            let with_box = placed(boxes, dom_id, kind, text, parent);
            let result = built_among(
                with_box,
                nodes,
                styles,
                node.children,
                boxes.len() as usize,
                (fuel - 1) as nat,
            );
            lemma_built_among_renders(
                with_box,
                nodes,
                styles,
                node.children,
                boxes.len() as usize,
                (fuel - 1) as nat,
            );
            assert(extends(boxes, with_box));
            assert(renders(with_box[boxes.len() as int], nodes, styles));
            assert forall|i: int| boxes.len() <= i < result.len() implies renders(
                #[trigger] result[i],
                nodes,
                styles,
            ) by {
                if i == boxes.len() {
                    assert(result[i].dom_node == with_box[i].dom_node);
                }
            }
        }
    }
}

/// As `lemma_built_renders`, for the boxes of several nodes.
pub proof fn lemma_built_among_renders(
    boxes: Seq<LayoutModel>,
    nodes: Seq<NodeModel>,
    styles: Map<usize, StyleModel>,
    ids: Seq<usize>,
    parent: usize,
    fuel: nat,
)
    ensures
        extends(boxes, built_among(boxes, nodes, styles, ids, parent, fuel)),
        forall|i: int|
            boxes.len() <= i < built_among(boxes, nodes, styles, ids, parent, fuel).len()
                ==> renders(
                #[trigger] built_among(boxes, nodes, styles, ids, parent, fuel)[i],
                nodes,
                styles,
            ),
    decreases fuel, ids.len() + 1,
{
    if ids.len() > 0 {
        let before = built_among(boxes, nodes, styles, ids.drop_last(), parent, fuel);
        let result = built(before, nodes, styles, ids.last(), parent, fuel);
        lemma_built_among_renders(boxes, nodes, styles, ids.drop_last(), parent, fuel);
        lemma_built_renders(before, nodes, styles, ids.last(), parent, fuel);
        assert forall|i: int| boxes.len() <= i < result.len() implies renders(
            #[trigger] result[i],
            nodes,
            styles,
        ) by {
            if i < before.len() {
                assert(renders(before[i], nodes, styles));
                assert(result[i].dom_node == before[i].dom_node);
            }
        }
        assert(extends(boxes, result)) by {
            assert forall|i: int| 0 <= i < boxes.len() implies (#[trigger] result[i]).dom_node
                == boxes[i].dom_node && result[i].box_type == boxes[i].box_type && result[i].text
                == boxes[i].text by {
                assert(before[i].dom_node == boxes[i].dom_node);
            }
        }
    }
}

/// In the box tree of a document, the root renders no node, and every other
/// box renders a node as the node's style asks; so there is no box for a
/// node whose display is none.
pub proof fn lemma_box_tree_renders(
    nodes: Seq<NodeModel>,
    body: Option<NodeId>,
    styles: Map<usize, StyleModel>,
)
    ensures
        box_tree(nodes, body, styles).len() >= 1,
        box_tree(nodes, body, styles)[0].dom_node is None,
        forall|i: int|
            1 <= i < box_tree(nodes, body, styles).len() ==> renders(
                #[trigger] box_tree(nodes, body, styles)[i],
                nodes,
                styles,
            ),
{
    let root = seq![fresh_box(LayoutId(0), None, BoxType::Block)];
    match body {
        Some(b) => {
            lemma_built_renders(root, nodes, styles, b.0, 0, nodes.len());
            assert(box_tree(nodes, body, styles)[0].dom_node == root[0].dom_node);
        },
        None => {},
    }
}

} // verus!

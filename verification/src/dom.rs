//! The document tree: elements with attributes and children, and text.
use crate::chars::same_text;
use crate::dict::Dict;
use vstd::prelude::*;
use vstd::string::StringExecFns;

verus! {

/// The attributes of an element: a map from attribute names to values.
pub type AttrMap = Dict<String>;

/// One node of the document tree.
#[derive(Debug, PartialEq)]
pub struct Node {
    pub node_type: NodeType,
    pub children: Vec<Box<Node>>,
}

/// What a node is: an element or a run of text.
#[derive(Debug, PartialEq)]
pub enum NodeType {
    Element(Element),
    Text(Text),
}

/// An element: its tag name and its attributes.
#[derive(Debug, PartialEq)]
pub struct Element {
    pub tag_name: String,
    pub attributes: AttrMap,
}

/// A run of text.
#[derive(Debug, PartialEq)]
pub struct Text {
    pub data: String,
}

/// The mathematical value of an [`Element`].
pub struct ElementView {
    pub tag_name: Seq<char>,
    pub attributes: Map<Seq<char>, Seq<char>>,
}

/// The mathematical value of a [`NodeType`].
pub enum NodeTypeView {
    Element(ElementView),
    Text(Seq<char>),
}

/// The mathematical value of a [`Node`].
pub struct NodeView {
    pub node_type: NodeTypeView,
    pub children: Seq<NodeView>,
}

impl View for Element {
    type V = ElementView;

    open spec fn view(&self) -> ElementView {
        ElementView { tag_name: self.tag_name@, attributes: self.attributes@ }
    }
}

impl View for Text {
    type V = Seq<char>;

    open spec fn view(&self) -> Seq<char> {
        self.data@
    }
}

impl View for NodeType {
    type V = NodeTypeView;

    open spec fn view(&self) -> NodeTypeView {
        match self {
            NodeType::Element(e) => NodeTypeView::Element(e@),
            NodeType::Text(t) => NodeTypeView::Text(t@),
        }
    }
}

impl Node {
    /// The mathematical value of the node: its own kind and the values of
    /// its children, in order.
    pub open spec fn model(&self) -> NodeView
        decreases self,
    {
        NodeView {
            node_type: self.node_type@,
            children: Seq::new(
                self.children@.len(),
                |i: int|
                    if 0 <= i < self.children@.len() {
                        self.children@[i].model()
                    } else {
                        arbitrary()
                    },
            ),
        }
    }
}

impl View for Node {
    type V = NodeView;

    open spec fn view(&self) -> NodeView {
        self.model()
    }
}

/// The views of a sequence of values, in order.
pub open spec fn views<T: View>(items: Seq<T>) -> Seq<T::V> {
    Seq::new(items.len(), |i: int| items[i]@)
}

impl Node {
    /// The children of a node's view are the views of its children.
    pub proof fn lemma_view(&self)
        ensures
            self@.node_type == self.node_type@,
            self@.children == views(self.children@),
    {
        assert(self@.children =~= views(self.children@));
    }
}

impl Element {
    /// A new element node.
    pub fn new(name: String, attributes: AttrMap, children: Vec<Box<Node>>) -> (node: Box<Node>)
        ensures
            node@ == (NodeView {
                node_type: NodeTypeView::Element(
                    ElementView { tag_name: name@, attributes: attributes@ },
                ),
                children: views(children@),
            }),
    {
        let node = Box::new(
            Node { node_type: NodeType::Element(Element { tag_name: name, attributes }), children },
        );
        proof {
            node.lemma_view();
        }
        node
    }
}

impl Text {
    /// A new text node, without children.
    pub fn new(text: String) -> (node: Box<Node>)
        ensures
            node@ == (NodeView { node_type: NodeTypeView::Text(text@), children: Seq::empty() }),
    {
        let node = Box::new(Node { node_type: NodeType::Text(Text { data: text }), children: Vec::new() });
        proof {
            node.lemma_view();
            assert(views(node.children@) =~= Seq::<NodeView>::empty());
        }
        node
    }
}

/// Whether an element is tagged `tag_name`. Text has no tag.
pub open spec fn has_tag(n: NodeTypeView, tag_name: Seq<char>) -> bool {
    match n {
        NodeTypeView::Element(e) => e.tag_name == tag_name,
        NodeTypeView::Text(_) => false,
    }
}

/// The text below the node `n`: the text of its children, in document
/// order, where the text of a text node is its data and the text of an
/// element is the text below it.
pub open spec fn inner_text_of(n: NodeView) -> Seq<char>
    decreases n, n.children.len() + 1,
{
    inner_text_upto(n, n.children.len())
}

/// The text of the first `k` children of `n`.
pub open spec fn inner_text_upto(n: NodeView, k: nat) -> Seq<char>
    decreases n, k,
{
    if k == 0 || k > n.children.len() {
        Seq::empty()
    } else {
        let child = n.children[k - 1];
        inner_text_upto(n, (k - 1) as nat) + (match child.node_type {
            NodeTypeView::Text(data) => data,
            NodeTypeView::Element(_) => inner_text_of(child),
        })
    }
}

/// The inner texts of the elements tagged `tag_name` at and below `n`, in
/// document order. The search does not go on below an element that it
/// found.
pub open spec fn tag_inners(n: NodeView, tag_name: Seq<char>) -> Seq<Seq<char>>
    decreases n, n.children.len() + 1,
{
    if has_tag(n.node_type, tag_name) {
        seq![inner_text_of(n)]
    } else {
        tag_inners_upto(n, tag_name, n.children.len())
    }
}

/// What [`tag_inners`] finds at and below the first `k` children of `n`.
pub open spec fn tag_inners_upto(n: NodeView, tag_name: Seq<char>, k: nat) -> Seq<Seq<char>>
    decreases n, k,
{
    if k == 0 || k > n.children.len() {
        Seq::empty()
    } else {
        tag_inners_upto(n, tag_name, (k - 1) as nat) + tag_inners(n.children[k - 1], tag_name)
    }
}

impl NodeType {
    /// Whether this is an element tagged `tag_name`.
    pub fn is_tagged(&self, tag_name: &str) -> (b: bool)
        ensures
            b == has_tag(self@, tag_name@),
    {
        match self {
            NodeType::Element(e) => same_text(e.tag_name.as_str(), tag_name),
            NodeType::Text(_) => false,
        }
    }
}

impl Node {
    /// The text below the node.
    pub fn inner_text(&self) -> (text: String)
        ensures
            text@ == inner_text_of(self@),
        decreases self,
    {
        let mut text = String::new();
        let mut i: usize = 0;
        proof {
            self.lemma_view();
        }
        while i < self.children.len()
            invariant
                i <= self.children@.len(),
                self@.children == views(self.children@),
                text@ == inner_text_upto(self@, i as nat),
            decreases self.children@.len() - i,
        {
            let child = &self.children[i];
            proof {
                child.lemma_view();
                assert(self@.children[i as int] == child@);
            }
            match &child.node_type {
                NodeType::Text(t) => {
                    text.append(t.data.as_str());
                },
                NodeType::Element(_) => {
                    let below = child.inner_text();
                    text.append(below.as_str());
                },
            }
            i += 1;
        }
        text
    }
}

/// The inner texts of the elements tagged `tag_name` at and below `node`,
/// in document order.
pub fn collect_tag_inners(node: &Box<Node>, tag_name: &str) -> (found: Vec<String>)
    ensures
        views(found@) == tag_inners(node@, tag_name@),
    decreases node,
{
    proof {
        node.lemma_view();
    }
    if node.node_type.is_tagged(tag_name) {
        let mut found: Vec<String> = Vec::new();
        found.push(node.inner_text());
        assert(views(found@) =~= seq![inner_text_of(node@)]);
        return found;
    }
    let mut found: Vec<String> = Vec::new();
    let mut i: usize = 0;
    assert(views(found@) =~= Seq::<Seq<char>>::empty());
    while i < node.children.len()
        invariant
            i <= node.children@.len(),
            node@.children == views(node.children@),
            views(found@) == tag_inners_upto(node@, tag_name@, i as nat),
        decreases node.children@.len() - i,
    {
        let mut below = collect_tag_inners(&node.children[i], tag_name);
        proof {
            assert(node@.children[i as int] == node.children@[i as int]@);
            assert(views(found@ + below@) =~= views(found@) + views(below@));
        }
        found.append(&mut below);
        i += 1;
    }
    found
}

} // verus!

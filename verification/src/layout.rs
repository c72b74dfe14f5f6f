//! Layout: which kind of box each styled node becomes.
//!
//! The `display` property decides. A node whose display is `none` gets no
//! box, and neither does anything below it. A node whose display is
//! `inline` gets an inline box. Every other node, whether its display is
//! `block`, unset or unknown, gets a block box. Inline children are not
//! grouped into anonymous boxes: the children of a box are the boxes of the
//! visible children, in document order.
use crate::chars::same_text;
use crate::css::{CSSValue, ValueView};
use crate::dom::{NodeType, NodeTypeView};
use crate::style::{PropertyMap, StyledNode, StyledNodeView};
use vstd::prelude::*;

verus! {

/// How a node takes part in layout.
#[derive(Debug, PartialEq, Eq, Structural, Clone, Copy)]
pub enum Display {
    Block,
    Inline,
    Hidden,
}

/// What a box knows of the node it stands for.
#[derive(Debug, PartialEq)]
pub struct BoxProps<'a> {
    pub node_type: &'a NodeType,
    pub properties: PropertyMap,
}

/// The kind of a box.
#[derive(Debug, PartialEq)]
pub enum BoxType<'a> {
    BlockBox(BoxProps<'a>),
    InlineBox(BoxProps<'a>),
    AnonymousBox,
}

/// A box of the layout tree.
#[derive(Debug, PartialEq)]
pub struct LayoutBox<'a> {
    pub box_type: BoxType<'a>,
    pub children: Vec<LayoutBox<'a>>,
}

/// The mathematical value of a [`BoxProps`].
pub struct BoxPropsView {
    pub node_type: NodeTypeView,
    pub properties: Map<Seq<char>, ValueView>,
}

/// The mathematical value of a [`BoxType`].
pub enum BoxTypeView {
    Block(BoxPropsView),
    Inline(BoxPropsView),
    Anonymous,
}

/// The mathematical value of a [`LayoutBox`].
pub struct LayoutBoxView {
    pub box_type: BoxTypeView,
    pub children: Seq<LayoutBoxView>,
}

impl<'a> View for BoxProps<'a> {
    type V = BoxPropsView;

    open spec fn view(&self) -> BoxPropsView {
        BoxPropsView { node_type: self.node_type@, properties: self.properties@ }
    }
}

impl<'a> View for BoxType<'a> {
    type V = BoxTypeView;

    open spec fn view(&self) -> BoxTypeView {
        match self {
            BoxType::BlockBox(p) => BoxTypeView::Block(p@),
            BoxType::InlineBox(p) => BoxTypeView::Inline(p@),
            BoxType::AnonymousBox => BoxTypeView::Anonymous,
        }
    }
}

impl<'a> LayoutBox<'a> {
    /// The mathematical value of the box: its kind and the values of its
    /// children, in order.
    pub open spec fn model(&self) -> LayoutBoxView
        decreases self,
    {
        LayoutBoxView {
            box_type: self.box_type@,
            children: Seq::new(
                self.children@.len(),
                |i: int|
                    if 0 <= i < self.children@.len() {
                        self.children@[i].model()
                    } else {
                        arbitrary()
                    },
            ),
        }
    }
}

impl<'a> View for LayoutBox<'a> {
    type V = LayoutBoxView;

    open spec fn view(&self) -> LayoutBoxView {
        self.model()
    }
}

/// The display that the properties `properties` ask for: `none` and
/// `inline` where the `display` property holds that keyword, `block` in
/// every other case.
pub open spec fn display_of(properties: Map<Seq<char>, ValueView>) -> Display {
    if properties.contains_key("display"@) {
        match properties["display"@] {
            ValueView::Keyword(k) => if k == "none"@ {
                Display::Hidden
            } else if k == "inline"@ {
                Display::Inline
            } else {
                Display::Block
            },
        }
    } else {
        Display::Block
    }
}

/// The box of the styled node `s`.
///
/// A node whose display is `none` has no box of its own: asked for one, it
/// gives an anonymous box without children.
pub open spec fn layout(s: StyledNodeView) -> LayoutBoxView
    decreases s, s.children.len() + 1,
{
    let props = BoxPropsView { node_type: s.node_type, properties: s.properties };
    match display_of(s.properties) {
        Display::Hidden => LayoutBoxView { box_type: BoxTypeView::Anonymous, children: Seq::empty() },
        Display::Inline => LayoutBoxView {
            box_type: BoxTypeView::Inline(props),
            children: layout_children(s, s.children.len()),
        },
        Display::Block => LayoutBoxView {
            box_type: BoxTypeView::Block(props),
            children: layout_children(s, s.children.len()),
        },
    }
}

/// The boxes of the first `n` children of `s`, in order, without those
/// whose display is `none`.
pub open spec fn layout_children(s: StyledNodeView, n: nat) -> Seq<LayoutBoxView>
    decreases s, n,
{
    if n == 0 || n > s.children.len() {
        Seq::empty()
    } else {
        let before = layout_children(s, (n - 1) as nat);
        let child = s.children[n - 1];
        if display_of(child.properties) == Display::Hidden {
            before
        } else {
            before.push(layout(child))
        }
    }
}

/// Whether every box of the tree `b` that stands for a node stands for one
/// whose display is not `none`.
pub open spec fn all_visible(b: LayoutBoxView) -> bool
    decreases b,
{
    &&& match b.box_type {
        BoxTypeView::Block(p) => display_of(p.properties) != Display::Hidden,
        BoxTypeView::Inline(p) => display_of(p.properties) != Display::Hidden,
        BoxTypeView::Anonymous => true,
    }
    &&& forall|i: int| 0 <= i < b.children.len() ==> all_visible(#[trigger] b.children[i])
}

/// The styled node `s` without its child at index `i` and all that is below
/// that child.
pub open spec fn without_child(s: StyledNodeView, i: int) -> StyledNodeView {
    StyledNodeView { node_type: s.node_type, children: s.children.remove(i), properties: s.properties }
}

/// No box of a layout tree stands for a node whose display is `none`.
pub proof fn lemma_hidden_nodes_have_no_box(s: StyledNodeView)
    ensures
        all_visible(layout(s)),
    decreases s, s.children.len() + 1,
{
    lemma_children_visible(s, s.children.len());
    let b = layout(s);
    assert(display_of(s.properties) != Display::Hidden ==> b.children == layout_children(
        s,
        s.children.len(),
    ));
    assert(forall|i: int| 0 <= i < b.children.len() ==> all_visible(#[trigger] b.children[i]));
}

/// The statement of `lemma_hidden_nodes_have_no_box` for the boxes of the
/// first `n` children of `s`.
proof fn lemma_children_visible(s: StyledNodeView, n: nat)
    ensures
        forall|i: int|
            0 <= i < layout_children(s, n).len() ==> all_visible(
                #[trigger] layout_children(s, n)[i],
            ),
    decreases s, n,
{
    if !(n == 0 || n > s.children.len()) {
        lemma_children_visible(s, (n - 1) as nat);
        let before = layout_children(s, (n - 1) as nat);
        let child = s.children[n - 1];
        if display_of(child.properties) != Display::Hidden {
            lemma_hidden_nodes_have_no_box(child);
            assert forall|i: int| 0 <= i < layout_children(s, n).len() implies all_visible(
                #[trigger] layout_children(s, n)[i],
            ) by {
                if i < before.len() {
                    assert(layout_children(s, n)[i] == before[i]);
                } else {
                    assert(layout_children(s, n)[i] == layout(child));
                }
            }
        }
    }
}

/// A child whose display is `none` leaves no trace in the layout tree,
/// whatever stands below it: the tree is the one that the parent has
/// without that child.
pub proof fn lemma_hidden_subtree_leaves_no_trace(s: StyledNodeView, i: int)
    requires
        0 <= i < s.children.len(),
        display_of(s.children[i].properties) == Display::Hidden,
    ensures
        layout(without_child(s, i)) == layout(s),
{
    let t = without_child(s, i);
    lemma_children_without(s, i, s.children.len());
    assert(t.children.len() == s.children.len() - 1);
}

/// The statement of `lemma_hidden_subtree_leaves_no_trace` for the boxes
/// of the first `n` children of `s`.
proof fn lemma_children_without(s: StyledNodeView, i: int, n: nat)
    requires
        0 <= i < s.children.len(),
        display_of(s.children[i].properties) == Display::Hidden,
        n <= s.children.len(),
    ensures
        n <= i ==> layout_children(without_child(s, i), n) == layout_children(s, n),
        n > i ==> layout_children(without_child(s, i), (n - 1) as nat) == layout_children(s, n),
    decreases n,
{
    let t = without_child(s, i);
    if n > 0 {
        lemma_children_without(s, i, (n - 1) as nat);
        if n <= i {
            assert(t.children[n - 1] == s.children[n - 1]);
        } else if n - 1 > i {
            assert(t.children[n - 2] == s.children[n - 1]);
        }
    }
}

/// The styled node `s` without the nodes at any depth below it whose
/// display is `none`, and without all that is below those.
pub open spec fn pruned(s: StyledNodeView) -> StyledNodeView
    decreases s, s.children.len() + 1,
{
    StyledNodeView {
        node_type: s.node_type,
        children: pruned_children(s, s.children.len()),
        properties: s.properties,
    }
}

/// The first `n` children of `s`, pruned, without those whose display is
/// `none`.
pub open spec fn pruned_children(s: StyledNodeView, n: nat) -> Seq<StyledNodeView>
    decreases s, n,
{
    if n == 0 || n > s.children.len() {
        Seq::empty()
    } else {
        let before = pruned_children(s, (n - 1) as nat);
        let child = s.children[n - 1];
        if display_of(child.properties) == Display::Hidden {
            before
        } else {
            before.push(pruned(child))
        }
    }
}

/// Whether no node below `s`, at any depth, has the display `none`.
pub open spec fn nothing_hidden_below(s: StyledNodeView) -> bool
    decreases s,
{
    forall|i: int|
        0 <= i < s.children.len() ==> display_of((#[trigger] s.children[i]).properties)
            != Display::Hidden && nothing_hidden_below(s.children[i])
}

/// The layout tree of a styled tree is the layout tree of what is left of
/// it when every node whose display is `none` is cut out with all that is
/// below it: such a node and the nodes below it, whatever their own
/// display, have no part in the layout tree.
pub proof fn lemma_layout_of_pruned(s: StyledNodeView)
    ensures
        layout(pruned(s)) == layout(s),
        nothing_hidden_below(pruned(s)),
    decreases s, s.children.len() + 1,
{
    lemma_pruned_children(s, s.children.len());
    let p = pruned(s);
    assert(p.children == pruned_children(s, s.children.len()));
}

/// The statement of `lemma_layout_of_pruned` for the first `n` children of
/// `s`.
proof fn lemma_pruned_children(s: StyledNodeView, n: nat)
    requires
        n <= s.children.len(),
    ensures
        ({
            let kept = StyledNodeView {
                node_type: s.node_type,
                children: pruned_children(s, n),
                properties: s.properties,
            };
            &&& layout_children(kept, kept.children.len()) == layout_children(s, n)
            &&& nothing_hidden_below(kept)
        }),
    decreases s, n,
{
    let kept = StyledNodeView {
        node_type: s.node_type,
        children: pruned_children(s, n),
        properties: s.properties,
    };
    if n > 0 {
        lemma_pruned_children(s, (n - 1) as nat);
        let before = StyledNodeView {
            node_type: s.node_type,
            children: pruned_children(s, (n - 1) as nat),
            properties: s.properties,
        };
        let child = s.children[n - 1];
        if display_of(child.properties) != Display::Hidden {
            lemma_layout_of_pruned(child);
            assert(kept.children == before.children.push(pruned(child)));
            lemma_layout_children_prefix(kept, before, before.children.len());
            assert forall|i: int| 0 <= i < kept.children.len() implies display_of(
                (#[trigger] kept.children[i]).properties,
            ) != Display::Hidden && nothing_hidden_below(kept.children[i]) by {
                if i < before.children.len() {
                    assert(kept.children[i] == before.children[i]);
                }
            }
        } else {
            assert(kept == before);
        }
    }
}

/// The boxes of the first `n` children depend on those children only.
proof fn lemma_layout_children_prefix(a: StyledNodeView, b: StyledNodeView, n: nat)
    requires
        n <= a.children.len(),
        n <= b.children.len(),
        forall|i: int| 0 <= i < n ==> a.children[i] == b.children[i],
    ensures
        layout_children(a, n) == layout_children(b, n),
    decreases n,
{
    if n > 0 {
        lemma_layout_children_prefix(a, b, (n - 1) as nat);
    }
}

/// The display that `properties` ask for.
pub fn display(properties: &PropertyMap) -> (d: Display)
    ensures
        d == display_of(properties@),
{
    match properties.get("display") {
        Some(CSSValue::Keyword(k)) => {
            if same_text(k.as_str(), "none") {
                Display::Hidden
            } else if same_text(k.as_str(), "inline") {
                Display::Inline
            } else {
                Display::Block
            }
        },
        None => Display::Block,
    }
}

/// Builds the layout tree of a styled tree.
pub fn to_layout_box<'a>(snode: StyledNode<'a>) -> (b: LayoutBox<'a>)
    ensures
        b@ == layout(snode@),
    decreases snode,
{
    let ghost s = snode@;
    let StyledNode { node_type, children, properties } = snode;
    let d = display(&properties);
    if d == Display::Hidden {
        let b = LayoutBox { box_type: BoxType::AnonymousBox, children: Vec::new() };
        assert(b@.children =~= Seq::<LayoutBoxView>::empty());
        return b;
    }
    let ghost all = children@;
    let mut boxes: Vec<LayoutBox<'a>> = Vec::new();
    for child in it: children
        invariant
            it.seq() == all,
            s.children.len() == all.len(),
            forall|j: int| 0 <= j < all.len() ==> s.children[j] == (#[trigger] all[j])@,
            forall|j: int| 0 <= j < all.len() ==> decreases_to!(snode => #[trigger] all[j]),
            boxes@.len() == layout_children(s, it.index() as nat).len(),
            forall|j: int|
                0 <= j < boxes@.len() ==> (#[trigger] boxes@[j])@ == layout_children(
                    s,
                    it.index() as nat,
                )[j],
    {
        assert(child == all[it.index() as int]);
        if display(&child.properties) != Display::Hidden {
            let laid = to_layout_box(child);
            boxes.push(laid);
        }
    }
    let props = BoxProps { node_type, properties };
    let b = match d {
        Display::Inline => LayoutBox { box_type: BoxType::InlineBox(props), children: boxes },
        _ => LayoutBox { box_type: BoxType::BlockBox(props), children: boxes },
    };
    assert(b@.children =~= layout(s).children);
    b
}

} // verus!

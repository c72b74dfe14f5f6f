//! What a layout tree looks like on screen: titled panels for elements,
//! trimmed text for text, nothing for text that is blank.
use crate::dom::{NodeType, NodeTypeView};
use crate::layout::{BoxProps, BoxPropsView, BoxType, BoxTypeView, LayoutBox, LayoutBoxView};
use crate::scan::{
    belongs, classify, glyphs_of, run_end, scan, text_between, text_of, CharClass, Glyph,
};
use vstd::prelude::*;

verus! {

/// The direction in which a panel lines up its children.
#[derive(Debug, PartialEq, Eq, Structural, Clone, Copy)]
pub enum Orientation {
    Vertical,
    Horizontal,
}

/// What is drawn for a box.
#[derive(Debug, PartialEq)]
pub enum ElementContainer {
    /// A panel titled with a tag name, its children one below the other.
    Titled { title: String, children: Vec<ElementContainer> },
    /// A panel without a title, its children side by side.
    Row { children: Vec<ElementContainer> },
    /// A line of text.
    Label { text: String },
    /// Nothing.
    Empty,
}

/// The mathematical value of an [`ElementContainer`].
pub enum ContainerView {
    Titled { title: Seq<char>, children: Seq<ContainerView> },
    Row { children: Seq<ContainerView> },
    Label { text: Seq<char> },
    Empty,
}

impl ElementContainer {
    /// The mathematical value of the container.
    pub open spec fn model(&self) -> ContainerView
        decreases self,
    {
        match self {
            ElementContainer::Titled { title, children } => ContainerView::Titled {
                title: title@,
                children: Seq::new(
                    children@.len(),
                    |i: int|
                        if 0 <= i < children@.len() {
                            children@[i].model()
                        } else {
                            arbitrary()
                        },
                ),
            },
            ElementContainer::Row { children } => ContainerView::Row {
                children: Seq::new(
                    children@.len(),
                    |i: int|
                        if 0 <= i < children@.len() {
                            children@[i].model()
                        } else {
                            arbitrary()
                        },
                ),
            },
            ElementContainer::Label { text } => ContainerView::Label { text: text@ },
            ElementContainer::Empty => ContainerView::Empty,
        }
    }

    /// The direction in which the container lines up its children, if it
    /// is a panel.
    pub fn orientation(&self) -> (o: Option<Orientation>)
        ensures
            o == (match self@ {
                ContainerView::Titled { .. } => Some(Orientation::Vertical),
                ContainerView::Row { .. } => Some(Orientation::Horizontal),
                _ => None::<Orientation>,
            }),
    {
        match self {
            ElementContainer::Titled { .. } => Some(Orientation::Vertical),
            ElementContainer::Row { .. } => Some(Orientation::Horizontal),
            _ => None,
        }
    }
}

impl View for ElementContainer {
    type V = ContainerView;

    open spec fn view(&self) -> ContainerView {
        self.model()
    }
}

/// The first `n` glyphs of `s` without the line breaks among them.
pub open spec fn unbroken(s: Seq<Glyph>, n: nat) -> Seq<Glyph>
    decreases n,
{
    if n == 0 || n > s.len() {
        Seq::empty()
    } else if s[n - 1].c == '\n' {
        unbroken(s, (n - 1) as nat)
    } else {
        unbroken(s, (n - 1) as nat).push(s[n - 1])
    }
}

/// Where the text of `s` ends once the white space at its end is taken
/// off: after the last glyph of the first `n` that is no white space.
pub open spec fn trimmed_end(s: Seq<Glyph>, n: nat) -> nat
    decreases n,
{
    if n == 0 || n > s.len() || !s[n - 1].space {
        n
    } else {
        trimmed_end(s, (n - 1) as nat)
    }
}

/// The characters of `s` without the white space at its start and at its
/// end.
pub open spec fn trimmed(s: Seq<Glyph>) -> Seq<char> {
    let start = run_end(s, 0, CharClass::Space);
    let end = trimmed_end(s, s.len());
    if start < end {
        text_between(s, start, end as int)
    } else {
        Seq::empty()
    }
}

/// The text shown for the glyphs of the data of a text node: the data
/// without its line breaks, then without the white space around it.
pub open spec fn shown(s: Seq<Glyph>) -> Seq<char> {
    trimmed(unbroken(s, s.len()))
}

/// The text shown for the data of a text node.
pub open spec fn shown_text(data: Seq<char>) -> Seq<char> {
    shown(glyphs_of(data))
}

/// What is drawn for the box `b`.
///
/// A box of an element is a panel titled with the tag name that holds what
/// is drawn for the children of the box. A box of text is its shown text,
/// or nothing where that is empty, whatever children the box has. An
/// anonymous box is a row of what is drawn for its children.
pub open spec fn drawn(b: LayoutBoxView) -> ContainerView
    decreases b, b.children.len() + 2,
{
    match b.box_type {
        BoxTypeView::Block(p) => drawn_for(b, p),
        BoxTypeView::Inline(p) => drawn_for(b, p),
        BoxTypeView::Anonymous => ContainerView::Row { children: drawn_children(b, b.children.len()) },
    }
}

/// What is drawn for the box `b` of the node that `p` describes.
pub open spec fn drawn_for(b: LayoutBoxView, p: BoxPropsView) -> ContainerView
    decreases b, b.children.len() + 1,
{
    match p.node_type {
        NodeTypeView::Element(e) => ContainerView::Titled {
            title: e.tag_name,
            children: drawn_children(b, b.children.len()),
        },
        NodeTypeView::Text(data) => if shown_text(data).len() > 0 {
            ContainerView::Label { text: shown_text(data) }
        } else {
            ContainerView::Empty
        },
    }
}

/// What is drawn for the first `n` children of `b`, in order.
pub open spec fn drawn_children(b: LayoutBoxView, n: nat) -> Seq<ContainerView>
    decreases b, n,
{
    if n == 0 || n > b.children.len() {
        Seq::empty()
    } else {
        drawn_children(b, (n - 1) as nat).push(drawn(b.children[n - 1]))
    }
}

/// What is drawn where there is nothing to draw.
pub fn new_element_container() -> (c: ElementContainer)
    ensures
        c@ == ContainerView::Empty,
{
    ElementContainer::Empty
}

/// The text shown for the glyphs of the data of a text node.
pub fn shown_glyphs(all: &Vec<Glyph>) -> (text: String)
    ensures
        text@ == shown(all@),
{
    let mut kept: Vec<Glyph> = Vec::new();
    let mut i: usize = 0;
    while i < all.len()
        invariant
            i <= all@.len(),
            kept@ == unbroken(all@, i as nat),
        decreases all@.len() - i,
    {
        if all[i].c != '\n' {
            kept.push(all[i]);
        }
        i += 1;
    }
    let start = scan(&kept, 0, CharClass::Space);
    let mut end: usize = kept.len();
    while end > 0 && belongs(CharClass::Space, kept[end - 1])
        invariant
            end <= kept@.len(),
            trimmed_end(kept@, kept@.len()) == trimmed_end(kept@, end as nat),
        decreases end,
    {
        end -= 1;
    }
    if start < end {
        text_of(&kept, start, end)
    } else {
        String::new()
    }
}

/// The text shown for the data of a text node.
pub fn text_to_display(data: &str) -> (text: String)
    ensures
        text@ == shown_text(data@),
{
    shown_glyphs(&classify(data))
}

/// What is drawn for the node that `p` describes, where `children` is
/// drawn for the children of its box.
fn container_for<'a>(p: &BoxProps<'a>, children: Vec<ElementContainer>) -> (c: ElementContainer)
    ensures
        c@ == (match p@.node_type {
            NodeTypeView::Element(e) => ContainerView::Titled {
                title: e.tag_name,
                children: Seq::new(children@.len(), |i: int| children@[i]@),
            },
            NodeTypeView::Text(data) => if shown_text(data).len() > 0 {
                ContainerView::Label { text: shown_text(data) }
            } else {
                ContainerView::Empty
            },
        }),
{
    match p.node_type {
        NodeType::Element(element) => {
            let c = ElementContainer::Titled { title: element.tag_name.clone(), children };
            assert(c@->Titled_children =~= Seq::new(children@.len(), |i: int| children@[i]@));
            c
        },
        NodeType::Text(t) => {
            let text = text_to_display(t.data.as_str());
            if !text.as_str().is_empty() {
                ElementContainer::Label { text }
            } else {
                ElementContainer::Empty
            }
        },
    }
}

/// What is drawn for the box `layout`.
pub fn to_element_container<'a>(layout: LayoutBox<'a>) -> (c: ElementContainer)
    ensures
        c@ == drawn(layout@),
    decreases layout,
{
    let ghost b = layout@;
    let LayoutBox { box_type, children } = layout;
    let ghost all = children@;
    let mut drawn_boxes: Vec<ElementContainer> = Vec::new();
    for child in it: children
        invariant
            it.seq() == all,
            b.children.len() == all.len(),
            forall|j: int| 0 <= j < all.len() ==> b.children[j] == (#[trigger] all[j])@,
            forall|j: int| 0 <= j < all.len() ==> decreases_to!(layout => #[trigger] all[j]),
            drawn_boxes@.len() == it.index(),
            forall|j: int|
                0 <= j < it.index() ==> (#[trigger] drawn_boxes@[j])@ == drawn(b.children[j]),
    {
        assert(child == all[it.index() as int]);
        let c = to_element_container(child);
        drawn_boxes.push(c);
    }
    proof {
        lemma_drawn_children(b, b.children.len());
        assert(Seq::new(drawn_boxes@.len(), |i: int| drawn_boxes@[i]@) =~= drawn_children(
            b,
            b.children.len(),
        ));
    }
    match &box_type {
        BoxType::BlockBox(p) => container_for(p, drawn_boxes),
        BoxType::InlineBox(p) => container_for(p, drawn_boxes),
        BoxType::AnonymousBox => {
            let c = ElementContainer::Row { children: drawn_boxes };
            assert(c@->Row_children =~= Seq::new(drawn_boxes@.len(), |i: int| drawn_boxes@[i]@));
            c
        },
    }
}

/// What is drawn for the first `n` children of a box is what is drawn for
/// each of them, in order.
pub proof fn lemma_drawn_children(b: LayoutBoxView, n: nat)
    requires
        n <= b.children.len(),
    ensures
        drawn_children(b, n).len() == n,
        forall|i: int| 0 <= i < n ==> #[trigger] drawn_children(b, n)[i] == drawn(b.children[i]),
    decreases n,
{
    if n > 0 {
        lemma_drawn_children(b, (n - 1) as nat);
    }
}

} // verus!

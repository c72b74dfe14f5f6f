//! Writing a tree back as markup.
//!
//! A map of attributes has no order, markup has one. A [`Draft`] is a tree
//! together with the order in which the attributes of each element are
//! written: the markup of a draft is fixed, and several drafts stand for
//! one tree.
use crate::chars::{is_letter, is_space};
use crate::dict::lists;
use crate::dom::{views, AttrMap, ElementView, Node, NodeType, NodeTypeView, NodeView};
use vstd::prelude::*;
use vstd::string::StringExecFns;

verus! {

/// Attributes in the order in which they are written: names and values.
pub type Attributes = Seq<(Seq<char>, Seq<char>)>;

/// What a draft is: an element with its attributes in writing order, or
/// text.
pub enum DraftKind {
    Element { tag_name: Seq<char>, attributes: Attributes },
    Text(Seq<char>),
}

/// A tree together with the order in which the attributes of each element
/// are written.
pub struct Draft {
    pub kind: DraftKind,
    pub children: Seq<Draft>,
}

/// The map that the first `k` of `attributes` make when they are inserted
/// one after the other: of two attributes with one name the later stays.
pub open spec fn attributes_map(attributes: Attributes, k: nat) -> Map<Seq<char>, Seq<char>>
    decreases k,
{
    if k == 0 || k > attributes.len() {
        Map::empty()
    } else {
        attributes_map(attributes, (k - 1) as nat).insert(
            attributes[k - 1].0,
            attributes[k - 1].1,
        )
    }
}

/// The tree that the draft `d` stands for.
pub open spec fn tree_of(d: Draft) -> NodeView
    decreases d,
{
    NodeView {
        node_type: match d.kind {
            DraftKind::Text(data) => NodeTypeView::Text(data),
            DraftKind::Element { tag_name, attributes } => NodeTypeView::Element(
                ElementView {
                    tag_name,
                    attributes: attributes_map(attributes, attributes.len()),
                },
            ),
        },
        children: Seq::new(
            d.children.len(),
            |i: int|
                if 0 <= i < d.children.len() {
                    tree_of(d.children[i])
                } else {
                    arbitrary()
                },
        ),
    }
}

/// The trees that the drafts `drafts` stand for.
pub open spec fn trees_of(drafts: Seq<Draft>) -> Seq<NodeView> {
    Seq::new(drafts.len(), |i: int| tree_of(drafts[i]))
}

/// The markup of one attribute: a blank, the name, `="`, the value and
/// `"`.
pub open spec fn attribute_markup(name: Seq<char>, value: Seq<char>) -> Seq<char> {
    seq![' '] + name + seq!['=', '"'] + value + seq!['"']
}

/// The markup of the first `k` of `attributes`.
pub open spec fn attributes_markup(attributes: Attributes, k: nat) -> Seq<char>
    decreases k,
{
    if k == 0 || k > attributes.len() {
        Seq::empty()
    } else {
        attributes_markup(attributes, (k - 1) as nat) + attribute_markup(
            attributes[k - 1].0,
            attributes[k - 1].1,
        )
    }
}

/// The open tag of an element.
pub open spec fn open_markup(tag_name: Seq<char>, attributes: Attributes) -> Seq<char> {
    seq!['<'] + tag_name + attributes_markup(attributes, attributes.len()) + seq!['>']
}

/// The close tag of an element.
pub open spec fn close_markup(tag_name: Seq<char>) -> Seq<char> {
    seq!['<', '/'] + tag_name + seq!['>']
}

/// The markup of the draft `d`: text is written as it is, an element as
/// its open tag, the markup of its children and its close tag.
pub open spec fn markup_of(d: Draft) -> Seq<char>
    decreases d, d.children.len() + 1,
{
    match d.kind {
        DraftKind::Text(data) => data,
        DraftKind::Element { tag_name, attributes } => open_markup(tag_name, attributes)
            + markup_upto(d, d.children.len()) + close_markup(tag_name),
    }
}

/// The markup of the first `k` children of `d`.
pub open spec fn markup_upto(d: Draft, k: nat) -> Seq<char>
    decreases d, k,
{
    if k == 0 || k > d.children.len() {
        Seq::empty()
    } else {
        markup_upto(d, (k - 1) as nat) + markup_of(d.children[k - 1])
    }
}

/// An element without a name and without attributes that holds `drafts`.
pub open spec fn holder(drafts: Seq<Draft>) -> Draft {
    Draft {
        kind: DraftKind::Element { tag_name: Seq::empty(), attributes: Seq::empty() },
        children: drafts,
    }
}

/// The markup of the drafts `drafts`, one after the other.
pub open spec fn markup_of_all(drafts: Seq<Draft>) -> Seq<char> {
    markup_upto(holder(drafts), drafts.len())
}

/// Whether `name` is one or more letters.
pub open spec fn is_name(name: Seq<char>) -> bool {
    name.len() > 0 && forall|i: int| 0 <= i < name.len() ==> is_letter(#[trigger] name[i])
}

/// Whether `name` can name an attribute: it is a name, and it does not
/// begin with a letter that is white space as well.
pub open spec fn is_attribute_name(name: Seq<char>) -> bool {
    is_name(name) && !is_space(name[0])
}

/// Whether `value` can be the value of an attribute: one or more
/// characters other than `"`.
pub open spec fn is_attribute_value(value: Seq<char>) -> bool {
    value.len() > 0 && forall|i: int| 0 <= i < value.len() ==> #[trigger] value[i] != '"'
}

/// Whether `data` is one or more characters other than `<`.
pub open spec fn is_text(data: Seq<char>) -> bool {
    data.len() > 0 && forall|i: int| 0 <= i < data.len() ==> #[trigger] data[i] != '<'
}

/// Whether every attribute of the map has a name and a value that can be
/// written.
pub open spec fn attributes_are_valid(attributes: Map<Seq<char>, Seq<char>>) -> bool {
    forall|name: Seq<char>| #[trigger]
        attributes.contains_key(name) ==> is_attribute_name(name) && is_attribute_value(
            attributes[name],
        )
}

/// Whether no two neighbours among `nodes` are both text.
pub open spec fn separated(nodes: Seq<NodeView>) -> bool {
    forall|i: int|
        0 <= i < nodes.len() - 1 ==> !((#[trigger] nodes[i]).node_type is Text && nodes[i
            + 1].node_type is Text)
}

/// Whether `n` is a tree that reading can give: tag names are names,
/// attributes can be written, text is not empty, holds no `<` and has no
/// children, and no two neighbours are both text.
pub open spec fn well_formed(n: NodeView) -> bool
    decreases n,
{
    match n.node_type {
        NodeTypeView::Text(data) => is_text(data) && n.children.len() == 0,
        NodeTypeView::Element(e) => {
            &&& is_name(e.tag_name)
            &&& attributes_are_valid(e.attributes)
            &&& separated(n.children)
            &&& forall|i: int| 0 <= i < n.children.len() ==> well_formed(#[trigger] n.children[i])
        },
    }
}

/// Whether `nodes` is a list of nodes that reading can give.
pub open spec fn well_formed_all(nodes: Seq<NodeView>) -> bool {
    &&& separated(nodes)
    &&& forall|i: int| 0 <= i < nodes.len() ==> well_formed(#[trigger] nodes[i])
}

/// Whether every one of `attributes` has a name and a value that can be
/// written.
pub open spec fn attributes_are_written_well(attributes: Attributes) -> bool {
    forall|i: int|
        0 <= i < attributes.len() ==> is_attribute_name((#[trigger] attributes[i]).0)
            && is_attribute_value(attributes[i].1)
}

/// Whether no two neighbours among `drafts` are both text.
pub open spec fn drafts_are_separated(drafts: Seq<Draft>) -> bool {
    forall|i: int|
        0 <= i < drafts.len() - 1 ==> !((#[trigger] drafts[i]).kind is Text && drafts[i
            + 1].kind is Text)
}

/// Whether the markup of `d` reads as `d`: what [`well_formed`] asks of a
/// tree, asked of a draft.
pub open spec fn well_written(d: Draft) -> bool
    decreases d,
{
    match d.kind {
        DraftKind::Text(data) => is_text(data) && d.children.len() == 0,
        DraftKind::Element { tag_name, attributes } => {
            &&& is_name(tag_name)
            &&& attributes_are_written_well(attributes)
            &&& children_are_written_well(d)
        },
    }
}

/// Whether the children of `d` are written well and no two neighbours
/// among them are both text.
pub open spec fn children_are_written_well(d: Draft) -> bool
    decreases d, 0int,
{
    &&& drafts_are_separated(d.children)
    &&& forall|i: int| 0 <= i < d.children.len() ==> well_written(#[trigger] d.children[i])
}

/// Whether `text` is markup of the trees `nodes`, one after the other: the
/// markup of drafts that stand for them and are written well.
pub open spec fn writes_all(text: Seq<char>, nodes: Seq<NodeView>) -> bool {
    exists|drafts: Seq<Draft>|
        #![trigger markup_of_all(drafts)]
        markup_of_all(drafts) == text && trees_of(drafts) == nodes && children_are_written_well(
            holder(drafts),
        )
}

/// Attributes that list a map, inserted one after the other, make the
/// map.
pub proof fn lemma_listing_makes_map(listing: Attributes, map: Map<Seq<char>, Seq<char>>)
    requires
        lists(listing, map),
    ensures
        attributes_map(listing, listing.len()) == map,
{
    lemma_listing_prefix(listing, listing.len());
    let made = attributes_map(listing, listing.len());
    assert forall|name: Seq<char>| made.contains_key(name) == map.contains_key(name) by {
        if map.contains_key(name) {
            let i = choose|i: int| 0 <= i < listing.len() && (#[trigger] listing[i]).0 == name;
            assert(made.contains_key(listing[i].0));
        }
    }
    assert(made =~= map);
}

/// What the first `k` attributes of a listing without repeated names make:
/// a map of their names to their values.
proof fn lemma_listing_prefix(listing: Attributes, k: nat)
    requires
        forall|i: int, j: int|
            0 <= i < j < listing.len() ==> (#[trigger] listing[i]).0 != (#[trigger] listing[j]).0,
        k <= listing.len(),
    ensures
        forall|i: int|
            0 <= i < k ==> attributes_map(listing, k).contains_key((#[trigger] listing[i]).0)
                && attributes_map(listing, k)[listing[i].0] == listing[i].1,
        forall|name: Seq<char>|
            attributes_map(listing, k).contains_key(name) ==> exists|i: int|
                0 <= i < k && (#[trigger] listing[i]).0 == name,
    decreases k,
{
    if k > 0 {
        lemma_listing_prefix(listing, (k - 1) as nat);
        let before = attributes_map(listing, (k - 1) as nat);
        assert forall|name: Seq<char>| attributes_map(listing, k).contains_key(name) implies exists|
            i: int,
        | 0 <= i < k && (#[trigger] listing[i]).0 == name by {
            if name == listing[k - 1].0 {
            } else {
                assert(before.contains_key(name));
                let i = choose|i: int| 0 <= i < k - 1 && (#[trigger] listing[i]).0 == name;
                assert(listing[i].0 == name);
            }
        }
    }
}

/// The draft of `node`: the node with the attributes of each element in
/// the order of their listing.
pub open spec fn draft_of(node: &Node) -> Draft
    decreases node,
{
    Draft {
        kind: match node.node_type {
            NodeType::Text(t) => DraftKind::Text(t.data@),
            NodeType::Element(e) => DraftKind::Element {
                tag_name: e.tag_name@,
                attributes: e.attributes.listing(),
            },
        },
        children: Seq::new(
            node.children@.len(),
            |i: int|
                if 0 <= i < node.children@.len() {
                    draft_of(&*node.children@[i])
                } else {
                    arbitrary()
                },
        ),
    }
}

/// The drafts of `nodes`.
pub open spec fn drafts_of(nodes: Seq<Box<Node>>) -> Seq<Draft> {
    Seq::new(nodes.len(), |i: int| draft_of(&*nodes[i]))
}

/// Appends the markup of the attributes of `attributes` to `text`, in the
/// order of their listing.
fn write_attributes(attributes: &AttrMap, text: &mut String)
    ensures
        final(text)@ == old(text)@ + attributes_markup(
            attributes.listing(),
            attributes.listing().len(),
        ),
        lists(attributes.listing(), attributes@),
{
    let n = attributes.len();
    let ghost listing = attributes.listing();
    proof {
        reveal_strlit(" ");
        reveal_strlit("=\"");
        reveal_strlit("\"");
    }
    let mut i: usize = 0;
    assert(text@ =~= old(text)@ + attributes_markup(listing, 0));
    while i < n
        invariant
            i <= n,
            n == listing.len(),
            listing == attributes.listing(),
            " "@ == seq![' '],
            "=\""@ == seq!['=', '"'],
            "\""@ == seq!['"'],
            text@ == old(text)@ + attributes_markup(listing, i as nat),
        decreases n - i,
    {
        let ghost before = attributes_markup(listing, i as nat);
        let (name, value) = attributes.entry_at(i);
        text.append(" ");
        text.append(name.as_str());
        text.append("=\"");
        text.append(value.as_str());
        text.append("\"");
        assert(text@ =~= old(text)@ + (before + attribute_markup(name@, value@)));
        i += 1;
    }
}

/// Appends the markup of `node` to `text`.
fn write_markup(node: &Node, text: &mut String)
    ensures
        final(text)@ == old(text)@ + markup_of(draft_of(node)),
        well_formed(node@) ==> tree_of(draft_of(node)) == node@ && well_written(draft_of(node)),
    decreases node,
{
    let ghost d = draft_of(node);
    proof {
        node.lemma_view();
        reveal_strlit("<");
        reveal_strlit(">");
        reveal_strlit("</");
    }
    match &node.node_type {
        NodeType::Text(t) => {
            text.append(t.data.as_str());
            assert(well_formed(node@) ==> tree_of(d).children =~= node@.children);
        },
        NodeType::Element(e) => {
            text.append("<");
            text.append(e.tag_name.as_str());
            write_attributes(&e.attributes, text);
            text.append(">");
            let ghost opened = text@;
            proof {
                assert(opened =~= old(text)@ + open_markup(e.tag_name@, e.attributes.listing()));
                lemma_listing_makes_map(e.attributes.listing(), e.attributes@);
            }
            let mut i: usize = 0;
            assert(text@ =~= opened + markup_upto(d, 0));
            while i < node.children.len()
                invariant
                    i <= node.children@.len(),
                    d == draft_of(node),
                    d.children.len() == node.children@.len(),
                    node@.children == views(node.children@),
                    text@ == opened + markup_upto(d, i as nat),
                    forall|j: int|
                        0 <= j < i ==> (well_formed(node.children@[j]@) ==> tree_of(
                            #[trigger] d.children[j],
                        ) == node.children@[j]@ && well_written(d.children[j])),
                decreases node.children@.len() - i,
            {
                let ghost before = markup_upto(d, i as nat);
                write_markup(&node.children[i], text);
                proof {
                    assert(d.children[i as int] == draft_of(&*node.children@[i as int]));
                    assert(opened + before + markup_of(d.children[i as int]) =~= opened + (before
                        + markup_of(d.children[i as int])));
                }
                i += 1;
            }
            let ghost body = markup_upto(d, d.children.len());
            text.append("</");
            text.append(e.tag_name.as_str());
            text.append(">");
            proof {
                assert("</"@ =~= seq!['<', '/']);
                assert(text@ =~= old(text)@ + (open_markup(e.tag_name@, e.attributes.listing())
                    + body + close_markup(e.tag_name@)));
                if well_formed(node@) {
                    assert forall|j: int| 0 <= j < d.children.len() implies well_written(
                        #[trigger] d.children[j],
                    ) && tree_of(d.children[j]) == node@.children[j] by {
                        assert(well_formed(node@.children[j]));
                    }
                    assert(tree_of(d).children =~= node@.children);
                    assert forall|j: int| 0 <= j < d.children.len() - 1 implies !((
                    #[trigger] d.children[j]).kind is Text && d.children[j + 1].kind is Text) by {
                        assert(tree_of(d.children[j]) == node@.children[j]);
                        assert(tree_of(d.children[j + 1]) == node@.children[j + 1]);
                        assert(!(node@.children[j].node_type is Text && node@.children[j
                            + 1].node_type is Text));
                    }
                    assert(children_are_written_well(d));
                }
            }
        },
    }
}

/// The markup of `node`, with the attributes of each element in the order
/// of their listing.
pub fn to_markup(node: &Node) -> (text: String)
    ensures
        text@ == markup_of(draft_of(node)),
        well_formed(node@) ==> tree_of(draft_of(node)) == node@ && well_written(draft_of(node)),
{
    let mut text = String::new();
    write_markup(node, &mut text);
    assert(text@ =~= markup_of(draft_of(node)));
    text
}

/// The markup of `nodes`, one after the other.
pub fn to_markup_all(nodes: &Vec<Box<Node>>) -> (text: String)
    ensures
        text@ == markup_of_all(drafts_of(nodes@)),
        well_formed_all(views(nodes@)) ==> writes_all(text@, views(nodes@)),
{
    let ghost drafts = drafts_of(nodes@);
    let ghost parent = holder(drafts);
    let mut text = String::new();
    let mut i: usize = 0;
    assert(text@ =~= markup_upto(parent, 0));
    while i < nodes.len()
        invariant
            i <= nodes@.len(),
            drafts == drafts_of(nodes@),
            parent == holder(drafts),
            text@ == markup_upto(parent, i as nat),
            forall|j: int|
                0 <= j < i ==> (well_formed(nodes@[j]@) ==> tree_of(#[trigger] drafts[j])
                    == nodes@[j]@ && well_written(drafts[j])),
        decreases nodes@.len() - i,
    {
        write_markup(&nodes[i], &mut text);
        assert(parent.children[i as int] == draft_of(&*nodes@[i as int]));
        i += 1;
    }
    proof {
        let found = views(nodes@);
        if well_formed_all(found) {
            assert forall|j: int| 0 <= j < drafts.len() implies well_written(
                #[trigger] drafts[j],
            ) && tree_of(drafts[j]) == found[j] by {
                assert(well_formed(found[j]));
            }
            assert(trees_of(drafts) =~= found);
            assert forall|j: int| 0 <= j < drafts.len() - 1 implies !((
            #[trigger] drafts[j]).kind is Text && drafts[j + 1].kind is Text) by {
                assert(tree_of(drafts[j]) == found[j]);
                assert(tree_of(drafts[j + 1]) == found[j + 1]);
                assert(!(found[j].node_type is Text && found[j + 1].node_type is Text));
            }
            assert(children_are_written_well(parent));
        }
    }
    text
}

} // verus!

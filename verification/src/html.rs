//! The markup grammar and its parser.
//!
//! ```text
//! Document  := Node*
//! Node      := Element | Text
//! Element   := OpenTag Node* CloseTag
//! Text      := one or more characters other than '<'
//! OpenTag   := '<' name ws (Attribute (ws+ Attribute)*)? '>'
//! CloseTag  := '<' '/' name '>'
//! Attribute := name ws '=' ws '"' one or more characters other than '"' '"'
//! ```
//!
//! A `name` is one or more letters and `ws` is any run of white space,
//! where the glyphs of the input say what is a letter and what is white
//! space. At each position an element is tried first and text second, and
//! a list of nodes ends where neither can be read. The tag names of an
//! element have to agree. Of two attributes with one name the later one
//! stays.
//!
//! Each production is a function of the glyphs and of a position. The
//! functions named `read_` work on glyphs; the functions named after the
//! productions turn a text into glyphs, read it from its start and hand
//! back what is left of it.
pub mod markup;
pub mod round_trip;

use crate::dict::Dict;
use crate::dom::{views, AttrMap, Element, ElementView, Node, NodeTypeView, NodeView, Text};
use crate::scan::{
    at, at_class, classify, glyphs_of, has_char, has_class, lemma_run_end, rest_of, run_end, scan,
    text_between, text_of, CharClass, Glyph,
};
use vstd::prelude::*;

verus! {

/// Why markup was rejected.
#[derive(Debug, PartialEq, Eq, Structural, Clone, Copy)]
pub enum StructuralErrorKind {
    /// The input departs from the production that was asked for.
    UnexpectedInput,
    /// An element closes with another tag name than it opened with.
    TagMismatch,
    /// Input is left after the last node of the document.
    TrailingInput,
}

/// Rejected markup: why, and at which character of the input.
///
/// A tag mismatch is reported at the `<` that opens the element.
#[derive(Debug, PartialEq, Eq, Structural, Clone, Copy)]
pub struct StructuralError {
    pub kind: StructuralErrorKind,
    pub position: usize,
}

impl StructuralError {
    /// What went wrong, in words.
    pub fn message(&self) -> (m: &'static str)
        ensures
            m@ == (match self.kind {
                StructuralErrorKind::UnexpectedInput => "unexpected input"@,
                StructuralErrorKind::TagMismatch => "tag name of open tag and close tag mismatched"@,
                StructuralErrorKind::TrailingInput => "input left after the document"@,
            }),
    {
        match self.kind {
            StructuralErrorKind::UnexpectedInput => "unexpected input",
            StructuralErrorKind::TagMismatch => "tag name of open tag and close tag mismatched",
            StructuralErrorKind::TrailingInput => "input left after the document",
        }
    }
}

/// The kind and the position of a failure.
pub type Failure = (StructuralErrorKind, int);

/// What a production makes of an input from a position on: a value and the
/// position after it, or a failure.
pub type Parsed<T> = Result<(T, int), Failure>;

/// The failure to read the input at `pos`.
pub open spec fn unexpected<T>(pos: int) -> Parsed<T> {
    Err((StructuralErrorKind::UnexpectedInput, pos))
}

/// A text node that holds `data`.
pub open spec fn text_node(data: Seq<char>) -> NodeView {
    NodeView { node_type: NodeTypeView::Text(data), children: Seq::empty() }
}

/// An element node.
pub open spec fn element_node(
    tag_name: Seq<char>,
    attributes: Map<Seq<char>, Seq<char>>,
    children: Seq<NodeView>,
) -> NodeView {
    NodeView { node_type: NodeTypeView::Element(ElementView { tag_name, attributes }), children }
}

/// `Attribute` at `pos`: the name and the value.
pub open spec fn attribute_at(s: Seq<Glyph>, pos: int) -> Parsed<(Seq<char>, Seq<char>)> {
    let name_end = run_end(s, pos, CharClass::Letter);
    let equals = run_end(s, name_end, CharClass::Space);
    let quote = run_end(s, equals + 1, CharClass::Space);
    let value_end = run_end(s, quote + 1, CharClass::Not('"'));
    if name_end == pos {
        unexpected(pos)
    } else if !has_char(s, equals, '=') {
        unexpected(equals)
    } else if !has_char(s, quote, '"') {
        unexpected(quote)
    } else if value_end == quote + 1 {
        unexpected(quote + 1)
    } else if !has_char(s, value_end, '"') {
        unexpected(value_end)
    } else {
        Ok(((text_between(s, pos, name_end), text_between(s, quote + 1, value_end)), value_end + 1))
    }
}

/// `(Attribute (ws+ Attribute)*)?` at `pos`.
pub open spec fn attributes_at(s: Seq<Glyph>, pos: int) -> Parsed<Map<Seq<char>, Seq<char>>> {
    if has_class(s, pos, CharClass::Letter) {
        match attribute_at(s, pos) {
            Ok(((name, value), end)) => more_attributes_at(
                s,
                end,
                Map::empty().insert(name, value),
            ),
            Err(e) => Err(e),
        }
    } else {
        Ok((Map::empty(), pos))
    }
}

/// `(ws+ Attribute)*` at `pos`, after the attributes `before`.
pub open spec fn more_attributes_at(
    s: Seq<Glyph>,
    pos: int,
    before: Map<Seq<char>, Seq<char>>,
) -> Parsed<Map<Seq<char>, Seq<char>>>
    decreases s.len() - pos,
{
    if has_class(s, pos, CharClass::Space) {
        let start = run_end(s, pos, CharClass::Space);
        match attribute_at(s, start) {
            Ok(((name, value), end)) => {
                proof {
                    lemma_run_end(s, pos, CharClass::Space);
                    lemma_attribute_at(s, start);
                }
                more_attributes_at(s, end, before.insert(name, value))
            },
            Err(e) => Err(e),
        }
    } else {
        Ok((before, pos))
    }
}

/// `OpenTag` at `pos`: the tag name and the attributes.
pub open spec fn open_tag_at(s: Seq<Glyph>, pos: int) -> Parsed<
    (Seq<char>, Map<Seq<char>, Seq<char>>),
> {
    let name_end = run_end(s, pos + 1, CharClass::Letter);
    if !has_char(s, pos, '<') {
        unexpected(pos)
    } else if name_end == pos + 1 {
        unexpected(pos + 1)
    } else {
        match attributes_at(s, run_end(s, name_end, CharClass::Space)) {
            Ok((attributes, end)) => if has_char(s, end, '>') {
                Ok(((text_between(s, pos + 1, name_end), attributes), end + 1))
            } else {
                unexpected(end)
            },
            Err(e) => Err(e),
        }
    }
}

/// `CloseTag` at `pos`: the tag name.
pub open spec fn close_tag_at(s: Seq<Glyph>, pos: int) -> Parsed<Seq<char>> {
    let name_end = run_end(s, pos + 2, CharClass::Letter);
    if !has_char(s, pos, '<') {
        unexpected(pos)
    } else if !has_char(s, pos + 1, '/') {
        unexpected(pos + 1)
    } else if name_end == pos + 2 {
        unexpected(pos + 2)
    } else if !has_char(s, name_end, '>') {
        unexpected(name_end)
    } else {
        Ok((text_between(s, pos + 2, name_end), name_end + 1))
    }
}

/// `Text` at `pos`.
pub open spec fn text_at(s: Seq<Glyph>, pos: int) -> Parsed<NodeView> {
    let end = run_end(s, pos, CharClass::Not('<'));
    if end > pos {
        Ok((text_node(text_between(s, pos, end)), end))
    } else {
        unexpected(pos)
    }
}

/// A list of nodes that was read: the nodes, where the list ends, and why
/// no element could be read there.
pub struct NodeList {
    pub nodes: Seq<NodeView>,
    pub end: int,
    pub stop: Failure,
}

/// `Element` at `pos`.
///
/// An element whose close tag names another tag fails with a tag mismatch
/// at `pos`. An element whose close tag cannot be read because its children
/// ended on a tag mismatch fails with that mismatch.
pub open spec fn element_at(s: Seq<Glyph>, pos: int) -> Parsed<NodeView>
    decreases s.len() - pos, 0int,
{
    match open_tag_at(s, pos) {
        Ok(((tag_name, attributes), body)) => {
            proof {
                lemma_open_tag_at(s, pos);
            }
            let inner = nodes_at(s, body, Seq::empty());
            match close_tag_at(s, inner.end) {
                Ok((name, end)) => if name == tag_name {
                    Ok((element_node(tag_name, attributes, inner.nodes), end))
                } else {
                    Err((StructuralErrorKind::TagMismatch, pos))
                },
                Err(e) => if inner.stop.0 == StructuralErrorKind::TagMismatch {
                    Err(inner.stop)
                } else {
                    Err(e)
                },
            }
        },
        Err(e) => Err(e),
    }
}

/// `Node*` at `pos`, after the nodes `before`.
pub open spec fn nodes_at(s: Seq<Glyph>, pos: int, before: Seq<NodeView>) -> NodeList
    decreases s.len() - pos, 1int,
{
    match element_at(s, pos) {
        Ok((node, end)) => if pos < end <= s.len() {
            nodes_at(s, end, before.push(node))
        } else {
            NodeList { nodes: before, end: pos, stop: (StructuralErrorKind::UnexpectedInput, pos) }
        },
        Err(e) => match text_at(s, pos) {
            Ok((node, end)) => {
                proof {
                    lemma_run_end(s, pos, CharClass::Not('<'));
                }
                nodes_at(s, end, before.push(node))
            },
            Err(_) => NodeList { nodes: before, end: pos, stop: e },
        },
    }
}

/// The nodes of the document `s`, if `s` is a `Document` from its first
/// character to its last.
///
/// Where input is left, the failure is the tag mismatch that ended the
/// list of nodes, if one did, and trailing input at the end of the list
/// otherwise.
pub open spec fn document_of(s: Seq<Glyph>) -> Result<Seq<NodeView>, Failure> {
    let read = nodes_at(s, 0, Seq::empty());
    if read.end == s.len() {
        Ok(read.nodes)
    } else if read.stop.0 == StructuralErrorKind::TagMismatch {
        Err(read.stop)
    } else {
        Err((StructuralErrorKind::TrailingInput, read.end))
    }
}

/// The root of a document: its only node, or else an element tagged
/// `html`, without attributes, that holds the nodes.
pub open spec fn root_of(nodes: Seq<NodeView>) -> NodeView {
    if nodes.len() == 1 {
        nodes[0]
    } else {
        element_node("html"@, Map::empty(), nodes)
    }
}

/// An attribute that was read ends after its start and within the input; a
/// failure lies at or after the start and within the input.
pub proof fn lemma_attribute_at(s: Seq<Glyph>, pos: int)
    requires
        0 <= pos <= s.len(),
    ensures
        match attribute_at(s, pos) {
            Ok((_, end)) => pos < end <= s.len(),
            Err((_, at)) => pos <= at <= s.len(),
        },
{
    lemma_run_end(s, pos, CharClass::Letter);
    let name_end = run_end(s, pos, CharClass::Letter);
    lemma_run_end(s, name_end, CharClass::Space);
    let equals = run_end(s, name_end, CharClass::Space);
    lemma_run_end(s, equals + 1, CharClass::Space);
    let quote = run_end(s, equals + 1, CharClass::Space);
    lemma_run_end(s, quote + 1, CharClass::Not('"'));
}

/// A list of attributes that was read ends at or after its start and within
/// the input; a failure lies at or after the start and within the input.
pub proof fn lemma_more_attributes_at(s: Seq<Glyph>, pos: int, before: Map<Seq<char>, Seq<char>>)
    requires
        0 <= pos <= s.len(),
    ensures
        match more_attributes_at(s, pos, before) {
            Ok((_, end)) => pos <= end <= s.len(),
            Err((_, at)) => pos <= at <= s.len(),
        },
    decreases s.len() - pos,
{
    if has_class(s, pos, CharClass::Space) {
        lemma_run_end(s, pos, CharClass::Space);
        let start = run_end(s, pos, CharClass::Space);
        lemma_attribute_at(s, start);
        match attribute_at(s, start) {
            Ok(((name, value), end)) => {
                lemma_more_attributes_at(s, end, before.insert(name, value));
            },
            Err(e) => {},
        }
    }
}

/// An open tag that was read ends after its start and within the input; a
/// failure lies at or after the start and within the input.
pub proof fn lemma_open_tag_at(s: Seq<Glyph>, pos: int)
    ensures
        match open_tag_at(s, pos) {
            Ok((_, end)) => 0 <= pos < end <= s.len(),
            Err((_, at)) => 0 <= pos <= s.len() ==> pos <= at <= s.len(),
        },
{
    if has_char(s, pos, '<') {
        lemma_run_end(s, pos + 1, CharClass::Letter);
        let name_end = run_end(s, pos + 1, CharClass::Letter);
        lemma_run_end(s, name_end, CharClass::Space);
        let start = run_end(s, name_end, CharClass::Space);
        if has_class(s, start, CharClass::Letter) {
            lemma_attribute_at(s, start);
            match attribute_at(s, start) {
                Ok(((name, value), end)) => {
                    lemma_more_attributes_at(s, end, Map::empty().insert(name, value));
                },
                Err(e) => {},
            }
        }
    }
}

/// A close tag that was read ends after its start and within the input; a
/// failure lies at or after the start and within the input.
pub proof fn lemma_close_tag_at(s: Seq<Glyph>, pos: int)
    requires
        0 <= pos <= s.len(),
    ensures
        match close_tag_at(s, pos) {
            Ok((_, end)) => pos < end <= s.len(),
            Err((_, at)) => pos <= at <= s.len(),
        },
{
    lemma_run_end(s, pos + 2, CharClass::Letter);
}

/// An element that was read ends after its start and within the input, so
/// a list of nodes goes on after every element that it reads.
pub proof fn lemma_element_at(s: Seq<Glyph>, pos: int)
    requires
        0 <= pos <= s.len(),
    ensures
        element_at(s, pos) matches Ok((_, end)) ==> pos < end <= s.len(),
        nodes_at(s, pos, Seq::empty()).end <= s.len(),
    decreases s.len() - pos, 1int,
{
    lemma_open_tag_at(s, pos);
    match open_tag_at(s, pos) {
        Ok(((tag_name, attributes), body)) => {
            lemma_nodes_at(s, body, Seq::empty());
            lemma_close_tag_at(s, nodes_at(s, body, Seq::empty()).end);
        },
        Err(e) => {},
    }
    lemma_nodes_at(s, pos, Seq::empty());
}

/// A list of nodes ends at or after its start and within the input.
pub proof fn lemma_nodes_at(s: Seq<Glyph>, pos: int, before: Seq<NodeView>)
    requires
        0 <= pos <= s.len(),
    ensures
        pos <= nodes_at(s, pos, before).end <= s.len(),
    decreases s.len() - pos, 0int,
{
    lemma_open_tag_at(s, pos);
    match open_tag_at(s, pos) {
        Ok(((tag_name, attributes), body)) => {
            lemma_nodes_at(s, body, Seq::empty());
            lemma_close_tag_at(s, nodes_at(s, body, Seq::empty()).end);
        },
        Err(e) => {},
    }
    match element_at(s, pos) {
        Ok((node, end)) => {
            lemma_nodes_at(s, end, before.push(node));
        },
        Err(e) => {
            lemma_run_end(s, pos, CharClass::Not('<'));
            match text_at(s, pos) {
                Ok((node, end)) => {
                    lemma_nodes_at(s, end, before.push(node));
                },
                Err(_) => {},
            }
        },
    }
}

/// Whether a parser's result `r` is what the production gives: the same
/// value and end, or the same failure.
pub open spec fn agrees<T: View>(r: Result<(T, usize), StructuralError>, p: Parsed<T::V>) -> bool {
    match r {
        Ok((v, end)) => p == Ok::<(T::V, int), Failure>((v@, end as int)),
        Err(e) => p == Err::<(T::V, int), Failure>((e.kind, e.position as int)),
    }
}

/// Whether a parser's result `r` on the whole of `input` is what the
/// production gives at the start of `input`: the same value with the rest
/// of the input after it, or the same failure.
pub open spec fn gives<T: View>(
    r: Result<(T, &str), StructuralError>,
    p: Parsed<T::V>,
    input: Seq<char>,
) -> bool {
    match r {
        Ok((v, rest)) => p matches Ok((w, end)) && w == v@ && 0 <= end <= input.len() && rest@
            == input.subrange(end, input.len() as int),
        Err(e) => p == Err::<(T::V, int), Failure>((e.kind, e.position as int)),
    }
}

/// The failure to read the input at `pos`.
fn fail(pos: usize) -> (e: StructuralError)
    ensures
        e == (StructuralError { kind: StructuralErrorKind::UnexpectedInput, position: pos }),
{
    StructuralError { kind: StructuralErrorKind::UnexpectedInput, position: pos }
}

/// Reads an `Attribute`.
pub fn read_attribute(glyphs: &Vec<Glyph>, pos: usize) -> (r: Result<
    ((String, String), usize),
    StructuralError,
>)
    requires
        pos <= glyphs@.len(),
    ensures
        agrees(r, attribute_at(glyphs@, pos as int)),
        r matches Ok((_, end)) ==> pos < end <= glyphs@.len(),
{
    let name_end = scan(glyphs, pos, CharClass::Letter);
    if name_end == pos {
        return Err(fail(pos));
    }
    let equals = scan(glyphs, name_end, CharClass::Space);
    if !at(glyphs, equals, '=') {
        return Err(fail(equals));
    }
    let quote = scan(glyphs, equals + 1, CharClass::Space);
    if !at(glyphs, quote, '"') {
        return Err(fail(quote));
    }
    let value_end = scan(glyphs, quote + 1, CharClass::Not('"'));
    if value_end == quote + 1 {
        return Err(fail(quote + 1));
    }
    if !at(glyphs, value_end, '"') {
        return Err(fail(value_end));
    }
    let name = text_of(glyphs, pos, name_end);
    let value = text_of(glyphs, quote + 1, value_end);
    Ok(((name, value), value_end + 1))
}

/// Reads `(Attribute (ws+ Attribute)*)?`.
pub fn read_attributes(glyphs: &Vec<Glyph>, pos: usize) -> (r: Result<(AttrMap, usize), StructuralError>)
    requires
        pos <= glyphs@.len(),
    ensures
        agrees(r, attributes_at(glyphs@, pos as int)),
        r matches Ok((_, end)) ==> pos <= end <= glyphs@.len(),
{
    let mut attributes: AttrMap = Dict::new();
    if !at_class(glyphs, pos, CharClass::Letter) {
        return Ok((attributes, pos));
    }
    let mut cur: usize;
    match read_attribute(glyphs, pos) {
        Ok(((name, value), end)) => {
            attributes.insert(name, value);
            cur = end;
        },
        Err(e) => {
            return Err(e);
        },
    }
    while at_class(glyphs, cur, CharClass::Space)
        invariant
            pos <= cur <= glyphs@.len(),
            attributes_at(glyphs@, pos as int) == more_attributes_at(
                glyphs@,
                cur as int,
                attributes@,
            ),
        decreases glyphs@.len() - cur,
    {
        let start = scan(glyphs, cur, CharClass::Space);
        match read_attribute(glyphs, start) {
            Ok(((name, value), end)) => {
                attributes.insert(name, value);
                cur = end;
            },
            Err(e) => {
                return Err(e);
            },
        }
    }
    Ok((attributes, cur))
}

/// Reads an `OpenTag`.
pub fn read_open_tag(glyphs: &Vec<Glyph>, pos: usize) -> (r: Result<
    ((String, AttrMap), usize),
    StructuralError,
>)
    requires
        pos <= glyphs@.len(),
    ensures
        agrees(r, open_tag_at(glyphs@, pos as int)),
        r matches Ok((_, end)) ==> pos < end <= glyphs@.len(),
{
    if !at(glyphs, pos, '<') {
        return Err(fail(pos));
    }
    let name_end = scan(glyphs, pos + 1, CharClass::Letter);
    if name_end == pos + 1 {
        return Err(fail(pos + 1));
    }
    let start = scan(glyphs, name_end, CharClass::Space);
    match read_attributes(glyphs, start) {
        Ok((attributes, end)) => {
            if at(glyphs, end, '>') {
                Ok(((text_of(glyphs, pos + 1, name_end), attributes), end + 1))
            } else {
                Err(fail(end))
            }
        },
        Err(e) => Err(e),
    }
}

/// Reads a `CloseTag`.
pub fn read_close_tag(glyphs: &Vec<Glyph>, pos: usize) -> (r: Result<(String, usize), StructuralError>)
    requires
        pos <= glyphs@.len(),
    ensures
        agrees(r, close_tag_at(glyphs@, pos as int)),
        r matches Ok((_, end)) ==> pos < end <= glyphs@.len(),
{
    if !at(glyphs, pos, '<') {
        return Err(fail(pos));
    }
    if !at(glyphs, pos + 1, '/') {
        return Err(fail(pos + 1));
    }
    let name_end = scan(glyphs, pos + 2, CharClass::Letter);
    if name_end == pos + 2 {
        return Err(fail(pos + 2));
    }
    if !at(glyphs, name_end, '>') {
        return Err(fail(name_end));
    }
    Ok((text_of(glyphs, pos + 2, name_end), name_end + 1))
}

/// Reads a `Text`.
pub fn read_text(glyphs: &Vec<Glyph>, pos: usize) -> (r: Result<(Box<Node>, usize), StructuralError>)
    requires
        pos <= glyphs@.len(),
    ensures
        agrees(r, text_at(glyphs@, pos as int)),
        r matches Ok((_, end)) ==> pos < end <= glyphs@.len(),
{
    let end = scan(glyphs, pos, CharClass::Not('<'));
    if end > pos {
        Ok((Text::new(text_of(glyphs, pos, end)), end))
    } else {
        Err(fail(pos))
    }
}

/// Reads an `Element`.
pub fn read_element(glyphs: &Vec<Glyph>, pos: usize) -> (r: Result<(Box<Node>, usize), StructuralError>)
    requires
        pos <= glyphs@.len(),
    ensures
        agrees(r, element_at(glyphs@, pos as int)),
        r matches Ok((_, end)) ==> pos < end <= glyphs@.len(),
    decreases glyphs@.len() - pos, 0int,
{
    let ((tag_name, attributes), body) = match read_open_tag(glyphs, pos) {
        Ok(found) => found,
        Err(e) => {
            return Err(e);
        },
    };
    let (children, inner_end, stop) = read_nodes(glyphs, body);
    match read_close_tag(glyphs, inner_end) {
        Ok((name, end)) => {
            if name == tag_name {
                Ok((Element::new(tag_name, attributes, children), end))
            } else {
                Err(StructuralError { kind: StructuralErrorKind::TagMismatch, position: pos })
            }
        },
        Err(e) => {
            if stop.kind == StructuralErrorKind::TagMismatch {
                Err(stop)
            } else {
                Err(e)
            }
        },
    }
}

/// Reads `Node*`: the nodes, where the list ends, and why no element could
/// be read there.
pub fn read_nodes(glyphs: &Vec<Glyph>, pos: usize) -> (r: (Vec<Box<Node>>, usize, StructuralError))
    requires
        pos <= glyphs@.len(),
    ensures
        nodes_at(glyphs@, pos as int, Seq::empty()) == (NodeList {
            nodes: views(r.0@),
            end: r.1 as int,
            stop: (r.2.kind, r.2.position as int),
        }),
        pos <= r.1 <= glyphs@.len(),
    decreases glyphs@.len() - pos, 1int,
{
    let mut nodes: Vec<Box<Node>> = Vec::new();
    let mut cur: usize = pos;
    assert(views(nodes@) =~= Seq::<NodeView>::empty());
    loop
        invariant
            pos <= cur <= glyphs@.len(),
            nodes_at(glyphs@, pos as int, Seq::empty()) == nodes_at(
                glyphs@,
                cur as int,
                views(nodes@),
            ),
        decreases glyphs@.len() - cur,
    {
        match read_element(glyphs, cur) {
            Ok((node, end)) => {
                proof {
                    assert(views(nodes@).push(node@) =~= views(nodes@.push(node)));
                }
                nodes.push(node);
                cur = end;
            },
            Err(e) => {
                match read_text(glyphs, cur) {
                    Ok((node, end)) => {
                        proof {
                            assert(views(nodes@).push(node@) =~= views(nodes@.push(node)));
                        }
                        nodes.push(node);
                        cur = end;
                    },
                    Err(_) => {
                        return (nodes, cur, e);
                    },
                }
            },
        }
    }
}

/// Reads an attribute at the start of `input` and hands back the rest of
/// the input.
pub fn attribute<'a>(input: &'a str) -> (r: Result<((String, String), &'a str), StructuralError>)
    ensures
        gives(r, attribute_at(glyphs_of(input@), 0), input@),
{
    let glyphs = classify(input);
    match read_attribute(&glyphs, 0) {
        Ok((v, end)) => Ok((v, rest_of(input, end))),
        Err(e) => Err(e),
    }
}

/// Reads attributes at the start of `input`, white space between them, and
/// hands back the rest of the input.
pub fn attributes<'a>(input: &'a str) -> (r: Result<(AttrMap, &'a str), StructuralError>)
    ensures
        gives(r, attributes_at(glyphs_of(input@), 0), input@),
{
    let glyphs = classify(input);
    match read_attributes(&glyphs, 0) {
        Ok((v, end)) => Ok((v, rest_of(input, end))),
        Err(e) => Err(e),
    }
}

/// Reads an open tag at the start of `input` and hands back the rest of
/// the input.
pub fn open_tag<'a>(input: &'a str) -> (r: Result<((String, AttrMap), &'a str), StructuralError>)
    ensures
        gives(r, open_tag_at(glyphs_of(input@), 0), input@),
{
    let glyphs = classify(input);
    match read_open_tag(&glyphs, 0) {
        Ok((v, end)) => Ok((v, rest_of(input, end))),
        Err(e) => Err(e),
    }
}

/// Reads a close tag at the start of `input` and hands back the rest of
/// the input.
pub fn close_tag<'a>(input: &'a str) -> (r: Result<(String, &'a str), StructuralError>)
    ensures
        gives(r, close_tag_at(glyphs_of(input@), 0), input@),
{
    let glyphs = classify(input);
    match read_close_tag(&glyphs, 0) {
        Ok((v, end)) => Ok((v, rest_of(input, end))),
        Err(e) => Err(e),
    }
}

/// Reads text at the start of `input`, up to the next `<`, and hands back
/// the rest of the input.
pub fn text<'a>(input: &'a str) -> (r: Result<(Box<Node>, &'a str), StructuralError>)
    ensures
        gives(r, text_at(glyphs_of(input@), 0), input@),
{
    let glyphs = classify(input);
    match read_text(&glyphs, 0) {
        Ok((v, end)) => Ok((v, rest_of(input, end))),
        Err(e) => Err(e),
    }
}

/// Reads an element at the start of `input` and hands back the rest of the
/// input.
pub fn element<'a>(input: &'a str) -> (r: Result<(Box<Node>, &'a str), StructuralError>)
    ensures
        gives(r, element_at(glyphs_of(input@), 0), input@),
{
    let glyphs = classify(input);
    match read_element(&glyphs, 0) {
        Ok((v, end)) => Ok((v, rest_of(input, end))),
        Err(e) => Err(e),
    }
}

/// Reads nodes from the start of `input`, up to where neither an element
/// nor text can be read, and hands back the rest of the input.
pub fn nodes<'a>(input: &'a str) -> (r: (Vec<Box<Node>>, &'a str))
    ensures
        views(r.0@) == nodes_at(glyphs_of(input@), 0, Seq::empty()).nodes,
        0 <= nodes_at(glyphs_of(input@), 0, Seq::empty()).end <= input@.len(),
        r.1@ == input@.subrange(
            nodes_at(glyphs_of(input@), 0, Seq::empty()).end,
            input@.len() as int,
        ),
{
    let glyphs = classify(input);
    let (found, end, _) = read_nodes(&glyphs, 0);
    (found, rest_of(input, end))
}

/// Reads a document from glyphs: the nodes at its top level.
///
/// The whole of `glyphs` has to be read. Where input is left, the error is
/// the tag mismatch that stopped the reading, if one did, and trailing
/// input otherwise.
pub fn read_document(glyphs: &Vec<Glyph>) -> (r: Result<Vec<Box<Node>>, StructuralError>)
    ensures
        match r {
            Ok(found) => document_of(glyphs@) == Ok::<Seq<NodeView>, Failure>(views(found@)),
            Err(e) => document_of(glyphs@) == Err::<Seq<NodeView>, Failure>(
                (e.kind, e.position as int),
            ),
        },
{
    let (found, end, stop) = read_nodes(glyphs, 0);
    if end == glyphs.len() {
        Ok(found)
    } else if stop.kind == StructuralErrorKind::TagMismatch {
        Err(stop)
    } else {
        Err(StructuralError { kind: StructuralErrorKind::TrailingInput, position: end })
    }
}

/// Reads a document: the nodes at its top level.
///
/// The whole of `raw` has to be read. Where input is left, the error is
/// the tag mismatch that stopped the reading, if one did, and trailing
/// input otherwise.
pub fn parse_nodes(raw: &str) -> (r: Result<Vec<Box<Node>>, StructuralError>)
    ensures
        match r {
            Ok(found) => document_of(glyphs_of(raw@)) == Ok::<Seq<NodeView>, Failure>(
                views(found@),
            ),
            Err(e) => document_of(glyphs_of(raw@)) == Err::<Seq<NodeView>, Failure>(
                (e.kind, e.position as int),
            ),
        },
{
    read_document(&classify(raw))
}

/// Reads a document and hands back its root: the only node at the top
/// level, or else an element tagged `html` that holds the nodes of the top
/// level.
pub fn parse(raw: &str) -> (r: Result<Box<Node>, StructuralError>)
    ensures
        match r {
            Ok(root) => document_of(glyphs_of(raw@)) matches Ok(found) && root@ == root_of(found),
            Err(e) => document_of(glyphs_of(raw@)) == Err::<Seq<NodeView>, Failure>(
                (e.kind, e.position as int),
            ),
        },
{
    match parse_nodes(raw) {
        Ok(mut found) => {
            if found.len() == 1 {
                Ok(found.remove(0))
            } else {
                Ok(Element::new("html".to_owned(), Dict::new(), found))
            }
        },
        Err(e) => Err(e),
    }
}

} // verus!

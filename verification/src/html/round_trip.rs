//! What reading makes of markup that was written: it gives back the tree
//! that was written, and every tree that reading gives can be written.
use crate::chars::{is_letter, is_space};
use crate::dom::NodeView;
use crate::html::markup::{
    attribute_markup, attributes_are_valid, attributes_are_written_well, attributes_map,
    attributes_markup, children_are_written_well, close_markup, holder, is_attribute_name,
    is_attribute_value, is_name, is_text, markup_of, markup_of_all, markup_upto, open_markup,
    to_markup_all, tree_of, trees_of, well_formed, well_formed_all, well_written, writes_all,
    Attributes, Draft, DraftKind,
};
use crate::html::{
    attribute_at, attributes_at, close_tag_at, document_of, element_at, lemma_attribute_at,
    lemma_element_at, lemma_open_tag_at, more_attributes_at, nodes_at, open_tag_at, parse_nodes,
    text_at, text_node, NodeList, StructuralErrorKind,
};
use crate::scan::{
    glyph_of, glyphs_of, has_char, has_class, in_class, lemma_run_end, lemma_text_between,
    run_end, CharClass,
};
use vstd::prelude::*;

verus! {

/// Whether the characters that markup is made of are told apart from
/// letters and white space as reading needs it: a blank is white space and
/// no letter, `/`, `>` and `=` are no letters, and `>`, `=` and `"` are no
/// white space.
pub open spec fn markup_is_plain() -> bool {
    &&& is_space(' ')
    &&& !is_letter(' ')
    &&& !is_letter('/')
    &&& !is_letter('>')
    &&& !is_letter('=')
    &&& !is_space('>')
    &&& !is_space('=')
    &&& !is_space('"')
}

/// Whether `s` holds `m` from `pos` on.
pub open spec fn holds_at(s: Seq<char>, pos: int, m: Seq<char>) -> bool {
    0 <= pos && pos + m.len() <= s.len() && s.subrange(pos, pos + m.len()) == m
}

/// Whether text that ends at `pos` ends there for good: the input ends, or
/// a `<` follows.
pub open spec fn text_ends(s: Seq<char>, pos: int) -> bool {
    pos == s.len() || has_char(glyphs_of(s), pos, '<')
}

/// Where `s` holds `a + b`, it holds `a` and, after it, `b`; and the other
/// way round.
proof fn lemma_holds_concat(s: Seq<char>, pos: int, a: Seq<char>, b: Seq<char>)
    ensures
        holds_at(s, pos, a + b) <==> holds_at(s, pos, a) && holds_at(s, pos + a.len(), b),
{
    if holds_at(s, pos, a + b) {
        assert(s.subrange(pos, pos + a.len()) =~= (a + b).subrange(0, a.len() as int));
        assert((a + b).subrange(0, a.len() as int) =~= a);
        assert(s.subrange(pos + a.len(), pos + a.len() + b.len()) =~= (a + b).subrange(
            a.len() as int,
            (a + b).len() as int,
        ));
        assert((a + b).subrange(a.len() as int, (a + b).len() as int) =~= b);
    }
    if holds_at(s, pos, a) && holds_at(s, pos + a.len(), b) {
        assert forall|i: int| 0 <= i < (a + b).len() implies s.subrange(
            pos,
            pos + (a + b).len(),
        )[i] == (a + b)[i] by {
            if i < a.len() {
                assert(s.subrange(pos, pos + a.len())[i] == a[i]);
            } else {
                assert(s.subrange(pos + a.len(), pos + a.len() + b.len())[i - a.len()] == b[i
                    - a.len()]);
            }
        }
        assert(s.subrange(pos, pos + (a + b).len()) =~= a + b);
    }
}

/// A character of what `s` holds at `pos` is the character of `s` at its
/// place.
proof fn lemma_holds_index(s: Seq<char>, pos: int, m: Seq<char>, i: int)
    requires
        holds_at(s, pos, m),
        0 <= i < m.len(),
    ensures
        s[pos + i] == m[i],
{
    assert(s.subrange(pos, pos + m.len())[i] == m[i]);
}

/// A run over characters of a class that `s` holds at `pos` ends after
/// them, where no character of the class follows.
proof fn lemma_run_over(s: Seq<char>, pos: int, m: Seq<char>, class: CharClass)
    requires
        holds_at(s, pos, m),
        forall|i: int| 0 <= i < m.len() ==> in_class(class, glyph_of(#[trigger] m[i])),
        !has_class(glyphs_of(s), pos + m.len(), class),
    ensures
        run_end(glyphs_of(s), pos, class) == pos + m.len(),
    decreases m.len(),
{
    if m.len() > 0 {
        lemma_holds_index(s, pos, m, 0);
        let rest = m.subrange(1, m.len() as int);
        assert(m =~= seq![m[0]] + rest);
        lemma_holds_concat(s, pos, seq![m[0]], rest);
        assert forall|i: int| 0 <= i < rest.len() implies in_class(class, glyph_of(#[trigger] rest[i])) by {
            assert(rest[i] == m[i + 1]);
        }
        lemma_run_over(s, pos + 1, rest, class);
    }
}

/// Reading an attribute that was written, after its blank, gives its name
/// and its value.
proof fn lemma_reads_attribute(s: Seq<char>, pos: int, name: Seq<char>, value: Seq<char>)
    requires
        markup_is_plain(),
        is_attribute_name(name),
        is_attribute_value(value),
        holds_at(s, pos, attribute_markup(name, value)),
    ensures
        run_end(glyphs_of(s), pos, CharClass::Space) == pos + 1,
        has_char(glyphs_of(s), pos, ' '),
        has_class(glyphs_of(s), pos + 1, CharClass::Letter),
        attribute_at(glyphs_of(s), pos + 1) == Ok::<((Seq<char>, Seq<char>), int), (StructuralErrorKind, int)>(
            ((name, value), pos + attribute_markup(name, value).len()),
        ),
{
    lemma_holds_concat(s, pos, seq![' '] + name + seq!['=', '"'] + value, seq!['"']);
    lemma_holds_concat(s, pos, seq![' '] + name + seq!['=', '"'], value);
    lemma_holds_concat(s, pos, seq![' '] + name, seq!['=', '"']);
    lemma_holds_concat(s, pos, seq![' '], name);
    lemma_holds_index(s, pos, seq![' '], 0);
    let start = pos + 1;
    let equals = start + name.len();
    lemma_holds_index(s, start, name, 0);
    lemma_holds_index(s, equals, seq!['=', '"'], 0);
    lemma_holds_index(s, equals, seq!['=', '"'], 1);
    let quote = equals + 1;
    let value_end = quote + 1 + value.len();
    lemma_holds_index(s, value_end, seq!['"'], 0);
    lemma_run_over(s, pos, seq![' '], CharClass::Space);
    lemma_run_over(s, start, name, CharClass::Letter);
    lemma_run_end(glyphs_of(s), equals, CharClass::Space);
    lemma_run_end(glyphs_of(s), quote, CharClass::Space);
    lemma_run_over(s, quote + 1, value, CharClass::Not('"'));
    lemma_text_between(s, start, equals);
    lemma_text_between(s, quote + 1, value_end);
}

/// Reading the first `k` attributes that were written gives the map that
/// they make and goes on after them.
proof fn lemma_reads_attributes(s: Seq<char>, pos: int, attributes: Attributes, k: nat)
    requires
        markup_is_plain(),
        attributes_are_written_well(attributes),
        1 <= k <= attributes.len(),
        holds_at(s, pos, attributes_markup(attributes, k)),
    ensures
        attributes_at(glyphs_of(s), pos + 1) == more_attributes_at(glyphs_of(s),
            pos + attributes_markup(attributes, k).len(),
            attributes_map(attributes, k),
        ),
    decreases k,
{
    let (name, value) = attributes[k - 1];
    let before = attributes_markup(attributes, (k - 1) as nat);
    lemma_holds_concat(s, pos, before, attribute_markup(name, value));
    lemma_reads_attribute(s, pos + before.len(), name, value);
    if k == 1 {
        assert(before =~= Seq::<char>::empty());
        assert(attributes_map(attributes, 0) =~= Map::<Seq<char>, Seq<char>>::empty());
    } else {
        lemma_reads_attributes(s, pos, attributes, (k - 1) as nat);
    }
}

/// Reading an open tag that was written gives the tag name and the
/// attributes.
proof fn lemma_reads_open_tag(s: Seq<char>, pos: int, tag_name: Seq<char>, attributes: Attributes)
    requires
        markup_is_plain(),
        is_name(tag_name),
        attributes_are_written_well(attributes),
        holds_at(s, pos, open_markup(tag_name, attributes)),
    ensures
        open_tag_at(glyphs_of(s), pos) == Ok::<
            ((Seq<char>, Map<Seq<char>, Seq<char>>), int),
            (StructuralErrorKind, int),
        >(
            (
                (tag_name, attributes_map(attributes, attributes.len())),
                pos + open_markup(tag_name, attributes).len(),
            ),
        ),
{
    let written = attributes_markup(attributes, attributes.len());
    lemma_holds_concat(s, pos, seq!['<'] + tag_name + written, seq!['>']);
    lemma_holds_concat(s, pos, seq!['<'] + tag_name, written);
    lemma_holds_concat(s, pos, seq!['<'], tag_name);
    lemma_holds_index(s, pos, seq!['<'], 0);
    let name_end = pos + 1 + tag_name.len();
    let close = name_end + written.len();
    lemma_holds_index(s, close, seq!['>'], 0);
    lemma_run_end(glyphs_of(s), close, CharClass::Space);
    lemma_text_between(s, pos + 1, name_end);
    if attributes.len() == 0 {
        assert(written =~= Seq::<char>::empty());
        lemma_run_over(s, pos + 1, tag_name, CharClass::Letter);
    } else {
        let (name, value) = attributes[0];
        assert(attributes_markup(attributes, 0) =~= Seq::<char>::empty());
        assert(attributes_markup(attributes, 1) =~= attribute_markup(name, value));
        lemma_attributes_markup_grows(attributes, 1, attributes.len());
        let rest = written.subrange(
            attribute_markup(name, value).len() as int,
            written.len() as int,
        );
        assert(written =~= attribute_markup(name, value) + rest);
        lemma_holds_concat(s, name_end, attribute_markup(name, value), rest);
        lemma_reads_attribute(s, name_end, name, value);
        lemma_run_over(s, pos + 1, tag_name, CharClass::Letter);
        lemma_reads_attributes(s, name_end, attributes, attributes.len());
    }
}

/// The markup of the first `i` attributes is where the markup of the
/// first `k` begins.
proof fn lemma_attributes_markup_grows(attributes: Attributes, i: nat, k: nat)
    requires
        i <= k <= attributes.len(),
    ensures
        attributes_markup(attributes, i).len() <= attributes_markup(attributes, k).len(),
        attributes_markup(attributes, k).subrange(0, attributes_markup(attributes, i).len() as int)
            == attributes_markup(attributes, i),
    decreases k - i,
{
    if i < k {
        lemma_attributes_markup_grows(attributes, i, (k - 1) as nat);
        assert(attributes_markup(attributes, k).subrange(
            0,
            attributes_markup(attributes, i).len() as int,
        ) =~= attributes_markup(attributes, (k - 1) as nat).subrange(
            0,
            attributes_markup(attributes, i).len() as int,
        ));
    } else {
        assert(attributes_markup(attributes, k).subrange(
            0,
            attributes_markup(attributes, i).len() as int,
        ) =~= attributes_markup(attributes, i));
    }
}

/// Reading a close tag that was written gives the tag name; neither an
/// open tag nor text can be read in its place.
proof fn lemma_reads_close_tag(s: Seq<char>, pos: int, tag_name: Seq<char>)
    requires
        markup_is_plain(),
        is_name(tag_name),
        holds_at(s, pos, close_markup(tag_name)),
    ensures
        close_tag_at(glyphs_of(s), pos) == Ok::<(Seq<char>, int), (StructuralErrorKind, int)>(
            (tag_name, pos + tag_name.len() + 3),
        ),
        open_tag_at(glyphs_of(s), pos) == Err::<
            ((Seq<char>, Map<Seq<char>, Seq<char>>), int),
            (StructuralErrorKind, int),
        >((StructuralErrorKind::UnexpectedInput, pos + 1)),
        text_at(glyphs_of(s), pos) is Err,
{
    lemma_holds_concat(s, pos, seq!['<', '/'] + tag_name, seq!['>']);
    lemma_holds_concat(s, pos, seq!['<', '/'], tag_name);
    lemma_holds_index(s, pos, seq!['<', '/'], 0);
    lemma_holds_index(s, pos, seq!['<', '/'], 1);
    let close = pos + 2 + tag_name.len();
    lemma_holds_index(s, close, seq!['>'], 0);
    lemma_run_over(s, pos + 2, tag_name, CharClass::Letter);
    lemma_run_end(glyphs_of(s), pos + 1, CharClass::Letter);
    lemma_run_end(glyphs_of(s), pos, CharClass::Not('<'));
    lemma_text_between(s, pos + 2, close);
}

/// Reading text that was written gives it back, where it ends for good;
/// no element can be read in its place.
proof fn lemma_reads_text(s: Seq<char>, pos: int, data: Seq<char>)
    requires
        is_text(data),
        holds_at(s, pos, data),
        text_ends(s, pos + data.len()),
    ensures
        text_at(glyphs_of(s), pos) == Ok::<(NodeView, int), (StructuralErrorKind, int)>(
            (text_node(data), pos + data.len()),
        ),
        element_at(glyphs_of(s), pos) is Err,
{
    lemma_run_over(s, pos, data, CharClass::Not('<'));
    lemma_holds_index(s, pos, data, 0);
    lemma_text_between(s, pos, pos + data.len());
}

/// Reading an element that was written gives the tree of its draft and
/// ends where what was written ends.
pub proof fn lemma_reads_element(s: Seq<char>, pos: int, d: Draft)
    requires
        markup_is_plain(),
        well_written(d),
        d.kind is Element,
        holds_at(s, pos, markup_of(d)),
    ensures
        element_at(glyphs_of(s), pos) == Ok::<(NodeView, int), (StructuralErrorKind, int)>(
            (tree_of(d), pos + markup_of(d).len()),
        ),
    decreases d, d.children.len() + 2,
{
    let tag_name = d.kind->tag_name;
    let attributes = d.kind->attributes;
    let open = open_markup(tag_name, attributes);
    let body = markup_upto(d, d.children.len());
    lemma_holds_concat(s, pos, open + body, close_markup(tag_name));
    lemma_holds_concat(s, pos, open, body);
    lemma_reads_open_tag(s, pos, tag_name, attributes);
    let start = pos + open.len();
    let end = start + body.len();
    lemma_reads_close_tag(s, end, tag_name);
    lemma_holds_index(s, end, close_markup(tag_name), 0);
    lemma_reads_children(s, start, d, d.children.len());
    let inner = nodes_at(glyphs_of(s), start, Seq::empty());
    assert(trees_of(d.children).take(d.children.len() as int) =~= trees_of(d.children));
    assert(element_at(glyphs_of(s), end) is Err);
    assert(inner == (NodeList {
        nodes: trees_of(d.children),
        end,
        stop: (StructuralErrorKind::UnexpectedInput, end + 1),
    }));
    assert(tree_of(d).children =~= trees_of(d.children));
}

/// Reading the first `k` children of `parent` that were written gives
/// their trees and goes on after them.
proof fn lemma_reads_children(s: Seq<char>, start: int, parent: Draft, k: nat)
    requires
        markup_is_plain(),
        children_are_written_well(parent),
        k <= parent.children.len(),
        holds_at(s, start, markup_upto(parent, k)),
        k > 0 && parent.children[k - 1].kind is Text ==> text_ends(
            s,
            start + markup_upto(parent, k).len(),
        ),
    ensures
        nodes_at(glyphs_of(s), start, Seq::empty()) == nodes_at(glyphs_of(s),
            start + markup_upto(parent, k).len(),
            trees_of(parent.children).take(k as int),
        ),
    decreases parent, k,
{
    if k == 0 {
        assert(trees_of(parent.children).take(0) =~= Seq::<NodeView>::empty());
    } else {
        let child = parent.children[k - 1];
        let before = markup_upto(parent, (k - 1) as nat);
        let m = markup_of(child);
        let pos = start + before.len();
        lemma_holds_concat(s, start, before, m);
        let read = trees_of(parent.children).take(k - 1);
        assert(read.push(tree_of(child)) =~= trees_of(parent.children).take(k as int));
        match child.kind {
            DraftKind::Element { tag_name, attributes } => {
                let open = open_markup(tag_name, attributes);
                let body = markup_upto(child, child.children.len());
                lemma_holds_concat(s, pos, open + body, close_markup(tag_name));
                lemma_holds_concat(s, pos, open, body);
                lemma_holds_index(s, pos, open, 0);
                lemma_reads_children(s, start, parent, (k - 1) as nat);
                lemma_reads_element(s, pos, child);
            },
            DraftKind::Text(data) => {
                if k > 1 {
                    assert(!(parent.children[k - 2].kind is Text && parent.children[k - 2
                        + 1].kind is Text));
                }
                lemma_reads_children(s, start, parent, (k - 1) as nat);
                lemma_reads_text(s, pos, data);
                assert(tree_of(child).children =~= Seq::<NodeView>::empty());
                assert(tree_of(child) == text_node(data));
            },
        }
    }
}

/// Reading the markup of drafts that are written well gives their trees:
/// tag names, attributes, text and the order of the nodes survive being
/// written and read again.
pub proof fn lemma_reads_what_was_written(drafts: Seq<Draft>)
    requires
        markup_is_plain(),
        children_are_written_well(holder(drafts)),
    ensures
        document_of(glyphs_of(markup_of_all(drafts))) == Ok::<Seq<NodeView>, (StructuralErrorKind, int)>(
            trees_of(drafts),
        ),
{
    let s = markup_of_all(drafts);
    assert(s.subrange(0, s.len() as int) =~= s);
    lemma_reads_children(s, 0, holder(drafts), drafts.len());
    assert(trees_of(drafts).take(drafts.len() as int) =~= trees_of(drafts));
    lemma_run_end(glyphs_of(s), s.len() as int, CharClass::Not('<'));
    assert(element_at(glyphs_of(s), s.len() as int) is Err);
    assert(text_at(glyphs_of(s), s.len() as int) is Err);
}

/// An attribute that was read at a position that holds no white space has
/// a name and a value that can be written.
proof fn lemma_attribute_is_valid(s: Seq<char>, pos: int)
    requires
        0 <= pos <= s.len(),
        !has_class(glyphs_of(s), pos, CharClass::Space),
    ensures
        attribute_at(glyphs_of(s), pos) matches Ok(((name, value), _)) ==> is_attribute_name(name)
            && is_attribute_value(value),
{
    lemma_run_end(glyphs_of(s), pos, CharClass::Letter);
    let name_end = run_end(glyphs_of(s), pos, CharClass::Letter);
    lemma_run_end(glyphs_of(s), name_end, CharClass::Space);
    let equals = run_end(glyphs_of(s), name_end, CharClass::Space);
    lemma_run_end(glyphs_of(s), equals + 1, CharClass::Space);
    let quote = run_end(glyphs_of(s), equals + 1, CharClass::Space);
    lemma_run_end(glyphs_of(s), quote + 1, CharClass::Not('"'));
}

/// The attributes that are read after attributes that can be written can
/// be written with them.
proof fn lemma_more_attributes_are_valid(
    s: Seq<char>,
    pos: int,
    before: Map<Seq<char>, Seq<char>>,
)
    requires
        0 <= pos <= s.len(),
        attributes_are_valid(before),
    ensures
        more_attributes_at(glyphs_of(s), pos, before) matches Ok((found, _)) ==> attributes_are_valid(found),
    decreases s.len() - pos,
{
    if has_class(glyphs_of(s), pos, CharClass::Space) {
        lemma_run_end(glyphs_of(s), pos, CharClass::Space);
        let start = run_end(glyphs_of(s), pos, CharClass::Space);
        lemma_attribute_at(glyphs_of(s), start);
        lemma_attribute_is_valid(s, start);
        match attribute_at(glyphs_of(s), start) {
            Ok(((name, value), end)) => {
                lemma_more_attributes_are_valid(s, end, before.insert(name, value));
            },
            Err(e) => {},
        }
    }
}

/// An element that was read is well formed.
pub proof fn lemma_element_is_well_formed(s: Seq<char>, pos: int)
    requires
        0 <= pos <= s.len(),
    ensures
        element_at(glyphs_of(s), pos) matches Ok((n, _)) ==> well_formed(n) && n.node_type is Element,
    decreases s.len() - pos, 0int,
{
    lemma_open_tag_at(glyphs_of(s), pos);
    match open_tag_at(glyphs_of(s), pos) {
        Ok(((tag_name, attributes), body)) => {
            lemma_run_end(glyphs_of(s), pos + 1, CharClass::Letter);
            let name_end = run_end(glyphs_of(s), pos + 1, CharClass::Letter);
            lemma_run_end(glyphs_of(s), name_end, CharClass::Space);
            let start = run_end(glyphs_of(s), name_end, CharClass::Space);
            if has_class(glyphs_of(s), start, CharClass::Letter) {
                lemma_attribute_at(glyphs_of(s), start);
                lemma_attribute_is_valid(s, start);
                match attribute_at(glyphs_of(s), start) {
                    Ok(((name, value), end)) => {
                        lemma_more_attributes_are_valid(
                            s,
                            end,
                            Map::empty().insert(name, value),
                        );
                    },
                    Err(e) => {},
                }
            }
            lemma_nodes_are_well_formed(s, body, Seq::empty());
        },
        Err(e) => {},
    }
}

/// The nodes that are read after well-formed nodes make a well-formed list
/// with them.
proof fn lemma_nodes_are_well_formed(s: Seq<char>, pos: int, before: Seq<NodeView>)
    requires
        0 <= pos <= s.len(),
        well_formed_all(before),
        before.len() > 0 && before.last().node_type is Text ==> text_ends(s, pos),
    ensures
        well_formed_all(nodes_at(glyphs_of(s), pos, before).nodes),
    decreases s.len() - pos, 1int,
{
    lemma_element_is_well_formed(s, pos);
    lemma_element_at(glyphs_of(s), pos);
    match element_at(glyphs_of(s), pos) {
        Ok((node, end)) => {
            lemma_well_formed_push(before, node);
            lemma_nodes_are_well_formed(s, end, before.push(node));
        },
        Err(e) => {
            lemma_run_end(glyphs_of(s), pos, CharClass::Not('<'));
            match text_at(glyphs_of(s), pos) {
                Ok((node, end)) => {
                    assert(well_formed(node));
                    lemma_well_formed_push(before, node);
                    lemma_nodes_are_well_formed(s, end, before.push(node));
                },
                Err(_) => {},
            }
        },
    }
}

/// A well-formed list stays well formed when a well-formed node is put at
/// its end, unless text meets text.
proof fn lemma_well_formed_push(before: Seq<NodeView>, node: NodeView)
    requires
        well_formed_all(before),
        well_formed(node),
        !(before.len() > 0 && before.last().node_type is Text && node.node_type is Text),
    ensures
        well_formed_all(before.push(node)),
{
    let now = before.push(node);
    assert forall|i: int| 0 <= i < now.len() implies well_formed(#[trigger] now[i]) by {
        if i < before.len() {
            assert(now[i] == before[i]);
        }
    }
    assert forall|i: int| 0 <= i < now.len() - 1 implies !((#[trigger] now[i]).node_type is Text
        && now[i + 1].node_type is Text) by {
        if i + 1 < before.len() {
            assert(now[i] == before[i]);
            assert(now[i + 1] == before[i + 1]);
        } else {
            assert(now[i] == before.last());
        }
    }
}

/// The nodes of a document that was read are well formed.
pub proof fn lemma_document_is_well_formed(s: Seq<char>)
    ensures
        document_of(glyphs_of(s)) matches Ok(nodes) ==> well_formed_all(nodes),
{
    lemma_nodes_are_well_formed(s, 0, Seq::empty());
}

/// Markup round-trips: however the nodes that were read from `s` are
/// written back, with the attributes of each element in whatever order,
/// what was written reads as the same nodes in the same order.
pub proof fn lemma_round_trip(s: Seq<char>, text: Seq<char>)
    requires
        markup_is_plain(),
        document_of(glyphs_of(s)) is Ok,
        writes_all(text, document_of(glyphs_of(s))->Ok_0),
    ensures
        document_of(glyphs_of(text)) == document_of(glyphs_of(s)),
{
    let nodes = document_of(glyphs_of(s))->Ok_0;
    let drafts = choose|drafts: Seq<Draft>|
        #![trigger markup_of_all(drafts)]
        markup_of_all(drafts) == text && trees_of(drafts) == nodes && children_are_written_well(
            holder(drafts),
        );
    lemma_reads_what_was_written(drafts);
}

/// Whether the characters that markup is made of are told apart from
/// letters and white space as reading needs it.
pub fn markup_characters_are_plain() -> (b: bool)
    ensures
        b == markup_is_plain(),
{
    ' '.is_whitespace() && !' '.is_alphabetic() && !'/'.is_alphabetic() && !'>'.is_alphabetic()
        && !'='.is_alphabetic() && !'>'.is_whitespace() && !'='.is_whitespace()
        && !'"'.is_whitespace()
}

/// Reads the document `raw` and writes its nodes back. What comes back
/// reads as the same nodes.
///
/// The result is `None` where `raw` is rejected, and where the characters
/// that markup is made of are not told apart from letters and white space.
pub fn canonical_markup(raw: &str) -> (r: Option<String>)
    ensures
        match r {
            Some(text) => {
                &&& document_of(glyphs_of(raw@)) is Ok
                &&& writes_all(text@, document_of(glyphs_of(raw@))->Ok_0)
                &&& document_of(glyphs_of(text@)) == document_of(glyphs_of(raw@))
            },
            None => document_of(glyphs_of(raw@)) is Err || !markup_is_plain(),
        },
{
    if !markup_characters_are_plain() {
        return None;
    }
    match parse_nodes(raw) {
        Ok(nodes) => {
            let text = to_markup_all(&nodes);
            proof {
                lemma_document_is_well_formed(raw@);
                lemma_round_trip(raw@, text@);
            }
            Some(text)
        },
        Err(_) => None,
    }
}

} // verus!

//! From a document to its layout tree: the style sheet that a document
//! carries, its inline scripts, and the pass that styles and lays it out.
use crate::css::parser::{parse, stylesheet_of, GrammarError, GrammarErrorKind};
use crate::css::{RuleView, Stylesheet};
use crate::dom::{collect_tag_inners, tag_inners, views, Node, NodeView};
use crate::layout::{layout, to_layout_box, LayoutBox, LayoutBoxView};
use crate::scan::glyphs_of;
use crate::style::{styled, to_styled_node};
use vstd::prelude::*;
use vstd::string::StringExecFns;

verus! {

/// The style sheet that every document starts from.
pub const DEFAULT_STYLESHEET: &'static str =
    "\nscript, style {\n    display: none;\n}\np, div {\n    display: block;\n}\n";

/// The first `n` of `parts`, with a line break between one part and the
/// next.
pub open spec fn lines(parts: Seq<Seq<char>>, n: nat) -> Seq<char>
    decreases n,
{
    if n == 0 || n > parts.len() {
        Seq::empty()
    } else if n == 1 {
        parts[0]
    } else {
        lines(parts, (n - 1) as nat) + seq!['\n'] + parts[n - 1]
    }
}

/// The text of the style sheet of the document `root`: the default style
/// sheet, a line break, and the inner texts of the `style` elements of the
/// document, in document order, one per line.
pub open spec fn stylesheet_text(root: NodeView) -> Seq<char> {
    let found = tag_inners(root, "style"@);
    DEFAULT_STYLESHEET@ + seq!['\n'] + lines(found, found.len())
}

/// The text of the inline scripts of the document `root`: the inner texts
/// of its `script` elements, in document order, one per line.
pub open spec fn scripts_text(root: NodeView) -> Seq<char> {
    let found = tag_inners(root, "script"@);
    lines(found, found.len())
}

/// Appends `parts` to `text`, with a line break between one part and the
/// next.
fn append_lines(text: &mut String, parts: &Vec<String>)
    ensures
        final(text)@ == old(text)@ + lines(views(parts@), parts@.len()),
{
    let mut i: usize = 0;
    proof {
        reveal_strlit("\n");
    }
    assert(text@ =~= old(text)@ + lines(views(parts@), 0));
    while i < parts.len()
        invariant
            i <= parts@.len(),
            "\n"@ == seq!['\n'],
            text@ == old(text)@ + lines(views(parts@), i as nat),
        decreases parts@.len() - i,
    {
        let ghost before = lines(views(parts@), i as nat);
        if i > 0 {
            text.append("\n");
        }
        text.append(parts[i].as_str());
        proof {
            assert(views(parts@)[i as int] == parts@[i as int]@);
            if i > 0 {
                assert(old(text)@ + before + seq!['\n'] + parts@[i as int]@ =~= old(text)@ + (before
                    + seq!['\n'] + parts@[i as int]@));
            } else {
                assert(old(text)@ + before + parts@[i as int]@ =~= old(text)@ + parts@[i as int]@);
            }
        }
        i += 1;
    }
}

/// The text of the style sheet of the document `root`.
pub fn stylesheet_source(root: &Box<Node>) -> (text: String)
    ensures
        text@ == stylesheet_text(root@),
{
    let found = collect_tag_inners(root, "style");
    let mut text = String::from_str(DEFAULT_STYLESHEET);
    text.append("\n");
    proof {
        reveal_strlit("\n");
    }
    append_lines(&mut text, &found);
    text
}

/// The text of the inline scripts of the document `root`.
pub fn inline_scripts(root: &Box<Node>) -> (text: String)
    ensures
        text@ == scripts_text(root@),
{
    let found = collect_tag_inners(root, "script");
    let mut text = String::new();
    append_lines(&mut text, &found);
    assert(text@ =~= scripts_text(root@));
    text
}

/// Reads the style sheet of the document `root`.
pub fn document_stylesheet(root: &Box<Node>) -> (r: Result<Stylesheet, GrammarError>)
    ensures
        match r {
            Ok(sheet) => stylesheet_of(glyphs_of(stylesheet_text(root@))) == Ok::<
                Seq<RuleView>,
                (GrammarErrorKind, int),
            >(sheet@),
            Err(e) => stylesheet_of(glyphs_of(stylesheet_text(root@))) == Err::<
                Seq<RuleView>,
                (GrammarErrorKind, int),
            >((e.kind, e.position as int)),
        },
{
    let text = stylesheet_source(root);
    parse(text.as_str())
}

/// Styles the document `root` with `stylesheet` and lays it out.
pub fn layout_document<'a>(root: &'a Box<Node>, stylesheet: &Stylesheet) -> (b: LayoutBox<'a>)
    ensures
        b@ == layout(styled(root@, stylesheet@)),
{
    to_layout_box(to_styled_node(root, stylesheet).unwrap())
}

/// Two passes over one document with one style sheet give the same layout
/// tree: the tree is decided by the values of the document and of the sheet
/// and by nothing else.
pub proof fn lemma_same_input_same_layout(
    first: LayoutBoxView,
    second: LayoutBoxView,
    root: NodeView,
    rules: Seq<RuleView>,
)
    requires
        first == layout(styled(root, rules)),
        second == layout(styled(root, rules)),
    ensures
        first == second,
{
}

} // verus!

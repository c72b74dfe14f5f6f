//! The style sheet grammar and its parser.
//!
//! ```text
//! Stylesheet      := ws (Rule ws)*
//! Rule            := SelectorList '{' ws DeclarationList '}'
//! SelectorList    := SimpleSelector ws (',' ws SimpleSelector ws)*
//! SimpleSelector  := '*' | '.' name | name ws ('[' ws name ('=' | '~=') name ']')?
//! DeclarationList := (Declaration ws (';' ws Declaration ws)* (';' ws)?)?
//! Declaration     := name ws ':' ws name
//! ```
//!
//! A `name` is one or more letters and `ws` is any run of white space,
//! where the glyphs of the input say what is a letter and what is white
//! space. The grammar is deterministic: what stands at a position decides
//! every choice, so an input has at most one reading, and a production that
//! has begun either completes or fails at the position where the input
//! departs from it.
//!
//! Each production is a function of the glyphs and of a position. The
//! functions named `read_` work on glyphs; the functions named after the
//! productions turn a text into glyphs, read it from its start and hand
//! back what is left of it.
use crate::css::{
    AttributeSelectorOp, CSSValue, Declaration, DeclarationView, Rule, RuleView, SelectorView,
    SimpleSelector, Stylesheet, ValueView,
};
use crate::dom::views;
use crate::scan::{
    at, at_class, classify, glyphs_of, has_char, has_class, lemma_run_end, rest_of, run_end, scan,
    text_between, text_of, CharClass, Glyph,
};
use vstd::prelude::*;

verus! {

/// Why a style sheet was rejected.
#[derive(Debug, PartialEq, Eq, Structural, Clone, Copy)]
pub enum GrammarErrorKind {
    /// The input departs from the grammar.
    Syntax,
    /// An attribute selector compares with something other than `=` or
    /// `~=`.
    InvalidAttributeSelectorOp,
}

/// A rejected style sheet: why, and at which character of the input.
#[derive(Debug, PartialEq, Eq, Structural, Clone, Copy)]
pub struct GrammarError {
    pub kind: GrammarErrorKind,
    pub position: usize,
}

impl GrammarError {
    /// What went wrong, in words.
    pub fn message(&self) -> (m: &'static str)
        ensures
            m@ == (match self.kind {
                GrammarErrorKind::Syntax => "unexpected input"@,
                GrammarErrorKind::InvalidAttributeSelectorOp => "invalid attribute selector op"@,
            }),
    {
        match self.kind {
            GrammarErrorKind::Syntax => "unexpected input",
            GrammarErrorKind::InvalidAttributeSelectorOp => "invalid attribute selector op",
        }
    }
}

/// What a production makes of an input from a position on: a value and the
/// position after it, or the kind and the position of the failure.
pub type Parsed<T> = Result<(T, int), (GrammarErrorKind, int)>;

/// The failure to read the input at `pos`.
pub open spec fn syntax_error<T>(pos: int) -> Parsed<T> {
    Err((GrammarErrorKind::Syntax, pos))
}

/// `SimpleSelector` at `pos`.
pub open spec fn simple_selector_at(s: Seq<Glyph>, pos: int) -> Parsed<SelectorView> {
    if has_char(s, pos, '*') {
        Ok((SelectorView::Universal, pos + 1))
    } else if has_char(s, pos, '.') {
        let end = run_end(s, pos + 1, CharClass::Letter);
        if end > pos + 1 {
            Ok((SelectorView::Class { class_name: text_between(s, pos + 1, end) }, end))
        } else {
            syntax_error(pos + 1)
        }
    } else {
        let end = run_end(s, pos, CharClass::Letter);
        if end > pos {
            let tag_name = text_between(s, pos, end);
            let next = run_end(s, end, CharClass::Space);
            if has_char(s, next, '[') {
                attribute_test_at(s, next + 1, tag_name)
            } else {
                Ok((SelectorView::Type { tag_name }, next))
            }
        } else {
            syntax_error(pos)
        }
    }
}

/// The operator of an attribute selector at `pos`, if one stands there.
pub open spec fn operator_at(s: Seq<Glyph>, pos: int) -> Option<(AttributeSelectorOp, int)> {
    if has_char(s, pos, '=') {
        Some((AttributeSelectorOp::Eq, pos + 1))
    } else if has_char(s, pos, '~') && has_char(s, pos + 1, '=') {
        Some((AttributeSelectorOp::Contain, pos + 2))
    } else {
        None
    }
}

/// What follows the `[` of an attribute selector on `tag_name`, at `pos`:
/// `ws name ('=' | '~=') name ']'`.
pub open spec fn attribute_test_at(s: Seq<Glyph>, pos: int, tag_name: Seq<char>) -> Parsed<
    SelectorView,
> {
    let start = run_end(s, pos, CharClass::Space);
    let end = run_end(s, start, CharClass::Letter);
    if end > start {
        match operator_at(s, end) {
            Some((op, value_start)) => {
                let value_end = run_end(s, value_start, CharClass::Letter);
                if value_end == value_start {
                    syntax_error(value_start)
                } else if has_char(s, value_end, ']') {
                    Ok(
                        (
                            SelectorView::Attribute {
                                tag_name,
                                op,
                                attribute: text_between(s, start, end),
                                value: text_between(s, value_start, value_end),
                            },
                            value_end + 1,
                        ),
                    )
                } else {
                    syntax_error(value_end)
                }
            },
            None => Err((GrammarErrorKind::InvalidAttributeSelectorOp, end)),
        }
    } else {
        syntax_error(start)
    }
}

/// `SelectorList` at `pos`.
pub open spec fn selectors_at(s: Seq<Glyph>, pos: int) -> Parsed<Seq<SelectorView>> {
    match simple_selector_at(s, pos) {
        Ok((first, end)) => more_selectors_at(s, run_end(s, end, CharClass::Space), seq![first]),
        Err(e) => Err(e),
    }
}

/// `(',' ws SimpleSelector ws)*` at `pos`, after the selectors `before`.
pub open spec fn more_selectors_at(s: Seq<Glyph>, pos: int, before: Seq<SelectorView>) -> Parsed<
    Seq<SelectorView>,
>
    decreases s.len() - pos,
{
    if has_char(s, pos, ',') {
        let start = run_end(s, pos + 1, CharClass::Space);
        match simple_selector_at(s, start) {
            Ok((next, end)) => {
                proof {
                    lemma_run_end(s, pos + 1, CharClass::Space);
                    lemma_simple_selector_at(s, start);
                    lemma_run_end(s, end, CharClass::Space);
                }
                more_selectors_at(s, run_end(s, end, CharClass::Space), before.push(next))
            },
            Err(e) => Err(e),
        }
    } else {
        Ok((before, pos))
    }
}

/// `Declaration` at `pos`.
pub open spec fn declaration_at(s: Seq<Glyph>, pos: int) -> Parsed<DeclarationView> {
    let name_end = run_end(s, pos, CharClass::Letter);
    let colon = run_end(s, name_end, CharClass::Space);
    let value_start = run_end(s, colon + 1, CharClass::Space);
    let value_end = run_end(s, value_start, CharClass::Letter);
    if name_end == pos {
        syntax_error(pos)
    } else if !has_char(s, colon, ':') {
        syntax_error(colon)
    } else if value_end == value_start {
        syntax_error(value_start)
    } else {
        Ok(
            (
                DeclarationView {
                    name: text_between(s, pos, name_end),
                    value: ValueView::Keyword(text_between(s, value_start, value_end)),
                },
                value_end,
            ),
        )
    }
}

/// `DeclarationList` at `pos`, after the declarations `before`.
pub open spec fn declarations_at(s: Seq<Glyph>, pos: int, before: Seq<DeclarationView>) -> Parsed<
    Seq<DeclarationView>,
>
    decreases s.len() - pos,
{
    if has_class(s, pos, CharClass::Letter) {
        match declaration_at(s, pos) {
            Ok((next, end)) => {
                let after = run_end(s, end, CharClass::Space);
                if has_char(s, after, ';') {
                    proof {
                        lemma_declaration_at(s, pos);
                        lemma_run_end(s, end, CharClass::Space);
                        lemma_run_end(s, after + 1, CharClass::Space);
                    }
                    declarations_at(s, run_end(s, after + 1, CharClass::Space), before.push(next))
                } else {
                    Ok((before.push(next), after))
                }
            },
            Err(e) => Err(e),
        }
    } else {
        Ok((before, pos))
    }
}

/// `Rule` at `pos`.
pub open spec fn rule_at(s: Seq<Glyph>, pos: int) -> Parsed<RuleView> {
    match selectors_at(s, pos) {
        Ok((selectors, open)) => {
            if has_char(s, open, '{') {
                match declarations_at(s, run_end(s, open + 1, CharClass::Space), Seq::empty()) {
                    Ok((declarations, close)) => {
                        if has_char(s, close, '}') {
                            Ok((RuleView { selectors, declarations }, close + 1))
                        } else {
                            syntax_error(close)
                        }
                    },
                    Err(e) => Err(e),
                }
            } else {
                syntax_error(open)
            }
        },
        Err(e) => Err(e),
    }
}

/// Whether a rule may begin at `pos`: with `*`, `.` or a letter.
pub open spec fn rule_begins(s: Seq<Glyph>, pos: int) -> bool {
    has_char(s, pos, '*') || has_char(s, pos, '.') || has_class(s, pos, CharClass::Letter)
}

/// `(Rule ws)*` at `pos`, after the rules `before`. The list ends where no
/// rule begins.
pub open spec fn more_rules_at(s: Seq<Glyph>, pos: int, before: Seq<RuleView>) -> Parsed<
    Seq<RuleView>,
>
    decreases s.len() - pos,
{
    if rule_begins(s, pos) {
        match rule_at(s, pos) {
            Ok((next, end)) => {
                proof {
                    lemma_rule_at(s, pos);
                    lemma_run_end(s, end, CharClass::Space);
                }
                more_rules_at(s, run_end(s, end, CharClass::Space), before.push(next))
            },
            Err(e) => Err(e),
        }
    } else {
        Ok((before, pos))
    }
}

/// `ws (Rule ws)*` at `pos`.
pub open spec fn rules_at(s: Seq<Glyph>, pos: int) -> Parsed<Seq<RuleView>> {
    more_rules_at(s, run_end(s, pos, CharClass::Space), Seq::empty())
}

/// The style sheet that `s` stands for: its rules, if `s` is a
/// `Stylesheet` from its first character to its last.
pub open spec fn stylesheet_of(s: Seq<Glyph>) -> Result<Seq<RuleView>, (GrammarErrorKind, int)> {
    match rules_at(s, 0) {
        Ok((rules, end)) => if end == s.len() {
            Ok(rules)
        } else {
            Err((GrammarErrorKind::Syntax, end))
        },
        Err(e) => Err(e),
    }
}

/// A selector that was read ends after its start and within the input; a
/// failure lies at or after the start and within the input.
pub proof fn lemma_simple_selector_at(s: Seq<Glyph>, pos: int)
    requires
        0 <= pos <= s.len(),
    ensures
        match simple_selector_at(s, pos) {
            Ok((_, end)) => pos < end <= s.len(),
            Err((_, at)) => pos <= at <= s.len(),
        },
{
    lemma_run_end(s, pos + 1, CharClass::Letter);
    lemma_run_end(s, pos, CharClass::Letter);
    let end = run_end(s, pos, CharClass::Letter);
    lemma_run_end(s, end, CharClass::Space);
    let next = run_end(s, end, CharClass::Space);
    lemma_run_end(s, next + 1, CharClass::Space);
    let start = run_end(s, next + 1, CharClass::Space);
    lemma_run_end(s, start, CharClass::Letter);
    let a_end = run_end(s, start, CharClass::Letter);
    lemma_run_end(s, a_end + 1, CharClass::Letter);
    lemma_run_end(s, a_end + 2, CharClass::Letter);
}

/// A declaration that was read ends after its start and within the input;
/// a failure lies at or after the start and within the input.
pub proof fn lemma_declaration_at(s: Seq<Glyph>, pos: int)
    requires
        0 <= pos <= s.len(),
    ensures
        match declaration_at(s, pos) {
            Ok((_, end)) => pos < end <= s.len(),
            Err((_, at)) => pos <= at <= s.len(),
        },
{
    lemma_run_end(s, pos, CharClass::Letter);
    let name_end = run_end(s, pos, CharClass::Letter);
    lemma_run_end(s, name_end, CharClass::Space);
    let colon = run_end(s, name_end, CharClass::Space);
    lemma_run_end(s, colon + 1, CharClass::Space);
    let value_start = run_end(s, colon + 1, CharClass::Space);
    lemma_run_end(s, value_start, CharClass::Letter);
}

/// A list of selectors that was read ends at or after its start and within
/// the input; a failure lies at or after the start and within the input.
pub proof fn lemma_more_selectors_at(s: Seq<Glyph>, pos: int, before: Seq<SelectorView>)
    requires
        0 <= pos <= s.len(),
    ensures
        match more_selectors_at(s, pos, before) {
            Ok((_, end)) => pos <= end <= s.len(),
            Err((_, at)) => pos <= at <= s.len(),
        },
    decreases s.len() - pos,
{
    if has_char(s, pos, ',') {
        lemma_run_end(s, pos + 1, CharClass::Space);
        let start = run_end(s, pos + 1, CharClass::Space);
        lemma_simple_selector_at(s, start);
        match simple_selector_at(s, start) {
            Ok((next, end)) => {
                lemma_run_end(s, end, CharClass::Space);
                lemma_more_selectors_at(s, run_end(s, end, CharClass::Space), before.push(next));
            },
            Err(e) => {},
        }
    }
}

/// A list of declarations that was read ends at or after its start and
/// within the input; a failure lies at or after the start and within the
/// input.
pub proof fn lemma_declarations_at(s: Seq<Glyph>, pos: int, before: Seq<DeclarationView>)
    requires
        0 <= pos <= s.len(),
    ensures
        match declarations_at(s, pos, before) {
            Ok((_, end)) => pos <= end <= s.len(),
            Err((_, at)) => pos <= at <= s.len(),
        },
    decreases s.len() - pos,
{
    if has_class(s, pos, CharClass::Letter) {
        lemma_declaration_at(s, pos);
        match declaration_at(s, pos) {
            Ok((next, end)) => {
                lemma_run_end(s, end, CharClass::Space);
                let after = run_end(s, end, CharClass::Space);
                if has_char(s, after, ';') {
                    lemma_run_end(s, after + 1, CharClass::Space);
                    lemma_declarations_at(
                        s,
                        run_end(s, after + 1, CharClass::Space),
                        before.push(next),
                    );
                }
            },
            Err(e) => {},
        }
    }
}

/// A rule that was read ends after its start and within the input; a
/// failure lies at or after the start and within the input.
pub proof fn lemma_rule_at(s: Seq<Glyph>, pos: int)
    requires
        0 <= pos <= s.len(),
    ensures
        match rule_at(s, pos) {
            Ok((_, end)) => pos < end <= s.len(),
            Err((_, at)) => pos <= at <= s.len(),
        },
{
    lemma_simple_selector_at(s, pos);
    match simple_selector_at(s, pos) {
        Ok((first, end)) => {
            lemma_run_end(s, end, CharClass::Space);
            lemma_more_selectors_at(s, run_end(s, end, CharClass::Space), seq![first]);
            match selectors_at(s, pos) {
                Ok((selectors, open)) => {
                    lemma_run_end(s, open + 1, CharClass::Space);
                    if has_char(s, open, '{') {
                        lemma_declarations_at(
                            s,
                            run_end(s, open + 1, CharClass::Space),
                            Seq::empty(),
                        );
                    }
                },
                Err(e) => {},
            }
        },
        Err(e) => {},
    }
}

/// Whether a parser's result `r` is what the production gives: the same
/// value and end, or the same failure.
pub open spec fn agrees<T: View>(r: Result<(T, usize), GrammarError>, p: Parsed<T::V>) -> bool {
    match r {
        Ok((v, end)) => p == Ok::<(T::V, int), (GrammarErrorKind, int)>((v@, end as int)),
        Err(e) => p == Err::<(T::V, int), (GrammarErrorKind, int)>((e.kind, e.position as int)),
    }
}

/// [`agrees`] for a production that gives a list.
pub open spec fn agrees_all<T: View>(
    r: Result<(Vec<T>, usize), GrammarError>,
    p: Parsed<Seq<T::V>>,
) -> bool {
    match r {
        Ok((v, end)) => p == Ok::<(Seq<T::V>, int), (GrammarErrorKind, int)>(
            (views(v@), end as int),
        ),
        Err(e) => p == Err::<(Seq<T::V>, int), (GrammarErrorKind, int)>(
            (e.kind, e.position as int),
        ),
    }
}

/// Whether a parser's result `r` on the whole of `input` is what the
/// production gives at the start of `input`: the same value with the rest
/// of the input after it, or the same failure.
pub open spec fn gives<T: View>(
    r: Result<(T, &str), GrammarError>,
    p: Parsed<T::V>,
    input: Seq<char>,
) -> bool {
    match r {
        Ok((v, rest)) => p matches Ok((w, end)) && w == v@ && 0 <= end <= input.len() && rest@
            == input.subrange(end, input.len() as int),
        Err(e) => p == Err::<(T::V, int), (GrammarErrorKind, int)>((e.kind, e.position as int)),
    }
}

/// [`gives`] for a production that gives a list.
pub open spec fn gives_all<T: View>(
    r: Result<(Vec<T>, &str), GrammarError>,
    p: Parsed<Seq<T::V>>,
    input: Seq<char>,
) -> bool {
    match r {
        Ok((v, rest)) => p matches Ok((w, end)) && w == views(v@) && 0 <= end <= input.len()
            && rest@ == input.subrange(end, input.len() as int),
        Err(e) => p == Err::<(Seq<T::V>, int), (GrammarErrorKind, int)>(
            (e.kind, e.position as int),
        ),
    }
}

/// The failure to read the input at `pos`.
fn syntax(pos: usize) -> (e: GrammarError)
    ensures
        e == (GrammarError { kind: GrammarErrorKind::Syntax, position: pos }),
{
    GrammarError { kind: GrammarErrorKind::Syntax, position: pos }
}

/// Reads what follows the `[` of an attribute selector on `tag_name`.
pub fn read_attribute_test(glyphs: &Vec<Glyph>, pos: usize, tag_name: String) -> (r: Result<
    (SimpleSelector, usize),
    GrammarError,
>)
    requires
        pos <= glyphs@.len(),
    ensures
        agrees(r, attribute_test_at(glyphs@, pos as int, tag_name@)),
        r matches Ok((_, end)) ==> end <= glyphs@.len(),
{
    let start = scan(glyphs, pos, CharClass::Space);
    let end = scan(glyphs, start, CharClass::Letter);
    if end == start {
        return Err(syntax(start));
    }
    let op: AttributeSelectorOp;
    let value_start: usize;
    if at(glyphs, end, '=') {
        op = AttributeSelectorOp::Eq;
        value_start = end + 1;
    } else if at(glyphs, end, '~') && at(glyphs, end + 1, '=') {
        op = AttributeSelectorOp::Contain;
        value_start = end + 2;
    } else {
        return Err(
            GrammarError { kind: GrammarErrorKind::InvalidAttributeSelectorOp, position: end },
        );
    }
    let value_end = scan(glyphs, value_start, CharClass::Letter);
    if value_end == value_start {
        return Err(syntax(value_start));
    }
    if !at(glyphs, value_end, ']') {
        return Err(syntax(value_end));
    }
    let attribute = text_of(glyphs, start, end);
    let value = text_of(glyphs, value_start, value_end);
    Ok((SimpleSelector::AttributeSelector { tag_name, op, attribute, value }, value_end + 1))
}

/// Reads a `SimpleSelector`.
pub fn read_simple_selector(glyphs: &Vec<Glyph>, pos: usize) -> (r: Result<
    (SimpleSelector, usize),
    GrammarError,
>)
    requires
        pos <= glyphs@.len(),
    ensures
        agrees(r, simple_selector_at(glyphs@, pos as int)),
        r matches Ok((_, end)) ==> end <= glyphs@.len(),
{
    if at(glyphs, pos, '*') {
        Ok((SimpleSelector::UniversalSelector, pos + 1))
    } else if at(glyphs, pos, '.') {
        let end = scan(glyphs, pos + 1, CharClass::Letter);
        if end > pos + 1 {
            Ok((SimpleSelector::ClassSelector { class_name: text_of(glyphs, pos + 1, end) }, end))
        } else {
            Err(syntax(pos + 1))
        }
    } else {
        let end = scan(glyphs, pos, CharClass::Letter);
        if end > pos {
            let tag_name = text_of(glyphs, pos, end);
            let next = scan(glyphs, end, CharClass::Space);
            if at(glyphs, next, '[') {
                read_attribute_test(glyphs, next + 1, tag_name)
            } else {
                Ok((SimpleSelector::TypeSelector { tag_name }, next))
            }
        } else {
            Err(syntax(pos))
        }
    }
}

/// Reads a `SelectorList`.
pub fn read_selectors(glyphs: &Vec<Glyph>, pos: usize) -> (r: Result<
    (Vec<SimpleSelector>, usize),
    GrammarError,
>)
    requires
        pos <= glyphs@.len(),
    ensures
        agrees_all(r, selectors_at(glyphs@, pos as int)),
        r matches Ok((_, end)) ==> end <= glyphs@.len(),
{
    let mut selectors: Vec<SimpleSelector> = Vec::new();
    let mut cur: usize;
    match read_simple_selector(glyphs, pos) {
        Ok((first, end)) => {
            selectors.push(first);
            cur = scan(glyphs, end, CharClass::Space);
        },
        Err(e) => {
            return Err(e);
        },
    }
    assert(views(selectors@) =~= seq![selectors@[0]@]);
    while at(glyphs, cur, ',')
        invariant
            cur <= glyphs@.len(),
            selectors_at(glyphs@, pos as int) == more_selectors_at(
                glyphs@,
                cur as int,
                views(selectors@),
            ),
        decreases glyphs@.len() - cur,
    {
        let start = scan(glyphs, cur + 1, CharClass::Space);
        match read_simple_selector(glyphs, start) {
            Ok((next, end)) => {
                proof {
                    lemma_simple_selector_at(glyphs@, start as int);
                    assert(views(selectors@).push(next@) =~= views(selectors@.push(next)));
                }
                selectors.push(next);
                cur = scan(glyphs, end, CharClass::Space);
            },
            Err(e) => {
                return Err(e);
            },
        }
    }
    Ok((selectors, cur))
}

/// Reads a `Declaration`.
pub fn read_declaration(glyphs: &Vec<Glyph>, pos: usize) -> (r: Result<
    (Declaration, usize),
    GrammarError,
>)
    requires
        pos <= glyphs@.len(),
    ensures
        agrees(r, declaration_at(glyphs@, pos as int)),
        r matches Ok((_, end)) ==> end <= glyphs@.len(),
{
    let name_end = scan(glyphs, pos, CharClass::Letter);
    if name_end == pos {
        return Err(syntax(pos));
    }
    let colon = scan(glyphs, name_end, CharClass::Space);
    if !at(glyphs, colon, ':') {
        return Err(syntax(colon));
    }
    let value_start = scan(glyphs, colon + 1, CharClass::Space);
    let value_end = scan(glyphs, value_start, CharClass::Letter);
    if value_end == value_start {
        return Err(syntax(value_start));
    }
    let name = text_of(glyphs, pos, name_end);
    let value = CSSValue::Keyword(text_of(glyphs, value_start, value_end));
    Ok((Declaration { name, value }, value_end))
}

/// Reads a `DeclarationList`.
pub fn read_declarations(glyphs: &Vec<Glyph>, pos: usize) -> (r: Result<
    (Vec<Declaration>, usize),
    GrammarError,
>)
    requires
        pos <= glyphs@.len(),
    ensures
        agrees_all(r, declarations_at(glyphs@, pos as int, Seq::empty())),
        r matches Ok((_, end)) ==> end <= glyphs@.len(),
{
    let mut declarations: Vec<Declaration> = Vec::new();
    let mut cur: usize = pos;
    assert(views(declarations@) =~= Seq::<DeclarationView>::empty());
    while at_class(glyphs, cur, CharClass::Letter)
        invariant
            cur <= glyphs@.len(),
            declarations_at(glyphs@, pos as int, Seq::empty()) == declarations_at(
                glyphs@,
                cur as int,
                views(declarations@),
            ),
        decreases glyphs@.len() - cur,
    {
        match read_declaration(glyphs, cur) {
            Ok((next, end)) => {
                proof {
                    lemma_declaration_at(glyphs@, cur as int);
                    assert(views(declarations@).push(next@) =~= views(declarations@.push(next)));
                }
                declarations.push(next);
                let after = scan(glyphs, end, CharClass::Space);
                if at(glyphs, after, ';') {
                    cur = scan(glyphs, after + 1, CharClass::Space);
                } else {
                    return Ok((declarations, after));
                }
            },
            Err(e) => {
                return Err(e);
            },
        }
    }
    Ok((declarations, cur))
}

/// Reads a `Rule`.
pub fn read_rule(glyphs: &Vec<Glyph>, pos: usize) -> (r: Result<(Rule, usize), GrammarError>)
    requires
        pos <= glyphs@.len(),
    ensures
        agrees(r, rule_at(glyphs@, pos as int)),
        r matches Ok((_, end)) ==> end <= glyphs@.len(),
{
    let (selectors, open) = match read_selectors(glyphs, pos) {
        Ok(found) => found,
        Err(e) => {
            return Err(e);
        },
    };
    if !at(glyphs, open, '{') {
        return Err(syntax(open));
    }
    let start = scan(glyphs, open + 1, CharClass::Space);
    let (declarations, close) = match read_declarations(glyphs, start) {
        Ok(found) => found,
        Err(e) => {
            return Err(e);
        },
    };
    if !at(glyphs, close, '}') {
        return Err(syntax(close));
    }
    Ok((Rule { selectors, declarations }, close + 1))
}

/// Reads `ws (Rule ws)*`.
pub fn read_rules(glyphs: &Vec<Glyph>, pos: usize) -> (r: Result<(Vec<Rule>, usize), GrammarError>)
    requires
        pos <= glyphs@.len(),
    ensures
        agrees_all(r, rules_at(glyphs@, pos as int)),
        r matches Ok((_, end)) ==> end <= glyphs@.len(),
{
    let mut rules: Vec<Rule> = Vec::new();
    let mut cur: usize = scan(glyphs, pos, CharClass::Space);
    assert(views(rules@) =~= Seq::<RuleView>::empty());
    while at(glyphs, cur, '*') || at(glyphs, cur, '.') || at_class(glyphs, cur, CharClass::Letter)
        invariant
            cur <= glyphs@.len(),
            rules_at(glyphs@, pos as int) == more_rules_at(glyphs@, cur as int, views(rules@)),
        decreases glyphs@.len() - cur,
    {
        match read_rule(glyphs, cur) {
            Ok((next, end)) => {
                proof {
                    lemma_rule_at(glyphs@, cur as int);
                    assert(views(rules@).push(next@) =~= views(rules@.push(next)));
                }
                rules.push(next);
                cur = scan(glyphs, end, CharClass::Space);
            },
            Err(e) => {
                return Err(e);
            },
        }
    }
    Ok((rules, cur))
}

/// Reads a selector at the start of `input` and hands back the rest of
/// the input.
pub fn simple_selector<'a>(input: &'a str) -> (r: Result<(SimpleSelector, &'a str), GrammarError>)
    ensures
        gives(r, simple_selector_at(glyphs_of(input@), 0), input@),
{
    let glyphs = classify(input);
    match read_simple_selector(&glyphs, 0) {
        Ok((v, end)) => Ok((v, rest_of(input, end))),
        Err(e) => Err(e),
    }
}

/// Reads a list of selectors at the start of `input` and hands back the
/// rest of the input.
pub fn selectors<'a>(input: &'a str) -> (r: Result<(Vec<SimpleSelector>, &'a str), GrammarError>)
    ensures
        gives_all(r, selectors_at(glyphs_of(input@), 0), input@),
{
    let glyphs = classify(input);
    match read_selectors(&glyphs, 0) {
        Ok((v, end)) => Ok((v, rest_of(input, end))),
        Err(e) => Err(e),
    }
}

/// Reads a declaration at the start of `input` and hands back the rest of
/// the input.
pub fn declaration<'a>(input: &'a str) -> (r: Result<(Declaration, &'a str), GrammarError>)
    ensures
        gives(r, declaration_at(glyphs_of(input@), 0), input@),
{
    let glyphs = classify(input);
    match read_declaration(&glyphs, 0) {
        Ok((v, end)) => Ok((v, rest_of(input, end))),
        Err(e) => Err(e),
    }
}

/// Reads a list of declarations at the start of `input` and hands back
/// the rest of the input.
pub fn declarations<'a>(input: &'a str) -> (r: Result<(Vec<Declaration>, &'a str), GrammarError>)
    ensures
        gives_all(r, declarations_at(glyphs_of(input@), 0, Seq::empty()), input@),
{
    let glyphs = classify(input);
    match read_declarations(&glyphs, 0) {
        Ok((v, end)) => Ok((v, rest_of(input, end))),
        Err(e) => Err(e),
    }
}

/// Reads a rule at the start of `input` and hands back the rest of the
/// input.
pub fn rule<'a>(input: &'a str) -> (r: Result<(Rule, &'a str), GrammarError>)
    ensures
        gives(r, rule_at(glyphs_of(input@), 0), input@),
{
    let glyphs = classify(input);
    match read_rule(&glyphs, 0) {
        Ok((v, end)) => Ok((v, rest_of(input, end))),
        Err(e) => Err(e),
    }
}

/// Reads rules from the start of `input`, white space around them, up to
/// where no rule begins, and hands back the rest of the input.
pub fn rules<'a>(input: &'a str) -> (r: Result<(Vec<Rule>, &'a str), GrammarError>)
    ensures
        gives_all(r, rules_at(glyphs_of(input@), 0), input@),
{
    let glyphs = classify(input);
    match read_rules(&glyphs, 0) {
        Ok((v, end)) => Ok((v, rest_of(input, end))),
        Err(e) => Err(e),
    }
}

/// Reads a style sheet from glyphs.
///
/// The whole of `glyphs` has to be a style sheet: input that is left after
/// the last rule is a syntax error at the position where it starts.
pub fn read_stylesheet(glyphs: &Vec<Glyph>) -> (r: Result<Stylesheet, GrammarError>)
    ensures
        match r {
            Ok(sheet) => stylesheet_of(glyphs@) == Ok::<Seq<RuleView>, (GrammarErrorKind, int)>(
                sheet@,
            ),
            Err(e) => stylesheet_of(glyphs@) == Err::<Seq<RuleView>, (GrammarErrorKind, int)>(
                (e.kind, e.position as int),
            ),
        },
{
    match read_rules(glyphs, 0) {
        Ok((rules, end)) => {
            if end == glyphs.len() {
                Ok(Stylesheet::new(rules))
            } else {
                Err(syntax(end))
            }
        },
        Err(e) => Err(e),
    }
}

/// Reads a style sheet.
///
/// The whole of `raw` has to be a style sheet: input that is left after
/// the last rule is a syntax error at the position where it starts.
pub fn parse(raw: &str) -> (r: Result<Stylesheet, GrammarError>)
    ensures
        match r {
            Ok(sheet) => stylesheet_of(glyphs_of(raw@)) == Ok::<
                Seq<RuleView>,
                (GrammarErrorKind, int),
            >(sheet@),
            Err(e) => stylesheet_of(glyphs_of(raw@)) == Err::<
                Seq<RuleView>,
                (GrammarErrorKind, int),
            >((e.kind, e.position as int)),
        },
{
    read_stylesheet(&classify(raw))
}

} // verus!

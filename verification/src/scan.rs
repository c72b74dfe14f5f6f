//! Characters with their classes, and runs of characters of one class: the
//! building blocks of both grammars.
//!
//! Whether a character is a letter or white space is asked of the standard
//! library once, when a text is turned into glyphs. Everything after that
//! works on the glyphs and on nothing else.
use crate::chars::{is_letter, is_space};
use vstd::prelude::*;
use vstd::string::StrSliceExecFns;

verus! {

/// A character together with its classes.
#[derive(Debug, PartialEq, Eq, Structural, Clone, Copy)]
pub struct Glyph {
    pub c: char,
    /// Whether the character counts as a letter.
    pub letter: bool,
    /// Whether the character counts as white space.
    pub space: bool,
}

/// A class of characters.
#[derive(Debug, PartialEq, Eq, Structural, Clone, Copy)]
pub enum CharClass {
    /// The letters.
    Letter,
    /// White space, line breaks included.
    Space,
    /// Every character but the given one.
    Not(char),
}

/// The glyph of `c`: the character with the classes that the standard
/// library gives it.
pub open spec fn glyph_of(c: char) -> Glyph {
    Glyph { c, letter: is_letter(c), space: is_space(c) }
}

/// The glyphs of the characters of `text`, in order.
pub open spec fn glyphs_of(text: Seq<char>) -> Seq<Glyph> {
    Seq::new(text.len(), |i: int| glyph_of(text[i]))
}

/// The characters of the glyphs of `s` from `from` up to `to`.
pub open spec fn text_between(s: Seq<Glyph>, from: int, to: int) -> Seq<char> {
    Seq::new((to - from) as nat, |i: int| s[from + i].c)
}

/// Whether the glyph `g` belongs to the class `class`.
pub open spec fn in_class(class: CharClass, g: Glyph) -> bool {
    match class {
        CharClass::Letter => g.letter,
        CharClass::Space => g.space,
        CharClass::Not(stop) => g.c != stop,
    }
}

/// Where the longest run of glyphs of `class` that starts at `pos` ends:
/// the first position at or after `pos` that holds no glyph of the class,
/// or the end of `s`.
pub open spec fn run_end(s: Seq<Glyph>, pos: int, class: CharClass) -> int
    decreases s.len() - pos,
{
    if 0 <= pos < s.len() && in_class(class, s[pos]) {
        run_end(s, pos + 1, class)
    } else {
        pos
    }
}

/// Whether `s` holds the character `c` at `pos`.
pub open spec fn has_char(s: Seq<Glyph>, pos: int, c: char) -> bool {
    0 <= pos < s.len() && s[pos].c == c
}

/// Whether `s` holds a glyph of `class` at `pos`.
pub open spec fn has_class(s: Seq<Glyph>, pos: int, class: CharClass) -> bool {
    0 <= pos < s.len() && in_class(class, s[pos])
}

/// A run ends at or after its start and, where it starts within the input,
/// within the input; it holds only glyphs of its class, and what follows
/// it is not of the class.
pub proof fn lemma_run_end(s: Seq<Glyph>, pos: int, class: CharClass)
    ensures
        pos <= run_end(s, pos, class),
        pos <= s.len() ==> run_end(s, pos, class) <= s.len(),
        forall|i: int| pos <= i < run_end(s, pos, class) ==> in_class(class, #[trigger] s[i]),
        !has_class(s, run_end(s, pos, class), class),
        run_end(s, pos, class) > pos <==> has_class(s, pos, class),
    decreases s.len() - pos,
{
    if 0 <= pos < s.len() && in_class(class, s[pos]) {
        lemma_run_end(s, pos + 1, class);
    }
}

/// The characters of the glyphs of a text are the characters of the
/// text.
pub proof fn lemma_text_between(text: Seq<char>, from: int, to: int)
    requires
        0 <= from <= to <= text.len(),
    ensures
        text_between(glyphs_of(text), from, to) == text.subrange(from, to),
{
    assert(text_between(glyphs_of(text), from, to) =~= text.subrange(from, to));
}

/// The glyphs of the characters of `text`, in order.
pub fn classify(text: &str) -> (glyphs: Vec<Glyph>)
    ensures
        glyphs@ == glyphs_of(text@),
{
    let mut glyphs: Vec<Glyph> = Vec::new();
    for c in it: text.chars()
        invariant
            it.seq() == text@,
            glyphs@ == glyphs_of(it.seq().take(it.index())),
    {
        assert(glyphs_of(it.seq().take(it.index() + 1)) == glyphs_of(
            it.seq().take(it.index()),
        ).push(glyph_of(c)));
        glyphs.push(Glyph { c, letter: c.is_alphabetic(), space: c.is_whitespace() });
    }
    assert(text@.take(text@.len() as int) == text@);
    glyphs
}

/// The characters of `glyphs[from..to]`, as a string.
pub fn text_of(glyphs: &Vec<Glyph>, from: usize, to: usize) -> (text: String)
    requires
        from <= to <= glyphs@.len(),
    ensures
        text@ == text_between(glyphs@, from as int, to as int),
{
    let mut text = String::new();
    let mut i: usize = from;
    while i < to
        invariant
            from <= i <= to <= glyphs@.len(),
            text@ == text_between(glyphs@, from as int, i as int),
        decreases to - i,
    {
        text.push(glyphs[i].c);
        i += 1;
    }
    text
}

/// Whether the glyph `g` belongs to the class `class`.
pub fn belongs(class: CharClass, g: Glyph) -> (b: bool)
    ensures
        b == in_class(class, g),
{
    match class {
        CharClass::Letter => g.letter,
        CharClass::Space => g.space,
        CharClass::Not(stop) => g.c != stop,
    }
}

/// Where the longest run of glyphs of `class` that starts at `pos` ends.
pub fn scan(glyphs: &Vec<Glyph>, pos: usize, class: CharClass) -> (end: usize)
    requires
        pos <= glyphs@.len(),
    ensures
        end == run_end(glyphs@, pos as int, class),
        pos <= end <= glyphs@.len(),
{
    let mut end: usize = pos;
    while end < glyphs.len() && belongs(class, glyphs[end])
        invariant
            pos <= end <= glyphs@.len(),
            run_end(glyphs@, pos as int, class) == run_end(glyphs@, end as int, class),
        decreases glyphs@.len() - end,
    {
        end += 1;
    }
    end
}

/// Whether `glyphs` holds the character `c` at `pos`.
pub fn at(glyphs: &Vec<Glyph>, pos: usize, c: char) -> (b: bool)
    ensures
        b == has_char(glyphs@, pos as int, c),
        b ==> pos < usize::MAX,
{
    pos < glyphs.len() && glyphs[pos].c == c
}

/// Whether `glyphs` holds a glyph of `class` at `pos`.
pub fn at_class(glyphs: &Vec<Glyph>, pos: usize, class: CharClass) -> (b: bool)
    ensures
        b == has_class(glyphs@, pos as int, class),
        b ==> pos < usize::MAX,
{
    pos < glyphs.len() && belongs(class, glyphs[pos])
}

/// What is left of `input` from the character position `from` on.
pub fn rest_of<'a>(input: &'a str, from: usize) -> (rest: &'a str)
    requires
        from <= input@.len(),
    ensures
        rest@ == input@.subrange(from as int, input@.len() as int),
{
    let len = input.unicode_len();
    input.substring_char(from, len)
}

} // verus!

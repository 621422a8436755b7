//! Characters, and what the rules may take them for.
//!
//! A backslash escape and inline code both mean their characters as they are. Such characters
//! are carried along as what they are, and no later rule sees markup in them.
//!
//! Escapes matter where markup would open. Inside a construct that is open — code, the target
//! of a link, a tag — a backslash is content like any other character.

use crate::text;
use vstd::prelude::*;

verus! {

/// What a character is good for.
#[derive(Clone, Copy, PartialEq, Eq, Structural, Debug)]
pub enum Kind {
    /// It may be markup.
    Plain,
    /// An escape made it stand for itself.
    Escaped,
    /// It is inline code.
    Code,
    /// It is the backslash of an escape, and is not spoken.
    Escape,
}

/// A character with what it is good for.
#[derive(Clone, Copy, PartialEq, Eq, Structural, Debug)]
pub struct Glyph {
    pub c: char,
    pub kind: Kind,
}

/// The characters that a backslash can escape.
pub open spec fn is_escapable(c: char) -> bool {
    ||| c == '*'
    ||| c == '_'
    ||| c == '`'
    ||| c == '['
    ||| c == ']'
    ||| c == '#'
    ||| c == '~'
    ||| c == '\\'
    ||| c == '('
    ||| c == ')'
    ||| c == '<'
    ||| c == '>'
    ||| c == '|'
    ||| c == '!'
    ||| c == '.'
}

/// Position `k` is a backslash before a character that it can escape.
pub open spec fn is_escape(s: Seq<char>, k: int) -> bool {
    0 <= k && k + 1 < s.len() && s[k] == '\\' && is_escapable(s[k + 1])
}

/// What the character at `k` is good for.
pub open spec fn kind_at(s: Seq<char>, k: int) -> Kind {
    if is_escape(s, k) {
        Kind::Escape
    } else if is_escape(s, k - 1) {
        Kind::Escaped
    } else {
        Kind::Plain
    }
}

/// The character at `k`, with what it is good for.
pub open spec fn glyph_at(s: Seq<char>, k: int) -> Glyph {
    Glyph { c: s[k], kind: kind_at(s, k) }
}

/// The characters of a line, with their escapes found.
pub open spec fn marked(s: Seq<char>) -> Seq<Glyph> {
    Seq::new(s.len(), |k: int| glyph_at(s, k))
}

/// A character that may be markup.
pub open spec fn plain_glyph(c: char) -> Glyph {
    Glyph { c, kind: Kind::Plain }
}

/// The characters of `s`, any of which may be markup.
pub open spec fn plain(s: Seq<char>) -> Seq<Glyph> {
    Seq::new(s.len(), |k: int| plain_glyph(s[k]))
}

/// The same characters as inline code.
pub open spec fn as_code(g: Seq<Glyph>) -> Seq<Glyph> {
    Seq::new(g.len(), |k: int| Glyph { c: g[k].c, kind: Kind::Code })
}

/// All that is to be seen of a character that is no markup: whether it is whitespace, part of
/// a word, or neither.
pub open spec fn masked(c: char) -> char {
    if text::is_space(c) {
        c
    } else if text::is_word_char(c) {
        '0'
    } else {
        '%'
    }
}

/// What the rules see of a character where markup would open.
pub open spec fn seen_as(g: Glyph) -> char {
    match g.kind {
        Kind::Plain => g.c,
        Kind::Escaped => masked(g.c),
        Kind::Code => masked(g.c),
        Kind::Escape => '%',
    }
}

/// What the rules see of a character inside a construct that is open.
pub open spec fn inside_as(g: Glyph) -> char {
    match g.kind {
        Kind::Code => masked(g.c),
        _ => g.c,
    }
}

/// What the rules see of a text where markup would open.
pub open spec fn seen(g: Seq<Glyph>) -> Seq<char> {
    Seq::new(g.len(), |k: int| seen_as(g[k]))
}

/// What the rules see of a text inside a construct that is open.
pub open spec fn inside(g: Seq<Glyph>) -> Seq<char> {
    Seq::new(g.len(), |k: int| inside_as(g[k]))
}

/// The characters of a text, whatever they are good for.
pub open spec fn chars(g: Seq<Glyph>) -> Seq<char> {
    Seq::new(g.len(), |k: int| g[k].c)
}

/// What is spoken of a text: its characters, without the backslashes of its escapes.
pub open spec fn spelled(g: Seq<Glyph>) -> Seq<char>
    decreases g.len(),
{
    if g.len() == 0 {
        Seq::empty()
    } else if g.last().kind is Escape {
        spelled(g.drop_last())
    } else {
        spelled(g.drop_last()).push(g.last().c)
    }
}

fn escapable(c: char) -> (r: bool)
    ensures
        r == is_escapable(c),
{
    c == '*' || c == '_' || c == '`' || c == '[' || c == ']' || c == '#' || c == '~' || c == '\\'
        || c == '(' || c == ')' || c == '<' || c == '>' || c == '|' || c == '!' || c == '.'
}

fn escape(s: &[char], k: usize) -> (r: bool)
    requires
        k < s@.len(),
    ensures
        r == is_escape(s@, k as int),
{
    k < s.len() - 1 && s[k] == '\\' && escapable(s[k + 1])
}

/// Finds the escapes of a line.
pub fn mark_escapes(s: &[char]) -> (r: Vec<Glyph>)
    ensures
        r@ == marked(s@),
{
    let mut out: Vec<Glyph> = Vec::new();
    let mut i: usize = 0;
    while i < s.len()
        invariant
            i <= s@.len(),
            out@.len() == i,
            forall|k: int| 0 <= k < i ==> #[trigger] out@[k] == marked(s@)[k],
        decreases s@.len() - i,
    {
        let kind: Kind = if escape(s, i) {
            Kind::Escape
        } else if i > 0 && escape(s, i - 1) {
            Kind::Escaped
        } else {
            Kind::Plain
        };
        let glyph: Glyph = Glyph { c: s[i], kind };
        assert(glyph == glyph_at(s@, i as int));
        out.push(glyph);
        i += 1;
    }
    assert(out@ =~= marked(s@));
    out
}

/// The glyphs as inline code.
pub fn to_code(g: &[Glyph]) -> (r: Vec<Glyph>)
    ensures
        r@ == as_code(g@),
{
    let mut out: Vec<Glyph> = Vec::new();
    let mut i: usize = 0;
    while i < g.len()
        invariant
            i <= g@.len(),
            out@ == as_code(g@).take(i as int),
        decreases g@.len() - i,
    {
        out.push(Glyph { c: g[i].c, kind: Kind::Code });
        i += 1;
        assert(out@ =~= as_code(g@).take(i as int));
    }
    assert(out@ =~= as_code(g@));
    out
}

fn mask(c: char) -> (r: char)
    ensures
        r == masked(c),
{
    if text::is_whitespace(c) {
        c
    } else if text::word_char(c) {
        '0'
    } else {
        '%'
    }
}

fn look_at(g: Glyph) -> (r: char)
    ensures
        r == seen_as(g),
{
    match g.kind {
        Kind::Plain => g.c,
        Kind::Escaped => mask(g.c),
        Kind::Code => mask(g.c),
        Kind::Escape => '%',
    }
}

fn look_inside_at(g: Glyph) -> (r: char)
    ensures
        r == inside_as(g),
{
    match g.kind {
        Kind::Code => mask(g.c),
        _ => g.c,
    }
}

/// The text as the rules see it where markup would open.
pub fn look(g: &[Glyph]) -> (r: Vec<char>)
    ensures
        r@ == seen(g@),
{
    let mut out: Vec<char> = Vec::new();
    let mut i: usize = 0;
    while i < g.len()
        invariant
            i <= g@.len(),
            out@ == seen(g@).take(i as int),
        decreases g@.len() - i,
    {
        out.push(look_at(g[i]));
        i += 1;
        assert(out@ =~= seen(g@).take(i as int));
    }
    assert(out@ =~= seen(g@));
    out
}

/// The text as the rules see it inside a construct that is open.
pub fn look_inside(g: &[Glyph]) -> (r: Vec<char>)
    ensures
        r@ == inside(g@),
{
    let mut out: Vec<char> = Vec::new();
    let mut i: usize = 0;
    while i < g.len()
        invariant
            i <= g@.len(),
            out@ == inside(g@).take(i as int),
        decreases g@.len() - i,
    {
        out.push(look_inside_at(g[i]));
        i += 1;
        assert(out@ =~= inside(g@).take(i as int));
    }
    assert(out@ =~= inside(g@));
    out
}

/// `\*` -> `*`. A backslash escape meant the literal character all along, and the
/// backslash itself would otherwise be pronounced.
pub fn strip_escapes(g: &[Glyph]) -> (r: Vec<char>)
    ensures
        r@ == spelled(g@),
{
    let mut out: Vec<char> = Vec::new();
    let mut i: usize = 0;
    while i < g.len()
        invariant
            i <= g@.len(),
            out@ == spelled(g@.take(i as int)),
        decreases g@.len() - i,
    {
        assert(g@.take(i + 1).drop_last() =~= g@.take(i as int));
        match g[i].kind {
            Kind::Escape => {},
            _ => {
                out.push(g[i].c);
            },
        }
        i += 1;
    }
    assert(g@.take(i as int) =~= g@);
    out
}

} // verus!

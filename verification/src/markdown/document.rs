//! The whole document: fences, paragraphs, and what is left to speak.

use crate::markdown::block;
use crate::markdown::emphasis;
use crate::markdown::glyphs::{Glyph, Kind};
use crate::markdown::glyphs;
use crate::markdown::spans;
use crate::text;
use vstd::prelude::*;

verus! {

/// A line with the whitespace around it gone and every run inside it one space.
pub open spec fn collapsed(line: Seq<char>) -> Seq<char> {
    text::joined(text::words_of(line), seq![' '])
}

/// The first `n` lines, collapsed, without those that hold no word.
pub open spec fn spoken_lines(lines: Seq<Seq<char>>, n: int) -> Seq<Seq<char>>
    decreases n,
{
    if n <= 0 {
        Seq::empty()
    } else if collapsed(lines[n - 1]).len() == 0 {
        spoken_lines(lines, n - 1)
    } else {
        spoken_lines(lines, n - 1).push(collapsed(lines[n - 1]))
    }
}

/// The end of a line inside a paragraph.
pub open spec fn newline() -> Glyph {
    Glyph { c: '\n', kind: Kind::Plain }
}

/// The lines that a paragraph leaves: emphasis and escapes are resolved across its line
/// breaks.
pub open spec fn finished(para: Seq<Seq<Glyph>>) -> Seq<Seq<char>> {
    let lines = text::lines_of(
        glyphs::spelled(emphasis::unemphasized(text::joined(para, seq![newline()]))),
    );
    spoken_lines(lines, lines.len() as int)
}

/// A code fence that is open.
#[derive(Clone, Copy, PartialEq, Eq, Structural, Debug)]
pub struct Fence {
    /// The character that it is written with.
    pub marker: char,
    /// It stands behind block markers: in a quote or a list.
    pub nested: bool,
}

/// How far a document has been read.
pub struct Reading {
    /// The code fence that is open.
    pub fence: Option<Fence>,
    /// The lines of the current paragraph.
    pub para: Seq<Seq<Glyph>>,
    /// The lines of the paragraphs before it.
    pub out: Seq<Seq<char>>,
}

/// Nothing has been read.
pub open spec fn unread() -> Reading {
    Reading { fence: None, para: Seq::empty(), out: Seq::empty() }
}

/// The current paragraph has ended.
pub open spec fn paragraph_ended(d: Reading) -> Reading {
    if d.para.len() == 0 {
        d
    } else {
        Reading { fence: d.fence, para: Seq::empty(), out: d.out + finished(d.para) }
    }
}

/// What is left of a line to look at once its block markers are gone.
pub open spec fn bared(line: Seq<char>) -> Seq<char> {
    collapsed(block::unprefixed(line))
}

/// The fence that the line opens where none is open.
pub open spec fn opens_fence(line: Seq<char>) -> Option<Fence> {
    match block::fence_of(text::trimmed(line)) {
        Some(marker) => Some(Fence { marker, nested: false }),
        None => match block::bare_fence_of(bared(line)) {
            Some(marker) => Some(Fence { marker, nested: true }),
            None => None,
        },
    }
}

/// The line closes the fence: only the marker that opened a fence closes it, and behind block
/// markers it does so only if it opened behind some.
pub open spec fn closes_fence(line: Seq<char>, fence: Fence) -> bool {
    match block::fence_of(text::trimmed(line)) {
        Some(marker) => marker == fence.marker,
        None => fence.nested && block::bare_fence_of(bared(line)) == Some(fence.marker),
    }
}

/// Table rows, rules and link definitions: lines without prose.
pub open spec fn is_structure(trimmed: Seq<char>) -> bool {
    ||| trimmed.len() > 0 && trimmed[0] == '|'
    ||| block::is_rule_line(trimmed)
    ||| block::is_definition(trimmed)
}

/// The line is dropped for what it is, with or without the block markers before it.
pub open spec fn is_dropped(line: Seq<char>) -> bool {
    ||| text::trimmed(line).len() == 0
    ||| is_structure(text::trimmed(line))
    ||| is_structure(bared(line))
}

/// What one more line does. Anything dropped wholesale also ends the paragraph.
pub open spec fn read_line(d: Reading, line: Seq<char>) -> Reading {
    match d.fence {
        Some(fence) => if closes_fence(line, fence) {
            Reading { fence: None, ..d }
        } else {
            d
        },
        None => if opens_fence(line) is Some {
            Reading { fence: opens_fence(line), ..paragraph_ended(d) }
        } else if is_dropped(line) {
            paragraph_ended(d)
        } else {
            Reading { para: d.para.push(spans::inlined(block::unprefixed(line))), ..d }
        },
    }
}

/// What the given lines do, one after the other.
pub open spec fn read_lines(d: Reading, lines: Seq<Seq<char>>) -> Reading
    decreases lines.len(),
{
    if lines.len() == 0 {
        d
    } else {
        read_line(read_lines(d, lines.drop_last()), lines.last())
    }
}

/// The lines to speak of a document with the given lines.
pub open spec fn stripped_lines(lines: Seq<Seq<char>>) -> Seq<Seq<char>> {
    paragraph_ended(read_lines(unread(), lines)).out
}

/// The text to speak of a document.
pub open spec fn stripped(s: Seq<char>) -> Seq<char> {
    text::joined(stripped_lines(text::lines_of(s)), seq!['\n'])
}

fn collapse(line: &[char]) -> (r: Vec<char>)
    ensures
        r@ == collapsed(line@),
{
    let words: Vec<Vec<char>> = text::split_whitespace(line);
    text::join(&words, ' ')
}

fn structure(t: &[char]) -> (r: bool)
    ensures
        r == is_structure(t@),
{
    (t.len() > 0 && t[0] == '|') || block::is_rule(t) || block::is_link_definition(t)
}

/// Finish one paragraph: resolve emphasis and escapes across its lines, then hand back
/// the non-empty ones. Removing a marker leaves a hole (`text ![img](u) more`), so runs of
/// whitespace collapse to one space.
pub fn finish_paragraph(lines: &Vec<Vec<Glyph>>) -> (r: Vec<Vec<char>>)
    ensures
        text::views(r@) == finished(text::views(lines@)),
{
    let joined: Vec<Glyph> = text::join(lines, Glyph { c: '\n', kind: Kind::Plain });
    let joined: Vec<Glyph> = emphasis::strip_emphasis(joined.as_slice());
    let joined: Vec<char> = glyphs::strip_escapes(joined.as_slice());
    let parts: Vec<Vec<char>> = text::split_lines(joined.as_slice());
    let ghost all = text::views(parts@);
    let mut out: Vec<Vec<char>> = Vec::new();
    let mut i: usize = 0;
    assert(text::views(out@) =~= Seq::<Seq<char>>::empty());
    while i < parts.len()
        invariant
            i <= parts@.len(),
            all == text::views(parts@),
            text::views(out@) == spoken_lines(all, i as int),
        decreases parts@.len() - i,
    {
        let line: Vec<char> = collapse(parts[i].as_slice());
        if line.len() > 0 {
            let ghost before = text::views(out@);
            out.push(line);
            assert(text::views(out@) =~= before.push(collapsed(all[i as int])));
        }
        i += 1;
    }
    out
}

/// The state of a document, as the model has it.
spec fn reading(fence: Option<Fence>, para: Seq<Vec<Glyph>>, out: Seq<Vec<char>>) -> Reading {
    Reading { fence, para: text::views(para), out: text::views(out) }
}

fn end_paragraph(Ghost(fence): Ghost<Option<Fence>>, para: &mut Vec<Vec<Glyph>>, out: &mut Vec<Vec<char>>)
    ensures
        reading(fence, final(para)@, final(out)@) == paragraph_ended(
            reading(fence, old(para)@, old(out)@),
        ),
{
    if para.len() == 0 {
        return ;
    }
    let mut lines: Vec<Vec<char>> = finish_paragraph(para);
    let ghost added = lines@;
    out.append(&mut lines);
    para.clear();
    assert(text::views(out@) =~= text::views(old(out)@) + text::views(added));
    assert(text::views(para@) =~= Seq::<Seq<Glyph>>::empty());
}

/// Strip markdown syntax from `text`, preserving line structure.
///
/// Line breaks survive because a line is spoken as an utterance of its own — one list
/// item or heading per utterance is exactly the phrasing we want. Lines that become empty
/// are dropped. So are fences, table rows, rules and link definitions, also in a quote or a
/// list.
pub fn strip(text: &str) -> (r: String)
    ensures
        r@ == stripped(text@),
{
    let chars: Vec<char> = text::chars_of(text);
    let lines: Vec<Vec<char>> = text::split_lines(chars.as_slice());
    let ghost all = text::views(lines@);
    let mut out: Vec<Vec<char>> = Vec::new();
    let mut para: Vec<Vec<Glyph>> = Vec::new();
    let mut fence: Option<Fence> = None;
    let mut i: usize = 0;
    assert(text::views(out@) =~= Seq::<Seq<char>>::empty());
    assert(text::views(para@) =~= Seq::<Seq<Glyph>>::empty());
    while i < lines.len()
        invariant
            i <= lines@.len(),
            all == text::views(lines@),
            reading(fence, para@, out@) == read_lines(unread(), all.take(i as int)),
        decreases lines@.len() - i,
    {
        let ghost before = reading(fence, para@, out@);
        let line: &[char] = lines[i].as_slice();
        assert(all.take(i + 1).drop_last() =~= all.take(i as int));
        assert(all.take(i + 1).last() == line@);
        i += 1;
        let trimmed: &[char] = text::trim(line);
        let marker: Option<char> = block::fence_marker(trimmed);
        if let Some(open) = fence {
            let closes: bool = match marker {
                Some(c) => c == open.marker,
                None => open.nested && {
                    let bare: Vec<char> = collapse(block::strip_block_prefixes(line).as_slice());
                    match block::bare_fence_marker(bare.as_slice()) {
                        Some(c) => c == open.marker,
                        None => false,
                    }
                },
            };
            if closes {
                fence = None;
            }
            continue;
        }
        let body: Vec<char> = block::strip_block_prefixes(line);
        let bare: Vec<char> = collapse(body.as_slice());
        let opened: Option<Fence> = match marker {
            Some(c) => Some(Fence { marker: c, nested: false }),
            None => match block::bare_fence_marker(bare.as_slice()) {
                Some(c) => Some(Fence { marker: c, nested: true }),
                None => None,
            },
        };
        if opened.is_some() {
            end_paragraph(Ghost(fence), &mut para, &mut out);
            fence = opened;
            continue;
        }
        if trimmed.len() == 0 || structure(trimmed) || structure(bare.as_slice()) {
            end_paragraph(Ghost(fence), &mut para, &mut out);
            continue;
        }
        let prose: Vec<Glyph> = spans::strip_inline(body.as_slice());
        para.push(prose);
        assert(text::views(para@) =~= before.para.push(prose@));
    }
    assert(all.take(i as int) =~= all);
    end_paragraph(Ghost(fence), &mut para, &mut out);
    let joined: Vec<char> = text::join(&out, '\n');
    text::string_of(joined.as_slice())
}

} // verus!

//! Cutting a text into chunks that are synthesized one by one.

use crate::text;
use vstd::prelude::*;

verus! {

/// A run longer than this is wrapped.
pub const MAX_CHARS: usize = 300;

/// A fragment shorter than this is merged into the chunk before it.
pub const MIN_CHARS: usize = 16;

/// Sentence-final punctuation.
pub open spec fn is_stop(c: char) -> bool {
    c == '.' || c == '!' || c == '?' || c == ';'
}

/// A sentence ends with position `i`: punctuation before whitespace or the end.
pub open spec fn ends_sentence(s: Seq<char>, i: int) -> bool {
    is_stop(s[i]) && (i + 1 == s.len() || text::is_space(s[i + 1]))
}

/// The text is cut at position `i`.
pub open spec fn is_break(s: Seq<char>, i: int) -> bool {
    s[i] == '\n' || ends_sentence(s, i)
}

/// The first position from `i` on where the text is cut.
pub open spec fn next_break(s: Seq<char>, i: int) -> Option<int>
    decreases s.len() - i,
{
    if i < 0 || i >= s.len() {
        None
    } else if is_break(s, i) {
        Some(i)
    } else {
        next_break(s, i + 1)
    }
}

pub proof fn lemma_next_break(s: Seq<char>, i: int)
    requires
        0 <= i,
    ensures
        match next_break(s, i) {
            Some(k) => i <= k < s.len() && is_break(s, k) && forall|j: int|
                i <= j < k ==> !#[trigger] is_break(s, j),
            None => forall|j: int| i <= j < s.len() ==> !#[trigger] is_break(s, j),
        },
    decreases s.len() - i,
{
    if i < s.len() && !is_break(s, i) {
        lemma_next_break(s, i + 1);
    }
}

/// The piece without the whitespace around it, if anything is left.
pub open spec fn nonblank(piece: Seq<char>) -> Seq<Seq<char>> {
    if text::trimmed(piece).len() == 0 {
        Seq::empty()
    } else {
        seq![text::trimmed(piece)]
    }
}

/// The pieces of `s` from position `i` on: cut on newlines, and after sentence-final
/// punctuation that whitespace or the end follows.
pub open spec fn pieces_from(s: Seq<char>, i: int) -> Seq<Seq<char>>
    decreases s.len() - i,
{
    if i < 0 || i >= s.len() {
        Seq::empty()
    } else {
        match next_break(s, i) {
            None => nonblank(s.skip(i)),
            Some(k) => {
                proof {
                    lemma_next_break(s, i);
                }
                let end = if s[k] == '\n' {
                    k
                } else {
                    k + 1
                };
                nonblank(s.subrange(i, end)) + pieces_from(s, k + 1)
            },
        }
    }
}

/// The line that `word` makes with the words of `line` before it.
pub open spec fn with_word(line: Seq<char>, word: Seq<char>) -> Seq<char> {
    if line.len() == 0 {
        word
    } else {
        line.push(' ') + word
    }
}

/// Words packed greedily into lines of up to `max` characters, the first of which starts
/// with `line`. A line also ends after a comma once it is half full.
pub open spec fn packed(words: Seq<Seq<char>>, line: Seq<char>, max: nat) -> Seq<Seq<char>>
    decreases words.len(),
{
    if words.len() == 0 {
        if line.len() == 0 {
            Seq::empty()
        } else {
            seq![line]
        }
    } else {
        let word = words[0];
        let full = line.len() > 0 && line.len() + 1 + word.len() > max;
        let done = if full {
            seq![line]
        } else {
            Seq::empty()
        };
        let longer = if full {
            word
        } else {
            with_word(line, word)
        };
        if longer.len() > 0 && longer.last() == ',' && longer.len() >= max / 2 {
            done.push(longer) + packed(words.drop_first(), Seq::empty(), max)
        } else {
            done + packed(words.drop_first(), longer, max)
        }
    }
}

/// The lines that a long chunk is wrapped into.
pub open spec fn wrapped(s: Seq<char>, max: nat) -> Seq<Seq<char>> {
    packed(text::words_of(s), Seq::empty(), max)
}

/// The first `n` chunks, the long ones wrapped.
pub open spec fn fitted(chunks: Seq<Seq<char>>, n: int) -> Seq<Seq<char>>
    decreases n,
{
    if n <= 0 {
        Seq::empty()
    } else if chunks[n - 1].len() <= MAX_CHARS {
        fitted(chunks, n - 1).push(chunks[n - 1])
    } else {
        fitted(chunks, n - 1) + wrapped(chunks[n - 1], MAX_CHARS as nat)
    }
}

/// The given lines as one chunk.
pub open spec fn said(lines: Seq<Seq<char>>) -> Seq<char> {
    text::joined(lines, seq![' '])
}

/// The last place from `k` down, but not the first line, from which on the lines make a chunk
/// of their own.
pub open spec fn tail_from(lines: Seq<Seq<char>>, k: int) -> Option<int>
    decreases k,
{
    if k <= 0 {
        None
    } else if said(lines.skip(k)).len() >= MIN_CHARS {
        Some(k)
    } else {
        tail_from(lines, k - 1)
    }
}

/// Lines grouped into chunks, with one more line. A fragment joins the chunk before it. Where
/// the chunk would get over `MAX_CHARS + MIN_CHARS` characters, it opens a new one, and as many
/// of the fragments before it move along as the new chunk needs to be no fragment itself. It
/// stays where there are not enough of them.
pub open spec fn placed(groups: Seq<Seq<Seq<char>>>, line: Seq<char>) -> Seq<Seq<Seq<char>>> {
    if groups.len() == 0 || line.len() >= MIN_CHARS {
        groups.push(seq![line])
    } else {
        let before = groups.drop_last();
        let lines = groups.last().push(line);
        if said(lines).len() <= MAX_CHARS + MIN_CHARS {
            before.push(lines)
        } else {
            match tail_from(lines, lines.len() - 1) {
                Some(k) => before.push(lines.take(k)).push(lines.skip(k)),
                None => before.push(lines),
            }
        }
    }
}

/// The first `n` lines, grouped into chunks.
pub open spec fn grouped(lines: Seq<Seq<char>>, n: int) -> Seq<Seq<Seq<char>>>
    decreases n,
{
    if n <= 0 {
        Seq::empty()
    } else {
        placed(grouped(lines, n - 1), lines[n - 1])
    }
}

/// Every group as one chunk.
pub open spec fn all_said(groups: Seq<Seq<Seq<char>>>) -> Seq<Seq<char>> {
    Seq::new(groups.len(), |i: int| said(groups[i]))
}

/// The first `n` chunks, the tiny ones merged.
pub open spec fn merged(chunks: Seq<Seq<char>>, n: int) -> Seq<Seq<char>> {
    all_said(grouped(chunks, n))
}

/// The chunks of a text.
pub open spec fn sentences_of(s: Seq<char>) -> Seq<Seq<char>> {
    let pieces = pieces_from(s, 0);
    let lines = fitted(pieces, pieces.len() as int);
    merged(lines, lines.len() as int)
}

/// Appends the piece to `out`, trimmed, unless it is blank.
fn push_nonblank(out: &mut Vec<Vec<char>>, piece: &[char])
    ensures
        text::views(final(out)@) == text::views(old(out)@) + nonblank(piece@),
{
    let t: &[char] = text::trim(piece);
    if t.len() > 0 {
        out.push(vstd::slice::slice_to_vec(t));
    }
    assert(text::views(out@) =~= text::views(old(out)@) + nonblank(piece@));
}

fn split_pieces(chars: &[char]) -> (r: Vec<Vec<char>>)
    ensures
        text::views(r@) == pieces_from(chars@, 0),
{
    let mut out: Vec<Vec<char>> = Vec::new();
    let mut start: usize = 0;
    let mut i: usize = 0;
    assert(text::views(out@) + pieces_from(chars@, 0) =~= pieces_from(chars@, 0));
    while i < chars.len()
        invariant
            start <= i <= chars@.len(),
            next_break(chars@, start as int) == next_break(chars@, i as int),
            text::views(out@) + pieces_from(chars@, start as int) == pieces_from(chars@, 0),
        decreases chars@.len() - i,
    {
        let c: char = chars[i];
        let stop: bool = (c == '.' || c == '!' || c == '?' || c == ';') && (i + 1 == chars.len()
            || text::is_whitespace(chars[i + 1]));
        if c == '\n' || stop {
            let end: usize = if c == '\n' {
                i
            } else {
                i + 1
            };
            let ghost before = text::views(out@);
            push_nonblank(&mut out, vstd::slice::slice_subrange(chars, start, end));
            assert(text::views(out@) + pieces_from(chars@, i + 1) =~= before + (nonblank(
                chars@.subrange(start as int, end as int),
            ) + pieces_from(chars@, i + 1)));
            start = i + 1;
        }
        i += 1;
    }
    let ghost before = text::views(out@);
    assert(chars@.subrange(start as int, chars@.len() as int) =~= chars@.skip(start as int));
    push_nonblank(&mut out, vstd::slice::slice_subrange(chars, start, chars.len()));
    if start == chars.len() {
        assert(nonblank(chars@.skip(start as int)) =~= Seq::<Seq<char>>::empty());
        assert(before + pieces_from(chars@, start as int) =~= before);
        assert(text::views(out@) =~= before);
    }
    out
}

/// Greedily pack words up to `max` chars, breaking early right after a comma once past
/// the halfway point (a natural prosodic pause).
pub fn wrap_long(s: &[char], max: usize) -> (r: Vec<Vec<char>>)
    ensures
        text::views(r@) == wrapped(s@, max as nat),
{
    let words: Vec<Vec<char>> = text::split_whitespace(s);
    let ghost all = text::views(words@);
    let mut out: Vec<Vec<char>> = Vec::new();
    let mut line: Vec<char> = Vec::new();
    let mut k: usize = 0;
    assert(all.skip(0) =~= all);
    assert(line@ =~= Seq::<char>::empty());
    assert(text::views(out@) + packed(all, line@, max as nat) =~= packed(all, line@, max as nat));
    while k < words.len()
        invariant
            k <= words@.len(),
            all == text::views(words@),
            text::views(out@) + packed(all.skip(k as int), line@, max as nat) == packed(
                all,
                Seq::empty(),
                max as nat,
            ),
        decreases words@.len() - k,
    {
        let ghost before = text::views(out@);
        let ghost line0 = line@;
        let ghost rest = all.skip(k + 1);
        assert(all.skip(k as int).drop_first() =~= rest);
        assert(all.skip(k as int)[0] == words@[k as int]@);
        let word: &[char] = words[k].as_slice();
        let full: bool = line.len() > 0 && (word.len() >= max || line.len() > max - word.len() - 1);
        assert(full == (line0.len() > 0 && line0.len() + 1 + word@.len() > max));
        if full {
            out.push(line);
            line = Vec::new();
            assert(text::views(out@) =~= before.push(line0));
        }
        if line.len() > 0 {
            line.push(' ');
        }
        text::append_chars(&mut line, word);
        let ghost longer = if full {
            word@
        } else {
            with_word(line0, word@)
        };
        assert(line@ =~= longer);
        let ghost done = if full {
            seq![line0]
        } else {
            Seq::empty()
        };
        assert(text::views(out@) =~= before + done);
        if line.len() > 0 && line[line.len() - 1] == ',' && line.len() >= max / 2 {
            out.push(line);
            line = Vec::new();
            assert(line@ =~= Seq::<char>::empty());
            assert(text::views(out@) =~= before + done.push(longer));
            assert(text::views(out@) + packed(rest, line@, max as nat) =~= before + (done.push(
                longer,
            ) + packed(rest, line@, max as nat)));
        } else {
            assert(text::views(out@) + packed(rest, line@, max as nat) =~= before + (done + packed(
                rest,
                line@,
                max as nat,
            )));
        }
        k += 1;
    }
    let ghost before = text::views(out@);
    let ghost line0 = line@;
    if line.len() > 0 {
        out.push(line);
    }
    assert(text::views(out@) =~= before + packed(all.skip(k as int), line0, max as nat));
    out
}

fn fit(chunks: &Vec<Vec<char>>) -> (r: Vec<Vec<char>>)
    ensures
        text::views(r@) == fitted(text::views(chunks@), chunks@.len() as int),
{
    let ghost all = text::views(chunks@);
    let mut out: Vec<Vec<char>> = Vec::new();
    let mut i: usize = 0;
    assert(text::views(out@) =~= Seq::<Seq<char>>::empty());
    while i < chunks.len()
        invariant
            i <= chunks@.len(),
            all == text::views(chunks@),
            text::views(out@) == fitted(all, i as int),
        decreases chunks@.len() - i,
    {
        let ghost before = text::views(out@);
        if chunks[i].len() <= MAX_CHARS {
            out.push(vstd::slice::slice_to_vec(chunks[i].as_slice()));
            assert(text::views(out@) =~= before.push(all[i as int]));
        } else {
            let mut lines: Vec<Vec<char>> = wrap_long(chunks[i].as_slice(), MAX_CHARS);
            let ghost added = lines@;
            out.append(&mut lines);
            assert(text::views(out@) =~= before + text::views(added));
        }
        i += 1;
    }
    out
}

/// What is said first is no longer than all that is said.
pub proof fn lemma_said_front(lines: Seq<Seq<char>>, j: int)
    requires
        0 <= j <= lines.len(),
    ensures
        said(lines.take(j)).len() <= said(lines).len(),
    decreases lines.len(),
{
    if j == lines.len() {
        assert(lines.take(j) =~= lines);
    } else {
        lemma_said_front(lines.drop_last(), j);
        assert(lines.drop_last().take(j) =~= lines.take(j));
        if lines.len() == 1 {
            assert(lines.take(j) =~= Seq::<Seq<char>>::empty());
        }
    }
}

/// Whether the lines from `from` on make a chunk of at most `max` characters.
fn fits(lines: &Vec<Vec<char>>, from: usize, max: usize) -> (r: bool)
    requires
        from <= lines@.len(),
    ensures
        r == (said(text::views(lines@).skip(from as int)).len() <= max),
{
    let ghost rest = text::views(lines@).skip(from as int);
    let mut room: usize = max;
    let mut i: usize = from;
    assert(rest.take(0) =~= Seq::<Seq<char>>::empty());
    while i < lines.len()
        invariant
            from <= i <= lines@.len(),
            rest == text::views(lines@).skip(from as int),
            room + said(rest.take(i - from)).len() == max,
        decreases lines@.len() - i,
    {
        let ghost n = i - from;
        assert(rest.take(n + 1).drop_last() =~= rest.take(n));
        assert(rest.take(n + 1).last() == lines@[i as int]@);
        proof {
            lemma_said_front(rest, n + 1);
        }
        if i > from {
            if room == 0 {
                return false;
            }
            room -= 1;
        }
        if lines[i].len() > room {
            return false;
        }
        room -= lines[i].len();
        i += 1;
    }
    assert(rest.take(i - from) =~= rest);
    true
}

fn find_tail(lines: &Vec<Vec<char>>) -> (r: Option<usize>)
    requires
        lines@.len() > 0,
    ensures
        match r {
            Some(k) => tail_from(text::views(lines@), lines@.len() - 1) == Some(k as int) && k
                <= lines@.len(),
            None => tail_from(text::views(lines@), lines@.len() - 1) is None,
        },
{
    let mut k: usize = lines.len() - 1;
    while k > 0
        invariant
            k < lines@.len(),
            tail_from(text::views(lines@), k as int) == tail_from(
                text::views(lines@),
                lines@.len() - 1,
            ),
        decreases k,
    {
        if !fits(lines, k, MIN_CHARS - 1) {
            return Some(k);
        }
        k -= 1;
    }
    None
}

/// The groups, as the model has them.
spec fn group_views(groups: Seq<Vec<Vec<char>>>) -> Seq<Seq<Seq<char>>> {
    Seq::new(groups.len(), |i: int| text::views(groups[i]@))
}

fn place(groups: &mut Vec<Vec<Vec<char>>>, line: Vec<char>)
    ensures
        group_views(final(groups)@) == placed(group_views(old(groups)@), line@),
{
    let ghost all = group_views(groups@);
    let opens: bool = line.len() >= MIN_CHARS;
    let last: Option<Vec<Vec<char>>> = if opens {
        None
    } else {
        groups.pop()
    };
    match last {
        None => {
            let ghost l = line@;
            let mut lines: Vec<Vec<char>> = Vec::new();
            lines.push(line);
            assert(text::views(lines@) =~= seq![l]);
            groups.push(lines);
            assert(group_views(groups@) =~= all.push(seq![l]));
        },
        Some(group) => {
            let ghost l = line@;
            let mut lines: Vec<Vec<char>> = group;
            assert(text::views(lines@) =~= all.last());
            lines.push(line);
            let ghost longer = all.last().push(l);
            assert(text::views(lines@) =~= longer);
            assert(group_views(groups@) =~= all.drop_last());
            assert(longer.skip(0) =~= longer);
            if fits(&lines, 0, MAX_CHARS + MIN_CHARS) {
                groups.push(lines);
                assert(group_views(groups@) =~= all.drop_last().push(longer));
                return;
            }
            match find_tail(&lines) {
                Some(k) => {
                    let tail: Vec<Vec<char>> = lines.split_off(k);
                    assert(text::views(lines@) =~= longer.take(k as int));
                    assert(text::views(tail@) =~= longer.skip(k as int));
                    groups.push(lines);
                    groups.push(tail);
                    assert(group_views(groups@) =~= all.drop_last().push(
                        longer.take(k as int),
                    ).push(longer.skip(k as int)));
                },
                None => {
                    groups.push(lines);
                    assert(group_views(groups@) =~= all.drop_last().push(longer));
                },
            }
        },
    }
}

fn merge(chunks: &Vec<Vec<char>>) -> (r: Vec<Vec<char>>)
    ensures
        text::views(r@) == merged(text::views(chunks@), chunks@.len() as int),
{
    let ghost all = text::views(chunks@);
    let mut groups: Vec<Vec<Vec<char>>> = Vec::new();
    let mut i: usize = 0;
    assert(group_views(groups@) =~= Seq::<Seq<Seq<char>>>::empty());
    while i < chunks.len()
        invariant
            i <= chunks@.len(),
            all == text::views(chunks@),
            group_views(groups@) == grouped(all, i as int),
        decreases chunks@.len() - i,
    {
        place(&mut groups, vstd::slice::slice_to_vec(chunks[i].as_slice()));
        i += 1;
    }
    let ghost model = group_views(groups@);
    let mut out: Vec<Vec<char>> = Vec::new();
    let mut k: usize = 0;
    assert(text::views(out@) =~= all_said(model).take(0));
    while k < groups.len()
        invariant
            k <= groups@.len(),
            model == group_views(groups@),
            text::views(out@) == all_said(model).take(k as int),
        decreases groups@.len() - k,
    {
        let ghost before = text::views(out@);
        let chunk: Vec<char> = text::join(&groups[k], ' ');
        assert(chunk@ == said(model[k as int]));
        out.push(chunk);
        assert(text::views(out@) =~= before.push(said(model[k as int])));
        assert(text::views(out@) =~= all_said(model).take(k + 1));
        k += 1;
    }
    assert(all_said(model).take(k as int) =~= all_said(model));
    out
}

/// Split a text into sentence-sized chunks for streaming synthesis.
///
/// Each chunk is synthesized and queued independently, so the model works on the next
/// sentence while the current one is still playing, and no chunk grossly overruns the model's
/// phoneme budget: none is over `MAX_CHARS + MIN_CHARS` characters unless it holds a word of
/// more than `MAX_CHARS`.
///
/// Rules: break after sentence-final punctuation (`. ! ? ;`) when followed by
/// whitespace/end, and on newlines; hard-wrap any run longer than `MAX_CHARS` on word
/// (preferably comma) boundaries; and merge fragments shorter than `MIN_CHARS` into their
/// predecessor, so that no chunk but the first is a micro-utterance. Abbreviations and
/// decimals aren't special-cased — a stray split just adds a short pause.
pub fn split_sentences(text: &str) -> (r: Vec<String>)
    ensures
        text::texts(r@) == sentences_of(text@),
{
    let chars: Vec<char> = text::chars_of(text);
    let pieces: Vec<Vec<char>> = split_pieces(chars.as_slice());
    let lines: Vec<Vec<char>> = fit(&pieces);
    let chunks: Vec<Vec<char>> = merge(&lines);
    let ghost all = text::views(chunks@);
    let mut out: Vec<String> = Vec::new();
    let mut i: usize = 0;
    while i < chunks.len()
        invariant
            i <= chunks@.len(),
            all == text::views(chunks@),
            text::texts(out@) == all.take(i as int),
        decreases chunks@.len() - i,
    {
        let ghost before = text::texts(out@);
        out.push(text::string_of(chunks[i].as_slice()));
        assert(text::texts(out@) =~= before.push(all[i as int]));
        assert(all.take(i + 1) =~= all.take(i as int).push(all[i as int]));
        i += 1;
    }
    assert(all.take(i as int) =~= all);
    out
}

} // verus!

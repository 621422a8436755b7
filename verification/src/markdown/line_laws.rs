//! What is heard of a line, said by how it is written.

use crate::markdown::block;
use crate::markdown::block_laws;
use crate::markdown::document;
use crate::markdown::document_laws;
use crate::markdown::emphasis_laws;
use crate::markdown::glyph_laws;
use crate::markdown::glyphs;
use crate::markdown::spans_laws;
use crate::text;
use crate::text_lemmas;
use vstd::prelude::*;

verus! {

/// A line of prose: words with a space between them, no character in it that inline markup is
/// written with, and none before it that block markup is.
pub open spec fn is_prose(t: Seq<char>) -> bool {
    &&& document_laws::is_tidy(t)
    &&& forall|i: int|
        0 <= i < t.len() ==> #[trigger] t[i] != '*' && t[i] != '_' && t[i] != '~' && t[i] != '`'
            && t[i] != '[' && t[i] != '<' && t[i] != '\\'
    &&& t[0] != '>' && t[0] != '#' && t[0] != '-' && t[0] != '+' && t[0] != '|' && t[0] != '='
}

pub open spec fn are_prose(lines: Seq<Seq<char>>) -> bool {
    forall|i: int| 0 <= i < lines.len() ==> is_prose(#[trigger] lines[i])
}

/// `line` is prose `t` behind block markers.
spec fn says(line: Seq<char>, t: Seq<char>) -> bool {
    &&& document_laws::is_escaped(line)
    &&& glyph_laws::unescaped(block::unprefixed(line)) == t
    &&& document_laws::is_tidy(t)
}

proof fn lemma_prose_parts(t: Seq<char>)
    requires
        is_prose(t),
    ensures
        text_lemmas::is_line(t),
        emphasis_laws::has_no_marker(t),
        spans_laws::lacks(t, '`'),
        spans_laws::lacks(t, '['),
        spans_laws::lacks(t, '<'),
        spans_laws::lacks(t, '\\'),
        glyphs::seen(glyphs::marked(t)) == t,
        glyph_laws::unescaped(t) == t,
        document::collapsed(t) == t,
        block::unprefixed(t) == t,
{
    assert forall|i: int| 0 <= i < t.len() implies #[trigger] t[i] != '\n' by {}
    document_laws::lemma_no_backslash(t);
    glyph_laws::lemma_plain(t);
    lemma_tidy_is_collapsed(t);
    block_laws::law_other_lines_are_kept(Seq::empty(), t);
    assert(Seq::<char>::empty() + t =~= t);
}

/// A line that starts with no fence and nothing that is dropped, and whose block markers leave
/// prose.
proof fn lemma_says(line: Seq<char>, t: Seq<char>)
    requires
        is_prose(t),
        block::unprefixed(line) == t,
        text_lemmas::is_tight(line),
        text_lemmas::is_line(line),
        line[0] != '`' && line[0] != '~' && line[0] != '|' && line[0] != '[',
        exists|i: int|
            0 <= i < line.len() && #[trigger] line[i] != '-' && line[i] != '*' && line[i] != '_'
                && line[i] != '=' && line[i] != ' ',
    ensures
        says(line, t),
{
    lemma_prose_parts(t);
    let none = Seq::<char>::empty();
    text_lemmas::law_trimming_takes_only_whitespace(none, line, none);
    assert(none + line + none =~= line);
    assert(document::bared(line) == t);
    assert(t[0] != '`' && t[0] != '~');
    assert(!document::is_structure(line));
    assert(t[0] != '*' && t[0] != '_' && t[0] != '[');
    assert(!document::is_structure(t));
}

/// Words with single spaces between them are tidied up already.
proof fn lemma_tidy_is_collapsed(t: Seq<char>)
    requires
        document_laws::is_tidy(t),
    ensures
        document::collapsed(t) == t,
    decreases t.len(),
{
    text::lemma_word_len(t);
    let n = text::word_len(t) as int;
    let first = t.take(n);
    assert(!text::is_space(t[0]));
    assert(forall|i: int| 0 <= i < n ==> #[trigger] first[i] == t[i]);
    assert(text_lemmas::is_word(first));
    text_lemmas::lemma_words_of_word(first);
    if n == t.len() {
        assert(first =~= t);
        assert(text::joined(seq![t], seq![' ']) == t);
    } else {
        let rest = t.skip(n + 1);
        assert(text::is_space(t[n]));
        assert(rest[0] == t[n + 1]);
        assert(rest.last() == t.last());
        assert forall|i: int| 0 <= i < rest.len() && text::is_space(#[trigger] rest[i]) implies rest[i]
            == ' ' && i + 1 < rest.len() && !text::is_space(rest[i + 1]) by {
            assert(rest[i] == t[n + 1 + i]);
            assert(rest[i + 1] == t[n + 1 + i + 1]);
        }
        lemma_tidy_is_collapsed(rest);
        text_lemmas::lemma_words_split(first, ' ', rest);
        assert(first.push(' ') + rest =~= t);
        let words = text::words_of(t);
        assert(words =~= seq![first] + text::words_of(rest));
        assert(words.drop_first() =~= text::words_of(rest));
        text_lemmas::lemma_trimmed(rest);
        assert(text::words_of(rest).len() > 0) by {
            assert(!text::is_space(rest[0]));
        }
        text_lemmas::lemma_joined_front(words, seq![' ']);
        assert(first + seq![' '] + rest =~= t);
    }
}

/// Tidy lines are spoken as they are.
pub proof fn lemma_tidy_lines_are_spoken(lines: Seq<Seq<char>>, n: int)
    requires
        0 <= n <= lines.len(),
        forall|i: int| 0 <= i < lines.len() ==> document_laws::is_tidy(#[trigger] lines[i]),
    ensures
        document::spoken_lines(lines, n) == lines.take(n),
    decreases n,
{
    if n > 0 {
        lemma_tidy_lines_are_spoken(lines, n - 1);
        assert(document_laws::is_tidy(lines[n - 1]));
        lemma_tidy_is_collapsed(lines[n - 1]);
        assert(lines.take(n) =~= lines.take(n - 1).push(lines[n - 1]));
    } else {
        assert(lines.take(n) =~= Seq::<Seq<char>>::empty());
    }
}

/// Lines that say `ts` behind their block markers leave just that.
proof fn lemma_said_lines(lines: Seq<Seq<char>>, ts: Seq<Seq<char>>)
    requires
        lines.len() == ts.len(),
        forall|i: int| 0 <= i < lines.len() ==> says(#[trigger] lines[i], ts[i]),
    ensures
        document::stripped_lines(lines) == ts,
{
    assert forall|i: int| 0 <= i < lines.len() implies document_laws::is_escaped(
        #[trigger] lines[i],
    ) by {
        assert(says(lines[i], ts[i]));
    }
    document_laws::law_escaped_text_is_spoken_as_written(lines);
    assert forall|i: int| 0 <= i < ts.len() implies document_laws::is_tidy(#[trigger] ts[i]) by {
        assert(says(lines[i], ts[i]));
    }
    assert(document_laws::all_unescaped(lines) =~= ts) by {
        assert forall|i: int| 0 <= i < ts.len() implies #[trigger] document_laws::all_unescaped(
            lines,
        )[i] == ts[i] by {
            assert(says(lines[i], ts[i]));
        }
    }
    lemma_tidy_lines_are_spoken(ts, ts.len() as int);
    assert(ts.take(ts.len() as int) =~= ts);
}

/// A line of prose says itself.
proof fn lemma_prose_says(t: Seq<char>)
    requires
        is_prose(t),
    ensures
        says(t, t),
{
    lemma_prose_parts(t);
    assert(t[0] != '-' && t[0] != '*' && t[0] != '_' && t[0] != '=' && t[0] != ' ');
    lemma_says(t, t);
}

/// A line that says `t` does so among lines of prose.
proof fn lemma_said_among_prose(
    a: Seq<Seq<char>>,
    line: Seq<char>,
    t: Seq<char>,
    b: Seq<Seq<char>>,
)
    requires
        are_prose(a),
        are_prose(b),
        says(line, t),
    ensures
        document::stripped_lines(a + seq![line] + b) == a + seq![t] + b,
{
    let lines = a + seq![line] + b;
    let ts = a + seq![t] + b;
    assert forall|i: int| 0 <= i < lines.len() implies says(#[trigger] lines[i], ts[i]) by {
        if i < a.len() {
            assert(is_prose(a[i]));
            lemma_prose_says(a[i]);
        } else if i > a.len() {
            let k = i - a.len() - 1;
            assert(is_prose(b[k]));
            lemma_prose_says(b[k]);
            assert(lines[i] == b[k] && ts[i] == b[k]);
        }
    }
    lemma_said_lines(lines, ts);
}

/// Prose is spoken as it is, line by line.
pub proof fn law_prose_is_spoken_as_it_is(lines: Seq<Seq<char>>)
    requires
        are_prose(lines),
    ensures
        document::stripped_lines(lines) == lines,
{
    assert forall|i: int| 0 <= i < lines.len() implies says(#[trigger] lines[i], lines[i]) by {
        assert(is_prose(lines[i]));
        lemma_prose_says(lines[i]);
    }
    lemma_said_lines(lines, lines);
}

/// Among prose, a heading of any of the six levels is a sentence of its own: its text, with a
/// period behind it unless it ends in other punctuation.
pub proof fn law_headings_are_sentences(
    a: Seq<Seq<char>>,
    n: nat,
    t: Seq<char>,
    b: Seq<Seq<char>>,
)
    requires
        are_prose(a),
        are_prose(b),
        1 <= n <= 6,
        is_prose(t),
        t.last() != '#',
    ensures
        document::stripped_lines(a + seq![block_laws::hashes(n) + seq![' '] + t] + b) == a + seq![
            if t.last() == '.' || t.last() == '!' || t.last() == '?' || t.last() == ':' || t.last()
                == ';' || t.last() == ',' {
                t
            } else {
                t.push('.')
            },
        ] + b,
{
    let line = block_laws::hashes(n) + seq![' '] + t;
    let r = block::unprefixed(line);
    assert(t[0] != '*' && t[0] != '[');
    block_laws::law_headings_of_every_level_are_spoken(n, seq![' '], t);
    lemma_prose_parts(t);
    assert forall|i: int| 0 <= i < r.len() implies #[trigger] r[i] != '*' && r[i] != '_' && r[i]
        != '~' && r[i] != '`' && r[i] != '[' && r[i] != '<' && r[i] != '\\' by {
        if i < t.len() {
            assert(r[i] == t[i]);
        }
    }
    assert forall|i: int| 0 <= i < r.len() && text::is_space(#[trigger] r[i]) implies r[i] == ' '
        && i + 1 < r.len() && !text::is_space(r[i + 1]) by {
        if i < t.len() {
            assert(r[i] == t[i]);
            assert(r[i + 1] == t[i + 1]);
        }
    }
    assert(r[0] == t[0]);
    assert(is_prose(r));
    lemma_one_line(block_laws::hashes(n) + seq![' '], t);
    assert(line[0] == '#');
    lemma_says(line, r);
    lemma_said_among_prose(a, line, r, b);
}

/// A marker without line breaks before prose makes one line.
proof fn lemma_one_line(a: Seq<char>, t: Seq<char>)
    requires
        is_prose(t),
        a.len() > 0,
        !text::is_space(a[0]),
        text_lemmas::is_line(a),
    ensures
        text_lemmas::is_line(a + t),
        text_lemmas::is_tight(a + t),
        (a + t)[a.len() as int] == t[0],
        t[0] != '-' && t[0] != '*' && t[0] != '_' && t[0] != '=' && t[0] != ' ',
{
    let s = a + t;
    lemma_prose_parts(t);
    assert forall|i: int| 0 <= i < s.len() implies #[trigger] s[i] != '\n' by {
        if i < a.len() {
            assert(s[i] == a[i]);
        } else {
            assert(s[i] == t[i - a.len()]);
        }
    }
    assert(t[0] != '*' && t[0] != '_');
    assert(s.last() == t.last());
}

/// Among prose, a list item loses its bullet, however long that is, and its checkbox.
#[verifier::rlimit(40)]
pub proof fn law_list_items_are_spoken(
    a: Seq<Seq<char>>,
    m: char,
    n: nat,
    mark: char,
    t: Seq<char>,
    b: Seq<Seq<char>>,
)
    requires
        are_prose(a),
        are_prose(b),
        m == '-' || m == '*' || m == '+',
        n >= 1,
        mark == ' ' || mark == 'x' || mark == 'X',
        is_prose(t),
    ensures
        document::stripped_lines(a + seq![Seq::new(n, |i: int| m) + seq![' '] + t] + b) == a
            + seq![t] + b,
        document::stripped_lines(
            a + seq![Seq::new(n, |i: int| m) + seq![' ', '[', mark, ']', ' '] + t] + b,
        ) == a + seq![t] + b,
{
    let run = Seq::new(n, |i: int| m);
    let x = run + seq![' '];
    let y = run + seq![' ', '[', mark, ']', ' '];
    lemma_prose_parts(t);
    assert(t[0] != '[');
    assert(x[0] == m && y[0] == m);
    lemma_one_line(x, t);
    lemma_one_line(y, t);
    block_laws::law_bullet_runs_are_removed(m, n, seq![' '], t);
    block_laws::law_checkboxes_are_removed(m, n, seq![' '], mark, seq![' '], t);
    assert(run + seq![' '] + seq!['[', mark, ']'] + seq![' '] + t =~= y + t);
    lemma_says(x + t, t);
    lemma_says(y + t, t);
    lemma_said_among_prose(a, x + t, t, b);
    lemma_said_among_prose(a, y + t, t, b);
}

/// Among prose, a quote loses its marker.
pub proof fn law_quotes_are_spoken(a: Seq<Seq<char>>, t: Seq<char>, b: Seq<Seq<char>>)
    requires
        are_prose(a),
        are_prose(b),
        is_prose(t),
    ensures
        document::stripped_lines(a + seq![seq!['>', ' '] + t] + b) == a + seq![t] + b,
{
    lemma_prose_parts(t);
    let line = seq!['>', ' '] + t;
    lemma_one_line(seq!['>', ' '], t);
    assert(line =~= seq!['>'] + (seq![' '] + t));
    block_laws::law_quotes_are_unwrapped(seq![' '] + t);
    assert(t[0] != '*' && t[0] != '[');
    block_laws::law_other_lines_are_kept(seq![' '], t);
    lemma_says(line, t);
    lemma_said_among_prose(a, line, t, b);
}

// ---- lines that are dropped ----
/// No fence is open behind lines of prose.
pub proof fn lemma_prose_opens_no_fence(lines: Seq<Seq<char>>)
    requires
        are_prose(lines),
    ensures
        document::read_lines(document::unread(), lines).fence is None,
{
    assert forall|i: int| 0 <= i < lines.len() implies document::opens_fence(
        #[trigger] lines[i],
    ) is None by {
        assert(is_prose(lines[i]));
        lemma_prose_says(lines[i]);
    }
    document_laws::lemma_no_fence(lines);
}

/// A line whose first character is none that a block marker is written with opens no fence,
/// unless it starts with three backticks or tildes.
proof fn lemma_starts_no_fence(x: Seq<char>, t: Seq<char>)
    requires
        text_lemmas::is_blank(x),
        t.len() > 0,
        !text::is_space(t[0]),
        block::unprefixed(x + t) == t,
        t[0] != '`' && t[0] != '~',
    ensures
        document::opens_fence(x + t) is None,
        text::trimmed(x + t).len() > 0,
        text::trimmed(x + t)[0] == t[0],
        text::trimmed(x + t) == text::trimmed_end(t),
{
    text_lemmas::lemma_trimmed_start_of(x, t);
    text_lemmas::lemma_trimmed_end(t);
    let e = text::trimmed_end(t);
    if e.len() == 0 {
        assert(text::is_space(t.skip(0)[0]));
    }
    assert(e[0] == t[0]);
    document_laws::lemma_collapsed_front(t);
    assert(document::bared(x + t)[0] == t[0]);
}

/// A table row is dropped and ends the paragraph: a line whose first character, behind its
/// indentation, is `|`.
pub proof fn law_table_rows_are_dropped(
    a: Seq<Seq<char>>,
    x: Seq<char>,
    t: Seq<char>,
    b: Seq<Seq<char>>,
)
    requires
        document::read_lines(document::unread(), a).fence is None,
        text_lemmas::is_blank(x),
        t.len() > 0,
        t[0] == '|',
    ensures
        document::stripped_lines(a + seq![x + t] + b) == document::stripped_lines(a)
            + document::stripped_lines(b),
{
    block_laws::law_other_lines_are_kept(x, t);
    lemma_starts_no_fence(x, t);
    document_laws::law_structure_is_dropped(a, x + t, b);
}

/// A link definition is dropped and ends the paragraph: `[label]:` and whatever follows, unless
/// the label starts with `^`, which makes it a footnote.
pub proof fn law_link_definitions_are_dropped(
    a: Seq<Seq<char>>,
    x: Seq<char>,
    label: Seq<char>,
    rest: Seq<char>,
    b: Seq<Seq<char>>,
)
    requires
        document::read_lines(document::unread(), a).fence is None,
        text_lemmas::is_blank(x),
        label.len() > 0,
        label[0] != '^',
        forall|i: int| 0 <= i < label.len() ==> #[trigger] label[i] != ']',
    ensures
        document::stripped_lines(a + seq![x + (seq!['['] + label + seq![']', ':'] + rest)] + b)
            == document::stripped_lines(a) + document::stripped_lines(b),
{
    let t = seq!['['] + label + seq![']', ':'] + rest;
    let k = label.len() + 1int;
    assert(t[0] == '[' && t[1] == label[0]);
    assert(text::trimmed_start(t) == t);
    text::lemma_run_len_is(t, 0, '#', 0);
    assert(block::advanced(t) == t);
    text_lemmas::lemma_trimmed_start_of(x, t);
    assert(block::advanced(x + t) == t);
    assert(block::unprefixed(t) == t);
    assert(block::unprefixed(x + t) == t);
    lemma_starts_no_fence(x, t);
    let e = text::trimmed_end(t);
    text_lemmas::lemma_trimmed_end(t);
    assert(t[k] == ']' && t[k + 1] == ':');
    if e.len() <= k + 1 {
        assert(text::is_space(t.skip(e.len() as int)[k + 1 - e.len()]));
    }
    assert(forall|i: int| 0 <= i < e.len() ==> #[trigger] e[i] == t[i]);
    text::lemma_index_of(e, ']', 1);
    assert(e[k] == ']');
    let close = text::index_of(e, ']', 1)->0;
    if close < k {
        assert(t[close] == label[close - 1]);
    }
    assert(block::is_definition(e));
    document_laws::law_structure_is_dropped(a, x + t, b);
}

proof fn lemma_occurs_thrice(t: Seq<char>, m: char, i: int, j: int, k: int)
    requires
        0 <= i < j < k < t.len(),
        t[i] == m,
        t[j] == m,
        t[k] == m,
    ensures
        block::occurrences(t, m) >= 3,
{
    lemma_occurs_up_to(t, m, k + 1);
    lemma_occurs_up_to(t.take(k), m, j + 1);
    lemma_occurs_up_to(t.take(k).take(j), m, i + 1);
    assert(t.take(k + 1).drop_last() =~= t.take(k));
    assert(t.take(k).take(j + 1).drop_last() =~= t.take(k).take(j));
    assert(t.take(k).take(j).take(i + 1).last() == m);
}

proof fn lemma_occurs_up_to(t: Seq<char>, m: char, n: int)
    requires
        0 <= n <= t.len(),
    ensures
        block::occurrences(t.take(n), m) <= block::occurrences(t, m),
    decreases t.len() - n,
{
    if n == t.len() {
        assert(t.take(n) =~= t);
    } else {
        lemma_occurs_up_to(t, m, n + 1);
        assert(t.take(n + 1).drop_last() =~= t.take(n));
    }
}

/// A rule is dropped and ends the paragraph: three or more of `-`, `*`, `_` or `=`, with spaces
/// or without, and nothing else.
pub proof fn law_rules_are_dropped(
    a: Seq<Seq<char>>,
    line: Seq<char>,
    m: char,
    i: int,
    j: int,
    k: int,
    b: Seq<Seq<char>>,
)
    requires
        document::read_lines(document::unread(), a).fence is None,
        m == '-' || m == '*' || m == '_' || m == '=',
        0 <= i < j < k < line.len(),
        line[i] == m,
        line[j] == m,
        line[k] == m,
        forall|p: int| 0 <= p < line.len() ==> #[trigger] line[p] == m || line[p] == ' ',
    ensures
        document::stripped_lines(a + seq![line] + b) == document::stripped_lines(a)
            + document::stripped_lines(b),
{
    lemma_rule_is_structure(line, m, i, j, k);
    lemma_rule_opens_no_fence(line, m, i);
    document_laws::law_structure_is_dropped(a, line, b);
}

proof fn lemma_rule_is_structure(line: Seq<char>, m: char, i: int, j: int, k: int)
    requires
        m == '-' || m == '*' || m == '_' || m == '=',
        0 <= i < j < k < line.len(),
        line[i] == m,
        line[j] == m,
        line[k] == m,
        forall|p: int| 0 <= p < line.len() ==> #[trigger] line[p] == m || line[p] == ' ',
    ensures
        document::is_structure(text::trimmed(line)),
{
    let s = text::trimmed_start(line);
    let t = text::trimmed(line);
    let d = line.len() - s.len();
    text_lemmas::lemma_trimmed_start(line);
    text_lemmas::lemma_trimmed_end(s);
    assert(forall|p: int| 0 <= p < s.len() ==> #[trigger] s[p] == line[d + p]);
    assert(forall|p: int| 0 <= p < t.len() ==> #[trigger] t[p] == s[p]);
    if i < d {
        assert(text::is_space(line.take(d)[i]));
    }
    if k - d >= t.len() {
        assert(text::is_space(s.skip(t.len() as int)[k - d - t.len()]));
    }
    assert(t[i - d] == m && t[j - d] == m && t[k - d] == m);
    lemma_occurs_thrice(t, m, i - d, j - d, k - d);
    assert(block::is_rule_of(t, m));
}

proof fn lemma_rule_opens_no_fence(line: Seq<char>, m: char, i: int)
    requires
        m == '-' || m == '*' || m == '_' || m == '=',
        0 <= i < line.len(),
        line[i] == m,
        forall|p: int| 0 <= p < line.len() ==> #[trigger] line[p] == m || line[p] == ' ',
    ensures
        document::opens_fence(line) is None,
{
    let s = text::trimmed_start(line);
    let t = text::trimmed(line);
    text_lemmas::lemma_trimmed_start(line);
    text_lemmas::lemma_trimmed_end(s);
    text_lemmas::lemma_trimmed(line);
    assert(!text::is_space(line[i]));
    assert(t[0] == s[0]);
    assert(s[0] == line[line.len() - s.len()]);
    assert(block::fence_of(t) is None);
    let r = block::unprefixed(line);
    block_laws::law_block_rules_only_remove(line);
    lemma_no_fence_character(r, line, '`');
    lemma_no_fence_character(r, line, '~');
    let bad = |c: char| c == '`' || c == '~';
    assert forall|p: int| 0 <= p < r.len() implies !bad(#[trigger] r[p]) by {}
    document_laws::lemma_collapsed_lacks(r, bad);
    let o = document::bared(line);
    if o.len() > 0 {
        assert(!bad(o[0]));
    }
}

proof fn lemma_no_fence_character(r: Seq<char>, line: Seq<char>, c: char)
    requires
        c != '.',
        text_lemmas::is_subsequence(r, line) || (r.len() > 0 && r.last() == '.'
            && text_lemmas::is_subsequence(r.drop_last(), line)),
        forall|p: int| 0 <= p < line.len() ==> #[trigger] line[p] != c,
    ensures
        forall|p: int| 0 <= p < r.len() ==> #[trigger] r[p] != c,
{
    if text_lemmas::is_subsequence(r, line) {
        text_lemmas::lemma_subsequence_lacks(r, line, c);
    } else {
        text_lemmas::lemma_subsequence_lacks(r.drop_last(), line, c);
        assert forall|p: int| 0 <= p < r.len() implies #[trigger] r[p] != c by {
            if p < r.len() - 1 {
                assert(r[p] == r.drop_last()[p]);
            }
        }
    }
}

/// Whatever is neither a table row nor bracketed is no structure if it holds a character other
/// than those of a rule, or two kinds of them, or fewer than three in all.
pub proof fn law_prose_is_no_structure(t: Seq<char>, p: int, q: int)
    requires
        t.len() > 0,
        t[0] != '|' && t[0] != '[',
        0 <= p < t.len(),
        0 <= q < t.len(),
        ({
            ||| t[p] != '-' && t[p] != '*' && t[p] != '_' && t[p] != '=' && t[p] != ' '
            ||| t[p] != ' ' && t[q] != ' ' && t[p] != t[q]
            ||| t.len() < 3
        }),
    ensures
        !document::is_structure(t),
{
    assert forall|m: char| !block::is_rule_of(t, m) || (m != '-' && m != '*' && m != '_' && m
        != '=') by {
        lemma_occurrences_len(t, m);
        assert(block::is_rule_of(t, m) ==> t[p] == m || t[p] == ' ');
        assert(block::is_rule_of(t, m) ==> t[q] == m || t[q] == ' ');
    }
}

proof fn lemma_occurrences_len(t: Seq<char>, m: char)
    ensures
        block::occurrences(t, m) <= t.len(),
    decreases t.len(),
{
    if t.len() > 0 {
        lemma_occurrences_len(t.drop_last(), m);
    }
}

// ---- fences ----
proof fn lemma_fence_line(x: Seq<char>, m: char, info: Seq<char>)
    requires
        text_lemmas::is_blank(x),
        m == '`' || m == '~',
    ensures
        block::fence_of(text::trimmed(x + seq![m, m, m] + info)) == Some(m),
        document::opens_fence(x + seq![m, m, m] + info) == Some(
            (document::Fence { marker: m, nested: false }),
        ),
{
    let t = seq![m, m, m] + info;
    assert(x + seq![m, m, m] + info =~= x + t);
    assert(t[0] == m && t[1] == m && t[2] == m);
    text_lemmas::lemma_trimmed_start_of(x, t);
    let e = text::trimmed_end(t);
    text_lemmas::lemma_trimmed_end(t);
    if e.len() <= 2 {
        assert(text::is_space(t.skip(e.len() as int)[2 - e.len()]));
    }
    assert(e[0] == m && e[1] == m && e[2] == m);
}

/// Code between two fences of three backticks, or of three tildes, is dropped with them,
/// whatever else stands on their lines; what stands before and behind is read on its own. A
/// line that does not start with three of the same marker ends no fence.
pub proof fn law_three_markers_fence_code(
    a: Seq<Seq<char>>,
    m: char,
    x: Seq<char>,
    info: Seq<char>,
    code: Seq<Seq<char>>,
    y: Seq<char>,
    rest: Seq<char>,
    b: Seq<Seq<char>>,
)
    requires
        document::read_lines(document::unread(), a).fence is None,
        m == '`' || m == '~',
        text_lemmas::is_blank(x),
        text_lemmas::is_blank(y),
        forall|i: int|
            0 <= i < code.len() ==> {
                let t = text::trimmed(#[trigger] code[i]);
                t.len() < 3 || t[0] != m || t[1] != m || t[2] != m
            },
    ensures
        document::stripped_lines(
            a + seq![x + seq![m, m, m] + info] + code + seq![y + seq![m, m, m] + rest] + b,
        ) == document::stripped_lines(a) + document::stripped_lines(b),
        document::stripped_lines(a + seq![x + seq![m, m, m] + info] + code)
            == document::stripped_lines(a),
{
    lemma_fence_line(x, m, info);
    lemma_fence_line(y, m, rest);
    let fence = document::Fence { marker: m, nested: false };
    assert forall|i: int| 0 <= i < code.len() implies !document::closes_fence(
        #[trigger] code[i],
        fence,
    ) by {
        let t = text::trimmed(code[i]);
        assert(t.len() < 3 || t[0] != m || t[1] != m || t[2] != m);
    }
    document_laws::law_fenced_code_is_dropped(
        a,
        x + seq![m, m, m] + info,
        code,
        y + seq![m, m, m] + rest,
        b,
    );
    document_laws::law_unclosed_fence_runs_to_the_end(a, x + seq![m, m, m] + info, code);
}

/// One or two backticks or tildes fence nothing: a line that starts with them, and with no block
/// marker, is no fence.
pub proof fn law_fewer_markers_fence_nothing(x: Seq<char>, t: Seq<char>)
    requires
        text_lemmas::is_blank(x),
        t.len() > 0,
        !text::is_space(t[0]),
        t[0] != '>' && t[0] != '#' && t[0] != '-' && t[0] != '*' && t[0] != '+' && t[0] != '[',
        t.len() < 3 || t[1] != t[0] || t[2] != t[0] || (t[0] != '`' && t[0] != '~'),
    ensures
        document::opens_fence(x + t) is None,
{
    block_laws::law_other_lines_are_kept(x, t);
    text_lemmas::lemma_trimmed_start_of(x, t);
    text_lemmas::lemma_trimmed_end(t);
    let e = text::trimmed_end(t);
    assert(forall|i: int| 0 <= i < e.len() ==> #[trigger] e[i] == t[i]);
    document_laws::lemma_collapsed_front(t);
    let o = document::collapsed(t);
    let n = text::word_len(t) as int;
    assert(o[0] == t[0]);
    if o.len() >= 3 && o[1] == t[0] && o[2] == t[0] {
        assert(n >= 3) by {
            if n <= 2 {
                assert(o[n] == ' ');
            }
        }
        assert(o[1] == t[1] && o[2] == t[2]);
    }
    if e.len() >= 3 {
        assert(e[0] == t[0] && e[1] == t[1] && e[2] == t[2]);
    }
}

/// What stands behind a quote marker is what is left of the line.
proof fn lemma_quoted(t: Seq<char>)
    requires
        t.len() > 0,
        !text::is_space(t[0]),
        t[0] != '>' && t[0] != '#' && t[0] != '-' && t[0] != '*' && t[0] != '+' && t[0] != '[',
    ensures
        block::unprefixed(seq!['>', ' '] + t) == t,
        block::fence_of(text::trimmed(seq!['>', ' '] + t)) is None,
{
    let line = seq!['>', ' '] + t;
    assert(line =~= seq!['>'] + (seq![' '] + t));
    block_laws::law_quotes_are_unwrapped(seq![' '] + t);
    block_laws::law_other_lines_are_kept(seq![' '], t);
    text_lemmas::lemma_trimmed_end(line);
    assert(text::trimmed_start(line) == line);
    let e = text::trimmed(line);
    if e.len() > 0 {
        assert(e[0] == '>');
    }
}

/// Code between fences in a quote is dropped with them, and the prose around it is kept.
pub proof fn law_quoted_code_is_dropped(
    a: Seq<Seq<char>>,
    m: char,
    info: Seq<char>,
    code: Seq<Seq<char>>,
    b: Seq<Seq<char>>,
)
    requires
        are_prose(a),
        are_prose(b),
        m == '`' || m == '~',
        document_laws::is_tidy(seq![m, m, m] + info),
        m == '`' ==> forall|i: int| 0 <= i < info.len() ==> #[trigger] info[i] != '`',
        are_prose(code),
    ensures
        document::stripped_lines(
            a + seq![seq!['>', ' ', m, m, m] + info] + Seq::new(
                code.len(),
                |i: int| seq!['>', ' '] + code[i],
            ) + seq![seq!['>', ' ', m, m, m]] + b,
        ) == a + b,
{
    let fence = document::Fence { marker: m, nested: true };
    let head = seq![m, m, m] + info;
    let open = seq!['>', ' ', m, m, m] + info;
    let close = seq!['>', ' ', m, m, m];
    let quoted = Seq::new(code.len(), |i: int| seq!['>', ' '] + code[i]);
    assert(open =~= seq!['>', ' '] + head);
    assert(close =~= seq!['>', ' '] + seq![m, m, m]);
    assert(head[0] == m && head[1] == m && head[2] == m);
    assert forall|i: int| m == '`' && 3 <= i < head.len() implies #[trigger] head[i] != '`' by {
        assert(head[i] == info[i - 3]);
    }
    lemma_quoted(head);
    lemma_quoted(seq![m, m, m]);
    lemma_tidy_is_collapsed(head);
    assert(document_laws::is_tidy(seq![m, m, m]));
    lemma_tidy_is_collapsed(seq![m, m, m]);
    if m == '`' {
        text::lemma_run_len_is(head, 0, m, 3);
    }
    text::lemma_run_len_is(seq![m, m, m], 0, m, 3);
    text::lemma_index_of(head, '`', 3);
    text::lemma_index_of(seq![m, m, m], '`', 3);
    assert(block::bare_fence_of(head) == Some(m));
    assert(block::bare_fence_of(seq![m, m, m]) == Some(m));
    assert(document::opens_fence(open) == Some(fence));
    assert(document::closes_fence(close, fence));
    assert forall|i: int| 0 <= i < quoted.len() implies !document::closes_fence(
        #[trigger] quoted[i],
        fence,
    ) by {
        let c = code[i];
        assert(is_prose(c));
        lemma_prose_parts(c);
        assert(c[0] != '*' && c[0] != '[' && c[0] != '`' && c[0] != '~');
        lemma_quoted(c);
    }
    lemma_prose_opens_no_fence(a);
    law_prose_is_spoken_as_it_is(a);
    law_prose_is_spoken_as_it_is(b);
    document_laws::law_fenced_code_is_dropped(a, open, quoted, close, b);
}

/// What stands behind a bullet is what is left of the line.
proof fn lemma_listed(p: char, t: Seq<char>)
    requires
        p == '-' || p == '*' || p == '+',
        t.len() > 0,
        !text::is_space(t[0]),
        t[0] != '>' && t[0] != '#' && t[0] != '-' && t[0] != '*' && t[0] != '+' && t[0] != '[',
    ensures
        block::unprefixed(seq![p, ' '] + t) == t,
        block::fence_of(text::trimmed(seq![p, ' '] + t)) is None,
{
    let line = seq![p, ' '] + t;
    let none = Seq::<char>::empty();
    assert(line =~= Seq::new(1, |i: int| p) + seq![' '] + t);
    block_laws::law_bullet_runs_are_removed(p, 1, seq![' '], t);
    block_laws::law_other_lines_are_kept(none, t);
    assert(none + t =~= t);
    text_lemmas::lemma_trimmed_end(line);
    assert(text::trimmed_start(line) == line);
    let e = text::trimmed(line);
    if e.len() > 0 {
        assert(e[0] == p);
    }
}

/// Three or more backticks in a quote or a list open a fence, unless a backtick stands behind
/// them on the same line: that is inline code. Three tildes open one whatever stands behind them.
pub proof fn law_closed_backticks_are_no_fence(
    p: char,
    n: nat,
    info: Seq<char>,
    code: Seq<char>,
    rest: Seq<char>,
)
    requires
        p == '>' || p == '-' || p == '*' || p == '+',
        n >= 3,
        forall|i: int| 0 <= i < info.len() ==> #[trigger] info[i] != '`',
        code.len() > 0,
        code[0] != '`',
        document_laws::is_tidy(spans_laws::ticks(n) + info),
        document_laws::is_tidy(spans_laws::ticks(n) + code + seq!['`'] + rest),
        document_laws::is_tidy(seq!['~', '~', '~'] + rest),
    ensures
        document::opens_fence(seq![p, ' '] + (spans_laws::ticks(n) + info)) == Some(
            (document::Fence { marker: '`', nested: true }),
        ),
        document::opens_fence(seq![p, ' '] + (spans_laws::ticks(n) + code + seq!['`'] + rest))
            is None,
        document::opens_fence(seq![p, ' '] + (seq!['~', '~', '~'] + rest)) == Some(
            (document::Fence { marker: '~', nested: true }),
        ),
{
    let run = spans_laws::ticks(n);
    let open = run + info;
    let closed = run + code + seq!['`'] + rest;
    let waves = seq!['~', '~', '~'] + rest;
    let k = n + code.len() as int;
    assert(open[0] == '`' && open[1] == '`' && open[2] == '`');
    assert(closed[0] == '`' && closed[1] == '`' && closed[2] == '`');
    assert(waves[0] == '~' && waves[1] == '~' && waves[2] == '~');
    if p == '>' {
        lemma_quoted(open);
        lemma_quoted(closed);
        lemma_quoted(waves);
    } else {
        lemma_listed(p, open);
        lemma_listed(p, closed);
        lemma_listed(p, waves);
    }
    lemma_tidy_is_collapsed(open);
    lemma_tidy_is_collapsed(closed);
    lemma_tidy_is_collapsed(waves);
    assert forall|i: int| n <= i < open.len() implies #[trigger] open[i] != '`' by {
        assert(open[i] == info[i - n]);
    }
    assert(closed[n as int] == code[0]);
    assert(closed[k] == '`');
    text::lemma_run_len_is(open, 0, '`', n);
    text::lemma_run_len_is(closed, 0, '`', n);
    text::lemma_index_of(open, '`', n as int);
    text::lemma_index_of(closed, '`', n as int);
}

/// Brackets at the start of a line with no colon right behind them define nothing, nor do those
/// that start with `^`.
pub proof fn law_other_brackets_define_nothing(label: Seq<char>, rest: Seq<char>)
    requires
        forall|i: int| 0 <= i < label.len() ==> #[trigger] label[i] != ']',
        rest.len() > 0 ==> rest[0] != ':' || (label.len() > 0 && label[0] == '^'),
    ensures
        !document::is_structure(seq!['['] + label + seq![']'] + rest),
{
    let t = seq!['['] + label + seq![']'] + rest;
    let k = label.len() + 1int;
    assert(t[0] == '[' && t[k] == ']');
    if label.len() > 0 {
        assert(t[1] == label[0]);
    }
    text::lemma_index_of(t, ']', 1);
    let close = text::index_of(t, ']', 1)->0;
    assert(close == k) by {
        if close < k {
            assert(t[close] == label[close - 1]);
        }
    }
    if rest.len() > 0 {
        assert(t[k + 1] == rest[0]);
    }
    assert forall|m: char| !block::is_rule_of(t, m) || m == '[' by {
        assert(block::is_rule_of(t, m) ==> t[0] == m || t[0] == ' ');
    }
}

} // verus!

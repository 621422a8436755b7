//! What stripping promises of every document.

use crate::markdown::block;
use crate::markdown::block_laws;
use crate::markdown::document;
use crate::markdown::emphasis;
use crate::markdown::emphasis_laws;
use crate::markdown::glyph_laws;
use crate::markdown::glyphs::Glyph;
use crate::markdown::glyphs;
use crate::markdown::spans;
use crate::markdown::spans_laws;
use crate::text;
use crate::text_lemmas;
use vstd::prelude::*;

verus! {

// ---- reading line by line ----
proof fn lemma_read_concat(
    d: document::Reading,
    a: Seq<Seq<char>>,
    b: Seq<Seq<char>>,
)
    ensures
        document::read_lines(d, a + b) == document::read_lines(document::read_lines(d, a), b),
    decreases b.len(),
{
    if b.len() == 0 {
        assert(a + b =~= a);
    } else {
        lemma_read_concat(d, a, b.drop_last());
        assert((a + b).drop_last() =~= a + b.drop_last());
        assert((a + b).last() == b.last());
    }
}

/// The lines that were finished before stay in front, and nothing else depends on them.
proof fn lemma_read_out(d: document::Reading, out: Seq<Seq<char>>, lines: Seq<Seq<char>>)
    requires
        d.out.len() == 0,
    ensures
        document::read_lines((document::Reading { out: out, ..d }), lines) == (document::Reading {
            out: out + document::read_lines(d, lines).out,
            ..document::read_lines(d, lines)
        }),
    decreases lines.len(),
{
    let e = document::Reading { out: out, ..d };
    if lines.len() == 0 {
        assert(out + d.out =~= out);
    } else {
        lemma_read_out(d, out, lines.drop_last());
        let p = document::read_lines(d, lines.drop_last());
        let q = document::read_lines(e, lines.drop_last());
        assert(q.out + document::finished(q.para) =~= out + (p.out + document::finished(p.para)));
    }
}

/// Between two paragraphs nothing is shared: the lines before and after a place where the
/// paragraph ends and no fence is open are stripped on their own.
proof fn lemma_paragraphs(a: Seq<Seq<char>>, line: Seq<char>, b: Seq<Seq<char>>)
    requires
        document::read_lines(document::unread(), a).fence is None,
        document::opens_fence(line) is None,
        document::is_dropped(line),
    ensures
        document::stripped_lines(a + seq![line] + b) == document::stripped_lines(a)
            + document::stripped_lines(b),
{
    let d = document::read_lines(document::unread(), a);
    lemma_read_concat(document::unread(), a + seq![line], b);
    assert((a + seq![line]).drop_last() =~= a);
    let e = document::read_lines(document::unread(), a + seq![line]);
    assert(e == document::paragraph_ended(d));
    assert(e.para =~= Seq::<Seq<Glyph>>::empty());
    assert(e == (document::Reading { out: e.out, ..document::unread() }));
    lemma_read_out(document::unread(), e.out, b);
    let f = document::read_lines(document::unread(), b);
    assert(e.out + (f.out + document::finished(f.para)) =~= (e.out + f.out) + document::finished(
        f.para,
    ));
}

/// A blank line ends a paragraph: no emphasis spans it, and what stands on one side of it
/// does not change how the other side is read.
pub proof fn law_blank_lines_part_paragraphs(
    a: Seq<Seq<char>>,
    blank: Seq<char>,
    b: Seq<Seq<char>>,
)
    requires
        document::read_lines(document::unread(), a).fence is None,
        text_lemmas::is_blank(blank),
    ensures
        document::stripped_lines(a + seq![blank] + b) == document::stripped_lines(a)
            + document::stripped_lines(b),
{
    text_lemmas::lemma_trimmed(blank);
    lemma_blank_line(blank);
    lemma_paragraphs(a, blank, b);
}

/// Table rows, rules and link definitions are dropped, in a quote or a list too, and end the
/// paragraph.
pub proof fn law_structure_is_dropped(a: Seq<Seq<char>>, line: Seq<char>, b: Seq<Seq<char>>)
    requires
        document::read_lines(document::unread(), a).fence is None,
        document::opens_fence(line) is None,
        document::is_structure(text::trimmed(line)) || document::is_structure(
            document::bared(line),
        ),
    ensures
        document::stripped_lines(a + seq![line] + b) == document::stripped_lines(a)
            + document::stripped_lines(b),
{
    lemma_paragraphs(a, line, b);
}

proof fn lemma_inside_fence(d: document::Reading, fence: document::Fence, code: Seq<Seq<char>>)
    requires
        d.fence == Some(fence),
        forall|i: int| 0 <= i < code.len() ==> !document::closes_fence(#[trigger] code[i], fence),
    ensures
        document::read_lines(d, code) == d,
    decreases code.len(),
{
    if code.len() > 0 {
        let front = code.drop_last();
        assert forall|i: int| 0 <= i < front.len() implies !document::closes_fence(
            #[trigger] front[i],
            fence,
        ) by {
            assert(front[i] == code[i]);
        }
        lemma_inside_fence(d, fence, front);
        assert(!document::closes_fence(code[code.len() - 1], fence));
    }
}

proof fn lemma_fence_opened(a: Seq<Seq<char>>, open: Seq<char>)
    requires
        document::read_lines(document::unread(), a).fence is None,
        document::opens_fence(open) is Some,
    ensures
        document::read_lines(document::unread(), a + seq![open]) == (document::Reading {
            fence: document::opens_fence(open),
            para: Seq::empty(),
            out: document::stripped_lines(a),
        }),
{
    assert((a + seq![open]).drop_last() =~= a);
    let d = document::read_lines(document::unread(), a);
    assert(document::paragraph_ended(d).para =~= Seq::<Seq<Glyph>>::empty());
}

/// Fenced code is dropped with its fences, in a quote or a list too: only the marker that
/// opened a fence closes it, and the prose on both sides is kept.
pub proof fn law_fenced_code_is_dropped(
    a: Seq<Seq<char>>,
    open: Seq<char>,
    code: Seq<Seq<char>>,
    close: Seq<char>,
    b: Seq<Seq<char>>,
)
    requires
        document::read_lines(document::unread(), a).fence is None,
        document::opens_fence(open) is Some,
        document::closes_fence(close, document::opens_fence(open)->0),
        forall|i: int|
            0 <= i < code.len() ==> !document::closes_fence(
                #[trigger] code[i],
                document::opens_fence(open)->0,
            ),
    ensures
        document::stripped_lines(a + seq![open] + code + seq![close] + b)
            == document::stripped_lines(a) + document::stripped_lines(b),
{
    let fence = document::opens_fence(open)->0;
    let e = document::read_lines(document::unread(), a + seq![open]);
    lemma_fence_opened(a, open);
    lemma_read_concat(document::unread(), a + seq![open], code);
    lemma_inside_fence(e, fence, code);
    let front = a + seq![open] + code;
    assert((front + seq![close]).drop_last() =~= front);
    let f = document::read_lines(document::unread(), front + seq![close]);
    assert(f == (document::Reading { out: document::stripped_lines(a), ..document::unread() }));
    lemma_read_concat(document::unread(), front + seq![close], b);
    lemma_read_out(document::unread(), f.out, b);
    let g = document::read_lines(document::unread(), b);
    assert(f.out + (g.out + document::finished(g.para)) =~= (f.out + g.out) + document::finished(
        g.para,
    ));
}

/// A fence that nothing closes runs to the end of the document.
pub proof fn law_unclosed_fence_runs_to_the_end(
    a: Seq<Seq<char>>,
    open: Seq<char>,
    code: Seq<Seq<char>>,
)
    requires
        document::read_lines(document::unread(), a).fence is None,
        document::opens_fence(open) is Some,
        forall|i: int|
            0 <= i < code.len() ==> !document::closes_fence(
                #[trigger] code[i],
                document::opens_fence(open)->0,
            ),
    ensures
        document::stripped_lines(a + seq![open] + code) == document::stripped_lines(a),
{
    let fence = document::opens_fence(open)->0;
    lemma_fence_opened(a, open);
    lemma_read_concat(document::unread(), a + seq![open], code);
    lemma_inside_fence(document::read_lines(document::unread(), a + seq![open]), fence, code);
}

/// A fence that stands by itself is not closed by one in a quote or a list, which may be what
/// the code is about.
pub proof fn law_outer_fences_close_outside(line: Seq<char>, marker: char)
    requires
        block::fence_of(text::trimmed(line)) is None,
    ensures
        !document::closes_fence(line, (document::Fence { marker, nested: false })),
{
}

// ---- the lines that come out ----
/// No whitespace but single spaces, and those only between words.
pub open spec fn is_tidy(line: Seq<char>) -> bool {
    &&& text_lemmas::is_tight(line)
    &&& forall|i: int|
        0 <= i < line.len() && text::is_space(#[trigger] line[i]) ==> line[i] == ' ' && i + 1
            < line.len() && !text::is_space(line[i + 1])
}

proof fn lemma_joined_words_are_tidy(words: Seq<Seq<char>>)
    requires
        words.len() > 0,
        forall|i: int| 0 <= i < words.len() ==> text_lemmas::is_word(#[trigger] words[i]),
    ensures
        is_tidy(text::joined(words, seq![' '])),
    decreases words.len(),
{
    let line = text::joined(words, seq![' ']);
    let last = words[words.len() - 1];
    assert(text_lemmas::is_word(last));
    text_lemmas::lemma_words_of_joined(words);
    if words.len() > 1 {
        let front = words.drop_last();
        assert forall|i: int| 0 <= i < front.len() implies text_lemmas::is_word(
            #[trigger] front[i],
        ) by {
            assert(front[i] == words[i]);
        }
        lemma_joined_words_are_tidy(front);
        let a = text::joined(front, seq![' ']);
        assert forall|i: int| 0 <= i < line.len() && text::is_space(#[trigger] line[i]) implies line[i]
            == ' ' && i + 1 < line.len() && !text::is_space(line[i + 1]) by {
            if i < a.len() {
                assert(line[i] == a[i]);
                assert(line[i + 1] == a[i + 1]);
            } else if i == a.len() {
                assert(line[i + 1] == last[0]);
            } else {
                assert(line[i] == last[i - a.len() - 1]);
            }
        }
    }
}

pub proof fn lemma_collapsed(line: Seq<char>)
    ensures
        text::words_of(document::collapsed(line)) == text::words_of(line),
        document::collapsed(document::collapsed(line)) == document::collapsed(line),
        document::collapsed(line).len() > 0 ==> is_tidy(document::collapsed(line)),
        (document::collapsed(line).len() == 0) == (text::words_of(line).len() == 0),
{
    text_lemmas::lemma_words_are_words(line);
    text_lemmas::lemma_words_of_joined(text::words_of(line));
    if text::words_of(line).len() > 0 {
        lemma_joined_words_are_tidy(text::words_of(line));
    }
}

proof fn lemma_spoken_lines(lines: Seq<Seq<char>>, n: int)
    requires
        0 <= n <= lines.len(),
    ensures
        document::spoken_lines(lines, n).len() <= n,
        forall|k: int|
            0 <= k < document::spoken_lines(lines, n).len() ==> is_tidy(
                #[trigger] document::spoken_lines(lines, n)[k],
            ) && document::collapsed(document::spoken_lines(lines, n)[k]) == document::spoken_lines(
                lines,
                n,
            )[k],
    decreases n,
{
    if n > 0 {
        lemma_spoken_lines(lines, n - 1);
        lemma_collapsed(lines[n - 1]);
        let before = document::spoken_lines(lines, n - 1);
        let after = document::spoken_lines(lines, n);
        assert forall|k: int| 0 <= k < after.len() implies is_tidy(#[trigger] after[k])
            && document::collapsed(after[k]) == after[k] by {
            if k < before.len() {
                assert(after[k] == before[k]);
            }
        }
    }
}

proof fn lemma_finished_is_tidy(para: Seq<Seq<Glyph>>)
    ensures
        forall|k: int|
            0 <= k < document::finished(para).len() ==> is_tidy(
                #[trigger] document::finished(para)[k],
            ) && document::collapsed(document::finished(para)[k]) == document::finished(para)[k],
{
    let lines = text::lines_of(
        glyphs::spelled(emphasis::unemphasized(text::joined(para, seq![document::newline()]))),
    );
    lemma_spoken_lines(lines, lines.len() as int);
}

proof fn lemma_read_is_tidy(lines: Seq<Seq<char>>)
    ensures
        ({
            let out = document::paragraph_ended(
                document::read_lines(document::unread(), lines),
            ).out;
            forall|k: int|
                0 <= k < out.len() ==> is_tidy(#[trigger] out[k]) && document::collapsed(out[k])
                    == out[k]
        }),
        ({
            let out = document::read_lines(document::unread(), lines).out;
            forall|k: int|
                0 <= k < out.len() ==> is_tidy(#[trigger] out[k]) && document::collapsed(out[k])
                    == out[k]
        }),
    decreases lines.len(),
{
    let d = document::read_lines(document::unread(), lines);
    if lines.len() > 0 {
        lemma_read_is_tidy(lines.drop_last());
    }
    lemma_finished_is_tidy(d.para);
    let fin = document::finished(d.para);
    let out = document::paragraph_ended(d).out;
    assert forall|k: int| 0 <= k < out.len() implies is_tidy(#[trigger] out[k])
        && document::collapsed(out[k]) == out[k] by {
        if k < d.out.len() {
            assert(out[k] == d.out[k]);
        } else {
            assert(out[k] == fin[k - d.out.len()]);
        }
    }
}

/// Lines that become empty are dropped, and no hole is left where a marker was: every line
/// that comes out starts and ends with a word, and has single spaces between its words.
pub proof fn law_spoken_lines_are_tidy(lines: Seq<Seq<char>>)
    ensures
        forall|k: int|
            0 <= k < document::stripped_lines(lines).len() ==> is_tidy(
                #[trigger] document::stripped_lines(lines)[k],
            ),
{
    lemma_read_is_tidy(lines);
}

proof fn lemma_tidy_is_line(line: Seq<char>)
    requires
        is_tidy(line),
    ensures
        text_lemmas::is_line(line),
        text::without_cr(line) == line,
{
    assert forall|i: int| 0 <= i < line.len() implies #[trigger] line[i] != '\n' by {
        assert(text::is_space('\n'));
        if text::is_space(line[i]) {
            assert(line[i] == ' ');
        }
    }
}

/// Line structure is preserved: the lines of the text that comes out are the lines that
/// were kept.
pub proof fn law_lines_survive(s: Seq<char>)
    ensures
        text::lines_of(document::stripped(s)) == document::stripped_lines(text::lines_of(s)),
{
    let lines = document::stripped_lines(text::lines_of(s));
    law_spoken_lines_are_tidy(text::lines_of(s));
    assert forall|i: int| 0 <= i < lines.len() implies text_lemmas::is_line(#[trigger] lines[i])
        && text::without_cr(lines[i]) == lines[i] by {
        lemma_tidy_is_line(lines[i]);
    }
    if lines.len() > 0 {
        assert(is_tidy(lines[lines.len() - 1]));
    }
    text_lemmas::lemma_lines_of_joined(lines);
    assert(text_lemmas::as_read(lines) =~= lines);
}

/// The first word of a line stays where it is.
pub proof fn lemma_collapsed_front(u: Seq<char>)
    requires
        u.len() > 0,
        !text::is_space(u[0]),
    ensures
        ({
            let o = document::collapsed(u);
            let n = text::word_len(u) as int;
            &&& 0 < n <= u.len()
            &&& n <= o.len()
            &&& forall|j: int| 0 <= j < n ==> #[trigger] o[j] == u[j] && !text::is_space(o[j])
            &&& n < u.len() ==> text::is_space(u[n])
            &&& n < o.len() ==> o[n] == ' ' && n < u.len()
        }),
{
    text::lemma_word_len(u);
    let n = text::word_len(u) as int;
    let word = u.take(n);
    let words = text::words_of(u);
    let more = text::words_of(u.skip(n));
    assert(words == seq![word] + more);
    let o = document::collapsed(u);
    if more.len() > 0 {
        if n == u.len() {
            assert(u.skip(n) =~= Seq::<char>::empty());
        }
        text_lemmas::lemma_joined_front(words, seq![' ']);
        assert(o =~= word + seq![' '] + text::joined(words.drop_first(), seq![' ']));
        assert(o[n] == ' ');
    } else {
        assert(words =~= seq![word]);
        assert(o =~= word);
    }
    assert forall|j: int| 0 <= j < n implies #[trigger] o[j] == u[j] && !text::is_space(o[j]) by {
        assert(o[j] == word[j]);
    }
}

pub proof fn lemma_collapsed_lacks(s: Seq<char>, bad: spec_fn(char) -> bool)
    requires
        !bad(' '),
        forall|i: int| 0 <= i < s.len() ==> !bad(#[trigger] s[i]),
    ensures
        forall|i: int|
            0 <= i < document::collapsed(s).len() ==> !bad(#[trigger] document::collapsed(s)[i]),
    decreases s.len(),
{
    let o = document::collapsed(s);
    if s.len() == 0 {
        assert(text::words_of(s).len() == 0);
        assert(o.len() == 0);
    } else if text::is_space(s[0]) {
        let t = s.drop_first();
        assert(o == document::collapsed(t));
        assert forall|i: int| 0 <= i < t.len() implies !bad(#[trigger] t[i]) by {
            assert(t[i] == s[i + 1]);
        }
        lemma_collapsed_lacks(t, bad);
    } else {
        text::lemma_word_len(s);
        let n = text::word_len(s) as int;
        let word = s.take(n);
        let t = s.skip(n);
        let words = text::words_of(s);
        assert forall|i: int| 0 <= i < t.len() implies !bad(#[trigger] t[i]) by {
            assert(t[i] == s[i + n]);
        }
        lemma_collapsed_lacks(t, bad);
        let more = text::words_of(t);
        assert(words == seq![word] + more);
        let rest = document::collapsed(t);
        if more.len() > 0 {
            text_lemmas::lemma_joined_front(words, seq![' ']);
            assert(words.drop_first() =~= more);
            assert(o =~= word + seq![' '] + rest);
        } else {
            assert(words =~= seq![word]);
            assert(o =~= word);
        }
        assert forall|i: int| 0 <= i < o.len() implies !bad(#[trigger] o[i]) by {
            if i < n {
                assert(o[i] == s[i]);
            } else if i > n {
                assert(o[i] == rest[i - n - 1]);
            }
        }
    }
}

// ---- how many lines come out ----
proof fn lemma_occurrences_concat(a: Seq<char>, b: Seq<char>, c: char)
    ensures
        block::occurrences(a + b, c) == block::occurrences(a, c) + block::occurrences(b, c),
    decreases b.len(),
{
    if b.len() == 0 {
        assert(a + b =~= a);
    } else {
        lemma_occurrences_concat(a, b.drop_last(), c);
        assert((a + b).drop_last() =~= a + b.drop_last());
        assert((a + b).last() == b.last());
    }
}

proof fn lemma_line_has_no_break(s: Seq<char>)
    requires
        text_lemmas::is_line(s),
    ensures
        block::occurrences(s, '\n') == 0,
    decreases s.len(),
{
    if s.len() > 0 {
        let t = s.drop_last();
        assert(s[s.len() - 1] != '\n');
        assert forall|i: int| 0 <= i < t.len() implies #[trigger] t[i] != '\n' by {
            assert(t[i] == s[i]);
        }
        lemma_line_has_no_break(t);
    }
}

pub proof fn lemma_lines_are_counted(s: Seq<char>)
    ensures
        text::lines_of(s).len() <= block::occurrences(s, '\n') + 1,
        forall|i: int|
            0 <= i < text::lines_of(s).len() ==> text_lemmas::is_line(#[trigger] text::lines_of(s)[i]),
    decreases s.len(),
{
    if s.len() > 0 {
        text::lemma_index_of(s, '\n', 0);
        match text::index_of(s, '\n', 0) {
            None => {
                assert(text::lines_of(s) == seq![s]);
            },
            Some(k) => {
                let first = text::without_cr(s.take(k));
                let rest = s.skip(k + 1);
                lemma_lines_are_counted(rest);
                assert(s =~= s.take(k) + seq!['\n'] + rest);
                lemma_occurrences_concat(s.take(k), seq!['\n'], '\n');
                lemma_occurrences_concat(s.take(k) + seq!['\n'], rest, '\n');
                reveal_with_fuel(block::occurrences, 2);
                assert(seq!['\n'].drop_last() =~= Seq::<char>::empty());
                assert(block::occurrences(seq!['\n'], '\n') == 1);
                let lines = text::lines_of(s);
                assert(lines == seq![first] + text::lines_of(rest));
                assert forall|i: int| 0 <= i < lines.len() implies text_lemmas::is_line(
                    #[trigger] lines[i],
                ) by {
                    if i == 0 {
                        assert forall|j: int| 0 <= j < first.len() implies #[trigger] first[j]
                            != '\n' by {
                            assert(first[j] == s[j]);
                        }
                    } else {
                        assert(lines[i] == text::lines_of(rest)[i - 1]);
                    }
                }
            },
        }
    }
}

proof fn lemma_occurrences_subsequence(a: Seq<char>, b: Seq<char>, c: char)
    requires
        text_lemmas::is_subsequence(a, b),
    ensures
        block::occurrences(a, c) <= block::occurrences(b, c),
    decreases b.len(),
{
    if b.len() == 0 {
    } else {
        let t = b.drop_first();
        assert(seq![b[0]] + t =~= b);
        lemma_occurrences_concat(seq![b[0]], t, c);
        if a.len() > 0 && a[0] == b[0] && text_lemmas::is_subsequence(a.drop_first(), t) {
            lemma_occurrences_subsequence(a.drop_first(), t, c);
            assert(seq![a[0]] + a.drop_first() =~= a);
            lemma_occurrences_concat(seq![a[0]], a.drop_first(), c);
        } else {
            lemma_occurrences_subsequence(a, t, c);
        }
    }
}

proof fn lemma_occurrences_joined(para: Seq<Seq<char>>)
    requires
        para.len() > 0,
        forall|i: int| 0 <= i < para.len() ==> text_lemmas::is_line(#[trigger] para[i]),
    ensures
        block::occurrences(text::joined(para, seq!['\n']), '\n') == para.len() - 1,
    decreases para.len(),
{
    let last = para[para.len() - 1];
    lemma_line_has_no_break(last);
    if para.len() > 1 {
        let front = para.drop_last();
        assert forall|i: int| 0 <= i < front.len() implies text_lemmas::is_line(
            #[trigger] front[i],
        ) by {
            assert(front[i] == para[i]);
        }
        lemma_occurrences_joined(front);
        let a = text::joined(front, seq!['\n']);
        lemma_occurrences_concat(a, seq!['\n'], '\n');
        lemma_occurrences_concat(a + seq!['\n'], last, '\n');
        reveal_with_fuel(block::occurrences, 2);
        assert(seq!['\n'].drop_last() =~= Seq::<char>::empty());
        assert(block::occurrences(seq!['\n'], '\n') == 1);
    }
}

/// What is spoken of a paragraph are characters of its lines, in their order.
pub proof fn lemma_finished_only_removes(para: Seq<Seq<Glyph>>)
    ensures
        text_lemmas::is_subsequence(
            glyphs::spelled(
                emphasis::unemphasized(text::joined(para, seq![document::newline()])),
            ),
            text::joined(glyph_laws::written(para), seq!['\n']),
        ),
{
    let a = text::joined(para, seq![document::newline()]);
    let b = emphasis::unemphasized(a);
    let s = glyphs::chars(a);
    let gone = |k: int| emphasis::is_markup(glyphs::seen(a), k);
    glyph_laws::lemma_written_joined(para);
    glyph_laws::lemma_chars_without(a, gone, a.len() as int);
    text_lemmas::lemma_subsequence_without(s, gone, s.len() as int);
    assert(s.take(s.len() as int) =~= s);
    glyph_laws::lemma_spelled_len(b);
    text_lemmas::lemma_subsequence_trans(glyphs::spelled(b), glyphs::chars(b), s);
}

proof fn lemma_finished_count(para: Seq<Seq<Glyph>>)
    requires
        para.len() > 0,
        forall|i: int|
            0 <= i < para.len() ==> text_lemmas::is_line(glyphs::chars(#[trigger] para[i])),
    ensures
        document::finished(para).len() <= para.len(),
{
    let c = glyphs::spelled(emphasis::unemphasized(text::joined(para, seq![document::newline()])));
    let raw = glyph_laws::written(para);
    assert forall|i: int| 0 <= i < raw.len() implies text_lemmas::is_line(#[trigger] raw[i]) by {
        assert(raw[i] == glyphs::chars(para[i]));
    }
    lemma_occurrences_joined(raw);
    lemma_finished_only_removes(para);
    lemma_occurrences_subsequence(c, text::joined(raw, seq!['\n']), '\n');
    lemma_lines_are_counted(c);
    let lines = text::lines_of(c);
    lemma_spoken_lines(lines, lines.len() as int);
}

/// What is left of one line is one line.
proof fn lemma_prose_is_line(line: Seq<char>)
    requires
        text_lemmas::is_line(line),
    ensures
        text_lemmas::is_line(glyphs::chars(spans::inlined(block::unprefixed(line)))),
{
    let u = block::unprefixed(line);
    block_laws::law_block_rules_only_remove(line);
    if text_lemmas::is_subsequence(u, line) {
        text_lemmas::lemma_subsequence_lacks(u, line, '\n');
    } else {
        text_lemmas::lemma_subsequence_lacks(u.drop_last(), line, '\n');
        assert forall|i: int| 0 <= i < u.len() implies #[trigger] u[i] != '\n' by {
            if i < u.len() - 1 {
                assert(u[i] == u.drop_last()[i]);
            }
        }
    }
    spans_laws::law_inline_rules_only_remove(u);
    text_lemmas::lemma_subsequence_lacks(glyphs::chars(spans::inlined(u)), u, '\n');
}

proof fn lemma_read_count(lines: Seq<Seq<char>>)
    requires
        forall|i: int| 0 <= i < lines.len() ==> text_lemmas::is_line(#[trigger] lines[i]),
    ensures
        ({
            let d = document::read_lines(document::unread(), lines);
            &&& d.out.len() + d.para.len() <= lines.len()
            &&& forall|i: int|
                0 <= i < d.para.len() ==> text_lemmas::is_line(glyphs::chars(#[trigger] d.para[i]))
        }),
    decreases lines.len(),
{
    if lines.len() > 0 {
        let front = lines.drop_last();
        assert forall|i: int| 0 <= i < front.len() implies text_lemmas::is_line(
            #[trigger] front[i],
        ) by {
            assert(front[i] == lines[i]);
        }
        lemma_read_count(front);
        let d = document::read_lines(document::unread(), front);
        let line = lines[lines.len() - 1];
        assert(text_lemmas::is_line(line));
        lemma_prose_is_line(line);
        if d.para.len() > 0 {
            lemma_finished_count(d.para);
        }
        let e = document::read_lines(document::unread(), lines);
        assert forall|i: int| 0 <= i < e.para.len() implies text_lemmas::is_line(
            glyphs::chars(#[trigger] e.para[i]),
        ) by {
            if i < d.para.len() {
                assert(e.para[i] == d.para[i]);
            }
        }
    }
}

/// Stripping makes no new lines.
pub proof fn law_no_line_is_added(s: Seq<char>)
    ensures
        text::lines_of(document::stripped(s)).len() <= text::lines_of(s).len(),
{
    let lines = text::lines_of(s);
    lemma_lines_are_counted(s);
    lemma_read_count(lines);
    let d = document::read_lines(document::unread(), lines);
    if d.para.len() > 0 {
        lemma_finished_count(d.para);
    }
    law_lines_survive(s);
}

// ---- text without markup ----
/// `lines`, collapsed, without those that hold no word.
pub open spec fn spoken(lines: Seq<Seq<char>>) -> Seq<Seq<char>> {
    document::spoken_lines(lines, lines.len() as int)
}

proof fn lemma_spoken_prefix(a: Seq<Seq<char>>, b: Seq<Seq<char>>, n: int)
    requires
        0 <= n <= a.len(),
        n <= b.len(),
        forall|i: int|
            0 <= i < n ==> document::collapsed(#[trigger] a[i]) == document::collapsed(b[i]),
    ensures
        document::spoken_lines(a, n) == document::spoken_lines(b, n),
    decreases n,
{
    if n > 0 {
        lemma_spoken_prefix(a, b, n - 1);
        assert(document::collapsed(a[n - 1]) == document::collapsed(b[n - 1]));
    }
}

proof fn lemma_spoken_push(lines: Seq<Seq<char>>, line: Seq<char>)
    ensures
        spoken(lines.push(line)) == if document::collapsed(line).len() == 0 {
            spoken(lines)
        } else {
            spoken(lines).push(document::collapsed(line))
        },
{
    lemma_spoken_prefix(lines.push(line), lines, lines.len() as int);
}

proof fn lemma_spoken_concat(a: Seq<Seq<char>>, b: Seq<Seq<char>>)
    ensures
        spoken(a + b) == spoken(a) + spoken(b),
    decreases b.len(),
{
    if b.len() == 0 {
        assert(a + b =~= a);
        assert(spoken(a) + spoken(b) =~= spoken(a));
    } else {
        let front = b.drop_last();
        lemma_spoken_concat(a, front);
        lemma_spoken_push(a + front, b.last());
        lemma_spoken_push(front, b.last());
        assert((a + front).push(b.last()) =~= a + b);
        assert(front.push(b.last()) =~= b);
        assert(spoken(a + b) =~= spoken(a) + spoken(b));
    }
}

proof fn lemma_spoken_one(line: Seq<char>)
    ensures
        spoken(seq![line]) == if document::collapsed(line).len() == 0 {
            Seq::<Seq<char>>::empty()
        } else {
            seq![document::collapsed(line)]
        },
{
    lemma_spoken_push(Seq::empty(), line);
    assert(Seq::<Seq<char>>::empty().push(line) =~= seq![line]);
    assert(spoken(Seq::empty()) =~= Seq::<Seq<char>>::empty());
    assert(spoken(seq![line]) =~= if document::collapsed(line).len() == 0 {
        Seq::<Seq<char>>::empty()
    } else {
        seq![document::collapsed(line)]
    });
}

proof fn lemma_collapsed_without_cr(l: Seq<char>)
    ensures
        document::collapsed(text::without_cr(l)) == document::collapsed(l),
{
    if l.len() > 0 && l.last() == '\r' {
        text_lemmas::lemma_words_split(l.drop_last(), '\r', Seq::empty());
        assert(l.drop_last().push('\r') + Seq::<char>::empty() =~= l);
        assert(text::words_of(l.drop_last()) + text::words_of(Seq::empty()) =~= text::words_of(
            l.drop_last(),
        ));
    }
}

/// Lines that are joined and parted again are spoken as they were.
proof fn lemma_spoken_joined(parts: Seq<Seq<char>>)
    requires
        forall|i: int| 0 <= i < parts.len() ==> text_lemmas::is_line(#[trigger] parts[i]),
    ensures
        spoken(text::lines_of(text::joined(parts, seq!['\n']))) == spoken(parts),
    decreases parts.len(),
{
    let s = text::joined(parts, seq!['\n']);
    if parts.len() == 0 {
        assert(s =~= Seq::<char>::empty());
        assert(text::lines_of(s) =~= parts);
    } else if parts.len() == 1 {
        let line = parts[0];
        assert(text_lemmas::is_line(line));
        assert(parts =~= seq![line]);
        lemma_spoken_one(line);
        text::lemma_index_of(line, '\n', 0);
        if line.len() == 0 {
            lemma_collapsed(line);
            assert(spoken(text::lines_of(s)) =~= Seq::<Seq<char>>::empty());
        } else {
            assert(text::index_of(line, '\n', 0) is None);
            assert(text::lines_of(s) == seq![line]);
        }
    } else {
        let line = parts[0];
        let rest = parts.drop_first();
        assert(text_lemmas::is_line(line));
        assert forall|i: int| 0 <= i < rest.len() implies text_lemmas::is_line(
            #[trigger] rest[i],
        ) by {
            assert(rest[i] == parts[i + 1]);
        }
        lemma_spoken_joined(rest);
        text_lemmas::lemma_joined_front(parts, seq!['\n']);
        let tail = text::joined(rest, seq!['\n']);
        let k = line.len() as int;
        assert(s =~= line + seq!['\n'] + tail);
        assert forall|j: int| 0 <= j < k implies #[trigger] s[j] != '\n' by {
            assert(s[j] == line[j]);
        }
        text::lemma_index_of(s, '\n', 0);
        assert(s[k] == '\n');
        assert(text::index_of(s, '\n', 0) == Some(k));
        assert(s.take(k) =~= line);
        assert(s.skip(k + 1) =~= tail);
        lemma_spoken_concat(seq![text::without_cr(line)], text::lines_of(tail));
        lemma_spoken_concat(seq![line], rest);
        assert(seq![line] + rest =~= parts);
        lemma_spoken_one(line);
        lemma_spoken_one(text::without_cr(line));
        lemma_collapsed_without_cr(line);
    }
}

// ---- lines without emphasis ----
/// The fence that is open before line `i`.
pub open spec fn fence_before(lines: Seq<Seq<char>>, i: int) -> Option<document::Fence> {
    document::read_lines(document::unread(), lines.take(i)).fence
}

/// A line of which nothing is spoken: it is code, a fence, or dropped.
pub open spec fn is_silent(fence: Option<document::Fence>, line: Seq<char>) -> bool {
    fence is Some || document::opens_fence(line) is Some || document::is_dropped(line)
}

/// A line that is silent, or in which the line rules leave no marker of emphasis.
pub open spec fn is_calm(fence: Option<document::Fence>, line: Seq<char>) -> bool {
    is_silent(fence, line) || emphasis_laws::has_no_marker(
        glyphs::seen(spans::inlined(block::unprefixed(line))),
    )
}

/// What is spoken of a line that stands for itself.
pub open spec fn heard(fence: Option<document::Fence>, line: Seq<char>) -> Seq<char> {
    if is_silent(fence, line) {
        Seq::empty()
    } else {
        glyphs::spelled(spans::inlined(block::unprefixed(line)))
    }
}

/// What is spoken of every line.
pub open spec fn all_heard(lines: Seq<Seq<char>>) -> Seq<Seq<char>> {
    Seq::new(lines.len(), |i: int| heard(fence_before(lines, i), lines[i]))
}

/// What stands in a paragraph of calm lines.
spec fn is_calm_prose(g: Seq<Glyph>) -> bool {
    text_lemmas::is_line(glyphs::chars(g)) && emphasis_laws::has_no_marker(glyphs::seen(g))
}

proof fn lemma_calm_paragraph(para: Seq<Seq<Glyph>>)
    requires
        forall|i: int| 0 <= i < para.len() ==> is_calm_prose(#[trigger] para[i]),
    ensures
        document::finished(para) == spoken(glyph_laws::all_spelled(para)),
{
    let g = text::joined(para, seq![document::newline()]);
    let bad = |c: char| emphasis::is_marker(c);
    assert forall|i: int, k: int| 0 <= i < para.len() && 0 <= k < para[i].len() implies !bad(
        #[trigger] glyphs::seen(para[i])[k],
    ) by {
        assert(is_calm_prose(para[i]));
    }
    glyph_laws::lemma_joined_sees_no(para, bad);
    assert forall|k: int| 0 <= k < glyphs::seen(g).len() implies !emphasis::is_marker(
        #[trigger] glyphs::seen(g)[k],
    ) by {
        assert(!bad(glyphs::seen(g)[k]));
    }
    emphasis_laws::law_text_without_markers_is_kept(g);
    glyph_laws::lemma_spelled_joined(para);
    let parts = glyph_laws::all_spelled(para);
    assert forall|i: int| 0 <= i < parts.len() implies text_lemmas::is_line(
        #[trigger] parts[i],
    ) by {
        assert(is_calm_prose(para[i]));
        glyph_laws::lemma_spelled_len(para[i]);
        text_lemmas::lemma_subsequence_lacks(
            glyphs::spelled(para[i]),
            glyphs::chars(para[i]),
            '\n',
        );
    }
    lemma_spoken_joined(parts);
}

proof fn lemma_calm_reading(lines: Seq<Seq<char>>)
    requires
        forall|i: int|
            0 <= i < lines.len() ==> text_lemmas::is_line(#[trigger] lines[i]) && is_calm(
                fence_before(lines, i),
                lines[i],
            ),
    ensures
        ({
            let d = document::read_lines(document::unread(), lines);
            &&& d.out + spoken(glyph_laws::all_spelled(d.para)) == spoken(all_heard(lines))
            &&& forall|i: int| 0 <= i < d.para.len() ==> is_calm_prose(#[trigger] d.para[i])
        }),
    decreases lines.len(),
{
    if lines.len() == 0 {
        let none = Seq::<Seq<Glyph>>::empty();
        assert(all_heard(lines) =~= glyph_laws::all_spelled(none));
        assert(Seq::<Seq<char>>::empty() + spoken(glyph_laws::all_spelled(none)) =~= spoken(
            all_heard(lines),
        ));
    } else {
        let front = lines.drop_last();
        let n = front.len() as int;
        let line = lines[n];
        assert forall|i: int| 0 <= i < n implies text_lemmas::is_line(#[trigger] front[i])
            && is_calm(fence_before(front, i), front[i]) && heard(
            fence_before(front, i),
            front[i],
        ) == heard(fence_before(lines, i), lines[i]) by {
            assert(front[i] == lines[i]);
            assert(front.take(i) =~= lines.take(i));
        }
        assert(text_lemmas::is_line(line));
        assert(lines.take(n) =~= front);
        lemma_calm_reading(front);
        let d = document::read_lines(document::unread(), front);
        let e = document::read_lines(document::unread(), lines);
        let words = heard(d.fence, line);
        assert(is_calm(d.fence, line));
        assert(all_heard(lines) =~= all_heard(front).push(words));
        lemma_spoken_push(all_heard(front), words);
        lemma_collapsed(words);
        if is_silent(d.fence, line) {
            assert(words.len() == 0);
            lemma_calm_paragraph(d.para);
            if d.para.len() == 0 || d.fence is Some {
                assert(e.para == d.para && e.out == d.out);
            } else {
                assert(glyph_laws::all_spelled(e.para) =~= Seq::<Seq<char>>::empty());
            }
            assert(e.out + spoken(glyph_laws::all_spelled(e.para)) =~= d.out + spoken(
                glyph_laws::all_spelled(d.para),
            ));
        } else {
            let prose = spans::inlined(block::unprefixed(line));
            lemma_prose_is_line(line);
            assert(e.para == d.para.push(prose) && e.out == d.out);
            assert(glyph_laws::all_spelled(e.para) =~= glyph_laws::all_spelled(d.para).push(words));
            lemma_spoken_push(glyph_laws::all_spelled(d.para), words);
            assert forall|i: int| 0 <= i < e.para.len() implies is_calm_prose(
                #[trigger] e.para[i],
            ) by {
                if i < d.para.len() {
                    assert(e.para[i] == d.para[i]);
                }
            }
            assert(e.out + spoken(glyph_laws::all_spelled(e.para)) =~= if document::collapsed(
                words,
            ).len() == 0 {
                d.out + spoken(glyph_laws::all_spelled(d.para))
            } else {
                (d.out + spoken(glyph_laws::all_spelled(d.para))).push(document::collapsed(words))
            });
        }
    }
}

/// Where there is no emphasis, every line stands for itself: block markers, links, code,
/// tags and escapes of one line do not change how another is read.
pub proof fn law_lines_without_emphasis_stand_alone(lines: Seq<Seq<char>>)
    requires
        forall|i: int|
            0 <= i < lines.len() ==> text_lemmas::is_line(#[trigger] lines[i]) && is_calm(
                fence_before(lines, i),
                lines[i],
            ),
    ensures
        document::stripped_lines(lines) == spoken(all_heard(lines)),
{
    lemma_calm_reading(lines);
    let d = document::read_lines(document::unread(), lines);
    lemma_calm_paragraph(d.para);
    if d.para.len() == 0 {
        assert(glyph_laws::all_spelled(d.para) =~= Seq::<Seq<char>>::empty());
        assert(d.out + spoken(glyph_laws::all_spelled(d.para)) =~= d.out);
    }
}

/// Every mark that the line rules and the emphasis rules go by is escaped, or there is none.
pub open spec fn has_no_mark(s: Seq<char>) -> bool {
    &&& emphasis_laws::has_no_marker(s)
    &&& spans_laws::lacks(s, '`')
    &&& spans_laws::lacks(s, '[')
    &&& spans_laws::lacks(s, '<')
}

pub proof fn lemma_unmarked(g: Seq<Glyph>)
    requires
        has_no_mark(glyphs::seen(g)),
    ensures
        spans::tagless(spans::tickless(spans::linkless(spans::imageless(g)))) == g,
{
    spans_laws::law_unmarked_text_is_kept(g);
}

/// No fence opens, so none is open.
pub proof fn lemma_no_fence(lines: Seq<Seq<char>>)
    requires
        forall|i: int| 0 <= i < lines.len() ==> document::opens_fence(#[trigger] lines[i]) is None,
    ensures
        document::read_lines(document::unread(), lines).fence is None,
    decreases lines.len(),
{
    if lines.len() > 0 {
        let front = lines.drop_last();
        assert forall|i: int| 0 <= i < front.len() implies document::opens_fence(
            #[trigger] front[i],
        ) is None by {
            assert(front[i] == lines[i]);
        }
        lemma_no_fence(front);
        assert(document::opens_fence(lines[lines.len() - 1]) is None);
    }
}

proof fn lemma_no_fence_before(lines: Seq<Seq<char>>, i: int)
    requires
        0 <= i <= lines.len(),
        forall|j: int| 0 <= j < lines.len() ==> document::opens_fence(#[trigger] lines[j]) is None,
    ensures
        fence_before(lines, i) is None,
{
    let front = lines.take(i);
    assert forall|j: int| 0 <= j < front.len() implies document::opens_fence(
        #[trigger] front[j],
    ) is None by {
        assert(front[j] == lines[j]);
    }
    lemma_no_fence(front);
}

/// A line of prose: no fence, no structure, and no mark in it that is not escaped.
pub open spec fn is_escaped(line: Seq<char>) -> bool {
    &&& text_lemmas::is_line(line)
    &&& document::opens_fence(line) is None
    &&& !document::is_structure(text::trimmed(line))
    &&& !document::is_structure(document::bared(line))
    &&& has_no_mark(glyphs::seen(glyphs::marked(block::unprefixed(line))))
}

/// The lines without their block markers and without the backslashes of their escapes.
pub open spec fn all_unescaped(lines: Seq<Seq<char>>) -> Seq<Seq<char>> {
    Seq::new(lines.len(), |i: int| glyph_laws::unescaped(block::unprefixed(lines[i])))
}

pub proof fn lemma_blank_line(line: Seq<char>)
    requires
        text::trimmed(line).len() == 0,
    ensures
        block::unprefixed(line) == Seq::<char>::empty(),
{
    let start = text::trimmed_start(line);
    text_lemmas::lemma_trimmed_start(line);
    text_lemmas::lemma_trimmed_end(start);
    if start.len() > 0 {
        assert(text::is_space(start.skip(0)[0]));
    }
    assert(start =~= Seq::<char>::empty());
    assert(block::advanced(line) =~= Seq::<char>::empty());
    assert(block::advanced(Seq::empty()) =~= Seq::<char>::empty());
    assert(block::unprefixed(Seq::empty()) =~= Seq::<char>::empty());
}

proof fn lemma_escaped_line(line: Seq<char>)
    requires
        is_escaped(line),
    ensures
        is_calm(None, line),
        heard(None, line) == glyph_laws::unescaped(block::unprefixed(line)),
{
    lemma_unmarked(glyphs::marked(block::unprefixed(line)));
    if text::trimmed(line).len() == 0 {
        lemma_blank_line(line);
        assert(glyphs::marked(Seq::<char>::empty()) =~= Seq::<Glyph>::empty());
        assert(heard(None, line) =~= glyph_laws::unescaped(block::unprefixed(line)));
    }
}

/// An escape meant its character all along: lines in which every mark is escaped are spoken
/// as they are written, without the backslashes. A mark behind a backslash opens and closes
/// nothing, whatever paragraph it stands in.
pub proof fn law_escaped_text_is_spoken_as_written(lines: Seq<Seq<char>>)
    requires
        forall|i: int| 0 <= i < lines.len() ==> is_escaped(#[trigger] lines[i]),
    ensures
        document::stripped_lines(lines) == spoken(all_unescaped(lines)),
{
    assert forall|i: int| 0 <= i < lines.len() implies document::opens_fence(
        #[trigger] lines[i],
    ) is None by {
        assert(is_escaped(lines[i]));
    }
    assert forall|i: int| 0 <= i < lines.len() implies text_lemmas::is_line(#[trigger] lines[i])
        && is_calm(fence_before(lines, i), lines[i]) && heard(fence_before(lines, i), lines[i])
        == all_unescaped(lines)[i] by {
        assert(is_escaped(lines[i]));
        lemma_escaped_line(lines[i]);
        lemma_no_fence_before(lines, i);
    }
    law_lines_without_emphasis_stand_alone(lines);
    assert(all_heard(lines) =~= all_unescaped(lines));
}

/// A line that no rule touches: nothing in it is markup, and it starts none.
pub open spec fn is_plain(line: Seq<char>) -> bool {
    let start = text::trimmed_start(line);
    &&& has_no_mark(line)
    &&& spans_laws::lacks(line, '\\')
    &&& start.len() > 0 ==> start[0] != '>' && start[0] != '|'
    &&& !block::is_heading(start)
    &&& !block::is_bullet(start)
    &&& !block::is_rule_line(text::trimmed(line))
    &&& !block::is_rule_line(document::collapsed(line))
}

/// Text without a backslash has no escape in it.
pub proof fn lemma_no_backslash(s: Seq<char>)
    requires
        spans_laws::lacks(s, '\\'),
    ensures
        glyphs::marked(s) == glyphs::plain(s),
        glyph_laws::unescaped(s) == s,
{
    assert forall|k: int| 0 <= k < s.len() implies !#[trigger] glyphs::is_escape(s, k) by {
        assert(s[k] != '\\');
    }
    glyph_laws::lemma_marked_plain(s);
}

proof fn lemma_plain_line(line: Seq<char>)
    requires
        is_plain(line),
        text_lemmas::is_line(line),
    ensures
        is_escaped(line),
        glyph_laws::unescaped(block::unprefixed(line)) == text::trimmed_start(line),
        document::collapsed(text::trimmed_start(line)) == document::collapsed(line),
{
    let start = text::trimmed_start(line);
    let t = text::trimmed(line);
    let k = line.len() - start.len();
    text_lemmas::lemma_trimmed_start(line);
    text_lemmas::lemma_trimmed_end(start);
    assert(forall|i: int| 0 <= i < start.len() ==> #[trigger] start[i] == line[i + k]);
    assert(forall|i: int| 0 <= i < t.len() ==> #[trigger] t[i] == start[i]);
    if t.len() >= 3 {
        assert(!emphasis::is_marker(line[k]));
        assert(t[0] == line[k]);
    }
    if t.len() > 0 {
        assert(t[0] == line[k]);
    }
    if start.len() > 0 {
        assert(start[0] == line[k]);
    }
    assert(block::advanced(line) == start);
    assert(text::trimmed_start(start) == start);
    assert(block::advanced(start) == start);
    assert(block::unprefixed(start) == start);
    assert(block::unprefixed(line) == start);
    let o = document::collapsed(start);
    if start.len() > 0 {
        lemma_collapsed_front(start);
        assert(o[0] == start[0]);
        assert(start[0] != '[' && start[0] != '`' && !emphasis::is_marker(start[0]));
    } else {
        assert(start =~= Seq::<char>::empty());
    }
    assert(o == document::collapsed(line));
    assert(emphasis_laws::has_no_marker(start)) by {
        assert forall|i: int| 0 <= i < start.len() implies !emphasis::is_marker(
            #[trigger] start[i],
        ) by {
            assert(start[i] == line[i + k]);
        }
    }
    lemma_no_backslash(start);
    glyph_laws::lemma_plain(start);
}

/// Prose without markup passes through: only blank lines, and whitespace beyond a single
/// space between words, are dropped.
pub proof fn law_plain_prose_is_kept(lines: Seq<Seq<char>>)
    requires
        forall|i: int|
            0 <= i < lines.len() ==> text_lemmas::is_line(#[trigger] lines[i]) && is_plain(
                lines[i],
            ),
    ensures
        document::stripped_lines(lines) == spoken(lines),
{
    assert forall|i: int| 0 <= i < lines.len() implies is_escaped(#[trigger] lines[i]) by {
        lemma_plain_line(lines[i]);
    }
    law_escaped_text_is_spoken_as_written(lines);
    let out = all_unescaped(lines);
    assert forall|i: int| 0 <= i < lines.len() implies document::collapsed(#[trigger] out[i])
        == document::collapsed(lines[i]) by {
        lemma_plain_line(lines[i]);
    }
    lemma_spoken_prefix(out, lines, lines.len() as int);
}

/// The line rules before code leave the line alone: there is no image in it and no link.
pub open spec fn has_no_link(line: Seq<char>) -> bool {
    let m = glyphs::marked(line);
    spans::imageless(m) == m && spans::linkless(m) == m
}

/// `a`, then `code` between `n` backticks, then `b`.
pub open spec fn with_code(a: Seq<char>, n: nat, code: Seq<char>, b: Seq<char>) -> Seq<char> {
    a + spans_laws::ticks(n) + code + spans_laws::ticks(n) + b
}

/// What `law_code_is_spoken_as_written` asks of the parts of a line.
pub open spec fn is_code_in_prose(a: Seq<char>, n: nat, code: Seq<char>, b: Seq<char>) -> bool {
    &&& n >= 1
    &&& has_no_mark(glyphs::seen(glyphs::marked(a)))
    &&& a.len() > 0 ==> a.last() != '\\'
    &&& spans_laws::fits_between(code, n)
    &&& has_no_mark(glyphs::seen(glyphs::marked(b)))
    &&& has_no_link(with_code(a, n, code, b))
}

/// Parts of a line that do not end in a backslash have their escapes to themselves.
proof fn lemma_marked_concat(a: Seq<char>, b: Seq<char>)
    requires
        a.len() > 0 ==> a.last() != '\\',
    ensures
        glyphs::marked(a + b) == glyphs::marked(a) + glyphs::marked(b),
{
    let s = a + b;
    let p = a.len() as int;
    assert forall|k: int| k < p implies #[trigger] glyphs::is_escape(s, k) == glyphs::is_escape(
        a,
        k,
    ) by {
        if 0 <= k {
            assert(s[k] == a[k]);
            if k + 1 < p {
                assert(s[k + 1] == a[k + 1]);
            } else {
                assert(a[k] == a.last());
            }
        }
    }
    assert forall|k: int| p <= k implies #[trigger] glyphs::is_escape(s, k) == glyphs::is_escape(
        b,
        k - p,
    ) by {
        if k + 1 < s.len() {
            assert(s[k] == b[k - p] && s[k + 1] == b[k + 1 - p]);
        }
    }
    assert forall|k: int| 0 <= k < s.len() implies #[trigger] glyphs::marked(s)[k] == (
    glyphs::marked(a) + glyphs::marked(b))[k] by {
        if k < p {
            assert(glyphs::is_escape(s, k) == glyphs::is_escape(a, k));
            assert(glyphs::is_escape(s, k - 1) == glyphs::is_escape(a, k - 1));
        } else {
            assert(glyphs::is_escape(s, k) == glyphs::is_escape(b, k - p));
            assert(glyphs::is_escape(s, k - 1) == glyphs::is_escape(b, k - 1 - p)) by {
                if k == p {
                    assert(glyphs::is_escape(s, k - 1) == glyphs::is_escape(a, k - 1));
                }
            }
        }
    }
    assert(glyphs::marked(s) =~= glyphs::marked(a) + glyphs::marked(b));
}

proof fn lemma_ticks_marked(n: nat)
    ensures
        glyphs::marked(spans_laws::ticks(n)) == glyphs::plain(spans_laws::ticks(n)),
        n > 0 ==> spans_laws::ticks(n).last() != '\\',
{
    lemma_no_backslash(spans_laws::ticks(n));
}

/// Code shows no mark, and is spoken as it is.
pub proof fn lemma_code_has_no_mark(code: Seq<char>)
    ensures
        has_no_mark(glyphs::seen(glyphs::as_code(glyphs::plain(code)))),
        glyphs::spelled(glyphs::as_code(glyphs::plain(code))) == code,
{
    let g = glyphs::as_code(glyphs::plain(code));
    glyph_laws::lemma_spelled(g);
    assert(glyphs::chars(g) =~= code);
}

proof fn lemma_inside_marked(s: Seq<char>)
    ensures
        glyphs::inside(glyphs::marked(s)) == s,
{
    assert(glyphs::inside(glyphs::marked(s)) =~= s);
}

proof fn lemma_code_line(a: Seq<char>, n: nat, code: Seq<char>, b: Seq<char>)
    requires
        is_code_in_prose(a, n, code, b),
    ensures
        spans::inlined(with_code(a, n, code, b)) == glyphs::marked(a) + glyphs::as_code(
            glyphs::plain(code),
        ) + glyphs::marked(b),
        has_no_mark(
            glyphs::seen(
                glyphs::marked(a) + glyphs::as_code(glyphs::plain(code)) + glyphs::marked(b),
            ),
        ),
{
    let line = with_code(a, n, code, b);
    let t = spans_laws::ticks(n);
    let pt = glyphs::plain(t);
    let rest = code + t;
    let p = code.len() as int;
    let (ma, mr, mb) = (glyphs::marked(a), glyphs::marked(rest), glyphs::marked(b));
    let mc = mr.take(p);
    let close = mr.skip(p);
    let lit = glyphs::as_code(glyphs::plain(code));
    lemma_ticks_marked(n);
    lemma_marked_concat(a, t);
    assert((a + t).last() == t.last());
    lemma_marked_concat(a + t, rest);
    assert((a + t + rest).last() == t.last());
    lemma_marked_concat(a + t + rest, b);
    assert(a + t + rest + b =~= line);
    assert(ma + pt + mr + mb =~= ma + pt + mc + close + mb);
    assert(glyphs::marked(line) == ma + pt + mc + close + mb);
    lemma_inside_marked(rest);
    assert(glyphs::inside(mc) =~= code) by {
        assert(forall|k: int| 0 <= k < p ==> #[trigger] glyphs::inside(mr)[k] == code[k]);
    }
    assert(glyphs::inside(close) =~= t) by {
        assert(forall|k: int| p <= k < rest.len() ==> #[trigger] glyphs::inside(mr)[k] == '`');
    }
    assert(glyphs::as_code(mc) =~= lit);
    lemma_inside_marked(b);
    if mb.len() > 0 {
        assert(glyphs::seen(mb)[0] != '`');
    }
    spans_laws::law_code_keeps_its_content(ma, n, mc, close, mb);
    spans_laws::law_unmarked_text_is_kept(mb);
    let g = ma + lit + mb;
    lemma_code_has_no_mark(code);
    let s = glyphs::seen(g);
    assert forall|k: int| 0 <= k < s.len() implies !emphasis::is_marker(#[trigger] s[k]) && s[k]
        != '`' && s[k] != '[' && s[k] != '<' by {
        if k < ma.len() {
            assert(s[k] == glyphs::seen(ma)[k]);
        } else if k < ma.len() + lit.len() {
            assert(s[k] == glyphs::seen(lit)[k - ma.len()]);
        } else {
            assert(s[k] == glyphs::seen(mb)[k - ma.len() - lit.len()]);
        }
    }
    spans_laws::law_unmarked_text_is_kept(g);
}

/// Inline code is spoken as it is written: only the backticks go, whatever stands between
/// them. A tag, emphasis or a backslash in it is no markup. Links and images are read before
/// code, so the line must have none.
pub proof fn law_code_is_spoken_as_written(
    line: Seq<char>,
    a: Seq<char>,
    n: nat,
    code: Seq<char>,
    b: Seq<char>,
)
    requires
        text_lemmas::is_line(line),
        document::opens_fence(line) is None,
        !document::is_structure(text::trimmed(line)),
        !document::is_structure(document::bared(line)),
        block::unprefixed(line) == with_code(a, n, code, b),
        is_code_in_prose(a, n, code, b),
    ensures
        document::stripped_lines(seq![line]) == spoken(
            seq![glyph_laws::unescaped(a) + code + glyph_laws::unescaped(b)],
        ),
{
    let (ma, mb) = (glyphs::marked(a), glyphs::marked(b));
    let lit = glyphs::as_code(glyphs::plain(code));
    lemma_code_line(a, n, code, b);
    lemma_code_has_no_mark(code);
    glyph_laws::lemma_spelled_concat(ma + lit, mb);
    glyph_laws::lemma_spelled_concat(ma, lit);
    let lines = seq![line];
    lemma_no_fence_before(lines, 0);
    assert(is_calm(None, line));
    if text::trimmed(line).len() == 0 {
        lemma_blank_line(line);
        assert(with_code(a, n, code, b)[a.len() as int] == '`');
    }
    law_lines_without_emphasis_stand_alone(lines);
    assert(all_heard(lines) =~= seq![
        glyph_laws::unescaped(a) + code + glyph_laws::unescaped(b),
    ]);
}

// ---- stripping twice ----
/// A line that neither the block rules nor the inline rules change, and that has no escape.
pub open spec fn is_inert(line: Seq<char>) -> bool {
    &&& document::opens_fence(line) is None
    &&& !document::is_dropped(line)
    &&& block::unprefixed(line) == line
    &&& spans::inlined(line) == glyphs::plain(line)
}

proof fn lemma_inert_reading(lines: Seq<Seq<char>>)
    requires
        forall|i: int|
            0 <= i < lines.len() ==> is_inert(#[trigger] lines[i]) && text_lemmas::is_tight(
                lines[i],
            ),
    ensures
        document::read_lines(document::unread(), lines) == (document::Reading {
            para: glyph_laws::all_plain(lines),
            ..document::unread()
        }),
    decreases lines.len(),
{
    if lines.len() > 0 {
        let front = lines.drop_last();
        let line = lines[lines.len() - 1];
        assert forall|i: int| 0 <= i < front.len() implies is_inert(#[trigger] front[i])
            && text_lemmas::is_tight(front[i]) by {
            assert(front[i] == lines[i]);
        }
        lemma_inert_reading(front);
        text_lemmas::lemma_trimmed(line);
        assert(is_inert(line) && text_lemmas::is_tight(line));
        assert(glyph_laws::all_plain(front).push(glyphs::plain(line)) =~= glyph_laws::all_plain(
            lines,
        ));
    } else {
        assert(glyph_laws::all_plain(lines) =~= Seq::<Seq<Glyph>>::empty());
    }
}

/// A text that no rule changes any more.
pub open spec fn is_clean(s: Seq<char>) -> bool {
    &&& forall|i: int| 0 <= i < text::lines_of(s).len() ==> is_inert(#[trigger] text::lines_of(s)[i])
    &&& emphasis::unemphasized(glyphs::plain(s)) == glyphs::plain(s)
}

/// Text that is already clean is left alone: where the text that comes out holds no markup
/// any more, stripping it again changes nothing.
pub proof fn law_clean_text_is_left_alone(s: Seq<char>)
    requires
        is_clean(document::stripped(s)),
    ensures
        document::stripped(document::stripped(s)) == document::stripped(s),
{
    let out = document::stripped(s);
    let lines = text::lines_of(out);
    law_lines_survive(s);
    lemma_read_is_tidy(text::lines_of(s));
    assert(lines == document::stripped_lines(text::lines_of(s)));
    assert forall|i: int| 0 <= i < lines.len() implies is_inert(#[trigger] lines[i])
        && text_lemmas::is_tight(lines[i]) by {
        assert(is_tidy(lines[i]));
    }
    lemma_inert_reading(lines);
    lemma_spoken_fixed(lines, lines.len() as int);
    assert(lines.take(lines.len() as int) =~= lines);
    glyph_laws::lemma_plain_joined(lines);
    glyph_laws::lemma_plain(out);
    if lines.len() > 0 {
        assert(glyph_laws::all_plain(lines).len() == lines.len());
        assert(document::finished(glyph_laws::all_plain(lines)) == lines);
        assert(Seq::<Seq<char>>::empty() + lines =~= lines);
    }
}

proof fn lemma_spoken_fixed(lines: Seq<Seq<char>>, n: int)
    requires
        0 <= n <= lines.len(),
        forall|i: int|
            0 <= i < lines.len() ==> is_tidy(#[trigger] lines[i]) && document::collapsed(lines[i])
                == lines[i],
    ensures
        document::spoken_lines(lines, n) == lines.take(n),
    decreases n,
{
    if n > 0 {
        lemma_spoken_fixed(lines, n - 1);
        assert(is_tidy(lines[n - 1]));
        assert(lines.take(n) =~= lines.take(n - 1).push(lines[n - 1]));
    }
}

} // verus!

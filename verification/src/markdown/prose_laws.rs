//! Stripping only removes: what is spoken was written, and in that order.

use crate::markdown::block;
use crate::markdown::block_laws;
use crate::markdown::document;
use crate::markdown::document_laws;
use crate::markdown::emphasis;
use crate::markdown::glyph_laws;
use crate::markdown::glyphs::Glyph;
use crate::markdown::glyphs;
use crate::markdown::spans;
use crate::markdown::spans_laws;
use crate::text;
use crate::text_lemmas;
use vstd::prelude::*;

verus! {

/// `s` without whitespace, which is tidied up, and without periods unless `dots` says so: a
/// heading becomes a sentence.
pub open spec fn letters(s: Seq<char>, dots: bool) -> Seq<char>
    decreases s.len(),
{
    if s.len() == 0 {
        Seq::empty()
    } else if text::is_space(s[0]) || (s[0] == '.' && !dots) {
        letters(s.drop_first(), dots)
    } else {
        seq![s[0]] + letters(s.drop_first(), dots)
    }
}

/// The letters of all lines, one after the other.
spec fn all_letters(lines: Seq<Seq<char>>, dots: bool) -> Seq<char>
    decreases lines.len(),
{
    if lines.len() == 0 {
        Seq::empty()
    } else {
        all_letters(lines.drop_last(), dots) + letters(lines.last(), dots)
    }
}

proof fn lemma_letters_concat(a: Seq<char>, b: Seq<char>, dots: bool)
    ensures
        letters(a + b, dots) == letters(a, dots) + letters(b, dots),
    decreases a.len(),
{
    if a.len() == 0 {
        assert(a + b =~= b);
        assert(letters(a, dots) + letters(b, dots) =~= letters(b, dots));
    } else {
        lemma_letters_concat(a.drop_first(), b, dots);
        assert((a + b).drop_first() =~= a.drop_first() + b);
        assert(letters(a + b, dots) =~= letters(a, dots) + letters(b, dots));
    }
}

proof fn lemma_letters_none(c: char, dots: bool)
    requires
        text::is_space(c) || (c == '.' && !dots),
    ensures
        letters(seq![c], dots) == Seq::<char>::empty(),
{
    assert(seq![c].drop_first() =~= Seq::<char>::empty());
    assert(letters(Seq::<char>::empty(), dots) =~= Seq::<char>::empty());
}

proof fn lemma_all_letters_concat(a: Seq<Seq<char>>, b: Seq<Seq<char>>, dots: bool)
    ensures
        all_letters(a + b, dots) == all_letters(a, dots) + all_letters(b, dots),
    decreases b.len(),
{
    if b.len() == 0 {
        assert(a + b =~= a);
        assert(all_letters(a, dots) + all_letters(b, dots) =~= all_letters(a, dots));
    } else {
        lemma_all_letters_concat(a, b.drop_last(), dots);
        assert((a + b).drop_last() =~= a + b.drop_last());
        assert((a + b).last() == b.last());
        assert(all_letters(a + b, dots) =~= all_letters(a, dots) + all_letters(b, dots));
    }
}

proof fn lemma_all_letters_one(line: Seq<char>, dots: bool)
    ensures
        all_letters(seq![line], dots) == letters(line, dots),
{
    assert(seq![line].drop_last() =~= Seq::<Seq<char>>::empty());
    assert(all_letters(Seq::empty(), dots) + letters(line, dots) =~= letters(line, dots));
}

// ---- removing characters removes letters ----
proof fn lemma_subsequence_suffix(a: Seq<char>, b: Seq<char>, x: Seq<char>)
    requires
        text_lemmas::is_subsequence(a, b),
    ensures
        text_lemmas::is_subsequence(a + x, b + x),
    decreases x.len(),
{
    if x.len() == 0 {
        assert(a + x =~= a);
        assert(b + x =~= b);
    } else {
        lemma_subsequence_suffix(a, b, x.drop_last());
        let c = x.last();
        text_lemmas::lemma_subsequence_push(a + x.drop_last(), b + x.drop_last(), c);
        assert((a + x.drop_last()).push(c) =~= a + x);
        assert((b + x.drop_last()).push(c) =~= b + x);
    }
}

proof fn lemma_subsequence_concat(a: Seq<char>, b: Seq<char>, c: Seq<char>, d: Seq<char>)
    requires
        text_lemmas::is_subsequence(a, b),
        text_lemmas::is_subsequence(c, d),
    ensures
        text_lemmas::is_subsequence(a + c, b + d),
{
    lemma_subsequence_suffix(a, b, c);
    text_lemmas::lemma_subsequence_prefix(b, c, d);
    text_lemmas::lemma_subsequence_trans(a + c, b + c, b + d);
}

proof fn lemma_letters_subsequence(a: Seq<char>, b: Seq<char>, dots: bool)
    requires
        text_lemmas::is_subsequence(a, b),
    ensures
        text_lemmas::is_subsequence(letters(a, dots), letters(b, dots)),
    decreases b.len(),
{
    if a.len() > 0 {
        let t = b.drop_first();
        if a[0] == b[0] && text_lemmas::is_subsequence(a.drop_first(), t) {
            lemma_letters_subsequence(a.drop_first(), t, dots);
            if !(text::is_space(a[0]) || (a[0] == '.' && !dots)) {
                text_lemmas::lemma_subsequence_prefix(
                    seq![a[0]],
                    letters(a.drop_first(), dots),
                    letters(t, dots),
                );
            }
        } else {
            lemma_letters_subsequence(a, t, dots);
            if !(text::is_space(b[0]) || (b[0] == '.' && !dots)) {
                assert(letters(b, dots).skip(1) =~= letters(t, dots));
                text_lemmas::lemma_subsequence_skip(letters(a, dots), letters(b, dots), 1);
            }
        }
    }
}

/// Periods may be looked at only where no heading is met.
spec fn is_countable(line: Seq<char>, dots: bool) -> bool {
    dots ==> !block_laws::has_heading(line)
}

proof fn lemma_prose_letters(line: Seq<char>, dots: bool)
    requires
        is_countable(line, dots),
    ensures
        text_lemmas::is_subsequence(
            letters(glyphs::chars(spans::inlined(block::unprefixed(line))), dots),
            letters(line, dots),
        ),
{
    let u = block::unprefixed(line);
    block_laws::law_block_rules_only_remove(line);
    if dots {
        block_laws::law_lines_without_headings_only_lose(line);
    }
    if text_lemmas::is_subsequence(u, line) {
        lemma_letters_subsequence(u, line, dots);
    } else {
        let front = u.drop_last();
        lemma_letters_subsequence(front, line, dots);
        assert(front + seq!['.'] =~= u);
        lemma_letters_concat(front, seq!['.'], dots);
        lemma_letters_none('.', dots);
        assert(letters(front, dots) + Seq::<char>::empty() =~= letters(front, dots));
    }
    spans_laws::law_inline_rules_only_remove(u);
    let r = glyphs::chars(spans::inlined(u));
    lemma_letters_subsequence(r, u, dots);
    text_lemmas::lemma_subsequence_trans(letters(r, dots), letters(u, dots), letters(line, dots));
}

// ---- joining, splitting and tidying keep the letters ----
proof fn lemma_joined_letters(parts: Seq<Seq<char>>, sep: char, dots: bool)
    requires
        text::is_space(sep),
    ensures
        letters(text::joined(parts, seq![sep]), dots) == all_letters(parts, dots),
    decreases parts.len(),
{
    if parts.len() == 1 {
        lemma_all_letters_one(parts[0], dots);
        assert(parts =~= seq![parts[0]]);
    } else if parts.len() > 1 {
        let front = text::joined(parts.drop_last(), seq![sep]);
        lemma_joined_letters(parts.drop_last(), sep, dots);
        lemma_letters_concat(front, seq![sep], dots);
        lemma_letters_concat(front + seq![sep], parts.last(), dots);
        lemma_letters_none(sep, dots);
        assert(letters(front, dots) + Seq::<char>::empty() =~= letters(front, dots));
    }
}

proof fn lemma_words_letters(s: Seq<char>, dots: bool)
    ensures
        all_letters(text::words_of(s), dots) == letters(s, dots),
    decreases s.len(),
{
    if s.len() == 0 {
    } else if text::is_space(s[0]) {
        lemma_words_letters(s.drop_first(), dots);
    } else {
        text::lemma_word_len(s);
        let n = text::word_len(s) as int;
        let word = s.take(n);
        let rest = s.skip(n);
        lemma_words_letters(rest, dots);
        lemma_all_letters_concat(seq![word], text::words_of(rest), dots);
        lemma_all_letters_one(word, dots);
        lemma_letters_concat(word, rest, dots);
        assert(word + rest =~= s);
    }
}

proof fn lemma_collapsed_letters(line: Seq<char>, dots: bool)
    ensures
        letters(document::collapsed(line), dots) == letters(line, dots),
{
    lemma_words_letters(line, dots);
    lemma_joined_letters(text::words_of(line), ' ', dots);
}

proof fn lemma_lines_letters(s: Seq<char>, dots: bool)
    ensures
        all_letters(text::lines_of(s), dots) == letters(s, dots),
    decreases s.len(),
{
    if s.len() > 0 {
        text::lemma_index_of(s, '\n', 0);
        match text::index_of(s, '\n', 0) {
            None => lemma_all_letters_one(s, dots),
            Some(k) => {
                let raw = s.take(k);
                let first = text::without_cr(raw);
                let rest = s.skip(k + 1);
                lemma_lines_letters(rest, dots);
                lemma_all_letters_concat(seq![first], text::lines_of(rest), dots);
                lemma_all_letters_one(first, dots);
                if first != raw {
                    assert(first + seq!['\r'] =~= raw);
                    lemma_letters_concat(first, seq!['\r'], dots);
                    lemma_letters_none('\r', dots);
                    assert(letters(first, dots) + Seq::<char>::empty() =~= letters(first, dots));
                }
                lemma_letters_concat(raw, seq!['\n'], dots);
                lemma_letters_concat(raw + seq!['\n'], rest, dots);
                lemma_letters_none('\n', dots);
                assert(letters(raw, dots) + Seq::<char>::empty() =~= letters(raw, dots));
                assert(raw + seq!['\n'] + rest =~= s);
            },
        }
    }
}

proof fn lemma_spoken_letters(lines: Seq<Seq<char>>, n: int, dots: bool)
    requires
        0 <= n <= lines.len(),
    ensures
        all_letters(document::spoken_lines(lines, n), dots) == all_letters(lines.take(n), dots),
    decreases n,
{
    if n > 0 {
        lemma_spoken_letters(lines, n - 1, dots);
        let before = document::spoken_lines(lines, n - 1);
        let line = lines[n - 1];
        lemma_collapsed_letters(line, dots);
        assert(lines.take(n).drop_last() =~= lines.take(n - 1));
        if document::collapsed(line).len() == 0 {
            assert(letters(line, dots) =~= Seq::<char>::empty());
            assert(all_letters(lines.take(n - 1), dots) + letters(line, dots) =~= all_letters(
                lines.take(n - 1), dots,
            ));
        } else {
            assert(before.push(document::collapsed(line)).drop_last() =~= before);
        }
    } else {
        assert(lines.take(n) =~= Seq::<Seq<char>>::empty());
    }
}

/// The letters of a paragraph.
spec fn para_letters(para: Seq<Seq<Glyph>>, dots: bool) -> Seq<char> {
    all_letters(glyph_laws::written(para), dots)
}

proof fn lemma_finished_letters(para: Seq<Seq<Glyph>>, dots: bool)
    ensures
        text_lemmas::is_subsequence(
            all_letters(document::finished(para), dots),
            para_letters(para, dots),
        ),
{
    let raw = text::joined(glyph_laws::written(para), seq!['\n']);
    let c = glyphs::spelled(emphasis::unemphasized(text::joined(para, seq![document::newline()])));
    let lines = text::lines_of(c);
    lemma_joined_letters(glyph_laws::written(para), '\n', dots);
    document_laws::lemma_finished_only_removes(para);
    lemma_letters_subsequence(c, raw, dots);
    lemma_lines_letters(c, dots);
    lemma_spoken_letters(lines, lines.len() as int, dots);
    assert(lines.take(lines.len() as int) =~= lines);
}

proof fn lemma_ended_letters(d: document::Reading, dots: bool)
    ensures
        text_lemmas::is_subsequence(
            all_letters(document::paragraph_ended(d).out, dots) + para_letters(
                document::paragraph_ended(d).para,
                dots,
            ),
            all_letters(d.out, dots) + para_letters(d.para, dots),
        ),
{
    let e = document::paragraph_ended(d);
    if d.para.len() == 0 {
        text_lemmas::lemma_subsequence_refl(all_letters(d.out, dots) + para_letters(d.para, dots));
    } else {
        lemma_finished_letters(d.para, dots);
        lemma_all_letters_concat(d.out, document::finished(d.para), dots);
        text_lemmas::lemma_subsequence_refl(all_letters(d.out, dots));
        lemma_subsequence_concat(
            all_letters(d.out, dots),
            all_letters(d.out, dots),
            all_letters(document::finished(d.para), dots),
            para_letters(d.para, dots),
        );
        assert(all_letters(e.out, dots) + para_letters(e.para, dots) =~= all_letters(e.out, dots));
    }
}

proof fn lemma_read_letters(lines: Seq<Seq<char>>, dots: bool)
    requires
        forall|i: int| 0 <= i < lines.len() ==> is_countable(#[trigger] lines[i], dots),
    ensures
        ({
            let d = document::read_lines(document::unread(), lines);
            text_lemmas::is_subsequence(
                all_letters(d.out, dots) + para_letters(d.para, dots),
                all_letters(lines, dots),
            )
        }),
    decreases lines.len(),
{
    if lines.len() > 0 {
        let front = lines.drop_last();
        let line = lines[lines.len() - 1];
        assert forall|i: int| 0 <= i < front.len() implies is_countable(
            #[trigger] front[i],
            dots,
        ) by {
            assert(front[i] == lines[i]);
        }
        lemma_read_letters(front, dots);
        let d = document::read_lines(document::unread(), front);
        let e = document::read_lines(document::unread(), lines);
        let had = all_letters(d.out, dots) + para_letters(d.para, dots);
        let has = all_letters(e.out, dots) + para_letters(e.para, dots);
        let seen = all_letters(front, dots);
        lemma_ended_letters(d, dots);
        text_lemmas::lemma_subsequence_refl(had);
        let prose = spans::inlined(block::unprefixed(line));
        let said = glyphs::chars(prose);
        if e.para == d.para.push(prose) && e.out == d.out {
            lemma_prose_letters(line, dots);
            assert(is_countable(line, dots));
            let raw = glyph_laws::written(e.para);
            assert(raw.drop_last() =~= glyph_laws::written(d.para));
            assert(raw.last() == said);
            lemma_subsequence_concat(had, seen, letters(said, dots), letters(line, dots));
            assert(has =~= had + letters(said, dots));
        } else {
            assert(text_lemmas::is_subsequence(has, had));
            text_lemmas::lemma_subsequence_trans(has, had, seen);
            lemma_subsequence_concat(has, seen, Seq::empty(), letters(line, dots));
            assert(has + Seq::<char>::empty() =~= has);
        }
    }
}

proof fn lemma_only_removes(s: Seq<char>, dots: bool)
    requires
        forall|i: int|
            0 <= i < text::lines_of(s).len() ==> is_countable(
                #[trigger] text::lines_of(s)[i],
                dots,
            ),
    ensures
        text_lemmas::is_subsequence(letters(document::stripped(s), dots), letters(s, dots)),
{
    let lines = text::lines_of(s);
    let d = document::read_lines(document::unread(), lines);
    let e = document::paragraph_ended(d);
    lemma_read_letters(lines, dots);
    lemma_ended_letters(d, dots);
    text_lemmas::lemma_subsequence_trans(
        all_letters(e.out, dots) + para_letters(e.para, dots),
        all_letters(d.out, dots) + para_letters(d.para, dots),
        all_letters(lines, dots),
    );
    assert(e.para.len() == 0);
    assert(all_letters(e.out, dots) + para_letters(e.para, dots) =~= all_letters(e.out, dots));
    lemma_lines_letters(s, dots);
    lemma_joined_letters(e.out, '\n', dots);
}

/// Nothing is made up: apart from whitespace and the periods of headings, the text that comes
/// out is the text that went in with some of its characters removed, in the same order.
pub proof fn law_stripping_only_removes(s: Seq<char>)
    ensures
        text_lemmas::is_subsequence(letters(document::stripped(s), false), letters(s, false)),
{
    lemma_only_removes(s, false);
}

/// Where there is no heading, not even a period is made up: apart from whitespace, the text
/// that comes out is the text that went in with some of its characters removed.
pub proof fn law_without_headings_no_period_is_added(s: Seq<char>)
    requires
        forall|i: int|
            0 <= i < text::lines_of(s).len() ==> !block_laws::has_heading(
                #[trigger] text::lines_of(s)[i],
            ),
    ensures
        text_lemmas::is_subsequence(letters(document::stripped(s), true), letters(s, true)),
{
    lemma_only_removes(s, true);
}

} // verus!

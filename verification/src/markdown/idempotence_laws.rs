//! When stripping a second time changes nothing.

use crate::markdown::block;
use crate::markdown::block_laws;
use crate::markdown::document;
use crate::markdown::document_laws;
use crate::markdown::emphasis;
use crate::markdown::emphasis_laws;
use crate::markdown::glyph_laws;
use crate::markdown::glyphs::Glyph;
use crate::markdown::glyphs;
use crate::markdown::spans;
use crate::markdown::spans_laws;
use crate::text;
use crate::text_lemmas;
use vstd::prelude::*;

verus! {

/// How many characters the lines take, with one more for the end of each.
spec fn weight<T>(lines: Seq<Seq<T>>) -> nat
    decreases lines.len(),
{
    if lines.len() == 0 {
        0
    } else {
        weight(lines.drop_last()) + lines.last().len() + 1
    }
}

proof fn lemma_weight_concat<T>(a: Seq<Seq<T>>, b: Seq<Seq<T>>)
    ensures
        weight(a + b) == weight(a) + weight(b),
    decreases b.len(),
{
    if b.len() == 0 {
        assert(a + b =~= a);
    } else {
        lemma_weight_concat(a, b.drop_last());
        assert((a + b).drop_last() =~= a + b.drop_last());
        assert((a + b).last() == b.last());
    }
}

proof fn lemma_weight_one<T>(line: Seq<T>)
    ensures
        weight(seq![line]) == line.len() + 1,
{
    assert(seq![line].drop_last() =~= Seq::<Seq<T>>::empty());
    assert(weight(Seq::<Seq<T>>::empty()) == 0);
}

proof fn lemma_weight_joined<T>(parts: Seq<Seq<T>>, sep: T)
    requires
        parts.len() > 0,
    ensures
        text::joined(parts, seq![sep]).len() + 1 == weight(parts),
    decreases parts.len(),
{
    if parts.len() == 1 {
        lemma_weight_one(parts[0]);
        assert(parts =~= seq![parts[0]]);
    } else {
        lemma_weight_joined(parts.drop_last(), sep);
    }
}

proof fn lemma_weight_lines(s: Seq<char>)
    ensures
        weight(text::lines_of(s)) <= s.len() + 1,
    decreases s.len(),
{
    if s.len() > 0 {
        text::lemma_index_of(s, '\n', 0);
        match text::index_of(s, '\n', 0) {
            None => lemma_weight_one(s),
            Some(k) => {
                let first = text::without_cr(s.take(k));
                let rest = s.skip(k + 1);
                lemma_weight_lines(rest);
                lemma_weight_concat(seq![first], text::lines_of(rest));
                lemma_weight_one(first);
            },
        }
    }
}

proof fn lemma_collapsed_len(s: Seq<char>)
    ensures
        document::collapsed(s).len() <= s.len(),
    decreases s.len(),
{
    if s.len() == 0 {
    } else if text::is_space(s[0]) {
        lemma_collapsed_len(s.drop_first());
    } else {
        text::lemma_word_len(s);
        let n = text::word_len(s) as int;
        let word = s.take(n);
        let words = text::words_of(s);
        let more = text::words_of(s.skip(n));
        assert(words == seq![word] + more);
        if more.len() > 0 {
            assert(n < s.len());
            assert(s.skip(n).drop_first() =~= s.skip(n + 1));
            lemma_collapsed_len(s.skip(n + 1));
            text_lemmas::lemma_joined_front(words, seq![' ']);
            assert(words.drop_first() =~= more);
        } else {
            assert(words =~= seq![word]);
        }
    }
}

proof fn lemma_weight_spoken(lines: Seq<Seq<char>>, n: int)
    requires
        0 <= n <= lines.len(),
    ensures
        weight(document::spoken_lines(lines, n)) <= weight(lines.take(n)),
    decreases n,
{
    if n > 0 {
        lemma_weight_spoken(lines, n - 1);
        lemma_collapsed_len(lines[n - 1]);
        let before = document::spoken_lines(lines, n - 1);
        assert(lines.take(n).drop_last() =~= lines.take(n - 1));
        assert(before.push(document::collapsed(lines[n - 1])).drop_last() =~= before);
    }
}

proof fn lemma_finished_weight(para: Seq<Seq<Glyph>>)
    requires
        para.len() > 0,
    ensures
        weight(document::finished(para)) <= weight(para),
        weight(document::finished(para)) == weight(para) ==> {
            let all = text::joined(para, seq![document::newline()]);
            emphasis::unemphasized(all) == all && glyph_laws::has_no_escape(all)
        },
{
    let a = text::joined(para, seq![document::newline()]);
    let b = emphasis::unemphasized(a);
    let c = glyphs::spelled(b);
    let lines = text::lines_of(c);
    lemma_weight_joined(para, document::newline());
    glyph_laws::lemma_chars_without(
        a,
        |k: int| emphasis::is_markup(glyphs::seen(a), k),
        a.len() as int,
    );
    assert(a.take(a.len() as int) =~= a);
    glyph_laws::lemma_spelled_len(b);
    lemma_weight_lines(c);
    lemma_weight_spoken(lines, lines.len() as int);
    assert(lines.take(lines.len() as int) =~= lines);
}

proof fn lemma_unprefixed_len(line: Seq<char>)
    ensures
        block::unprefixed(line).len() <= line.len(),
        block::unprefixed(line).len() == line.len() ==> block::unprefixed(line) == line,
    decreases line.len(),
{
    block_laws::lemma_advanced(line);
    let s = block::advanced(line);
    if s.len() < line.len() {
        lemma_unprefixed_len(s);
    }
}

/// The line rules make a line shorter, or leave it alone.
proof fn lemma_prose_len(line: Seq<char>)
    ensures
        spans::inlined(block::unprefixed(line)).len() <= line.len(),
        spans::inlined(block::unprefixed(line)).len() == line.len() ==> block::unprefixed(line)
            == line && spans::inlined(line) == glyphs::marked(line),
{
    lemma_unprefixed_len(line);
    spans_laws::lemma_inlined_len(block::unprefixed(line));
}

proof fn lemma_ended_weight(d: document::Reading)
    ensures
        weight(document::paragraph_ended(d).out) + weight(document::paragraph_ended(d).para)
            <= weight(d.out) + weight(d.para),
{
    if d.para.len() > 0 {
        lemma_finished_weight(d.para);
        lemma_weight_concat(d.out, document::finished(d.para));
        assert(weight(Seq::<Seq<Glyph>>::empty()) == 0);
    }
}

/// A line that neither the block rules nor the inline rules change.
spec fn is_still(line: Seq<char>) -> bool {
    &&& document::opens_fence(line) is None
    &&& !document::is_dropped(line)
    &&& block::unprefixed(line) == line
    &&& spans::inlined(line) == glyphs::marked(line)
}

/// Every line with its escapes found.
spec fn all_marked(lines: Seq<Seq<char>>) -> Seq<Seq<Glyph>> {
    Seq::new(lines.len(), |i: int| glyphs::marked(lines[i]))
}

proof fn lemma_weight_marked(lines: Seq<Seq<char>>)
    ensures
        weight(all_marked(lines)) == weight(lines),
    decreases lines.len(),
{
    if lines.len() > 0 {
        lemma_weight_marked(lines.drop_last());
        assert(all_marked(lines).drop_last() =~= all_marked(lines.drop_last()));
        assert(all_marked(lines).last() == glyphs::marked(lines.last()));
    }
}

/// No line so far was changed.
spec fn is_untouched(d: document::Reading, lines: Seq<Seq<char>>) -> bool {
    &&& d == (document::Reading { para: all_marked(lines), ..document::unread() })
    &&& forall|i: int| 0 <= i < lines.len() ==> is_still(#[trigger] lines[i])
}

proof fn lemma_read_weight(lines: Seq<Seq<char>>)
    requires
        forall|i: int| 0 <= i < lines.len() ==> text_lemmas::is_tight(#[trigger] lines[i]),
    ensures
        ({
            let d = document::read_lines(document::unread(), lines);
            ||| is_untouched(d, lines)
            ||| weight(d.out) + weight(d.para) < weight(lines)
        }),
    decreases lines.len(),
{
    if lines.len() == 0 {
        assert(all_marked(lines) =~= Seq::<Seq<Glyph>>::empty());
        assert(is_untouched(document::unread(), lines));
    } else {
        let front = lines.drop_last();
        let line = lines[lines.len() - 1];
        assert forall|i: int| 0 <= i < front.len() implies text_lemmas::is_tight(
            #[trigger] front[i],
        ) by {
            assert(front[i] == lines[i]);
        }
        assert(text_lemmas::is_tight(line));
        lemma_read_weight(front);
        let d = document::read_lines(document::unread(), front);
        let e = document::read_lines(document::unread(), lines);
        let prose = spans::inlined(block::unprefixed(line));
        text_lemmas::lemma_trimmed(line);
        lemma_ended_weight(d);
        lemma_prose_len(line);
        assert(d.para.push(prose).drop_last() =~= d.para);
        if is_untouched(d, front) {
            lemma_weight_marked(front);
            assert(weight(d.out) + weight(d.para) == weight(front)) by {
                assert(weight(Seq::<Seq<char>>::empty()) == 0);
            }
            if is_still(line) {
                assert(all_marked(front).push(glyphs::marked(line)) =~= all_marked(lines));
                assert forall|i: int| 0 <= i < lines.len() implies is_still(
                    #[trigger] lines[i],
                ) by {
                    if i < front.len() {
                        assert(lines[i] == front[i]);
                    }
                }
                assert(is_untouched(e, lines));
            }
        }
    }
}

/// Running the pass twice does not keep eating characters, except where the first pass laid
/// bare something that reads as markup by itself: a second pass changes nothing exactly if the
/// text that came out of the first one is clean.
pub proof fn law_stripping_twice_changes_only_unclean_text(s: Seq<char>)
    ensures
        document::stripped(document::stripped(s)) == document::stripped(s)
            <==> document_laws::is_clean(document::stripped(s)),
{
    let out = document::stripped(s);
    let lines = text::lines_of(out);
    if document_laws::is_clean(out) {
        document_laws::law_clean_text_is_left_alone(s);
    }
    if document::stripped(out) == out {
        document_laws::law_lines_survive(s);
        document_laws::law_lines_survive(out);
        document_laws::law_spoken_lines_are_tidy(text::lines_of(s));
        assert(lines == document::stripped_lines(text::lines_of(s)));
        assert forall|i: int| 0 <= i < lines.len() implies text_lemmas::is_tight(
            #[trigger] lines[i],
        ) by {
            assert(document_laws::is_tidy(lines[i]));
        }
        lemma_read_weight(lines);
        let d = document::read_lines(document::unread(), lines);
        lemma_ended_weight(d);
        assert(document::paragraph_ended(d).out == lines);
        assert(is_untouched(d, lines));
        assert(text::joined(lines, seq!['\n']) == out);
        let para = all_marked(lines);
        if lines.len() > 0 {
            lemma_weight_marked(lines);
            lemma_finished_weight(para);
            assert(Seq::<Seq<char>>::empty() + document::finished(para) =~= document::finished(
                para,
            ));
            glyph_laws::lemma_joined_has_no_escape(para);
            assert forall|i: int| 0 <= i < lines.len() implies document_laws::is_inert(
                #[trigger] lines[i],
            ) by {
                assert(is_still(lines[i]));
                assert(glyph_laws::has_no_escape(para[i]));
                glyph_laws::lemma_no_escape(lines[i]);
            }
            assert(para =~= glyph_laws::all_plain(lines)) by {
                assert forall|i: int| 0 <= i < lines.len() implies #[trigger] para[i]
                    == glyph_laws::all_plain(lines)[i] by {
                    assert(is_still(lines[i]) && document_laws::is_inert(lines[i]));
                }
            }
            glyph_laws::lemma_plain_joined(lines);
        } else {
            assert(out =~= Seq::<char>::empty());
            emphasis_laws::law_text_without_markers_is_kept(glyphs::plain(out));
        }
    }
}

// ---- lines with nothing but block markers ----
/// A line that is silent, or of which nothing behind its block markers is markup.
pub open spec fn is_bare(fence: Option<document::Fence>, line: Seq<char>) -> bool {
    let prose = block::unprefixed(line);
    document_laws::is_silent(fence, line) || (document_laws::has_no_mark(prose)
        && spans_laws::lacks(prose, '\\'))
}

/// Tidying up a line without block markers makes none.
proof fn lemma_collapsed_settled(u: Seq<char>)
    requires
        block::advanced(u) == u,
        spans_laws::lacks(u, '['),
    ensures
        block::advanced(document::collapsed(u)) == document::collapsed(u),
{
    let o = document::collapsed(u);
    if u.len() == 0 {
        assert(o =~= u);
    } else {
        block_laws::lemma_advanced_parts(u);
        document_laws::lemma_collapsed_front(u);
        let n = text::word_len(u) as int;
        assert(o[0] == u[0]);
        assert(text::trimmed_start(o) == o);
        assert(block::unquoted(o) == o);
        text::lemma_run_len(o, 0, '#');
        let h = text::run_len(o, 0, '#') as int;
        if block::is_heading(o) {
            if h < n {
                assert(!text::is_space(o[h]));
            } else if h > n {
                assert(o[n] == '#');
            }
            lemma_same_run(o, u, n, '#');
        }
        text::lemma_run_len(o, 0, o[0]);
        let r = text::run_len(o, 0, o[0]) as int;
        if block::is_bullet(o) {
            if r < n {
                assert(!text::is_space(o[r]));
            } else if r > n {
                assert(o[n] == o[0]);
            }
            lemma_same_run(o, u, n, o[0]);
        }
        assert(u[0] != '[');
    }
}

proof fn lemma_same_run(o: Seq<char>, u: Seq<char>, n: int, c: char)
    requires
        0 < n <= u.len(),
        n <= o.len(),
        text::run_len(o, 0, c) == n,
        forall|j: int| 0 <= j < n ==> #[trigger] o[j] == u[j] && !text::is_space(o[j]),
        n < u.len() ==> text::is_space(u[n]),
    ensures
        text::run_len(u, 0, c) == n,
{
    text::lemma_run_len(o, 0, c);
    assert(o[0] == c);
    assert(!text::is_space(c));
    assert forall|j: int| 0 <= j < n implies #[trigger] u[j] == c by {
        assert(o[j] == u[j]);
    }
    text::lemma_run_len_is(u, 0, c, n as nat);
}

/// A line that no rule touches any more.
spec fn is_quiet(o: Seq<char>) -> bool {
    document_laws::is_inert(o) && emphasis_laws::has_no_marker(o)
}

proof fn lemma_bare_line(fence: Option<document::Fence>, line: Seq<char>)
    requires
        is_bare(fence, line),
    ensures
        document_laws::is_calm(fence, line),
        document::collapsed(document_laws::heard(fence, line)).len() > 0 ==> is_quiet(
            document::collapsed(document_laws::heard(fence, line)),
        ),
{
    let u = block::unprefixed(line);
    let o = document::collapsed(u);
    document_laws::lemma_collapsed(Seq::empty());
    if !document_laws::is_silent(fence, line) {
        document_laws::lemma_no_backslash(u);
        glyph_laws::lemma_plain(u);
        document_laws::lemma_unmarked(glyphs::plain(u));
        assert(document_laws::heard(fence, line) == u);
        let bad = |c: char|
            emphasis::is_marker(c) || c == '`' || c == '[' || c == '<' || c == '\\';
        assert forall|i: int| 0 <= i < u.len() implies !bad(#[trigger] u[i]) by {}
        document_laws::lemma_collapsed_lacks(u, bad);
        assert forall|i: int| 0 <= i < o.len() implies !emphasis::is_marker(#[trigger] o[i])
            && o[i] != '`' && o[i] != '[' && o[i] != '<' && o[i] != '\\' by {
            assert(!bad(o[i]));
        }
        if o.len() > 0 {
            document_laws::lemma_collapsed(u);
            text_lemmas::lemma_trimmed(o);
            assert(text::trimmed(o) == o);
            block_laws::law_no_block_marker_is_left(line);
            lemma_collapsed_settled(u);
            assert(block::unprefixed(o) == o);
            assert(document::bared(o) == o);
            document_laws::lemma_no_backslash(o);
            glyph_laws::lemma_plain(o);
            document_laws::lemma_unmarked(glyphs::plain(o));
            assert(block::fence_of(o) is None);
            assert(document::opens_fence(o) is None);
            assert(!document::is_dropped(o));
        }
    }
}

proof fn lemma_spoken_quiet(lines: Seq<Seq<char>>, n: int)
    requires
        0 <= n <= lines.len(),
        forall|i: int|
            0 <= i < lines.len() && document::collapsed(#[trigger] lines[i]).len() > 0 ==> is_quiet(
                document::collapsed(lines[i]),
            ),
    ensures
        forall|k: int|
            0 <= k < document::spoken_lines(lines, n).len() ==> is_quiet(
                #[trigger] document::spoken_lines(lines, n)[k],
            ),
    decreases n,
{
    if n > 0 {
        lemma_spoken_quiet(lines, n - 1);
        let before = document::spoken_lines(lines, n - 1);
        let after = document::spoken_lines(lines, n);
        assert forall|k: int| 0 <= k < after.len() implies is_quiet(#[trigger] after[k]) by {
            if k < before.len() {
                assert(after[k] == before[k]);
            } else {
                assert(after[k] == document::collapsed(lines[n - 1]));
            }
        }
    }
}

/// Block markers are gone after one pass, and so is all that they were written before: where
/// nothing else is markup, stripping a second time changes nothing.
pub proof fn law_block_markers_go_in_one_pass(s: Seq<char>)
    requires
        forall|i: int|
            0 <= i < text::lines_of(s).len() ==> is_bare(
                document_laws::fence_before(text::lines_of(s), i),
                #[trigger] text::lines_of(s)[i],
            ),
    ensures
        document::stripped(document::stripped(s)) == document::stripped(s),
{
    let lines = text::lines_of(s);
    let out = document::stripped(s);
    document_laws::lemma_lines_are_counted(s);
    let said = document_laws::all_heard(lines);
    assert forall|i: int| 0 <= i < lines.len() implies text_lemmas::is_line(#[trigger] lines[i])
        && document_laws::is_calm(document_laws::fence_before(lines, i), lines[i]) by {
        lemma_bare_line(document_laws::fence_before(lines, i), lines[i]);
    }
    assert forall|i: int| 0 <= i < said.len() && document::collapsed(
        #[trigger] said[i],
    ).len() > 0 implies is_quiet(document::collapsed(said[i])) by {
        lemma_bare_line(document_laws::fence_before(lines, i), lines[i]);
    }
    document_laws::law_lines_without_emphasis_stand_alone(lines);
    lemma_spoken_quiet(said, said.len() as int);
    let kept = document::stripped_lines(lines);
    document_laws::law_lines_survive(s);
    assert(text::lines_of(out) == kept);
    let para = glyph_laws::all_plain(kept);
    let bad = |c: char| emphasis::is_marker(c);
    assert forall|i: int, k: int| 0 <= i < para.len() && 0 <= k < para[i].len() implies !bad(
        #[trigger] glyphs::seen(para[i])[k],
    ) by {
        assert(is_quiet(kept[i]));
        glyph_laws::lemma_plain(kept[i]);
    }
    glyph_laws::lemma_joined_sees_no(para, bad);
    glyph_laws::lemma_plain_joined(kept);
    let g = glyphs::plain(out);
    assert forall|k: int| 0 <= k < glyphs::seen(g).len() implies !emphasis::is_marker(
        #[trigger] glyphs::seen(g)[k],
    ) by {
        assert(!bad(glyphs::seen(g)[k]));
    }
    emphasis_laws::law_text_without_markers_is_kept(g);
    assert(document_laws::is_clean(out)) by {
        assert forall|i: int| 0 <= i < text::lines_of(out).len() implies document_laws::is_inert(
            #[trigger] text::lines_of(out)[i],
        ) by {
            assert(is_quiet(kept[i]));
        }
    }
    document_laws::law_clean_text_is_left_alone(s);
}

} // verus!

//! What is heard of a line with markup in it, said by how it is written.

use crate::markdown::block;
use crate::markdown::block_laws;
use crate::markdown::document;
use crate::markdown::document_laws;
use crate::markdown::emphasis;
use crate::markdown::emphasis_laws;
use crate::markdown::glyph_laws;
use crate::markdown::glyphs::Glyph;
use crate::markdown::glyphs;
use crate::markdown::line_laws;
use crate::markdown::spans;
use crate::markdown::spans_laws;
use crate::text;
use crate::text_lemmas;
use vstd::prelude::*;

verus! {

/// A piece of one line without a character that inline markup is written with.
pub open spec fn is_words(x: Seq<char>) -> bool {
    forall|i: int|
        0 <= i < x.len() ==> #[trigger] x[i] != '*' && x[i] != '_' && x[i] != '~' && x[i] != '`'
            && x[i] != '[' && x[i] != '<' && x[i] != '\\' && x[i] != '\n'
}

/// Words that a line can start with: what they start with is no block marker either.
pub open spec fn is_opening(x: Seq<char>) -> bool {
    &&& is_words(x)
    &&& x.len() > 0
    &&& !text::is_space(x[0])
    &&& x[0] != '>' && x[0] != '#' && x[0] != '-' && x[0] != '+' && x[0] != '|' && x[0] != '='
}

/// Neither a backslash nor a line feed is in `x`.
pub open spec fn is_unescaped(x: Seq<char>) -> bool {
    forall|i: int| 0 <= i < x.len() ==> #[trigger] x[i] != '\\' && x[i] != '\n'
}

proof fn lemma_plain_concat(a: Seq<char>, b: Seq<char>)
    ensures
        glyphs::plain(a + b) == glyphs::plain(a) + glyphs::plain(b),
{
    assert(glyphs::plain(a + b) =~= glyphs::plain(a) + glyphs::plain(b));
}

/// Nothing is seen in plain text but its characters.
proof fn lemma_plain_views(x: Seq<char>)
    ensures
        glyphs::seen(glyphs::plain(x)) == x,
        glyphs::inside(glyphs::plain(x)) == x,
{
    assert(glyphs::seen(glyphs::plain(x)) =~= x);
    assert(glyphs::inside(glyphs::plain(x)) =~= x);
}

/// Words are left alone by every inline rule.
proof fn lemma_words_stay(x: Seq<char>)
    requires
        is_words(x),
    ensures
        spans::imageless(glyphs::plain(x)) == glyphs::plain(x),
        spans::linkless(glyphs::plain(x)) == glyphs::plain(x),
        spans::tickless(glyphs::plain(x)) == glyphs::plain(x),
        spans::tagless(glyphs::plain(x)) == glyphs::plain(x),
        emphasis::unemphasized(glyphs::plain(x)) == glyphs::plain(x),
        glyphs::spelled(glyphs::plain(x)) == x,
        spans_laws::lacks(x, '['),
        spans_laws::lacks(x, '<'),
        spans_laws::lacks(x, '`'),
        emphasis_laws::has_no_marker(x),
        text_lemmas::is_line(x),
        is_unescaped(x),
{
    lemma_plain_views(x);
    glyph_laws::lemma_plain(x);
    spans_laws::law_unmarked_text_is_kept(glyphs::plain(x));
    emphasis_laws::law_text_without_markers_is_kept(glyphs::plain(x));
}

proof fn lemma_words_concat(a: Seq<char>, b: Seq<char>)
    requires
        is_words(a),
        is_words(b),
    ensures
        is_words(a + b),
{
    let s = a + b;
    assert forall|i: int| 0 <= i < s.len() implies #[trigger] s[i] != '*' && s[i] != '_' && s[i]
        != '~' && s[i] != '`' && s[i] != '[' && s[i] != '<' && s[i] != '\\' && s[i] != '\n' by {
        if i < a.len() {
            assert(s[i] == a[i]);
        } else {
            assert(s[i] == b[i - a.len()]);
        }
    }
}

proof fn lemma_unescaped_concat(a: Seq<char>, b: Seq<char>)
    requires
        is_unescaped(a),
        is_unescaped(b),
    ensures
        is_unescaped(a + b),
{
    let s = a + b;
    assert forall|i: int| 0 <= i < s.len() implies #[trigger] s[i] != '\\' && s[i] != '\n' by {
        if i < a.len() {
            assert(s[i] == a[i]);
        } else {
            assert(s[i] == b[i - a.len()]);
        }
    }
}

/// A text of one line without escapes that starts with words: what the inline rules and the
/// emphasis rules leave of it is spoken.
proof fn lemma_spoken_line(x: Seq<char>, rest: Seq<char>, g: Seq<Glyph>, s: Seq<char>)
    requires
        is_opening(x),
        is_unescaped(rest),
        spans::tagless(
            spans::tickless(spans::linkless(spans::imageless(glyphs::plain(x + rest)))),
        ) == g,
        glyphs::spelled(emphasis::unemphasized(g)) == s,
        text_lemmas::is_line(s),
        document_laws::is_tidy(s),
    ensures
        document::stripped(x + rest) == s,
{
    lemma_words_stay(x);
    lemma_unescaped_concat(x, rest);
    document_laws::lemma_no_backslash(x + rest);
    lemma_inlined_line(x, rest, g, s);
}

/// A text of one line that starts with words, of which the inline rules leave `g`.
proof fn lemma_inlined_line(x: Seq<char>, rest: Seq<char>, g: Seq<Glyph>, s: Seq<char>)
    requires
        is_opening(x),
        text_lemmas::is_line(rest),
        spans::inlined(x + rest) == g,
        glyphs::spelled(emphasis::unemphasized(g)) == s,
        text_lemmas::is_line(s),
        document_laws::is_tidy(s),
    ensures
        document::stripped(x + rest) == s,
{
    let line = x + rest;
    assert(line[0] == x[0]);
    assert(x[0] != '*' && x[0] != '[' && x[0] != '`' && x[0] != '~' && x[0] != '_');
    lemma_words_stay(x);
    assert forall|i: int| 0 <= i < line.len() implies #[trigger] line[i] != '\n' by {
        if i < x.len() {
            assert(line[i] == x[i]);
        } else {
            assert(line[i] == rest[i - x.len()]);
        }
    }
    text::lemma_index_of(line, '\n', 0);
    assert(text::lines_of(line) =~= seq![line]);
    block_laws::law_other_lines_are_kept(Seq::empty(), line);
    assert(Seq::<char>::empty() + line =~= line);
    line_laws::law_fewer_markers_fence_nothing(Seq::empty(), line);
    let t = text::trimmed(line);
    text_lemmas::lemma_trimmed_end(line);
    assert(text::trimmed_start(line) == line);
    if t.len() == 0 {
        assert(text::is_space(line.skip(0)[0]));
    }
    assert(t[0] == line[0]);
    line_laws::law_prose_is_no_structure(t, 0, 0);
    document_laws::lemma_collapsed_front(line);
    let o = document::bared(line);
    assert(o[0] == line[0]);
    line_laws::law_prose_is_no_structure(o, 0, 0);
    let lines = seq![line];
    assert(lines.drop_last() =~= Seq::<Seq<char>>::empty());
    let d = document::read_lines(document::unread(), lines);
    assert(document::read_lines(document::unread(), Seq::empty()) == document::unread());
    assert(d == document::read_line(document::unread(), line));
    assert(d.para =~= seq![g]);
    assert(text::joined(seq![g], seq![document::newline()]) == g);
    text::lemma_index_of(s, '\n', 0);
    assert(text::lines_of(s) =~= seq![s]);
    line_laws::lemma_tidy_lines_are_spoken(seq![s], 1);
    assert(seq![s].take(1) =~= seq![s]);
    assert(document::finished(seq![g]) =~= seq![s]);
    assert(document::stripped_lines(lines) =~= seq![s]);
    assert(text::joined(seq![s], seq!['\n']) == s);
}

/// A link is spoken as its text: `[label](target)` or `[label][target]` in the middle of words
/// leaves the label, whatever the target says.
pub proof fn law_links_are_spoken_as_their_text(
    x: Seq<char>,
    label: Seq<char>,
    o: char,
    target: Seq<char>,
    c: char,
    y: Seq<char>,
)
    requires
        is_opening(x),
        x.last() != '!',
        is_words(label),
        forall|i: int| 0 <= i < label.len() ==> #[trigger] label[i] != ']',
        (o == '(' && c == ')') || (o == '[' && c == ']'),
        is_unescaped(target),
        forall|i: int| 0 <= i < target.len() ==> #[trigger] target[i] != c && target[i] != '[',
        is_words(y),
        document_laws::is_tidy(x + label + y),
    ensures
        document::stripped(x + (seq!['['] + label + seq![']', o] + target + seq![c] + y)) == x
            + label + y,
{
    let head = seq!['['] + label + seq![']', o];
    let tail = target + seq![c];
    let rest = head + target + seq![c] + y;
    let s = x + rest;
    lemma_words_stay(x);
    lemma_words_stay(label);
    lemma_words_stay(y);
    assert(rest =~= head + tail + y);
    assert(is_unescaped(head)) by {
        assert forall|i: int| 0 <= i < head.len() implies #[trigger] head[i] != '\\' && head[i]
            != '\n' by {
            if 1 <= i <= label.len() {
                assert(head[i] == label[i - 1]);
            }
        }
    }
    lemma_unescaped_concat(target, seq![c]);
    lemma_unescaped_concat(head, tail);
    lemma_unescaped_concat(head + tail, y);
    let (gx, gh, gt, gy) = (
        glyphs::plain(x),
        glyphs::plain(head),
        glyphs::plain(tail),
        glyphs::plain(y),
    );
    assert(s =~= x + head + tail + y);
    lemma_plain_concat(x + head + tail, y);
    lemma_plain_concat(x + head, tail);
    lemma_plain_concat(x, head);
    let g = glyphs::plain(s);
    assert(g == gx + gh + gt + gy);
    lemma_plain_views(s);
    lemma_plain_views(x);
    lemma_plain_views(head);
    lemma_plain_views(tail);
    lemma_plain_views(y);
    assert forall|k: int| !#[trigger] spans_laws::opens_image(glyphs::seen(g), k) by {
        if 0 <= k && k + 1 < s.len() && s[k + 1] == '[' {
            let n = x.len() as int;
            let h = head.len() as int;
            let m = tail.len() as int;
            if k + 1 < n {
                assert(s[k + 1] == x[k + 1]);
            } else if k + 1 < n + h {
                assert(s[k + 1] == head[k + 1 - n]);
                if k + 1 == n {
                    assert(s[k] == x.last());
                } else {
                    assert(s[k] == head[k - n]);
                    if 1 <= k + 1 - n <= label.len() {
                        assert(head[k + 1 - n] == label[k - n]);
                    }
                }
            } else if k + 1 < n + h + m {
                assert(s[k + 1] == tail[k + 1 - n - h]);
                if k + 1 - n - h < target.len() {
                    assert(tail[k + 1 - n - h] == target[k + 1 - n - h]);
                }
            } else {
                assert(s[k + 1] == y[k + 1 - n - h - m]);
            }
        }
    }
    spans_laws::lemma_no_images(g);
    assert(tail.drop_last() =~= target);
    assert(spans_laws::is_link(gh, label, o, gt, c)) by {
        assert(spans_laws::lacks(label, ']'));
        spans_laws::lemma_lacks_is_balanced(label);
        assert(spans_laws::lacks(target, c));
    }
    spans_laws::law_links_keep_their_text(gx, gh, label, o, gt, c, gy);
    assert(gh.subrange(1, label.len() + 1int) =~= glyphs::plain(label));
    lemma_plain_concat(x, label);
    lemma_plain_concat(x + label, y);
    lemma_words_concat(x, label);
    lemma_words_concat(x + label, y);
    lemma_words_stay(x + label + y);
    lemma_spoken_line(x, rest, glyphs::plain(x + label + y), x + label + y);
}

/// An image is not spoken at all: `![alt](target)` or `![alt][target]` in the middle of words
/// leaves nothing.
pub proof fn law_images_are_not_spoken(
    x: Seq<char>,
    alt: Seq<char>,
    o: char,
    target: Seq<char>,
    c: char,
    y: Seq<char>,
)
    requires
        is_opening(x),
        is_unescaped(alt),
        forall|i: int| 0 <= i < alt.len() ==> #[trigger] alt[i] != '[' && alt[i] != ']',
        (o == '(' && c == ')') || (o == '[' && c == ']'),
        is_unescaped(target),
        forall|i: int| 0 <= i < target.len() ==> #[trigger] target[i] != c,
        is_words(y),
        document_laws::is_tidy(x + y),
    ensures
        document::stripped(x + (seq!['!', '['] + alt + seq![']', o] + target + seq![c] + y)) == x
            + y,
{
    let head = seq!['['] + alt + seq![']', o];
    let tail = target + seq![c];
    let rest = seq!['!', '['] + alt + seq![']', o] + target + seq![c] + y;
    let s = x + rest;
    lemma_words_stay(x);
    lemma_words_stay(y);
    assert(rest =~= seq!['!'] + head + tail + y);
    assert(is_unescaped(head)) by {
        assert forall|i: int| 0 <= i < head.len() implies #[trigger] head[i] != '\\' && head[i]
            != '\n' by {
            if 1 <= i <= alt.len() {
                assert(head[i] == alt[i - 1]);
            }
        }
    }
    lemma_unescaped_concat(seq!['!'], head);
    lemma_unescaped_concat(target, seq![c]);
    lemma_unescaped_concat(seq!['!'] + head, tail);
    lemma_unescaped_concat(seq!['!'] + head + tail, y);
    let (gx, gh, gt, gy) = (
        glyphs::plain(x),
        glyphs::plain(head),
        glyphs::plain(tail),
        glyphs::plain(y),
    );
    assert(s =~= x + seq!['!'] + head + tail + y);
    lemma_plain_concat(x + seq!['!'] + head + tail, y);
    lemma_plain_concat(x + seq!['!'] + head, tail);
    lemma_plain_concat(x + seq!['!'], head);
    lemma_plain_concat(x, seq!['!']);
    lemma_plain_views(x);
    lemma_plain_views(head);
    lemma_plain_views(tail);
    lemma_plain_views(y);
    assert forall|k: int| !#[trigger] spans_laws::opens_image(glyphs::seen(gx), k) by {
        if 0 <= k && k + 1 < x.len() {
            assert(x[k + 1] != '[');
        }
    }
    assert(tail.drop_last() =~= target);
    assert(spans_laws::is_link(gh, alt, o, gt, c)) by {
        assert(spans_laws::lacks(alt, '['));
        assert(spans_laws::lacks(alt, ']'));
        spans_laws::lemma_lacks_is_balanced(alt);
        assert(spans_laws::lacks(target, c));
    }
    spans_laws::law_images_vanish(gx, gh, alt, o, gt, c, gy);
    lemma_plain_concat(x, y);
    lemma_words_concat(x, y);
    lemma_words_stay(x + y);
    lemma_spoken_line(x, rest, glyphs::plain(x + y), x + y);
}

proof fn lemma_angle_line(x: Seq<char>, inner: Seq<char>, y: Seq<char>)
    requires
        is_opening(x),
        is_unescaped(inner),
        forall|i: int| 0 <= i < inner.len() ==> #[trigger] inner[i] != '>' && inner[i] != '[',
        is_words(y),
    ensures
        ({
            let angle = seq!['<'] + inner + seq!['>'];
            let g = glyphs::plain(x) + glyphs::plain(angle) + glyphs::plain(y);
            &&& is_unescaped(angle + y)
            &&& glyphs::plain(x + (angle + y)) == g
            &&& spans_laws::is_angle(glyphs::plain(angle), inner)
            &&& spans::imageless(g) == g
        }),
{
    let angle = seq!['<'] + inner + seq!['>'];
    let s = x + angle + y;
    lemma_words_stay(x);
    lemma_words_stay(y);
    assert forall|i: int| 0 <= i < angle.len() implies #[trigger] angle[i] != '\\' && angle[i]
        != '\n' && angle[i] != '[' by {
        if 1 <= i <= inner.len() {
            assert(angle[i] == inner[i - 1]);
        }
    }
    lemma_unescaped_concat(angle, y);
    assert(x + (angle + y) =~= s);
    lemma_plain_concat(x + angle, y);
    lemma_plain_concat(x, angle);
    lemma_plain_views(angle);
    lemma_plain_views(s);
    assert(spans_laws::lacks(inner, '>'));
    let g = glyphs::plain(s);
    assert(spans_laws::lacks(glyphs::seen(g), '[')) by {
        assert forall|i: int| 0 <= i < s.len() implies #[trigger] s[i] != '[' by {
            if i < x.len() {
                assert(s[i] == x[i]);
            } else if i < x.len() + angle.len() {
                assert(s[i] == angle[i - x.len()]);
            } else {
                assert(s[i] == y[i - x.len() - angle.len()]);
            }
        }
    }
    spans_laws::law_unmarked_text_is_kept(g);
}

/// An address in angle brackets is not spoken: one that starts with `http://` or `https://`, or
/// one with an `@` and without a space.
pub proof fn law_addresses_are_not_spoken(x: Seq<char>, address: Seq<char>, y: Seq<char>)
    requires
        is_opening(x),
        is_unescaped(address),
        forall|i: int| 0 <= i < address.len() ==> #[trigger] address[i] != '>' && address[i] != '[',
        "http://"@.is_prefix_of(address) || "https://"@.is_prefix_of(address) || (address.contains(
            '@',
        ) && !address.contains(' ')),
        is_words(y),
        document_laws::is_tidy(x + y),
    ensures
        document::stripped(x + (seq!['<'] + address + seq!['>'] + y)) == x + y,
{
    let angle = seq!['<'] + address + seq!['>'];
    lemma_angle_line(x, address, y);
    lemma_words_stay(x);
    lemma_words_stay(y);
    lemma_plain_views(x);
    spans_laws::law_autolinks_vanish(
        glyphs::plain(x),
        glyphs::plain(angle),
        address,
        glyphs::plain(y),
    );
    lemma_plain_concat(x, y);
    lemma_words_concat(x, y);
    lemma_words_stay(x + y);
    lemma_spoken_line(x, angle + y, glyphs::plain(x + y), x + y);
}

/// A tag is not spoken, and angle brackets around what is no tag and no address are.
pub proof fn law_tags_are_not_spoken(x: Seq<char>, inner: Seq<char>, y: Seq<char>)
    requires
        is_opening(x),
        is_words(inner),
        forall|i: int| 0 <= i < inner.len() ==> #[trigger] inner[i] != '>',
        inner.len() > 0,
        inner[0] != '!',
        !"http://"@.is_prefix_of(inner),
        !"https://"@.is_prefix_of(inner),
        inner.contains(' ') || !inner.contains('@'),
        is_words(y),
        document_laws::is_tidy(x + y),
        document_laws::is_tidy(x + (seq!['<'] + inner + seq!['>'] + y)),
    ensures
        spans::is_html(inner) ==> document::stripped(x + (seq!['<'] + inner + seq!['>'] + y)) == x
            + y,
        !spans::is_html(inner) ==> document::stripped(x + (seq!['<'] + inner + seq!['>'] + y)) == x
            + (seq!['<'] + inner + seq!['>'] + y),
{
    let angle = seq!['<'] + inner + seq!['>'];
    let (gx, ga, gy) = (glyphs::plain(x), glyphs::plain(angle), glyphs::plain(y));
    let s = x + (angle + y);
    lemma_words_stay(x);
    lemma_words_stay(y);
    lemma_words_stay(inner);
    lemma_angle_line(x, inner, y);
    lemma_plain_views(x);
    lemma_plain_views(s);
    spans_laws::law_other_angles_are_no_autolinks(gx, ga, inner, gy);
    spans_laws::lemma_no_comment_start(inner);
    let g = gx + ga + gy;
    assert forall|i: int| 0 <= i < s.len() implies #[trigger] s[i] != '`' && s[i] != '*' && s[i]
        != '_' && s[i] != '~' && s[i] != '\n' by {
        if i < x.len() {
            assert(s[i] == x[i]);
        } else if i < x.len() + angle.len() {
            assert(s[i] == angle[i - x.len()]);
            if 1 <= i - x.len() <= inner.len() {
                assert(angle[i - x.len()] == inner[i - x.len() - 1]);
            }
        } else {
            assert(s[i] == y[i - x.len() - angle.len()]);
        }
    }
    assert(spans_laws::lacks(glyphs::seen(g), '`'));
    spans_laws::law_unmarked_text_is_kept(g);
    if spans::is_html(inner) {
        spans_laws::law_known_tags_vanish(gx, ga, inner, gy);
        lemma_plain_concat(x, y);
        lemma_words_concat(x, y);
        lemma_words_stay(x + y);
        lemma_spoken_line(x, angle + y, glyphs::plain(x + y), x + y);
    } else {
        spans_laws::law_other_angle_brackets_are_kept(gx, ga, inner, gy);
        emphasis_laws::law_text_without_markers_is_kept(g);
        glyph_laws::lemma_plain(s);
        lemma_spoken_line(x, angle + y, g, s);
    }
}

/// Emphasis is spoken without its markers: one or more `*` or `_`, or two `~`, on both sides of
/// words. For `_` they must stand at the edge of a word.
pub proof fn law_emphasis_is_spoken_without_markers(
    x: Seq<char>,
    m: char,
    n: nat,
    b: Seq<char>,
    y: Seq<char>,
)
    requires
        is_opening(x),
        m == '*' || m == '_' || m == '~',
        n >= 1,
        m == '~' ==> n == 2,
        is_words(b),
        text_lemmas::is_tight(b),
        is_words(y),
        m == '_' ==> !text::is_word_char(x.last()) && (y.len() > 0 ==> !text::is_word_char(y[0])),
        document_laws::is_tidy(x + b + y),
    ensures
        document::stripped(
            x + (emphasis_laws::marker_run(m, n) + b + emphasis_laws::marker_run(m, n) + y),
        ) == x + b + y,
{
    let run = emphasis_laws::marker_run(m, n);
    let rest = run + b + run + y;
    let s = x + rest;
    lemma_words_stay(x);
    lemma_words_stay(b);
    lemma_words_stay(y);
    assert(is_unescaped(run));
    lemma_unescaped_concat(run, b);
    lemma_unescaped_concat(run + b, run);
    lemma_unescaped_concat(run + b + run, y);
    assert(s =~= x + run + b + run + y);
    lemma_plain_concat(x + run + b + run, y);
    lemma_plain_concat(x + run + b, run);
    lemma_plain_concat(x + run, b);
    lemma_plain_concat(x, run);
    lemma_plain_views(s);
    lemma_plain_views(x);
    lemma_plain_views(b);
    lemma_plain_views(y);
    let g = glyphs::plain(s);
    assert forall|i: int| 0 <= i < s.len() implies #[trigger] s[i] != '`' && s[i] != '[' && s[i]
        != '<' by {
        let p = x.len() as int;
        let q = p + n;
        let r = q + b.len();
        if i < p {
            assert(s[i] == x[i]);
        } else if i < q {
            assert(s[i] == m);
        } else if i < r {
            assert(s[i] == b[i - q]);
        } else if i < r + n {
            assert(s[i] == m);
        } else {
            assert(s[i] == y[i - r - n]);
        }
    }
    assert(spans_laws::lacks(glyphs::seen(g), '`'));
    assert(spans_laws::lacks(glyphs::seen(g), '['));
    assert(spans_laws::lacks(glyphs::seen(g), '<'));
    spans_laws::law_unmarked_text_is_kept(g);
    if y.len() > 0 {
        assert(y[0] != '*' && y[0] != '_' && y[0] != '~');
    }
    emphasis_laws::law_emphasis_loses_its_markers(
        glyphs::plain(x),
        glyphs::plain(b),
        glyphs::plain(y),
        m,
        n,
    );
    lemma_plain_concat(x, b);
    lemma_plain_concat(x + b, y);
    lemma_words_concat(x, b);
    lemma_words_concat(x + b, y);
    lemma_words_stay(x + b + y);
    lemma_spoken_line(x, rest, g, x + b + y);
}

/// Inline code is spoken without its backticks, however many there are, and as it is written:
/// emphasis in it is none.
pub proof fn law_code_is_spoken_without_backticks(
    x: Seq<char>,
    n: nat,
    code: Seq<char>,
    y: Seq<char>,
)
    requires
        is_opening(x),
        n >= 1,
        is_unescaped(code),
        spans_laws::fits_between(code, n),
        forall|i: int| 0 <= i < code.len() ==> #[trigger] code[i] != '[' && code[i] != '<',
        is_words(y),
        document_laws::is_tidy(x + code + y),
    ensures
        document::stripped(x + (spans_laws::ticks(n) + code + spans_laws::ticks(n) + y)) == x + code
            + y,
{
    let run = spans_laws::ticks(n);
    let rest = run + code + run + y;
    let s = x + rest;
    lemma_words_stay(x);
    lemma_words_stay(y);
    assert(is_unescaped(run));
    lemma_unescaped_concat(run, code);
    lemma_unescaped_concat(run + code, run);
    lemma_unescaped_concat(run + code + run, y);
    assert(s =~= x + run + code + run + y);
    lemma_plain_concat(x + run + code + run, y);
    lemma_plain_concat(x + run + code, run);
    lemma_plain_concat(x + run, code);
    lemma_plain_concat(x, run);
    lemma_plain_views(s);
    lemma_plain_views(x);
    lemma_plain_views(code);
    lemma_plain_views(run);
    lemma_plain_views(y);
    let g = glyphs::plain(s);
    assert forall|i: int| 0 <= i < s.len() implies #[trigger] s[i] != '[' && s[i] != '<' by {
        let p = x.len() as int;
        let q = p + n;
        let r = q + code.len();
        if i < p {
            assert(s[i] == x[i]);
        } else if i < q {
            assert(s[i] == '`');
        } else if i < r {
            assert(s[i] == code[i - q]);
        } else if i < r + n {
            assert(s[i] == '`');
        } else {
            assert(s[i] == y[i - r - n]);
        }
    }
    assert(spans_laws::lacks(glyphs::seen(g), '['));
    assert(spans_laws::lacks(glyphs::seen(g), '<'));
    spans_laws::law_unmarked_text_is_kept(g);
    if y.len() > 0 {
        assert(y[0] != '`');
    }
    spans_laws::law_code_keeps_its_content(
        glyphs::plain(x),
        n,
        glyphs::plain(code),
        glyphs::plain(run),
        glyphs::plain(y),
    );
    let lit = glyphs::as_code(glyphs::plain(code));
    let h = glyphs::plain(x) + lit + glyphs::plain(y);
    document_laws::lemma_code_has_no_mark(code);
    let v = glyphs::seen(h);
    assert(v =~= x + glyphs::seen(lit) + y);
    assert forall|i: int| 0 <= i < v.len() implies #[trigger] v[i] != '<' && v[i] != '*' && v[i]
        != '_' && v[i] != '~' by {
        if i < x.len() {
            assert(v[i] == x[i]);
        } else if i < x.len() + lit.len() {
            assert(v[i] == glyphs::seen(lit)[i - x.len()]);
        } else {
            assert(v[i] == y[i - x.len() - lit.len()]);
        }
    }
    assert(spans_laws::lacks(v, '<'));
    spans_laws::law_unmarked_text_is_kept(h);
    emphasis_laws::law_text_without_markers_is_kept(h);
    glyph_laws::lemma_spelled_concat(glyphs::plain(x) + lit, glyphs::plain(y));
    glyph_laws::lemma_spelled_concat(glyphs::plain(x), lit);
    let out = x + code + y;
    assert forall|i: int| 0 <= i < out.len() implies #[trigger] out[i] != '\n' by {
        if i < x.len() {
            assert(out[i] == x[i]);
        } else if i < x.len() + code.len() {
            assert(out[i] == code[i - x.len()]);
        } else {
            assert(out[i] == y[i - x.len() - code.len()]);
        }
    }
    lemma_spoken_line(x, rest, h, out);
}

/// An escaped character is spoken as it is, without its backslash, and no rule finds markup in
/// it.
pub proof fn law_escaped_characters_are_spoken(x: Seq<char>, c: char, y: Seq<char>)
    requires
        is_opening(x),
        c == '*' || c == '_' || c == '`' || c == '[' || c == ']' || c == '#' || c == '~' || c == '('
            || c == ')' || c == '<' || c == '>' || c == '|' || c == '!' || c == '.',
        is_words(y),
        document_laws::is_tidy(x + seq![c] + y),
    ensures
        document::stripped(x + (seq!['\\', c] + y)) == x + seq![c] + y,
{
    let rest = seq!['\\', c] + y;
    let line = x + rest;
    let n = x.len() as int;
    let g = glyphs::marked(line);
    let v = glyphs::seen(g);
    lemma_words_stay(x);
    lemma_words_stay(y);
    document_laws::lemma_no_backslash(x);
    document_laws::lemma_no_backslash(y);
    assert(line =~= x + seq!['\\', c] + y);
    glyph_laws::law_escapes_yield_the_character(x, c, y);
    assert(line[n] == '\\' && line[n + 1] == c);
    assert(glyphs::is_escape(line, n));
    assert forall|k: int| 0 <= k < v.len() && k != n && k != n + 1 implies v[k] == line[k] by {
        assert(!glyphs::is_escape(line, k)) by {
            if k < n {
                assert(line[k] == x[k]);
            } else {
                assert(line[k] == y[k - n - 2]);
            }
        }
        assert(!glyphs::is_escape(line, k - 1)) by {
            if 0 < k <= n {
                assert(line[k - 1] == x[k - 1]);
            } else if k > n + 2 {
                assert(line[k - 1] == y[k - 1 - n - 2]);
            }
        }
    }
    assert(!glyphs::is_escape(line, n + 1));
    assert(v[n] == '%');
    assert(v[n + 1] == glyphs::masked(c));
    assert forall|k: int| 0 <= k < v.len() implies #[trigger] v[k] != '*' && v[k] != '_' && v[k]
        != '~' && v[k] != '`' && v[k] != '[' && v[k] != '<' by {
        if k < n {
            assert(v[k] == line[k] && line[k] == x[k]);
        } else if k > n + 1 {
            assert(v[k] == line[k] && line[k] == y[k - n - 2]);
        }
    }
    assert(document_laws::has_no_mark(v));
    document_laws::lemma_unmarked(g);
    emphasis_laws::law_text_without_markers_is_kept(g);
    let out = x + seq![c] + y;
    assert forall|i: int| 0 <= i < out.len() implies #[trigger] out[i] != '\n' by {
        if i < n {
            assert(out[i] == x[i]);
        } else if i > n {
            assert(out[i] == y[i - n - 1]);
        }
    }
    assert forall|i: int| 0 <= i < rest.len() implies #[trigger] rest[i] != '\n' by {
        if i > 1 {
            assert(rest[i] == y[i - 2]);
        }
    }
    lemma_inlined_line(x, rest, g, out);
}

/// Brackets with no target right behind them are spoken as they are: an aside such as `[sic]`.
pub proof fn law_asides_are_spoken(x: Seq<char>, words: Seq<char>, y: Seq<char>)
    requires
        is_opening(x),
        x.last() != '!',
        is_words(words),
        forall|i: int| 0 <= i < words.len() ==> #[trigger] words[i] != ']',
        is_words(y),
        y.len() > 0 ==> y[0] != '(',
        document_laws::is_tidy(x + (seq!['['] + words + seq![']'] + y)),
    ensures
        document::stripped(x + (seq!['['] + words + seq![']'] + y)) == x + (seq!['['] + words
            + seq![']'] + y),
{
    let aside = seq!['['] + words + seq![']'];
    let rest = aside + y;
    let s = x + rest;
    lemma_words_stay(x);
    lemma_words_stay(words);
    lemma_words_stay(y);
    assert(s =~= x + aside + y);
    lemma_plain_concat(x + aside, y);
    lemma_plain_concat(x, aside);
    lemma_plain_views(s);
    lemma_plain_views(x);
    lemma_plain_views(aside);
    lemma_plain_views(y);
    let g = glyphs::plain(s);
    let n = x.len() as int;
    assert forall|i: int| 0 <= i < s.len() implies #[trigger] s[i] != '*' && s[i] != '_' && s[i]
        != '~' && s[i] != '`' && s[i] != '<' && s[i] != '\\' && s[i] != '\n' && (s[i] == '[' ==> i
        == n) by {
        if i < n {
            assert(s[i] == x[i]);
        } else if i < n + aside.len() {
            assert(s[i] == aside[i - n]);
            if 1 <= i - n <= words.len() {
                assert(aside[i - n] == words[i - n - 1]);
            }
        } else {
            assert(s[i] == y[i - n - aside.len()]);
        }
    }
    assert forall|k: int| !#[trigger] spans_laws::opens_image(glyphs::seen(g), k) by {
        if 0 <= k && k + 1 < s.len() && s[k + 1] == '[' {
            assert(k + 1 == n);
            assert(s[k] == x.last());
        }
    }
    spans_laws::lemma_no_images(g);
    if y.len() > 0 {
        assert(y[0] != '[');
    }
    assert(spans_laws::lacks(words, ']'));
    spans_laws::law_bracketed_asides_are_kept(
        glyphs::plain(x),
        glyphs::plain(aside),
        words,
        glyphs::plain(y),
    );
    assert(spans_laws::lacks(glyphs::seen(g), '`'));
    assert(spans_laws::lacks(glyphs::seen(g), '<'));
    spans_laws::law_unmarked_text_is_kept(g);
    emphasis_laws::law_text_without_markers_is_kept(g);
    glyph_laws::lemma_plain(s);
    assert(is_unescaped(rest)) by {
        assert forall|i: int| 0 <= i < rest.len() implies #[trigger] rest[i] != '\\' && rest[i]
            != '\n' by {
            assert(rest[i] == s[n + i]);
        }
    }
    lemma_spoken_line(x, rest, g, s);
}

} // verus!

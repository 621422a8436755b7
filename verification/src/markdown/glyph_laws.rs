//! What literal characters and escapes promise.

use crate::markdown::document;
use crate::markdown::glyphs::Glyph;
use crate::markdown::glyphs;
use crate::text;
use crate::text_lemmas;
use vstd::prelude::*;

verus! {

/// What is spoken of a line in which there is nothing but escapes.
pub open spec fn unescaped(s: Seq<char>) -> Seq<char> {
    glyphs::spelled(glyphs::marked(s))
}

/// No backslash of an escape is left in `g`.
pub open spec fn has_no_escape(g: Seq<Glyph>) -> bool {
    forall|k: int| 0 <= k < g.len() ==> !((#[trigger] g[k]).kind is Escape)
}

pub proof fn lemma_spelled_concat(a: Seq<Glyph>, b: Seq<Glyph>)
    ensures
        glyphs::spelled(a + b) == glyphs::spelled(a) + glyphs::spelled(b),
    decreases b.len(),
{
    if b.len() == 0 {
        assert(a + b =~= a);
        assert(glyphs::spelled(a) + glyphs::spelled(b) =~= glyphs::spelled(a));
    } else {
        lemma_spelled_concat(a, b.drop_last());
        assert((a + b).drop_last() =~= a + b.drop_last());
        assert((a + b).last() == b.last());
        assert(glyphs::spelled(a + b) =~= glyphs::spelled(a) + glyphs::spelled(b));
    }
}

/// Text without escapes is spelled as it is.
pub proof fn lemma_spelled(g: Seq<Glyph>)
    requires
        has_no_escape(g),
    ensures
        glyphs::spelled(g) == glyphs::chars(g),
    decreases g.len(),
{
    if g.len() > 0 {
        let front = g.drop_last();
        assert forall|k: int| 0 <= k < front.len() implies !((#[trigger] front[k]).kind
            is Escape) by {
            assert(front[k] == g[k]);
        }
        lemma_spelled(front);
        assert(!(g[g.len() - 1].kind is Escape));
        assert(glyphs::spelled(g) =~= glyphs::chars(g));
    } else {
        assert(glyphs::spelled(g) =~= glyphs::chars(g));
    }
}

/// Only the backslashes of escapes are not spoken.
pub proof fn lemma_spelled_len(g: Seq<Glyph>)
    ensures
        glyphs::spelled(g).len() <= g.len(),
        glyphs::spelled(g).len() == g.len() ==> has_no_escape(g),
        text_lemmas::is_subsequence(glyphs::spelled(g), glyphs::chars(g)),
    decreases g.len(),
{
    if g.len() > 0 {
        let front = g.drop_last();
        let last = g.last();
        lemma_spelled_len(front);
        assert(glyphs::chars(g) =~= glyphs::chars(front).push(last.c));
        text_lemmas::lemma_subsequence_push(glyphs::spelled(front), glyphs::chars(front), last.c);
        if last.kind is Escape {
            text_lemmas::lemma_subsequence_take(glyphs::chars(g), front.len() as int);
            assert(glyphs::chars(g).take(front.len() as int) =~= glyphs::chars(front));
            text_lemmas::lemma_subsequence_trans(
                glyphs::spelled(g),
                glyphs::chars(front),
                glyphs::chars(g),
            );
        } else if glyphs::spelled(g).len() == g.len() {
            assert forall|k: int| 0 <= k < g.len() implies !((#[trigger] g[k]).kind is Escape) by {
                if k < front.len() {
                    assert(front[k] == g[k]);
                }
            }
        }
    }
}

/// A line without escapes is plain.
pub proof fn lemma_marked_plain(s: Seq<char>)
    requires
        forall|k: int| 0 <= k < s.len() ==> !#[trigger] glyphs::is_escape(s, k),
    ensures
        glyphs::marked(s) == glyphs::plain(s),
        unescaped(s) == s,
{
    assert forall|k: int| 0 <= k < s.len() implies glyphs::marked(s)[k] == #[trigger] glyphs::plain(
        s,
    )[k] by {
        assert(!glyphs::is_escape(s, k));
        assert(!glyphs::is_escape(s, k - 1));
    }
    assert(glyphs::marked(s) =~= glyphs::plain(s));
    lemma_plain(s);
}

/// Plain text is seen and spoken as it is.
pub proof fn lemma_plain(s: Seq<char>)
    ensures
        glyphs::seen(glyphs::plain(s)) == s,
        glyphs::chars(glyphs::plain(s)) == s,
        glyphs::spelled(glyphs::plain(s)) == s,
        has_no_escape(glyphs::plain(s)),
{
    lemma_spelled(glyphs::plain(s));
    assert(glyphs::seen(glyphs::plain(s)) =~= s);
    assert(glyphs::chars(glyphs::plain(s)) =~= s);
}

/// A line in which nothing is marked as an escape has none.
pub proof fn lemma_no_escape(s: Seq<char>)
    requires
        has_no_escape(glyphs::marked(s)),
    ensures
        glyphs::marked(s) == glyphs::plain(s),
{
    assert forall|k: int| 0 <= k < s.len() implies !#[trigger] glyphs::is_escape(s, k) by {
        assert(!(glyphs::marked(s)[k].kind is Escape));
    }
    lemma_marked_plain(s);
}

/// A backslash before a character that it can escape is dropped, and the character stays.
pub proof fn law_escapes_yield_the_character(a: Seq<char>, c: char, b: Seq<char>)
    requires
        a.len() > 0 ==> a.last() != '\\',
        c == '*' || c == '_' || c == '`' || c == '[' || c == ']' || c == '#' || c == '~' || c == '('
            || c == ')' || c == '<' || c == '>' || c == '|' || c == '!' || c == '.',
    ensures
        unescaped(a + seq!['\\', c] + b) == unescaped(a) + seq![c] + unescaped(b),
{
    let s = a + seq!['\\', c] + b;
    let m = glyphs::marked(s);
    let p = a.len() as int;
    let pair = seq![glyphs::glyph_at(s, p), glyphs::glyph_at(s, p + 1)];
    assert(s[p] == '\\' && s[p + 1] == c);
    assert(glyphs::is_escape(s, p));
    assert(!glyphs::is_escape(s, p + 1));
    assert(!glyphs::is_escape(s, p - 1)) by {
        if p > 0 {
            assert(s[p - 1] == a.last());
        }
    }
    assert forall|k: int| k < p - 1 implies #[trigger] glyphs::is_escape(s, k)
        == glyphs::is_escape(a, k) by {
        if 0 <= k {
            assert(s[k] == a[k] && s[k + 1] == a[k + 1]);
        }
    }
    assert forall|k: int| 0 <= k < p implies #[trigger] glyphs::marked(a)[k] == m[k] by {
        assert(s[k] == a[k]);
        assert(glyphs::is_escape(s, k) == glyphs::is_escape(a, k));
        assert(glyphs::is_escape(s, k - 1) == glyphs::is_escape(a, k - 1));
    }
    assert forall|k: int| 0 <= k < b.len() implies #[trigger] glyphs::marked(b)[k] == m[k + p
        + 2] by {
        assert(s[k + p + 2] == b[k]);
        assert(glyphs::is_escape(s, k + p + 2) == glyphs::is_escape(b, k)) by {
            if k + 1 < b.len() {
                assert(s[k + p + 3] == b[k + 1]);
            }
        }
        assert(glyphs::is_escape(s, k + p + 1) == glyphs::is_escape(b, k - 1)) by {
            if k > 0 {
                assert(s[k + p + 1] == b[k - 1]);
            }
        }
    }
    assert(m =~= glyphs::marked(a) + pair + glyphs::marked(b));
    lemma_spelled_concat(glyphs::marked(a) + pair, glyphs::marked(b));
    lemma_spelled_concat(glyphs::marked(a), pair);
    assert(pair.drop_last().drop_last() =~= Seq::<Glyph>::empty());
    assert(pair.drop_last().last() == pair[0]);
    assert(glyphs::spelled(pair.drop_last().drop_last()) =~= Seq::<char>::empty());
    assert(glyphs::spelled(Seq::empty()) =~= Seq::<char>::empty());
    assert(glyphs::spelled(pair.drop_last()) =~= Seq::<char>::empty());
    assert(glyphs::spelled(pair) =~= seq![c]);
}

/// The characters of `s` up to `n` that are spoken, and what they can be followed by.
proof fn lemma_unescaped_front(s: Seq<char>, n: int)
    requires
        0 <= n <= s.len(),
    ensures
        ({
            let r = glyphs::spelled(glyphs::marked(s).take(n));
            &&& forall|k: int| 0 <= k < r.len() ==> !#[trigger] glyphs::is_escape(r, k)
            &&& n > 0 && !glyphs::is_escape(s, n - 1) ==> r.len() > 0 && r.last() == s[n - 1]
            &&& r.len() > 0 && r.last() == '\\' ==> n > 0 && s[n - 1] == '\\' && !glyphs::is_escape(
                s,
                n - 1,
            )
        }),
    decreases n,
{
    let m = glyphs::marked(s);
    if n > 0 {
        lemma_unescaped_front(s, n - 1);
        let q = glyphs::spelled(m.take(n - 1));
        let r = glyphs::spelled(m.take(n));
        assert(m.take(n).drop_last() =~= m.take(n - 1));
        assert(m.take(n).last() == m[n - 1]);
        if glyphs::is_escape(s, n - 1) {
            assert(r == q);
            if q.len() > 0 && q.last() == '\\' {
                assert(glyphs::is_escape(s, n - 2));
            }
        } else {
            assert(r == q.push(s[n - 1]));
            assert forall|k: int| 0 <= k < r.len() implies !#[trigger] glyphs::is_escape(r, k) by {
                if k + 1 < q.len() {
                    assert(!glyphs::is_escape(q, k));
                    assert(r[k] == q[k] && r[k + 1] == q[k + 1]);
                } else if k + 1 == q.len() {
                    assert(r[k] == q.last());
                    if q.last() == '\\' {
                        assert(!glyphs::is_escape(s, n - 2));
                    }
                }
            }
        }
    } else {
        assert(m.take(0) =~= Seq::<Glyph>::empty());
    }
}

/// A backslash before any other character is spoken like any other character.
pub proof fn law_other_backslashes_are_kept(a: Seq<char>, c: char, b: Seq<char>)
    requires
        a.len() > 0 ==> a.last() != '\\',
        c != '*' && c != '_' && c != '`' && c != '[' && c != ']' && c != '#' && c != '~' && c != '('
            && c != ')' && c != '<' && c != '>' && c != '|' && c != '!' && c != '.' && c != '\\',
    ensures
        unescaped(a + seq!['\\', c] + b) == unescaped(a) + seq!['\\', c] + unescaped(b),
        unescaped(a + seq!['\\']) == unescaped(a) + seq!['\\'],
{
    let s = a + seq!['\\', c] + b;
    let m = glyphs::marked(s);
    let p = a.len() as int;
    let pair = seq![glyphs::glyph_at(s, p), glyphs::glyph_at(s, p + 1)];
    assert(s[p] == '\\' && s[p + 1] == c);
    assert(!glyphs::is_escape(s, p));
    assert(!glyphs::is_escape(s, p + 1));
    assert(!glyphs::is_escape(s, p - 1)) by {
        if p > 0 {
            assert(s[p - 1] == a.last());
        }
    }
    assert forall|k: int| 0 <= k < p implies #[trigger] glyphs::marked(a)[k] == m[k] by {
        lemma_escapes_in_front(a, seq!['\\', c] + b, k);
        lemma_escapes_in_front(a, seq!['\\', c] + b, k - 1);
        assert(a + (seq!['\\', c] + b) =~= s);
    }
    assert forall|k: int| 0 <= k < b.len() implies #[trigger] glyphs::marked(b)[k] == m[k + p
        + 2] by {
        assert(s[k + p + 2] == b[k]);
        assert(glyphs::is_escape(s, k + p + 2) == glyphs::is_escape(b, k)) by {
            if k + 1 < b.len() {
                assert(s[k + p + 3] == b[k + 1]);
            }
        }
        assert(glyphs::is_escape(s, k + p + 1) == glyphs::is_escape(b, k - 1)) by {
            if k > 0 {
                assert(s[k + p + 1] == b[k - 1]);
            }
        }
    }
    assert(m =~= glyphs::marked(a) + pair + glyphs::marked(b));
    lemma_spelled_concat(glyphs::marked(a) + pair, glyphs::marked(b));
    lemma_spelled_concat(glyphs::marked(a), pair);
    assert(has_no_escape(pair));
    lemma_spelled(pair);
    assert(glyphs::chars(pair) =~= seq!['\\', c]);
    let e = a + seq!['\\'];
    let single = seq![glyphs::glyph_at(e, p)];
    assert forall|k: int| 0 <= k < p implies #[trigger] glyphs::marked(a)[k] == glyphs::marked(
        e,
    )[k] by {
        lemma_escapes_in_front(a, seq!['\\'], k);
        lemma_escapes_in_front(a, seq!['\\'], k - 1);
    }
    assert(!glyphs::is_escape(e, p - 1)) by {
        if p > 0 {
            assert(e[p - 1] == a.last());
        }
    }
    assert(glyphs::marked(e) =~= glyphs::marked(a) + single);
    lemma_spelled_concat(glyphs::marked(a), single);
    assert(has_no_escape(single));
    lemma_spelled(single);
    assert(glyphs::chars(single) =~= seq!['\\']);
}

/// Where a text ends in no backslash, its escapes do not depend on what follows it.
proof fn lemma_escapes_in_front(a: Seq<char>, b: Seq<char>, k: int)
    requires
        a.len() > 0 ==> a.last() != '\\',
        k < a.len(),
    ensures
        glyphs::is_escape(a + b, k) == glyphs::is_escape(a, k),
        0 <= k ==> (a + b)[k] == a[k],
{
    if 0 <= k && k + 1 < a.len() {
        assert((a + b)[k + 1] == a[k + 1]);
    } else if 0 <= k {
        assert(a[k] == a.last());
    }
}

/// Resolving escapes a second time changes nothing: none is left after the first.
pub proof fn law_escapes_are_resolved_once(s: Seq<char>)
    ensures
        forall|k: int|
            0 <= k < unescaped(s).len() ==> !#[trigger] glyphs::is_escape(unescaped(s), k),
        unescaped(unescaped(s)) == unescaped(s),
{
    lemma_unescaped_front(s, s.len() as int);
    assert(glyphs::marked(s).take(s.len() as int) =~= glyphs::marked(s));
    lemma_marked_plain(unescaped(s));
}

// ---- lines of a paragraph ----

/// The characters of every line.
pub open spec fn written(para: Seq<Seq<Glyph>>) -> Seq<Seq<char>> {
    Seq::new(para.len(), |i: int| glyphs::chars(para[i]))
}

/// What is spoken of every line.
pub open spec fn all_spelled(para: Seq<Seq<Glyph>>) -> Seq<Seq<char>> {
    Seq::new(para.len(), |i: int| glyphs::spelled(para[i]))
}

/// Every line as plain text.
pub open spec fn all_plain(lines: Seq<Seq<char>>) -> Seq<Seq<Glyph>> {
    Seq::new(lines.len(), |i: int| glyphs::plain(lines[i]))
}

pub proof fn lemma_written_joined(para: Seq<Seq<Glyph>>)
    ensures
        glyphs::chars(text::joined(para, seq![document::newline()])) == text::joined(
            written(para),
            seq!['\n'],
        ),
    decreases para.len(),
{
    let sep = seq![document::newline()];
    if para.len() == 0 {
        assert(glyphs::chars(text::joined(para, sep)) =~= Seq::<char>::empty());
    } else if para.len() > 1 {
        let front = para.drop_last();
        lemma_written_joined(front);
        assert(written(para).drop_last() =~= written(front));
        assert(written(para).last() == glyphs::chars(para.last()));
        assert(glyphs::chars(text::joined(para, sep)) =~= glyphs::chars(text::joined(front, sep))
            + seq!['\n'] + glyphs::chars(para.last()));
    } else {
        assert(written(para)[0] == glyphs::chars(para[0]));
    }
}

pub proof fn lemma_spelled_joined(para: Seq<Seq<Glyph>>)
    ensures
        glyphs::spelled(text::joined(para, seq![document::newline()])) == text::joined(
            all_spelled(para),
            seq!['\n'],
        ),
    decreases para.len(),
{
    let sep = seq![document::newline()];
    if para.len() > 1 {
        let front = para.drop_last();
        lemma_spelled_joined(front);
        assert(all_spelled(para).drop_last() =~= all_spelled(front));
        assert(all_spelled(para).last() == glyphs::spelled(para.last()));
        lemma_spelled_concat(text::joined(front, sep) + sep, para.last());
        lemma_spelled_concat(text::joined(front, sep), sep);
        assert(sep.drop_last() =~= Seq::<Glyph>::empty());
        assert(glyphs::spelled(sep.drop_last()) =~= Seq::<char>::empty());
        assert(glyphs::spelled(sep) =~= seq!['\n']);
    } else if para.len() == 1 {
        assert(all_spelled(para)[0] == glyphs::spelled(para[0]));
    }
}

pub proof fn lemma_plain_joined(lines: Seq<Seq<char>>)
    ensures
        text::joined(all_plain(lines), seq![document::newline()]) == glyphs::plain(
            text::joined(lines, seq!['\n']),
        ),
    decreases lines.len(),
{
    let sep = seq![document::newline()];
    if lines.len() == 0 {
        assert(text::joined(all_plain(lines), sep) =~= glyphs::plain(
            text::joined(lines, seq!['\n']),
        ));
    } else if lines.len() > 1 {
        let front = lines.drop_last();
        lemma_plain_joined(front);
        assert(all_plain(lines).drop_last() =~= all_plain(front));
        assert(all_plain(lines).last() == glyphs::plain(lines.last()));
        assert(text::joined(all_plain(lines), sep) =~= glyphs::plain(
            text::joined(lines, seq!['\n']),
        ));
    } else {
        assert(all_plain(lines)[0] == glyphs::plain(lines[0]));
    }
}

/// What no glyph of a paragraph is, no glyph of its lines is.
pub proof fn lemma_joined_has_no_escape(para: Seq<Seq<Glyph>>)
    requires
        has_no_escape(text::joined(para, seq![document::newline()])),
    ensures
        forall|i: int| 0 <= i < para.len() ==> has_no_escape(#[trigger] para[i]),
    decreases para.len(),
{
    let sep = seq![document::newline()];
    let all = text::joined(para, sep);
    if para.len() > 1 {
        let front = para.drop_last();
        let a = text::joined(front, sep);
        assert forall|k: int| 0 <= k < a.len() implies !((#[trigger] a[k]).kind is Escape) by {
            assert(all[k] == a[k]);
        }
        lemma_joined_has_no_escape(front);
        let last = para[para.len() - 1];
        assert forall|k: int| 0 <= k < last.len() implies !((#[trigger] last[k]).kind
            is Escape) by {
            assert(all[a.len() + 1 + k] == last[k]);
        }
        assert forall|i: int| 0 <= i < para.len() implies has_no_escape(#[trigger] para[i]) by {
            if i < front.len() {
                assert(front[i] == para[i]);
            }
        }
    } else if para.len() == 1 {
        assert(all == para[0]);
    }
}

/// A character that is seen in no line is not seen in the paragraph.
pub proof fn lemma_joined_sees_no(para: Seq<Seq<Glyph>>, bad: spec_fn(char) -> bool)
    requires
        !bad('\n'),
        forall|i: int, k: int|
            0 <= i < para.len() && 0 <= k < para[i].len() ==> !bad(
                #[trigger] glyphs::seen(para[i])[k],
            ),
    ensures
        ({
            let s = glyphs::seen(text::joined(para, seq![document::newline()]));
            forall|k: int| 0 <= k < s.len() ==> !bad(#[trigger] s[k])
        }),
    decreases para.len(),
{
    let sep = seq![document::newline()];
    let s = glyphs::seen(text::joined(para, sep));
    if para.len() > 1 {
        let front = para.drop_last();
        assert forall|i: int, k: int| 0 <= i < front.len() && 0 <= k < front[i].len() implies !bad(
            #[trigger] glyphs::seen(front[i])[k],
        ) by {
            assert(front[i] == para[i]);
        }
        lemma_joined_sees_no(front, bad);
        let a = text::joined(front, sep);
        let last = para[para.len() - 1];
        assert forall|k: int| 0 <= k < s.len() implies !bad(#[trigger] s[k]) by {
            if k < a.len() {
                assert(s[k] == glyphs::seen(a)[k]);
            } else if k > a.len() {
                assert(s[k] == glyphs::seen(last)[k - a.len() - 1]);
            }
        }
    } else if para.len() == 1 {
        assert forall|k: int| 0 <= k < s.len() implies !bad(#[trigger] s[k]) by {
            assert(s[k] == glyphs::seen(para[0])[k]);
        }
    }
}

pub proof fn lemma_chars_without(g: Seq<Glyph>, gone: spec_fn(int) -> bool, n: int)
    requires
        0 <= n <= g.len(),
    ensures
        glyphs::chars(text::without(g, gone, n)) == text::without(glyphs::chars(g), gone, n),
        text::without(g, gone, n).len() <= n,
        text::without(g, gone, n).len() == n ==> text::without(g, gone, n) == g.take(n),
    decreases n,
{
    if n > 0 {
        lemma_chars_without(g, gone, n - 1);
        assert(g.take(n) =~= g.take(n - 1).push(g[n - 1]));
        assert(glyphs::chars(text::without(g, gone, n)) =~= text::without(
            glyphs::chars(g),
            gone,
            n,
        ));
    } else {
        assert(glyphs::chars(text::without(g, gone, n)) =~= text::without(
            glyphs::chars(g),
            gone,
            n,
        ));
        assert(g.take(0) =~= Seq::<Glyph>::empty());
    }
}

/// A backslash that is escaped is spoken once, before a character that needs no escape.
pub proof fn law_escaped_backslashes_are_spoken_once(a: Seq<char>, b: Seq<char>)
    requires
        a.len() > 0 ==> a.last() != '\\',
        b.len() > 0 ==> !glyphs::is_escapable(b[0]),
    ensures
        unescaped(a + seq!['\\', '\\'] + b) == unescaped(a) + seq!['\\'] + unescaped(b),
{
    let s = a + seq!['\\', '\\'] + b;
    let m = glyphs::marked(s);
    let p = a.len() as int;
    let pair = seq![glyphs::glyph_at(s, p), glyphs::glyph_at(s, p + 1)];
    assert(s[p] == '\\' && s[p + 1] == '\\');
    assert(glyphs::is_escape(s, p));
    assert(!glyphs::is_escape(s, p + 1)) by {
        if b.len() > 0 {
            assert(s[p + 2] == b[0]);
        }
    }
    assert(!glyphs::is_escape(s, p - 1)) by {
        if p > 0 {
            assert(s[p - 1] == a.last());
        }
    }
    assert forall|k: int| 0 <= k < p implies #[trigger] glyphs::marked(a)[k] == m[k] by {
        lemma_escapes_in_front(a, seq!['\\', '\\'] + b, k);
        lemma_escapes_in_front(a, seq!['\\', '\\'] + b, k - 1);
        assert(a + (seq!['\\', '\\'] + b) =~= s);
    }
    assert forall|k: int| 0 <= k < b.len() implies #[trigger] glyphs::marked(b)[k] == m[k + p
        + 2] by {
        assert(s[k + p + 2] == b[k]);
        assert(glyphs::is_escape(s, k + p + 2) == glyphs::is_escape(b, k)) by {
            if k + 1 < b.len() {
                assert(s[k + p + 3] == b[k + 1]);
            }
        }
        assert(glyphs::is_escape(s, k + p + 1) == glyphs::is_escape(b, k - 1)) by {
            if k > 0 {
                assert(s[k + p + 1] == b[k - 1]);
            }
        }
    }
    assert(m =~= glyphs::marked(a) + pair + glyphs::marked(b));
    lemma_spelled_concat(glyphs::marked(a) + pair, glyphs::marked(b));
    lemma_spelled_concat(glyphs::marked(a), pair);
    assert(pair.drop_last() =~= seq![glyphs::glyph_at(s, p)]);
    assert(pair.drop_last().drop_last() =~= Seq::<glyphs::Glyph>::empty());
    assert(glyphs::spelled(Seq::empty()) =~= Seq::<char>::empty());
    assert(glyphs::spelled(pair.drop_last()) =~= Seq::<char>::empty());
    assert(glyphs::spelled(pair) =~= seq!['\\']);
}

} // verus!

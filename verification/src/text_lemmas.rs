//! Facts about words and whitespace.

use crate::text;
use vstd::prelude::*;

verus! {

/// Every character of `s` is whitespace.
pub open spec fn is_blank(s: Seq<char>) -> bool {
    forall|i: int| 0 <= i < s.len() ==> text::is_space(#[trigger] s[i])
}

/// No character of `s` is whitespace, and there is one.
pub open spec fn is_word(s: Seq<char>) -> bool {
    s.len() > 0 && forall|i: int| 0 <= i < s.len() ==> !text::is_space(#[trigger] s[i])
}

/// `s` starts and ends with something other than whitespace.
pub open spec fn is_tight(s: Seq<char>) -> bool {
    s.len() > 0 && !text::is_space(s[0]) && !text::is_space(s.last())
}

pub proof fn lemma_trimmed_start(s: Seq<char>)
    ensures
        ({
            let t = text::trimmed_start(s);
            &&& t.len() <= s.len()
            &&& t == s.skip(s.len() - t.len())
            &&& is_blank(s.take(s.len() - t.len()))
            &&& t.len() > 0 ==> !text::is_space(t[0])
            &&& text::words_of(t) == text::words_of(s)
        }),
    decreases s.len(),
{
    let t = text::trimmed_start(s);
    if s.len() > 0 && text::is_space(s[0]) {
        lemma_trimmed_start(s.drop_first());
        let k = s.len() - t.len();
        assert(s.drop_first().skip(k - 1) =~= s.skip(k));
        assert forall|i: int| 0 <= i < k implies text::is_space(#[trigger] s.take(k)[i]) by {
            if i > 0 {
                assert(s.take(k)[i] == s.drop_first().take(k - 1)[i - 1]);
            }
        }
    } else {
        assert(s.skip(0) =~= s);
    }
}

pub proof fn lemma_trimmed_end(s: Seq<char>)
    ensures
        ({
            let t = text::trimmed_end(s);
            &&& t.len() <= s.len()
            &&& t == s.take(t.len() as int)
            &&& is_blank(s.skip(t.len() as int))
            &&& t.len() > 0 ==> !text::is_space(t.last())
            &&& text::words_of(t) == text::words_of(s)
        }),
    decreases s.len(),
{
    let t = text::trimmed_end(s);
    if s.len() > 0 && text::is_space(s.last()) {
        lemma_trimmed_end(s.drop_last());
        let k = t.len() as int;
        assert(s.drop_last().take(k) =~= s.take(k));
        assert forall|i: int| 0 <= i < s.len() - k implies text::is_space(
            #[trigger] s.skip(k)[i],
        ) by {
            if i < s.len() - k - 1 {
                assert(s.skip(k)[i] == s.drop_last().skip(k)[i]);
            }
        }
        lemma_words_split(s.drop_last(), s.last(), Seq::empty());
        assert(s.drop_last().push(s.last()) + Seq::<char>::empty() =~= s);
        assert(text::words_of(s.drop_last()) + text::words_of(Seq::empty()) =~= text::words_of(
            s.drop_last(),
        ));
    } else {
        assert(s.take(s.len() as int) =~= s);
    }
}

/// Trimming keeps the words, and leaves nothing exactly of blank text.
pub proof fn lemma_trimmed(s: Seq<char>)
    ensures
        text::words_of(text::trimmed(s)) == text::words_of(s),
        text::trimmed(s).len() > 0 ==> is_tight(text::trimmed(s)),
        (text::trimmed(s).len() == 0) == is_blank(s),
        (text::words_of(s).len() == 0) == is_blank(s),
        text::trimmed(s).len() <= s.len(),
{
    let a = text::trimmed_start(s);
    let t = text::trimmed(s);
    lemma_trimmed_start(s);
    lemma_trimmed_end(a);
    if a.len() > 0 {
        if t.len() == 0 {
            assert(a.skip(0)[0] == a[0]);
        } else {
            assert(t[0] == a[0]);
        }
        assert(s[s.len() - a.len()] == a[0]);
        assert(text::words_of(a).len() > 0);
    } else {
        assert(s.take(s.len() as int) =~= s);
        assert(a =~= Seq::<char>::empty());
    }
}

/// Trimming takes the whitespace around a text off, all of it and nothing else.
pub proof fn law_trimming_takes_only_whitespace(a: Seq<char>, t: Seq<char>, b: Seq<char>)
    requires
        is_blank(a),
        is_tight(t),
        is_blank(b),
    ensures
        text::trimmed(a + t + b) == t,
        text::trimmed_start(a + t + b) == t + b,
        text::trimmed_end(a + t + b) == a + t,
        text::trimmed(a + b).len() == 0,
{
    lemma_trimmed_start_of(a, t + b);
    assert(a + t + b =~= a + (t + b));
    lemma_trimmed_end_of(t, b);
    lemma_trimmed_end_of(a + t, b);
    let ab = a + b;
    assert forall|i: int| 0 <= i < ab.len() implies text::is_space(#[trigger] ab[i]) by {
        if i < a.len() {
            assert(ab[i] == a[i]);
        } else {
            assert(ab[i] == b[i - a.len()]);
        }
    }
    lemma_trimmed(ab);
}

/// Leading whitespace goes up to the first character that is none.
pub proof fn lemma_trimmed_start_of(a: Seq<char>, t: Seq<char>)
    requires
        is_blank(a),
        t.len() > 0,
        !text::is_space(t[0]),
    ensures
        text::trimmed_start(a + t) == t,
    decreases a.len(),
{
    if a.len() == 0 {
        assert(a + t =~= t);
    } else {
        assert(text::is_space(a[0]));
        let rest = a.drop_first();
        assert forall|i: int| 0 <= i < rest.len() implies text::is_space(#[trigger] rest[i]) by {
            assert(rest[i] == a[i + 1]);
        }
        lemma_trimmed_start_of(rest, t);
        assert((a + t).drop_first() =~= rest + t);
    }
}

/// Trailing whitespace goes back to the last character that is none.
pub proof fn lemma_trimmed_end_of(t: Seq<char>, b: Seq<char>)
    requires
        t.len() > 0,
        !text::is_space(t.last()),
        is_blank(b),
    ensures
        text::trimmed_end(t + b) == t,
    decreases b.len(),
{
    if b.len() == 0 {
        assert(t + b =~= t);
    } else {
        assert(text::is_space(b[b.len() - 1]));
        let rest = b.drop_last();
        assert forall|i: int| 0 <= i < rest.len() implies text::is_space(#[trigger] rest[i]) by {
            assert(rest[i] == b[i]);
        }
        lemma_trimmed_end_of(t, rest);
        assert((t + b).drop_last() =~= t + rest);
    }
}

/// Whitespace parts words: the words around it are the words of both sides.
pub proof fn lemma_words_split(a: Seq<char>, c: char, b: Seq<char>)
    requires
        text::is_space(c),
    ensures
        text::words_of(a.push(c) + b) == text::words_of(a) + text::words_of(b),
    decreases a.len(),
{
    let s = a.push(c) + b;
    if a.len() == 0 {
        assert(s.drop_first() =~= b);
        assert(text::words_of(a) + text::words_of(b) =~= text::words_of(b));
    } else if text::is_space(a[0]) {
        lemma_words_split(a.drop_first(), c, b);
        assert(s.drop_first() =~= a.drop_first().push(c) + b);
    } else {
        lemma_word_len_split(a, c, b);
        text::lemma_word_len(a);
        let n = text::word_len(a) as int;
        lemma_words_split(a.skip(n), c, b);
        assert(s.take(n) =~= a.take(n));
        assert(s.skip(n) =~= a.skip(n).push(c) + b);
        assert(seq![a.take(n)] + (text::words_of(a.skip(n)) + text::words_of(b)) =~= (seq![a.take(n)]
            + text::words_of(a.skip(n))) + text::words_of(b));
    }
}

proof fn lemma_word_len_split(a: Seq<char>, c: char, b: Seq<char>)
    requires
        text::is_space(c),
    ensures
        text::word_len(a.push(c) + b) == text::word_len(a),
    decreases a.len(),
{
    let s = a.push(c) + b;
    if a.len() > 0 && !text::is_space(a[0]) {
        lemma_word_len_split(a.drop_first(), c, b);
        assert(s.drop_first() =~= a.drop_first().push(c) + b);
    }
}

/// A word has itself as its only word.
pub proof fn lemma_words_of_word(w: Seq<char>)
    requires
        is_word(w),
    ensures
        text::words_of(w) == seq![w],
{
    text::lemma_word_len(w);
    let n = text::word_len(w) as int;
    assert(n == w.len());
    assert(w.take(n) =~= w);
    assert(w.skip(n) =~= Seq::<char>::empty());
    assert(seq![w] + text::words_of(w.skip(n)) =~= seq![w]);
}

/// What `words_of` gives are words.
pub proof fn lemma_words_are_words(s: Seq<char>)
    ensures
        forall|i: int| 0 <= i < text::words_of(s).len() ==> is_word(#[trigger] text::words_of(s)[i]),
    decreases s.len(),
{
    if s.len() == 0 {
    } else if text::is_space(s[0]) {
        lemma_words_are_words(s.drop_first());
        assert(text::words_of(s) == text::words_of(s.drop_first()));
    } else {
        text::lemma_word_len(s);
        let n = text::word_len(s) as int;
        lemma_words_are_words(s.skip(n));
        let w = s.take(n);
        assert(forall|i: int| 0 <= i < n ==> w[i] == s[i]);
        assert(is_word(w));
        let tail = text::words_of(s.skip(n));
        assert(text::words_of(s) == seq![w] + tail);
        assert forall|i: int| 0 <= i < text::words_of(s).len() implies is_word(
            #[trigger] text::words_of(s)[i],
        ) by {
            if i > 0 {
                assert(text::words_of(s)[i] == tail[i - 1]);
            } else {
                assert(text::words_of(s)[i] == w);
            }
        }
    }
}


/// `a` is what is left of `b` after some of its characters are removed.
pub open spec fn is_subsequence(a: Seq<char>, b: Seq<char>) -> bool
    decreases b.len(),
{
    if a.len() == 0 {
        true
    } else if b.len() == 0 {
        false
    } else {
        ||| a[0] == b[0] && is_subsequence(a.drop_first(), b.drop_first())
        ||| is_subsequence(a, b.drop_first())
    }
}

pub proof fn lemma_subsequence_skip(a: Seq<char>, b: Seq<char>, k: int)
    requires
        0 <= k <= b.len(),
        is_subsequence(a, b.skip(k)),
    ensures
        is_subsequence(a, b),
    decreases k,
{
    if k > 0 {
        assert(b.drop_first().skip(k - 1) =~= b.skip(k));
        lemma_subsequence_skip(a, b.drop_first(), k - 1);
    } else {
        assert(b.skip(0) =~= b);
    }
}

pub proof fn lemma_subsequence_prefix(x: Seq<char>, a: Seq<char>, b: Seq<char>)
    requires
        is_subsequence(a, b),
    ensures
        is_subsequence(x + a, x + b),
    decreases x.len(),
{
    if x.len() == 0 {
        assert(x + a =~= a);
        assert(x + b =~= b);
    } else {
        lemma_subsequence_prefix(x.drop_first(), a, b);
        assert((x + a).drop_first() =~= x.drop_first() + a);
        assert((x + b).drop_first() =~= x.drop_first() + b);
    }
}

pub proof fn lemma_subsequence_refl(s: Seq<char>)
    ensures
        is_subsequence(s, s),
{
    lemma_subsequence_prefix(s, Seq::empty(), Seq::empty());
    assert(s + Seq::<char>::empty() =~= s);
}

pub proof fn lemma_subsequence_trans(a: Seq<char>, b: Seq<char>, c: Seq<char>)
    requires
        is_subsequence(a, b),
        is_subsequence(b, c),
    ensures
        is_subsequence(a, c),
    decreases c.len(),
{
    if a.len() > 0 {
        assert(b.len() > 0 && c.len() > 0);
        if b[0] == c[0] && is_subsequence(b.drop_first(), c.drop_first()) {
            if a[0] == b[0] && is_subsequence(a.drop_first(), b.drop_first()) {
                lemma_subsequence_trans(a.drop_first(), b.drop_first(), c.drop_first());
            } else {
                lemma_subsequence_trans(a, b.drop_first(), c.drop_first());
            }
        } else {
            lemma_subsequence_trans(a, b, c.drop_first());
        }
    }
}

/// More text behind `b` gives `a` no less to stand in, and may be taken over.
pub proof fn lemma_subsequence_push(a: Seq<char>, b: Seq<char>, x: char)
    requires
        is_subsequence(a, b),
    ensures
        is_subsequence(a, b.push(x)),
        is_subsequence(a.push(x), b.push(x)),
    decreases b.len(),
{
    if b.len() == 0 {
        reveal_with_fuel(is_subsequence, 2);
    } else {
        assert(b.push(x).drop_first() =~= b.drop_first().push(x));
        if a.len() == 0 {
            lemma_subsequence_push(a, b.drop_first(), x);
        } else if a[0] == b[0] && is_subsequence(a.drop_first(), b.drop_first()) {
            lemma_subsequence_push(a.drop_first(), b.drop_first(), x);
            assert(a.push(x).drop_first() =~= a.drop_first().push(x));
        } else {
            lemma_subsequence_push(a, b.drop_first(), x);
        }
    }
}

pub proof fn lemma_subsequence_pop(a: Seq<char>, b: Seq<char>, x: char)
    requires
        is_subsequence(a.push(x), b.push(x)),
    ensures
        is_subsequence(a, b),
    decreases b.len(),
{
    let p = a.push(x);
    let q = b.push(x);
    if a.len() > 0 {
        assert(p[0] == a[0]);
        assert(p.drop_first() =~= a.drop_first().push(x));
        assert(is_subsequence(p, q) == ((p[0] == q[0] && is_subsequence(
            p.drop_first(),
            q.drop_first(),
        )) || is_subsequence(p, q.drop_first())));
        if b.len() == 0 {
            assert(q.drop_first() =~= Seq::<char>::empty());
            assert(!is_subsequence(p, q.drop_first()));
            assert(!is_subsequence(p.drop_first(), q.drop_first()));
        } else {
            assert(q[0] == b[0]);
            assert(q.drop_first() =~= b.drop_first().push(x));
            if is_subsequence(p, q.drop_first()) {
                lemma_subsequence_pop(a, b.drop_first(), x);
            } else {
                lemma_subsequence_pop(a.drop_first(), b.drop_first(), x);
            }
        }
    }
}

pub proof fn lemma_subsequence_take(s: Seq<char>, n: int)
    requires
        0 <= n <= s.len(),
    ensures
        is_subsequence(s.take(n), s),
{
    lemma_subsequence_prefix(s.take(n), Seq::empty(), s.skip(n));
    assert(s.take(n) + Seq::<char>::empty() =~= s.take(n));
    assert(s.take(n) + s.skip(n) =~= s);
}

pub proof fn lemma_subsequence_without(s: Seq<char>, gone: spec_fn(int) -> bool, n: int)
    requires
        0 <= n <= s.len(),
    ensures
        is_subsequence(text::without(s, gone, n), s.take(n)),
    decreases n,
{
    if n > 0 {
        lemma_subsequence_without(s, gone, n - 1);
        assert(s.take(n) =~= s.take(n - 1).push(s[n - 1]));
        lemma_subsequence_push(text::without(s, gone, n - 1), s.take(n - 1), s[n - 1]);
    }
}

/// A character that `b` lacks, `a` lacks too.
pub proof fn lemma_subsequence_lacks(a: Seq<char>, b: Seq<char>, c: char)
    requires
        is_subsequence(a, b),
        forall|i: int| 0 <= i < b.len() ==> #[trigger] b[i] != c,
    ensures
        forall|i: int| 0 <= i < a.len() ==> #[trigger] a[i] != c,
    decreases b.len(),
{
    if a.len() > 0 {
        let t = b.drop_first();
        assert(forall|i: int| 0 <= i < t.len() ==> #[trigger] t[i] == b[i + 1]);
        if a[0] == b[0] && is_subsequence(a.drop_first(), t) {
            lemma_subsequence_lacks(a.drop_first(), t, c);
            assert forall|i: int| 0 <= i < a.len() implies #[trigger] a[i] != c by {
                if i > 0 {
                    assert(a[i] == a.drop_first()[i - 1]);
                }
            }
        } else {
            lemma_subsequence_lacks(a, t, c);
        }
    }
}

/// Words with a space between them are the words of the result.
pub proof fn lemma_words_of_joined(words: Seq<Seq<char>>)
    requires
        forall|i: int| 0 <= i < words.len() ==> is_word(#[trigger] words[i]),
    ensures
        text::words_of(text::joined(words, seq![' '])) == words,
        words.len() > 0 ==> is_tight(text::joined(words, seq![' '])),
    decreases words.len(),
{
    if words.len() == 0 {
    } else if words.len() == 1 {
        assert(is_word(words[0]));
        lemma_words_of_word(words[0]);
        assert(seq![words[0]] =~= words);
    } else {
        let front = words.drop_last();
        assert forall|i: int| 0 <= i < front.len() implies is_word(#[trigger] front[i]) by {
            assert(front[i] == words[i]);
        }
        lemma_words_of_joined(front);
        let a = text::joined(front, seq![' ']);
        let b = words[words.len() - 1];
        assert(is_word(b));
        lemma_words_split(a, ' ', b);
        lemma_words_of_word(b);
        assert(a.push(' ') + b =~= text::joined(words, seq![' ']));
        assert(front + seq![b] =~= words);
    }
}

/// A list joins from the front as it does from the back.
pub proof fn lemma_joined_front(parts: Seq<Seq<char>>, sep: Seq<char>)
    requires
        parts.len() >= 2,
    ensures
        text::joined(parts, sep) == parts[0] + sep + text::joined(parts.drop_first(), sep),
    decreases parts.len(),
{
    let rest = parts.drop_first();
    if parts.len() == 2 {
        assert(parts.drop_last() =~= seq![parts[0]]);
        assert(text::joined(seq![parts[0]], sep) == parts[0]);
        assert(rest =~= seq![parts[1]]);
    } else {
        lemma_joined_front(parts.drop_last(), sep);
        assert(parts.drop_last().drop_first() =~= rest.drop_last());
        assert(rest.last() == parts.last());
        let mid = text::joined(rest.drop_last(), sep);
        assert((parts[0] + sep + mid) + sep + parts.last() =~= parts[0] + sep + (mid + sep
            + parts.last()));
    }
}

/// A text of one line.
pub open spec fn is_line(s: Seq<char>) -> bool {
    forall|i: int| 0 <= i < s.len() ==> #[trigger] s[i] != '\n'
}

/// The given lines as they are read back: all but the last lose a carriage return.
pub open spec fn as_read(lines: Seq<Seq<char>>) -> Seq<Seq<char>> {
    Seq::new(
        lines.len(),
        |i: int|
            if i < lines.len() - 1 {
                text::without_cr(lines[i])
            } else {
                lines[i]
            },
    )
}

/// Lines with a line feed between them are the lines of the result.
pub proof fn lemma_lines_of_joined(lines: Seq<Seq<char>>)
    requires
        forall|i: int| 0 <= i < lines.len() ==> is_line(#[trigger] lines[i]),
        lines.len() > 0 ==> lines.last().len() > 0,
    ensures
        text::lines_of(text::joined(lines, seq!['\n'])) == as_read(lines),
    decreases lines.len(),
{
    let s = text::joined(lines, seq!['\n']);
    if lines.len() == 0 {
        assert(as_read(lines) =~= Seq::<Seq<char>>::empty());
    } else if lines.len() == 1 {
        assert(is_line(lines[0]));
        text::lemma_index_of(s, '\n', 0);
        assert(as_read(lines) =~= seq![s]);
    } else {
        let first = lines[0];
        let rest = lines.drop_first();
        assert forall|i: int| 0 <= i < rest.len() implies is_line(#[trigger] rest[i]) by {
            assert(rest[i] == lines[i + 1]);
        }
        lemma_joined_front(lines, seq!['\n']);
        lemma_lines_of_joined(rest);
        text::lemma_index_of(s, '\n', 0);
        let k = text::index_of(s, '\n', 0)->0;
        assert(is_line(first));
        assert(s[first.len() as int] == '\n');
        assert(k == first.len()) by {
            if k < first.len() {
                assert(s[k] == first[k]);
            }
        }
        assert(s.take(k) =~= first);
        assert(s.skip(k + 1) =~= text::joined(rest, seq!['\n']));
        assert(as_read(lines) =~= seq![text::without_cr(first)] + as_read(rest));
    }
}

/// ASCII letters have a lower case, 32 further on; everything else is its own.
pub proof fn law_only_letters_have_a_lower_case(c: char)
    ensures
        'A' <= c <= 'Z' ==> text::ascii_lower(c) as int == c as int + 32,
        !('A' <= c <= 'Z') ==> text::ascii_lower(c) == c,
{
}

/// Lines end at line feeds. One carriage return before a line feed goes with it, and no other
/// does.
pub proof fn law_lines_end_at_line_feeds(a: Seq<char>, b: Seq<char>)
    requires
        is_line(a),
    ensures
        text::lines_of(a.push('\r').push('\n') + b) == seq![a] + text::lines_of(b),
        a.len() == 0 || a.last() != '\r' ==> text::lines_of(a.push('\n') + b) == seq![a]
            + text::lines_of(b),
        a.len() > 0 ==> text::lines_of(a) == seq![a],
        text::lines_of(Seq::empty()) == Seq::<Seq<char>>::empty(),
{
    let s = a.push('\n') + b;
    let n = a.len() as int;
    text::lemma_index_of(s, '\n', 0);
    assert(s[n] == '\n');
    assert(text::index_of(s, '\n', 0)->0 == n) by {
        let k = text::index_of(s, '\n', 0)->0;
        if k < n {
            assert(s[k] == a[k]);
        }
    }
    assert(s.take(n) =~= a);
    assert(s.skip(n + 1) =~= b);
    let r = a.push('\r').push('\n') + b;
    text::lemma_index_of(r, '\n', 0);
    assert(r[n] == '\r' && r[n + 1] == '\n');
    assert(text::index_of(r, '\n', 0)->0 == n + 1) by {
        let k = text::index_of(r, '\n', 0)->0;
        if k < n {
            assert(r[k] == a[k]);
        }
    }
    assert(r.take(n + 1) =~= a.push('\r'));
    assert(a.push('\r').drop_last() =~= a);
    assert(r.skip(n + 2) =~= b);
    text::lemma_index_of(a, '\n', 0);
}

} // verus!

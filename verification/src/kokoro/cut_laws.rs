//! Where a text is cut, said by how it is written.

use crate::kokoro::sentences;
use crate::kokoro::sentences_laws;
use crate::text;
use crate::text_lemmas;
use vstd::prelude::*;

verus! {

/// A text that is said in one go: there is no line feed in it, and behind a `.`, `!`, `?` or `;`
/// that whitespace follows there is nothing but whitespace.
pub open spec fn is_one_sentence(s: Seq<char>) -> bool {
    &&& forall|i: int| 0 <= i < s.len() ==> #[trigger] s[i] != '\n'
    &&& forall|i: int, j: int|
        0 <= i && i + 1 < j < s.len() && (#[trigger] s[i] == '.' || s[i] == '!' || s[i] == '?'
            || s[i] == ';') && text::is_space(s[i + 1]) ==> text::is_space(#[trigger] s[j])
}

proof fn lemma_blank_pieces(s: Seq<char>, i: int)
    requires
        0 <= i <= s.len(),
        text_lemmas::is_blank(s.skip(i)),
    ensures
        sentences::pieces_from(s, i) == Seq::<Seq<char>>::empty(),
    decreases s.len() - i,
{
    if i < s.len() {
        let rest = s.skip(i);
        text_lemmas::lemma_trimmed(rest);
        sentences::lemma_next_break(s, i);
        match sentences::next_break(s, i) {
            None => {},
            Some(k) => {
                assert(text::is_space(rest[k - i]));
                assert(s[k] == '\n');
                let piece = s.subrange(i, k);
                assert forall|j: int| 0 <= j < piece.len() implies text::is_space(
                    #[trigger] piece[j],
                ) by {
                    assert(piece[j] == rest[j]);
                }
                text_lemmas::lemma_trimmed(piece);
                let tail = s.skip(k + 1);
                assert forall|j: int| 0 <= j < tail.len() implies text::is_space(
                    #[trigger] tail[j],
                ) by {
                    assert(tail[j] == rest[j + k + 1 - i]);
                }
                lemma_blank_pieces(s, k + 1);
                assert(sentences::nonblank(piece) + sentences::pieces_from(s, k + 1) =~= Seq::<
                    Seq<char>,
                >::empty());
            },
        }
    }
}

/// Text that is said in one go is one piece.
proof fn lemma_one_piece(s: Seq<char>)
    requires
        is_one_sentence(s),
    ensures
        sentences::pieces_from(s, 0) == sentences::nonblank(s),
{
    text_lemmas::lemma_trimmed(s);
    if s.len() > 0 {
        assert(s.skip(0) =~= s);
        sentences::lemma_next_break(s, 0);
        match sentences::next_break(s, 0) {
            None => {},
            Some(k) => {
                assert(s[k] != '\n');
                let head = s.subrange(0, k + 1);
                let tail = s.skip(k + 1);
                assert forall|j: int| 0 <= j < tail.len() implies text::is_space(
                    #[trigger] tail[j],
                ) by {
                    assert(tail[j] == s[k + 1 + j]);
                    if j > 0 {
                        assert(text::is_space(s[k + 1]));
                        assert(text::is_space(s[k + 1 + j]));
                    }
                }
                lemma_blank_pieces(s, k + 1);
                lemma_same_trimmed(head, tail);
                assert(head + tail =~= s);
                assert(sentences::nonblank(head) + sentences::pieces_from(s, k + 1)
                    =~= sentences::nonblank(head));
            },
        }
    } else {
        assert(s =~= Seq::<char>::empty());
    }
}

/// Whitespace behind a text does not change what is left of it.
proof fn lemma_same_trimmed(head: Seq<char>, tail: Seq<char>)
    requires
        head.len() > 0,
        !text::is_space(head.last()),
        text_lemmas::is_blank(tail),
    ensures
        text::trimmed(head + tail) == text::trimmed(head),
{
    let x = text::trimmed_start(head);
    let n = head.len() - x.len();
    text_lemmas::lemma_trimmed_start(head);
    if x.len() == 0 {
        assert(text::is_space(head.take(n)[head.len() - 1]));
    }
    assert(x.last() == head.last());
    let a = head.take(n);
    assert(a + (x + tail) =~= head + tail);
    text_lemmas::lemma_trimmed_start_of(a, x + tail);
    text_lemmas::lemma_trimmed_end_of(x, tail);
    text_lemmas::lemma_trimmed_end_of(x, Seq::empty());
    assert(x + Seq::<char>::empty() =~= x);
}

/// A text without a line feed, in which no `.`, `!`, `?` or `;` has whitespace and then more text
/// behind it, is one chunk if it is no longer than 300 characters: the text without the
/// whitespace around it. No other character cuts it.
pub proof fn law_one_sentence_is_one_chunk(s: Seq<char>)
    requires
        s.len() <= 300,
        is_one_sentence(s),
        !text_lemmas::is_blank(s),
    ensures
        sentences::sentences_of(s) == seq![text::trimmed(s)],
{
    let t = text::trimmed(s);
    text_lemmas::lemma_trimmed(s);
    lemma_one_piece(s);
    let pieces = seq![t];
    assert(sentences::fitted(pieces, 0) =~= Seq::<Seq<char>>::empty());
    assert(sentences::fitted(pieces, 1) =~= seq![t]);
    assert(sentences::grouped(seq![t], 0) =~= Seq::<Seq<Seq<char>>>::empty());
    assert(sentences::grouped(seq![t], 1) =~= seq![seq![t]]);
    assert(sentences::said(seq![t]) == t);
    assert(sentences::merged(seq![t], 1) =~= seq![t]);
}

// ---- cutting ----
/// Breaks of `x` and of the text that starts with it are the same, and its last character is
/// one: the pieces of the text are those of `x`, and then those of the rest.
proof fn lemma_pieces_split(s: Seq<char>, x: Seq<char>, i: int)
    requires
        0 < x.len() <= s.len(),
        x == s.take(x.len() as int),
        0 <= i <= x.len(),
        sentences::is_break(s, x.len() - 1),
        forall|j: int|
            0 <= j < x.len() ==> #[trigger] sentences::is_break(x, j) == sentences::is_break(s, j),
    ensures
        sentences::pieces_from(s, i) == sentences::pieces_from(x, i) + sentences::pieces_from(
            s,
            x.len() as int,
        ),
    decreases x.len() - i,
{
    let n = x.len() as int;
    if i == n {
        assert(sentences::pieces_from(x, i) + sentences::pieces_from(s, n)
            =~= sentences::pieces_from(s, n));
    } else {
        sentences::lemma_next_break(s, i);
        sentences::lemma_next_break(x, i);
        let k = sentences::next_break(s, i)->0;
        let l = sentences::next_break(x, i)->0;
        assert(sentences::is_break(x, n - 1));
        assert(sentences::next_break(s, i) is Some && k < n);
        assert(sentences::next_break(x, i) is Some);
        assert(k == l) by {
            if k < l {
                assert(sentences::is_break(x, k));
            } else if l < k {
                assert(sentences::is_break(s, l));
            }
        }
        assert(s[k] == x[k]);
        let end = if s[k] == '\n' {
            k
        } else {
            k + 1
        };
        assert(s.subrange(i, end) =~= x.subrange(i, end));
        lemma_pieces_split(s, x, k + 1);
        let first = sentences::nonblank(s.subrange(i, end));
        assert(first + (sentences::pieces_from(x, k + 1) + sentences::pieces_from(s, n)) =~= (first
            + sentences::pieces_from(x, k + 1)) + sentences::pieces_from(s, n));
    }
}

proof fn lemma_next_break_shift(s: Seq<char>, y: Seq<char>, n: int, i: int)
    requires
        0 <= n <= s.len(),
        y == s.skip(n),
        0 <= i <= y.len(),
    ensures
        match sentences::next_break(y, i) {
            Some(k) => sentences::next_break(s, n + i) == Some(n + k),
            None => sentences::next_break(s, n + i) is None,
        },
    decreases y.len() - i,
{
    if i < y.len() {
        assert(y[i] == s[n + i]);
        if i + 1 < y.len() {
            assert(y[i + 1] == s[n + i + 1]);
        }
        assert(sentences::is_break(y, i) == sentences::is_break(s, n + i));
        if !sentences::is_break(y, i) {
            lemma_next_break_shift(s, y, n, i + 1);
        }
    }
}

/// What stands before a text does not change its pieces.
proof fn lemma_pieces_shift(s: Seq<char>, y: Seq<char>, n: int, i: int)
    requires
        0 <= n <= s.len(),
        y == s.skip(n),
        0 <= i <= y.len(),
    ensures
        sentences::pieces_from(s, n + i) == sentences::pieces_from(y, i),
    decreases y.len() - i,
{
    if i < y.len() {
        lemma_next_break_shift(s, y, n, i);
        sentences::lemma_next_break(y, i);
        match sentences::next_break(y, i) {
            None => {
                assert(s.skip(n + i) =~= y.skip(i));
            },
            Some(k) => {
                assert(y[k] == s[n + k]);
                let end = if y[k] == '\n' {
                    k
                } else {
                    k + 1
                };
                assert(s.subrange(n + i, n + end) =~= y.subrange(i, end));
                lemma_pieces_shift(s, y, n, k + 1);
            },
        }
    }
}

/// Whitespace before a text does not change its pieces.
proof fn lemma_pieces_behind_space(y: Seq<char>)
    requires
        y.len() > 0,
        text::is_space(y[0]),
    ensures
        sentences::pieces_from(y, 0) == sentences::pieces_from(y.drop_first(), 0),
{
    let b = y.drop_first();
    assert(b =~= y.skip(1));
    lemma_pieces_shift(y, b, 1, 0);
    sentences::lemma_next_break(y, 0);
    if y[0] == '\n' {
        let none = y.subrange(0, 0);
        assert(none =~= Seq::<char>::empty());
        assert(sentences::nonblank(none) + sentences::pieces_from(y, 1) =~= sentences::pieces_from(
            y,
            1,
        ));
    } else {
        assert(!sentences::is_break(y, 0));
        assert(sentences::next_break(y, 0) == sentences::next_break(y, 1));
        if y.len() == 1 {
            text_lemmas::lemma_trimmed(y);
            assert(y.skip(0) =~= y);
            assert(text_lemmas::is_blank(y));
        } else {
            match sentences::next_break(y, 0) {
                None => {
                    assert(y.skip(0).drop_first() =~= y.skip(1));
                },
                Some(k) => {
                    let end = if y[k] == '\n' {
                        k
                    } else {
                        k + 1
                    };
                    assert(k > 0);
                    assert(y.subrange(0, end).drop_first() =~= y.subrange(1, end));
                },
            }
        }
    }
}

/// A text is cut behind a `.`, `!`, `?` or `;` that whitespace follows: the pieces on both sides
/// are those that each side has alone.
proof fn lemma_pieces_around_stop(a: Seq<char>, c: char, w: char, b: Seq<char>)
    requires
        c == '.' || c == '!' || c == '?' || c == ';',
        text::is_space(w),
    ensures
        sentences::pieces_from(a.push(c).push(w) + b, 0) == sentences::pieces_from(a.push(c), 0)
            + sentences::pieces_from(b, 0),
{
    let x = a.push(c);
    let s = x.push(w) + b;
    let n = x.len() as int;
    assert(x =~= s.take(n));
    assert(s[n - 1] == c && s[n] == w);
    assert forall|j: int| 0 <= j < n implies #[trigger] sentences::is_break(x, j)
        == sentences::is_break(s, j) by {
        assert(x[j] == s[j]);
        if j + 1 < n {
            assert(x[j + 1] == s[j + 1]);
        }
    }
    lemma_pieces_split(s, x, 0);
    let y = s.skip(n);
    lemma_pieces_shift(s, y, n, 0);
    assert(y[0] == w);
    lemma_pieces_behind_space(y);
    assert(y.drop_first() =~= b);
}

/// A text is cut at a line feed.
proof fn lemma_pieces_around_line_feed(a: Seq<char>, b: Seq<char>)
    ensures
        sentences::pieces_from(a.push('\n') + b, 0) == sentences::pieces_from(a, 0)
            + sentences::pieces_from(b, 0),
{
    let x = a.push('\n');
    let s = x + b;
    let n = x.len() as int;
    assert(x =~= s.take(n));
    assert(s[n - 1] == '\n');
    assert forall|j: int| 0 <= j < n implies #[trigger] sentences::is_break(x, j)
        == sentences::is_break(s, j) by {
        assert(x[j] == s[j]);
        if j + 1 < n {
            assert(x[j + 1] == s[j + 1]);
        }
    }
    lemma_pieces_split(s, x, 0);
    assert(s.skip(n) =~= b);
    lemma_pieces_shift(s, b, n, 0);
    lemma_pieces_before_line_feed(a, 0);
}

/// A line feed at the end changes no piece.
proof fn lemma_pieces_before_line_feed(a: Seq<char>, i: int)
    requires
        0 <= i <= a.len(),
    ensures
        sentences::pieces_from(a.push('\n'), i) == sentences::pieces_from(a, i),
    decreases a.len() - i,
{
    let x = a.push('\n');
    let n = a.len() as int;
    assert forall|j: int| 0 <= j < n implies #[trigger] sentences::is_break(x, j)
        == sentences::is_break(a, j) by {
        assert(x[j] == a[j]);
        if j + 1 < n {
            assert(x[j + 1] == a[j + 1]);
        }
    }
    assert(sentences::is_break(x, n));
    sentences::lemma_next_break(x, i);
    sentences::lemma_next_break(a, i);
    let k = sentences::next_break(x, i)->0;
    assert(sentences::next_break(x, i) is Some);
    if k == n {
        assert(sentences::next_break(a, i) is None) by {
            if sentences::next_break(a, i) is Some {
                assert(sentences::is_break(x, sentences::next_break(a, i)->0));
            }
        }
        assert(x.subrange(i, n) =~= a.skip(i));
        text_lemmas::lemma_trimmed(a.skip(i));
        assert(sentences::pieces_from(x, n + 1) =~= Seq::<Seq<char>>::empty());
        assert(sentences::pieces_from(x, i) =~= sentences::nonblank(a.skip(i)));
    } else {
        let l = sentences::next_break(a, i)->0;
        assert(sentences::is_break(a, k));
        assert(sentences::next_break(a, i) is Some && k == l) by {
            if sentences::next_break(a, i) is Some {
                assert(sentences::is_break(x, l));
            }
        }
        assert(x[k] == a[k]);
        let end = if a[k] == '\n' {
            k
        } else {
            k + 1
        };
        assert(x.subrange(i, end) =~= a.subrange(i, end));
        lemma_pieces_before_line_feed(a, k + 1);
    }
}

proof fn lemma_fitted_push(pieces: Seq<Seq<char>>, t: Seq<char>, n: int)
    requires
        0 <= n <= pieces.len(),
    ensures
        sentences::fitted(pieces.push(t), n) == sentences::fitted(pieces, n),
    decreases n,
{
    if n > 0 {
        lemma_fitted_push(pieces, t, n - 1);
        assert(pieces.push(t)[n - 1] == pieces[n - 1]);
    }
}

proof fn lemma_grouped_push(lines: Seq<Seq<char>>, t: Seq<char>, n: int)
    requires
        0 <= n <= lines.len(),
    ensures
        sentences::grouped(lines.push(t), n) == sentences::grouped(lines, n),
    decreases n,
{
    if n > 0 {
        lemma_grouped_push(lines, t, n - 1);
        assert(lines.push(t)[n - 1] == lines[n - 1]);
    }
}

/// What one more piece of at most 300 characters does to the chunks.
proof fn lemma_one_more_piece(s: Seq<char>, x: Seq<char>, t: Seq<char>)
    requires
        sentences::pieces_from(s, 0) == sentences::pieces_from(x, 0).push(t),
        0 < t.len() <= 300,
    ensures
        t.len() >= 16 ==> sentences::sentences_of(s) == sentences::sentences_of(x).push(t),
        t.len() < 16 && sentences::sentences_of(x).len() > 0 && sentences::sentences_of(
            x,
        ).last().len() + 1 + t.len() <= 316 ==> sentences::sentences_of(s)
            == sentences::sentences_of(x).drop_last().push(
            sentences::sentences_of(x).last() + seq![' '] + t,
        ),
{
    let pieces = sentences::pieces_from(x, 0);
    let n = pieces.len() as int;
    let lines = sentences::fitted(pieces, n);
    lemma_fitted_push(pieces, t, n);
    assert(sentences::fitted(pieces.push(t), n + 1) == lines.push(t));
    let m = lines.len() as int;
    lemma_grouped_push(lines, t, m);
    let groups = sentences::grouped(lines, m);
    assert(sentences::grouped(lines.push(t), m + 1) == sentences::placed(groups, t));
    let before = sentences::sentences_of(x);
    let after = sentences::sentences_of(s);
    assert(before == sentences::all_said(groups));
    assert(after == sentences::all_said(sentences::placed(groups, t)));
    assert(sentences::said(seq![t]) == t);
    if t.len() >= 16 {
        assert(after =~= before.push(t));
    } else if groups.len() > 0 {
        sentences_laws::lemma_groups_are_not_empty(lines, m);
        let g = groups.last();
        assert(g == groups[groups.len() - 1]);
        let longer = g.push(t);
        assert(longer.drop_last() =~= g);
        assert(sentences::said(longer) =~= sentences::said(g) + seq![' '] + t);
        assert(before.last() == sentences::said(g));
        if before.last().len() + 1 + t.len() <= 316 {
            assert(after =~= before.drop_last().push(before.last() + seq![' '] + t));
        }
    }
}

/// A text is cut behind every `.`, `!`, `?` or `;` that whitespace follows: a sentence of 16 to
/// 300 characters behind it is a chunk of its own, and what stands before it is cut as it would
/// be without it. A shorter one joins the chunk before it, with a space between them, as long as
/// that stays within 316 characters.
pub proof fn law_text_is_cut_behind_stops(a: Seq<char>, c: char, w: char, b: Seq<char>)
    requires
        c == '.' || c == '!' || c == '?' || c == ';',
        text::is_space(w),
        is_one_sentence(b),
        0 < text::trimmed(b).len() <= 300,
    ensures
        ({
            let before = sentences::sentences_of(a.push(c));
            let after = sentences::sentences_of(a.push(c).push(w) + b);
            let t = text::trimmed(b);
            &&& t.len() >= 16 ==> after == before.push(t)
            &&& t.len() < 16 && before.last().len() + 1 + t.len() <= 316 ==> after
                == before.drop_last().push(before.last() + seq![' '] + t)
        }),
{
    let x = a.push(c);
    let t = text::trimmed(b);
    lemma_pieces_around_stop(a, c, w, b);
    lemma_one_piece(b);
    assert(sentences::pieces_from(x, 0) + seq![t] =~= sentences::pieces_from(x, 0).push(t));
    lemma_one_more_piece(x.push(w) + b, x, t);
    sentences_laws::law_only_blank_text_is_silent(x);
    text_lemmas::lemma_trimmed(x);
    assert(!text::is_space(x[x.len() - 1]));
}

/// A text is cut at every line feed, and the line feed goes: a sentence behind it is a chunk of
/// its own if it has 16 to 300 characters, and joins the chunk before it if it is shorter. What
/// stands before it is cut as it would be alone.
pub proof fn law_text_is_cut_at_line_feeds(a: Seq<char>, b: Seq<char>)
    requires
        is_one_sentence(b),
        0 < text::trimmed(b).len() <= 300,
        !text_lemmas::is_blank(a),
    ensures
        ({
            let before = sentences::sentences_of(a);
            let after = sentences::sentences_of(a.push('\n') + b);
            let t = text::trimmed(b);
            &&& t.len() >= 16 ==> after == before.push(t)
            &&& t.len() < 16 && before.last().len() + 1 + t.len() <= 316 ==> after
                == before.drop_last().push(before.last() + seq![' '] + t)
        }),
{
    let t = text::trimmed(b);
    lemma_pieces_around_line_feed(a, b);
    lemma_one_piece(b);
    assert(sentences::pieces_from(a, 0) + seq![t] =~= sentences::pieces_from(a, 0).push(t));
    lemma_one_more_piece(a.push('\n') + b, a, t);
    sentences_laws::law_only_blank_text_is_silent(a);
    text_lemmas::lemma_trimmed(a);
}

/// A line feed behind a text changes none of its chunks.
pub proof fn law_trailing_line_feeds_change_nothing(a: Seq<char>)
    ensures
        sentences::sentences_of(a.push('\n')) == sentences::sentences_of(a),
{
    lemma_pieces_before_line_feed(a, 0);
}

// ---- wrapping ----
/// Line `k` is as full as it can be: the first word of the next line does not fit on it, or it
/// ends in a comma and is half full.
pub open spec fn is_full(lines: Seq<Seq<char>>, k: int, max: nat) -> bool {
    ||| lines[k].len() + 1 + text::words_of(lines[k + 1])[0].len() > max
    ||| lines[k].last() == ',' && lines[k].len() >= max / 2
}

/// No word of a line but the last ends in a comma in the second half of the line.
pub open spec fn has_no_early_comma(line: Seq<char>, max: nat) -> bool {
    forall|i: int|
        0 <= i && i + 1 < line.len() && #[trigger] line[i] == ',' && line[i + 1] == ' ' ==> i + 1
            < max / 2
}

spec fn all_words(words: Seq<Seq<char>>) -> bool {
    forall|i: int| 0 <= i < words.len() ==> text_lemmas::is_word(#[trigger] words[i])
}

proof fn lemma_packed_is_greedy(words: Seq<Seq<char>>, line: Seq<char>, max: nat)
    requires
        all_words(words),
        line.len() > 0 ==> text::words_of(line).len() > 0,
        line.len() > 0 ==> has_no_early_comma(line, max) && (line.last() == ',' ==> line.len() < max
            / 2),
    ensures
        ({
            let lines = sentences::packed(words, line, max);
            &&& line.len() > 0 || words.len() > 0 ==> lines.len() > 0
            &&& line.len() > 0 ==> text::words_of(lines[0]).len() > 0 && text::words_of(lines[0])[0]
                == text::words_of(line)[0]
            &&& line.len() == 0 && words.len() > 0 ==> text::words_of(lines[0]).len() > 0
                && text::words_of(lines[0])[0] == words[0]
            &&& forall|k: int| 0 <= k && k + 1 < lines.len() ==> #[trigger] is_full(lines, k, max)
            &&& forall|k: int|
                0 <= k < lines.len() ==> has_no_early_comma(#[trigger] lines[k], max)
        }),
    decreases words.len(),
{
    let lines = sentences::packed(words, line, max);
    if words.len() > 0 {
        let word = words[0];
        let rest = words.drop_first();
        assert(text_lemmas::is_word(word));
        assert forall|i: int| 0 <= i < rest.len() implies text_lemmas::is_word(
            #[trigger] rest[i],
        ) by {
            assert(rest[i] == words[i + 1]);
        }
        let full = line.len() > 0 && line.len() + 1 + word.len() > max;
        let done = if full {
            seq![line]
        } else {
            Seq::empty()
        };
        let longer = if full {
            word
        } else {
            sentences::with_word(line, word)
        };
        lemma_word_added(line, word, max);
        lemma_word_added(Seq::empty(), word, max);
        let closes = longer.last() == ',' && longer.len() >= max / 2;
        let next = if closes {
            Seq::empty()
        } else {
            longer
        };
        lemma_packed_is_greedy(rest, next, max);
        let tail = sentences::packed(rest, next, max);
        let head = if closes {
            done.push(longer)
        } else {
            done
        };
        assert(lines == head + tail);
        assert forall|k: int| 0 <= k < lines.len() implies has_no_early_comma(
            #[trigger] lines[k],
            max,
        ) by {
            if k >= head.len() {
                assert(lines[k] == tail[k - head.len()]);
            }
        }
        assert forall|k: int| 0 <= k && k + 1 < lines.len() implies #[trigger] is_full(
            lines,
            k,
            max,
        ) by {
            if k >= head.len() {
                assert(is_full(tail, k - head.len(), max));
                assert(lines[k] == tail[k - head.len()]);
                assert(lines[k + 1] == tail[k + 1 - head.len()]);
            } else if k + 1 < head.len() {
                assert(lines[k] == line && lines[k + 1] == word);
            } else if closes {
                assert(lines[k] == longer);
            } else {
                assert(lines[k] == line && lines[k + 1] == tail[0]);
            }
        }
    }
}

proof fn lemma_word_added(line: Seq<char>, word: Seq<char>, max: nat)
    requires
        text_lemmas::is_word(word),
        line.len() > 0 ==> text::words_of(line).len() > 0,
        line.len() > 0 ==> has_no_early_comma(line, max) && (line.last() == ',' ==> line.len() < max
            / 2),
    ensures
        ({
            let longer = sentences::with_word(line, word);
            &&& longer.len() > 0
            &&& text::words_of(longer).len() > 0
            &&& text::words_of(longer)[0] == if line.len() > 0 {
                text::words_of(line)[0]
            } else {
                word
            }
            &&& has_no_early_comma(longer, max)
        }),
{
    let longer = sentences::with_word(line, word);
    text_lemmas::lemma_words_of_word(word);
    if line.len() > 0 {
        text_lemmas::lemma_words_split(line, ' ', word);
        assert(line.push(' ') + word =~= longer);
    }
    assert forall|i: int|
        0 <= i && i + 1 < longer.len() && #[trigger] longer[i] == ',' && longer[i + 1] == ' ' implies i
        + 1 < max / 2 by {
        if line.len() > 0 {
            if i + 1 < line.len() {
                assert(line[i] == ',' && line[i + 1] == ' ');
            } else if i + 1 > line.len() {
                assert(!text::is_space(word[i + 1 - line.len() - 1]));
            } else {
                assert(line.last() == ',');
            }
        } else {
            assert(!text::is_space(word[i + 1]));
        }
    }
}

/// Wrapping is greedy: a line ends only where the next word no longer fits, or behind a comma
/// once it is half full; and behind such a comma it always ends.
pub proof fn law_wrapping_is_greedy(s: Seq<char>, max: nat)
    ensures
        ({
            let lines = sentences::wrapped(s, max);
            &&& forall|k: int| 0 <= k && k + 1 < lines.len() ==> #[trigger] is_full(lines, k, max)
            &&& forall|k: int|
                0 <= k < lines.len() ==> has_no_early_comma(#[trigger] lines[k], max)
        }),
{
    text_lemmas::lemma_words_are_words(s);
    lemma_packed_is_greedy(text::words_of(s), Seq::empty(), max);
}

/// A sentence of more than 300 characters is wrapped into lines of at most 300, and those that
/// are no fragments are the chunks.
pub proof fn law_long_sentences_are_wrapped(s: Seq<char>)
    requires
        is_one_sentence(s),
        text::trimmed(s).len() > 300,
        forall|k: int|
            0 <= k < sentences::wrapped(text::trimmed(s), 300).len() ==> (
            #[trigger] sentences::wrapped(text::trimmed(s), 300)[k]).len() >= 16,
    ensures
        sentences::sentences_of(s) == sentences::wrapped(text::trimmed(s), 300),
{
    let t = text::trimmed(s);
    lemma_one_piece(s);
    let lines = sentences::wrapped(t, 300);
    assert(sentences::fitted(seq![t], 0) =~= Seq::<Seq<char>>::empty());
    assert(sentences::fitted(seq![t], 1) =~= lines);
    lemma_no_fragments(lines, lines.len() as int);
    assert(lines.take(lines.len() as int) =~= lines);
}

proof fn lemma_no_fragments(lines: Seq<Seq<char>>, n: int)
    requires
        0 <= n <= lines.len(),
        forall|k: int| 0 <= k < lines.len() ==> (#[trigger] lines[k]).len() >= 16,
    ensures
        sentences::merged(lines, n) == lines.take(n),
    decreases n,
{
    if n > 0 {
        lemma_no_fragments(lines, n - 1);
        let groups = sentences::grouped(lines, n - 1);
        assert(lines[n - 1].len() >= 16);
        assert(sentences::said(seq![lines[n - 1]]) == lines[n - 1]);
        assert(sentences::merged(lines, n) =~= sentences::merged(lines, n - 1).push(lines[n - 1]));
        assert(lines.take(n) =~= lines.take(n - 1).push(lines[n - 1]));
    } else {
        assert(sentences::merged(lines, n) =~= lines.take(n));
    }
}

} // verus!

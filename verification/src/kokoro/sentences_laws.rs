//! What sentence splitting promises of every text.

use crate::kokoro::sentences;
use crate::text;
use crate::text_lemmas;
use vstd::prelude::*;

verus! {

/// The words of all chunks, in order.
pub open spec fn spoken_words(chunks: Seq<Seq<char>>) -> Seq<Seq<char>>
    decreases chunks.len(),
{
    if chunks.len() == 0 {
        Seq::empty()
    } else {
        spoken_words(chunks.drop_last()) + text::words_of(chunks.last())
    }
}

proof fn lemma_spoken_words_push(a: Seq<Seq<char>>, c: Seq<char>)
    ensures
        spoken_words(a.push(c)) == spoken_words(a) + text::words_of(c),
{
    assert(a.push(c).drop_last() =~= a);
}

proof fn lemma_spoken_words_add(a: Seq<Seq<char>>, b: Seq<Seq<char>>)
    ensures
        spoken_words(a + b) == spoken_words(a) + spoken_words(b),
    decreases b.len(),
{
    if b.len() == 0 {
        assert(a + b =~= a);
        assert(spoken_words(a) + spoken_words(b) =~= spoken_words(a));
    } else {
        lemma_spoken_words_add(a, b.drop_last());
        assert((a + b).drop_last() =~= a + b.drop_last());
        assert((spoken_words(a) + spoken_words(b.drop_last())) + text::words_of(b.last())
            =~= spoken_words(a) + spoken_words(b));
    }
}

proof fn lemma_nonblank(piece: Seq<char>)
    ensures
        spoken_words(sentences::nonblank(piece)) == text::words_of(piece),
{
    text_lemmas::lemma_trimmed(piece);
    if text::trimmed(piece).len() == 0 {
        assert(text::words_of(piece) =~= Seq::<Seq<char>>::empty());
    } else {
        lemma_spoken_words_push(Seq::empty(), text::trimmed(piece));
        assert(Seq::<Seq<char>>::empty().push(text::trimmed(piece)) =~= sentences::nonblank(piece));
        assert(spoken_words(Seq::empty()) + text::words_of(text::trimmed(piece)) =~= text::words_of(
            piece,
        ));
    }
}

proof fn lemma_pieces_words(s: Seq<char>, i: int)
    requires
        0 <= i <= s.len(),
    ensures
        spoken_words(sentences::pieces_from(s, i)) == text::words_of(s.skip(i)),
    decreases s.len() - i,
{
    if i == s.len() {
        assert(s.skip(i) =~= Seq::<char>::empty());
    } else {
        sentences::lemma_next_break(s, i);
        match sentences::next_break(s, i) {
            None => lemma_nonblank(s.skip(i)),
            Some(k) => {
                let end = if s[k] == '\n' {
                    k
                } else {
                    k + 1
                };
                let piece = s.subrange(i, end);
                lemma_nonblank(piece);
                lemma_pieces_words(s, k + 1);
                lemma_spoken_words_add(
                    sentences::nonblank(piece),
                    sentences::pieces_from(s, k + 1),
                );
                if s[k] == '\n' {
                    text_lemmas::lemma_words_split(piece, '\n', s.skip(k + 1));
                    assert(piece.push('\n') + s.skip(k + 1) =~= s.skip(i));
                } else if k + 1 == s.len() {
                    assert(piece =~= s.skip(i));
                    assert(s.skip(k + 1) =~= Seq::<char>::empty());
                    assert(text::words_of(piece) + text::words_of(s.skip(k + 1)) =~= text::words_of(
                        piece,
                    ));
                } else {
                    text_lemmas::lemma_words_split(piece, s[k + 1], s.skip(k + 2));
                    assert(piece.push(s[k + 1]) + s.skip(k + 2) =~= s.skip(i));
                    assert(s.skip(k + 1).drop_first() =~= s.skip(k + 2));
                }
            },
        }
    }
}

spec fn all_words(words: Seq<Seq<char>>) -> bool {
    forall|i: int| 0 <= i < words.len() ==> text_lemmas::is_word(#[trigger] words[i])
}

proof fn lemma_with_word(line: Seq<char>, word: Seq<char>)
    requires
        text_lemmas::is_word(word),
    ensures
        text::words_of(sentences::with_word(line, word)) == text::words_of(line).push(word),
{
    text_lemmas::lemma_words_of_word(word);
    if line.len() == 0 {
        assert(text::words_of(line).push(word) =~= seq![word]);
    } else {
        text_lemmas::lemma_words_split(line, ' ', word);
        assert(text::words_of(line) + seq![word] =~= text::words_of(line).push(word));
    }
}

proof fn lemma_packed_words(words: Seq<Seq<char>>, line: Seq<char>, max: nat)
    requires
        all_words(words),
    ensures
        spoken_words(sentences::packed(words, line, max)) == text::words_of(line) + words,
    decreases words.len(),
{
    if words.len() == 0 {
        if line.len() == 0 {
            assert(line =~= Seq::<char>::empty());
            assert(text::words_of(line) + words =~= Seq::<Seq<char>>::empty());
        } else {
            lemma_spoken_words_push(Seq::empty(), line);
            assert(Seq::<Seq<char>>::empty().push(line) =~= seq![line]);
            assert(spoken_words(Seq::empty()) + text::words_of(line) =~= text::words_of(line)
                + words);
        }
    } else {
        let word = words[0];
        let rest = words.drop_first();
        assert(text_lemmas::is_word(word));
        assert(all_words(rest));
        let full = line.len() > 0 && line.len() + 1 + word.len() > max;
        let done = if full {
            seq![line]
        } else {
            Seq::empty()
        };
        let longer = if full {
            word
        } else {
            sentences::with_word(line, word)
        };
        lemma_with_word(line, word);
        text_lemmas::lemma_words_of_word(word);
        lemma_spoken_words_push(Seq::empty(), line);
        assert(Seq::<Seq<char>>::empty().push(line) =~= seq![line]);
        assert(spoken_words(Seq::empty()) + text::words_of(line) =~= text::words_of(line));
        assert(spoken_words(done) + text::words_of(longer) =~= text::words_of(line).push(word));
        assert(text::words_of(line).push(word) + rest =~= text::words_of(line) + words);
        if longer.len() > 0 && longer.last() == ',' && longer.len() >= max / 2 {
            lemma_packed_words(rest, Seq::empty(), max);
            lemma_spoken_words_push(done, longer);
            lemma_spoken_words_add(
                done.push(longer),
                sentences::packed(rest, Seq::empty(), max),
            );
            assert(text::words_of(Seq::empty()) + rest =~= rest);
        } else {
            lemma_packed_words(rest, longer, max);
            lemma_spoken_words_add(done, sentences::packed(rest, longer, max));
            assert(spoken_words(done) + (text::words_of(longer) + rest) =~= (spoken_words(done)
                + text::words_of(longer)) + rest);
        }
    }
}

proof fn lemma_wrapped_words(s: Seq<char>, max: nat)
    ensures
        spoken_words(sentences::wrapped(s, max)) == text::words_of(s),
{
    text_lemmas::lemma_words_are_words(s);
    lemma_packed_words(text::words_of(s), Seq::empty(), max);
    assert(text::words_of(Seq::empty()) + text::words_of(s) =~= text::words_of(s));
}

proof fn lemma_fitted_words(chunks: Seq<Seq<char>>, n: int)
    requires
        0 <= n <= chunks.len(),
    ensures
        spoken_words(sentences::fitted(chunks, n)) == spoken_words(chunks.take(n)),
    decreases n,
{
    if n > 0 {
        lemma_fitted_words(chunks, n - 1);
        let before = sentences::fitted(chunks, n - 1);
        assert(chunks.take(n) =~= chunks.take(n - 1).push(chunks[n - 1]));
        lemma_spoken_words_push(chunks.take(n - 1), chunks[n - 1]);
        if chunks[n - 1].len() <= sentences::MAX_CHARS {
            lemma_spoken_words_push(before, chunks[n - 1]);
        } else {
            let lines = sentences::wrapped(chunks[n - 1], sentences::MAX_CHARS as nat);
            lemma_wrapped_words(chunks[n - 1], sentences::MAX_CHARS as nat);
            lemma_spoken_words_add(before, lines);
        }
    } else {
        assert(chunks.take(n) =~= Seq::<Seq<char>>::empty());
    }
}

/// A group of lines says what its lines say.
proof fn lemma_said_words(lines: Seq<Seq<char>>)
    ensures
        text::words_of(sentences::said(lines)) == spoken_words(lines),
    decreases lines.len(),
{
    if lines.len() == 1 {
        assert(lines.drop_last() =~= Seq::<Seq<char>>::empty());
        assert(spoken_words(lines.drop_last()) =~= Seq::<Seq<char>>::empty());
        assert(spoken_words(lines) =~= text::words_of(lines[0]));
    } else if lines.len() > 1 {
        let front = sentences::said(lines.drop_last());
        lemma_said_words(lines.drop_last());
        text_lemmas::lemma_words_split(front, ' ', lines.last());
        assert(front.push(' ') + lines.last() =~= sentences::said(lines));
    }
}

/// The lines of all groups, in order.
spec fn flat(groups: Seq<Seq<Seq<char>>>) -> Seq<Seq<char>>
    decreases groups.len(),
{
    if groups.len() == 0 {
        Seq::empty()
    } else {
        flat(groups.drop_last()) + groups.last()
    }
}

proof fn lemma_flat_push(groups: Seq<Seq<Seq<char>>>, lines: Seq<Seq<char>>)
    ensures
        flat(groups.push(lines)) == flat(groups) + lines,
{
    assert(groups.push(lines).drop_last() =~= groups);
}

proof fn lemma_flat_words(groups: Seq<Seq<Seq<char>>>)
    ensures
        spoken_words(sentences::all_said(groups)) == spoken_words(flat(groups)),
    decreases groups.len(),
{
    if groups.len() > 0 {
        lemma_flat_words(groups.drop_last());
        lemma_said_words(groups.last());
        lemma_spoken_words_add(flat(groups.drop_last()), groups.last());
        assert(sentences::all_said(groups).drop_last() =~= sentences::all_said(groups.drop_last()));
        assert(sentences::all_said(groups).last() == sentences::said(groups.last()));
    }
}

proof fn lemma_tail_from(lines: Seq<Seq<char>>, k: int)
    requires
        k < lines.len(),
    ensures
        match sentences::tail_from(lines, k) {
            Some(j) => {
                &&& 0 < j <= k
                &&& sentences::said(lines.skip(j)).len() >= sentences::MIN_CHARS
                &&& j < k ==> sentences::said(lines.skip(j + 1)).len() < sentences::MIN_CHARS
            },
            None => k > 0 ==> sentences::said(lines.skip(1)).len() < sentences::MIN_CHARS,
        },
    decreases k,
{
    if k > 0 && sentences::said(lines.skip(k)).len() < sentences::MIN_CHARS {
        lemma_tail_from(lines, k - 1);
    }
}

/// No line is lost when lines are grouped.
proof fn lemma_grouped_flat(lines: Seq<Seq<char>>, n: int)
    requires
        0 <= n <= lines.len(),
    ensures
        flat(sentences::grouped(lines, n)) == lines.take(n),
    decreases n,
{
    if n > 0 {
        lemma_grouped_flat(lines, n - 1);
        let groups = sentences::grouped(lines, n - 1);
        let line = lines[n - 1];
        assert(lines.take(n) =~= lines.take(n - 1).push(line));
        lemma_flat_push(groups, seq![line]);
        if groups.len() > 0 {
            let before = groups.drop_last();
            let longer = groups.last().push(line);
            let k = sentences::tail_from(longer, longer.len() - 1);
            lemma_tail_from(longer, longer.len() - 1);
            lemma_flat_push(before, longer);
            assert(flat(before) + longer =~= lines.take(n));
            if k is Some {
                lemma_flat_push(before, longer.take(k->0));
                lemma_flat_push(before.push(longer.take(k->0)), longer.skip(k->0));
                assert(flat(before) + longer.take(k->0) + longer.skip(k->0) =~= flat(before)
                    + longer);
            }
        }
        assert(flat(sentences::grouped(lines, n)) =~= lines.take(n));
    } else {
        assert(lines.take(n) =~= Seq::<Seq<char>>::empty());
    }
}

proof fn lemma_merged_words(chunks: Seq<Seq<char>>, n: int)
    requires
        0 <= n <= chunks.len(),
    ensures
        spoken_words(sentences::merged(chunks, n)) == spoken_words(chunks.take(n)),
{
    lemma_grouped_flat(chunks, n);
    lemma_flat_words(sentences::grouped(chunks, n));
}

/// No prose is lost and none is made up: the words of the chunks, in order, are the words
/// of the text.
pub proof fn law_every_word_is_spoken_once(s: Seq<char>)
    ensures
        spoken_words(sentences::sentences_of(s)) == text::words_of(s),
{
    let pieces = sentences::pieces_from(s, 0);
    let lines = sentences::fitted(pieces, pieces.len() as int);
    lemma_pieces_words(s, 0);
    assert(s.skip(0) =~= s);
    lemma_fitted_words(pieces, pieces.len() as int);
    assert(pieces.take(pieces.len() as int) =~= pieces);
    lemma_merged_words(lines, lines.len() as int);
    assert(lines.take(lines.len() as int) =~= lines);
}


/// An utterance: something to say, no whitespace around it, all on one line.
pub open spec fn is_utterance(c: Seq<char>) -> bool {
    text_lemmas::is_tight(c) && forall|i: int| 0 <= i < c.len() ==> #[trigger] c[i] != '\n'
}

pub open spec fn are_utterances(chunks: Seq<Seq<char>>) -> bool {
    forall|k: int| 0 <= k < chunks.len() ==> is_utterance(#[trigger] chunks[k])
}

proof fn lemma_nonblank_utterance(piece: Seq<char>)
    requires
        forall|i: int| 0 <= i < piece.len() ==> #[trigger] piece[i] != '\n',
    ensures
        are_utterances(sentences::nonblank(piece)),
{
    text_lemmas::lemma_trimmed(piece);
    text_lemmas::lemma_trimmed_start(piece);
    let a = text::trimmed_start(piece);
    text_lemmas::lemma_trimmed_end(a);
    let t = text::trimmed(piece);
    assert forall|i: int| 0 <= i < t.len() implies #[trigger] t[i] != '\n' by {
        assert(t[i] == a[i]);
        assert(a[i] == piece[piece.len() - a.len() + i]);
    }
}

proof fn lemma_pieces_utterances(s: Seq<char>, i: int)
    requires
        0 <= i <= s.len(),
    ensures
        are_utterances(sentences::pieces_from(s, i)),
    decreases s.len() - i,
{
    if i < s.len() {
        sentences::lemma_next_break(s, i);
        match sentences::next_break(s, i) {
            None => {
                assert forall|j: int| 0 <= j < s.skip(i).len() implies #[trigger] s.skip(i)[j]
                    != '\n' by {
                    assert(!sentences::is_break(s, i + j));
                }
                lemma_nonblank_utterance(s.skip(i));
            },
            Some(k) => {
                let end = if s[k] == '\n' {
                    k
                } else {
                    k + 1
                };
                let piece = s.subrange(i, end);
                assert forall|j: int| 0 <= j < piece.len() implies #[trigger] piece[j] != '\n' by {
                    if i + j < k {
                        assert(!sentences::is_break(s, i + j));
                    }
                }
                lemma_nonblank_utterance(piece);
                lemma_pieces_utterances(s, k + 1);
                let first = sentences::nonblank(piece);
                let rest = sentences::pieces_from(s, k + 1);
                assert forall|q: int| 0 <= q < (first + rest).len() implies is_utterance(
                    #[trigger] (first + rest)[q],
                ) by {
                    if q < first.len() {
                        assert((first + rest)[q] == first[q]);
                    } else {
                        assert((first + rest)[q] == rest[q - first.len()]);
                    }
                }
            },
        }
    }
}

/// A line of at most `max` characters, unless it is a single longer word.
pub open spec fn is_short(c: Seq<char>, max: nat) -> bool {
    c.len() <= max || text_lemmas::is_word(c)
}

proof fn lemma_with_word_utterance(line: Seq<char>, word: Seq<char>)
    requires
        line.len() == 0 || is_utterance(line),
        text_lemmas::is_word(word),
    ensures
        is_utterance(sentences::with_word(line, word)),
{
    let longer = sentences::with_word(line, word);
    assert forall|i: int| 0 <= i < longer.len() implies #[trigger] longer[i] != '\n' by {
        if line.len() > 0 {
            if i < line.len() {
                assert(longer[i] == line[i]);
            } else if i > line.len() {
                assert(longer[i] == word[i - line.len() - 1]);
                assert(!text::is_space(word[i - line.len() - 1]));
            }
        } else {
            assert(!text::is_space(word[i]));
        }
    }
    assert(!text::is_space(word[0]) && !text::is_space(word[word.len() - 1]));
}

proof fn lemma_packed_lines(words: Seq<Seq<char>>, line: Seq<char>, max: nat)
    requires
        all_words(words),
        line.len() == 0 || (is_utterance(line) && is_short(line, max)),
    ensures
        are_utterances(sentences::packed(words, line, max)),
        forall|k: int|
            0 <= k < sentences::packed(words, line, max).len() ==> is_short(
                #[trigger] sentences::packed(words, line, max)[k],
                max,
            ),
    decreases words.len(),
{
    if words.len() > 0 {
        let word = words[0];
        let rest = words.drop_first();
        assert(text_lemmas::is_word(word));
        assert(all_words(rest));
        let full = line.len() > 0 && line.len() + 1 + word.len() > max;
        let done = if full {
            seq![line]
        } else {
            Seq::empty()
        };
        let longer = if full {
            word
        } else {
            sentences::with_word(line, word)
        };
        lemma_with_word_utterance(line, word);
        lemma_with_word_utterance(Seq::empty(), word);
        assert(is_utterance(longer) && is_short(longer, max));
        let (head, tail) = if longer.len() > 0 && longer.last() == ',' && longer.len() >= max / 2 {
            lemma_packed_lines(rest, Seq::empty(), max);
            (done.push(longer), sentences::packed(rest, Seq::empty(), max))
        } else {
            lemma_packed_lines(rest, longer, max);
            (done, sentences::packed(rest, longer, max))
        };
        let lines = sentences::packed(words, line, max);
        assert(lines == head + tail);
        assert forall|k: int| 0 <= k < lines.len() implies is_utterance(#[trigger] lines[k])
            && is_short(lines[k], max) by {
            if k < head.len() {
                assert(lines[k] == head[k]);
            } else {
                assert(lines[k] == tail[k - head.len()]);
            }
        }
    }
}

/// Wrapping keeps every word, in its order.
pub proof fn law_wrapping_keeps_the_words(s: Seq<char>, max: nat)
    ensures
        spoken_words(sentences::wrapped(s, max)) == text::words_of(s),
{
    lemma_wrapped_words(s, max);
}

/// A wrapped chunk has no line over `max` characters, except where one word alone is
/// longer.
pub proof fn law_wrapped_lines_are_short(s: Seq<char>, max: nat)
    ensures
        are_utterances(sentences::wrapped(s, max)),
        forall|k: int|
            0 <= k < sentences::wrapped(s, max).len() ==> is_short(
                #[trigger] sentences::wrapped(s, max)[k],
                max,
            ),
{
    text_lemmas::lemma_words_are_words(s);
    lemma_packed_lines(text::words_of(s), Seq::empty(), max);
}

proof fn lemma_fitted_lines(chunks: Seq<Seq<char>>, n: int)
    requires
        0 <= n <= chunks.len(),
        are_utterances(chunks),
    ensures
        are_utterances(sentences::fitted(chunks, n)),
        forall|k: int|
            0 <= k < sentences::fitted(chunks, n).len() ==> is_short(
                #[trigger] sentences::fitted(chunks, n)[k],
                sentences::MAX_CHARS as nat,
            ),
    decreases n,
{
    if n > 0 {
        lemma_fitted_lines(chunks, n - 1);
        let before = sentences::fitted(chunks, n - 1);
        let max = sentences::MAX_CHARS as nat;
        let tail = if chunks[n - 1].len() <= max {
            seq![chunks[n - 1]]
        } else {
            law_wrapped_lines_are_short(chunks[n - 1], max);
            sentences::wrapped(chunks[n - 1], max)
        };
        let lines = sentences::fitted(chunks, n);
        assert(lines =~= before + tail);
        assert forall|k: int| 0 <= k < lines.len() implies is_utterance(#[trigger] lines[k])
            && is_short(lines[k], max) by {
            if k < before.len() {
                assert(lines[k] == before[k]);
            } else {
                assert(lines[k] == tail[k - before.len()]);
            }
        }
    }
}

/// No chunk but the first is shorter than `MIN_CHARS`.
pub open spec fn has_no_micro_utterance(chunks: Seq<Seq<char>>) -> bool {
    forall|k: int| 1 <= k < chunks.len() ==> (#[trigger] chunks[k]).len() >= sentences::MIN_CHARS
}

/// A chunk of at most `MAX_CHARS + MIN_CHARS` characters, unless it starts with a word of more
/// than `MAX_CHARS`: then it is at most `MIN_CHARS` longer than the word.
pub open spec fn is_within_budget(c: Seq<char>) -> bool {
    ||| c.len() <= sentences::MAX_CHARS + sentences::MIN_CHARS
    ||| {
        let words = text::words_of(c);
        &&& words.len() > 0
        &&& words[0].len() > sentences::MAX_CHARS
        &&& c.len() <= words[0].len() + sentences::MIN_CHARS
    }
}

/// A line and the fragments behind it.
spec fn is_group(g: Seq<Seq<char>>) -> bool {
    &&& g.len() > 0
    &&& are_utterances(g)
    &&& is_short(g[0], sentences::MAX_CHARS as nat)
    &&& forall|i: int| 1 <= i < g.len() ==> (#[trigger] g[i]).len() < sentences::MIN_CHARS
    &&& sentences::said(g).len() <= sentences::MAX_CHARS + sentences::MIN_CHARS || (g[0].len()
        > sentences::MAX_CHARS && sentences::said(g.skip(1)).len() < sentences::MIN_CHARS)
}

proof fn lemma_said_split(lines: Seq<Seq<char>>, k: int)
    requires
        0 < k < lines.len(),
    ensures
        sentences::said(lines) == sentences::said(lines.take(k)) + seq![' '] + sentences::said(
            lines.skip(k),
        ),
    decreases lines.len(),
{
    let tail = lines.skip(k);
    if k == lines.len() - 1 {
        assert(lines.take(k) =~= lines.drop_last());
        assert(tail =~= seq![lines.last()]);
    } else {
        let front = lines.drop_last();
        lemma_said_split(front, k);
        assert(front.take(k) =~= lines.take(k));
        assert(front.skip(k) =~= tail.drop_last());
        assert(tail.last() == lines.last());
        assert(sentences::said(lines) =~= sentences::said(lines.take(k)) + seq![' ']
            + sentences::said(tail));
    }
}

proof fn lemma_said_utterance(g: Seq<Seq<char>>)
    requires
        g.len() > 0,
        are_utterances(g),
    ensures
        is_utterance(sentences::said(g)),
    decreases g.len(),
{
    let last = g[g.len() - 1];
    assert(is_utterance(last));
    if g.len() > 1 {
        let front = g.drop_last();
        assert forall|i: int| 0 <= i < front.len() implies is_utterance(#[trigger] front[i]) by {
            assert(front[i] == g[i]);
        }
        lemma_said_utterance(front);
        let a = sentences::said(front);
        let c = sentences::said(g);
        assert(c =~= a + seq![' '] + last);
        assert forall|i: int| 0 <= i < c.len() implies #[trigger] c[i] != '\n' by {
            if i < a.len() {
                assert(c[i] == a[i]);
            } else if i > a.len() {
                assert(c[i] == last[i - a.len() - 1]);
            }
        }
    } else {
        assert(sentences::said(g) == last);
    }
}

proof fn lemma_group_budget(g: Seq<Seq<char>>)
    requires
        is_group(g),
    ensures
        is_within_budget(sentences::said(g)),
{
    let c = sentences::said(g);
    if c.len() > sentences::MAX_CHARS + sentences::MIN_CHARS {
        let word = g[0];
        assert(text_lemmas::is_word(word));
        text_lemmas::lemma_words_of_word(word);
        if g.len() > 1 {
            lemma_said_split(g, 1);
            assert(g.take(1) =~= seq![word]);
            assert(sentences::said(seq![word]) == word);
            let rest = sentences::said(g.skip(1));
            text_lemmas::lemma_words_split(word, ' ', rest);
            assert(word.push(' ') + rest =~= c);
            assert(text::words_of(c)[0] == word);
        } else {
            assert(c == word);
        }
    }
}

/// What one more line does to a group that it joins or is parted from.
proof fn lemma_longer_group(g: Seq<Seq<char>>, line: Seq<char>)
    requires
        is_group(g),
        is_utterance(line),
        line.len() < sentences::MIN_CHARS,
    ensures
        ({
            let longer = g.push(line);
            if sentences::said(longer).len() <= sentences::MAX_CHARS + sentences::MIN_CHARS {
                is_group(longer)
            } else {
                match sentences::tail_from(longer, longer.len() - 1) {
                    Some(k) => {
                        &&& is_group(longer.take(k))
                        &&& is_group(longer.skip(k))
                        &&& sentences::said(longer.take(k)).len() >= sentences::MIN_CHARS
                        &&& sentences::said(longer.skip(k)).len() >= sentences::MIN_CHARS
                    },
                    None => is_group(longer),
                }
            }
        }),
        sentences::said(g.push(line)).len() >= sentences::said(g).len(),
{
    let longer = g.push(line);
    let n = longer.len() as int;
    assert(longer.drop_last() =~= g);
    assert forall|i: int| 0 <= i < n implies is_utterance(#[trigger] longer[i]) && (i >= 1
        ==> longer[i].len() < sentences::MIN_CHARS) by {
        if i < g.len() {
            assert(longer[i] == g[i]);
        }
    }
    assert(longer[0] == g[0]);
    assert(sentences::said(longer) =~= sentences::said(g) + seq![' '] + line);
    lemma_tail_from(longer, n - 1);
    if sentences::said(longer).len() > sentences::MAX_CHARS + sentences::MIN_CHARS {
        match sentences::tail_from(longer, n - 1) {
            None => {
                lemma_said_split(longer, 1);
                assert(longer.take(1) =~= seq![g[0]]);
                assert(sentences::said(seq![g[0]]) == g[0]);
            },
            Some(k) => {
                let head = longer.take(k);
                let tail = longer.skip(k);
                lemma_said_split(longer, k);
                assert(tail[0] == longer[k]);
                if k < n - 1 {
                    lemma_said_split(tail, 1);
                    assert(tail.take(1) =~= seq![longer[k]]);
                    assert(sentences::said(seq![longer[k]]) == longer[k]);
                    assert(tail.skip(1) =~= longer.skip(k + 1));
                } else {
                    assert(tail =~= seq![longer[k]]);
                }
                assert(sentences::said(tail).len() <= 2 * sentences::MIN_CHARS);
                assert forall|i: int| 0 <= i < tail.len() implies is_utterance(#[trigger] tail[i])
                    && tail[i].len() < sentences::MIN_CHARS by {
                    assert(tail[i] == longer[k + i]);
                }
                assert(is_group(tail));
                assert(head =~= g.take(k));
                assert forall|i: int| 0 <= i < head.len() implies is_utterance(#[trigger] head[i])
                    && (i >= 1 ==> head[i].len() < sentences::MIN_CHARS) by {
                    assert(head[i] == g[i]);
                }
                sentences::lemma_said_front(g, k);
                if sentences::said(g).len() > sentences::MAX_CHARS + sentences::MIN_CHARS {
                    sentences::lemma_said_front(g.skip(1), k - 1);
                    assert(g.skip(1).take(k - 1) =~= head.skip(1));
                }
                assert(is_group(head));
            },
        }
    }
}

proof fn lemma_placed(groups: Seq<Seq<Seq<char>>>, line: Seq<char>)
    requires
        is_utterance(line),
        is_short(line, sentences::MAX_CHARS as nat),
        forall|k: int|
            0 <= k < groups.len() ==> is_group(#[trigger] groups[k]) && (k >= 1 ==> sentences::said(
                groups[k],
            ).len() >= sentences::MIN_CHARS),
    ensures
        forall|k: int|
            0 <= k < sentences::placed(groups, line).len() ==> is_group(
                #[trigger] sentences::placed(groups, line)[k],
            ) && (k >= 1 ==> sentences::said(sentences::placed(groups, line)[k]).len()
                >= sentences::MIN_CHARS),
{
    let after = sentences::placed(groups, line);
    let alone = seq![line];
    assert(sentences::said(alone) == line);
    assert(alone.skip(1) =~= Seq::<Seq<char>>::empty());
    assert(sentences::said(Seq::empty()).len() == 0);
    assert(alone[0] == line);
    assert(is_group(alone));
    if groups.len() > 0 && line.len() < sentences::MIN_CHARS {
        assert(is_group(groups[groups.len() - 1]));
        lemma_longer_group(groups.last(), line);
    }
    assert forall|k: int| 0 <= k < after.len() implies is_group(#[trigger] after[k]) && (k >= 1
        ==> sentences::said(after[k]).len() >= sentences::MIN_CHARS) by {
        if k < groups.len() {
            assert(is_group(groups[k]));
            if k < groups.len() - 1 {
                assert(after[k] == groups[k]);
            }
        }
    }
}

proof fn lemma_grouped(lines: Seq<Seq<char>>, n: int)
    requires
        0 <= n <= lines.len(),
        are_utterances(lines),
        forall|k: int|
            0 <= k < lines.len() ==> is_short(#[trigger] lines[k], sentences::MAX_CHARS as nat),
    ensures
        forall|k: int|
            0 <= k < sentences::grouped(lines, n).len() ==> is_group(
                #[trigger] sentences::grouped(lines, n)[k],
            ) && (k >= 1 ==> sentences::said(sentences::grouped(lines, n)[k]).len()
                >= sentences::MIN_CHARS),
    decreases n,
{
    if n > 0 {
        lemma_grouped(lines, n - 1);
        assert(is_utterance(lines[n - 1]));
        assert(is_short(lines[n - 1], sentences::MAX_CHARS as nat));
        lemma_placed(sentences::grouped(lines, n - 1), lines[n - 1]);
    }
}

proof fn lemma_merged_chunks(chunks: Seq<Seq<char>>, n: int)
    requires
        0 <= n <= chunks.len(),
        are_utterances(chunks),
        forall|k: int|
            0 <= k < chunks.len() ==> is_short(
                #[trigger] chunks[k],
                sentences::MAX_CHARS as nat,
            ),
    ensures
        are_utterances(sentences::merged(chunks, n)),
        has_no_micro_utterance(sentences::merged(chunks, n)),
        forall|k: int|
            0 <= k < sentences::merged(chunks, n).len() ==> is_within_budget(
                #[trigger] sentences::merged(chunks, n)[k],
            ),
{
    let groups = sentences::grouped(chunks, n);
    let after = sentences::merged(chunks, n);
    lemma_grouped(chunks, n);
    assert forall|k: int| 0 <= k < after.len() implies is_utterance(#[trigger] after[k])
        && is_within_budget(after[k]) && (k >= 1 ==> after[k].len() >= sentences::MIN_CHARS) by {
        assert(is_group(groups[k]));
        lemma_said_utterance(groups[k]);
        lemma_group_budget(groups[k]);
    }
}

proof fn lemma_chunks(s: Seq<char>)
    ensures
        are_utterances(sentences::sentences_of(s)),
        has_no_micro_utterance(sentences::sentences_of(s)),
        forall|k: int|
            0 <= k < sentences::sentences_of(s).len() ==> is_within_budget(
                #[trigger] sentences::sentences_of(s)[k],
            ),
{
    let pieces = sentences::pieces_from(s, 0);
    let lines = sentences::fitted(pieces, pieces.len() as int);
    lemma_pieces_utterances(s, 0);
    lemma_fitted_lines(pieces, pieces.len() as int);
    lemma_merged_chunks(lines, lines.len() as int);
}

/// Every chunk has something to say, no whitespace around it and no line break in it; and
/// there are no micro-utterances: only the first chunk, which has none before it to join, can
/// be shorter than `MIN_CHARS`.
pub proof fn law_chunks_are_utterances(s: Seq<char>)
    ensures
        are_utterances(sentences::sentences_of(s)),
        forall|k: int|
            1 <= k < sentences::sentences_of(s).len() ==> (#[trigger] sentences::sentences_of(
                s,
            )[k]).len() >= sentences::MIN_CHARS,
{
    lemma_chunks(s);
    let chunks = sentences::sentences_of(s);
    assert forall|k: int| 1 <= k < chunks.len() implies (#[trigger] chunks[k]).len()
        >= sentences::MIN_CHARS by {
        assert(has_no_micro_utterance(chunks));
    }
}

/// No chunk grossly overruns the model's phoneme budget: none is over
/// `MAX_CHARS + MIN_CHARS` characters unless it holds a word of more than `MAX_CHARS`, and then
/// it is at most `MIN_CHARS` longer than that.
pub proof fn law_no_chunk_overruns_the_budget(s: Seq<char>)
    ensures
        forall|k: int|
            0 <= k < sentences::sentences_of(s).len() ==> is_within_budget(
                #[trigger] sentences::sentences_of(s)[k],
            ),
{
    lemma_chunks(s);
}

/// A text without overlong words has no overlong chunk.
pub proof fn law_short_words_make_short_chunks(s: Seq<char>)
    requires
        forall|i: int|
            0 <= i < text::words_of(s).len() ==> (#[trigger] text::words_of(s)[i]).len()
                <= sentences::MAX_CHARS,
    ensures
        forall|k: int|
            0 <= k < sentences::sentences_of(s).len() ==> (#[trigger] sentences::sentences_of(
                s,
            )[k]).len() <= sentences::MAX_CHARS + sentences::MIN_CHARS,
{
    let chunks = sentences::sentences_of(s);
    lemma_chunks(s);
    law_every_word_is_spoken_once(s);
    assert forall|k: int| 0 <= k < chunks.len() implies (#[trigger] chunks[k]).len()
        <= sentences::MAX_CHARS + sentences::MIN_CHARS by {
        assert(is_within_budget(chunks[k]));
        if text::words_of(chunks[k]).len() > 0 {
            let word = text::words_of(chunks[k])[0];
            lemma_words_of_chunk(chunks, k);
            let i = choose|i: int|
                0 <= i < text::words_of(s).len() && #[trigger] text::words_of(s)[i] == word;
            assert(text::words_of(s)[i].len() <= sentences::MAX_CHARS);
        }
    }
}

/// The first word of a chunk is one of the words of all chunks.
proof fn lemma_words_of_chunk(chunks: Seq<Seq<char>>, k: int)
    requires
        0 <= k < chunks.len(),
        text::words_of(chunks[k]).len() > 0,
    ensures
        exists|i: int|
            0 <= i < spoken_words(chunks).len() && #[trigger] spoken_words(chunks)[i]
                == text::words_of(chunks[k])[0],
    decreases chunks.len(),
{
    let front = spoken_words(chunks.drop_last());
    let all = spoken_words(chunks);
    let word = text::words_of(chunks[k])[0];
    if k == chunks.len() - 1 {
        assert(all[front.len() as int] == word);
    } else {
        lemma_words_of_chunk(chunks.drop_last(), k);
        let i = choose|i: int| 0 <= i < front.len() && #[trigger] front[i] == word;
        assert(all[i] == word);
    }
}

/// The first `n` chunks, every fragment merged into the chunk before it, however long that is.
pub open spec fn plainly_merged(chunks: Seq<Seq<char>>, n: int) -> Seq<Seq<char>>
    decreases n,
{
    if n <= 0 {
        Seq::empty()
    } else {
        let before = plainly_merged(chunks, n - 1);
        if chunks[n - 1].len() < sentences::MIN_CHARS && before.len() > 0 {
            before.drop_last().push(before.last().push(' ') + chunks[n - 1])
        } else {
            before.push(chunks[n - 1])
        }
    }
}

spec fn all_fit(chunks: Seq<Seq<char>>) -> bool {
    forall|k: int|
        0 <= k < chunks.len() ==> (#[trigger] chunks[k]).len() <= sentences::MAX_CHARS
            + sentences::MIN_CHARS
}

proof fn lemma_plainly_merged(lines: Seq<Seq<char>>, n: int)
    requires
        0 <= n <= lines.len(),
        all_fit(plainly_merged(lines, n)),
    ensures
        sentences::merged(lines, n) == plainly_merged(lines, n),
        forall|k: int|
            0 <= k < sentences::grouped(lines, n).len() ==> (#[trigger] sentences::grouped(
                lines,
                n,
            )[k]).len() > 0,
    decreases n,
{
    if n > 0 {
        let before = plainly_merged(lines, n - 1);
        let after = plainly_merged(lines, n);
        let line = lines[n - 1];
        assert forall|k: int| 0 <= k < before.len() implies (#[trigger] before[k]).len()
            <= sentences::MAX_CHARS + sentences::MIN_CHARS by {
            if k < before.len() - 1 {
                assert(after[k] == before[k]);
            } else {
                assert(after[k].len() >= before[k].len());
            }
        }
        lemma_plainly_merged(lines, n - 1);
        let groups = sentences::grouped(lines, n - 1);
        assert(before == sentences::all_said(groups));
        assert(sentences::said(seq![line]) == line);
        if groups.len() > 0 && line.len() < sentences::MIN_CHARS {
            let g = groups[groups.len() - 1];
            assert(g.len() > 0);
            let longer = g.push(line);
            assert(longer.drop_last() =~= g);
            assert(sentences::said(longer) =~= before.last().push(' ') + line);
            assert(after[after.len() - 1] == sentences::said(longer));
            assert(sentences::grouped(lines, n) == groups.drop_last().push(longer));
        }
        assert(sentences::merged(lines, n) =~= after);
    } else {
        assert(sentences::merged(lines, n) =~= plainly_merged(lines, n));
    }
}

/// Fragments simply join the chunk before them as long as that stays within the budget.
pub proof fn law_fragments_join_their_predecessor(s: Seq<char>)
    requires
        ({
            let pieces = sentences::pieces_from(s, 0);
            let lines = sentences::fitted(pieces, pieces.len() as int);
            let chunks = plainly_merged(lines, lines.len() as int);
            forall|k: int|
                0 <= k < chunks.len() ==> (#[trigger] chunks[k]).len() <= sentences::MAX_CHARS
                    + sentences::MIN_CHARS
        }),
    ensures
        ({
            let pieces = sentences::pieces_from(s, 0);
            let lines = sentences::fitted(pieces, pieces.len() as int);
            sentences::sentences_of(s) == plainly_merged(lines, lines.len() as int)
        }),
{
    let pieces = sentences::pieces_from(s, 0);
    let lines = sentences::fitted(pieces, pieces.len() as int);
    lemma_plainly_merged(lines, lines.len() as int);
}

/// No chunk is made of nothing.
pub proof fn lemma_groups_are_not_empty(lines: Seq<Seq<char>>, n: int)
    requires
        0 <= n <= lines.len(),
    ensures
        forall|k: int|
            0 <= k < sentences::grouped(lines, n).len() ==> (#[trigger] sentences::grouped(
                lines,
                n,
            )[k]).len() > 0,
    decreases n,
{
    if n > 0 {
        lemma_groups_are_not_empty(lines, n - 1);
        let groups = sentences::grouped(lines, n - 1);
        let after = sentences::grouped(lines, n);
        if groups.len() > 0 {
            let longer = groups.last().push(lines[n - 1]);
            lemma_tail_from(longer, longer.len() - 1);
        }
        assert forall|k: int| 0 <= k < after.len() implies (#[trigger] after[k]).len() > 0 by {
            if k < groups.len() - 1 {
                assert(after[k] == groups[k]);
            }
        }
    }
}

/// Before tiny fragments are merged in, no chunk is over `MAX_CHARS` characters, except
/// where one word alone is longer.
pub proof fn law_long_runs_are_wrapped(s: Seq<char>)
    ensures
        ({
            let pieces = sentences::pieces_from(s, 0);
            let lines = sentences::fitted(pieces, pieces.len() as int);
            forall|k: int|
                0 <= k < lines.len() ==> is_short(
                    #[trigger] lines[k],
                    sentences::MAX_CHARS as nat,
                )
        }),
{
    let pieces = sentences::pieces_from(s, 0);
    lemma_pieces_utterances(s, 0);
    lemma_fitted_lines(pieces, pieces.len() as int);
}

/// Only blank text has no chunk at all.
pub proof fn law_only_blank_text_is_silent(s: Seq<char>)
    ensures
        (sentences::sentences_of(s).len() == 0) == (text::trimmed(s).len() == 0),
{
    let chunks = sentences::sentences_of(s);
    law_every_word_is_spoken_once(s);
    law_chunks_are_utterances(s);
    text_lemmas::lemma_trimmed(s);
    if chunks.len() > 0 {
        let last = chunks.last();
        assert(last == chunks[chunks.len() - 1]);
        assert(is_utterance(last));
        text_lemmas::lemma_trimmed(last);
        assert(!text::is_space(last[0]));
        assert(spoken_words(chunks).len() >= text::words_of(last).len());
    }
}

} // verus!

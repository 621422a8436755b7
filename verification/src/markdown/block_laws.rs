//! What the block rules promise of every line.

use crate::markdown::block;
use crate::text;
use crate::text_lemmas;
use vstd::prelude::*;

verus! {

proof fn lemma_trimmed_start_subsequence(s: Seq<char>)
    ensures
        text_lemmas::is_subsequence(text::trimmed_start(s), s),
{
    text_lemmas::lemma_trimmed_start(s);
    let t = text::trimmed_start(s);
    text_lemmas::lemma_subsequence_refl(t);
    text_lemmas::lemma_subsequence_skip(t, s, s.len() - t.len());
}

proof fn lemma_skip_subsequence(s: Seq<char>, k: int)
    requires
        0 <= k <= s.len(),
    ensures
        text_lemmas::is_subsequence(s.skip(k), s),
{
    text_lemmas::lemma_subsequence_refl(s.skip(k));
    text_lemmas::lemma_subsequence_skip(s.skip(k), s, k);
}

proof fn lemma_trimmed_subsequence(s: Seq<char>)
    ensures
        text_lemmas::is_subsequence(text::trimmed(s), s),
{
    let a = text::trimmed_start(s);
    lemma_trimmed_start_subsequence(s);
    text_lemmas::lemma_trimmed_end(a);
    text_lemmas::lemma_subsequence_take(a, text::trimmed(s).len() as int);
    text_lemmas::lemma_subsequence_trans(text::trimmed(s), a, s);
}

proof fn lemma_unclosed_subsequence(s: Seq<char>)
    ensures
        text_lemmas::is_subsequence(block::unclosed(s), s),
{
    lemma_unclosed(s);
    text_lemmas::lemma_subsequence_take(s, block::unclosed(s).len() as int);
}

proof fn lemma_unquoted_subsequence(s: Seq<char>)
    ensures
        text_lemmas::is_subsequence(block::unquoted(s), s),
    decreases s.len(),
{
    if s.len() > 0 && s[0] == '>' {
        let t = text::trimmed_start(s.drop_first());
        text::lemma_trimmed_start_len(s.drop_first());
        lemma_unquoted_subsequence(t);
        lemma_trimmed_start_subsequence(s.drop_first());
        text_lemmas::lemma_subsequence_trans(block::unquoted(t), t, s.drop_first());
        assert(s.skip(1) =~= s.drop_first());
        text_lemmas::lemma_subsequence_skip(block::unquoted(t), s, 1);
    } else {
        text_lemmas::lemma_subsequence_refl(s);
    }
}

proof fn lemma_label_end(s: Seq<char>, i: int)
    ensures
        match block::label_end(s, i) {
            Some(k) => i <= k && k + 1 < s.len(),
            None => true,
        },
    decreases s.len() - i,
{
    if 0 <= i && i + 1 < s.len() && !(s[i] == ']' && s[i + 1] == ':') {
        lemma_label_end(s, i + 1);
    }
}

/// One step on a line that is no heading only loses characters.
proof fn lemma_no_heading_only_removes(line: Seq<char>)
    requires
        !block::is_heading(block::unquoted(text::trimmed_start(line))),
    ensures
        text_lemmas::is_subsequence(block::advanced(line), line),
{
    let t = text::trimmed_start(line);
    let s = block::unquoted(t);
    lemma_trimmed_start_subsequence(line);
    lemma_unquoted_subsequence(t);
    text_lemmas::lemma_subsequence_trans(s, t, line);
    let u = block::unbulleted(s);
    if block::is_bullet(s) {
        let n = text::run_len(s, 0, s[0]) as int;
        let item = text::trimmed_start(s.skip(n));
        lemma_skip_subsequence(s, n);
        lemma_trimmed_start_subsequence(s.skip(n));
        text_lemmas::lemma_subsequence_trans(item, s.skip(n), s);
        if block::has_checkbox(item) {
            lemma_skip_subsequence(item, 3);
            lemma_trimmed_start_subsequence(item.skip(3));
            text_lemmas::lemma_subsequence_trans(u, item.skip(3), item);
            text_lemmas::lemma_subsequence_trans(u, item, s);
        }
    } else {
        text_lemmas::lemma_subsequence_refl(s);
    }
    let v = block::unlabelled(u);
    lemma_label_end(u, 2);
    if u.len() >= 2 && u[0] == '[' && u[1] == '^' && block::label_end(u, 2) is Some {
        let k = block::label_end(u, 2)->0 + 2;
        lemma_skip_subsequence(u, k);
        lemma_trimmed_start_subsequence(u.skip(k));
        text_lemmas::lemma_subsequence_trans(v, u.skip(k), u);
    } else {
        text_lemmas::lemma_subsequence_refl(u);
    }
    text_lemmas::lemma_subsequence_trans(v, u, s);
    text_lemmas::lemma_subsequence_trans(v, s, line);
}

/// What one step leaves of a line that is no heading is an end of the line.
proof fn lemma_advanced_is_an_end(line: Seq<char>)
    requires
        !block::is_heading(block::unquoted(text::trimmed_start(line))),
    ensures
        block::advanced(line).len() <= line.len(),
        block::advanced(line) == line.skip(line.len() - block::advanced(line).len()),
{
    let t = text::trimmed_start(line);
    let s = block::unquoted(t);
    text_lemmas::lemma_trimmed_start(line);
    lemma_unquoted_is_an_end(t);
    assert(s =~= line.skip(line.len() - s.len()));
    let u = block::unbulleted(s);
    let v = block::unlabelled(u);
    lemma_unbulleted_is_an_end(s);
    lemma_unlabelled_is_an_end(u);
    assert(v =~= line.skip(line.len() - v.len()));
}

proof fn lemma_unbulleted_is_an_end(s: Seq<char>)
    ensures
        block::unbulleted(s).len() <= s.len(),
        block::unbulleted(s) == s.skip(s.len() - block::unbulleted(s).len()),
        block::is_bullet(s) ==> block::unbulleted(s).len() < s.len(),
{
    let u = block::unbulleted(s);
    if block::is_bullet(s) {
        text::lemma_run_len(s, 0, s[0]);
        let n = text::run_len(s, 0, s[0]) as int;
        let item = text::trimmed_start(s.skip(n));
        text_lemmas::lemma_trimmed_start(s.skip(n));
        if block::has_checkbox(item) {
            text_lemmas::lemma_trimmed_start(item.skip(3));
        }
        assert(n > 0) by {
            reveal_with_fuel(text::run_len, 2);
        }
    }
    assert(u =~= s.skip(s.len() - u.len()));
}

proof fn lemma_unlabelled_is_an_end(u: Seq<char>)
    ensures
        block::unlabelled(u).len() <= u.len(),
        block::unlabelled(u) == u.skip(u.len() - block::unlabelled(u).len()),
{
    lemma_label_end(u, 2);
    if u.len() >= 2 && u[0] == '[' && u[1] == '^' && block::label_end(u, 2) is Some {
        text_lemmas::lemma_trimmed_start(u.skip(block::label_end(u, 2)->0 + 2));
    }
    let v = block::unlabelled(u);
    assert(v =~= u.skip(u.len() - v.len()));
}

proof fn lemma_unquoted_is_an_end(s: Seq<char>)
    ensures
        block::unquoted(s).len() <= s.len(),
        block::unquoted(s) == s.skip(s.len() - block::unquoted(s).len()),
    decreases s.len(),
{
    if s.len() > 0 && s[0] == '>' {
        let t = text::trimmed_start(s.drop_first());
        text_lemmas::lemma_trimmed_start(s.drop_first());
        lemma_unquoted_is_an_end(t);
        let u = block::unquoted(t);
        assert(u =~= s.skip(s.len() - u.len()));
    } else {
        assert(s.skip(0) =~= s);
    }
}

proof fn lemma_unclosed(s: Seq<char>)
    ensures
        block::unclosed(s).len() <= s.len(),
        block::unclosed(s) == s.take(block::unclosed(s).len() as int),
        s.len() > 0 && s.last() != '#' ==> block::unclosed(s) == s,
    decreases s.len(),
{
    let t = block::unclosed(s);
    if t == s {
        assert(s.take(s.len() as int) =~= s);
    } else {
        lemma_unclosed(s.drop_last());
        assert(s.drop_last().take(t.len() as int) =~= s.take(t.len() as int));
    }
}

/// What a heading says is among its characters, and is two or more of them shorter.
proof fn lemma_heading_body(s: Seq<char>)
    requires
        block::is_heading(s),
    ensures
        text_lemmas::is_subsequence(block::heading_body(s), s),
        block::heading_body(s).len() < s.len(),
        block::heading_body(s).len() > 0 ==> block::heading_body(s).len() + 2 <= s.len(),
        block::heading_body(s).len() > 0 && s.last() == '.' ==> block::heading_body(s).last()
            == '.',
{
    text::lemma_run_len(s, 0, '#');
    let n = text::run_len(s, 0, '#') as int;
    let a = s.skip(n);
    let b = text::trimmed(a);
    let c = block::unclosed(b);
    let body = text::trimmed(c);
    lemma_skip_subsequence(s, n);
    lemma_trimmed_subsequence(a);
    lemma_unclosed_subsequence(b);
    lemma_trimmed_subsequence(c);
    text_lemmas::lemma_subsequence_trans(b, a, s);
    text_lemmas::lemma_subsequence_trans(c, b, s);
    text_lemmas::lemma_subsequence_trans(body, c, s);
    let front = text::trimmed_start(a);
    text_lemmas::lemma_trimmed_start(a);
    text_lemmas::lemma_trimmed_end(front);
    lemma_unclosed(b);
    let mid = text::trimmed_start(c);
    text_lemmas::lemma_trimmed_start(c);
    text_lemmas::lemma_trimmed_end(mid);
    if a.len() > 0 {
        assert(a[0] == s[n]);
        assert(front.len() < a.len());
    }
    if body.len() > 0 && s.last() == '.' {
        assert(a.last() == '.');
        assert(front.last() == a.last());
        if b.len() < front.len() {
            assert(text::is_space(front.skip(b.len() as int)[front.len() - b.len() - 1]));
        }
        assert(b == front) by {
            assert(front.take(front.len() as int) =~= front);
        }
        assert(mid.last() == c.last());
        if body.len() < mid.len() {
            assert(text::is_space(mid.skip(body.len() as int)[mid.len() - body.len() - 1]));
        }
        assert(mid.take(mid.len() as int) =~= mid);
    }
}

/// One step makes a line shorter, or leaves it as it is.
pub proof fn lemma_advanced(line: Seq<char>)
    ensures
        block::advanced(line).len() <= line.len(),
        block::advanced(line).len() == line.len() ==> block::advanced(line) == line,
{
    let t = text::trimmed_start(line);
    let s = block::unquoted(t);
    if block::is_heading(s) {
        text_lemmas::lemma_trimmed_start(line);
        lemma_unquoted_is_an_end(t);
        lemma_heading_body(s);
    } else {
        lemma_advanced_is_an_end(line);
        assert(line.skip(0) =~= line);
    }
}

/// A line that one step leaves as it is starts with no block marker.
pub proof fn lemma_advanced_parts(line: Seq<char>)
    requires
        block::advanced(line) == line,
    ensures
        line.len() > 0 ==> !text::is_space(line[0]) && line[0] != '>',
        !block::is_heading(line),
        !block::is_bullet(line),
{
    let t = text::trimmed_start(line);
    let s = block::unquoted(t);
    text_lemmas::lemma_trimmed_start(line);
    lemma_unquoted_is_an_end(t);
    if block::is_heading(s) {
        lemma_heading_body(s);
    } else {
        let u = block::unbulleted(s);
        lemma_unbulleted_is_an_end(s);
        lemma_unlabelled_is_an_end(u);
        assert(line.skip(0) =~= line && t.skip(0) =~= t);
        assert(t == line && s == line);
        if line.len() > 0 && line[0] == '>' {
            text::lemma_trimmed_start_len(line.drop_first());
            lemma_unquoted_is_an_end(text::trimmed_start(line.drop_first()));
        }
        if block::is_bullet(line) {
            assert(u.len() < line.len());
        }
    }
}

/// No block marker is left behind: reading a line without its markers again changes nothing.
pub proof fn law_no_block_marker_is_left(line: Seq<char>)
    ensures
        block::advanced(block::unprefixed(line)) == block::unprefixed(line),
        block::unprefixed(block::unprefixed(line)) == block::unprefixed(line),
    decreases line.len(),
{
    lemma_advanced(line);
    let s = block::advanced(line);
    if s.len() < line.len() {
        law_no_block_marker_is_left(s);
    }
}

/// A line from which one step leaves `t`, with no marker on it, loses no more than that.
proof fn lemma_settles(line: Seq<char>, t: Seq<char>)
    requires
        block::advanced(line) == t,
        block::advanced(t) == t,
    ensures
        block::unprefixed(line) == t,
{
    assert(block::unprefixed(t) == t);
}

/// A line from which one step leaves `t` goes on as `t` does.
proof fn lemma_goes_on(line: Seq<char>, t: Seq<char>)
    requires
        block::advanced(line) == t,
        t.len() < line.len(),
    ensures
        block::unprefixed(line) == block::unprefixed(t),
{
}

/// A line that ends in a period only loses characters, and keeps the period as long as
/// anything is left.
proof fn lemma_ended_line(line: Seq<char>)
    requires
        line.len() > 0,
        line.last() == '.',
    ensures
        text_lemmas::is_subsequence(block::unprefixed(line), line),
        block::unprefixed(line).len() > 0 ==> block::unprefixed(line).last() == '.',
    decreases line.len(),
{
    let t = text::trimmed_start(line);
    let s = block::unquoted(t);
    let r = block::advanced(line);
    lemma_advanced(line);
    assert(text_lemmas::is_subsequence(r, line) && (r.len() > 0 ==> r.last() == '.')) by {
        if block::is_heading(s) {
            text_lemmas::lemma_trimmed_start(line);
            lemma_unquoted_is_an_end(t);
            lemma_trimmed_start_subsequence(line);
            lemma_unquoted_subsequence(t);
            text_lemmas::lemma_subsequence_trans(s, t, line);
            lemma_heading_body(s);
            assert(s.last() == '.');
            text_lemmas::lemma_subsequence_trans(block::heading_body(s), s, line);
        } else {
            lemma_no_heading_only_removes(line);
            lemma_advanced_is_an_end(line);
        }
    }
    if r.len() == 0 {
        lemma_nothing_left();
    } else if r.len() < line.len() {
        lemma_ended_line(r);
        text_lemmas::lemma_subsequence_trans(block::unprefixed(r), r, line);
    }
    assert(r.len() == 0 ==> r =~= Seq::<char>::empty());
}

proof fn lemma_nothing_left()
    ensures
        block::unprefixed(Seq::empty()) == Seq::<char>::empty(),
{
    lemma_advanced(Seq::empty());
    assert(block::advanced(Seq::empty()) =~= Seq::<char>::empty());
}

/// Block rules make nothing up but the period of a heading: what is left of a line are
/// characters of the line, in their order.
pub proof fn law_block_rules_only_remove(line: Seq<char>)
    ensures
        ({
            let r = block::unprefixed(line);
            ||| text_lemmas::is_subsequence(r, line)
            ||| r.len() > 0 && r.last() == '.' && text_lemmas::is_subsequence(r.drop_last(), line)
        }),
    decreases line.len(),
{
    let t = text::trimmed_start(line);
    let s = block::unquoted(t);
    let x = block::advanced(line);
    let r = block::unprefixed(line);
    lemma_advanced(line);
    if x.len() == line.len() {
        text_lemmas::lemma_subsequence_refl(line);
    } else if !block::is_heading(s) {
        lemma_no_heading_only_removes(line);
        law_block_rules_only_remove(x);
        lemma_only_removes(r, x, line);
    } else {
        let body = block::heading_body(s);
        lemma_trimmed_start_subsequence(line);
        lemma_unquoted_subsequence(t);
        text_lemmas::lemma_subsequence_trans(s, t, line);
        lemma_heading_body(s);
        text_lemmas::lemma_subsequence_trans(body, s, line);
        if x == body {
            law_block_rules_only_remove(x);
            lemma_only_removes(r, x, line);
        } else {
            assert(x == body.push('.'));
            lemma_ended_line(x);
            if r.len() > 0 {
                assert(r.drop_last().push('.') =~= r);
                text_lemmas::lemma_subsequence_pop(r.drop_last(), body, '.');
                text_lemmas::lemma_subsequence_trans(r.drop_last(), body, line);
            }
        }
    }
}

proof fn lemma_only_removes(r: Seq<char>, x: Seq<char>, line: Seq<char>)
    requires
        text_lemmas::is_subsequence(x, line),
        text_lemmas::is_subsequence(r, x) || (r.len() > 0 && r.last() == '.'
            && text_lemmas::is_subsequence(r.drop_last(), x)),
    ensures
        text_lemmas::is_subsequence(r, line) || (r.len() > 0 && r.last() == '.'
            && text_lemmas::is_subsequence(r.drop_last(), line)),
{
    if text_lemmas::is_subsequence(r, x) {
        text_lemmas::lemma_subsequence_trans(r, x, line);
    } else {
        text_lemmas::lemma_subsequence_trans(r.drop_last(), x, line);
    }
}

/// A heading is met while the block markers of a line are taken off.
pub open spec fn has_heading(line: Seq<char>) -> bool
    decreases line.len(),
{
    ||| block::is_heading(block::unquoted(text::trimmed_start(line)))
    ||| block::advanced(line).len() < line.len() && has_heading(block::advanced(line))
}

/// A line without a heading only loses characters: not even a period is added.
pub proof fn law_lines_without_headings_only_lose(line: Seq<char>)
    requires
        !has_heading(line),
    ensures
        text_lemmas::is_subsequence(block::unprefixed(line), line),
    decreases line.len(),
{
    let x = block::advanced(line);
    lemma_no_heading_only_removes(line);
    if x.len() < line.len() {
        law_lines_without_headings_only_lose(x);
        text_lemmas::lemma_subsequence_trans(block::unprefixed(x), x, line);
    }
}

proof fn lemma_sentence_stays(line: Seq<char>)
    requires
        line.len() > 0,
        block::ends_a_heading(line.last()),
    ensures
        block::unprefixed(line).len() > 0 ==> block::ends_a_heading(block::unprefixed(line).last()),
    decreases line.len(),
{
    let r = block::advanced(line);
    lemma_advanced(line);
    if !block::is_heading(block::unquoted(text::trimmed_start(line))) {
        lemma_advanced_is_an_end(line);
    }
    if r.len() == 0 {
        lemma_nothing_left();
        assert(r =~= Seq::<char>::empty());
    } else if r.len() < line.len() {
        lemma_sentence_stays(r);
    }
}

/// A heading is a sentence of its own: whatever text it has ends in punctuation.
pub proof fn law_headings_become_sentences(line: Seq<char>)
    requires
        block::is_heading(block::unquoted(text::trimmed_start(line))),
    ensures
        block::unprefixed(line).len() > 0 ==> block::ends_a_heading(block::unprefixed(line).last()),
{
    lemma_advanced(line);
    let r = block::advanced(line);
    if r.len() > 0 {
        lemma_sentence_stays(r);
    } else {
        lemma_nothing_left();
        assert(r =~= Seq::<char>::empty());
    }
}

/// An ordered-list number is kept: a line that starts with a digit loses nothing but its
/// indentation.
pub proof fn law_ordered_numbers_are_kept(line: Seq<char>)
    requires
        text::trimmed_start(line).len() > 0,
        '0' <= text::trimmed_start(line)[0] <= '9',
    ensures
        block::unprefixed(line) == text::trimmed_start(line),
{
    let t = text::trimmed_start(line);
    assert(text::trimmed_start(t) == t) by {
        text_lemmas::lemma_trimmed_start(line);
    }
    lemma_settles(line, t);
}

/// A bullet marker needs whitespace behind it: `*emphasis*` and `-5 degrees` stay intact.
pub proof fn law_unspaced_markers_are_kept(line: Seq<char>)
    requires
        ({
            let s = text::trimmed_start(line);
            &&& s.len() > 0
            &&& s[0] == '-' || s[0] == '*' || s[0] == '+'
            &&& !block::is_bullet(s)
        }),
    ensures
        block::unprefixed(line) == text::trimmed_start(line),
{
    let t = text::trimmed_start(line);
    assert(text::trimmed_start(t) == t) by {
        text_lemmas::lemma_trimmed_start(line);
    }
    lemma_settles(line, t);
}

/// Hashes without whitespace behind them, or more than six, are no heading and stay.
pub proof fn law_hashtags_are_kept(line: Seq<char>)
    requires
        text::trimmed_start(line).len() > 0,
        text::trimmed_start(line)[0] == '#',
        !block::is_heading(text::trimmed_start(line)),
    ensures
        block::unprefixed(line) == text::trimmed_start(line),
{
    let t = text::trimmed_start(line);
    assert(text::trimmed_start(t) == t) by {
        text_lemmas::lemma_trimmed_start(line);
    }
    lemma_settles(line, t);
}

/// A run of bullet characters, however long, is removed from the item behind it, and the
/// item is read as any other line.
pub proof fn law_bullet_runs_are_removed(m: char, n: nat, gap: Seq<char>, item: Seq<char>)
    requires
        m == '-' || m == '*' || m == '+',
        n >= 1,
        gap.len() > 0,
        text_lemmas::is_blank(gap),
        item.len() > 0,
        !text::is_space(item[0]),
        item[0] != '[',
    ensures
        block::unprefixed(Seq::new(n, |i: int| m) + gap + item) == block::unprefixed(item),
{
    let run = Seq::new(n, |i: int| m);
    let s = run + gap + item;
    assert(s[0] == m);
    assert(text::trimmed_start(s) == s);
    assert(s[n as int] == gap[0]);
    assert(text::is_space(gap[0]));
    text::lemma_run_len_is(s, 0, m, n);
    assert(block::is_bullet(s));
    assert(s.skip(n as int) =~= gap + item);
    text_lemmas::lemma_trimmed_start_of(gap, item);
    lemma_goes_on(s, item);
}

/// A checkbox behind a bullet is removed with it, and so is the whitespace around it.
pub proof fn law_checkboxes_are_removed(
    m: char,
    n: nat,
    gap: Seq<char>,
    mark: char,
    more: Seq<char>,
    item: Seq<char>,
)
    requires
        m == '-' || m == '*' || m == '+',
        n >= 1,
        gap.len() > 0,
        text_lemmas::is_blank(gap),
        text_lemmas::is_blank(more),
        mark == ' ' || mark == 'x' || mark == 'X',
        item.len() > 0,
        !text::is_space(item[0]),
        item[0] != '[',
    ensures
        block::unprefixed(Seq::new(n, |i: int| m) + gap + seq!['[', mark, ']'] + more + item)
            == block::unprefixed(item),
{
    let run = Seq::new(n, |i: int| m);
    let s = run + gap + seq!['[', mark, ']'] + more + item;
    assert(s[0] == m);
    assert(text::trimmed_start(s) == s);
    assert(s[n as int] == gap[0]);
    assert(text::is_space(gap[0]));
    text::lemma_run_len_is(s, 0, m, n);
    assert(block::is_bullet(s));
    let boxed = seq!['[', mark, ']'] + more + item;
    assert(s.skip(n as int) =~= gap + boxed);
    text_lemmas::lemma_trimmed_start_of(gap, boxed);
    assert(boxed.skip(3) =~= more + item);
    text_lemmas::lemma_trimmed_start_of(more, item);
    lemma_goes_on(s, item);
}

/// A blockquote marker is removed, and the line behind it is read as any other.
pub proof fn law_quotes_are_unwrapped(line: Seq<char>)
    ensures
        block::unprefixed(seq!['>'] + line) == block::unprefixed(line),
{
    let s = seq!['>'] + line;
    assert(text::trimmed_start(s) == s);
    assert(s.drop_first() =~= line);
    assert(block::advanced(s) == block::advanced(line));
    lemma_advanced(line);
}

/// A footnote definition keeps its text, read as any other line, and loses its label.
pub proof fn law_footnotes_lose_their_label(label: Seq<char>, gap: Seq<char>, body: Seq<char>)
    requires
        text_lemmas::is_blank(gap),
        forall|i: int| 0 <= i < label.len() ==> #[trigger] label[i] != ']',
        body.len() > 0,
        !text::is_space(body[0]),
    ensures
        block::unprefixed(seq!['[', '^'] + label + seq![']', ':'] + gap + body)
            == block::unprefixed(body),
{
    let s = seq!['[', '^'] + label + seq![']', ':'] + gap + body;
    let k = 2 + label.len() as int;
    assert(text::trimmed_start(s) == s);
    assert(s[k] == ']' && s[k + 1] == ':');
    assert forall|j: int| 2 <= j < k implies #[trigger] s[j] != ']' by {
        assert(s[j] == label[j - 2]);
    }
    lemma_label_end_is(s, 2, k);
    assert(s.skip(k + 2) =~= gap + body);
    text_lemmas::lemma_trimmed_start_of(gap, body);
    lemma_goes_on(s, body);
}

proof fn lemma_label_end_is(s: Seq<char>, i: int, k: int)
    requires
        0 <= i <= k,
        k + 1 < s.len(),
        s[k] == ']',
        s[k + 1] == ':',
        forall|j: int| i <= j < k ==> #[trigger] s[j] != ']',
    ensures
        block::label_end(s, i) == Some(k),
    decreases k - i,
{
    if i < k {
        lemma_label_end_is(s, i + 1, k);
    }
}

/// Text that starts with no character of a block marker has none.
proof fn lemma_starts_no_marker(t: Seq<char>)
    requires
        t.len() > 0,
        !text::is_space(t[0]),
        t[0] != '>' && t[0] != '#' && t[0] != '-' && t[0] != '*' && t[0] != '+' && t[0] != '[',
    ensures
        block::advanced(t) == t,
        block::unprefixed(t) == t,
{
    text::lemma_run_len_is(t, 0, '#', 0);
}

/// Only what starts with `>`, `#`, `-`, `*`, `+` or `[` can lose a block marker: any other line
/// loses its indentation and nothing else.
pub proof fn law_other_lines_are_kept(a: Seq<char>, t: Seq<char>)
    requires
        text_lemmas::is_blank(a),
        t.len() > 0,
        !text::is_space(t[0]),
        t[0] != '>' && t[0] != '#' && t[0] != '-' && t[0] != '*' && t[0] != '+' && t[0] != '[',
    ensures
        block::unprefixed(a + t) == t,
{
    lemma_starts_no_marker(t);
    text_lemmas::lemma_trimmed_start_of(a, t);
    assert(text::trimmed_start(t) == t);
    lemma_settles(a + t, t);
}

/// Indentation changes nothing: a line is read from its first character that is no whitespace.
pub proof fn law_indentation_changes_nothing(a: Seq<char>, line: Seq<char>)
    requires
        text_lemmas::is_blank(a),
        line.len() > 0,
        !text::is_space(line[0]),
    ensures
        block::unprefixed(a + line) == block::unprefixed(line),
{
    text_lemmas::lemma_trimmed_start_of(a, line);
    assert(text::trimmed_start(line) == line);
    assert(block::advanced(a + line) == block::advanced(line));
    lemma_advanced(line);
    lemma_advanced(a + line);
    if a.len() == 0 {
        assert(a + line =~= line);
    } else if block::advanced(line).len() == line.len() {
        lemma_settles(a + line, line);
    }
}

/// `n` hashes in a row.
pub open spec fn hashes(n: nat) -> Seq<char> {
    Seq::new(n, |i: int| '#')
}

/// A heading of any of the six levels becomes its text, as a sentence of its own: a period is
/// put behind it unless it ends in other punctuation.
pub proof fn law_headings_of_every_level_are_spoken(n: nat, gap: Seq<char>, t: Seq<char>)
    requires
        1 <= n <= 6,
        gap.len() > 0,
        text_lemmas::is_blank(gap),
        text_lemmas::is_tight(t),
        t[0] != '>' && t[0] != '#' && t[0] != '-' && t[0] != '*' && t[0] != '+' && t[0] != '[',
        t.last() != '#',
    ensures
        block::unprefixed(hashes(n) + gap + t) == if t.last() == '.' || t.last() == '!'
            || t.last() == '?' || t.last() == ':' || t.last() == ';' || t.last() == ',' {
            t
        } else {
            t.push('.')
        },
{
    lemma_heading_text(n, gap, t, t, gap, 0);
}

/// Hashes that close a heading go as those that open it.
pub proof fn law_closing_hashes_go(
    n: nat,
    gap: Seq<char>,
    t: Seq<char>,
    more: Seq<char>,
    m: nat,
)
    requires
        1 <= n <= 6,
        gap.len() > 0,
        text_lemmas::is_blank(gap),
        more.len() > 0,
        text_lemmas::is_blank(more),
        text_lemmas::is_tight(t),
        t[0] != '>' && t[0] != '#' && t[0] != '-' && t[0] != '*' && t[0] != '+' && t[0] != '[',
        t.last() != '#',
    ensures
        block::unprefixed(hashes(n) + gap + t + more + hashes(m)) == block::unprefixed(
            hashes(n) + gap + t,
        ),
{
    let body = t + more + hashes(m);
    assert(hashes(n) + gap + t + more + hashes(m) =~= hashes(n) + gap + body);
    lemma_heading_text(n, gap, t, t, more, m);
    lemma_heading_text(n, gap, body, t, more, m);
}

proof fn lemma_unclosed_hashes(t: Seq<char>, m: nat)
    requires
        t.len() > 0,
        text::is_space(t.last()),
    ensures
        block::unclosed(t + hashes(m)) == t,
    decreases m,
{
    let s = t + hashes(m);
    if m == 0 {
        assert(s =~= t);
    } else {
        let k = (m - 1) as nat;
        lemma_unclosed_hashes(t, k);
        assert(s.drop_last() =~= t + hashes(k));
        assert(s[s.len() - 2] == if m == 1 {
            t.last()
        } else {
            '#'
        });
    }
}

/// A heading whose hashes are followed by `body`: its text `t`, or `t`, whitespace and hashes.
proof fn lemma_heading_text(
    n: nat,
    gap: Seq<char>,
    body: Seq<char>,
    t: Seq<char>,
    more: Seq<char>,
    m: nat,
)
    requires
        1 <= n <= 6,
        gap.len() > 0,
        text_lemmas::is_blank(gap),
        more.len() > 0,
        text_lemmas::is_blank(more),
        text_lemmas::is_tight(t),
        t[0] != '>' && t[0] != '#' && t[0] != '-' && t[0] != '*' && t[0] != '+' && t[0] != '[',
        t.last() != '#',
        body == t || body == t + more + hashes(m),
    ensures
        block::unprefixed(hashes(n) + gap + body) == if t.last() == '.' || t.last() == '!'
            || t.last() == '?' || t.last() == ':' || t.last() == ';' || t.last() == ',' {
            t
        } else {
            t.push('.')
        },
{
    let run = hashes(n);
    let s = run + gap + body;
    assert(s[0] == '#');
    assert(text::trimmed_start(s) == s);
    assert(s[n as int] == gap[0]);
    assert(text::is_space(gap[0]));
    text::lemma_run_len_is(s, 0, '#', n);
    assert(block::is_heading(s));
    assert(s.skip(n as int) =~= gap + body);
    let none = Seq::<char>::empty();
    text_lemmas::law_trimming_takes_only_whitespace(none, t, none);
    assert(none + t + none =~= t);
    assert(text::trimmed(t) == t);
    lemma_unclosed(t);
    if body == t {
        text_lemmas::law_trimming_takes_only_whitespace(gap, t, none);
        assert(gap + t + none =~= gap + body);
    } else if m == 0 {
        text_lemmas::law_trimming_takes_only_whitespace(gap, t, more);
        assert(gap + t + more =~= gap + body);
    } else {
        text_lemmas::law_trimming_takes_only_whitespace(gap, body, none);
        assert(gap + body + none =~= gap + body);
        assert(text::is_space(more[more.len() - 1]));
        assert((t + more).last() == more[more.len() - 1]);
        lemma_unclosed_hashes(t + more, m);
        text_lemmas::law_trimming_takes_only_whitespace(none, t, more);
        assert(none + t + more =~= t + more);
    }
    assert(block::heading_body(s) == t);
    let r = block::heading_sentence(s);
    assert(block::advanced(s) == r);
    assert(r[0] == t[0]);
    lemma_starts_no_marker(r);
    lemma_settles(s, r);
}

/// Hashes without whitespace behind them are no heading, nor are seven or more: such a line is
/// kept as it is.
pub proof fn law_only_six_spaced_hashes_make_a_heading(n: nat, rest: Seq<char>)
    requires
        n >= 1,
        rest.len() > 0,
        rest[0] != '#',
        n > 6 || !text::is_space(rest[0]),
    ensures
        block::unprefixed(hashes(n) + rest) == hashes(n) + rest,
{
    let s = hashes(n) + rest;
    assert(s[0] == '#');
    assert(s[n as int] == rest[0]);
    text::lemma_run_len_is(s, 0, '#', n);
    law_hashtags_are_kept(s);
}

/// A heading without text says nothing.
pub proof fn law_bare_hashes_say_nothing(n: nat)
    requires
        1 <= n <= 6,
    ensures
        block::unprefixed(hashes(n)).len() == 0,
{
    let s = hashes(n);
    assert(s[0] == '#');
    assert(text::trimmed_start(s) == s);
    text::lemma_run_len_is(s, 0, '#', n);
    assert(s.skip(n as int) =~= Seq::<char>::empty());
    assert(block::heading_body(s).len() == 0);
    assert(block::advanced(s) =~= Seq::<char>::empty());
    lemma_nothing_left();
}

/// A bullet needs whitespace behind it: a run of `-`, `*` or `+` before anything else, or before
/// nothing, is kept.
pub proof fn law_unspaced_runs_are_kept(m: char, n: nat, rest: Seq<char>)
    requires
        m == '-' || m == '*' || m == '+',
        n >= 1,
        rest.len() > 0 ==> rest[0] != m && !text::is_space(rest[0]),
    ensures
        block::unprefixed(Seq::new(n, |i: int| m) + rest) == Seq::new(n, |i: int| m) + rest,
{
    let s = Seq::new(n, |i: int| m) + rest;
    assert(s[0] == m);
    if rest.len() > 0 {
        assert(s[n as int] == rest[0]);
    }
    text::lemma_run_len_is(s, 0, m, n);
    law_unspaced_markers_are_kept(s);
}

/// Of brackets behind a bullet only `[ ]`, `[x]` and `[X]` are checkboxes: any others are kept,
/// unless they label a footnote.
pub proof fn law_other_brackets_are_kept(m: char, n: nat, mark: char, rest: Seq<char>)
    requires
        m == '-' || m == '*' || m == '+',
        n >= 1,
        mark != ' ' && mark != 'x' && mark != 'X' && mark != '^',
    ensures
        block::unprefixed(Seq::new(n, |i: int| m) + seq![' ', '[', mark] + rest) == seq!['[', mark]
            + rest,
        block::unprefixed(seq!['[', mark] + rest) == seq!['[', mark] + rest,
{
    let run = Seq::new(n, |i: int| m);
    let item = seq!['[', mark] + rest;
    let s = run + seq![' ', '[', mark] + rest;
    assert(s[0] == m);
    assert(text::trimmed_start(s) == s);
    assert(s[n as int] == ' ');
    text::lemma_run_len_is(s, 0, m, n);
    assert(block::is_bullet(s));
    assert(s.skip(n as int) =~= seq![' '] + item);
    text_lemmas::lemma_trimmed_start_of(seq![' '], item);
    assert(text::trimmed_start(item) == item);
    text::lemma_run_len_is(item, 0, '#', 0);
    assert(block::advanced(item) == item);
    lemma_settles(s, item);
    lemma_settles(item, item);
}

/// What starts like a footnote but has no `]:` is kept.
pub proof fn law_other_notes_are_kept(rest: Seq<char>)
    requires
        forall|i: int|
            0 <= i && i + 1 < rest.len() ==> !(#[trigger] rest[i] == ']' && rest[i + 1] == ':'),
    ensures
        block::unprefixed(seq!['[', '^'] + rest) == seq!['[', '^'] + rest,
{
    let s = seq!['[', '^'] + rest;
    assert(text::trimmed_start(s) == s);
    text::lemma_run_len_is(s, 0, '#', 0);
    lemma_label_end(s, 2);
    lemma_label_end_stands(s, 2);
    if block::label_end(s, 2) is Some {
        let k = block::label_end(s, 2)->0;
        assert(s[k] == rest[k - 2] && s[k + 1] == rest[k - 2 + 1]);
    }
    assert(block::advanced(s) == s);
    lemma_settles(s, s);
}

proof fn lemma_label_end_stands(s: Seq<char>, i: int)
    ensures
        block::label_end(s, i) matches Some(k) ==> s[k] == ']' && s[k + 1] == ':',
    decreases s.len() - i,
{
    if 0 <= i && i + 1 < s.len() && !(s[i] == ']' && s[i + 1] == ':') {
        lemma_label_end_stands(s, i + 1);
    }
}

/// An escaped hash at the end of a heading belongs to its text.
pub proof fn law_escaped_hashes_stay(n: nat, gap: Seq<char>, t: Seq<char>)
    requires
        1 <= n <= 6,
        gap.len() > 0,
        text_lemmas::is_blank(gap),
        t.len() > 0,
        !text::is_space(t[0]),
        t[0] != '>' && t[0] != '#' && t[0] != '-' && t[0] != '*' && t[0] != '+' && t[0] != '[',
    ensures
        block::unprefixed(hashes(n) + gap + (t + seq!['\\', '#'])) == t + seq!['\\', '#', '.'],
{
    let body = t + seq!['\\', '#'];
    let s = hashes(n) + gap + body;
    let none = Seq::<char>::empty();
    assert(s[0] == '#');
    assert(text::trimmed_start(s) == s);
    assert(s[n as int] == gap[0]);
    assert(text::is_space(gap[0]));
    text::lemma_run_len_is(s, 0, '#', n);
    assert(block::is_heading(s));
    assert(s.skip(n as int) =~= gap + body);
    text_lemmas::law_trimming_takes_only_whitespace(gap, body, none);
    assert(gap + body + none =~= gap + body);
    assert(body[body.len() - 2] == '\\');
    assert(block::unclosed(body) == body);
    text_lemmas::law_trimming_takes_only_whitespace(none, body, none);
    assert(none + body + none =~= body);
    let r = block::heading_sentence(s);
    assert(r =~= t + seq!['\\', '#', '.']);
    assert(r[0] == t[0]);
    lemma_starts_no_marker(r);
    lemma_settles(s, r);
}

} // verus!

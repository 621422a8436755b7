//! What the inline rules promise of every line.

use crate::markdown::glyphs::Glyph;
use crate::markdown::glyphs;
use crate::markdown::spans;
use crate::text;
use crate::text_lemmas;
use vstd::prelude::*;

verus! {

/// `c` does not occur in `s`.
pub open spec fn lacks(s: Seq<char>, c: char) -> bool {
    forall|i: int| 0 <= i < s.len() ==> #[trigger] s[i] != c
}

proof fn lemma_index_of_shift(s: Seq<char>, k: int, c: char, from: int)
    requires
        0 <= k <= from,
        k <= s.len(),
    ensures
        match text::index_of(s, c, from) {
            Some(j) => text::index_of(s.skip(k), c, from - k) == Some(j - k),
            None => text::index_of(s.skip(k), c, from - k) is None,
        },
    decreases s.len() - from,
{
    if from < s.len() {
        assert(s.skip(k)[from - k] == s[from]);
        if s[from] != c {
            lemma_index_of_shift(s, k, c, from + 1);
        }
    }
}

/// The first place where `c` stands is where it is found.
proof fn lemma_index_of_is(s: Seq<char>, c: char, from: int, at: int)
    requires
        0 <= from <= at < s.len(),
        s[at] == c,
        forall|j: int| from <= j < at ==> #[trigger] s[j] != c,
    ensures
        text::index_of(s, c, from) == Some(at),
{
    text::lemma_index_of(s, c, from);
}

proof fn lemma_depth_shift(s: Seq<char>, k: int, from: int, to: int)
    requires
        0 <= k <= from,
        to <= s.len(),
    ensures
        spans::depth(s, from, to) == spans::depth(s.skip(k), from - k, to - k),
    decreases to - from,
{
    if to > from {
        assert(s.skip(k)[to - 1 - k] == s[to - 1]);
        lemma_depth_shift(s, k, from, to - 1);
    }
}

proof fn lemma_balance_shift(s: Seq<char>, k: int, open: int, i: int)
    requires
        0 <= k <= open <= i,
        k <= s.len(),
    ensures
        match spans::balance_from(s, open, i) {
            Some(j) => spans::balance_from(s.skip(k), open - k, i - k) == Some(j - k),
            None => spans::balance_from(s.skip(k), open - k, i - k) is None,
        },
    decreases s.len() - i,
{
    if i < s.len() {
        lemma_depth_shift(s, k, open, i + 1);
        if spans::depth(s, open, i + 1) != 0 {
            lemma_balance_shift(s, k, open, i + 1);
        }
    }
}

proof fn lemma_link_shift(s: Seq<char>, inner: Seq<char>, k: int, open: int)
    requires
        inner.len() == s.len(),
        0 <= k <= open < s.len(),
        s[open] == '[',
    ensures
        match spans::link_at(s, inner, open) {
            Some((close, end)) => spans::link_at(s.skip(k), inner.skip(k), open - k) == Some(
                (close - k, end - k),
            ),
            None => spans::link_at(s.skip(k), inner.skip(k), open - k) is None,
        },
{
    lemma_balance_shift(s, k, open, open);
    spans::lemma_balance_from(s, open, open);
    match spans::closing_bracket(s, open) {
        Some(close) => {
            if close + 1 < s.len() {
                assert(s.skip(k)[close + 1 - k] == s[close + 1]);
                lemma_index_of_shift(inner, k, ')', close + 1);
                lemma_index_of_shift(inner, k, ']', close + 1);
            }
        },
        None => {},
    }
}

/// Between brackets without brackets inside, the second closes the first.
proof fn lemma_flat_brackets(s: Seq<char>, open: int, close: int)
    requires
        0 <= open < close < s.len(),
        s[open] == '[',
        s[close] == ']',
        forall|j: int| open < j < close ==> #[trigger] s[j] != '[' && s[j] != ']',
    ensures
        spans::closing_bracket(s, open) == Some(close),
{
    assert(spans::depth(s, open, open + 1) == 1) by {
        reveal_with_fuel(spans::depth, 2);
    }
    lemma_flat_depth(s, open, close, close);
    assert(spans::depth(s, open, close + 1) == 0);
    lemma_flat_balance(s, open, close, open);
}

proof fn lemma_flat_depth(s: Seq<char>, open: int, close: int, to: int)
    requires
        0 <= open < to <= close < s.len(),
        s[open] == '[',
        forall|j: int| open < j < close ==> #[trigger] s[j] != '[' && s[j] != ']',
    ensures
        spans::depth(s, open, to) == 1,
    decreases to - open,
{
    if to == open + 1 {
        reveal_with_fuel(spans::depth, 2);
    } else {
        lemma_flat_depth(s, open, close, to - 1);
        assert(s[to - 1] != '[' && s[to - 1] != ']');
    }
}

proof fn lemma_flat_balance(s: Seq<char>, open: int, close: int, i: int)
    requires
        0 <= open <= i <= close < s.len(),
        s[open] == '[',
        forall|j: int| open < j < close ==> #[trigger] s[j] != '[' && s[j] != ']',
        spans::depth(s, open, close + 1) == 0,
    ensures
        spans::balance_from(s, open, i) == Some(close),
    decreases close - i,
{
    if i < close {
        lemma_flat_depth(s, open, close, i + 1);
        lemma_flat_balance(s, open, close, i + 1);
    }
}

/// How many more `[` than `]` are among the first `k` characters.
pub open spec fn level(s: Seq<char>, k: int) -> int
    decreases k,
{
    if k <= 0 {
        0
    } else if s[k - 1] == '[' {
        level(s, k - 1) + 1
    } else if s[k - 1] == ']' {
        level(s, k - 1) - 1
    } else {
        level(s, k - 1)
    }
}

/// Every `[` in `s` has its `]` behind it, and every `]` its `[` before it.
pub open spec fn is_balanced(s: Seq<char>) -> bool {
    &&& level(s, s.len() as int) == 0
    &&& forall|k: int| 0 <= k <= s.len() ==> #[trigger] level(s, k) >= 0
}

/// Text without brackets is balanced.
pub proof fn lemma_lacks_is_balanced(s: Seq<char>)
    requires
        lacks(s, '['),
        lacks(s, ']'),
    ensures
        is_balanced(s),
{
    assert forall|k: int| 0 <= k <= s.len() implies #[trigger] level(s, k) == 0 by {
        lemma_level_is_zero(s, k);
    }
}

proof fn lemma_level_is_zero(s: Seq<char>, k: int)
    requires
        0 <= k <= s.len(),
        lacks(s, '['),
        lacks(s, ']'),
    ensures
        level(s, k) == 0,
    decreases k,
{
    if k > 0 {
        lemma_level_is_zero(s, k - 1);
        assert(s[k - 1] != '[' && s[k - 1] != ']');
    }
}

proof fn lemma_depth_is_level(s: Seq<char>, open: int, label: Seq<char>, k: int)
    requires
        0 <= open,
        open + 1 + label.len() <= s.len(),
        s[open] == '[',
        forall|j: int| 0 <= j < label.len() ==> #[trigger] s[open + 1 + j] == label[j],
        0 <= k <= label.len(),
    ensures
        spans::depth(s, open, open + 1 + k) == 1 + level(label, k),
    decreases k,
{
    if k == 0 {
        reveal_with_fuel(spans::depth, 2);
    } else {
        lemma_depth_is_level(s, open, label, k - 1);
        assert(s[open + 1 + (k - 1)] == label[k - 1]);
    }
}

/// The bracket behind a balanced text closes the one before it.
proof fn lemma_balanced_brackets(s: Seq<char>, open: int, label: Seq<char>)
    requires
        0 <= open,
        open + 1 + label.len() < s.len(),
        s[open] == '[',
        forall|j: int| 0 <= j < label.len() ==> #[trigger] s[open + 1 + j] == label[j],
        s[open + 1 + label.len()] == ']',
        is_balanced(label),
    ensures
        spans::closing_bracket(s, open) == Some(open + 1 + label.len()),
{
    lemma_depth_is_level(s, open, label, label.len() as int);
    assert(spans::depth(s, open, open + 1 + label.len() + 1) == 0);
    lemma_balance_is_found(s, open, label, 0);
    lemma_depth_is_level(s, open, label, 0);
}

proof fn lemma_balance_is_found(s: Seq<char>, open: int, label: Seq<char>, k: int)
    requires
        0 <= open,
        open + 1 + label.len() < s.len(),
        s[open] == '[',
        forall|j: int| 0 <= j < label.len() ==> #[trigger] s[open + 1 + j] == label[j],
        is_balanced(label),
        spans::depth(s, open, open + 1 + label.len() + 1) == 0,
        0 <= k <= label.len() + 1,
    ensures
        spans::balance_from(s, open, open + k) == Some(open + 1 + label.len()),
    decreases label.len() + 1 - k,
{
    if k <= label.len() {
        lemma_depth_is_level(s, open, label, k);
        assert(level(label, k) >= 0);
        lemma_balance_is_found(s, open, label, k + 1);
    }
}

/// The two ways to write a link target.
pub open spec fn is_target(o: char, c: char) -> bool {
    (o == '(' && c == ')') || (o == '[' && c == ']')
}

/// `[label](`, or with `[` where the target starts.
pub open spec fn link_head(label: Seq<char>, o: char) -> Seq<char> {
    seq!['['] + label + seq![']', o]
}

/// A link with the given text: `head` is what is seen up to its target, and `target` the rest,
/// which the first `c` ends.
pub open spec fn is_link(
    head: Seq<Glyph>,
    label: Seq<char>,
    o: char,
    target: Seq<Glyph>,
    c: char,
) -> bool {
    &&& is_target(o, c)
    &&& glyphs::seen(head) == link_head(label, o)
    &&& is_balanced(label)
    &&& target.len() > 0
    &&& glyphs::inside(target).last() == c
    &&& lacks(glyphs::inside(target).drop_last(), c)
}

/// The views of the end of a text are the ends of its views.
proof fn lemma_views_skip(g: Seq<Glyph>, k: int)
    requires
        0 <= k <= g.len(),
    ensures
        glyphs::seen(g).skip(k) == glyphs::seen(g.skip(k)),
        glyphs::inside(g).skip(k) == glyphs::inside(g.skip(k)),
{
    assert(glyphs::seen(g).skip(k) =~= glyphs::seen(g.skip(k)));
    assert(glyphs::inside(g).skip(k) =~= glyphs::inside(g.skip(k)));
}

proof fn lemma_link_found(
    g: Seq<Glyph>,
    open: int,
    head: Seq<Glyph>,
    label: Seq<char>,
    o: char,
    target: Seq<Glyph>,
    c: char,
)
    requires
        0 <= open,
        is_link(head, label, o, target, c),
        open + head.len() + target.len() <= g.len(),
        g.subrange(open, open + head.len()) == head,
        g.subrange(open + head.len(), open + head.len() + target.len()) == target,
    ensures
        spans::link_at(glyphs::seen(g), glyphs::inside(g), open) == Some(
            (open + 1 + label.len(), open + head.len() + target.len()),
        ),
        glyphs::seen(g)[open] == '[',
        head.len() == label.len() + 3,
{
    let s = glyphs::seen(g);
    let inner = glyphs::inside(g);
    let h = glyphs::seen(head);
    let t = glyphs::inside(target);
    let close = open + 1 + label.len();
    let mid = open + head.len();
    let end = mid + target.len() - 1;
    assert(head.len() == h.len() == label.len() + 3);
    assert forall|j: int| 0 <= j < head.len() implies #[trigger] s[open + j] == h[j] by {
        assert(g.subrange(open, open + head.len())[j] == g[open + j]);
    }
    assert forall|j: int| 0 <= j < target.len() implies #[trigger] inner[mid + j] == t[j] by {
        assert(g.subrange(mid, mid + target.len())[j] == g[mid + j]);
    }
    assert(s[open + 0] == '[');
    assert(s[open + (1 + label.len())] == h[1 + label.len() as int]);
    assert forall|j: int| 0 <= j < label.len() implies #[trigger] s[open + 1 + j] == label[j] by {
        assert(s[open + (1 + j)] == h[1 + j]);
    }
    lemma_balanced_brackets(s, open, label);
    assert(s[open + (2 + label.len())] == h[2 + label.len() as int]);
    assert(s[close + 1] == o);
    assert(inner[close + 1] == o);
    assert(inner[mid + (target.len() - 1)] == t[target.len() - 1]);
    assert forall|j: int| close + 1 <= j < end implies #[trigger] inner[j] != c by {
        if j >= mid {
            assert(inner[mid + (j - mid)] == t[j - mid]);
            assert(t[j - mid] == t.drop_last()[j - mid]);
        }
    }
    lemma_index_of_is(inner, c, close + 1, end);
}

// ---- images ----

proof fn lemma_image_shift(g: Seq<Glyph>, k: int, i: int)
    requires
        0 <= k <= i <= g.len(),
    ensures
        match spans::image_at(g, i) {
            Some(end) => spans::image_at(g.skip(k), i - k) == Some(end - k),
            None => spans::image_at(g.skip(k), i - k) is None,
        },
{
    let s = glyphs::seen(g);
    lemma_views_skip(g, k);
    if i + 1 < g.len() {
        assert(s.skip(k)[i - k] == s[i]);
        assert(s.skip(k)[i + 1 - k] == s[i + 1]);
        if s[i] == '!' && s[i + 1] == '[' {
            lemma_link_shift(s, glyphs::inside(g), k, i + 1);
        }
    }
}

proof fn lemma_imageless_shift(g: Seq<Glyph>, k: int, i: int)
    requires
        0 <= k <= i <= g.len(),
    ensures
        spans::imageless_from(g, i) == spans::imageless_from(g.skip(k), i - k),
    decreases g.len() - i,
{
    if i < g.len() {
        assert(g.skip(k)[i - k] == g[i]);
        lemma_image_shift(g, k, i);
        spans::lemma_image_at(g, i);
        match spans::image_at(g, i) {
            Some(end) => lemma_imageless_shift(g, k, end),
            None => lemma_imageless_shift(g, k, i + 1),
        }
    }
}

/// `![` stands at `k`.
pub open spec fn opens_image(s: Seq<char>, k: int) -> bool {
    0 <= k && k + 1 < s.len() && s[k] == '!' && s[k + 1] == '['
}

proof fn lemma_imageless_keeps(g: Seq<Glyph>, i: int, j: int)
    requires
        0 <= i <= j <= g.len(),
        forall|k: int| i <= k < j ==> !#[trigger] opens_image(glyphs::seen(g), k),
    ensures
        spans::imageless_from(g, i) == g.subrange(i, j) + spans::imageless_from(g, j),
    decreases j - i,
{
    if i < j {
        assert(!opens_image(glyphs::seen(g), i));
        lemma_imageless_keeps(g, i + 1, j);
        assert(seq![g[i]] + (g.subrange(i + 1, j) + spans::imageless_from(g, j)) =~= g.subrange(i, j)
            + spans::imageless_from(g, j));
    } else {
        assert(g.subrange(i, j) + spans::imageless_from(g, j) =~= spans::imageless_from(g, j));
    }
}

/// Where no image opens, there is none.
pub proof fn lemma_no_images(g: Seq<Glyph>)
    requires
        forall|k: int| !#[trigger] opens_image(glyphs::seen(g), k),
    ensures
        spans::imageless(g) == g,
{
    lemma_imageless_keeps(g, 0, g.len() as int);
    assert(g.subrange(0, g.len() as int) =~= g);
    assert(g + spans::imageless_from(g, g.len() as int) =~= g);
}

/// An image is dropped whole, alt text included; what follows is read on its own.
pub proof fn law_images_vanish(
    a: Seq<Glyph>,
    head: Seq<Glyph>,
    alt: Seq<char>,
    o: char,
    target: Seq<Glyph>,
    c: char,
    b: Seq<Glyph>,
)
    requires
        is_link(head, alt, o, target, c),
        forall|k: int| !#[trigger] opens_image(glyphs::seen(a), k),
    ensures
        spans::imageless(a + glyphs::plain(seq!['!']) + head + target + b) == a + spans::imageless(
            b,
        ),
{
    let bang = glyphs::plain(seq!['!']);
    let g = a + bang + head + target + b;
    let s = glyphs::seen(g);
    let z = glyphs::seen(a);
    let p = a.len() as int;
    assert(bang[0] == glyphs::plain_glyph('!'));
    assert(g[p] == bang[0]);
    assert(s[p] == '!');
    assert forall|k: int| 0 <= k < p implies !#[trigger] opens_image(s, k) by {
        assert(!opens_image(z, k));
        assert(s[k] == z[k]);
        if k + 1 < p {
            assert(s[k + 1] == z[k + 1]);
        }
    }
    lemma_imageless_keeps(g, 0, p);
    assert(g.subrange(0, p) =~= a);
    assert(g.subrange(p + 1, p + 1 + head.len()) =~= head);
    assert(g.subrange(p + 1 + head.len(), p + 1 + head.len() + target.len()) =~= target);
    lemma_link_found(g, p + 1, head, alt, o, target, c);
    let end = p + 1 + head.len() + target.len();
    lemma_imageless_shift(g, end, end);
    assert(g.skip(end) =~= b);
}

// ---- links ----

proof fn lemma_autolink_shift(g: Seq<Glyph>, k: int, i: int)
    requires
        0 <= k <= i < g.len(),
    ensures
        match spans::autolink_at(g, i) {
            Some(end) => spans::autolink_at(g.skip(k), i - k) == Some(end - k),
            None => spans::autolink_at(g.skip(k), i - k) is None,
        },
{
    let inner = glyphs::inside(g);
    lemma_views_skip(g, k);
    assert(glyphs::seen(g).skip(k)[i - k] == glyphs::seen(g)[i]);
    lemma_index_of_shift(inner, k, '>', i);
    text::lemma_index_of(inner, '>', i);
    match text::index_of(inner, '>', i) {
        Some(j) => {
            if i < j {
                assert(inner.skip(k).subrange(i - k + 1, j - k) =~= inner.subrange(i + 1, j));
            }
        },
        None => {},
    }
}

proof fn lemma_linkless_shift(g: Seq<Glyph>, k: int, i: int)
    requires
        0 <= k <= i <= g.len(),
    ensures
        spans::linkless_from(g, i) == spans::linkless_from(g.skip(k), i - k),
    decreases g.len() - i,
{
    if i < g.len() {
        let s = glyphs::seen(g);
        let inner = glyphs::inside(g);
        lemma_views_skip(g, k);
        assert(s.skip(k)[i - k] == s[i]);
        assert(g.skip(k)[i - k] == g[i]);
        if s[i] == '[' {
            lemma_link_shift(s, inner, k, i);
            spans::lemma_link_at(s, inner, i);
            match spans::link_at(s, inner, i) {
                Some((close, end)) => {
                    lemma_linkless_shift(g, k, end);
                    assert(g.skip(k).subrange(i - k + 1, close - k) =~= g.subrange(i + 1, close));
                },
                None => {},
            }
        }
        lemma_autolink_shift(g, k, i);
        spans::lemma_autolink_at(g, i);
        match spans::autolink_at(g, i) {
            Some(end) => lemma_linkless_shift(g, k, end),
            None => {},
        }
        lemma_linkless_shift(g, k, i + 1);
    }
}

proof fn lemma_linkless_keeps(g: Seq<Glyph>, i: int, j: int)
    requires
        0 <= i <= j <= g.len(),
        forall|k: int|
            i <= k < j ==> #[trigger] glyphs::seen(g)[k] != '[' && glyphs::seen(g)[k] != '<',
    ensures
        spans::linkless_from(g, i) == g.subrange(i, j) + spans::linkless_from(g, j),
    decreases j - i,
{
    if i < j {
        assert(glyphs::seen(g)[i] != '[' && glyphs::seen(g)[i] != '<');
        lemma_linkless_keeps(g, i + 1, j);
        assert(seq![g[i]] + (g.subrange(i + 1, j) + spans::linkless_from(g, j)) =~= g.subrange(i, j)
            + spans::linkless_from(g, j));
    } else {
        assert(g.subrange(i, j) + spans::linkless_from(g, j) =~= spans::linkless_from(g, j));
    }
}

/// A link is reduced to its text; what follows is read on its own.
pub proof fn law_links_keep_their_text(
    a: Seq<Glyph>,
    head: Seq<Glyph>,
    label: Seq<char>,
    o: char,
    target: Seq<Glyph>,
    c: char,
    b: Seq<Glyph>,
)
    requires
        is_link(head, label, o, target, c),
        lacks(glyphs::seen(a), '['),
        lacks(glyphs::seen(a), '<'),
    ensures
        spans::linkless(a + head + target + b) == a + head.subrange(1, label.len() + 1int)
            + spans::linkless(b),
{
    let g = a + head + target + b;
    let s = glyphs::seen(g);
    let p = a.len() as int;
    assert forall|k: int| 0 <= k < p implies #[trigger] s[k] != '[' && s[k] != '<' by {
        assert(s[k] == glyphs::seen(a)[k]);
    }
    lemma_linkless_keeps(g, 0, p);
    assert(g.subrange(0, p) =~= a);
    assert(g.subrange(p, p + head.len()) =~= head);
    assert(g.subrange(p + head.len(), p + head.len() + target.len()) =~= target);
    lemma_link_found(g, p, head, label, o, target, c);
    let end = p + head.len() + target.len();
    lemma_linkless_shift(g, end, end);
    assert(g.skip(end) =~= b);
    let words = head.subrange(1, label.len() + 1int);
    assert(g.subrange(p + 1, p + 1 + label.len()) =~= words);
    assert(a + (words + spans::linkless(b)) =~= a + words + spans::linkless(b));
}

/// A bracket that nothing closes is kept, and what follows it is read as it would be without it.
pub proof fn law_unclosed_brackets_are_kept(a: Seq<Glyph>, b: Seq<Glyph>)
    requires
        lacks(glyphs::seen(a), '['),
        lacks(glyphs::seen(a), '<'),
        forall|k: int| 0 <= k <= b.len() ==> #[trigger] level(glyphs::seen(b), k) >= 0,
    ensures
        spans::linkless(a + glyphs::plain(seq!['[']) + b) == a + glyphs::plain(seq!['['])
            + spans::linkless(b),
{
    let open = glyphs::plain(seq!['[']);
    let g = a + open + b;
    let s = glyphs::seen(g);
    let p = a.len() as int;
    assert forall|k: int| 0 <= k < p implies #[trigger] s[k] != '[' && s[k] != '<' by {
        assert(s[k] == glyphs::seen(a)[k]);
    }
    lemma_linkless_keeps(g, 0, p);
    assert(g.subrange(0, p) =~= a);
    assert(g[p] == open[0]);
    assert(s[p] == '[');
    let rest = glyphs::seen(b);
    assert forall|j: int| 0 <= j < rest.len() implies #[trigger] s[p + 1 + j] == rest[j] by {
        assert(g[p + 1 + j] == b[j]);
    }
    lemma_never_balanced(s, p, rest, 0);
    assert(spans::link_at(s, glyphs::inside(g), p) is None);
    assert(spans::autolink_at(g, p) is None);
    lemma_linkless_shift(g, p + 1, p + 1);
    assert(g.skip(p + 1) =~= b);
    assert(a + (seq![g[p]] + spans::linkless(b)) =~= a + open + spans::linkless(b));
}

proof fn lemma_never_balanced(s: Seq<char>, open: int, rest: Seq<char>, k: int)
    requires
        0 <= open,
        s.len() == open + 1 + rest.len(),
        s[open] == '[',
        forall|j: int| 0 <= j < rest.len() ==> #[trigger] s[open + 1 + j] == rest[j],
        forall|j: int| 0 <= j <= rest.len() ==> #[trigger] level(rest, j) >= 0,
        0 <= k <= rest.len() + 1,
    ensures
        spans::balance_from(s, open, open + k) is None,
    decreases rest.len() + 1 - k,
{
    if k <= rest.len() {
        lemma_depth_is_level(s, open, rest, k);
        assert(level(rest, k) >= 0);
        lemma_never_balanced(s, open, rest, k + 1);
    }
}

/// A bracketed aside such as `[sic]`, with no target right behind it, is not a link and
/// keeps its brackets.
pub proof fn law_bracketed_asides_are_kept(
    a: Seq<Glyph>,
    aside: Seq<Glyph>,
    words: Seq<char>,
    b: Seq<Glyph>,
)
    requires
        glyphs::seen(aside) == seq!['['] + words + seq![']'],
        lacks(glyphs::seen(a), '['),
        lacks(glyphs::seen(a), '<'),
        lacks(words, '['),
        lacks(words, ']'),
        lacks(words, '<'),
        b.len() > 0 ==> glyphs::seen(b)[0] != '(' && glyphs::seen(b)[0] != '[',
    ensures
        spans::linkless(a + aside + b) == a + aside + spans::linkless(b),
{
    let g = a + aside + b;
    let s = glyphs::seen(g);
    let p = a.len() as int;
    let close = p + 1 + words.len();
    assert(s =~= glyphs::seen(a) + (seq!['['] + words + seq![']']) + glyphs::seen(b));
    assert forall|k: int| 0 <= k < p implies #[trigger] s[k] != '[' && s[k] != '<' by {
        assert(s[k] == glyphs::seen(a)[k]);
    }
    lemma_linkless_keeps(g, 0, p);
    assert(g.subrange(0, p) =~= a);
    assert(aside.len() == glyphs::seen(aside).len());
    assert(s[p] == '[' && s[close] == ']');
    assert forall|j: int| p < j < close implies #[trigger] s[j] != '[' && s[j] != ']' && s[j]
        != '<' by {
        assert(s[j] == words[j - p - 1]);
    }
    lemma_flat_brackets(s, p, close);
    if close + 1 < s.len() {
        assert(s[close + 1] == glyphs::seen(b)[0]);
    }
    assert(spans::link_at(s, glyphs::inside(g), p) is None);
    lemma_linkless_keeps(g, p + 1, close + 1);
    lemma_linkless_shift(g, close + 1, close + 1);
    assert(g.skip(close + 1) =~= b);
    assert(a + (seq![g[p]] + (g.subrange(p + 1, close + 1) + spans::linkless(b))) =~= a + aside
        + spans::linkless(b));
}

/// `<inner>`: the first is seen to open, and inside of it `>` stands only at the end.
pub open spec fn is_angle(g: Seq<Glyph>, inner: Seq<char>) -> bool {
    &&& glyphs::inside(g) == seq!['<'] + inner + seq!['>']
    &&& glyphs::seen(g)[0] == '<'
    &&& lacks(inner, '>')
}

/// `<inner>` at position `p`.
proof fn lemma_angle(g: Seq<Glyph>, p: int, angle: Seq<Glyph>, inner: Seq<char>)
    requires
        is_angle(angle, inner),
        0 <= p,
        p + angle.len() <= g.len(),
        g.subrange(p, p + angle.len()) == angle,
    ensures
        angle.len() == inner.len() + 2,
        glyphs::seen(g)[p] == '<',
        glyphs::inside(g)[p] == '<',
        text::index_of(glyphs::inside(g), '>', p) == Some(p + 1 + inner.len()),
        glyphs::inside(g).subrange(p + 1, p + 1 + inner.len()) == inner,
{
    let s = glyphs::inside(g);
    let q = p + 1 + inner.len();
    let whole = glyphs::inside(angle);
    assert(angle.len() == whole.len());
    assert forall|j: int| 0 <= j < whole.len() implies #[trigger] s[p + j] == whole[j]
        && glyphs::seen(g)[p + j] == glyphs::seen(angle)[j] by {
        assert(g.subrange(p, p + angle.len())[j] == g[p + j]);
    }
    assert(s[p + 0] == '<');
    assert(s[p + (1 + inner.len())] == '>');
    assert forall|j: int| p <= j < q implies #[trigger] s[j] != '>' by {
        assert(s[p + (j - p)] == whole[j - p]);
        if j > p {
            assert(whole[j - p] == inner[j - p - 1]);
        }
    }
    lemma_index_of_is(s, '>', p, q);
    assert forall|j: int| 0 <= j < inner.len() implies #[trigger] s.subrange(p + 1, q)[j]
        == inner[j] by {
        assert(s[p + (j + 1)] == whole[j + 1]);
    }
    assert(s.subrange(p + 1, q) =~= inner);
}

/// An address in angle brackets is dropped; what follows is read on its own.
pub proof fn law_autolinks_vanish(a: Seq<Glyph>, link: Seq<Glyph>, inner: Seq<char>, b: Seq<Glyph>)
    requires
        is_angle(link, inner),
        lacks(glyphs::seen(a), '['),
        lacks(glyphs::seen(a), '<'),
        "http://"@.is_prefix_of(inner) || "https://"@.is_prefix_of(inner) || (inner.contains('@')
            && !inner.contains(' ')),
    ensures
        spans::linkless(a + link + b) == a + spans::linkless(b),
{
    let g = a + link + b;
    let s = glyphs::seen(g);
    let p = a.len() as int;
    let end = p + link.len();
    assert(g.subrange(p, end) =~= link);
    lemma_angle(g, p, link, inner);
    assert forall|k: int| 0 <= k < p implies #[trigger] s[k] != '[' && s[k] != '<' by {
        assert(s[k] == glyphs::seen(a)[k]);
    }
    lemma_linkless_keeps(g, 0, p);
    assert(g.subrange(0, p) =~= a);
    assert(spans::autolink_at(g, p) == Some(end));
    lemma_linkless_shift(g, end, end);
    assert(g.skip(end) =~= b);
}

/// Angle brackets around anything else are no address and are kept, for the tag rules to look
/// at.
pub proof fn law_other_angles_are_no_autolinks(
    a: Seq<Glyph>,
    angle: Seq<Glyph>,
    inner: Seq<char>,
    b: Seq<Glyph>,
)
    requires
        is_angle(angle, inner),
        lacks(glyphs::seen(a), '['),
        lacks(glyphs::seen(a), '<'),
        lacks(inner, '['),
        lacks(inner, '<'),
        !"http://"@.is_prefix_of(inner),
        !"https://"@.is_prefix_of(inner),
        inner.contains(' ') || !inner.contains('@'),
    ensures
        spans::linkless(a + angle + b) == a + angle + spans::linkless(b),
{
    let g = a + angle + b;
    let s = glyphs::seen(g);
    let p = a.len() as int;
    let q = p + 1 + inner.len();
    assert(g.subrange(p, p + angle.len()) =~= angle);
    lemma_angle(g, p, angle, inner);
    assert forall|k: int| 0 <= k < p implies #[trigger] s[k] != '[' && s[k] != '<' by {
        assert(s[k] == glyphs::seen(a)[k]);
    }
    lemma_linkless_keeps(g, 0, p);
    assert(g.subrange(0, p) =~= a);
    assert(spans::autolink_at(g, p) is None);
    assert forall|k: int| p + 1 <= k < q + 1 implies #[trigger] s[k] != '[' && s[k] != '<' by {
        assert(g[k] == angle[k - p]);
        assert(glyphs::inside(angle)[k - p] == (seq!['<'] + inner + seq!['>'])[k - p]);
        if k < q {
            assert(glyphs::inside(angle)[k - p] == inner[k - p - 1]);
        }
    }
    lemma_linkless_keeps(g, p + 1, q + 1);
    lemma_linkless_shift(g, q + 1, q + 1);
    assert(g.skip(q + 1) =~= b);
    assert(a + (seq![g[p]] + (g.subrange(p + 1, q + 1) + spans::linkless(b))) =~= a + angle
        + spans::linkless(b));
}

// ---- code spans ----

proof fn lemma_tick_run_shift(s: Seq<char>, k: int, j: int, n: nat)
    requires
        0 <= k < j,
        k <= s.len(),
    ensures
        spans::is_tick_run(s, j, n) == spans::is_tick_run(s.skip(k), j - k, n),
{
    if j < s.len() {
        text::lemma_run_len_skip(s, k, j, '`');
        assert(s.skip(k)[j - k] == s[j]);
        assert(s.skip(k)[j - k - 1] == s[j - 1]);
    }
}

proof fn lemma_closing_ticks_shift(s: Seq<char>, k: int, j: int, n: nat)
    requires
        0 <= k < j,
        k <= s.len(),
    ensures
        match spans::closing_ticks(s, j, n) {
            Some(x) => spans::closing_ticks(s.skip(k), j - k, n) == Some(x - k),
            None => spans::closing_ticks(s.skip(k), j - k, n) is None,
        },
    decreases s.len() - j,
{
    if j < s.len() {
        lemma_tick_run_shift(s, k, j, n);
        if !spans::is_tick_run(s, j, n) {
            lemma_closing_ticks_shift(s, k, j + 1, n);
        }
    }
}

proof fn lemma_code_shift(g: Seq<Glyph>, k: int, i: int)
    requires
        0 <= k <= i <= g.len(),
    ensures
        match spans::code_at(g, i) {
            Some((n, close)) => spans::code_at(g.skip(k), i - k) == Some((n, close - k)),
            None => spans::code_at(g.skip(k), i - k) is None,
        },
{
    let s = glyphs::seen(g);
    let n = text::run_len(s, i, '`');
    lemma_views_skip(g, k);
    text::lemma_run_len_skip(s, k, i, '`');
    if n > 0 {
        lemma_closing_ticks_shift(glyphs::inside(g), k, i + n, n);
    }
}

proof fn lemma_tickless_shift(g: Seq<Glyph>, k: int, i: int)
    requires
        0 <= k <= i <= g.len(),
    ensures
        spans::tickless_from(g, i) == spans::tickless_from(g.skip(k), i - k),
    decreases g.len() - i,
{
    if i < g.len() {
        let z = g.skip(k);
        assert(z[i - k] == g[i]);
        lemma_code_shift(g, k, i);
        spans::lemma_code_at(g, i);
        match spans::code_at(g, i) {
            Some((n, close)) => {
                lemma_tickless_shift(g, k, close + n);
                assert(glyphs::as_code(z).subrange(i - k + n, close - k) =~= glyphs::as_code(
                    g,
                ).subrange(i + n, close));
            },
            None => lemma_tickless_shift(g, k, i + 1),
        }
    }
}

proof fn lemma_tickless_keeps(g: Seq<Glyph>, i: int, j: int)
    requires
        0 <= i <= j <= g.len(),
        forall|k: int| i <= k < j ==> #[trigger] glyphs::seen(g)[k] != '`',
    ensures
        spans::tickless_from(g, i) == g.subrange(i, j) + spans::tickless_from(g, j),
    decreases j - i,
{
    if i < j {
        lemma_tickless_keeps(g, i + 1, j);
        assert(glyphs::seen(g)[i] != '`');
        assert(text::run_len(glyphs::seen(g), i, '`') == 0);
        assert(seq![g[i]] + (g.subrange(i + 1, j) + spans::tickless_from(g, j)) =~= g.subrange(i, j)
            + spans::tickless_from(g, j));
    } else {
        assert(g.subrange(i, j) + spans::tickless_from(g, j) =~= spans::tickless_from(g, j));
    }
}

/// `n` backticks in a row.
pub open spec fn ticks(n: nat) -> Seq<char> {
    Seq::new(n, |i: int| '`')
}

/// `code` can stand between `n` backticks: it neither starts nor ends with a backtick, and
/// no run of `n` backticks stands in it.
pub open spec fn fits_between(code: Seq<char>, n: nat) -> bool {
    &&& code.len() > 0
    &&& code[0] != '`'
    &&& code.last() != '`'
    &&& forall|j: int| !#[trigger] spans::is_tick_run(code, j, n)
}

/// Inline code keeps its content and loses the backticks around it, however many there
/// are; runs of another length inside belong to the content. So does a backslash, even right
/// before the backticks that close. The content is code from there on, so that no later rule
/// finds markup in it.
pub proof fn law_code_keeps_its_content(
    a: Seq<Glyph>,
    n: nat,
    code: Seq<Glyph>,
    close: Seq<Glyph>,
    b: Seq<Glyph>,
)
    requires
        n >= 1,
        lacks(glyphs::seen(a), '`'),
        fits_between(glyphs::inside(code), n),
        glyphs::inside(close) == ticks(n),
        b.len() > 0 ==> glyphs::inside(b)[0] != '`',
    ensures
        spans::tickless(a + glyphs::plain(ticks(n)) + code + close + b) == a + glyphs::as_code(code)
            + spans::tickless(b),
{
    let open = glyphs::plain(ticks(n));
    let words = glyphs::inside(code);
    let g = a + open + code + close + b;
    let u = glyphs::as_code(g);
    let s = glyphs::seen(g);
    let r = glyphs::inside(g);
    assert(close.len() == glyphs::inside(close).len() == n);
    let p0 = a.len() as int;
    let p1 = p0 + n;
    let p2 = p1 + code.len();
    let p3 = p2 + n;
    assert forall|k: int| 0 <= k < p0 implies #[trigger] s[k] != '`' by {
        assert(s[k] == glyphs::seen(a)[k]);
    }
    assert forall|k: int| p0 <= k < p1 implies #[trigger] s[k] == '`' && r[k] == '`' by {
        assert(g[k] == open[k - p0]);
    }
    assert forall|k: int| p1 <= k < p2 implies #[trigger] r[k] == words[k - p1] by {
        assert(g[k] == code[k - p1]);
    }
    assert forall|k: int| p2 <= k < p3 implies #[trigger] r[k] == '`' by {
        assert(g[k] == close[k - p2]);
        assert(r[k] == glyphs::inside(close)[k - p2]);
    }
    lemma_tickless_keeps(g, 0, p0);
    assert(g.subrange(0, p0) =~= a);
    assert(r[p1] == words[0]);
    assert(s[p1] != '`');
    text::lemma_run_len_is(s, p0, '`', n);
    if p3 < r.len() {
        assert(g[p3] == b[0]);
        assert(r[p3] == glyphs::inside(b)[0]);
    }
    text::lemma_run_len_is(r, p2, '`', n);
    assert(r[p2 - 1] == words.last());
    assert(spans::is_tick_run(r, p2, n));
    assert forall|j: int| p1 <= j < p2 implies !#[trigger] spans::is_tick_run(r, j, n) by {
        if spans::is_tick_run(r, j, n) {
            assert(r[j] == words[j - p1]);
            text::lemma_run_len(r, j, '`');
            assert(j + n < p2) by {
                if j + n >= p2 {
                    assert(r[p2 - 1] == '`');
                }
            }
            assert(r[j + n] == words[j + n - p1]);
            assert forall|x: int| j - p1 <= x < j - p1 + n implies #[trigger] words[x] == '`' by {
                assert(r[x + p1] == words[x]);
            }
            text::lemma_run_len_is(words, j - p1, '`', n);
            if j > p1 {
                assert(r[j - 1] == words[j - 1 - p1]);
            }
            assert(spans::is_tick_run(words, j - p1, n));
        }
    }
    lemma_first_tick_run(r, p1, p2, n);
    assert(spans::code_at(g, p0) == Some((n, p2)));
    assert(u.subrange(p1, p2) =~= glyphs::as_code(code));
    lemma_tickless_shift(g, p3, p3);
    assert(g.skip(p3) =~= b);
    assert(a + (glyphs::as_code(code) + spans::tickless(b)) =~= a + glyphs::as_code(code)
        + spans::tickless(b));
}

proof fn lemma_first_tick_run(s: Seq<char>, from: int, at: int, n: nat)
    requires
        0 <= from <= at < s.len(),
        spans::is_tick_run(s, at, n),
        forall|j: int| from <= j < at ==> !#[trigger] spans::is_tick_run(s, j, n),
    ensures
        spans::closing_ticks(s, from, n) == Some(at),
    decreases at - from,
{
    if from < at {
        lemma_first_tick_run(s, from + 1, at, n);
    }
}

proof fn lemma_unclosed(g: Seq<Glyph>, i: int, end: int)
    requires
        0 <= i <= end <= g.len(),
        forall|j: int| i <= j < end ==> #[trigger] glyphs::seen(g)[j] == '`',
        forall|j: int| end <= j < g.len() ==> #[trigger] glyphs::inside(g)[j] != '`',
    ensures
        spans::tickless_from(g, i) == g.skip(i),
    decreases g.len() - i,
{
    let s = glyphs::seen(g);
    if i == g.len() {
        assert(g.skip(i) =~= Seq::<Glyph>::empty());
    } else if i == end {
        assert forall|k: int| i <= k < g.len() implies #[trigger] s[k] != '`' by {
            assert(glyphs::inside(g)[k] != '`');
        }
        lemma_tickless_keeps(g, i, g.len() as int);
        assert(g.subrange(i, g.len() as int) + spans::tickless_from(g, g.len() as int) =~= g.skip(
            i,
        ));
    } else {
        let n = (end - i) as nat;
        if end < g.len() {
            assert(glyphs::inside(g)[end] != '`');
            assert(s[end] != '`');
        }
        text::lemma_run_len_is(s, i, '`', n);
        spans::lemma_closing_ticks(glyphs::inside(g), end, n);
        lemma_unclosed(g, i + 1, end);
        assert(seq![g[i]] + g.skip(i + 1) =~= g.skip(i));
    }
}

/// Backticks that nothing closes stay, and so does all that follows them.
pub proof fn law_unclosed_code_is_kept(a: Seq<Glyph>, n: nat, b: Seq<Glyph>)
    requires
        lacks(glyphs::seen(a), '`'),
        lacks(glyphs::inside(b), '`'),
    ensures
        spans::tickless(a + glyphs::plain(ticks(n)) + b) == a + glyphs::plain(ticks(n)) + b,
{
    let open = glyphs::plain(ticks(n));
    let g = a + open + b;
    let s = glyphs::seen(g);
    let p = a.len() as int;
    assert forall|k: int| 0 <= k < p implies #[trigger] s[k] != '`' by {
        assert(s[k] == glyphs::seen(a)[k]);
    }
    lemma_tickless_keeps(g, 0, p);
    assert forall|j: int| p <= j < p + n implies #[trigger] s[j] == '`' by {
        assert(g[j] == open[j - p]);
    }
    assert forall|j: int| p + n <= j < g.len() implies #[trigger] glyphs::inside(g)[j] != '`' by {
        assert(g[j] == b[j - p - n]);
        assert(glyphs::inside(g)[j] == glyphs::inside(b)[j - p - n]);
    }
    lemma_unclosed(g, p, p + n);
    assert(g.subrange(0, p) + g.skip(p) =~= g);
}

/// A lone backtick that no other lone backtick closes is kept, and what follows it is read as it
/// would be without it.
pub proof fn law_lone_backticks_are_kept(a: Seq<Glyph>, b: Seq<Glyph>)
    requires
        lacks(glyphs::seen(a), '`'),
        b.len() > 0 ==> glyphs::seen(b)[0] != '`' && glyphs::inside(b)[0] != '`',
        forall|j: int| !#[trigger] spans::is_tick_run(glyphs::inside(b), j, 1),
    ensures
        spans::tickless(a + glyphs::plain(seq!['`']) + b) == a + glyphs::plain(seq!['`'])
            + spans::tickless(b),
{
    let tick = glyphs::plain(seq!['`']);
    let g = a + tick + b;
    let s = glyphs::seen(g);
    let inner = glyphs::inside(g);
    let p = a.len() as int;
    assert forall|k: int| 0 <= k < p implies #[trigger] s[k] != '`' by {
        assert(s[k] == glyphs::seen(a)[k]);
    }
    lemma_tickless_keeps(g, 0, p);
    assert(g.subrange(0, p) =~= a);
    assert(g[p] == tick[0]);
    assert(s[p] == '`');
    assert(g.skip(p + 1) =~= b);
    lemma_views_skip(g, p + 1);
    if b.len() > 0 {
        assert(s[p + 1] == glyphs::seen(b)[0]);
        assert(inner[p + 1] == glyphs::inside(b)[0]);
    }
    text::lemma_run_len_is(s, p, '`', 1);
    assert forall|k: int| p + 1 <= k implies !#[trigger] spans::is_tick_run(inner, k, 1) by {
        if k > p + 1 {
            lemma_tick_run_shift(inner, p + 1, k, 1);
            assert(!spans::is_tick_run(glyphs::inside(b), k - p - 1, 1));
        }
    }
    spans::lemma_closing_ticks(inner, p + 1, 1);
    assert(spans::code_at(g, p) is None);
    lemma_tickless_shift(g, p + 1, p + 1);
    assert(a + (seq![g[p]] + spans::tickless(b)) =~= a + tick + spans::tickless(b));
}

// ---- HTML ----

proof fn lemma_comment_close_shift(s: Seq<char>, k: int, j: int)
    requires
        0 <= k <= j,
        k <= s.len(),
    ensures
        match spans::comment_close(s, j) {
            Some(x) => spans::comment_close(s.skip(k), j - k) == Some(x - k),
            None => spans::comment_close(s.skip(k), j - k) is None,
        },
    decreases s.len() - j,
{
    if j < s.len() {
        assert(spans::closes_comment(s, j) == spans::closes_comment(s.skip(k), j - k));
        if !spans::closes_comment(s, j) {
            lemma_comment_close_shift(s, k, j + 1);
        }
    }
}

proof fn lemma_tag_shift(g: Seq<Glyph>, k: int, i: int)
    requires
        0 <= k <= i < g.len(),
    ensures
        match spans::tag_at(g, i) {
            Some(x) => spans::tag_at(g.skip(k), i - k) == Some(x - k),
            None => spans::tag_at(g.skip(k), i - k) is None,
        },
{
    let s = glyphs::inside(g);
    let z = s.skip(k);
    lemma_views_skip(g, k);
    assert(glyphs::seen(g).skip(k)[i - k] == glyphs::seen(g)[i]);
    assert(spans::opens_comment(s, i) == spans::opens_comment(z, i - k));
    lemma_comment_close_shift(s, k, i + 4);
    lemma_index_of_shift(s, k, '>', i);
    text::lemma_index_of(s, '>', i);
    match text::index_of(s, '>', i) {
        Some(j) => {
            if i < j {
                assert(z.subrange(i - k + 1, j - k) =~= s.subrange(i + 1, j));
            }
        },
        None => {},
    }
}

proof fn lemma_tagless_shift(g: Seq<Glyph>, k: int, i: int)
    requires
        0 <= k <= i <= g.len(),
    ensures
        spans::tagless_from(g, i) == spans::tagless_from(g.skip(k), i - k),
    decreases g.len() - i,
{
    if i < g.len() {
        lemma_tag_shift(g, k, i);
        spans::lemma_tag_at(g, i);
        assert(g.skip(k)[i - k] == g[i]);
        match spans::tag_at(g, i) {
            Some(x) => lemma_tagless_shift(g, k, x),
            None => lemma_tagless_shift(g, k, i + 1),
        }
    }
}

proof fn lemma_tagless_keeps(g: Seq<Glyph>, i: int, j: int)
    requires
        0 <= i <= j <= g.len(),
        forall|k: int| i <= k < j ==> #[trigger] glyphs::seen(g)[k] != '<',
    ensures
        spans::tagless_from(g, i) == g.subrange(i, j) + spans::tagless_from(g, j),
    decreases j - i,
{
    if i < j {
        lemma_tagless_keeps(g, i + 1, j);
        assert(glyphs::seen(g)[i] != '<');
        assert(spans::tag_at(g, i) is None);
        assert(seq![g[i]] + (g.subrange(i + 1, j) + spans::tagless_from(g, j)) =~= g.subrange(i, j)
            + spans::tagless_from(g, j));
    } else {
        assert(g.subrange(i, j) + spans::tagless_from(g, j) =~= spans::tagless_from(g, j));
    }
}

/// What stands behind `a` goes, and `b` is read on its own.
proof fn lemma_tag_gone(a: Seq<Glyph>, tag: Seq<Glyph>, b: Seq<Glyph>)
    requires
        lacks(glyphs::seen(a), '<'),
        tag.len() > 0,
        spans::tag_at(a + tag + b, a.len() as int) == Some((a.len() + tag.len()) as int),
    ensures
        spans::tagless(a + tag + b) == a + spans::tagless(b),
{
    let g = a + tag + b;
    let s = glyphs::seen(g);
    let p = a.len() as int;
    let end = p + tag.len();
    assert forall|k: int| 0 <= k < p implies #[trigger] s[k] != '<' by {
        assert(s[k] == glyphs::seen(a)[k]);
    }
    lemma_tagless_keeps(g, 0, p);
    assert(g.subrange(0, p) =~= a);
    lemma_tagless_shift(g, end, end);
    assert(g.skip(end) =~= b);
}

/// `<inner>` where no comment starts.
proof fn lemma_no_comment(g: Seq<Glyph>, p: int, inner: Seq<char>)
    requires
        0 <= p,
        p + inner.len() + 2 <= g.len(),
        glyphs::inside(g).subrange(p + 1, p + 1 + inner.len()) == inner,
        text::index_of(glyphs::inside(g), '>', p) == Some(p + 1 + inner.len()),
        !"!--"@.is_prefix_of(inner),
    ensures
        !spans::opens_comment(glyphs::inside(g), p),
{
    let s = glyphs::inside(g);
    if spans::opens_comment(s, p) {
        reveal_strlit("!--");
        text::lemma_index_of(s, '>', p);
        let q = p + 1 + inner.len();
        assert(s[q] == '>');
        assert(inner.len() >= 3) by {
            if inner.len() < 3 {
                assert(s[q] == s[p + 1] || s[q] == s[p + 2] || s[q] == s[p + 3]);
            }
        }
        assert(inner[0] == s[p + 1] && inner[1] == s[p + 2] && inner[2] == s[p + 3]);
        assert(inner.subrange(0, 3) =~= "!--"@);
    }
}

/// A known tag is dropped; what follows is read on its own.
pub proof fn law_known_tags_vanish(a: Seq<Glyph>, tag: Seq<Glyph>, inner: Seq<char>, b: Seq<Glyph>)
    requires
        is_angle(tag, inner),
        lacks(glyphs::seen(a), '<'),
        spans::is_html(inner),
        !"!--"@.is_prefix_of(inner),
    ensures
        spans::tagless(a + tag + b) == a + spans::tagless(b),
{
    let g = a + tag + b;
    let p = a.len() as int;
    assert(g.subrange(p, p + tag.len()) =~= tag);
    lemma_angle(g, p, tag, inner);
    lemma_no_comment(g, p, inner);
    lemma_tag_gone(a, tag, b);
}

/// A comment runs to the next `-->`, whatever stands in it, and is dropped; what follows is
/// read on its own.
pub proof fn law_comments_vanish(
    a: Seq<Glyph>,
    comment: Seq<Glyph>,
    inner: Seq<char>,
    b: Seq<Glyph>,
)
    requires
        glyphs::inside(comment) == seq!['<', '!', '-', '-'] + inner + seq!['-', '-', '>'],
        glyphs::seen(comment)[0] == '<',
        lacks(glyphs::seen(a), '<'),
        forall|j: int| !#[trigger] spans::closes_comment(inner, j),
    ensures
        spans::tagless(a + comment + b) == a + spans::tagless(b),
{
    let g = a + comment + b;
    let s = glyphs::inside(g);
    let p = a.len() as int;
    let tail = inner + seq!['-', '-', '>'];
    let whole = glyphs::inside(comment);
    assert(comment.len() == whole.len());
    assert(s =~= glyphs::inside(a) + whole + glyphs::inside(b));
    assert(glyphs::seen(g)[p] == glyphs::seen(comment)[0]);
    assert(spans::opens_comment(s, p)) by {
        assert(s[p] == whole[0] && s[p + 1] == whole[1] && s[p + 2] == whole[2] && s[p + 3]
            == whole[3]);
    }
    let close = p + 4 + inner.len();
    assert forall|j: int| p + 4 <= j <= close implies #[trigger] spans::closes_comment(s, j) == (j
        == close) by {
        let k = j - p - 4;
        assert(s[j] == tail[k]);
        assert(s[j + 1] == tail[k + 1] && s[j + 2] == tail[k + 2]);
        if k + 2 < inner.len() {
            assert(!spans::closes_comment(inner, k));
            assert(tail[k] == inner[k] && tail[k + 1] == inner[k + 1] && tail[k + 2] == inner[k + 2]);
        }
    }
    lemma_first_close(s, p + 4, close);
    lemma_tag_gone(a, comment, b);
}

proof fn lemma_first_close(s: Seq<char>, from: int, at: int)
    requires
        0 <= from <= at < s.len(),
        spans::closes_comment(s, at),
        forall|j: int| from <= j < at ==> !#[trigger] spans::closes_comment(s, j),
    ensures
        spans::comment_close(s, from) == Some(at),
    decreases at - from,
{
    if from < at {
        lemma_first_close(s, from + 1, at);
    }
}

/// Angle brackets around anything else — a type parameter, a comparison — are kept.
pub proof fn law_other_angle_brackets_are_kept(
    a: Seq<Glyph>,
    angle: Seq<Glyph>,
    inner: Seq<char>,
    b: Seq<Glyph>,
)
    requires
        is_angle(angle, inner),
        lacks(glyphs::seen(a), '<'),
        lacks(inner, '<'),
        !spans::is_html(inner),
    ensures
        spans::tagless(a + angle + b) == a + angle + spans::tagless(b),
{
    let g = a + angle + b;
    let s = glyphs::seen(g);
    let p = a.len() as int;
    let q = p + 1 + inner.len();
    assert(g.subrange(p, p + angle.len()) =~= angle);
    lemma_angle(g, p, angle, inner);
    lemma_no_comment(g, p, inner);
    assert forall|k: int| 0 <= k < p implies #[trigger] s[k] != '<' by {
        assert(s[k] == glyphs::seen(a)[k]);
    }
    lemma_tagless_keeps(g, 0, p);
    assert(g.subrange(0, p) =~= a);
    assert(spans::tag_at(g, p) is None);
    assert forall|k: int| p + 1 <= k < q + 1 implies #[trigger] s[k] != '<' by {
        assert(g[k] == angle[k - p]);
        assert(glyphs::inside(angle)[k - p] == (seq!['<'] + inner + seq!['>'])[k - p]);
        if k < q {
            assert(glyphs::inside(angle)[k - p] == inner[k - p - 1]);
        }
    }
    lemma_tagless_keeps(g, p + 1, q + 1);
    lemma_tagless_shift(g, q + 1, q + 1);
    assert(g.skip(q + 1) =~= b);
    assert(a + (seq![g[p]] + (g.subrange(p + 1, q + 1) + spans::tagless(b))) =~= a + angle
        + spans::tagless(b));
}

/// A `<` that no `>` follows is kept, and so is all that follows it.
pub proof fn law_unclosed_angles_are_kept(a: Seq<Glyph>, b: Seq<Glyph>)
    requires
        lacks(glyphs::seen(a), '['),
        lacks(glyphs::seen(a), '<'),
        lacks(glyphs::inside(b), '>'),
    ensures
        spans::tagless(a + glyphs::plain(seq!['<']) + b) == a + glyphs::plain(seq!['<'])
            + spans::tagless(b),
        spans::linkless(a + glyphs::plain(seq!['<']) + b) == a + glyphs::plain(seq!['<'])
            + spans::linkless(b),
{
    let open = glyphs::plain(seq!['<']);
    let g = a + open + b;
    let s = glyphs::seen(g);
    let inner = glyphs::inside(g);
    let p = a.len() as int;
    assert forall|k: int| 0 <= k < p implies #[trigger] s[k] != '[' && s[k] != '<' by {
        assert(s[k] == glyphs::seen(a)[k]);
    }
    lemma_tagless_keeps(g, 0, p);
    lemma_linkless_keeps(g, 0, p);
    assert(g.subrange(0, p) =~= a);
    assert(g[p] == open[0]);
    assert(s[p] == '<');
    assert forall|k: int| p <= k < inner.len() implies #[trigger] inner[k] != '>' by {
        if k > p {
            assert(g[k] == b[k - p - 1]);
            assert(inner[k] == glyphs::inside(b)[k - p - 1]);
        }
    }
    text::lemma_index_of(inner, '>', p);
    spans::lemma_comment_close(inner, p + 4);
    assert(spans::tag_at(g, p) is None);
    assert(spans::autolink_at(g, p) is None);
    lemma_tagless_shift(g, p + 1, p + 1);
    lemma_linkless_shift(g, p + 1, p + 1);
    assert(g.skip(p + 1) =~= b);
    assert(a + (seq![g[p]] + spans::tagless(b)) =~= a + open + spans::tagless(b));
    assert(a + (seq![g[p]] + spans::linkless(b)) =~= a + open + spans::linkless(b));
}

/// A comparison written with spaces is no tag: `a < b > c` is kept.
pub proof fn law_spaced_comparisons_are_no_tags(inner: Seq<char>)
    requires
        inner.len() > 0,
        text::is_space(inner[0]),
    ensures
        !spans::is_html(inner),
{
    if "!--"@.is_prefix_of(inner) {
        reveal_strlit("!--");
        assert(inner.subrange(0, "!--"@.len() as int)[0] == inner[0]);
        assert("!--"@[0] == '!');
    }
}

/// The tag names are these, in upper case or lower case, and no others: with a slash before or
/// behind them or without, and with attributes behind a space, a tab or a `=` or without.
pub proof fn law_exactly_these_tags_are_html(name: Seq<char>, sep: char, attributes: Seq<char>)
    requires
        sep == ' ' || sep == '\t' || sep == '=',
        name.len() > 0,
        name[0] != '!',
        forall|i: int|
            0 <= i < name.len() ==> !text::is_space(#[trigger] name[i]) && name[i] != '/' && name[i]
                != '=',
        text_lemmas::is_tight(attributes),
        attributes.last() != '/',
    ensures
        ({
            let low = name.map_values(|c: char| text::ascii_lower(c));
            let known = {
                ||| low == "a"@
                ||| low == "abbr"@
                ||| low == "b"@
                ||| low == "blockquote"@
                ||| low == "br"@
                ||| low == "caption"@
                ||| low == "center"@
                ||| low == "cite"@
                ||| low == "code"@
                ||| low == "dd"@
                ||| low == "details"@
                ||| low == "div"@
                ||| low == "dl"@
                ||| low == "dt"@
                ||| low == "em"@
                ||| low == "figcaption"@
                ||| low == "figure"@
                ||| low == "font"@
                ||| low == "h1"@
                ||| low == "h2"@
                ||| low == "h3"@
                ||| low == "h4"@
                ||| low == "h5"@
                ||| low == "h6"@
                ||| low == "hr"@
                ||| low == "i"@
                ||| low == "img"@
                ||| low == "kbd"@
                ||| low == "li"@
                ||| low == "mark"@
                ||| low == "ol"@
                ||| low == "p"@
                ||| low == "picture"@
                ||| low == "pre"@
                ||| low == "q"@
                ||| low == "s"@
                ||| low == "samp"@
                ||| low == "small"@
                ||| low == "span"@
                ||| low == "strong"@
                ||| low == "sub"@
                ||| low == "summary"@
                ||| low == "sup"@
                ||| low == "table"@
                ||| low == "tbody"@
                ||| low == "td"@
                ||| low == "tfoot"@
                ||| low == "th"@
                ||| low == "thead"@
                ||| low == "tr"@
                ||| low == "u"@
                ||| low == "ul"@
                ||| low == "var"@
                ||| low == "video"@
            };
            &&& spans::is_html(name) == known
            &&& spans::is_html(seq!['/'] + name) == known
            &&& spans::is_html(name + seq!['/']) == known
            &&& spans::is_html(name + seq![sep] + attributes) == known
        }),
{
    let closing = seq!['/'] + name;
    let empty = name + seq!['/'];
    let full = name + seq![sep] + attributes;
    assert(name.last() == name[name.len() - 1]);
    lemma_no_comment_start(name);
    lemma_no_comment_start(closing);
    lemma_no_comment_start(empty);
    lemma_no_comment_start(full);
    assert(closing.drop_first() =~= name);
    assert(empty.drop_last() =~= name);
    assert(empty[0] == name[0] && full[0] == name[0] && closing[0] == '/');
    assert(full.last() == attributes.last());
    assert(text::stripped_start(name, '/') == name);
    assert(text::stripped_end(name, '/') == name);
    assert(text::stripped_start(closing, '/') == name);
    assert(text::stripped_start(empty, '/') == empty);
    assert(text::stripped_end(empty, '/') == name);
    assert(text::stripped_start(full, '/') == full);
    assert(text::stripped_end(full, '/') == full);
    assert(text::trimmed(name) == name);
    assert(text::trimmed(full) == full);
    lemma_name_end(name, 0, name.len() as int);
    assert(name.take(name.len() as int) =~= name);
    assert(full[name.len() as int] == sep);
    assert forall|i: int| 0 <= i < name.len() implies #[trigger] full[i] != ' ' && full[i] != '\t'
        && full[i] != '=' by {
        assert(full[i] == name[i]);
    }
    lemma_name_end(full, 0, name.len() as int);
    assert(full.take(name.len() as int) =~= name);
}

/// What starts with another character than `!` is no comment.
pub proof fn lemma_no_comment_start(inner: Seq<char>)
    requires
        inner.len() > 0,
        inner[0] != '!',
    ensures
        !"!--"@.is_prefix_of(inner),
{
    reveal_strlit("!--");
    if "!--"@.is_prefix_of(inner) {
        assert(inner.subrange(0, "!--"@.len() as int)[0] == inner[0]);
        assert("!--"@[0] == '!');
    }
}

proof fn lemma_name_end(s: Seq<char>, i: int, k: int)
    requires
        0 <= i <= k <= s.len(),
        forall|j: int| i <= j < k ==> #[trigger] s[j] != ' ' && s[j] != '\t' && s[j] != '=',
        k < s.len() ==> s[k] == ' ' || s[k] == '\t' || s[k] == '=',
    ensures
        spans::name_end(s, i) == k,
    decreases k - i,
{
    if i < k {
        lemma_name_end(s, i + 1, k);
    }
}

// ---- all of them ----

/// Text without any character that inline markup is written with is left alone.
pub proof fn law_unmarked_text_is_kept(g: Seq<Glyph>)
    ensures
        lacks(glyphs::seen(g), '!') || lacks(glyphs::seen(g), '[') ==> spans::imageless(g) == g,
        lacks(glyphs::seen(g), '[') && lacks(glyphs::seen(g), '<') ==> spans::linkless(g) == g,
        lacks(glyphs::seen(g), '`') ==> spans::tickless(g) == g,
        lacks(glyphs::seen(g), '<') ==> spans::tagless(g) == g,
{
    let s = glyphs::seen(g);
    let n = g.len() as int;
    assert(g.subrange(0, n) =~= g);
    if lacks(s, '!') || lacks(s, '[') {
        lemma_imageless_keeps(g, 0, n);
        assert(g + spans::imageless_from(g, n) =~= g);
    }
    if lacks(s, '[') && lacks(s, '<') {
        lemma_linkless_keeps(g, 0, n);
        assert(g + spans::linkless_from(g, n) =~= g);
    }
    if lacks(s, '`') {
        lemma_tickless_keeps(g, 0, n);
        assert(g + spans::tickless_from(g, n) =~= g);
    }
    if lacks(s, '<') {
        lemma_tagless_keeps(g, 0, n);
        assert(g + spans::tagless_from(g, n) =~= g);
    }
}

/// What a rule leaves of `g` from `i` on: characters of `g` in their order, and as many as
/// there were only if all of them are what they were.
spec fn is_left_of(rest: Seq<Glyph>, g: Seq<Glyph>, i: int) -> bool {
    &&& text_lemmas::is_subsequence(glyphs::chars(rest), glyphs::chars(g).skip(i))
    &&& rest.len() <= g.len() - i
    &&& rest.len() == g.len() - i ==> rest == g.skip(i)
}

proof fn lemma_nothing_left_of(g: Seq<Glyph>)
    ensures
        is_left_of(Seq::empty(), g, g.len() as int),
{
    assert(glyphs::chars(Seq::empty()) =~= Seq::<char>::empty());
    assert(g.skip(g.len() as int) =~= Seq::<Glyph>::empty());
}

/// One character is kept.
proof fn lemma_one_kept(g: Seq<Glyph>, i: int, rest: Seq<Glyph>)
    requires
        0 <= i < g.len(),
        is_left_of(rest, g, i + 1),
    ensures
        is_left_of(seq![g[i]] + rest, g, i),
{
    lemma_kept_part(g, g, i, i, i + 1, i + 1, rest);
    assert(g.subrange(i, i + 1) =~= seq![g[i]]);
    assert(seq![g[i]] + g.skip(i + 1) =~= g.skip(i));
}

/// A part of what stands up to `next` is kept, but not all of it.
proof fn lemma_part_kept(
    g: Seq<Glyph>,
    u: Seq<Glyph>,
    i: int,
    from: int,
    to: int,
    next: int,
    rest: Seq<Glyph>,
)
    requires
        0 <= i <= from <= to <= next <= g.len(),
        to - from < next - i,
        glyphs::chars(u) == glyphs::chars(g),
        is_left_of(rest, g, next),
    ensures
        is_left_of(u.subrange(from, to) + rest, g, i),
{
    assert(u.len() == glyphs::chars(u).len() == g.len());
    lemma_kept_part(g, u, i, from, to, next, rest);
}

/// Nothing of what stands up to `next` is kept.
proof fn lemma_none_kept(g: Seq<Glyph>, i: int, next: int, rest: Seq<Glyph>)
    requires
        0 <= i < next <= g.len(),
        is_left_of(rest, g, next),
    ensures
        is_left_of(rest, g, i),
{
    lemma_part_kept(g, g, i, i, i, next, rest);
    assert(g.subrange(i, i) + rest =~= rest);
}

/// What is kept of `g` from `i` on: the part between `from` and `to`, then `rest`.
proof fn lemma_kept_part(
    g: Seq<Glyph>,
    u: Seq<Glyph>,
    i: int,
    from: int,
    to: int,
    next: int,
    rest: Seq<Glyph>,
)
    requires
        0 <= i <= from <= to <= next <= g.len(),
        glyphs::chars(u) == glyphs::chars(g),
        text_lemmas::is_subsequence(glyphs::chars(rest), glyphs::chars(g).skip(next)),
    ensures
        text_lemmas::is_subsequence(
            glyphs::chars(u.subrange(from, to) + rest),
            glyphs::chars(g).skip(i),
        ),
{
    let s = glyphs::chars(g);
    let tail = glyphs::chars(rest);
    assert(u.len() == glyphs::chars(u).len() == g.len());
    assert(s.skip(to).skip(next - to) =~= s.skip(next));
    text_lemmas::lemma_subsequence_skip(tail, s.skip(to), next - to);
    text_lemmas::lemma_subsequence_prefix(s.subrange(from, to), tail, s.skip(to));
    assert(s.subrange(from, to) + s.skip(to) =~= s.skip(from));
    assert(s.skip(i).skip(from - i) =~= s.skip(from));
    text_lemmas::lemma_subsequence_skip(s.subrange(from, to) + tail, s.skip(i), from - i);
    assert forall|k: int| 0 <= k < to - from implies glyphs::chars(u.subrange(from, to))[k]
        == #[trigger] s.subrange(from, to)[k] by {
        assert(glyphs::chars(u)[from + k] == s[from + k]);
    }
    assert(glyphs::chars(u.subrange(from, to)) =~= s.subrange(from, to));
    assert(glyphs::chars(u.subrange(from, to) + rest) =~= s.subrange(from, to) + tail);
}

proof fn lemma_imageless_left(g: Seq<Glyph>, i: int)
    requires
        0 <= i <= g.len(),
    ensures
        is_left_of(spans::imageless_from(g, i), g, i),
    decreases g.len() - i,
{
    if i < g.len() {
        spans::lemma_image_at(g, i);
        match spans::image_at(g, i) {
            Some(end) => {
                lemma_imageless_left(g, end);
                lemma_none_kept(g, i, end, spans::imageless_from(g, end));
            },
            None => {
                lemma_imageless_left(g, i + 1);
                lemma_one_kept(g, i, spans::imageless_from(g, i + 1));
            },
        }
    } else {
        lemma_nothing_left_of(g);
    }
}

proof fn lemma_linkless_left(g: Seq<Glyph>, i: int)
    requires
        0 <= i <= g.len(),
    ensures
        is_left_of(spans::linkless_from(g, i), g, i),
    decreases g.len() - i,
{
    let s = glyphs::seen(g);
    let inner = glyphs::inside(g);
    if i >= g.len() {
        lemma_nothing_left_of(g);
    } else if s[i] == '[' && spans::link_at(s, inner, i) is Some {
        spans::lemma_link_at(s, inner, i);
        let (close, end) = spans::link_at(s, inner, i)->0;
        lemma_linkless_left(g, end);
        lemma_part_kept(g, g, i, i + 1, close, end, spans::linkless_from(g, end));
    } else {
        spans::lemma_autolink_at(g, i);
        match spans::autolink_at(g, i) {
            Some(end) => {
                lemma_linkless_left(g, end);
                lemma_none_kept(g, i, end, spans::linkless_from(g, end));
            },
            None => {
                lemma_linkless_left(g, i + 1);
                lemma_one_kept(g, i, spans::linkless_from(g, i + 1));
            },
        }
    }
}

proof fn lemma_tickless_left(g: Seq<Glyph>, i: int)
    requires
        0 <= i <= g.len(),
    ensures
        is_left_of(spans::tickless_from(g, i), g, i),
    decreases g.len() - i,
{
    if i < g.len() {
        let u = glyphs::as_code(g);
        assert(glyphs::chars(u) =~= glyphs::chars(g));
        spans::lemma_code_at(g, i);
        match spans::code_at(g, i) {
            Some((n, close)) => {
                lemma_tickless_left(g, close + n);
                lemma_part_kept(
                    g,
                    u,
                    i,
                    i + n,
                    close,
                    close + n,
                    spans::tickless_from(g, close + n),
                );
            },
            None => {
                lemma_tickless_left(g, i + 1);
                lemma_one_kept(g, i, spans::tickless_from(g, i + 1));
            },
        }
    } else {
        lemma_nothing_left_of(g);
    }
}

proof fn lemma_tagless_left(g: Seq<Glyph>, i: int)
    requires
        0 <= i <= g.len(),
    ensures
        is_left_of(spans::tagless_from(g, i), g, i),
    decreases g.len() - i,
{
    if i < g.len() {
        spans::lemma_tag_at(g, i);
        match spans::tag_at(g, i) {
            Some(end) => {
                lemma_tagless_left(g, end);
                lemma_none_kept(g, i, end, spans::tagless_from(g, end));
            },
            None => {
                lemma_tagless_left(g, i + 1);
                lemma_one_kept(g, i, spans::tagless_from(g, i + 1));
            },
        }
    } else {
        lemma_nothing_left_of(g);
    }
}

proof fn lemma_left_of_left(x: Seq<Glyph>, y: Seq<Glyph>, z: Seq<Glyph>)
    requires
        is_left_of(x, y, 0),
        is_left_of(y, z, 0),
    ensures
        is_left_of(x, z, 0),
{
    assert(glyphs::chars(y).skip(0) =~= glyphs::chars(y));
    assert(y.skip(0) =~= y);
    text_lemmas::lemma_subsequence_trans(
        glyphs::chars(x),
        glyphs::chars(y),
        glyphs::chars(z).skip(0),
    );
}

proof fn lemma_inlined_left(line: Seq<char>)
    ensures
        is_left_of(spans::inlined(line), glyphs::marked(line), 0),
{
    let m = glyphs::marked(line);
    let a = spans::imageless(m);
    let b = spans::linkless(a);
    let c = spans::tickless(b);
    let d = spans::tagless(c);
    lemma_imageless_left(m, 0);
    lemma_linkless_left(a, 0);
    lemma_tickless_left(b, 0);
    lemma_tagless_left(c, 0);
    lemma_left_of_left(b, a, m);
    lemma_left_of_left(c, b, m);
    lemma_left_of_left(d, c, m);
}

/// Inline rules make nothing up: what is left of a line are characters of the line, in
/// their order.
pub proof fn law_inline_rules_only_remove(line: Seq<char>)
    ensures
        text_lemmas::is_subsequence(glyphs::chars(spans::inlined(line)), line),
{
    lemma_inlined_left(line);
    assert(glyphs::chars(glyphs::marked(line)).skip(0) =~= line);
}

/// The inline rules make a line shorter, or leave it as it is.
pub proof fn lemma_inlined_len(line: Seq<char>)
    ensures
        spans::inlined(line).len() <= line.len(),
        spans::inlined(line).len() == line.len() ==> spans::inlined(line) == glyphs::marked(line),
{
    lemma_inlined_left(line);
    assert(glyphs::marked(line).skip(0) =~= glyphs::marked(line));
}

} // verus!

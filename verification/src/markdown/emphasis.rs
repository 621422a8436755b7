//! Emphasis: which runs of `*`, `_` and `~` are markup, and what is left without them.

use crate::markdown::glyphs::{look, Glyph};
use crate::markdown::glyphs;
use crate::text;
use vstd::prelude::*;

verus! {

/// The characters that emphasis is written with.
pub open spec fn is_marker(c: char) -> bool {
    c == '*' || c == '_' || c == '~'
}

/// The length of the run of equal characters that starts at `i`.
pub open spec fn run_at(s: Seq<char>, i: int) -> nat {
    text::run_len(s, i, s[i])
}

/// A word follows the run at `i`.
pub open spec fn can_open(s: Seq<char>, i: int) -> bool {
    i + run_at(s, i) < s.len() && !text::is_space(s[i + run_at(s, i)])
}

/// A word precedes the run at `i`.
pub open spec fn can_close(s: Seq<char>, i: int) -> bool {
    0 < i && !text::is_space(s[i - 1])
}

/// A run of `_` inside a word, as in `snake_case`.
pub open spec fn intra_word(s: Seq<char>, i: int) -> bool {
    &&& s[i] == '_'
    &&& 0 < i && text::is_word_char(s[i - 1])
    &&& i + run_at(s, i) < s.len() && text::is_word_char(s[i + run_at(s, i)])
}

/// Runs that are never markup: tildes that are not a pair, and `_` inside a word.
pub open spec fn is_literal(s: Seq<char>, i: int) -> bool {
    (s[i] == '~' && run_at(s, i) != 2) || intra_word(s, i)
}

/// Two or more markers with whitespace, or an end of the text, on both sides.
pub open spec fn is_orphan(s: Seq<char>, i: int) -> bool {
    !can_open(s, i) && !can_close(s, i) && run_at(s, i) >= 2
}

/// The run at `o` is the same marker, as often, as the run at `i`.
pub open spec fn same_run(s: Seq<char>, o: int, i: int) -> bool {
    s[o] == s[i] && run_at(s, o) == run_at(s, i)
}

/// The place in `open` of the latest run like the one at `i`.
pub open spec fn last_opener(s: Seq<char>, open: Seq<int>, i: int) -> Option<int>
    decreases open.len(),
{
    if open.len() == 0 {
        None
    } else if same_run(s, open.last(), i) {
        Some(open.len() - 1)
    } else {
        last_opener(s, open.drop_last(), i)
    }
}

/// What becomes of a run.
pub enum Fate {
    /// It stays, and nothing can pair with it.
    Stays,
    /// It closes the open run at this place, and both go.
    Closes(int),
    /// It waits for a run that closes it.
    Opens,
    /// It goes by itself.
    Orphan,
}

/// What becomes of the run at `i` while the runs at `open` wait to be closed.
/// Closing wins over opening.
pub open spec fn fate(s: Seq<char>, i: int, open: Seq<int>) -> Fate {
    if is_literal(s, i) {
        Fate::Stays
    } else if can_close(s, i) && last_opener(s, open, i) is Some {
        Fate::Closes(last_opener(s, open, i)->0)
    } else if can_open(s, i) {
        Fate::Opens
    } else if is_orphan(s, i) {
        Fate::Orphan
    } else {
        Fate::Stays
    }
}

/// The starts of the runs that go, reading on from `i` with the runs at `open` waiting
/// and those at `gone` already found.
pub open spec fn gone_runs(s: Seq<char>, i: int, open: Seq<int>, gone: Set<int>) -> Set<int>
    decreases s.len() - i,
{
    if i < 0 || i >= s.len() {
        gone
    } else if !is_marker(s[i]) {
        gone_runs(s, i + 1, open, gone)
    } else {
        proof {
            text::lemma_run_len(s, i, s[i]);
        }
        let next = i + run_at(s, i);
        match fate(s, i, open) {
            Fate::Stays => gone_runs(s, next, open, gone),
            Fate::Closes(p) => gone_runs(s, next, open.remove(p), gone.insert(open[p]).insert(i)),
            Fate::Opens => gone_runs(s, next, open.push(i), gone),
            Fate::Orphan => gone_runs(s, next, open, gone.insert(i)),
        }
    }
}

/// Position `k` lies in one of the runs that start at `starts`.
pub open spec fn covered(s: Seq<char>, starts: Set<int>, k: int) -> bool {
    exists|r: int| #[trigger] starts.contains(r) && r <= k < r + run_at(s, r)
}

/// Position `k` of `s` is emphasis markup.
pub open spec fn is_markup(s: Seq<char>, k: int) -> bool {
    covered(s, gone_runs(s, 0, Seq::empty(), Set::empty()), k)
}

/// `g` without its emphasis markup. A literal character is no marker.
pub open spec fn unemphasized(g: Seq<Glyph>) -> Seq<Glyph> {
    text::without(g, |k: int| is_markup(glyphs::seen(g), k), g.len() as int)
}

pub proof fn lemma_last_opener(s: Seq<char>, open: Seq<int>, i: int)
    ensures
        match last_opener(s, open, i) {
            Some(p) => 0 <= p < open.len() && same_run(s, open[p], i) && forall|q: int|
                p < q < open.len() ==> !same_run(s, #[trigger] open[q], i),
            None => forall|q: int| 0 <= q < open.len() ==> !same_run(s, #[trigger] open[q], i),
        },
    decreases open.len(),
{
    if open.len() > 0 && !same_run(s, open.last(), i) {
        lemma_last_opener(s, open.drop_last(), i);
        assert forall|q: int| 0 <= q < open.len() - 1 implies #[trigger] open[q]
            == open.drop_last()[q] by {}
    }
}

/// The positions in `open`, as the model has them.
spec fn places(open: Seq<usize>) -> Seq<int> {
    Seq::new(open.len(), |i: int| open[i] as int)
}

fn find_opener(chars: &[char], open: &Vec<usize>, i: usize, len: usize) -> (r: Option<usize>)
    requires
        i < chars@.len(),
        len == run_at(chars@, i as int),
        forall|q: int| 0 <= q < open@.len() ==> #[trigger] open@[q] < chars@.len(),
    ensures
        match r {
            Some(p) => last_opener(chars@, places(open@), i as int) == Some(p as int) && p
                < open@.len(),
            None => last_opener(chars@, places(open@), i as int) is None,
        },
{
    let mut n: usize = open.len();
    assert(places(open@).take(n as int) =~= places(open@));
    while n > 0
        invariant
            n <= open@.len(),
            i < chars@.len(),
            len == run_at(chars@, i as int),
            forall|q: int| 0 <= q < open@.len() ==> #[trigger] open@[q] < chars@.len(),
            last_opener(chars@, places(open@).take(n as int), i as int) == last_opener(
                chars@,
                places(open@),
                i as int,
            ),
        decreases n,
    {
        let o: usize = open[n - 1];
        let ghost waiting = places(open@).take(n as int);
        assert(waiting.last() == o);
        assert(waiting.drop_last() =~= places(open@).take(n - 1));
        if chars[o] == chars[i] && text::count_run(chars, o, chars[o]) == len {
            return Some(n - 1);
        }
        n -= 1;
    }
    None
}

/// Flags the `len` positions from `start` on.
fn flag_run(flags: &mut Vec<bool>, start: usize, len: usize)
    requires
        start + len <= old(flags)@.len(),
    ensures
        final(flags)@.len() == old(flags)@.len(),
        forall|k: int|
            0 <= k < final(flags)@.len() ==> #[trigger] final(flags)@[k] == (old(flags)@[k] || start <= k
                < start + len),
{
    assert(start + len <= flags.len());
    let end: usize = start + len;
    let mut j: usize = start;
    while j < end
        invariant
            start <= j <= end <= flags@.len(),
            end == start + len,
            flags@.len() == old(flags)@.len(),
            forall|k: int|
                0 <= k < flags@.len() ==> #[trigger] flags@[k] == (old(flags)@[k] || start <= k < j),
        decreases end - j,
    {
        flags.set(j, true);
        j += 1;
    }
}

/// The glyphs that are not flagged.
fn drop_flagged(g: &[Glyph], flags: &Vec<bool>, Ghost(gone): Ghost<spec_fn(int) -> bool>) -> (r: Vec<
    Glyph,
>)
    requires
        flags@.len() == g@.len(),
        forall|k: int| 0 <= k < flags@.len() ==> #[trigger] flags@[k] == gone(k),
    ensures
        r@ == text::without(g@, gone, g@.len() as int),
{
    let mut out: Vec<Glyph> = Vec::new();
    let mut i: usize = 0;
    while i < g.len()
        invariant
            i <= g@.len() == flags@.len(),
            forall|k: int| 0 <= k < flags@.len() ==> #[trigger] flags@[k] == gone(k),
            out@ == text::without(g@, gone, i as int),
        decreases g@.len() - i,
    {
        if !flags[i] {
            out.push(g[i]);
        }
        i += 1;
    }
    out
}

/// Remove emphasis runs (`**`, `__`, `*`, `_`, `~~`).
///
/// A run is only removed when it hugs a word: an opener is followed by a non-space, a
/// closer is preceded by a non-space, and the two must pair up. That guard is what
/// leaves arithmetic (`3 * 4 = 12`) and separators (`a _ b`) alone. `_` additionally
/// requires a word boundary on one side, so `snake_case_name` survives. Two or more
/// markers with whitespace around them are orphaned delimiters and go too.
pub fn strip_emphasis(g: &[Glyph]) -> (r: Vec<Glyph>)
    ensures
        r@ == unemphasized(g@),
{
    let chars: Vec<char> = look(g);
    let flags: Vec<bool> = find_markup(chars.as_slice());
    drop_flagged(g, &flags, Ghost(|k: int| is_markup(glyphs::seen(g@), k)))
}

/// Flags the positions that are emphasis markup.
fn find_markup(chars: &[char]) -> (r: Vec<bool>)
    ensures
        r@.len() == chars@.len(),
        forall|k: int| 0 <= k < r@.len() ==> #[trigger] r@[k] == is_markup(chars@, k),
{
    let ghost s = chars@;
    let mut flags: Vec<bool> = Vec::new();
    let mut k: usize = 0;
    while k < chars.len()
        invariant
            k <= chars@.len(),
            flags@.len() == k,
            forall|j: int| 0 <= j < k ==> #[trigger] flags@[j] == false,
        decreases chars@.len() - k,
    {
        flags.push(false);
        k += 1;
    }
    let mut open: Vec<usize> = Vec::new();
    let ghost mut gone: Set<int> = Set::empty();
    let mut i: usize = 0;
    assert(places(open@) =~= Seq::<int>::empty());
    while i < chars.len()
        invariant
            s == chars@,
            i <= s.len(),
            flags@.len() == s.len(),
            forall|q: int| 0 <= q < open@.len() ==> #[trigger] open@[q] < s.len(),
            forall|j: int| 0 <= j < s.len() ==> #[trigger] flags@[j] == covered(s, gone, j),
            gone_runs(s, i as int, places(open@), gone) == gone_runs(
                s,
                0,
                Seq::empty(),
                Set::empty(),
            ),
        decreases s.len() - i,
    {
        let c: char = chars[i];
        if c != '*' && c != '_' && c != '~' {
            i += 1;
            continue;
        }
        let len: usize = text::count_run(chars, i, c);
        let next: usize = i + len;
        let opens: bool = next < chars.len() && !text::is_whitespace(chars[next]);
        let closes: bool = i > 0 && !text::is_whitespace(chars[i - 1]);
        let literal: bool = (c == '~' && len != 2) || (c == '_' && i > 0
            && text::word_char(chars[i - 1]) && next < chars.len()
            && text::word_char(chars[next]));
        assert(literal == is_literal(s, i as int));
        if literal {
            i = next;
            continue;
        }
        let opener: Option<usize> = if closes {
            find_opener(chars, &open, i, len)
        } else {
            None
        };
        match opener {
            Some(p) => {
                let start: usize = open[p];
                proof {
                    lemma_last_opener(s, places(open@), i as int);
                    text::lemma_run_len(s, start as int, s[start as int]);
                    let more = gone.insert(start as int).insert(i as int);
                    assert(places(open@).remove(p as int) =~= places(open@.remove(p as int)));
                    lemma_covered_insert(s, gone, start as int);
                    lemma_covered_insert(s, gone.insert(start as int), i as int);
                    gone = more;
                }
                flag_run(&mut flags, start, len);
                flag_run(&mut flags, i, len);
                open.remove(p);
            },
            None => {
                if opens {
                    assert(places(open@).push(i as int) =~= places(open@.push(i)));
                    open.push(i);
                } else if !closes && len >= 2 {
                    flag_run(&mut flags, i, len);
                    proof {
                        lemma_covered_insert(s, gone, i as int);
                        gone = gone.insert(i as int);
                    }
                }
            },
        }
        i = next;
    }
    flags
}

proof fn lemma_covered_insert(s: Seq<char>, starts: Set<int>, r: int)
    ensures
        forall|k: int|
            #[trigger] covered(s, starts.insert(r), k) == (covered(s, starts, k) || r <= k < r
                + run_at(s, r)),
{
    assert forall|k: int|
        #[trigger] covered(s, starts.insert(r), k) == (covered(s, starts, k) || r <= k < r + run_at(
            s,
            r,
        )) by {
        if covered(s, starts, k) {
            let q = choose|q: int| #[trigger] starts.contains(q) && q <= k < q + run_at(s, q);
            assert(starts.insert(r).contains(q));
        }
        if r <= k < r + run_at(s, r) {
            assert(starts.insert(r).contains(r));
        }
    }
}

} // verus!

//! What the emphasis rules promise of every text.

use crate::markdown::emphasis;
use crate::markdown::glyphs::Glyph;
use crate::markdown::glyphs;
use crate::text;
use vstd::prelude::*;

verus! {

/// A run of one marker starts at `i`.
pub open spec fn is_run_start(s: Seq<char>, i: int) -> bool {
    &&& 0 <= i < s.len()
    &&& s[i] == '*' || s[i] == '_' || s[i] == '~'
    &&& i == 0 || s[i - 1] != s[i]
}

/// The run at `lo` opens emphasis that the run at `hi` closes: the same marker, as
/// often, with a word after the first and a word before the second.
pub open spec fn is_pair(s: Seq<char>, lo: int, hi: int) -> bool {
    &&& 0 <= lo < hi < s.len()
    &&& s[lo] == s[hi]
    &&& emphasis::run_at(s, lo) == emphasis::run_at(s, hi)
    &&& lo + emphasis::run_at(s, lo) < s.len()
    &&& !text::is_space(s[lo + emphasis::run_at(s, lo)])
    &&& !text::is_space(s[hi - 1])
}

/// The run at `r` is one half of a pair whose other half is among `starts`.
pub open spec fn is_paired(s: Seq<char>, starts: Set<int>, r: int) -> bool {
    exists|q: int| #[trigger] starts.contains(q) && (is_pair(s, r, q) || is_pair(s, q, r))
}

/// Every run of `starts` is there for a reason.
pub open spec fn are_justified(s: Seq<char>, starts: Set<int>) -> bool {
    forall|r: int| #[trigger]
        starts.contains(r) ==> {
            &&& is_run_start(s, r)
            &&& s[r] == '~' ==> emphasis::run_at(s, r) == 2
            &&& !is_inside_word(s, r)
            &&& is_isolated(s, r) || is_paired(s, starts, r)
        }
}

/// A run of `_` with a letter or a digit on both sides.
pub open spec fn is_inside_word(s: Seq<char>, r: int) -> bool {
    let end = r + emphasis::run_at(s, r);
    &&& s[r] == '_'
    &&& 0 < r && end < s.len()
    &&& text::is_word_char(s[r - 1])
    &&& text::is_word_char(s[end])
}

/// Two or more markers with whitespace, or an end of the text, on both sides.
pub open spec fn is_isolated(s: Seq<char>, r: int) -> bool {
    let end = r + emphasis::run_at(s, r);
    &&& emphasis::run_at(s, r) >= 2
    &&& r == 0 || text::is_space(s[r - 1])
    &&& end == s.len() || text::is_space(s[end])
}

spec fn may_wait(s: Seq<char>, o: int) -> bool {
    is_run_start(s, o) && !emphasis::is_literal(s, o) && emphasis::can_open(s, o)
}

proof fn lemma_gone_runs_justified(s: Seq<char>, i: int, open: Seq<int>, gone: Set<int>)
    requires
        0 <= i <= s.len(),
        i < s.len() && emphasis::is_marker(s[i]) ==> is_run_start(s, i),
        forall|q: int|
            0 <= q < open.len() ==> may_wait(s, #[trigger] open[q]) && open[q] < i,
        are_justified(s, gone),
    ensures
        are_justified(s, emphasis::gone_runs(s, i, open, gone)),
    decreases s.len() - i,
{
    if i >= s.len() {
    } else if !emphasis::is_marker(s[i]) {
        lemma_gone_runs_justified(s, i + 1, open, gone);
    } else {
        text::lemma_run_len(s, i, s[i]);
        emphasis::lemma_last_opener(s, open, i);
        let next = i + emphasis::run_at(s, i);
        assert(s[next - 1] == s[i]);
        match emphasis::fate(s, i, open) {
            emphasis::Fate::Stays => lemma_gone_runs_justified(s, next, open, gone),
            emphasis::Fate::Closes(p) => {
                let o = open[p];
                let more = gone.insert(o).insert(i);
                assert(may_wait(s, o));
                assert(is_pair(s, o, i));
                assert(more.contains(o) && more.contains(i));
                assert forall|r: int| #[trigger] more.contains(r) implies {
                    &&& is_run_start(s, r)
                    &&& s[r] == '~' ==> emphasis::run_at(s, r) == 2
                    &&& !is_inside_word(s, r)
                    &&& is_isolated(s, r) || is_paired(s, more, r)
                } by {
                    if r != o && r != i {
                        assert(gone.contains(r));
                        if is_paired(s, gone, r) {
                            let q = choose|q: int| #[trigger]
                                gone.contains(q) && (is_pair(s, r, q) || is_pair(s, q, r));
                            assert(more.contains(q));
                        }
                    }
                }
                assert forall|q: int| 0 <= q < open.remove(p).len() implies may_wait(
                    s,
                    #[trigger] open.remove(p)[q],
                ) && open.remove(p)[q] < next by {
                    if q < p {
                        assert(open.remove(p)[q] == open[q]);
                    } else {
                        assert(open.remove(p)[q] == open[q + 1]);
                    }
                }
                lemma_gone_runs_justified(s, next, open.remove(p), more);
            },
            emphasis::Fate::Opens => {
                lemma_gone_runs_justified(s, next, open.push(i), gone);
            },
            emphasis::Fate::Orphan => {
                let more = gone.insert(i);
                assert forall|r: int| #[trigger] more.contains(r) implies {
                    &&& is_run_start(s, r)
                    &&& s[r] == '~' ==> emphasis::run_at(s, r) == 2
                    &&& !is_inside_word(s, r)
                    &&& is_isolated(s, r) || is_paired(s, more, r)
                } by {
                    if r != i {
                        assert(gone.contains(r));
                        if is_paired(s, gone, r) {
                            let q = choose|q: int| #[trigger]
                                gone.contains(q) && (is_pair(s, r, q) || is_pair(s, q, r));
                            assert(more.contains(q));
                        }
                    }
                }
                lemma_gone_runs_justified(s, next, open, more);
            },
        }
    }
}

/// The starts of all runs of `s` that are removed.
pub open spec fn removed_runs(s: Seq<char>) -> Set<int> {
    emphasis::gone_runs(s, 0, Seq::empty(), Set::empty())
}

/// Emphasis must hug a word: every run that is removed is one half of a pair with the
/// same marker, as often, whose opener is followed by a non-space and whose closer is
/// preceded by one, and the other half is removed too; or it is two or more markers
/// with whitespace or an end of the text on both sides. `_` inside a word and tildes
/// other than `~~` are never among them.
pub proof fn law_removed_runs_hug_words(s: Seq<char>)
    ensures
        are_justified(s, removed_runs(s)),
{
    lemma_gone_runs_justified(s, 0, Seq::empty(), Set::empty());
}

proof fn lemma_gone_grows(s: Seq<char>, i: int, open: Seq<int>, gone: Set<int>, r: int)
    requires
        0 <= i,
        gone.contains(r),
    ensures
        emphasis::gone_runs(s, i, open, gone).contains(r),
    decreases s.len() - i,
{
    if i >= s.len() {
    } else if !emphasis::is_marker(s[i]) {
        lemma_gone_grows(s, i + 1, open, gone, r);
    } else {
        text::lemma_run_len(s, i, s[i]);
        let next = i + emphasis::run_at(s, i);
        match emphasis::fate(s, i, open) {
            emphasis::Fate::Stays => lemma_gone_grows(s, next, open, gone, r),
            emphasis::Fate::Closes(p) => lemma_gone_grows(
                s,
                next,
                open.remove(p),
                gone.insert(open[p]).insert(i),
                r,
            ),
            emphasis::Fate::Opens => lemma_gone_grows(s, next, open.push(i), gone, r),
            emphasis::Fate::Orphan => lemma_gone_grows(s, next, open, gone.insert(i), r),
        }
    }
}

/// One half of a pair is removed, wherever the other half waits or stands.
proof fn lemma_pair_is_found(
    s: Seq<char>,
    i: int,
    open: Seq<int>,
    gone: Set<int>,
    lo: int,
    hi: int,
)
    requires
        0 <= i <= s.len(),
        i < s.len() && emphasis::is_marker(s[i]) ==> is_run_start(s, i),
        is_run_start(s, lo),
        is_run_start(s, hi),
        is_pair(s, lo, hi),
        !emphasis::is_literal(s, lo),
        !emphasis::is_literal(s, hi),
        i <= hi,
        i <= lo || open.contains(lo),
    ensures
        ({
            let all = emphasis::gone_runs(s, i, open, gone);
            all.contains(lo) || all.contains(hi)
        }),
    decreases s.len() - i,
{
    let all = emphasis::gone_runs(s, i, open, gone);
    if !emphasis::is_marker(s[i]) {
        lemma_pair_is_found(s, i + 1, open, gone, lo, hi);
    } else {
        text::lemma_run_len(s, i, s[i]);
        emphasis::lemma_last_opener(s, open, i);
        let next = i + emphasis::run_at(s, i);
        assert(s[next - 1] == s[i]);
        if i < hi && hi < next {
            lemma_same_run_start(s, i, hi, hi);
        }
        if i < lo && lo < next {
            lemma_same_run_start(s, i, lo, lo);
        }
        if i == hi {
            let at = choose|at: int| 0 <= at < open.len() && open[at] == lo;
            assert(emphasis::same_run(s, open[at], i));
            let p = emphasis::last_opener(s, open, i)->0;
            let more = gone.insert(open[p]).insert(i);
            assert(more.contains(i));
            lemma_gone_grows(s, next, open.remove(p), more, i);
        } else {
            match emphasis::fate(s, i, open) {
                emphasis::Fate::Stays => lemma_pair_is_found(s, next, open, gone, lo, hi),
                emphasis::Fate::Closes(p) => {
                    let more = gone.insert(open[p]).insert(i);
                    if open[p] == lo || i == lo {
                        assert(more.contains(lo));
                        lemma_gone_grows(s, next, open.remove(p), more, lo);
                    } else {
                        if i > lo {
                            let at = choose|at: int| 0 <= at < open.len() && open[at] == lo;
                            if at < p {
                                assert(open.remove(p)[at] == lo);
                            } else {
                                assert(open.remove(p)[at - 1] == lo);
                            }
                            assert(open.remove(p).contains(lo));
                        }
                        lemma_pair_is_found(s, next, open.remove(p), more, lo, hi);
                    }
                },
                emphasis::Fate::Opens => {
                    let longer = open.push(i);
                    if i == lo {
                        assert(longer[longer.len() - 1] == lo);
                        assert(longer.contains(lo));
                    } else if i > lo {
                        let at = choose|at: int| 0 <= at < open.len() && open[at] == lo;
                        assert(longer[at] == lo);
                        assert(longer.contains(lo));
                    }
                    lemma_pair_is_found(s, next, longer, gone, lo, hi);
                },
                emphasis::Fate::Orphan => {
                    lemma_pair_is_found(s, next, open, gone.insert(i), lo, hi);
                },
            }
        }
    }
}

/// No pair is left: of two runs of one marker, as often, with a word behind the first and a word
/// before the second, at least one is removed, whatever stands between them or is still open;
/// but for `_` inside a word and tildes other than `~~`.
pub proof fn law_no_pair_is_left(s: Seq<char>, lo: int, hi: int)
    requires
        is_run_start(s, lo),
        is_run_start(s, hi),
        is_pair(s, lo, hi),
        s[lo] == '~' ==> emphasis::run_at(s, lo) == 2,
        !is_inside_word(s, lo),
        !is_inside_word(s, hi),
    ensures
        removed_runs(s).contains(lo) || removed_runs(s).contains(hi),
{
    lemma_pair_is_found(s, 0, Seq::empty(), Set::empty(), lo, hi);
}

/// Two runs of one marker that share a position are the same run.
proof fn lemma_same_run_start(s: Seq<char>, r: int, q: int, k: int)
    requires
        is_run_start(s, r),
        is_run_start(s, q),
        r <= k < r + emphasis::run_at(s, r),
        q <= k < q + emphasis::run_at(s, q),
    ensures
        r == q,
{
    text::lemma_run_len(s, r, s[r]);
    text::lemma_run_len(s, q, s[q]);
    if r < q {
        assert(s[q] == s[r]);
        assert(s[q - 1] == s[r]);
    } else if q < r {
        assert(s[r] == s[q]);
        assert(s[r - 1] == s[q]);
    }
}

/// Only `*`, `_` and `~` are markup.
pub proof fn law_only_markers_are_markup(s: Seq<char>)
    ensures
        forall|k: int| #[trigger]
            emphasis::is_markup(s, k) ==> 0 <= k < s.len() && (s[k] == '*' || s[k] == '_' || s[k]
                == '~'),
{
    law_removed_runs_hug_words(s);
    assert forall|k: int| #[trigger] emphasis::is_markup(s, k) implies 0 <= k < s.len()
        && emphasis::is_marker(s[k]) by {
        let r = choose|r: int| #[trigger]
            removed_runs(s).contains(r) && r <= k < r + emphasis::run_at(s, r);
        text::lemma_run_len(s, r, s[r]);
        assert(s[k] == s[r]);
    }
}

/// Nothing but `*`, `_` and `~` is removed: every other character stays, in its order.
pub proof fn law_only_markers_are_removed(g: Seq<Glyph>)
    ensures
        emphasis::unemphasized(g).filter(
            |x: Glyph|
                glyphs::seen_as(x) != '*' && glyphs::seen_as(x) != '_' && glyphs::seen_as(x) != '~',
        ) == g.filter(
            |x: Glyph|
                glyphs::seen_as(x) != '*' && glyphs::seen_as(x) != '_' && glyphs::seen_as(x) != '~',
        ),
{
    let s = glyphs::seen(g);
    law_only_markers_are_markup(s);
    let gone = |k: int| emphasis::is_markup(s, k);
    let p = |x: Glyph|
        glyphs::seen_as(x) != '*' && glyphs::seen_as(x) != '_' && glyphs::seen_as(x) != '~';
    assert forall|k: int| 0 <= k < g.len() && #[trigger] gone(k) implies !p(g[k]) by {
        assert(s[k] == glyphs::seen_as(g[k]));
    }
    text::lemma_without_filter(g, gone, g.len() as int, p);
    assert(g.take(g.len() as int) =~= g);
}

/// A character that an escape or inline code made literal is never removed.
pub proof fn law_literal_characters_stay(g: Seq<Glyph>, k: int)
    requires
        0 <= k < g.len(),
        g[k].kind is Escaped || g[k].kind is Code,
    ensures
        !emphasis::is_markup(glyphs::seen(g), k),
{
    law_only_markers_are_markup(glyphs::seen(g));
    assert(!emphasis::is_marker(glyphs::seen(g)[k]));
}

proof fn lemma_orphan_is_found(s: Seq<char>, i: int, open: Seq<int>, gone: Set<int>, r: int)
    requires
        0 <= i <= r,
        emphasis::is_marker(s[i]) ==> is_run_start(s, i),
        is_run_start(s, r),
        !emphasis::is_literal(s, r),
        emphasis::is_orphan(s, r),
    ensures
        emphasis::gone_runs(s, i, open, gone).contains(r),
    decreases s.len() - i,
{
    if i == r {
        lemma_gone_runs_accumulate(s, i + emphasis::run_at(s, i), open, gone.insert(i));
    } else if !emphasis::is_marker(s[i]) {
        lemma_orphan_is_found(s, i + 1, open, gone, r);
    } else {
        text::lemma_run_len(s, i, s[i]);
        let next = i + emphasis::run_at(s, i);
        if r < next {
            assert(s[r] == s[i] && s[r - 1] == s[i]);
        }
        assert(s[next - 1] == s[i]);
        match emphasis::fate(s, i, open) {
            emphasis::Fate::Stays => lemma_orphan_is_found(s, next, open, gone, r),
            emphasis::Fate::Closes(p) => lemma_orphan_is_found(
                s,
                next,
                open.remove(p),
                gone.insert(open[p]).insert(i),
                r,
            ),
            emphasis::Fate::Opens => lemma_orphan_is_found(s, next, open.push(i), gone, r),
            emphasis::Fate::Orphan => lemma_orphan_is_found(s, next, open, gone.insert(i), r),
        }
    }
}

/// Two or more markers with whitespace, or an end of the text, on both sides are orphaned
/// delimiters, and all of them go. Of `~` only a pair is a marker.
pub proof fn law_isolated_runs_are_removed(s: Seq<char>, r: int, k: int)
    requires
        is_run_start(s, r),
        emphasis::run_at(s, r) >= 2,
        s[r] == '~' ==> emphasis::run_at(s, r) == 2,
        r == 0 || text::is_space(s[r - 1]),
        r + emphasis::run_at(s, r) == s.len() || text::is_space(s[r + emphasis::run_at(s, r)]),
        r <= k < r + emphasis::run_at(s, r),
    ensures
        emphasis::is_markup(s, k),
{
    lemma_orphan_is_found(s, 0, Seq::empty(), Set::empty(), r);
    assert(removed_runs(s).contains(r));
}

/// A lone marker with whitespace, or an end of the text, on both sides stays: it may be
/// the `*` of `3 * 4` or the `_` of `a _ b`.
pub proof fn law_lone_spaced_marker_stays(s: Seq<char>, k: int)
    requires
        0 <= k < s.len(),
        s[k] == '*' || s[k] == '_' || s[k] == '~',
        k == 0 || text::is_space(s[k - 1]),
        k + 1 == s.len() || text::is_space(s[k + 1]),
    ensures
        !emphasis::is_markup(s, k),
{
    if emphasis::is_markup(s, k) {
        law_removed_runs_hug_words(s);
        let r = choose|r: int| #[trigger]
            removed_runs(s).contains(r) && r <= k < r + emphasis::run_at(s, r);
        reveal_with_fuel(text::run_len, 2);
        assert(emphasis::run_at(s, k) == 1);
        assert(is_run_start(s, k));
        lemma_same_run_start(s, r, k, k);
    }
}

/// `_` inside a word stays: `snake_case_name` is one name, not emphasis.
pub proof fn law_intra_word_underscore_stays(s: Seq<char>, r: int, k: int)
    requires
        is_run_start(s, r),
        is_inside_word(s, r),
        r <= k < r + emphasis::run_at(s, r),
    ensures
        !emphasis::is_markup(s, k),
{
    if emphasis::is_markup(s, k) {
        law_removed_runs_hug_words(s);
        let q = choose|q: int| #[trigger]
            removed_runs(s).contains(q) && q <= k < q + emphasis::run_at(s, q);
        lemma_same_run_start(s, r, q, k);
    }
}

/// Text without a marker is left alone.
pub proof fn law_text_without_markers_is_kept(g: Seq<Glyph>)
    requires
        has_no_marker(glyphs::seen(g)),
    ensures
        emphasis::unemphasized(g) == g,
{
    let s = glyphs::seen(g);
    law_only_markers_are_markup(s);
    let gone = |k: int| emphasis::is_markup(s, k);
    text::lemma_without_none(g, gone, g.len() as int);
    assert(g.take(g.len() as int) =~= g);
}

/// The runs found earlier do not change what is found later.
proof fn lemma_gone_runs_accumulate(s: Seq<char>, i: int, open: Seq<int>, gone: Set<int>)
    ensures
        emphasis::gone_runs(s, i, open, gone) == gone.union(
            emphasis::gone_runs(s, i, open, Set::empty()),
        ),
    decreases s.len() - i,
{
    if i < 0 || i >= s.len() {
        assert(gone.union(Set::empty()) =~= gone);
    } else if !emphasis::is_marker(s[i]) {
        lemma_gone_runs_accumulate(s, i + 1, open, gone);
    } else {
        text::lemma_run_len(s, i, s[i]);
        let next = i + emphasis::run_at(s, i);
        match emphasis::fate(s, i, open) {
            emphasis::Fate::Stays => lemma_gone_runs_accumulate(s, next, open, gone),
            emphasis::Fate::Closes(p) => {
                let both = Set::empty().insert(open[p]).insert(i);
                lemma_gone_runs_accumulate(
                    s,
                    next,
                    open.remove(p),
                    gone.insert(open[p]).insert(i),
                );
                lemma_gone_runs_accumulate(s, next, open.remove(p), both);
                let later = emphasis::gone_runs(s, next, open.remove(p), Set::empty());
                assert(gone.insert(open[p]).insert(i).union(later) =~= gone.union(
                    both.union(later),
                ));
            },
            emphasis::Fate::Opens => lemma_gone_runs_accumulate(s, next, open.push(i), gone),
            emphasis::Fate::Orphan => {
                lemma_gone_runs_accumulate(s, next, open, gone.insert(i));
                lemma_gone_runs_accumulate(s, next, open, Set::empty().insert(i));
                let later = emphasis::gone_runs(s, next, open, Set::empty());
                assert(gone.insert(i).union(later) =~= gone.union(
                    Set::empty().insert(i).union(later),
                ));
            },
        }
    }
}

/// Positions counted from `k` on.
spec fn shifted(open: Seq<int>, k: int) -> Seq<int> {
    Seq::new(open.len(), |q: int| open[q] - k)
}

proof fn lemma_last_opener_shift(s: Seq<char>, k: int, open: Seq<int>, i: int)
    requires
        0 <= k <= i < s.len(),
        forall|q: int| 0 <= q < open.len() ==> k <= #[trigger] open[q] < s.len(),
    ensures
        emphasis::last_opener(s, open, i) == emphasis::last_opener(
            s.skip(k),
            shifted(open, k),
            i - k,
        ),
    decreases open.len(),
{
    if open.len() > 0 {
        let o = open.last();
        assert(o == open[open.len() - 1]);
        text::lemma_run_len_skip(s, k, o, s[o]);
        text::lemma_run_len_skip(s, k, i, s[i]);
        assert(shifted(open, k).last() == o - k);
        assert(shifted(open, k).drop_last() =~= shifted(open.drop_last(), k));
        assert(emphasis::same_run(s, o, i) == emphasis::same_run(s.skip(k), o - k, i - k));
        lemma_last_opener_shift(s, k, open.drop_last(), i);
    }
}

/// Text from `k` on is read as if nothing stood before it, as long as no marker stands
/// right at its start and no run before it waits.
proof fn lemma_gone_runs_shift(s: Seq<char>, k: int, i: int, open: Seq<int>)
    requires
        0 <= k <= i <= s.len(),
        i == k && i < s.len() ==> !emphasis::is_marker(s[i]),
        forall|q: int| 0 <= q < open.len() ==> k <= #[trigger] open[q] < s.len(),
    ensures
        forall|r: int| #[trigger]
            emphasis::gone_runs(s, i, open, Set::empty()).contains(r) == emphasis::gone_runs(
                s.skip(k),
                i - k,
                shifted(open, k),
                Set::empty(),
            ).contains(r - k),
    decreases s.len() - i,
{
    let t = s.skip(k);
    let moved = shifted(open, k);
    let none = Set::<int>::empty();
    if i >= s.len() {
    } else if !emphasis::is_marker(s[i]) {
        assert(t[i - k] == s[i]);
        lemma_gone_runs_shift(s, k, i + 1, open);
        assert(emphasis::gone_runs(s, i, open, none) == emphasis::gone_runs(s, i + 1, open, none));
        assert(emphasis::gone_runs(t, i - k, moved, none) == emphasis::gone_runs(
            t,
            i + 1 - k,
            moved,
            none,
        ));
    } else {
        assert(t[i - k] == s[i]);
        assert(t[i - k - 1] == s[i - 1]);
        text::lemma_run_len(s, i, s[i]);
        text::lemma_run_len_skip(s, k, i, s[i]);
        lemma_last_opener_shift(s, k, open, i);
        emphasis::lemma_last_opener(s, open, i);
        let next = i + emphasis::run_at(s, i);
        if next < s.len() {
            assert(t[next - k] == s[next]);
        }
        assert(emphasis::fate(s, i, open) == emphasis::fate(t, i - k, moved));
        let here = emphasis::gone_runs(s, i, open, none);
        let there = emphasis::gone_runs(t, i - k, moved, none);
        match emphasis::fate(s, i, open) {
            emphasis::Fate::Stays => {
                lemma_gone_runs_shift(s, k, next, open);
                assert(here == emphasis::gone_runs(s, next, open, none));
                assert(there == emphasis::gone_runs(t, next - k, moved, none));
            },
            emphasis::Fate::Closes(p) => {
                let rest = open.remove(p);
                assert forall|q: int| 0 <= q < rest.len() implies k <= #[trigger] rest[q]
                    < s.len() by {
                    if q < p {
                        assert(rest[q] == open[q]);
                    } else {
                        assert(rest[q] == open[q + 1]);
                    }
                }
                lemma_gone_runs_shift(s, k, next, rest);
                assert(shifted(rest, k) =~= moved.remove(p));
                let pair = none.insert(open[p]).insert(i);
                let pair_t = none.insert(moved[p]).insert(i - k);
                lemma_gone_runs_accumulate(s, next, rest, pair);
                lemma_gone_runs_accumulate(t, next - k, moved.remove(p), pair_t);
                let later = emphasis::gone_runs(s, next, rest, none);
                let later_t = emphasis::gone_runs(t, next - k, moved.remove(p), none);
                assert(here == pair.union(later));
                assert(there == pair_t.union(later_t));
                assert forall|r: int| #[trigger] here.contains(r) == there.contains(r - k) by {
                    assert(later.contains(r) == later_t.contains(r - k));
                }
            },
            emphasis::Fate::Opens => {
                lemma_gone_runs_shift(s, k, next, open.push(i));
                assert(shifted(open.push(i), k) =~= moved.push(i - k));
                assert(here == emphasis::gone_runs(s, next, open.push(i), none));
                assert(there == emphasis::gone_runs(t, next - k, moved.push(i - k), none));
            },
            emphasis::Fate::Orphan => {
                lemma_gone_runs_shift(s, k, next, open);
                lemma_gone_runs_accumulate(s, next, open, none.insert(i));
                lemma_gone_runs_accumulate(t, next - k, moved, none.insert(i - k));
                let later = emphasis::gone_runs(s, next, open, none);
                let later_t = emphasis::gone_runs(t, next - k, moved, none);
                assert(here == none.insert(i).union(later));
                assert(there == none.insert(i - k).union(later_t));
                assert forall|r: int| #[trigger] here.contains(r) == there.contains(r - k) by {
                    assert(later.contains(r) == later_t.contains(r - k));
                }
            },
        }
    }
}

/// Text without markers has nothing to find.
proof fn lemma_gone_runs_skip(s: Seq<char>, i: int, j: int, open: Seq<int>, gone: Set<int>)
    requires
        0 <= i <= j <= s.len(),
        forall|k: int| i <= k < j ==> !emphasis::is_marker(#[trigger] s[k]),
    ensures
        emphasis::gone_runs(s, i, open, gone) == emphasis::gone_runs(s, j, open, gone),
    decreases j - i,
{
    if i < j {
        lemma_gone_runs_skip(s, i + 1, j, open, gone);
    }
}

/// `n` markers in a row.
pub open spec fn marker_run(m: char, n: nat) -> Seq<char> {
    Seq::new(n, |i: int| m)
}

pub open spec fn has_no_marker(s: Seq<char>) -> bool {
    forall|i: int| 0 <= i < s.len() ==> #[trigger] s[i] != '*' && s[i] != '_' && s[i] != '~'
}

/// `left` and `right` do not both end in letters or digits where they meet.
pub open spec fn meet_at_word_edge(left: Seq<char>, right: Seq<char>) -> bool {
    ||| left.len() == 0 || !text::is_word_char(left.last())
    ||| right.len() == 0 || !text::is_word_char(right[0])
}

/// `s` is `a`, `n` markers, `b`, `n` markers, `c`.
spec fn is_emphasis(s: Seq<char>, a: Seq<char>, b: Seq<char>, c: Seq<char>, m: char, n: nat) -> bool {
    &&& s.len() == a.len() + n + b.len() + n + c.len()
    &&& forall|k: int|
        0 <= k < s.len() ==> #[trigger] s[k] == (if k < a.len() {
            a[k]
        } else if k < a.len() + n {
            m
        } else if k < a.len() + n + b.len() {
            b[k - a.len() - n]
        } else if k < a.len() + n + b.len() + n {
            m
        } else {
            c[k - a.len() - n - b.len() - n]
        })
}

/// What `law_emphasis_loses_its_markers` asks of its parts.
pub open spec fn is_well_formed(a: Seq<char>, b: Seq<char>, c: Seq<char>, m: char, n: nat) -> bool {
    &&& m == '*' || m == '_' || m == '~'
    &&& n >= 1
    &&& m == '~' ==> n == 2
    &&& has_no_marker(a)
    &&& has_no_marker(b)
    &&& c.len() > 0 ==> c[0] != '*' && c[0] != '_' && c[0] != '~'
    &&& b.len() > 0 && !text::is_space(b[0]) && !text::is_space(b.last())
    &&& m == '_' ==> meet_at_word_edge(a, b) && meet_at_word_edge(b, c)
}

proof fn lemma_emphasis_runs(
    s: Seq<char>,
    a: Seq<char>,
    b: Seq<char>,
    c: Seq<char>,
    m: char,
    n: nat,
)
    requires
        is_well_formed(a, b, c, m, n),
        is_emphasis(s, a, b, c, m, n),
    ensures
        ({
            let p0 = a.len() as int;
            let p2 = p0 + n + b.len();
            &&& emphasis::run_at(s, p0) == n
            &&& emphasis::run_at(s, p2) == n
            &&& removed_runs(s) == Set::<int>::empty().insert(p0).insert(p2).union(
                emphasis::gone_runs(s, p2 + n, Seq::empty(), Set::empty()),
            )
        }),
{
    let p0 = a.len() as int;
    let p1 = p0 + n;
    let p2 = p1 + b.len();
    let p3 = p2 + n;
    let none = Set::<int>::empty();
    assert forall|k: int| 0 <= k < p0 implies !emphasis::is_marker(#[trigger] s[k]) by {
        assert(s[k] == a[k]);
    }
    assert forall|k: int| p1 <= k < p2 implies !emphasis::is_marker(#[trigger] s[k]) by {
        assert(s[k] == b[k - p1]);
    }
    lemma_gone_runs_skip(s, 0, p0, Seq::empty(), none);
    assert(s[p1] == b[0]);
    text::lemma_run_len_is(s, p0, m, n);
    assert(s[p0] == m);
    if p0 > 0 {
        assert(s[p0 - 1] == a.last());
    }
    assert(emphasis::last_opener(s, Seq::empty(), p0) is None);
    assert(emphasis::fate(s, p0, Seq::empty()) is Opens);
    let one = Seq::<int>::empty().push(p0);
    lemma_gone_runs_skip(s, p1, p2, one, none);
    assert(s[p2] == m);
    assert(s[p2 - 1] == b.last());
    if p3 < s.len() {
        assert(s[p3] == c[0]);
    }
    text::lemma_run_len_is(s, p2, m, n);
    assert(emphasis::same_run(s, one.last(), p2));
    assert(emphasis::last_opener(s, one, p2) == Some(0int));
    assert(emphasis::fate(s, p2, one) == emphasis::Fate::Closes(0int));
    assert(one.remove(0) =~= Seq::<int>::empty());
    lemma_gone_runs_accumulate(s, p3, Seq::empty(), none.insert(p0).insert(p2));
}

proof fn lemma_emphasis_markup(
    s: Seq<char>,
    a: Seq<char>,
    b: Seq<char>,
    c: Seq<char>,
    m: char,
    n: nat,
)
    requires
        is_well_formed(a, b, c, m, n),
        is_emphasis(s, a, b, c, m, n),
    ensures
        forall|k: int|
            0 <= k < s.len() ==> #[trigger] emphasis::is_markup(s, k) == (if k < a.len() {
                false
            } else if k < a.len() + n {
                true
            } else if k < a.len() + n + b.len() {
                false
            } else if k < a.len() + n + b.len() + n {
                true
            } else {
                emphasis::is_markup(c, k - a.len() - n - b.len() - n)
            }),
{
    let p0 = a.len() as int;
    let p1 = p0 + n;
    let p2 = p1 + b.len();
    let p3 = p2 + n;
    let pair = Set::<int>::empty().insert(p0).insert(p2);
    let later = emphasis::gone_runs(s, p3, Seq::empty(), Set::empty());
    lemma_emphasis_runs(s, a, b, c, m, n);
    assert(s.skip(p3) =~= c);
    if p3 < s.len() {
        assert(s[p3] == c[0]);
    }
    lemma_gone_runs_shift(s, p3, p3, Seq::empty());
    assert(shifted(Seq::empty(), p3) =~= Seq::<int>::empty());
    law_removed_runs_hug_words(c);
    assert forall|r: int| #[trigger] later.contains(r) == removed_runs(c).contains(r - p3) by {}
    assert forall|k: int| 0 <= k < s.len() implies #[trigger] emphasis::is_markup(s, k) == (if k
        < p0 {
        false
    } else if k < p1 {
        true
    } else if k < p2 {
        false
    } else if k < p3 {
        true
    } else {
        emphasis::is_markup(c, k - p3)
    }) by {
        if p0 <= k < p1 {
            assert(removed_runs(s).contains(p0));
        }
        if p2 <= k < p3 {
            assert(removed_runs(s).contains(p2));
        }
        if emphasis::is_markup(s, k) {
            let r = choose|r: int| #[trigger]
                removed_runs(s).contains(r) && r <= k < r + emphasis::run_at(s, r);
            assert(pair.contains(r) || later.contains(r));
            if later.contains(r) {
                assert(removed_runs(c).contains(r - p3));
                assert(is_run_start(c, r - p3));
                assert(c[r - p3] == s[r]);
                text::lemma_run_len_skip(s, p3, r, s[r]);
            }
        }
        if k >= p3 && emphasis::is_markup(c, k - p3) {
            let r = choose|r: int| #[trigger]
                removed_runs(c).contains(r) && r <= k - p3 < r + emphasis::run_at(c, r);
            assert(is_run_start(c, r));
            assert(c[r] == s[r + p3]);
            text::lemma_run_len_skip(s, p3, r + p3, c[r]);
            assert(later.contains(r + p3));
            assert(removed_runs(s).contains(r + p3));
        }
    }
}

/// Well-formed emphasis loses its markers and nothing else: in `a **b** c` the first
/// emphasis of a text goes, whatever `c` holds. For `_` the markers must stand at the edge
/// of a word; `~` counts only in pairs.
pub proof fn law_emphasis_loses_its_markers(
    a: Seq<Glyph>,
    b: Seq<Glyph>,
    c: Seq<Glyph>,
    m: char,
    n: nat,
)
    requires
        is_well_formed(glyphs::seen(a), glyphs::seen(b), glyphs::seen(c), m, n),
    ensures
        emphasis::unemphasized(
            a + glyphs::plain(marker_run(m, n)) + b + glyphs::plain(marker_run(m, n)) + c,
        ) == a + b + emphasis::unemphasized(c),
{
    let g = a + glyphs::plain(marker_run(m, n)) + b + glyphs::plain(marker_run(m, n)) + c;
    let s = glyphs::seen(g);
    let z = glyphs::seen(c);
    let p0 = a.len() as int;
    let p1 = p0 + n;
    let p2 = p1 + b.len();
    let p3 = p2 + n;
    assert(is_emphasis(s, glyphs::seen(a), glyphs::seen(b), z, m, n));
    lemma_emphasis_markup(s, glyphs::seen(a), glyphs::seen(b), z, m, n);
    let gone = |k: int| emphasis::is_markup(s, k);
    let gone_c = |k: int| emphasis::is_markup(z, k);
    text::lemma_without_none(g, gone, p0);
    assert(g.take(p0) =~= a);
    text::lemma_without_split(g, gone, p0, p1);
    text::lemma_without_all(g.skip(p0), |j: int| gone(j + p0), p1 - p0);
    assert(text::without(g, gone, p1) =~= a);
    text::lemma_without_split(g, gone, p1, p2);
    text::lemma_without_none(g.skip(p1), |j: int| gone(j + p1), p2 - p1);
    assert(g.skip(p1).take(p2 - p1) =~= b);
    assert(text::without(g, gone, p2) =~= a + b);
    text::lemma_without_split(g, gone, p2, p3);
    text::lemma_without_all(g.skip(p2), |j: int| gone(j + p2), p3 - p2);
    assert(text::without(g, gone, p3) =~= a + b);
    text::lemma_without_split(g, gone, p3, g.len() as int);
    assert(g.skip(p3) =~= c);
    text::lemma_without_cong(c, |j: int| gone(j + p3), c, gone_c, c.len() as int);
}

// ---- beside code and escapes ----
spec fn is_alike_at(s: Seq<char>, t: Seq<char>, i: int) -> bool {
    &&& emphasis::is_marker(s[i]) || emphasis::is_marker(t[i]) ==> s[i] == t[i]
    &&& text::is_space(s[i]) == text::is_space(t[i])
    &&& text::is_word_char(s[i]) == text::is_word_char(t[i])
}

/// The same markers at the same places, and whitespace, word characters and others between them.
spec fn are_alike(s: Seq<char>, t: Seq<char>) -> bool {
    &&& s.len() == t.len()
    &&& forall|i: int| 0 <= i < s.len() ==> #[trigger] is_alike_at(s, t, i)
}

spec fn are_markers(s: Seq<char>, places: Seq<int>) -> bool {
    forall|q: int|
        0 <= q < places.len() ==> 0 <= #[trigger] places[q] < s.len() && emphasis::is_marker(
            s[places[q]],
        )
}

proof fn lemma_runs_alike(s: Seq<char>, t: Seq<char>, i: int, c: char)
    requires
        are_alike(s, t),
        0 <= i,
        emphasis::is_marker(c),
    ensures
        text::run_len(s, i, c) == text::run_len(t, i, c),
    decreases s.len() - i,
{
    if i < s.len() {
        assert(is_alike_at(s, t, i));
        lemma_runs_alike(s, t, i + 1, c);
    }
}

proof fn lemma_openers_alike(s: Seq<char>, t: Seq<char>, open: Seq<int>, i: int)
    requires
        are_alike(s, t),
        0 <= i < s.len(),
        emphasis::is_marker(s[i]),
        are_markers(s, open),
    ensures
        emphasis::last_opener(s, open, i) == emphasis::last_opener(t, open, i),
    decreases open.len(),
{
    assert(is_alike_at(s, t, i));
    lemma_runs_alike(s, t, i, s[i]);
    if open.len() > 0 {
        let o = open[open.len() - 1];
        assert(is_alike_at(s, t, o));
        lemma_runs_alike(s, t, o, s[o]);
        assert forall|q: int| 0 <= q < open.drop_last().len() implies 0
            <= #[trigger] open.drop_last()[q] < s.len() && emphasis::is_marker(
            s[open.drop_last()[q]],
        ) by {
            assert(open.drop_last()[q] == open[q]);
        }
        lemma_openers_alike(s, t, open.drop_last(), i);
    }
}

proof fn lemma_gone_alike(s: Seq<char>, t: Seq<char>, i: int, open: Seq<int>, gone: Set<int>)
    requires
        are_alike(s, t),
        0 <= i,
        are_markers(s, open),
    ensures
        emphasis::gone_runs(s, i, open, gone) == emphasis::gone_runs(t, i, open, gone),
    decreases s.len() - i,
{
    if i < s.len() {
        assert(is_alike_at(s, t, i));
        if !emphasis::is_marker(s[i]) {
            lemma_gone_alike(s, t, i + 1, open, gone);
        } else {
            text::lemma_run_len(s, i, s[i]);
            lemma_runs_alike(s, t, i, s[i]);
            lemma_openers_alike(s, t, open, i);
            let next = i + emphasis::run_at(s, i);
            if next < s.len() {
                assert(is_alike_at(s, t, next));
            }
            if 0 < i {
                assert(is_alike_at(s, t, i - 1));
            }
            assert(emphasis::fate(s, i, open) == emphasis::fate(t, i, open));
            emphasis::lemma_last_opener(s, open, i);
            match emphasis::fate(s, i, open) {
                emphasis::Fate::Stays => {
                    lemma_gone_alike(s, t, next, open, gone);
                },
                emphasis::Fate::Closes(p) => {
                    let left = open.remove(p);
                    assert forall|q: int| 0 <= q < left.len() implies 0 <= #[trigger] left[q]
                        < s.len() && emphasis::is_marker(s[left[q]]) by {
                        assert(left[q] == open[if q < p {
                            q
                        } else {
                            q + 1
                        }]);
                    }
                    lemma_gone_alike(s, t, next, left, gone.insert(open[p]).insert(i));
                },
                emphasis::Fate::Opens => {
                    lemma_gone_alike(s, t, next, open.push(i), gone);
                },
                emphasis::Fate::Orphan => {
                    lemma_gone_alike(s, t, next, open, gone.insert(i));
                },
            }
        }
    }
}

/// Beside code and escaped characters, emphasis is what it is beside the same characters written
/// plainly: a letter of code belongs to the word that an underscore stands in, and a space of
/// code is whitespace.
pub proof fn law_literal_characters_count_for_what_they_are(g: Seq<Glyph>, k: int)
    requires
        forall|i: int|
            0 <= i < g.len() ==> {
                let literal = #[trigger] g[i];
                literal.kind is Plain || ((literal.kind is Code || literal.kind is Escaped)
                    && literal.c != '*' && literal.c != '_' && literal.c != '~')
            },
    ensures
        emphasis::is_markup(glyphs::seen(g), k) == emphasis::is_markup(glyphs::chars(g), k),
{
    let s = glyphs::seen(g);
    let t = glyphs::chars(g);
    assert forall|i: int| 0 <= i < s.len() implies #[trigger] is_alike_at(s, t, i) by {
        assert(g[i].kind is Plain || g[i].kind is Code || g[i].kind is Escaped);
    }
    lemma_gone_alike(s, t, 0, Seq::empty(), Set::empty());
    law_removed_runs_hug_words(s);
    let gone = removed_runs(s);
    assert forall|r: int| #[trigger] gone.contains(r) implies emphasis::run_at(s, r)
        == emphasis::run_at(t, r) by {
        assert(is_run_start(s, r));
        assert(is_alike_at(s, t, r));
        lemma_runs_alike(s, t, r, s[r]);
    }
    if emphasis::covered(s, gone, k) {
        let r = choose|r: int| #[trigger] gone.contains(r) && r <= k < r + emphasis::run_at(s, r);
        assert(gone.contains(r));
    }
    if emphasis::covered(t, gone, k) {
        let r = choose|r: int| #[trigger] gone.contains(r) && r <= k < r + emphasis::run_at(t, r);
        assert(gone.contains(r));
    }
}

} // verus!

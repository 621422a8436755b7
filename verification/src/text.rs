//! Characters, words and lines: the string vocabulary of every other module.
//!
//! Text is modelled as `Seq<char>`; executable code works on `&[char]`.

use vstd::prelude::*;

verus! {

/// The code points with Unicode's `White_Space` property.
pub open spec fn is_space(c: char) -> bool {
    ||| '\u{9}' <= c <= '\u{d}'
    ||| c == ' '
    ||| c == '\u{85}'
    ||| c == '\u{a0}'
    ||| c == '\u{1680}'
    ||| '\u{2000}' <= c <= '\u{200a}'
    ||| c == '\u{2028}'
    ||| c == '\u{2029}'
    ||| c == '\u{202f}'
    ||| c == '\u{205f}'
    ||| c == '\u{3000}'
}

pub fn is_whitespace(c: char) -> (r: bool)
    ensures
        r == is_space(c),
{
    ('\u{9}' <= c && c <= '\u{d}') || c == ' ' || c == '\u{85}' || c == '\u{a0}' || c == '\u{1680}'
        || ('\u{2000}' <= c && c <= '\u{200a}') || c == '\u{2028}' || c == '\u{2029}' || c
        == '\u{202f}' || c == '\u{205f}' || c == '\u{3000}'
}

pub open spec fn is_ascii_alphanumeric(c: char) -> bool {
    ||| '0' <= c <= '9'
    ||| 'A' <= c <= 'Z'
    ||| 'a' <= c <= 'z'
}

/// Whether `char::is_alphanumeric` holds: Unicode's `Alphabetic` property or one of
/// the number categories `Nd`, `Nl` and `No`.
pub uninterp spec fn alphanumeric(c: char) -> bool;

/// `char::is_alphanumeric`, a fixed table of Unicode; among the ASCII characters it
/// picks the digits and the letters, and whitespace is never alphanumeric.
pub assume_specification[ char::is_alphanumeric ](c: char) -> (r: bool)
    ensures
        r == alphanumeric(c),
        c <= '\u{7f}' ==> r == is_ascii_alphanumeric(c),
        is_space(c) ==> !r,
;

/// A letter or a digit, as `char::is_alphanumeric` has them.
pub open spec fn is_word_char(c: char) -> bool {
    if c <= '\u{7f}' {
        is_ascii_alphanumeric(c)
    } else {
        alphanumeric(c) && !is_space(c)
    }
}

pub fn word_char(c: char) -> (r: bool)
    ensures
        r == is_word_char(c),
{
    c.is_alphanumeric()
}

/// `String::push` appends the character at the end.
pub assume_specification[ String::push ](s: &mut String, c: char)
    ensures
        final(s)@ == old(s)@.push(c),
;

/// The characters of a string.
pub fn chars_of(s: &str) -> (r: Vec<char>)
    ensures
        r@ == s@,
{
    let mut out: Vec<char> = Vec::new();
    for c in it: s.chars()
        invariant
            out@ == s@.take(it.index()),
            it.seq() == s@,
    {
        out.push(c);
    }
    out
}

/// The string made of the given characters.
pub fn string_of(chars: &[char]) -> (r: String)
    ensures
        r@ == chars@,
{
    let mut out: String = String::new();
    let mut i: usize = 0;
    while i < chars.len()
        invariant
            i <= chars@.len(),
            out@ == chars@.take(i as int),
        decreases chars@.len() - i,
    {
        out.push(chars[i]);
        i += 1;
    }
    assert(chars@.take(i as int) =~= chars@);
    out
}

/// Two pieces of text in a row.
pub fn concat2(a: &str, b: &str) -> (r: String)
    ensures
        r@ == a@ + b@,
{
    let mut out: Vec<char> = chars_of(a);
    append_str(&mut out, b);
    string_of(out.as_slice())
}

/// Three pieces of text in a row.
pub fn concat3(a: &str, b: &str, c: &str) -> (r: String)
    ensures
        r@ == a@ + b@ + c@,
{
    let mut out: Vec<char> = chars_of(a);
    append_str(&mut out, b);
    append_str(&mut out, c);
    string_of(out.as_slice())
}

/// Appends a string to `v`.
pub fn append_str(v: &mut Vec<char>, tail: &str)
    ensures
        final(v)@ == old(v)@ + tail@,
{
    let mut more: Vec<char> = chars_of(tail);
    v.append(&mut more);
}

/// What stands in a list of lines or words.
pub open spec fn views<T>(v: Seq<Vec<T>>) -> Seq<Seq<T>> {
    Seq::new(v.len(), |i: int| v[i]@)
}

/// The characters behind a list of strings.
pub open spec fn texts(v: Seq<String>) -> Seq<Seq<char>> {
    Seq::new(v.len(), |i: int| v[i]@)
}

/// `s` without its leading whitespace.
pub open spec fn trimmed_start(s: Seq<char>) -> Seq<char>
    decreases s.len(),
{
    if s.len() > 0 && is_space(s[0]) {
        trimmed_start(s.drop_first())
    } else {
        s
    }
}

/// `s` without its trailing whitespace.
pub open spec fn trimmed_end(s: Seq<char>) -> Seq<char>
    decreases s.len(),
{
    if s.len() > 0 && is_space(s.last()) {
        trimmed_end(s.drop_last())
    } else {
        s
    }
}

/// `s` without the whitespace around it.
pub open spec fn trimmed(s: Seq<char>) -> Seq<char> {
    trimmed_end(trimmed_start(s))
}

pub proof fn lemma_trimmed_start_len(s: Seq<char>)
    ensures
        trimmed_start(s).len() <= s.len(),
    decreases s.len(),
{
    if s.len() > 0 && is_space(s[0]) {
        lemma_trimmed_start_len(s.drop_first());
    }
}

pub fn trim_start(s: &[char]) -> (r: &[char])
    ensures
        r@ == trimmed_start(s@),
{
    let mut i: usize = 0;
    assert(s@.skip(0) =~= s@);
    while i < s.len() && is_whitespace(s[i])
        invariant
            i <= s@.len(),
            trimmed_start(s@.skip(i as int)) == trimmed_start(s@),
        decreases s@.len() - i,
    {
        assert(s@.skip(i as int).drop_first() =~= s@.skip(i + 1));
        i += 1;
    }
    assert(s@.subrange(i as int, s@.len() as int) =~= s@.skip(i as int));
    vstd::slice::slice_subrange(s, i, s.len())
}

pub fn trim_end(s: &[char]) -> (r: &[char])
    ensures
        r@ == trimmed_end(s@),
{
    let mut n: usize = s.len();
    assert(s@.take(n as int) =~= s@);
    while n > 0 && is_whitespace(s[n - 1])
        invariant
            n <= s@.len(),
            trimmed_end(s@.take(n as int)) == trimmed_end(s@),
        decreases n,
    {
        assert(s@.take(n as int).drop_last() =~= s@.take(n - 1));
        n -= 1;
    }
    assert(s@.subrange(0, n as int) =~= s@.take(n as int));
    vstd::slice::slice_subrange(s, 0, n)
}

pub fn trim(s: &[char]) -> (r: &[char])
    ensures
        r@ == trimmed(s@),
{
    trim_end(trim_start(s))
}

/// `s` without the `c`s that it starts with.
pub open spec fn stripped_start(s: Seq<char>, c: char) -> Seq<char>
    decreases s.len(),
{
    if s.len() > 0 && s[0] == c {
        stripped_start(s.drop_first(), c)
    } else {
        s
    }
}

/// `s` without the `c`s that it ends with.
pub open spec fn stripped_end(s: Seq<char>, c: char) -> Seq<char>
    decreases s.len(),
{
    if s.len() > 0 && s.last() == c {
        stripped_end(s.drop_last(), c)
    } else {
        s
    }
}

pub fn trim_start_char(s: &[char], c: char) -> (r: &[char])
    ensures
        r@ == stripped_start(s@, c),
{
    let mut i: usize = 0;
    assert(s@.skip(0) =~= s@);
    while i < s.len() && s[i] == c
        invariant
            i <= s@.len(),
            stripped_start(s@.skip(i as int), c) == stripped_start(s@, c),
        decreases s@.len() - i,
    {
        assert(s@.skip(i as int).drop_first() =~= s@.skip(i + 1));
        i += 1;
    }
    assert(s@.subrange(i as int, s@.len() as int) =~= s@.skip(i as int));
    vstd::slice::slice_subrange(s, i, s.len())
}

pub fn trim_end_char(s: &[char], c: char) -> (r: &[char])
    ensures
        r@ == stripped_end(s@, c),
{
    let mut n: usize = s.len();
    assert(s@.take(n as int) =~= s@);
    while n > 0 && s[n - 1] == c
        invariant
            n <= s@.len(),
            stripped_end(s@.take(n as int), c) == stripped_end(s@, c),
        decreases n,
    {
        assert(s@.take(n as int).drop_last() =~= s@.take(n - 1));
        n -= 1;
    }
    assert(s@.subrange(0, n as int) =~= s@.take(n as int));
    vstd::slice::slice_subrange(s, 0, n)
}

/// `c` in lower case, if it is an ASCII letter.
pub open spec fn ascii_lower(c: char) -> char {
    if 'A' <= c <= 'Z' {
        (c as u8 + 32) as char
    } else {
        c
    }
}

pub fn to_ascii_lower(s: &[char]) -> (r: Vec<char>)
    ensures
        r@ == s@.map_values(|c: char| ascii_lower(c)),
{
    let mut out: Vec<char> = Vec::new();
    let mut i: usize = 0;
    while i < s.len()
        invariant
            i <= s@.len(),
            out@ == s@.take(i as int).map_values(|c: char| ascii_lower(c)),
        decreases s@.len() - i,
    {
        let c: char = s[i];
        let low: char = if 'A' <= c && c <= 'Z' {
            (c as u8 + 32) as char
        } else {
            c
        };
        out.push(low);
        i += 1;
    }
    assert(s@.take(i as int) =~= s@);
    out
}

/// The length of the run of non-whitespace that `s` starts with.
pub open spec fn word_len(s: Seq<char>) -> nat
    decreases s.len(),
{
    if s.len() > 0 && !is_space(s[0]) {
        1 + word_len(s.drop_first())
    } else {
        0
    }
}

pub proof fn lemma_word_len(s: Seq<char>)
    ensures
        word_len(s) <= s.len(),
        forall|i: int| 0 <= i < word_len(s) ==> !is_space(#[trigger] s[i]),
        word_len(s) < s.len() ==> is_space(s[word_len(s) as int]),
    decreases s.len(),
{
    if s.len() > 0 && !is_space(s[0]) {
        let t = s.drop_first();
        lemma_word_len(t);
        assert forall|i: int| 0 <= i < word_len(s) implies !is_space(#[trigger] s[i]) by {
            if i > 0 {
                assert(s[i] == t[i - 1]);
            }
        }
    }
}

/// The maximal runs of non-whitespace of `s`, in order.
pub open spec fn words_of(s: Seq<char>) -> Seq<Seq<char>>
    decreases s.len(),
{
    if s.len() == 0 {
        Seq::empty()
    } else if is_space(s[0]) {
        words_of(s.drop_first())
    } else {
        proof {
            lemma_word_len(s);
        }
        seq![s.take(word_len(s) as int)] + words_of(s.skip(word_len(s) as int))
    }
}

/// The words of `s`, as `str::split_whitespace` gives them.
pub fn split_whitespace(s: &[char]) -> (r: Vec<Vec<char>>)
    ensures
        views(r@) == words_of(s@),
{
    let mut out: Vec<Vec<char>> = Vec::new();
    let mut i: usize = 0;
    assert(s@.skip(0) =~= s@);
    assert(views(out@) + words_of(s@) =~= words_of(s@));
    while i < s.len()
        invariant
            i <= s@.len(),
            views(out@) + words_of(s@.skip(i as int)) == words_of(s@),
        decreases s@.len() - i,
    {
        let ghost rest = s@.skip(i as int);
        if is_whitespace(s[i]) {
            assert(rest.drop_first() =~= s@.skip(i + 1));
            i += 1;
        } else {
            let start: usize = i;
            while i < s.len() && !is_whitespace(s[i])
                invariant
                    start <= i <= s@.len(),
                    rest == s@.skip(start as int),
                    word_len(rest) == (i - start) + word_len(s@.skip(i as int)),
                decreases s@.len() - i,
            {
                assert(s@.skip(i as int).drop_first() =~= s@.skip(i + 1));
                i += 1;
            }
            assert(word_len(rest) == i - start);
            proof {
                lemma_word_len(rest);
            }
            let ghost before = views(out@);
            let word: Vec<char> = vstd::slice::slice_to_vec(vstd::slice::slice_subrange(s, start, i));
            assert(word@ =~= rest.take(i - start));
            assert(rest.skip(i - start) =~= s@.skip(i as int));
            out.push(word);
            assert(views(out@) =~= before.push(rest.take(i - start)));
            assert(views(out@) + words_of(s@.skip(i as int)) =~= before + (seq![
                rest.take(i - start),
            ] + words_of(s@.skip(i as int))));
        }
    }
    assert(s@.skip(i as int) =~= Seq::<char>::empty());
    assert(views(out@) + words_of(s@.skip(i as int)) =~= views(out@));
    out
}

/// The pieces of `parts` in order, with `sep` between neighbours.
pub open spec fn joined<T>(parts: Seq<Seq<T>>, sep: Seq<T>) -> Seq<T>
    decreases parts.len(),
{
    if parts.len() == 0 {
        Seq::empty()
    } else if parts.len() == 1 {
        parts[0]
    } else {
        joined(parts.drop_last(), sep) + sep + parts.last()
    }
}

/// Appends `tail` to `v`.
pub fn append_chars<T: Copy>(v: &mut Vec<T>, tail: &[T])
    ensures
        final(v)@ == old(v)@ + tail@,
{
    let mut i: usize = 0;
    while i < tail.len()
        invariant
            i <= tail@.len(),
            v@ == old(v)@ + tail@.take(i as int),
        decreases tail@.len() - i,
    {
        v.push(tail[i]);
        i += 1;
    }
    assert(tail@.take(i as int) =~= tail@);
}

pub fn join<T: Copy>(parts: &Vec<Vec<T>>, sep: T) -> (r: Vec<T>)
    ensures
        r@ == joined(views(parts@), seq![sep]),
{
    let mut out: Vec<T> = Vec::new();
    let mut i: usize = 0;
    let ghost all = views(parts@);
    while i < parts.len()
        invariant
            i <= parts@.len(),
            all == views(parts@),
            out@ == joined(all.take(i as int), seq![sep]),
        decreases parts@.len() - i,
    {
        assert(all.take(i + 1).drop_last() =~= all.take(i as int));
        if i > 0 {
            out.push(sep);
        }
        append_chars(&mut out, parts[i].as_slice());
        assert(out@ =~= joined(all.take(i + 1), seq![sep]));
        i += 1;
    }
    assert(all.take(i as int) =~= all);
    out
}

/// The first `n` elements of `s`, without those at a position that is `gone`.
pub open spec fn without<T>(s: Seq<T>, gone: spec_fn(int) -> bool, n: int) -> Seq<T>
    decreases n,
{
    if n <= 0 {
        Seq::empty()
    } else if gone(n - 1) {
        without(s, gone, n - 1)
    } else {
        without(s, gone, n - 1).push(s[n - 1])
    }
}

/// With nothing gone, nothing changes.
pub proof fn lemma_without_none<T>(s: Seq<T>, gone: spec_fn(int) -> bool, n: int)
    requires
        0 <= n <= s.len(),
        forall|k: int| 0 <= k < n ==> !#[trigger] gone(k),
    ensures
        without(s, gone, n) == s.take(n),
    decreases n,
{
    if n > 0 {
        lemma_without_none(s, gone, n - 1);
        assert(s.take(n) =~= s.take(n - 1).push(s[n - 1]));
    }
}

/// Characters that `p` picks all stay, in their order, if only others are gone.
pub proof fn lemma_without_filter<T>(
    s: Seq<T>,
    gone: spec_fn(int) -> bool,
    n: int,
    p: spec_fn(T) -> bool,
)
    requires
        0 <= n <= s.len(),
        forall|k: int| 0 <= k < n && #[trigger] gone(k) ==> !p(s[k]),
    ensures
        without(s, gone, n).filter(p) == s.take(n).filter(p),
    decreases n,
{
    reveal(Seq::filter);
    if n > 0 {
        lemma_without_filter(s, gone, n - 1, p);
        assert(s.take(n).drop_last() =~= s.take(n - 1));
        if !gone(n - 1) {
            assert(without(s, gone, n).drop_last() =~= without(s, gone, n - 1));
        }
    }
}

/// `without` goes position by position.
pub proof fn lemma_without_split<T>(s: Seq<T>, gone: spec_fn(int) -> bool, k: int, n: int)
    requires
        0 <= k <= n <= s.len(),
    ensures
        without(s, gone, n) == without(s, gone, k) + without(
            s.skip(k),
            |j: int| gone(j + k),
            n - k,
        ),
    decreases n - k,
{
    let tail = |j: int| gone(j + k);
    if n == k {
        assert(without(s, gone, k) + without(s.skip(k), tail, 0) =~= without(s, gone, k));
    } else {
        lemma_without_split(s, gone, k, n - 1);
        assert(s.skip(k)[n - 1 - k] == s[n - 1]);
        assert(tail(n - 1 - k) == gone(n - 1));
        assert(without(s, gone, n) =~= without(s, gone, k) + without(s.skip(k), tail, n - k));
    }
}

/// With everything gone, nothing is left.
pub proof fn lemma_without_all<T>(s: Seq<T>, gone: spec_fn(int) -> bool, n: int)
    requires
        forall|k: int| 0 <= k < n ==> #[trigger] gone(k),
    ensures
        without(s, gone, n) == Seq::<T>::empty(),
    decreases n,
{
    if n > 0 {
        lemma_without_all(s, gone, n - 1);
    }
}

/// Only what is gone, and what stands there, matters.
pub proof fn lemma_without_cong<T>(
    s: Seq<T>,
    gone: spec_fn(int) -> bool,
    t: Seq<T>,
    other: spec_fn(int) -> bool,
    n: int,
)
    requires
        forall|k: int| 0 <= k < n ==> gone(k) == #[trigger] other(k) && (!gone(k) ==> s[k] == t[k]),
    ensures
        without(s, gone, n) == without(t, other, n),
    decreases n,
{
    if n > 0 {
        lemma_without_cong(s, gone, t, other, n - 1);
        assert(gone(n - 1) == other(n - 1));
    }
}

/// The first position from `from` on that holds `c`.
pub open spec fn index_of(s: Seq<char>, c: char, from: int) -> Option<int>
    decreases s.len() - from,
{
    if from < 0 || from >= s.len() {
        None
    } else if s[from] == c {
        Some(from)
    } else {
        index_of(s, c, from + 1)
    }
}

pub proof fn lemma_index_of(s: Seq<char>, c: char, from: int)
    requires
        0 <= from,
    ensures
        match index_of(s, c, from) {
            Some(k) => from <= k < s.len() && s[k] == c && forall|j: int|
                from <= j < k ==> #[trigger] s[j] != c,
            None => forall|j: int| from <= j < s.len() ==> #[trigger] s[j] != c,
        },
    decreases s.len() - from,
{
    if from < s.len() && s[from] != c {
        lemma_index_of(s, c, from + 1);
    }
}

pub fn find_char(s: &[char], c: char, from: usize) -> (r: Option<usize>)
    ensures
        match r {
            Some(k) => index_of(s@, c, from as int) == Some(k as int) && from <= k < s@.len()
                && s@[k as int] == c,
            None => index_of(s@, c, from as int) is None,
        },
{
    let mut i: usize = from;
    while i < s.len()
        invariant
            from <= i,
            index_of(s@, c, i as int) == index_of(s@, c, from as int),
        decreases s@.len() - i,
    {
        if s[i] == c {
            return Some(i);
        }
        i += 1;
    }
    None
}

/// How many times in a row `c` stands from position `i` on.
pub open spec fn run_len(s: Seq<char>, i: int, c: char) -> nat
    decreases s.len() - i,
{
    if 0 <= i < s.len() && s[i] == c {
        1 + run_len(s, i + 1, c)
    } else {
        0
    }
}

pub proof fn lemma_run_len(s: Seq<char>, i: int, c: char)
    requires
        0 <= i,
    ensures
        i <= s.len() ==> i + run_len(s, i, c) <= s.len(),
        forall|j: int| i <= j < i + run_len(s, i, c) ==> j < s.len() && #[trigger] s[j] == c,
        i + run_len(s, i, c) < s.len() ==> s[i + run_len(s, i, c)] != c,
    decreases s.len() - i,
{
    if i < s.len() && s[i] == c {
        lemma_run_len(s, i + 1, c);
    }
}

/// A run that ends inside a piece of text is the same in the piece alone.
pub proof fn lemma_run_len_skip(s: Seq<char>, k: int, i: int, c: char)
    requires
        0 <= k <= i <= s.len(),
    ensures
        run_len(s, i, c) == run_len(s.skip(k), i - k, c),
    decreases s.len() - i,
{
    if i < s.len() {
        assert(s.skip(k)[i - k] == s[i]);
        if s[i] == c {
            lemma_run_len_skip(s, k, i + 1, c);
        }
    }
}

/// Where a run ends is how long it is.
pub proof fn lemma_run_len_is(s: Seq<char>, i: int, c: char, n: nat)
    requires
        0 <= i,
        i + n <= s.len(),
        forall|j: int| i <= j < i + n ==> #[trigger] s[j] == c,
        i + n < s.len() ==> s[i + n] != c,
    ensures
        run_len(s, i, c) == n,
    decreases n,
{
    if n > 0 {
        assert(s[i] == c);
        lemma_run_len_is(s, i + 1, c, (n - 1) as nat);
    }
}

pub fn count_run(s: &[char], i: usize, c: char) -> (r: usize)
    requires
        i <= s@.len(),
    ensures
        r == run_len(s@, i as int, c),
        i + r <= s@.len(),
{
    let mut j: usize = i;
    while j < s.len() && s[j] == c
        invariant
            i <= j <= s@.len(),
            run_len(s@, i as int, c) == (j - i) + run_len(s@, j as int, c),
        decreases s@.len() - j,
    {
        j += 1;
    }
    j - i
}

pub fn has_char(s: &[char], c: char) -> (r: bool)
    ensures
        r == s@.contains(c),
{
    let mut i: usize = 0;
    while i < s.len()
        invariant
            i <= s@.len(),
            forall|j: int| 0 <= j < i ==> s@[j] != c,
        decreases s@.len() - i,
    {
        if s[i] == c {
            return true;
        }
        i += 1;
    }
    false
}

pub fn starts_with(s: &[char], prefix: &str) -> (r: bool)
    ensures
        r == prefix@.is_prefix_of(s@),
{
    let p: Vec<char> = chars_of(prefix);
    if p.len() > s.len() {
        return false;
    }
    let mut i: usize = 0;
    while i < p.len()
        invariant
            i <= p@.len() <= s@.len(),
            p@ == prefix@,
            forall|j: int| 0 <= j < i ==> s@[j] == p@[j],
        decreases p@.len() - i,
    {
        if s[i] != p[i] {
            assert(s@.subrange(0, p@.len() as int)[i as int] != p@[i as int]);
            return false;
        }
        i += 1;
    }
    assert(s@.subrange(0, p@.len() as int) =~= p@);
    true
}

pub fn eq_str(s: &[char], other: &str) -> (r: bool)
    ensures
        r == (s@ == other@),
{
    let p: Vec<char> = chars_of(other);
    if p.len() != s.len() {
        return false;
    }
    let r: bool = starts_with(s, other);
    assert(s@.subrange(0, s@.len() as int) =~= s@);
    r
}

/// One line without the carriage return before its line feed.
pub open spec fn without_cr(s: Seq<char>) -> Seq<char> {
    if s.len() > 0 && s.last() == '\r' {
        s.drop_last()
    } else {
        s
    }
}

/// The lines of `s`: line feeds end a line, a carriage return before one goes with
/// it, and what follows the last line feed is a line of its own unless it is empty.
pub open spec fn lines_of(s: Seq<char>) -> Seq<Seq<char>>
    decreases s.len(),
{
    if s.len() == 0 {
        Seq::empty()
    } else {
        proof {
            lemma_index_of(s, '\n', 0);
        }
        match index_of(s, '\n', 0) {
            None => seq![s],
            Some(k) => seq![without_cr(s.take(k))] + lines_of(s.skip(k + 1)),
        }
    }
}

/// The lines of `s`, as `str::lines` gives them.
pub fn split_lines(s: &[char]) -> (r: Vec<Vec<char>>)
    ensures
        views(r@) == lines_of(s@),
{
    let mut out: Vec<Vec<char>> = Vec::new();
    let mut i: usize = 0;
    assert(s@.skip(0) =~= s@);
    assert(views(out@) + lines_of(s@) =~= lines_of(s@));
    while i < s.len()
        invariant
            i <= s@.len(),
            views(out@) + lines_of(s@.skip(i as int)) == lines_of(s@),
        decreases s@.len() - i,
    {
        let ghost rest = s@.skip(i as int);
        let ghost before = views(out@);
        proof {
            lemma_index_of(rest, '\n', 0);
            lemma_index_of_skip(s@, '\n', i as int);
        }
        match find_char(s, '\n', i) {
            None => {
                let line: Vec<char> = vstd::slice::slice_to_vec(
                    vstd::slice::slice_subrange(s, i, s.len()),
                );
                assert(line@ =~= rest);
                out.push(line);
                i = s.len();
                assert(views(out@) =~= before.push(rest));
                assert(s@.skip(i as int) =~= Seq::<char>::empty());
                assert(views(out@) + lines_of(s@.skip(i as int)) =~= before + seq![rest]);
            },
            Some(k) => {
                let end: usize = if k > i && s[k - 1] == '\r' {
                    k - 1
                } else {
                    k
                };
                let line: Vec<char> = vstd::slice::slice_to_vec(
                    vstd::slice::slice_subrange(s, i, end),
                );
                let ghost first = without_cr(rest.take(k - i));
                assert(line@ =~= first);
                assert(rest.skip(k - i + 1) =~= s@.skip(k + 1));
                out.push(line);
                assert(views(out@) =~= before.push(first));
                i = k + 1;
                assert(views(out@) + lines_of(s@.skip(i as int)) =~= before + (seq![first]
                    + lines_of(s@.skip(i as int))));
            },
        }
    }
    assert(s@.skip(i as int) =~= Seq::<char>::empty());
    assert(views(out@) + lines_of(s@.skip(i as int)) =~= views(out@));
    out
}

/// Positions found in a suffix are the positions of the whole, shifted.
pub proof fn lemma_index_of_skip(s: Seq<char>, c: char, from: int)
    requires
        0 <= from <= s.len(),
    ensures
        match index_of(s, c, from) {
            Some(k) => index_of(s.skip(from), c, 0) == Some(k - from),
            None => index_of(s.skip(from), c, 0) is None,
        },
{
    lemma_index_of(s, c, from);
    lemma_index_of(s.skip(from), c, 0);
    let t = s.skip(from);
    match index_of(s, c, from) {
        Some(k) => {
            assert(t[k - from] == c);
            let m = index_of(t, c, 0)->0;
            assert(t[m] == s[m + from]);
        },
        None => {
            if index_of(t, c, 0) is Some {
                let m = index_of(t, c, 0)->0;
                assert(t[m] == s[m + from]);
            }
        },
    }
}

} // verus!

//! Block structure: lines that are dropped, and the markers that lines start with.

use crate::text;
use vstd::prelude::*;

verus! {

/// `s` starts with three `c`s.
pub open spec fn opens_with_three(s: Seq<char>, c: char) -> bool {
    s.len() >= 3 && s[0] == c && s[1] == c && s[2] == c
}

/// The fence character, if the trimmed line opens or closes a code fence.
pub open spec fn fence_of(t: Seq<char>) -> Option<char> {
    if opens_with_three(t, '`') {
        Some('`')
    } else if opens_with_three(t, '~') {
        Some('~')
    } else {
        None
    }
}

/// The fence character if `trimmed` opens or closes a code fence, else `None`.
pub fn fence_marker(trimmed: &[char]) -> (r: Option<char>)
    ensures
        r == fence_of(trimmed@),
{
    if trimmed.len() < 3 || trimmed[0] != trimmed[1] || trimmed[0] != trimmed[2] {
        None
    } else if trimmed[0] == '`' || trimmed[0] == '~' {
        Some(trimmed[0])
    } else {
        None
    }
}

/// The fence character, if the line stands for a code fence behind block markers. Backticks
/// that the same line closes again are inline code.
pub open spec fn bare_fence_of(t: Seq<char>) -> Option<char> {
    match fence_of(t) {
        Some(c) => if c == '`' && text::index_of(t, '`', text::run_len(t, 0, '`') as int) is Some {
            None
        } else {
            Some(c)
        },
        None => None,
    }
}

/// The fence character if what stands behind block markers is a code fence, else `None`.
pub fn bare_fence_marker(t: &[char]) -> (r: Option<char>)
    ensures
        r == bare_fence_of(t@),
{
    match fence_marker(t) {
        Some(c) => if c == '`' && text::find_char(t, '`', text::count_run(t, 0, '`')).is_some() {
            None
        } else {
            Some(c)
        },
        None => None,
    }
}

/// How often `c` occurs in `s`.
pub open spec fn occurrences(s: Seq<char>, c: char) -> nat
    decreases s.len(),
{
    if s.len() == 0 {
        0
    } else if s.last() == c {
        occurrences(s.drop_last(), c) + 1
    } else {
        occurrences(s.drop_last(), c)
    }
}

/// Three or more of `c`, and nothing else but spaces.
pub open spec fn is_rule_of(t: Seq<char>, c: char) -> bool {
    &&& occurrences(t, c) >= 3
    &&& forall|i: int| 0 <= i < t.len() ==> #[trigger] t[i] == c || t[i] == ' '
}

/// The trimmed line is a horizontal rule or a setext underline.
pub open spec fn is_rule_line(t: Seq<char>) -> bool {
    is_rule_of(t, '-') || is_rule_of(t, '*') || is_rule_of(t, '_') || is_rule_of(t, '=')
}

fn rule_of(trimmed: &[char], c: char) -> (r: bool)
    ensures
        r == is_rule_of(trimmed@, c),
{
    let mut count: usize = 0;
    let mut i: usize = 0;
    while i < trimmed.len()
        invariant
            i <= trimmed@.len(),
            count <= i,
            count == occurrences(trimmed@.take(i as int), c),
            forall|j: int| 0 <= j < i ==> #[trigger] trimmed@[j] == c || trimmed@[j] == ' ',
        decreases trimmed@.len() - i,
    {
        assert(trimmed@.take(i + 1).drop_last() =~= trimmed@.take(i as int));
        if trimmed[i] == c {
            count += 1;
        } else if trimmed[i] != ' ' {
            return false;
        }
        i += 1;
    }
    assert(trimmed@.take(i as int) =~= trimmed@);
    count >= 3
}

/// `---`, `***`, `___` (3+ of one marker, spaces allowed) or a setext `===` rule.
pub fn is_rule(trimmed: &[char]) -> (r: bool)
    ensures
        r == is_rule_line(trimmed@),
{
    rule_of(trimmed, '-') || rule_of(trimmed, '*') || rule_of(trimmed, '_') || rule_of(trimmed, '=')
}

/// `[ref]: …`, but not a footnote definition (`[^1]: …`), which carries real text.
pub open spec fn is_definition(t: Seq<char>) -> bool {
    &&& t.len() > 0 && t[0] == '['
    &&& !(t.len() > 1 && t[1] == '^')
    &&& match text::index_of(t, ']', 1) {
        Some(close) => close + 1 < t.len() && t[close + 1] == ':',
        None => false,
    }
}

/// `[ref]: https://…` — a definition line, never spoken prose.
pub fn is_link_definition(trimmed: &[char]) -> (r: bool)
    ensures
        r == is_definition(trimmed@),
{
    if trimmed.len() == 0 || trimmed[0] != '[' {
        return false;
    }
    if trimmed.len() > 1 && trimmed[1] == '^' {
        return false;
    }
    match text::find_char(trimmed, ']', 1) {
        Some(close) => close + 1 < trimmed.len() && trimmed[close + 1] == ':',
        None => false,
    }
}

/// `s` without blockquote markers, nested ones included.
pub open spec fn unquoted(s: Seq<char>) -> Seq<char>
    decreases s.len(),
{
    if s.len() > 0 && s[0] == '>' {
        proof {
            text::lemma_trimmed_start_len(s.drop_first());
        }
        unquoted(text::trimmed_start(s.drop_first()))
    } else {
        s
    }
}

/// One to six hashes, then whitespace or the end of the line.
pub open spec fn is_heading(s: Seq<char>) -> bool {
    let n = text::run_len(s, 0, '#') as int;
    1 <= n <= 6 && (n == s.len() || text::is_space(s[n]))
}

/// The punctuation after which a heading needs no period.
pub open spec fn ends_a_heading(c: char) -> bool {
    c == '.' || c == '!' || c == '?' || c == ':' || c == ';' || c == ','
}

/// A heading without its closing hashes. An escaped hash is not one of them.
pub open spec fn unclosed(s: Seq<char>) -> Seq<char>
    decreases s.len(),
{
    if s.len() > 0 && s.last() == '#' && !(s.len() > 1 && s[s.len() - 2] == '\\') {
        unclosed(s.drop_last())
    } else {
        s
    }
}

/// The text of a heading, without the hashes around it.
pub open spec fn heading_body(s: Seq<char>) -> Seq<char> {
    text::trimmed(unclosed(text::trimmed(s.skip(text::run_len(s, 0, '#') as int))))
}

/// A heading as a sentence of its own.
pub open spec fn heading_sentence(s: Seq<char>) -> Seq<char> {
    let body = heading_body(s);
    if body.len() == 0 || ends_a_heading(body.last()) {
        body
    } else {
        body.push('.')
    }
}

/// A run of one bullet character, then whitespace.
pub open spec fn is_bullet(s: Seq<char>) -> bool {
    &&& s.len() > 0
    &&& s[0] == '-' || s[0] == '*' || s[0] == '+'
    &&& text::run_len(s, 0, s[0]) < s.len()
    &&& text::is_space(s[text::run_len(s, 0, s[0]) as int])
}

/// A task list checkbox starts the text of a list item.
pub open spec fn has_checkbox(s: Seq<char>) -> bool {
    s.len() >= 3 && s[0] == '[' && (s[1] == ' ' || s[1] == 'x' || s[1] == 'X') && s[2] == ']'
}

/// A list item without its bullet and checkbox; other text as it is.
pub open spec fn unbulleted(s: Seq<char>) -> Seq<char> {
    if is_bullet(s) {
        let item = text::trimmed_start(s.skip(text::run_len(s, 0, s[0]) as int));
        if has_checkbox(item) {
            text::trimmed_start(item.skip(3))
        } else {
            item
        }
    } else {
        s
    }
}

/// The first position from `i` on where `]:` stands.
pub open spec fn label_end(s: Seq<char>, i: int) -> Option<int>
    decreases s.len() - i,
{
    if i < 0 || i + 1 >= s.len() {
        None
    } else if s[i] == ']' && s[i + 1] == ':' {
        Some(i)
    } else {
        label_end(s, i + 1)
    }
}

/// A footnote definition without its label; other text as it is.
pub open spec fn unlabelled(s: Seq<char>) -> Seq<char> {
    if s.len() >= 2 && s[0] == '[' && s[1] == '^' && label_end(s, 2) is Some {
        text::trimmed_start(s.skip(label_end(s, 2)->0 + 2))
    } else {
        s
    }
}

/// A line without the block marker it starts with: its quote markers, and then the hashes
/// of a heading, or a bullet and a footnote label.
pub open spec fn advanced(line: Seq<char>) -> Seq<char> {
    let s = unquoted(text::trimmed_start(line));
    if is_heading(s) {
        heading_sentence(s)
    } else {
        unlabelled(unbulleted(s))
    }
}

/// A line without the block markers it starts with, one behind the other until none is left.
pub open spec fn unprefixed(line: Seq<char>) -> Seq<char>
    decreases line.len(),
{
    let s = advanced(line);
    if s.len() < line.len() {
        unprefixed(s)
    } else {
        s
    }
}

fn unquote(line: &[char]) -> (r: &[char])
    ensures
        r@ == unquoted(text::trimmed_start(line@)),
{
    let mut s: &[char] = text::trim_start(line);
    while s.len() > 0 && s[0] == '>'
        invariant
            unquoted(s@) == unquoted(text::trimmed_start(line@)),
        decreases s@.len(),
    {
        proof {
            text::lemma_trimmed_start_len(s@.drop_first());
            assert(s@.subrange(1, s@.len() as int) =~= s@.drop_first());
        }
        s = text::trim_start(vstd::slice::slice_subrange(s, 1, s.len()));
    }
    s
}

fn unclose(s: &[char]) -> (r: &[char])
    ensures
        r@ == unclosed(s@),
{
    let mut n: usize = s.len();
    assert(s@.take(n as int) =~= s@);
    while n > 0 && s[n - 1] == '#' && !(n > 1 && s[n - 2] == '\\')
        invariant
            n <= s@.len(),
            unclosed(s@.take(n as int)) == unclosed(s@),
        decreases n,
    {
        assert(s@.take(n as int).drop_last() =~= s@.take(n - 1));
        n -= 1;
    }
    assert(s@.subrange(0, n as int) =~= s@.take(n as int));
    vstd::slice::slice_subrange(s, 0, n)
}

fn heading(s: &[char], hashes: usize) -> (r: Vec<char>)
    requires
        hashes <= s@.len(),
        hashes == text::run_len(s@, 0, '#'),
    ensures
        r@ == heading_sentence(s@),
{
    assert(s@.subrange(hashes as int, s@.len() as int) =~= s@.skip(hashes as int));
    let rest: &[char] = vstd::slice::slice_subrange(s, hashes, s.len());
    let body: &[char] = text::trim(unclose(text::trim(rest)));
    let mut out: Vec<char> = vstd::slice::slice_to_vec(body);
    if body.len() == 0 {
        return out;
    }
    let last: char = body[body.len() - 1];
    if !(last == '.' || last == '!' || last == '?' || last == ':' || last == ';' || last == ',') {
        out.push('.');
    }
    out
}

fn unbullet(s: &[char]) -> (r: &[char])
    ensures
        r@ == unbulleted(s@),
{
    if s.len() == 0 || !(s[0] == '-' || s[0] == '*' || s[0] == '+') {
        return s;
    }
    let run: usize = text::count_run(s, 0, s[0]);
    if run >= s.len() || !text::is_whitespace(s[run]) {
        return s;
    }
    assert(s@.subrange(run as int, s@.len() as int) =~= s@.skip(run as int));
    let item: &[char] = text::trim_start(vstd::slice::slice_subrange(s, run, s.len()));
    if item.len() >= 3 && item[0] == '[' && (item[1] == ' ' || item[1] == 'x' || item[1] == 'X')
        && item[2] == ']' {
        assert(item@.subrange(3, item@.len() as int) =~= item@.skip(3));
        text::trim_start(vstd::slice::slice_subrange(item, 3, item.len()))
    } else {
        item
    }
}

fn unlabel(s: &[char]) -> (r: &[char])
    ensures
        r@ == unlabelled(s@),
{
    if s.len() < 2 || s[0] != '[' || s[1] != '^' {
        return s;
    }
    let mut i: usize = 2;
    while i < s.len() - 1
        invariant
            2 <= i,
            2 <= s@.len(),
            s@[0] == '[',
            s@[1] == '^',
            label_end(s@, i as int) == label_end(s@, 2),
        decreases s@.len() - i,
    {
        if s[i] == ']' && s[i + 1] == ':' {
            assert(s@.subrange(i + 2, s@.len() as int) =~= s@.skip(i + 2));
            return text::trim_start(vstd::slice::slice_subrange(s, i + 2, s.len()));
        }
        i += 1;
    }
    s
}

fn advance(line: &[char]) -> (r: Vec<char>)
    ensures
        r@ == advanced(line@),
{
    let s: &[char] = unquote(line);
    let hashes: usize = text::count_run(s, 0, '#');
    if 1 <= hashes && hashes <= 6 && (hashes == s.len() || text::is_whitespace(s[hashes])) {
        return heading(s, hashes);
    }
    vstd::slice::slice_to_vec(unlabel(unbullet(s)))
}

/// Remove leading block markers: blockquote `>`, heading `#`, list bullets, task
/// checkboxes, footnote-definition labels. Ordered-list markers (`1.`) are kept — the
/// number is meaningful when you're listening rather than looking.
///
/// A bullet is a run of markers, not just one: nested bullets are often written
/// `** item`. The whitespace after it is what keeps `*emphasis*` and `-5 degrees` intact.
/// Markers may follow one another (`- - item`, `- # title`), and all of them go.
pub fn strip_block_prefixes(line: &[char]) -> (r: Vec<char>)
    ensures
        r@ == unprefixed(line@),
{
    let mut before: usize = line.len();
    let mut s: Vec<char> = advance(line);
    while s.len() < before
        invariant
            unprefixed(line@) == (if s@.len() < before {
                unprefixed(s@)
            } else {
                s@
            }),
        decreases before,
    {
        before = s.len();
        s = advance(s.as_slice());
    }
    s
}

} // verus!

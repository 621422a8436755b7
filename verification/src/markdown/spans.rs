//! Inline markup of one line: images, links, code spans and HTML.
//!
//! A rule opens by what is seen of a text, where escaped characters are no markup; from there
//! on it goes by the inside view, where they are characters like any other.

use crate::markdown::glyphs::{look, look_inside, mark_escapes, to_code, Glyph};
use crate::markdown::glyphs;
use crate::text;
use vstd::prelude::*;

verus! {

/// How many more `[` than `]` stand in positions `from..to`.
pub open spec fn depth(s: Seq<char>, from: int, to: int) -> int
    decreases to - from,
{
    if to <= from {
        0
    } else if s[to - 1] == '[' {
        depth(s, from, to - 1) + 1
    } else if s[to - 1] == ']' {
        depth(s, from, to - 1) - 1
    } else {
        depth(s, from, to - 1)
    }
}

/// The first position from `i` on where the brackets counted from `open` balance.
pub open spec fn balance_from(s: Seq<char>, open: int, i: int) -> Option<int>
    decreases s.len() - i,
{
    if i < 0 || i >= s.len() {
        None
    } else if depth(s, open, i + 1) == 0 {
        Some(i)
    } else {
        balance_from(s, open, i + 1)
    }
}

/// The `]` that closes the `[` at `open`.
pub open spec fn closing_bracket(s: Seq<char>, open: int) -> Option<int> {
    balance_from(s, open, open)
}

/// `[text](…)` or `[text][…]` at `open`: the position of the `]` after the text, and the
/// position just past the whole. The target must follow the text immediately, and ends with the
/// first bracket that is seen inside.
pub open spec fn link_at(s: Seq<char>, inner: Seq<char>, open: int) -> Option<(int, int)> {
    match closing_bracket(s, open) {
        None => None,
        Some(close) => if close + 1 >= s.len() {
            None
        } else if s[close + 1] == '(' {
            match text::index_of(inner, ')', close + 1) {
                Some(end) => Some((close, end + 1)),
                None => None,
            }
        } else if s[close + 1] == '[' {
            match text::index_of(inner, ']', close + 1) {
                Some(end) => Some((close, end + 1)),
                None => None,
            }
        } else {
            None
        },
    }
}

pub proof fn lemma_balance_from(s: Seq<char>, open: int, i: int)
    ensures
        match balance_from(s, open, i) {
            Some(k) => i <= k < s.len() && depth(s, open, k + 1) == 0,
            None => true,
        },
    decreases s.len() - i,
{
    if 0 <= i < s.len() && depth(s, open, i + 1) != 0 {
        lemma_balance_from(s, open, i + 1);
    }
}

pub proof fn lemma_link_at(s: Seq<char>, inner: Seq<char>, open: int)
    requires
        inner.len() == s.len(),
        0 <= open < s.len(),
        s[open] == '[',
    ensures
        match link_at(s, inner, open) {
            Some((close, end)) => open < close && close + 2 < end + 1 <= s.len() + 1,
            None => true,
        },
{
    lemma_balance_from(s, open, open);
    reveal_with_fuel(depth, 2);
    match closing_bracket(s, open) {
        Some(close) => {
            text::lemma_index_of(inner, ')', close + 1);
            text::lemma_index_of(inner, ']', close + 1);
        },
        None => {},
    }
}

/// Match `[text](…)` or `[text][…]` starting at `open` (which must be a `[`). Returns the
/// position that ends the text and the position just past the whole construct.
fn bracketed_link(chars: &[char], inner: &[char], open: usize) -> (r: Option<(usize, usize)>)
    requires
        inner@.len() == chars@.len(),
        open < chars@.len(),
        chars@[open as int] == '[',
    ensures
        match r {
            Some((close, end)) => link_at(chars@, inner@, open as int) == Some(
                (close as int, end as int),
            ) && open < close < end <= chars@.len(),
            None => link_at(chars@, inner@, open as int) is None,
        },
{
    let mut level: usize = 0;
    let mut i: usize = open;
    proof {
        lemma_link_at(chars@, inner@, open as int);
    }
    while i < chars.len()
        invariant
            open <= i <= chars@.len() == inner@.len(),
            open < chars@.len(),
            chars@[open as int] == '[',
            level == depth(chars@, open as int, i as int),
            level <= i - open,
            i > open ==> level >= 1,
            closing_bracket(chars@, open as int) == balance_from(chars@, open as int, i as int),
            match link_at(chars@, inner@, open as int) {
                Some((close, end)) => open < close && close + 2 < end + 1 <= chars@.len() + 1,
                None => true,
            },
        decreases chars@.len() - i,
    {
        let c: char = chars[i];
        if c == '[' {
            level += 1;
        } else if c == ']' {
            level -= 1;
            if level == 0 {
                if i + 1 >= chars.len() {
                    return None;
                }
                let target: char = if chars[i + 1] == '(' {
                    ')'
                } else if chars[i + 1] == '[' {
                    ']'
                } else {
                    return None;
                };
                return match text::find_char(inner, target, i + 1) {
                    Some(end) => Some((i, end + 1)),
                    None => None,
                };
            }
        }
        i += 1;
    }
    None
}

/// The image that starts at `i`: the position just past it.
pub open spec fn image_at(g: Seq<Glyph>, i: int) -> Option<int> {
    let s = glyphs::seen(g);
    if 0 <= i && i + 1 < s.len() && s[i] == '!' && s[i + 1] == '[' {
        match link_at(s, glyphs::inside(g), i + 1) {
            Some((close, end)) => Some(end),
            None => None,
        }
    } else {
        None
    }
}

pub proof fn lemma_image_at(g: Seq<Glyph>, i: int)
    ensures
        image_at(g, i) matches Some(end) ==> i < end <= g.len(),
{
    let s = glyphs::seen(g);
    if 0 <= i && i + 1 < s.len() && s[i + 1] == '[' {
        lemma_link_at(s, glyphs::inside(g), i + 1);
    }
}

/// `g` from `i` on without its images.
pub open spec fn imageless_from(g: Seq<Glyph>, i: int) -> Seq<Glyph>
    decreases g.len() - i,
{
    if i < 0 || i >= g.len() {
        Seq::empty()
    } else if image_at(g, i) is Some {
        proof {
            lemma_image_at(g, i);
        }
        imageless_from(g, image_at(g, i)->0)
    } else {
        seq![g[i]] + imageless_from(g, i + 1)
    }
}

/// The glyphs that are left without the images.
pub open spec fn imageless(g: Seq<Glyph>) -> Seq<Glyph> {
    imageless_from(g, 0)
}

/// `![alt](url)` and `![alt][ref]` — dropped whole, alt text included.
pub fn strip_images(g: &[Glyph]) -> (r: Vec<Glyph>)
    ensures
        r@ == imageless(g@),
{
    let chars: Vec<char> = look(g);
    let chars: &[char] = chars.as_slice();
    let inner: Vec<char> = look_inside(g);
    let inner: &[char] = inner.as_slice();
    let mut out: Vec<Glyph> = Vec::new();
    let mut i: usize = 0;
    assert(out@ + imageless_from(g@, 0) =~= imageless(g@));
    while i < g.len()
        invariant
            i <= g@.len(),
            chars@ == glyphs::seen(g@),
            inner@ == glyphs::inside(g@),
            out@ + imageless_from(g@, i as int) == imageless(g@),
        decreases g@.len() - i,
    {
        if chars[i] == '!' && i + 1 < chars.len() && chars[i + 1] == '[' {
            if let Some((_, end)) = bracketed_link(chars, inner, i + 1) {
                i = end;
                continue;
            }
        }
        let ghost before = out@;
        out.push(g[i]);
        assert(out@ + imageless_from(g@, i + 1) =~= before + (seq![g@[i as int]]
            + imageless_from(g@, i + 1)));
        i += 1;
    }
    assert(out@ + imageless_from(g@, i as int) =~= out@);
    out
}

/// What stands between `<` and `>` is an address, not text.
pub open spec fn is_autolink(inner: Seq<char>) -> bool {
    ||| "http://"@.is_prefix_of(inner)
    ||| "https://"@.is_prefix_of(inner)
    ||| inner.contains('@') && !inner.contains(' ')
}

/// The address in angle brackets that starts at `i`: the position just past it.
pub open spec fn autolink_at(g: Seq<Glyph>, i: int) -> Option<int> {
    let inner = glyphs::inside(g);
    if 0 <= i < g.len() && glyphs::seen(g)[i] == '<' {
        match text::index_of(inner, '>', i) {
            Some(close) => if is_autolink(inner.subrange(i + 1, close)) {
                Some(close + 1)
            } else {
                None
            },
            None => None,
        }
    } else {
        None
    }
}

pub proof fn lemma_autolink_at(g: Seq<Glyph>, i: int)
    ensures
        autolink_at(g, i) matches Some(end) ==> i < end <= g.len(),
{
    if 0 <= i {
        text::lemma_index_of(glyphs::inside(g), '>', i);
    }
}

/// `g` from `i` on with its links reduced to their text.
pub open spec fn linkless_from(g: Seq<Glyph>, i: int) -> Seq<Glyph>
    decreases g.len() - i,
{
    if i < 0 || i >= g.len() {
        Seq::empty()
    } else if glyphs::seen(g)[i] == '[' && link_at(glyphs::seen(g), glyphs::inside(g), i) is Some {
        proof {
            lemma_link_at(glyphs::seen(g), glyphs::inside(g), i);
        }
        let (close, end) = link_at(glyphs::seen(g), glyphs::inside(g), i)->0;
        g.subrange(i + 1, close) + linkless_from(g, end)
    } else if autolink_at(g, i) is Some {
        proof {
            lemma_autolink_at(g, i);
        }
        linkless_from(g, autolink_at(g, i)->0)
    } else {
        seq![g[i]] + linkless_from(g, i + 1)
    }
}

/// The glyphs that are left with the links reduced to their text.
pub open spec fn linkless(g: Seq<Glyph>) -> Seq<Glyph> {
    linkless_from(g, 0)
}

/// `[text](url)` / `[text][ref]` -> `text`; `<https://…>` autolinks are dropped.
pub fn strip_links(g: &[Glyph]) -> (r: Vec<Glyph>)
    ensures
        r@ == linkless(g@),
{
    let chars: Vec<char> = look(g);
    let chars: &[char] = chars.as_slice();
    let inner: Vec<char> = look_inside(g);
    let inner: &[char] = inner.as_slice();
    let mut out: Vec<Glyph> = Vec::new();
    let mut i: usize = 0;
    assert(out@ + linkless_from(g@, 0) =~= linkless(g@));
    while i < g.len()
        invariant
            i <= g@.len(),
            chars@ == glyphs::seen(g@),
            inner@ == glyphs::inside(g@),
            out@ + linkless_from(g@, i as int) == linkless(g@),
        decreases g@.len() - i,
    {
        let ghost before = out@;
        if chars[i] == '[' {
            if let Some((close, end)) = bracketed_link(chars, inner, i) {
                text::append_chars(&mut out, vstd::slice::slice_subrange(g, i + 1, close));
                assert(out@ + linkless_from(g@, end as int) =~= before + (g@.subrange(
                    i + 1,
                    close as int,
                ) + linkless_from(g@, end as int)));
                i = end;
                continue;
            }
        }
        if chars[i] == '<' {
            if let Some(close) = text::find_char(inner, '>', i) {
                let address: &[char] = vstd::slice::slice_subrange(inner, i + 1, close);
                if text::starts_with(address, "http://") || text::starts_with(address, "https://")
                    || (text::has_char(address, '@') && !text::has_char(address, ' ')) {
                    i = close + 1;
                    continue;
                }
            }
        }
        out.push(g[i]);
        assert(out@ + linkless_from(g@, i + 1) =~= before + (seq![g@[i as int]]
            + linkless_from(g@, i + 1)));
        i += 1;
    }
    assert(out@ + linkless_from(g@, i as int) =~= out@);
    out
}

/// A run of exactly `n` backticks starts at `j`.
pub open spec fn is_tick_run(s: Seq<char>, j: int, n: nat) -> bool {
    &&& 0 < j < s.len()
    &&& s[j] == '`'
    &&& s[j - 1] != '`'
    &&& text::run_len(s, j, '`') == n
}

/// The first position from `j` on where a run of exactly `n` backticks starts.
pub open spec fn closing_ticks(s: Seq<char>, j: int, n: nat) -> Option<int>
    decreases s.len() - j,
{
    if j < 0 || j >= s.len() {
        None
    } else if is_tick_run(s, j, n) {
        Some(j)
    } else {
        closing_ticks(s, j + 1, n)
    }
}

pub proof fn lemma_closing_ticks(s: Seq<char>, j: int, n: nat)
    ensures
        match closing_ticks(s, j, n) {
            Some(k) => j <= k && is_tick_run(s, k, n),
            None => forall|k: int| 0 <= j <= k ==> !is_tick_run(s, k, n),
        },
    decreases s.len() - j,
{
    if 0 <= j < s.len() && !is_tick_run(s, j, n) {
        lemma_closing_ticks(s, j + 1, n);
    }
}

/// The code span that starts at `i`: the length of its fences, and where the closing one stands.
pub open spec fn code_at(g: Seq<Glyph>, i: int) -> Option<(nat, int)> {
    let n = text::run_len(glyphs::seen(g), i, '`');
    if n > 0 {
        match closing_ticks(glyphs::inside(g), i + n, n) {
            Some(close) => Some((n, close)),
            None => None,
        }
    } else {
        None
    }
}

pub proof fn lemma_code_at(g: Seq<Glyph>, i: int)
    requires
        0 <= i,
    ensures
        code_at(g, i) matches Some((n, close)) ==> n > 0 && i + n <= close && close + n <= g.len(),
{
    let n = text::run_len(glyphs::seen(g), i, '`');
    let inner = glyphs::inside(g);
    lemma_closing_ticks(inner, i + n, n);
    if closing_ticks(inner, i + n, n) is Some {
        text::lemma_run_len(inner, closing_ticks(inner, i + n, n)->0, '`');
    }
}

/// `g` from `i` on without the backticks around its code spans.
pub open spec fn tickless_from(g: Seq<Glyph>, i: int) -> Seq<Glyph>
    decreases g.len() - i,
{
    if i < 0 || i >= g.len() {
        Seq::empty()
    } else if code_at(g, i) is Some {
        proof {
            lemma_code_at(g, i);
        }
        let (n, close) = code_at(g, i)->0;
        glyphs::as_code(g).subrange(i + n, close) + tickless_from(g, close + n)
    } else {
        seq![g[i]] + tickless_from(g, i + 1)
    }
}

/// The glyphs that are left without the backticks around code spans. What stands in them is
/// code from here on.
pub open spec fn tickless(g: Seq<Glyph>) -> Seq<Glyph> {
    tickless_from(g, 0)
}

fn find_closing_ticks(chars: &[char], from: usize, ticks: usize) -> (r: Option<usize>)
    requires
        0 < from <= chars@.len(),
    ensures
        match r {
            Some(k) => closing_ticks(chars@, from as int, ticks as nat) == Some(k as int) && from
                <= k,
            None => closing_ticks(chars@, from as int, ticks as nat) is None,
        },
{
    let mut j: usize = from;
    while j < chars.len()
        invariant
            0 < from <= j <= chars@.len(),
            closing_ticks(chars@, j as int, ticks as nat) == closing_ticks(
                chars@,
                from as int,
                ticks as nat,
            ),
        decreases chars@.len() - j,
    {
        if chars[j] == '`' && chars[j - 1] != '`' && text::count_run(chars, j, '`') == ticks {
            return Some(j);
        }
        j += 1;
    }
    None
}

/// `` `code` `` and ``` ``code`` ``` -> `code`. The content is kept as it is: inline code is
/// usually a function or file name that belongs in the sentence, so only the backticks go.
pub fn strip_code_spans(g: &[Glyph]) -> (r: Vec<Glyph>)
    ensures
        r@ == tickless(g@),
{
    let chars: Vec<char> = look(g);
    let chars: &[char] = chars.as_slice();
    let inner: Vec<char> = look_inside(g);
    let code: Vec<Glyph> = to_code(g);
    let mut out: Vec<Glyph> = Vec::new();
    let mut i: usize = 0;
    assert(out@ + tickless_from(g@, 0) =~= tickless(g@));
    while i < g.len()
        invariant
            i <= g@.len(),
            chars@ == glyphs::seen(g@),
            inner@ == glyphs::inside(g@),
            code@ == glyphs::as_code(g@),
            out@ + tickless_from(g@, i as int) == tickless(g@),
        decreases g@.len() - i,
    {
        let ghost before = out@;
        if chars[i] == '`' {
            let ticks: usize = text::count_run(chars, i, '`');
            if let Some(close) = find_closing_ticks(inner.as_slice(), i + ticks, ticks) {
                proof {
                    lemma_code_at(g@, i as int);
                }
                text::append_chars(
                    &mut out,
                    vstd::slice::slice_subrange(code.as_slice(), i + ticks, close),
                );
                assert(out@ + tickless_from(g@, close + ticks) =~= before + (glyphs::as_code(
                    g@,
                ).subrange(i + ticks, close as int) + tickless_from(g@, close + ticks)));
                i = close + ticks;
                continue;
            }
        }
        out.push(g[i]);
        assert(out@ + tickless_from(g@, i + 1) =~= before + (seq![g@[i as int]] + tickless_from(
            g@,
            i + 1,
        )));
        i += 1;
    }
    assert(out@ + tickless_from(g@, i as int) =~= out@);
    out
}

/// Block and inline tags that actually turn up in markdown prose. Deliberately not
/// exhaustive: an unlisted tag is read aloud, which is the safe failure.
pub open spec fn is_known_tag(name: Seq<char>) -> bool {
    ||| name == "a"@
    ||| name == "abbr"@
    ||| name == "b"@
    ||| name == "blockquote"@
    ||| name == "br"@
    ||| name == "caption"@
    ||| name == "center"@
    ||| name == "cite"@
    ||| name == "code"@
    ||| name == "dd"@
    ||| name == "details"@
    ||| name == "div"@
    ||| name == "dl"@
    ||| name == "dt"@
    ||| name == "em"@
    ||| name == "figcaption"@
    ||| name == "figure"@
    ||| name == "font"@
    ||| name == "h1"@
    ||| name == "h2"@
    ||| name == "h3"@
    ||| name == "h4"@
    ||| name == "h5"@
    ||| name == "h6"@
    ||| name == "hr"@
    ||| name == "i"@
    ||| name == "img"@
    ||| name == "kbd"@
    ||| name == "li"@
    ||| name == "mark"@
    ||| name == "ol"@
    ||| name == "p"@
    ||| name == "picture"@
    ||| name == "pre"@
    ||| name == "q"@
    ||| name == "s"@
    ||| name == "samp"@
    ||| name == "small"@
    ||| name == "span"@
    ||| name == "strong"@
    ||| name == "sub"@
    ||| name == "summary"@
    ||| name == "sup"@
    ||| name == "table"@
    ||| name == "tbody"@
    ||| name == "td"@
    ||| name == "tfoot"@
    ||| name == "th"@
    ||| name == "thead"@
    ||| name == "tr"@
    ||| name == "u"@
    ||| name == "ul"@
    ||| name == "var"@
    ||| name == "video"@
}

fn known_tag(name: &[char]) -> (r: bool)
    ensures
        r == is_known_tag(name@),
{
    text::eq_str(name, "a") || text::eq_str(name, "abbr") || text::eq_str(name, "b")
        || text::eq_str(name, "blockquote") || text::eq_str(name, "br") || text::eq_str(
        name,
        "caption",
    ) || text::eq_str(name, "center") || text::eq_str(name, "cite") || text::eq_str(name, "code")
        || text::eq_str(name, "dd") || text::eq_str(name, "details") || text::eq_str(name, "div")
        || text::eq_str(name, "dl") || text::eq_str(name, "dt") || text::eq_str(name, "em")
        || text::eq_str(name, "figcaption") || text::eq_str(name, "figure") || text::eq_str(
        name,
        "font",
    ) || text::eq_str(name, "h1") || text::eq_str(name, "h2") || text::eq_str(name, "h3")
        || text::eq_str(name, "h4") || text::eq_str(name, "h5") || text::eq_str(name, "h6")
        || text::eq_str(name, "hr") || text::eq_str(name, "i") || text::eq_str(name, "img")
        || text::eq_str(name, "kbd") || text::eq_str(name, "li") || text::eq_str(name, "mark")
        || text::eq_str(name, "ol") || text::eq_str(name, "p") || text::eq_str(name, "picture")
        || text::eq_str(name, "pre") || text::eq_str(name, "q") || text::eq_str(name, "s")
        || text::eq_str(name, "samp") || text::eq_str(name, "small") || text::eq_str(name, "span")
        || text::eq_str(name, "strong") || text::eq_str(name, "sub") || text::eq_str(
        name,
        "summary",
    ) || text::eq_str(name, "sup") || text::eq_str(name, "table") || text::eq_str(name, "tbody")
        || text::eq_str(name, "td") || text::eq_str(name, "tfoot") || text::eq_str(name, "th")
        || text::eq_str(name, "thead") || text::eq_str(name, "tr") || text::eq_str(name, "u")
        || text::eq_str(name, "ul") || text::eq_str(name, "var") || text::eq_str(name, "video")
}

/// The length of what stands before the first space, tab or `=`, counting from `i`.
pub open spec fn name_end(s: Seq<char>, i: int) -> int
    decreases s.len() - i,
{
    if i < 0 || i >= s.len() || s[i] == ' ' || s[i] == '\t' || s[i] == '=' {
        i
    } else {
        name_end(s, i + 1)
    }
}

/// The tag name inside `<…>`, in lower case, without slashes and attributes.
pub open spec fn tag_name(inner: Seq<char>) -> Seq<char> {
    let bare = text::trimmed(text::stripped_end(text::stripped_start(inner, '/'), '/'));
    bare.take(name_end(bare, 0)).map_values(|c: char| text::ascii_lower(c))
}

/// What stands between `<` and `>` is an HTML comment or a known tag. A space after the
/// `<` makes it a comparison.
pub open spec fn is_html(inner: Seq<char>) -> bool {
    ||| "!--"@.is_prefix_of(inner)
    ||| !(inner.len() > 0 && text::is_space(inner[0])) && is_known_tag(tag_name(inner))
}

/// The inside of a `<…>`: an HTML comment, or a known tag name (optionally closing,
/// optionally self-closing, optionally carrying attributes).
pub fn is_html_tag(inner: &[char]) -> (r: bool)
    ensures
        r == is_html(inner@),
{
    if text::starts_with(inner, "!--") {
        return true;
    }
    if inner.len() > 0 && text::is_whitespace(inner[0]) {
        return false;
    }
    let bare: &[char] = text::trim(text::trim_end_char(text::trim_start_char(inner, '/'), '/'));
    let mut n: usize = 0;
    while n < bare.len() && bare[n] != ' ' && bare[n] != '\t' && bare[n] != '='
        invariant
            n <= bare@.len(),
            name_end(bare@, n as int) == name_end(bare@, 0),
        decreases bare@.len() - n,
    {
        n += 1;
    }
    assert(bare@.subrange(0, n as int) =~= bare@.take(n as int));
    let name: Vec<char> = text::to_ascii_lower(vstd::slice::slice_subrange(bare, 0, n));
    known_tag(name.as_slice())
}

/// `<!--` stands at `i`.
pub open spec fn opens_comment(s: Seq<char>, i: int) -> bool {
    0 <= i && i + 4 <= s.len() && s[i] == '<' && s[i + 1] == '!' && s[i + 2] == '-' && s[i + 3]
        == '-'
}

/// `-->` stands at `j`.
pub open spec fn closes_comment(s: Seq<char>, j: int) -> bool {
    0 <= j && j + 3 <= s.len() && s[j] == '-' && s[j + 1] == '-' && s[j + 2] == '>'
}

/// The first position from `j` on where `-->` stands.
pub open spec fn comment_close(s: Seq<char>, j: int) -> Option<int>
    decreases s.len() - j,
{
    if j < 0 || j >= s.len() {
        None
    } else if closes_comment(s, j) {
        Some(j)
    } else {
        comment_close(s, j + 1)
    }
}

pub proof fn lemma_comment_close(s: Seq<char>, j: int)
    ensures
        match comment_close(s, j) {
            Some(k) => j <= k && closes_comment(s, k),
            None => true,
        },
    decreases s.len() - j,
{
    if 0 <= j < s.len() && !closes_comment(s, j) {
        lemma_comment_close(s, j + 1);
    }
}

/// The tag or comment that starts at `i`: the position just past it. A comment ends with the
/// next `-->`; a tag, and a comment without one, with the next `>`.
pub open spec fn tag_at(g: Seq<Glyph>, i: int) -> Option<int> {
    let inner = glyphs::inside(g);
    if !(0 <= i < g.len() && glyphs::seen(g)[i] == '<') {
        None
    } else if opens_comment(inner, i) && comment_close(inner, i + 4) is Some {
        Some(comment_close(inner, i + 4)->0 + 3)
    } else if text::index_of(inner, '>', i) is Some && is_html(
        inner.subrange(i + 1, text::index_of(inner, '>', i)->0),
    ) {
        Some(text::index_of(inner, '>', i)->0 + 1)
    } else {
        None
    }
}

pub proof fn lemma_tag_at(g: Seq<Glyph>, i: int)
    ensures
        tag_at(g, i) matches Some(end) ==> i < end <= g.len(),
{
    lemma_comment_close(glyphs::inside(g), i + 4);
    if 0 <= i {
        text::lemma_index_of(glyphs::inside(g), '>', i);
    }
}

/// `g` from `i` on without its HTML tags and comments.
pub open spec fn tagless_from(g: Seq<Glyph>, i: int) -> Seq<Glyph>
    decreases g.len() - i,
{
    if i < 0 || i >= g.len() {
        Seq::empty()
    } else if tag_at(g, i) is Some {
        proof {
            lemma_tag_at(g, i);
        }
        tagless_from(g, tag_at(g, i)->0)
    } else {
        seq![g[i]] + tagless_from(g, i + 1)
    }
}

/// The glyphs that are left without HTML tags and comments.
pub open spec fn tagless(g: Seq<Glyph>) -> Seq<Glyph> {
    tagless_from(g, 0)
}

fn find_comment_close(chars: &[char], from: usize) -> (r: Option<usize>)
    ensures
        match r {
            Some(k) => comment_close(chars@, from as int) == Some(k as int) && k + 3 <= chars@.len(),
            None => comment_close(chars@, from as int) is None,
        },
{
    let mut j: usize = from;
    while j < chars.len()
        invariant
            from <= j,
            comment_close(chars@, j as int) == comment_close(chars@, from as int),
        decreases chars@.len() - j,
    {
        if chars.len() - j >= 3 && chars[j] == '-' && chars[j + 1] == '-' && chars[j + 2] == '>' {
            return Some(j);
        }
        j += 1;
    }
    None
}

fn find_tag_end(chars: &[char], Ghost(g): Ghost<Seq<Glyph>>, i: usize) -> (r: Option<usize>)
    requires
        chars@ == glyphs::inside(g),
        i < g.len(),
        glyphs::seen(g)[i as int] == '<',
    ensures
        match r {
            Some(k) => tag_at(g, i as int) == Some(k as int) && i < k <= g.len(),
            None => tag_at(g, i as int) is None,
        },
{
    proof {
        lemma_tag_at(g, i as int);
        assert(glyphs::inside(g)[i as int] == '<');
    }
    if chars.len() - i >= 4 && chars[i + 1] == '!' && chars[i + 2] == '-' && chars[i + 3] == '-' {
        if let Some(close) = find_comment_close(chars, i + 4) {
            return Some(close + 3);
        }
    }
    if let Some(close) = text::find_char(chars, '>', i) {
        if is_html_tag(vstd::slice::slice_subrange(chars, i + 1, close)) {
            return Some(close + 1);
        }
    }
    None
}

/// Drop raw HTML tags and comments (`<br>`, `<details>`, `<!-- … -->`).
///
/// The tag name must be one we actually recognize: a swallowed type parameter
/// (`Vec<String>`) is far worse than a `<foo>` getting pronounced.
pub fn strip_html(g: &[Glyph]) -> (r: Vec<Glyph>)
    ensures
        r@ == tagless(g@),
{
    let chars: Vec<char> = look(g);
    let chars: &[char] = chars.as_slice();
    let inner: Vec<char> = look_inside(g);
    let inner: &[char] = inner.as_slice();
    let mut out: Vec<Glyph> = Vec::new();
    let mut i: usize = 0;
    assert(out@ + tagless_from(g@, 0) =~= tagless(g@));
    while i < g.len()
        invariant
            i <= g@.len(),
            chars@ == glyphs::seen(g@),
            inner@ == glyphs::inside(g@),
            out@ + tagless_from(g@, i as int) == tagless(g@),
        decreases g@.len() - i,
    {
        let ghost before = out@;
        if chars[i] == '<' {
            if let Some(end) = find_tag_end(inner, Ghost(g@), i) {
                i = end;
                continue;
            }
        }
        out.push(g[i]);
        assert(out@ + tagless_from(g@, i + 1) =~= before + (seq![g@[i as int]]
            + tagless_from(g@, i + 1)));
        i += 1;
    }
    assert(out@ + tagless_from(g@, i as int) =~= out@);
    out
}

/// One line's text without its inline markup. Images go before links (an image is a
/// link with a `!`), links before code (a URL may contain backticks), and code before HTML,
/// which it may talk about.
pub open spec fn inlined(line: Seq<char>) -> Seq<Glyph> {
    tagless(tickless(linkless(imageless(glyphs::marked(line)))))
}

/// Remove inline markup from one line's text; escaped characters are no part of any. Emphasis
/// is not done here: it runs per paragraph, since it can span a line break. An unclosed
/// backtick or bracket must not swallow the following line.
pub fn strip_inline(line: &[char]) -> (r: Vec<Glyph>)
    ensures
        r@ == inlined(line@),
{
    let g: Vec<Glyph> = mark_escapes(line);
    let g: Vec<Glyph> = strip_images(g.as_slice());
    let g: Vec<Glyph> = strip_links(g.as_slice());
    let g: Vec<Glyph> = strip_code_spans(g.as_slice());
    strip_html(g.as_slice())
}

} // verus!

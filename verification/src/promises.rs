//! What callers can rely on, said of what the functions they call are given and give back.

use crate::cli::{parse_command, wants_raw, wants_verbose, CliError, Command};
use crate::cli;
use crate::kokoro::assets::{
    local_assets_dir, repo_voice_file, resolve_assets, resolve_assets_tract, voice_file, Assets,
    AssetsError, Place, TractPlan,
};
use crate::kokoro::assets;
use crate::kokoro::cut_laws;
use crate::kokoro::input::{
    clean_input, client_text, needs_stdin, read_text, set_strip_markdown, set_verbose,
    strip_markdown, verbose, Reader, Switches, TextError,
};
use crate::kokoro::input;
use crate::kokoro::playback::{action, notice_line, sink_is_live, start, step, Action, Event};
use crate::kokoro::playback::{Lifetime, Notice, Stage};
use crate::kokoro::program::{ensure_ort_dylib, ProgramRun};
use crate::kokoro::program;
use crate::kokoro::sentences::{split_sentences, wrap_long};
use crate::kokoro::sentences_laws;
use crate::kokoro::sink::{build_sink_command, pulseaudio_start_args, starts_pulseaudio};
use crate::kokoro::sink::{SinkCommand, SinkError};
use crate::kokoro::sink;
use crate::kokoro::speaking::{SpeakAction, SpeakEvent, SpeakStage, Speaking};
use crate::kokoro::speech::{
    clean_phonemes, espeak_args, phonemize, prepare, prepare_or_skip, skip_line,
    warn_nothing_spoken, ChunkPrep, PhonemizeError, PrepareError, Prepared,
};
use crate::kokoro::speech_laws;
use crate::kokoro::vocab::{tokenize, Vocab};
use crate::kokoro::vocab;
use crate::kokoro::wav::{write_wav, write_wav_i16};
use crate::kokoro::wav;
use crate::markdown::block_laws;
use crate::markdown::document::strip;
use crate::markdown::document;
use crate::markdown::document_laws;
use crate::markdown::emphasis_laws;
use crate::markdown::inline_laws;
use crate::markdown::line_laws;
use crate::markdown::spans;
use crate::markdown::spans_laws;
use crate::number::{parse_u64, to_decimal};
use crate::number;
use crate::serve::accept::{accept_step, shutdown_line, AcceptAction, AcceptEvent};
use crate::serve::request::{
    parse_request, read_request, rejection, reply, request, Job, RequestError,
};
use crate::serve::request_laws;
use crate::serve::timeouts::{parse_idle_timeout, parse_sink_idle_ms};
use crate::serve::timeouts;
use crate::serve::voices::{resolve_voice, VoiceCache, VoiceStep};
use crate::text;
use crate::text_lemmas;
use std::path::PathBuf;
use vstd::prelude::*;

verus! {

// ---- what is spoken of a document ----
/// Prose comes out of stripping as it went in, line by line.
pub proof fn law_stripping_keeps_prose(text: &str, r: String)
    requires
        call_ensures(strip, (text,), r),
        line_laws::are_prose(text::lines_of(text@)),
    ensures
        text::lines_of(r@) == text::lines_of(text@),
{
    line_laws::law_prose_is_spoken_as_it_is(text::lines_of(text@));
    document_laws::law_lines_survive(text@);
}

/// A heading of any of the six levels, anywhere in prose, comes out as a sentence: its text, with
/// a period behind it unless it ends in other punctuation.
pub proof fn law_stripping_makes_headings_sentences(
    text: &str,
    r: String,
    a: Seq<Seq<char>>,
    n: nat,
    t: Seq<char>,
    b: Seq<Seq<char>>,
)
    requires
        call_ensures(strip, (text,), r),
        text::lines_of(text@) == a + seq![block_laws::hashes(n) + seq![' '] + t] + b,
        line_laws::are_prose(a),
        line_laws::are_prose(b),
        1 <= n <= 6,
        line_laws::is_prose(t),
        t.last() != '#',
    ensures
        text::lines_of(r@) == a + seq![
            if t.last() == '.' || t.last() == '!' || t.last() == '?' || t.last() == ':' || t.last()
                == ';' || t.last() == ',' {
                t
            } else {
                t.push('.')
            },
        ] + b,
{
    line_laws::law_headings_are_sentences(a, n, t, b);
    document_laws::law_lines_survive(text@);
}

/// List items and quotes, anywhere in prose, come out without their markers.
pub proof fn law_stripping_takes_block_markers_off(
    text: &str,
    r: String,
    a: Seq<Seq<char>>,
    m: char,
    n: nat,
    mark: char,
    t: Seq<char>,
    b: Seq<Seq<char>>,
)
    requires
        call_ensures(strip, (text,), r),
        m == '-' || m == '*' || m == '+',
        n >= 1,
        mark == ' ' || mark == 'x' || mark == 'X',
        line_laws::are_prose(a),
        line_laws::are_prose(b),
        line_laws::is_prose(t),
        ({
            let lines = text::lines_of(text@);
            ||| lines == a + seq![Seq::new(n, |i: int| m) + seq![' '] + t] + b
            ||| lines == a + seq![Seq::new(n, |i: int| m) + seq![' ', '[', mark, ']', ' '] + t] + b
            ||| lines == a + seq![seq!['>', ' '] + t] + b
        }),
    ensures
        text::lines_of(r@) == a + seq![t] + b,
{
    line_laws::law_list_items_are_spoken(a, m, n, mark, t, b);
    line_laws::law_quotes_are_spoken(a, t, b);
    document_laws::law_lines_survive(text@);
}

/// Table rows, rules and link definitions do not come out, and the prose around them does.
#[verifier::rlimit(40)]
pub proof fn law_stripping_drops_structure(
    text: &str,
    r: String,
    a: Seq<Seq<char>>,
    line: Seq<char>,
    b: Seq<Seq<char>>,
    m: char,
    i: int,
    j: int,
    k: int,
    label: Seq<char>,
    rest: Seq<char>,
)
    requires
        call_ensures(strip, (text,), r),
        text::lines_of(text@) == a + seq![line] + b,
        line_laws::are_prose(a),
        line_laws::are_prose(b),
        ({
            ||| line.len() > 0 && line[0] == '|'
            ||| {
                &&& m == '-' || m == '*' || m == '_' || m == '='
                &&& 0 <= i < j < k < line.len()
                &&& line[i] == m && line[j] == m && line[k] == m
                &&& forall|p: int| 0 <= p < line.len() ==> #[trigger] line[p] == m || line[p] == ' '
            }
            ||| {
                &&& line == seq!['['] + label + seq![']', ':'] + rest
                &&& label.len() > 0 && label[0] != '^'
                &&& forall|p: int| 0 <= p < label.len() ==> #[trigger] label[p] != ']'
            }
        }),
    ensures
        text::lines_of(r@) == a + b,
{
    let none = Seq::<char>::empty();
    line_laws::lemma_prose_opens_no_fence(a);
    line_laws::law_prose_is_spoken_as_it_is(a);
    line_laws::law_prose_is_spoken_as_it_is(b);
    assert(none + line =~= line);
    if line.len() > 0 && line[0] == '|' {
        line_laws::law_table_rows_are_dropped(a, none, line, b);
    } else if line == seq!['['] + label + seq![']', ':'] + rest && label.len() > 0 && label[0]
        != '^' && (forall|p: int| 0 <= p < label.len() ==> #[trigger] label[p] != ']') {
        line_laws::law_link_definitions_are_dropped(a, none, label, rest, b);
    } else {
        line_laws::law_rules_are_dropped(a, line, m, i, j, k, b);
    }
    document_laws::law_lines_survive(text@);
}

/// Code between fences of three backticks or tildes does not come out, and the prose around it
/// does.
pub proof fn law_stripping_drops_fenced_code(
    text: &str,
    r: String,
    a: Seq<Seq<char>>,
    m: char,
    info: Seq<char>,
    code: Seq<Seq<char>>,
    b: Seq<Seq<char>>,
)
    requires
        call_ensures(strip, (text,), r),
        text::lines_of(text@) == a + seq![seq![m, m, m] + info] + code + seq![seq![m, m, m]] + b,
        m == '`' || m == '~',
        line_laws::are_prose(a),
        line_laws::are_prose(b),
        forall|i: int|
            0 <= i < code.len() ==> {
                let t = text::trimmed(#[trigger] code[i]);
                t.len() < 3 || t[0] != m || t[1] != m || t[2] != m
            },
    ensures
        text::lines_of(r@) == a + b,
{
    let none = Seq::<char>::empty();
    line_laws::lemma_prose_opens_no_fence(a);
    line_laws::law_prose_is_spoken_as_it_is(a);
    line_laws::law_prose_is_spoken_as_it_is(b);
    line_laws::law_three_markers_fence_code(a, m, none, info, code, none, none, b);
    assert(none + seq![m, m, m] + info =~= seq![m, m, m] + info);
    assert(none + seq![m, m, m] + none =~= seq![m, m, m]);
    document_laws::law_lines_survive(text@);
}

/// A link in the middle of words comes out as its text, and an image not at all.
pub proof fn law_stripping_keeps_the_text_of_links(
    text: &str,
    r: String,
    x: Seq<char>,
    label: Seq<char>,
    o: char,
    target: Seq<char>,
    c: char,
    y: Seq<char>,
)
    requires
        call_ensures(strip, (text,), r),
        inline_laws::is_opening(x),
        x.last() != '!',
        inline_laws::is_words(label),
        forall|i: int| 0 <= i < label.len() ==> #[trigger] label[i] != ']',
        (o == '(' && c == ')') || (o == '[' && c == ']'),
        inline_laws::is_unescaped(target),
        forall|i: int| 0 <= i < target.len() ==> #[trigger] target[i] != c && target[i] != '[',
        inline_laws::is_words(y),
        document_laws::is_tidy(x + label + y),
        document_laws::is_tidy(x + y),
    ensures
        text@ == x + (seq!['['] + label + seq![']', o] + target + seq![c] + y) ==> r@ == x + label
            + y,
        text@ == x + (seq!['!', '['] + label + seq![']', o] + target + seq![c] + y) ==> r@ == x + y,
{
    inline_laws::law_links_are_spoken_as_their_text(x, label, o, target, c, y);
    inline_laws::law_images_are_not_spoken(x, label, o, target, c, y);
}

/// Emphasis in the middle of words comes out without its markers.
pub proof fn law_stripping_takes_emphasis_off(
    text: &str,
    r: String,
    x: Seq<char>,
    m: char,
    n: nat,
    b: Seq<char>,
    y: Seq<char>,
)
    requires
        call_ensures(strip, (text,), r),
        text@ == x + (Seq::new(n, |i: int| m) + b + Seq::new(n, |i: int| m) + y),
        inline_laws::is_opening(x),
        m == '*' || m == '_' || m == '~',
        n >= 1,
        m == '~' ==> n == 2,
        inline_laws::is_words(b),
        text_lemmas::is_tight(b),
        inline_laws::is_words(y),
        m == '_' ==> !text::is_word_char(x.last()) && (y.len() > 0 ==> !text::is_word_char(y[0])),
        document_laws::is_tidy(x + b + y),
    ensures
        r@ == x + b + y,
{
    inline_laws::law_emphasis_is_spoken_without_markers(x, m, n, b, y);
    assert(emphasis_laws::marker_run(m, n) =~= Seq::new(n, |i: int| m));
}

/// Inline code in the middle of words comes out without its backticks, and as it is written.
pub proof fn law_stripping_keeps_inline_code(
    text: &str,
    r: String,
    x: Seq<char>,
    n: nat,
    code: Seq<char>,
    y: Seq<char>,
)
    requires
        call_ensures(strip, (text,), r),
        text@ == x + (Seq::new(n, |i: int| '`') + code + Seq::new(n, |i: int| '`') + y),
        inline_laws::is_opening(x),
        n >= 1,
        code.len() > 0,
        forall|i: int|
            0 <= i < code.len() ==> #[trigger] code[i] != '`' && code[i] != '[' && code[i] != '<'
                && code[i] != '\\' && code[i] != '\n',
        inline_laws::is_words(y),
        document_laws::is_tidy(x + code + y),
    ensures
        r@ == x + code + y,
{
    assert(code[0] != '`' && code[code.len() - 1] != '`');
    assert forall|j: int| !#[trigger] spans::is_tick_run(code, j, n) by {
        if 0 < j < code.len() {
            assert(code[j] != '`');
        }
    }
    inline_laws::law_code_is_spoken_without_backticks(x, n, code, y);
    assert(spans_laws::ticks(n) =~= Seq::new(n, |i: int| '`'));
}

/// An address in angle brackets in the middle of words does not come out: one that starts with
/// `http://` or `https://`, or one with an `@` and without a space.
pub proof fn law_stripping_drops_addresses(
    text: &str,
    r: String,
    x: Seq<char>,
    address: Seq<char>,
    y: Seq<char>,
)
    requires
        call_ensures(strip, (text,), r),
        text@ == x + (seq!['<'] + address + seq!['>'] + y),
        inline_laws::is_opening(x),
        inline_laws::is_unescaped(address),
        forall|i: int| 0 <= i < address.len() ==> #[trigger] address[i] != '>' && address[i] != '[',
        "http://"@.is_prefix_of(address) || "https://"@.is_prefix_of(address) || (address.contains(
            '@',
        ) && !address.contains(' ')),
        inline_laws::is_words(y),
        document_laws::is_tidy(x + y),
    ensures
        r@ == x + y,
{
    inline_laws::law_addresses_are_not_spoken(x, address, y);
}

/// An escaped character in the middle of words comes out without its backslash, and a bracketed
/// aside with its brackets.
pub proof fn law_stripping_keeps_escaped_characters(
    text: &str,
    r: String,
    x: Seq<char>,
    c: char,
    words: Seq<char>,
    y: Seq<char>,
)
    requires
        call_ensures(strip, (text,), r),
        inline_laws::is_opening(x),
        x.last() != '!',
        c == '*' || c == '_' || c == '`' || c == '[' || c == ']' || c == '#' || c == '~' || c == '('
            || c == ')' || c == '<' || c == '>' || c == '|' || c == '!' || c == '.',
        inline_laws::is_words(words),
        forall|i: int| 0 <= i < words.len() ==> #[trigger] words[i] != ']',
        inline_laws::is_words(y),
        y.len() > 0 ==> y[0] != '(',
    ensures
        text@ == x + (seq!['\\', c] + y) && document_laws::is_tidy(x + seq![c] + y) ==> r@ == x
            + seq![c] + y,
        text@ == x + (seq!['['] + words + seq![']'] + y) && document_laws::is_tidy(text@) ==> r@
            == text@,
{
    if document_laws::is_tidy(x + seq![c] + y) {
        inline_laws::law_escaped_characters_are_spoken(x, c, y);
    }
    if document_laws::is_tidy(x + (seq!['['] + words + seq![']'] + y)) {
        inline_laws::law_asides_are_spoken(x, words, y);
    }
}

// ---- what is spoken of an input ----
/// What both readers hand on: with stdin `a + t + b` and no argument but flags, `t`, the
/// whitespace around it gone; or what stripping leaves of `t`, if the markdown pass runs.
pub proof fn law_readers_take_all_of_stdin(
    args: &Vec<String>,
    stdin: &str,
    spoken: Result<String, TextError>,
    sent: Result<String, TextError>,
    strip_it: bool,
    a: Seq<char>,
    t: Seq<char>,
    b: Seq<char>,
)
    requires
        call_ensures(read_text, (args, stdin, strip_it), spoken),
        call_ensures(client_text, (args, stdin, strip_it), sent),
        stdin@ == a + t + b,
        text_lemmas::is_blank(a),
        text_lemmas::is_tight(t),
        text_lemmas::is_blank(b),
        forall|i: int|
            0 <= i < args@.len() ==> {
                ||| (#[trigger] args@[i])@ == "-v"@
                ||| args@[i]@ == "--verbose"@
                ||| args@[i]@ == "--raw"@
            },
    ensures
        !strip_it ==> (spoken matches Ok(s) && s@ == t) && (sent matches Ok(s) && s@ == t),
        strip_it && !text_lemmas::is_blank(document::stripped(t)) ==> (spoken matches Ok(s) && s@
            == document::stripped(t)) && (sent matches Ok(s) && s@ == document::stripped(t)),
        strip_it && text_lemmas::is_blank(document::stripped(t)) ==> spoken is Err && sent is Err,
        !strip_it ==> (spoken matches Ok(s) && text::words_of(s@) == text::words_of(stdin@)),
{
    let all = text::texts(args@);
    assert forall|i: int| 0 <= i < all.len() implies (#[trigger] all[i] == "-v"@ || all[i]
        == "--verbose"@ || all[i] == "--raw"@) by {
        assert(all[i] == args@[i]@);
    }
    input::law_stdin_is_spoken_whole(Reader::OneShot, all, a, t, b);
    input::law_stdin_is_spoken_whole(Reader::Client, all, a, t, b);
}

/// Blank stdin is nothing to speak.
pub proof fn law_readers_refuse_blank_stdin(
    args: &Vec<String>,
    stdin: &str,
    spoken: Result<String, TextError>,
    sent: Result<String, TextError>,
    strip_it: bool,
)
    requires
        call_ensures(read_text, (args, stdin, strip_it), spoken),
        call_ensures(client_text, (args, stdin, strip_it), sent),
        text_lemmas::is_blank(stdin@),
        args@.len() == 0,
    ensures
        spoken is Err && sent is Err,
{
    let none = Seq::<char>::empty();
    let all = text::texts(args@);
    input::law_stdin_is_spoken_whole(Reader::OneShot, all, stdin@, seq!['t'], none);
    input::law_stdin_is_spoken_whole(Reader::Client, all, stdin@, seq!['t'], none);
    assert(stdin@ + none =~= stdin@);
}

/// Both readers speak the arguments in their order with a space between them, and stdin has no
/// say: the text of all arguments is that of all but the last, a space, and the last.
pub proof fn law_readers_speak_every_argument(
    args: &Vec<String>,
    fewer: &Vec<String>,
    stdin: &str,
    all: Result<String, TextError>,
    front: Result<String, TextError>,
)
    requires
        call_ensures(read_text, (args, stdin, false), all),
        call_ensures(read_text, (fewer, stdin, false), front),
        args@.len() > 0,
        fewer@ == args@.drop_last(),
        forall|i: int|
            0 <= i < args@.len() ==> {
                &&& (#[trigger] args@[i])@ != "-v"@
                &&& args@[i]@ != "--verbose"@
                &&& args@[i]@ != "--raw"@
                &&& args@[i]@ != "--show-text"@
            },
        args@[0]@ != "--"@,
    ensures
        args@.len() == 1 ==> (all matches Ok(s) && s@ == args@[0]@),
        args@.len() > 1 ==> all is Ok && front is Ok && all->Ok_0@ == front->Ok_0@ + seq![' ']
            + args@.last()@,
{
    let words = text::texts(args@);
    let few = text::texts(fewer@);
    assert(words =~= few.push(args@.last()@));
    assert forall|i: int| 0 <= i < words.len() implies (#[trigger] words[i] != "-v"@ && words[i]
        != "--verbose"@ && words[i] != "--raw"@ && words[i] != "--show-text"@) by {
        assert(words[i] == args@[i]@);
    }
    assert(words[0] == args@[0]@);
    input::law_arguments_are_spoken_in_order(Reader::OneShot, few, args@.last()@, stdin@);
}

/// Stdin is read if there is no argument, and not if the only one is text.
pub proof fn law_stdin_is_read_if_needed(reader: Reader, args: &Vec<String>, r: bool)
    requires
        call_ensures(needs_stdin, (reader, args), r),
    ensures
        args@.len() == 0 ==> r,
        args@.len() == 1 && args@[0]@ != "-v"@ && args@[0]@ != "--verbose"@ && args@[0]@ != "--raw"@
            && args@[0]@ != "--"@ && args@[0]@ != (match reader {
            Reader::OneShot => "--show-text"@,
            Reader::Client => "--send"@,
        }) ==> !r,
{
    let all = text::texts(args@);
    if args@.len() == 0 {
        assert(all =~= Seq::<Seq<char>>::empty());
    } else if args@.len() == 1 {
        assert(all =~= seq![args@[0]@]);
        assert(all.drop_last() =~= Seq::<Seq<char>>::empty());
        assert(input::unflagged(reader, Seq::empty()) =~= Seq::<Seq<char>>::empty());
        assert(all.last() == args@[0]@);
        if !input::is_flag(reader, all.last()) {
            assert(input::unflagged(reader, all) =~= all);
        }
    }
}

/// Raw input is handed on as it is, and other input as stripping leaves it.
pub proof fn law_cleaning_strips_or_does_nothing(
    text: &str,
    raw: String,
    clean: String,
    stripped: String,
)
    requires
        call_ensures(clean_input, (text, false), raw),
        call_ensures(clean_input, (text, true), clean),
        call_ensures(strip, (text,), stripped),
    ensures
        raw@ == text@,
        clean@ == stripped@,
{
}

// ---- in which pieces it is spoken ----
/// A text without a line feed, in which no `.`, `!`, `?` or `;` has whitespace and then more text
/// behind it, is one chunk if it is no longer than 300 characters: the text itself, the
/// whitespace around it gone.
pub proof fn law_one_sentence_is_not_split(
    text: &str,
    r: Vec<String>,
    a: Seq<char>,
    t: Seq<char>,
    b: Seq<char>,
)
    requires
        call_ensures(split_sentences, (text,), r),
        text@ == a + t + b,
        text_lemmas::is_blank(a),
        text_lemmas::is_tight(t),
        text_lemmas::is_blank(b),
        text@.len() <= 300,
        cut_laws::is_one_sentence(text@),
    ensures
        r@.len() == 1,
        r@[0]@ == t,
{
    text_lemmas::law_trimming_takes_only_whitespace(a, t, b);
    text_lemmas::lemma_trimmed(text@);
    cut_laws::law_one_sentence_is_one_chunk(text@);
    assert(text::texts(r@).len() == r@.len());
    assert(text::texts(r@)[0] == t);
}

/// A sentence of 16 to 300 characters behind a `.`, `!`, `?` or `;` and whitespace is a chunk of
/// its own, behind those that the text has without it; so is one behind a line feed. A shorter one
/// joins the chunk before it, as long as that stays within 316 characters.
pub proof fn law_sentences_are_split_off(
    text: &str,
    front: &str,
    r: Vec<String>,
    before: Vec<String>,
    c: char,
    w: char,
    b: Seq<char>,
)
    requires
        call_ensures(split_sentences, (text,), r),
        call_ensures(split_sentences, (front,), before),
        ({
            ||| {
                &&& front@.len() > 0
                &&& c == front@.last()
                &&& c == '.' || c == '!' || c == '?' || c == ';'
                &&& text::is_space(w)
                &&& text@ == front@.push(w) + b
            }
            ||| !text_lemmas::is_blank(front@) && text@ == front@.push('\n') + b
        }),
        cut_laws::is_one_sentence(b),
        0 < text::trimmed(b).len() <= 300,
    ensures
        ({
            let t = text::trimmed(b);
            &&& t.len() >= 16 ==> text::texts(r@) == text::texts(before@).push(t)
            &&& t.len() < 16 && text::texts(before@).last().len() + 1 + t.len() <= 316
                ==> text::texts(r@) == text::texts(before@).drop_last().push(
                text::texts(before@).last() + seq![' '] + t,
            )
        }),
{
    if front@.len() > 0 && c == front@.last() && (c == '.' || c == '!' || c == '?' || c == ';')
        && text::is_space(w) && text@ == front@.push(w) + b {
        let a = front@.drop_last();
        assert(a.push(c) =~= front@);
        cut_laws::law_text_is_cut_behind_stops(a, c, w, b);
    } else {
        cut_laws::law_text_is_cut_at_line_feeds(front@, b);
    }
}

/// Whatever the text, every word of it is in a chunk, in order, and no chunk is empty, holds a
/// line feed or is, but for the first, shorter than 16 characters.
pub proof fn law_chunks_say_the_text(text: &str, r: Vec<String>)
    requires
        call_ensures(split_sentences, (text,), r),
    ensures
        sentences_laws::spoken_words(text::texts(r@)) == text::words_of(text@),
        forall|k: int|
            0 <= k < r@.len() ==> (#[trigger] r@[k])@.len() > 0 && text_lemmas::is_line(r@[k]@),
        forall|k: int| 1 <= k < r@.len() ==> (#[trigger] r@[k])@.len() >= 16,
{
    sentences_laws::law_every_word_is_spoken_once(text@);
    sentences_laws::law_chunks_are_utterances(text@);
    let chunks = text::texts(r@);
    assert forall|k: int| 0 <= k < r@.len() implies (#[trigger] r@[k])@.len() > 0
        && text_lemmas::is_line(r@[k]@) && (k >= 1 ==> r@[k]@.len() >= 16) by {
        assert(chunks[k] == r@[k]@);
        assert(sentences_laws::is_utterance(chunks[k]));
    }
}

/// Wrapped lines are short, say every word, and end only where the next word no longer fits or
/// behind a comma in their second half.
pub proof fn law_wrapped_lines_are_full(s: &[char], max: usize, r: Vec<Vec<char>>)
    requires
        call_ensures(wrap_long, (s, max), r),
    ensures
        sentences_laws::spoken_words(text::views(r@)) == text::words_of(s@),
        forall|k: int|
            0 <= k < r@.len() ==> (#[trigger] r@[k])@.len() <= max || text_lemmas::is_word(r@[k]@),
        forall|k: int|
            0 <= k && k + 1 < r@.len() ==> (#[trigger] r@[k])@.len() + 1 + text::words_of(
                r@[k + 1]@,
            )[0].len() > max || (r@[k]@.last() == ',' && r@[k]@.len() >= max / 2),
        forall|k: int|
            0 <= k < r@.len() ==> cut_laws::has_no_early_comma(
                (#[trigger] r@[k])@,
                max as nat,
            ),
{
    sentences_laws::law_wrapping_keeps_the_words(s@, max as nat);
    sentences_laws::law_wrapped_lines_are_short(s@, max as nat);
    cut_laws::law_wrapping_is_greedy(s@, max as nat);
    let lines = text::views(r@);
    assert forall|k: int| 0 <= k < r@.len() implies ((#[trigger] r@[k])@.len() <= max
        || text_lemmas::is_word(r@[k]@)) && cut_laws::has_no_early_comma(r@[k]@, max as nat) by {
        assert(lines[k] == r@[k]@);
        assert(sentences_laws::is_short(lines[k], max as nat));
        assert(cut_laws::has_no_early_comma(lines[k], max as nat));
    }
    assert forall|k: int| 0 <= k && k + 1 < r@.len() implies (#[trigger] r@[k])@.len() + 1
        + text::words_of(r@[k + 1]@)[0].len() > max || (r@[k]@.last() == ',' && r@[k]@.len() >= max
        / 2) by {
        assert(lines[k] == r@[k]@ && lines[k + 1] == r@[k + 1]@);
        assert(cut_laws::is_full(lines, k, max as nat));
    }
}

// ---- how it is pronounced ----
/// espeak-ng is asked for the language that was asked for, right behind `-v`, and for the text,
/// right behind `--` and last.
pub proof fn law_espeak_is_asked_for_text_and_language(text: &str, lang: &str, r: Vec<String>)
    requires
        call_ensures(espeak_args, (text, lang), r),
    ensures
        r@.len() == 6,
        r@[0]@ == "-q"@,
        r@[1]@ == "--ipa=3"@,
        r@[2]@ == "-v"@,
        r@[3]@ == lang@,
        r@[4]@ == "--"@,
        r@[5]@ == text@,
{
    speech_laws::law_espeak_gets_text_and_language(text@, lang@);
    let args = text::texts(r@);
    assert(args.len() == r@.len());
    assert(args[0] == r@[0]@ && args[1] == r@[1]@ && args[2] == r@[2]@);
    assert(args[3] == r@[3]@ && args[4] == r@[4]@ && args[5] == r@[5]@);
}

/// What was printed comes back on one line: a line feed is a space, every other character stays,
/// and only the whitespace around it all goes.
pub proof fn law_phonemes_are_cleaned(
    printed: &str,
    r: String,
    a: Seq<char>,
    p: Seq<char>,
    b: Seq<char>,
)
    requires
        call_ensures(clean_phonemes, (printed,), r),
        text_lemmas::is_blank(a),
        text_lemmas::is_tight(p),
        text_lemmas::is_blank(b),
    ensures
        printed@ == a + p + b ==> r@.len() == p.len() && forall|i: int|
            0 <= i < p.len() ==> #[trigger] r@[i] == if p[i] == '\n' {
                ' '
            } else {
                p[i]
            },
        printed@ == a + b ==> r@.len() == 0,
{
    speech_laws::law_phonemes_are_kept_on_one_line(a, p, b);
}

/// A run of espeak-ng that failed is an error that quotes it, one that never started another; one
/// that succeeded gives what it printed, cleaned.
pub proof fn law_failed_runs_are_errors(
    run: ProgramRun,
    printed: &str,
    r: Result<String, PhonemizeError>,
    cleaned: String,
)
    requires
        call_ensures(phonemize, (&run,), r),
        call_ensures(clean_phonemes, (printed,), cleaned),
    ensures
        run is NotRun ==> r == Err::<String, PhonemizeError>(PhonemizeError::NotRun),
        run is Exited && !run->success ==> (r matches Err(PhonemizeError::Failed(why)) && why@
            == program::lossy_text(run->stderr@)),
        run is Exited && run->success && printed@ == program::lossy_text(run->stdout@) ==> (
        r matches Ok(phonemes) && phonemes@ == cleaned@),
{
}

/// Phonemes that the vocabulary carries become its ids for them, one for one and in order; only
/// what is beyond the first 510 is cut off.
pub proof fn law_tokens_are_the_ids_of_the_phonemes(phonemes: &str, vocab: &Vocab, r: Vec<i64>)
    requires
        call_ensures(tokenize, (phonemes, vocab), r),
        forall|i: int|
            0 <= i < phonemes@.len() ==> vocab@.contains_key(seq![#[trigger] phonemes@[i]]),
    ensures
        r@.len() == if phonemes@.len() <= 510 {
            phonemes@.len()
        } else {
            510
        },
        forall|i: int| 0 <= i < r@.len() ==> #[trigger] r@[i] == vocab@[seq![phonemes@[i]]],
{
    vocab::law_known_symbols_are_tokens(vocab@, phonemes@);
}

/// A phoneme that the vocabulary doesn't carry changes no token, wherever it stands.
pub proof fn law_other_phonemes_are_dropped(
    phonemes: &str,
    fewer: &str,
    vocab: &Vocab,
    r: Vec<i64>,
    s: Vec<i64>,
    a: Seq<char>,
    c: char,
    b: Seq<char>,
)
    requires
        call_ensures(tokenize, (phonemes, vocab), r),
        call_ensures(tokenize, (fewer, vocab), s),
        phonemes@ == a.push(c) + b,
        fewer@ == a + b,
        !vocab@.contains_key(seq![c]),
    ensures
        r@ == s@,
{
    vocab::law_unknown_symbols_are_dropped(vocab@, a, c, b);
}

/// A phoneme has the id that the vocabulary gives it, and none if it gives it none.
pub proof fn law_ids_are_those_of_the_vocabulary(vocab: &Vocab, c: char, r: Option<i64>)
    requires
        call_ensures(Vocab::id, (vocab, c), r),
    ensures
        vocab@.contains_key(seq![c]) ==> r == Some(vocab@[seq![c]]),
        !vocab@.contains_key(seq![c]) ==> r is None,
{
    vocab::law_ids_are_the_vocabularys(vocab@, c);
}

/// A vocabulary has every entry that it is made of, the later of two with one key, and no other.
pub proof fn law_vocabularies_hold_their_entries(entries: &Vec<(String, i64)>, r: Vocab, i: int)
    requires
        call_ensures(Vocab::from_entries, (entries,), r),
        0 <= i < entries@.len(),
        forall|j: int| i < j < entries@.len() ==> (#[trigger] entries@[j]).0@ != entries@[i].0@,
    ensures
        r@.contains_key(entries@[i].0@),
        r@[entries@[i].0@] == entries@[i].1,
        forall|key: Seq<char>| #[trigger]
            r@.contains_key(key) ==> exists|j: int|
                0 <= j < entries@.len() && (#[trigger] entries@[j]).0@ == key,
{
    vocab::law_last_entries_count(entries@, i);
}

/// What is made of phonemes that the vocabulary carries: the phonemes, their ids between two
/// zeros, and the style row for so many of them, whether failures are to be skipped or not.
pub proof fn law_prepared_chunks_say_their_phonemes(
    phonemes: String,
    vocab: &Vocab,
    voice: &Vec<u8>,
    r: Result<Option<Prepared>, PrepareError>,
    s: Result<ChunkPrep, PrepareError>,
)
    requires
        call_ensures(prepare, (Ok(phonemes), vocab, Some(voice)), r),
        call_ensures(prepare_or_skip, (Ok(phonemes), vocab, Some(voice)), s),
        1 <= phonemes@.len() <= 510,
        forall|i: int|
            0 <= i < phonemes@.len() ==> vocab@.contains_key(seq![#[trigger] phonemes@[i]]),
        voice@.len() % 4 == 0,
        voice@.len() >= 1024,
    ensures
        r matches Ok(Some(p)) && {
            &&& p.phonemes@ == phonemes@
            &&& p.token_len == phonemes@.len()
            &&& p.ids@.len() == phonemes@.len() + 2
            &&& p.ids@[0] == 0
            &&& p.ids@[phonemes@.len() as int + 1] == 0
            &&& forall|i: int|
                0 <= i < phonemes@.len() ==> p.ids@[i + 1] == vocab@[seq![#[trigger] phonemes@[i]]]
            &&& p.style@.len() == 1024
            &&& forall|i: int|
                0 <= i < 1024 ==> #[trigger] p.style@[i] == voice@[i + 1024 * (if phonemes@.len()
                    < voice@.len() / 1024 {
                    phonemes@.len() as int
                } else {
                    voice@.len() / 1024 - 1
                })]
        },
        s matches Ok(ChunkPrep::Ready(p)) && p.phonemes@ == phonemes@ && p.token_len
            == phonemes@.len() && p.ids@ == r->Ok_0->0.ids@ && p.style@ == r->Ok_0->0.style@,
{
    vocab::law_known_symbols_are_tokens(vocab@, phonemes@);
    speech_laws::law_utterances_say_their_phonemes(r, phonemes@, vocab@, voice);
}

/// Whatever the phonemes, what is prepared of them carries them as they are, as many ids as there
/// are tokens and two zeros, and the style row for so many tokens.
pub proof fn law_prepared_chunks_hold_their_tokens(
    phonemes: String,
    heard: &str,
    vocab: &Vocab,
    voice: &Vec<u8>,
    tokens: Vec<i64>,
    r: Result<Option<Prepared>, PrepareError>,
)
    requires
        call_ensures(prepare, (Ok(phonemes), vocab, Some(voice)), r),
        heard@ == phonemes@,
        call_ensures(tokenize, (heard, vocab), tokens),
        tokens@.len() > 0,
        voice@.len() % 4 == 0,
        voice@.len() >= 1024,
    ensures
        r matches Ok(Some(p)) && {
            &&& p.phonemes@ == phonemes@
            &&& p.token_len == tokens@.len()
            &&& p.ids@ == seq![0i64] + tokens@ + seq![0i64]
            &&& p.style@.len() == 1024
            &&& forall|i: int|
                0 <= i < 1024 ==> #[trigger] p.style@[i] == voice@[i + 1024 * (if tokens@.len()
                    < voice@.len() / 1024 {
                    tokens@.len() as int
                } else {
                    voice@.len() / 1024 - 1
                })]
        },
{
    vocab::lemma_some_known(vocab@, phonemes@);
    speech_laws::law_style_rows_go_by_the_tokens(r, phonemes@, vocab@, voice);
}

/// Where espeak-ng failed on a chunk, the chunk is skipped by one who tolerates that and an error
/// to one who does not; where it never started, that is an error to both.
pub proof fn law_failures_are_skipped_where_tolerated(
    why: String,
    vocab: &Vocab,
    voice: Option<&Vec<u8>>,
    r: Result<Option<Prepared>, PrepareError>,
    s: Result<ChunkPrep, PrepareError>,
    t: Result<ChunkPrep, PrepareError>,
)
    requires
        call_ensures(prepare, (Err(PhonemizeError::Failed(why)), vocab, voice), r),
        call_ensures(prepare_or_skip, (Err(PhonemizeError::Failed(why)), vocab, voice), s),
        call_ensures(prepare_or_skip, (Err(PhonemizeError::NotRun), vocab, voice), t),
    ensures
        r matches Err(PrepareError::Phonemize(PhonemizeError::Failed(w))) && w@ == why@,
        s matches Ok(ChunkPrep::Failed),
        t matches Err(PrepareError::Phonemize(PhonemizeError::NotRun)),
{
}

/// Without a voice file nothing speakable can be prepared, and nothing unspeakable needs one.
pub proof fn law_missing_voices_are_missed_when_needed(
    phonemes: String,
    vocab: &Vocab,
    r: Result<Option<Prepared>, PrepareError>,
    s: Result<ChunkPrep, PrepareError>,
)
    requires
        call_ensures(prepare, (Ok(phonemes), vocab, None), r),
        call_ensures(prepare_or_skip, (Ok(phonemes), vocab, None), s),
    ensures
        (exists|i: int|
            0 <= i < phonemes@.len() && vocab@.contains_key(seq![#[trigger] phonemes@[i]])) ==> (
        r matches Err(PrepareError::Voice)) && (s matches Err(PrepareError::Voice)),
        (forall|i: int|
            0 <= i < phonemes@.len() ==> !vocab@.contains_key(seq![#[trigger] phonemes@[i]])) ==> (
        r matches Ok(None)) && (s matches Ok(ChunkPrep::Unspeakable)),
{
    vocab::lemma_some_known(vocab@, phonemes@);
}

/// A warning and the line of a skipped chunk say what happened.
pub proof fn law_reports_say_what_happened(
    failed: usize,
    warning: String,
    why: String,
    line: String,
)
    requires
        call_ensures(warn_nothing_spoken, (failed,), warning),
        call_ensures(skip_line, (&PhonemizeError::Failed(why),), line),
    ensures
        failed == 0 ==> warning@ == "[kokoro] nothing speakable in input"@,
        failed > 0 ==> warning@ == "[kokoro] nothing speakable in input ("@ + number::decimal(
            failed as nat,
        ) + " chunk(s) failed to phonemize — is espeak-ng installed?)"@,
        line@ == "[kokoro] skipping chunk (espeak-ng failed: "@ + ("espeak-ng failed: "@ + why@)
            + ")"@,
{
}

// ---- what the command line asks for ----
/// Each command has its flag, whatever follows; switches before it change nothing.
#[verifier::rlimit(40)]
pub proof fn law_commands_are_parsed(
    args: &Vec<String>,
    r: Result<Command, CliError>,
    first: Seq<char>,
    rest: Seq<Seq<char>>,
)
    requires
        call_ensures(parse_command, (args,), r),
        ({
            ||| text::texts(args@) == seq![first] + rest
            ||| text::texts(args@) == seq!["-v"@, first] + rest
            ||| text::texts(args@) == seq!["--verbose"@, first] + rest
            ||| text::texts(args@) == seq!["--raw"@, first] + rest
        }),
    ensures
        first == "--help"@ || first == "-h"@ ==> r == Ok::<Command, CliError>(Command::Help),
        first == "--version"@ || first == "-V"@ ==> r == Ok::<Command, CliError>(Command::Version),
        first == "--show-text"@ ==> r == Ok::<Command, CliError>(Command::ShowText),
        first == "--serve"@ ==> r == Ok::<Command, CliError>(Command::Serve),
        first == "--send"@ ==> r == Ok::<Command, CliError>(Command::Send),
        first == "--"@ ==> r == Ok::<Command, CliError>(Command::Speak),
        first == "--install-assets"@ && rest.len() == 0 ==> r == Ok::<Command, CliError>(
            Command::InstallAssets { dev: false },
        ),
        first == "--install-assets"@ && rest.len() > 0 && rest[0] == "--dev"@ ==> r == Ok::<
            Command,
            CliError,
        >(Command::InstallAssets { dev: true }),
{
    let all = text::texts(args@);
    let none = Seq::<Seq<char>>::empty();
    let bare = seq![first] + rest;
    cli::law_switches_may_appear_anywhere(none, "-v"@, bare);
    cli::law_switches_may_appear_anywhere(none, "--verbose"@, bare);
    cli::law_switches_may_appear_anywhere(none, "--raw"@, bare);
    assert(none + bare =~= bare);
    assert(none + seq!["-v"@] + bare =~= seq!["-v"@, first] + rest);
    assert(none + seq!["--verbose"@] + bare =~= seq!["--verbose"@, first] + rest);
    assert(none + seq!["--raw"@] + bare =~= seq!["--raw"@, first] + rest);
    assert(cli::asked(all) == cli::asked(bare));
    cli::law_every_command_has_its_flag(rest);
    if rest.len() == 0 {
        assert(bare =~= seq![first]);
    } else {
        assert(rest =~= seq![rest[0]] + rest.drop_first());
    }
    reveal_strlit("--dev");
    reveal_strlit("-v");
    reveal_strlit("--verbose");
    reveal_strlit("--raw");
    assert("--dev"@[2] == 'd' && "--raw"@[2] == 'r');
    assert("--dev"@.len() == 5 && "-v"@.len() == 2 && "--verbose"@.len() == 9);
    cli::law_assets_are_installed_where_asked(
        "--dev"@,
        if rest.len() > 0 {
            rest.drop_first()
        } else {
            rest
        },
    );
}

/// What is neither a flag nor a switch is spoken if it does not start with `--`, and reported as
/// it was written if it does.
pub proof fn law_other_flags_are_reported(
    args: &Vec<String>,
    r: Result<Command, CliError>,
    first: Seq<char>,
    rest: Seq<Seq<char>>,
)
    requires
        call_ensures(parse_command, (args,), r),
        text::texts(args@) == seq![first] + rest,
        first != "-v"@,
        first != "--verbose"@,
        first != "--raw"@,
        first != "--install-assets"@,
        first != "--help"@,
        first != "-h"@,
        first != "--version"@,
        first != "-V"@,
        first != "--show-text"@,
        first != "--serve"@,
        first != "--send"@,
        first != "--"@,
    ensures
        first.len() >= 2 && first[0] == '-' && first[1] == '-' ==> (r matches Err(
            CliError::UnknownFlag(arg),
        ) && arg@ == first),
        !(first.len() >= 2 && first[0] == '-' && first[1] == '-') ==> r == Ok::<Command, CliError>(
            Command::Speak,
        ),
{
    cli::law_unknown_flags_are_reported(first, rest);
}

/// Switches count wherever they stand, and nothing else does.
pub proof fn law_switches_are_found(args: &Vec<String>, verbose: bool, raw: bool, i: int)
    requires
        call_ensures(wants_verbose, (args,), verbose),
        call_ensures(wants_raw, (args,), raw),
    ensures
        0 <= i < args@.len() && (args@[i]@ == "-v"@ || args@[i]@ == "--verbose"@) ==> verbose,
        0 <= i < args@.len() && args@[i]@ == "--raw"@ ==> raw,
        (forall|k: int|
            0 <= k < args@.len() ==> (#[trigger] args@[k])@ != "-v"@ && args@[k]@ != "--verbose"@)
            ==> !verbose,
        (forall|k: int| 0 <= k < args@.len() ==> (#[trigger] args@[k])@ != "--raw"@) ==> !raw,
{
    let all = text::texts(args@);
    assert(forall|k: int| 0 <= k < args@.len() ==> #[trigger] all[k] == args@[k]@);
    if 0 <= i < args@.len() {
        assert(all[i] == args@[i]@);
        assert(all.contains(all[i]));
    }
}

// ---- who plays it ----
/// ffplay is preferred to pacat, which needs a PulseAudio server; with neither there is no sink.
/// Both are told to expect 24000 32-bit floats per second on one channel.
pub proof fn law_sinks_are_picked_in_order(
    has_ffplay: bool,
    has_pacat: bool,
    r: Result<SinkCommand, SinkError>,
)
    requires
        call_ensures(build_sink_command, (has_ffplay, has_pacat), r),
    ensures
        has_ffplay ==> (r matches Ok(c) && c.program@ == "ffplay"@ && !c.needs_pulse
            && c.args@.len() == 19 && c.args@[11]@ == "-f"@ && c.args@[12]@ == "f32le"@
            && c.args@[13]@ == "-ar"@ && number::number_in(c.args@[14]@) == Some(24000u64)
            && c.args@[15]@ == "-ac"@ && c.args@[16]@ == "1"@ && c.args@[17]@ == "-i"@
            && c.args@[18]@ == "pipe:0"@),
        !has_ffplay && has_pacat ==> (r matches Ok(c) && c.program@ == "pacat"@ && c.needs_pulse
            && c.args@.len() == 6 && c.args@[1]@ == "--format=float32le"@ && c.args@[2]@
            == "--rate"@ && number::number_in(c.args@[3]@) == Some(24000u64) && c.args@[4]@
            == "--channels=1"@),
        !has_ffplay && !has_pacat ==> r == Err::<SinkCommand, SinkError>(SinkError::NotFound),
{
    sink::law_sinks_know_the_format();
    if has_ffplay || has_pacat {
        let args = text::texts(r->Ok_0.args@);
        assert(args.len() == r->Ok_0.args@.len());
        assert(forall|k: int|
            0 <= k < args.len() ==> #[trigger] args[k] == r->Ok_0.args@[k]@);
        if has_ffplay {
            assert(args[11] == "-f"@ && args[12] == "f32le"@ && args[13] == "-ar"@);
            assert(args[15] == "-ac"@ && args[16] == "1"@ && args[17] == "-i"@);
            assert(args[18] == "pipe:0"@);
            assert(number::number_in(args[14]) == Some(24000u64));
        } else {
            assert(args[1] == "--format=float32le"@ && args[2] == "--rate"@);
            assert(args[4] == "--channels=1"@);
            assert(number::number_in(args[3]) == Some(24000u64));
        }
    }
}

/// PulseAudio is started if it is there and not running, and only then; with the arguments that
/// the environment adds behind its own.
pub proof fn law_pulseaudio_is_started_when_missing(
    installed: bool,
    running: bool,
    starts: bool,
    android: bool,
    extra: &str,
    args: Vec<String>,
)
    requires
        call_ensures(starts_pulseaudio, (installed, running), starts),
        call_ensures(pulseaudio_start_args, (android, Some(extra)), args),
    ensures
        starts == (installed && !running),
        text::texts(args@) == (if android {
            seq!["--start"@, "--load=module-sles-sink"@]
        } else {
            seq!["--start"@]
        }) + text::words_of(extra@),
{
}

// ---- where the assets are ----
/// The override wins, then the first place that has a bundle: the user's data directory, the
/// working directory, the one beside the executable. With none the user's data directory is named.
pub proof fn law_asset_places_are_tried_in_order(
    dir: PathBuf,
    user: Place,
    cwd: Place,
    exe: Place,
    given: PathBuf,
    found: PathBuf,
)
    requires
        call_ensures(local_assets_dir, (Some(dir), Some(user), cwd, Some(exe)), given),
        call_ensures(local_assets_dir, (None, Some(user), cwd, Some(exe)), found),
    ensures
        given == dir,
        user.exists ==> found == user.path,
        !user.exists && cwd.exists ==> found == cwd.path,
        !user.exists && !cwd.exists && exe.exists ==> found == exe.path,
        !user.exists && !cwd.exists && !exe.exists ==> found == user.path,
{
    assets::law_places_are_tried_in_order(dir, user, Some(user), cwd, exe, Some(exe));
}

/// The split model is never fetched: without one of its stages there is an error, and with both
/// only a missing voice is. The monolithic model and its voice are used only if both are there.
pub proof fn law_only_missing_voices_are_fetched(
    dir: PathBuf,
    stage1: bool,
    stage2: bool,
    model: Place,
    voice: Place,
    split: Result<TractPlan, AssetsError>,
    whole: Option<Assets>,
)
    requires
        call_ensures(resolve_assets_tract, (dir, stage1, stage2, voice), split),
        call_ensures(resolve_assets, (model, voice), whole),
    ensures
        !stage1 || !stage2 ==> split == Err::<TractPlan, AssetsError>(
            AssetsError::SplitModelMissing,
        ),
        stage1 && stage2 && voice.exists ==> (split matches Ok(TractPlan::Ready(found)) && found.dir
            == dir && found.voice_path == voice.path),
        stage1 && stage2 && !voice.exists ==> (split matches Ok(TractPlan::FetchVoice { dir: d })
            && d == dir),
        model.exists && voice.exists ==> (whole matches Some(found) && found.model_path
            == model.path && found.voice_path == voice.path),
        !model.exists || !voice.exists ==> whole is None,
{
}

/// A voice's file is named after it, here and in the repository.
pub proof fn law_voice_files_are_named_after_their_voice(voice: &str, here: String, there: String)
    requires
        call_ensures(voice_file, (voice,), here),
        call_ensures(repo_voice_file, (voice,), there),
    ensures
        here@ == voice@ + ".bin"@,
        there@ == "voices/"@ + here@,
{
    assert("voices/"@ + voice@ + ".bin"@ =~= "voices/"@ + (voice@ + ".bin"@));
}

/// A library that the environment names already is not looked for; else it is what a probe
/// printed, if it succeeded.
pub proof fn law_libraries_are_taken_from_probes(
    stdout: Vec<u8>,
    stderr: Vec<u8>,
    named: Option<String>,
    found: Option<String>,
    failed: Option<String>,
    a: Seq<char>,
    path: Seq<char>,
    b: Seq<char>,
)
    requires
        call_ensures(
            ensure_ort_dylib,
            (true, &ProgramRun::Exited { success: true, stdout, stderr }),
            named,
        ),
        call_ensures(
            ensure_ort_dylib,
            (false, &ProgramRun::Exited { success: true, stdout, stderr }),
            found,
        ),
        call_ensures(
            ensure_ort_dylib,
            (false, &ProgramRun::Exited { success: false, stdout, stderr }),
            failed,
        ),
        text_lemmas::is_blank(a),
        text_lemmas::is_tight(path),
        text_lemmas::is_blank(b),
    ensures
        named is None,
        failed is None,
        program::lossy_text(stdout@) == a + path + b ==> (found matches Some(p) && p@ == path),
        program::lossy_text(stdout@) == a + b ==> found is None,
{
    program::law_probes_find_what_they_print(stdout, stderr, a, path, b);
}

// ---- what client and daemon say to each other ----
/// A request arrives as it was sent: voice, language, speed and text.
pub proof fn law_requests_are_read_as_written(
    voice: &str,
    lang: &str,
    speed: &str,
    text: &str,
    sent: String,
    wire: &str,
    r: Result<Job, RequestError>,
    a: Seq<char>,
    t: Seq<char>,
    b: Seq<char>,
)
    requires
        call_ensures(request, (voice, lang, speed, text), sent),
        wire@ == sent@,
        call_ensures(read_request, (wire,), r),
        voice@.len() > 0,
        lang@.len() > 0,
        request_laws::is_field(voice@),
        request_laws::is_field(lang@),
        request_laws::is_field(speed@),
        speed@.len() > 0 ==> speed@.last() != '\r',
        text@ == a + t + b,
        text_lemmas::is_blank(a),
        text_lemmas::is_tight(t),
        text_lemmas::is_blank(b),
    ensures
        r matches Ok(job) && job.voice@ == voice@ && job.lang@ == lang@ && job.text@ == t && (
        job.speed matches Some(s) && s@ == speed@),
{
    text_lemmas::law_trimming_takes_only_whitespace(a, t, b);
    text_lemmas::lemma_trimmed(text@);
    request_laws::law_requests_arrive_as_sent(voice@, lang@, speed@, text@);
    if r is Ok {
        assert(r->Ok_0@.voice == voice@);
        assert(r->Ok_0@.speed == Some(speed@));
    }
}

/// Headers are read field by field, with the usual voice and language where there is none.
pub proof fn law_headers_are_read_field_by_field(
    header: &str,
    body: &str,
    r: Result<Job, RequestError>,
    fields: Seq<Seq<char>>,
    breaks: Seq<char>,
    a: Seq<char>,
    t: Seq<char>,
    b: Seq<char>,
)
    requires
        call_ensures(parse_request, (header, body), r),
        header@ == text::joined(fields, seq!['\t']) + breaks,
        body@ == a + t + b,
        fields.len() > 0,
        forall|i: int| 0 <= i < fields.len() ==> request_laws::is_field(#[trigger] fields[i]),
        fields.last().len() > 0 ==> fields.last().last() != '\r',
        forall|i: int| 0 <= i < breaks.len() ==> #[trigger] breaks[i] == '\n' || breaks[i] == '\r',
        text_lemmas::is_blank(a),
        text_lemmas::is_tight(t),
        text_lemmas::is_blank(b),
    ensures
        r matches Ok(job) && {
            &&& job.voice@ == if fields[0].len() > 0 {
                fields[0]
            } else {
                "af_heart"@
            }
            &&& job.lang@ == if fields.len() > 1 && fields[1].len() > 0 {
                fields[1]
            } else {
                "en-us"@
            }
            &&& fields.len() > 2 ==> (job.speed matches Some(s) && s@ == fields[2])
            &&& fields.len() <= 2 ==> job.speed is None
            &&& job.text@ == t
        },
{
    request_laws::law_header_fields_are_read(fields, breaks, a, t, b);
    if r is Ok {
        assert(r->Ok_0@.voice == r->Ok_0.voice@);
        assert(r->Ok_0@.speed is Some == r->Ok_0.speed is Some);
    }
}

/// A request without text is refused, and its sender learns why; one with text is acknowledged,
/// and its sender hears of no error.
pub proof fn law_blank_requests_are_told(
    header: &str,
    body: &str,
    r: Result<Job, RequestError>,
    answer: String,
    heard: &str,
    error: Option<String>,
)
    requires
        call_ensures(parse_request, (header, body), r),
        call_ensures(reply, (&r,), answer),
        heard@ == answer@,
        call_ensures(rejection, (heard,), error),
    ensures
        text_lemmas::is_blank(body@) ==> r is Err && answer@ == "err: "@ + "empty text"@ + "\n"@ && (
        error matches Some(e) && e@ == "daemon rejected request:"@ + " "@ + "empty text"@),
        !text_lemmas::is_blank(body@) ==> r is Ok && answer@ == "ok\n"@ && error is None,
{
    text_lemmas::lemma_trimmed(body@);
    if text_lemmas::is_blank(body@) {
        request_laws::law_blank_requests_are_refused(header@, body@);
    } else {
        request_laws::law_accepted_requests_are_acknowledged(r->Ok_0@);
    }
}

/// Any refusal is quoted, and any other answer is taken for success.
pub proof fn law_refusals_are_heard(
    answer: &str,
    error: Option<String>,
    a: Seq<char>,
    why: Seq<char>,
    b: Seq<char>,
    other: Seq<char>,
)
    requires
        call_ensures(rejection, (answer,), error),
        text_lemmas::is_blank(a),
        why.len() > 0 ==> !text::is_space(why.last()),
        text_lemmas::is_blank(b),
        text_lemmas::is_tight(other),
        other.len() < 4 || other[0] != 'e' || other[1] != 'r' || other[2] != 'r' || other[3] != ':',
    ensures
        answer@ == a + ("err:"@ + why) + b ==> (error matches Some(e) && e@
            == "daemon rejected request:"@ + why),
        answer@ == a + other + b ==> error is None,
        answer@ == a + b ==> error is None,
{
    request_laws::law_refusals_are_quoted(a, why, b, other);
}

/// Timeouts: numbers are taken at their word, the daemon's may be turned off, and anything else
/// falls back to 30 minutes for the daemon and 10 for its sink.
pub proof fn law_timeouts_are_parsed(
    s: &str,
    secs: Option<u64>,
    ms: u64,
    usual_secs: Option<u64>,
    usual_ms: u64,
    n: u64,
)
    requires
        call_ensures(parse_idle_timeout, (Some(s),), secs),
        call_ensures(parse_sink_idle_ms, (Some(s),), ms),
        call_ensures(parse_idle_timeout, (None,), usual_secs),
        call_ensures(parse_sink_idle_ms, (None,), usual_ms),
    ensures
        usual_secs == Some(1800u64),
        usual_ms == 600_000,
        s@ == number::decimal(n as nat) && n > 0 ==> secs == Some(n),
        s@ == number::decimal(n as nat) ==> ms == n,
        s@ == ""@ || s@ == "0"@ || s@ == "off"@ || s@ == "none"@ || s@ == "-1"@ ==> secs is None,
        number::number_in(s@) is None && s@ != ""@ && s@ != "off"@ && s@ != "none"@ && s@ != "-1"@
            ==> secs == Some(1800u64),
        number::number_in(s@) is None ==> ms == 600_000,
{
    timeouts::law_defaults_are_minutes();
    timeouts::law_numbers_are_taken_as_they_are(n);
    timeouts::law_garbage_falls_back(s@);
}

/// A number that is written is read back, and is written without leading zeros.
pub proof fn law_numbers_are_read_back(n: u64, written: Vec<char>, s: &[char], r: Option<u64>)
    requires
        call_ensures(to_decimal, (n,), written),
        s@ == written@,
        call_ensures(parse_u64, (s,), r),
    ensures
        r == Some(n),
        n > 0 ==> written@[0] != '0',
{
    number::law_decimal_is_read_back(n);
    number::law_decimals_have_no_leading_zero(n as nat);
}

// ---- how it is played ----
/// A chunk that comes to an idle session has a sink spawned for it and is written; one that comes
/// while a sink is open is written to that.
pub proof fn law_chunks_are_played(
    idle_ms: u64,
    held: bool,
    s0: Stage,
    a0: Action,
    s1: (Stage, Notice),
    a1: Action,
    s2: (Stage, Notice),
    a2: Action,
    s3: (Stage, Notice),
    a3: Action,
    s4: (Stage, Notice),
    a4: Action,
)
    requires
        ({
            let life = Lifetime::Sessions { idle_ms };
            &&& call_ensures(start, (life,), s0)
            &&& call_ensures(action, (life, s0, held), a0)
            &&& call_ensures(step, (life, s0, Event::Chunk), s1)
            &&& call_ensures(action, (life, s1.0, held), a1)
            &&& call_ensures(step, (life, s1.0, Event::Spawned), s2)
            &&& call_ensures(action, (life, s2.0, held), a2)
            &&& call_ensures(step, (life, s2.0, Event::Written), s3)
            &&& call_ensures(action, (life, s3.0, held), a3)
            &&& call_ensures(step, (life, s3.0, Event::Chunk), s4)
            &&& call_ensures(action, (life, s4.0, held), a4)
        }),
    ensures
        a0 == Action::Receive,
        a1 == Action::Spawn,
        a2 == Action::Write,
        held ==> a3 == (Action::ReceiveFor { ms: 200 }),
        !held ==> a3 == (Action::ReceiveFor { ms: idle_ms }),
        a4 == Action::Write,
{
}

/// A sink that nobody holds is closed when nothing came for the grace period, and a held one is
/// not; the end of the queue closes it in any case, and ends playback once it is closed.
pub proof fn law_idle_sinks_are_closed(
    idle_ms: u64,
    held: bool,
    stage: Stage,
    idle: (Stage, Notice),
    a0: Action,
    over: (Stage, Notice),
    a1: Action,
    closed: (Stage, Notice),
    a2: Action,
)
    requires
        stage == Stage::Open,
        ({
            let life = Lifetime::Sessions { idle_ms };
            &&& call_ensures(step, (life, stage, Event::Timeout { held }), idle)
            &&& call_ensures(action, (life, idle.0, held), a0)
            &&& call_ensures(step, (life, stage, Event::Disconnected), over)
            &&& call_ensures(action, (life, over.0, held), a1)
            &&& call_ensures(step, (life, over.0, Event::Closed), closed)
            &&& call_ensures(action, (life, closed.0, held), a2)
        }),
    ensures
        held ==> idle.0 == Stage::Open && idle.1 == Notice::Nothing,
        !held ==> a0 == Action::Close && idle.1 == Notice::IdleClosing,
        a1 == Action::Close,
        a2 == Action::Stop,
{
}

/// An error of a sink is quoted in what is reported of it.
pub proof fn law_reported_errors_are_quoted(
    error: &str,
    retry: Option<String>,
    write: Option<String>,
    respawn: Option<String>,
    nothing: Option<String>,
)
    requires
        call_ensures(notice_line, (Notice::WillRetry, error), retry),
        call_ensures(notice_line, (Notice::WriteFailed, error), write),
        call_ensures(notice_line, (Notice::WillRespawn, error), respawn),
        call_ensures(notice_line, (Notice::Nothing, error), nothing),
    ensures
        retry matches Some(s) && s@ == "[kokoro] "@ + error@ + "; will retry on next chunk"@,
        write matches Some(s) && s@ == "[kokoro] audio sink write failed: "@ + error@
            + "; will respawn on next chunk"@,
        respawn matches Some(s) && s@ == "[kokoro] "@ + error@ + "; will respawn on next chunk"@,
        nothing is None,
{
}

/// A sink counts as live while it is written to, open or being closed, and at no other time.
pub proof fn law_live_sinks_are_told(stage: Stage, r: bool)
    requires
        call_ensures(sink_is_live, (stage,), r),
    ensures
        r == (stage is Writing || stage is Open || stage is Closing),
{
}

/// An input starts with its first sentence, and is done with at once if it has none; the current
/// sentence is the one to be prepared.
pub proof fn law_inputs_start_with_their_first_sentence(
    total: usize,
    s: Speaking,
    first: SpeakAction,
    later: Speaking,
    next: SpeakAction,
)
    requires
        call_ensures(Speaking::new, (total,), s),
        call_ensures(Speaking::action, (&s,), first),
        call_ensures(Speaking::action, (&later,), next),
    ensures
        total > 0 ==> first == (SpeakAction::Prepare { index: 0 }),
        total == 0 ==> first == SpeakAction::Finish,
        later.stage == SpeakStage::Preparing ==> next == (SpeakAction::Prepare {
            index: later.current,
        }),
        later.stage == SpeakStage::Synthesizing ==> next == SpeakAction::Synthesize,
        later.stage == SpeakStage::Pushing ==> next == SpeakAction::Push,
        later.stage == SpeakStage::Finished ==> next == SpeakAction::Finish,
        later.stage == SpeakStage::Aborted ==> next == SpeakAction::Abort,
{
}

/// There is a warning exactly of an input that is done with and of which nothing was spoken.
pub proof fn law_silence_is_warned_of(s: Speaking, r: Option<String>, warning: String)
    requires
        call_ensures(Speaking::warning, (&s,), r),
        call_ensures(warn_nothing_spoken, (s.failed,), warning),
    ensures
        s.stage == SpeakStage::Finished && s.spoken == 0 ==> (r matches Some(w) && w@ == warning@),
        s.stage != SpeakStage::Finished || s.spoken > 0 ==> r is None,
{
}

/// A daemon that leaves says after how many seconds.
pub proof fn law_shutdowns_are_explained(secs: u64, line: String, digits: Vec<char>)
    requires
        call_ensures(shutdown_line, (secs,), line),
        call_ensures(to_decimal, (secs,), digits),
    ensures
        line@ == "[ryk-serve] idle for "@ + digits@ + "s; shutting down"@,
{
}

// ---- what is kept ----
/// A switch is settled by the first one who sets it or asks for it, the environment giving the
/// answer then, and it keeps that; the other switch is not touched.
pub proof fn law_switches_are_settled_once(
    by_setter: &mut Switches,
    by_asker: &mut Switches,
    v: bool,
    in_env: bool,
    r: bool,
)
    requires
        call_ensures(set_verbose, (by_setter, v), ()),
        call_ensures(verbose, (by_asker, in_env), r),
    ensures
        old(by_setter).verbose is None ==> final(by_setter).verbose == Some(v),
        old(by_setter).verbose is Some ==> final(by_setter).verbose == old(by_setter).verbose,
        final(by_setter).strip_markdown == old(by_setter).strip_markdown,
        old(by_asker).verbose is None ==> r == in_env && final(by_asker).verbose == Some(in_env),
        old(by_asker).verbose is Some ==> Some(r) == old(by_asker).verbose
            && final(by_asker).verbose == old(by_asker).verbose,
        final(by_asker).strip_markdown == old(by_asker).strip_markdown,
{
}

/// The same holds of the markdown pass, which runs unless the environment asks for raw input.
pub proof fn law_the_markdown_pass_is_settled_once(
    by_setter: &mut Switches,
    by_asker: &mut Switches,
    v: bool,
    raw_in_env: bool,
    r: bool,
)
    requires
        call_ensures(set_strip_markdown, (by_setter, v), ()),
        call_ensures(strip_markdown, (by_asker, raw_in_env), r),
    ensures
        old(by_setter).strip_markdown is None ==> final(by_setter).strip_markdown == Some(v),
        old(by_setter).strip_markdown is Some ==> final(by_setter).strip_markdown == old(by_setter).strip_markdown,
        final(by_setter).verbose == old(by_setter).verbose,
        old(by_asker).strip_markdown is None ==> r == !raw_in_env && final(by_asker).strip_markdown
            == Some(!raw_in_env),
        old(by_asker).strip_markdown is Some ==> Some(r) == old(by_asker).strip_markdown
            && final(by_asker).strip_markdown == old(by_asker).strip_markdown,
        final(by_asker).verbose == old(by_asker).verbose,
{
}

/// A voice that was asked for before is where it was then; any other is taken from the bundle and
/// remembered, or is to be fetched if the bundle doesn't carry it. No other voice is touched.
pub proof fn law_voices_are_looked_for_once(
    cache: &mut VoiceCache,
    voice: &str,
    local: Place,
    r: VoiceStep,
    other: Seq<char>,
)
    requires
        call_ensures(resolve_voice, (cache, voice, local), r),
    ensures
        old(cache)@.contains_key(voice@) ==> r == VoiceStep::Known(old(cache)@[voice@])
            && final(cache)@ == old(cache)@,
        !old(cache)@.contains_key(voice@) && local.exists ==> r == VoiceStep::Known(local.path)
            && final(cache)@.contains_key(voice@) && final(cache)@[voice@] == local.path,
        !old(cache)@.contains_key(voice@) && !local.exists ==> r is Fetch && final(cache)@ == old(cache)@,
        other != voice@ ==> final(cache)@.contains_key(other) == old(cache)@.contains_key(other),
        other != voice@ && old(cache)@.contains_key(other) ==> final(cache)@[other] == old(cache)@[other],
{
}

/// A voice that was fetched is remembered where it was put.
pub proof fn law_fetched_voices_are_remembered(
    cache: &mut VoiceCache,
    voice: &str,
    path: PathBuf,
    other: Seq<char>,
)
    requires
        call_ensures(VoiceCache::remember, (cache, voice, path), ()),
    ensures
        final(cache)@.contains_key(voice@) && final(cache)@[voice@] == path,
        other != voice@ ==> final(cache)@.contains_key(other) == old(cache)@.contains_key(other),
        other != voice@ && old(cache)@.contains_key(other) ==> final(cache)@[other] == old(cache)@[other],
{
}

/// A client is served and ends the daemon's idle time; work and sound end it too. Idle, the daemon
/// looks again every quarter of a second, and leaves as soon as its timeout has passed since it
/// was first found idle.
pub proof fn law_the_daemon_waits_out_its_timeout(
    since: &mut Option<u128>,
    pending: usize,
    sink_live: bool,
    now: u128,
    timeout_secs: Option<u64>,
    r: AcceptAction,
)
    requires
        call_ensures(
            accept_step,
            (since, AcceptEvent::Quiet { pending, sink_live, now }, timeout_secs),
            r,
        ),
    ensures
        pending > 0 || sink_live ==> r == (AcceptAction::Sleep { ms: 250 }) && *final(since) is None,
        pending == 0 && !sink_live && *old(since) is None ==> *final(since) == Some(now),
        pending == 0 && !sink_live && *old(since) is Some ==> *final(since) == *old(since),
        pending == 0 && !sink_live && timeout_secs is None ==> r == (AcceptAction::Sleep {
            ms: 250,
        }),
        pending == 0 && !sink_live && timeout_secs is Some && *old(since) is Some && now >= old(since)->0 + timeout_secs->0 * 1_000_000_000 ==> r == AcceptAction::ShutDown,
        pending == 0 && !sink_live && timeout_secs is Some && timeout_secs->0 > 0 && *old(since) is Some && now < old(since)->0 + timeout_secs->0 * 1_000_000_000 ==> r == (
        AcceptAction::Sleep { ms: 250 }),
        pending == 0 && !sink_live && timeout_secs is Some && timeout_secs->0 > 0 && *old(since) is None ==> r == (AcceptAction::Sleep { ms: 250 }),
{
}

/// A client is served at once, and a look that failed is reported and tells nothing.
pub proof fn law_every_look_is_acted_on(
    since: &mut Option<u128>,
    failed: &mut Option<u128>,
    timeout_secs: Option<u64>,
    r: AcceptAction,
    s: AcceptAction,
)
    requires
        call_ensures(accept_step, (since, AcceptEvent::Connected, timeout_secs), r),
        call_ensures(accept_step, (failed, AcceptEvent::Failed, timeout_secs), s),
    ensures
        r == AcceptAction::Serve,
        *final(since) is None,
        s == AcceptAction::Report,
        *final(failed) == *old(failed),
{
}

/// A sentence that was queued or skipped gives way to the next one, and only a queued one counts
/// as spoken; what breaks ends the run.
pub proof fn law_every_sentence_gives_way_to_the_next(
    queued: &mut Speaking,
    skipped: &mut Speaking,
    failed: &mut Speaking,
    broken: &mut Speaking,
)
    requires
        call_ensures(Speaking::step, (queued, SpeakEvent::Pushed), ()),
        call_ensures(Speaking::step, (skipped, SpeakEvent::Unspeakable), ()),
        call_ensures(Speaking::step, (failed, SpeakEvent::EspeakFailed), ()),
        call_ensures(Speaking::step, (broken, SpeakEvent::Broken), ()),
        old(queued).wf() && old(queued).stage == SpeakStage::Pushing,
        old(skipped).wf() && old(skipped).stage == SpeakStage::Preparing,
        old(failed).wf() && old(failed).stage == SpeakStage::Preparing,
    ensures
        final(queued).current == old(queued).current + 1,
        final(queued).spoken == old(queued).spoken + 1,
        final(queued).failed == old(queued).failed,
        final(skipped).current == old(skipped).current + 1,
        final(skipped).spoken == old(skipped).spoken,
        final(skipped).failed == old(skipped).failed,
        final(failed).current == old(failed).current + 1,
        final(failed).spoken == old(failed).spoken,
        final(failed).failed == old(failed).failed + 1,
        final(broken).stage == SpeakStage::Aborted,
        final(queued).current < final(queued).total ==> final(queued).stage
            == SpeakStage::Preparing,
        final(queued).current == final(queued).total ==> final(queued).stage
            == SpeakStage::Finished,
        final(skipped).current < final(skipped).total ==> final(skipped).stage
            == SpeakStage::Preparing,
        final(failed).current < final(failed).total ==> final(failed).stage
            == SpeakStage::Preparing,
{
}

/// Samples are appended as a WAV file that plays them at the given rate, or at 24000 per second
/// where none is given; what was there before stays before it.
pub proof fn law_samples_are_appended_as_a_file(
    out: &mut Vec<u8>,
    usual: &mut Vec<u8>,
    samples: &[i16],
    sample_rate: u32,
)
    requires
        call_ensures(write_wav_i16, (out, samples, sample_rate), ()),
        call_ensures(write_wav, (usual, samples), ()),
    ensures
        final(out)@ == old(out)@ + wav::wav(samples@, sample_rate as int),
        final(usual)@ == old(usual)@ + wav::wav(samples@, 24000),
{
}

// ---- what is reported ----
/// Errors of the command line quote the argument that they are about.
pub proof fn law_command_line_errors_quote_the_argument(e: &CliError, r: String)
    requires
        call_ensures(CliError::message, (e,), r),
    ensures
        match e {
            CliError::UnknownInstallArgument(arg) => r@ == "unknown argument `"@ + arg@
                + "` to --install-assets (only `--dev` accepted)"@,
            CliError::UnknownFlag(arg) => r@ == "unknown flag `"@ + arg@
                + "` (see `ryk --help`)"@,
        },
{
}

/// Who has nothing to speak is told how to pass text, which is another way for the client.
pub proof fn law_missing_text_is_reported(e: &TextError, mine: String, clients: String)
    requires
        call_ensures(TextError::message, (e, Reader::OneShot), mine),
        call_ensures(TextError::message, (e, Reader::Client), clients),
    ensures
        mine@ == "no text provided (pass as args or pipe to stdin)"@,
        clients@ == "no text provided (pass after --send or pipe to stdin)"@,
{
}

/// Where espeak-ng failed, what it said is reported; where it could not be started, that is; and
/// a chunk that could not be prepared for either is reported in the same words.
pub proof fn law_espeak_errors_are_reported(
    why: String,
    failed: String,
    not_run: String,
    unprepared: String,
    voice: String,
)
    requires
        call_ensures(PhonemizeError::message, (&PhonemizeError::Failed(why),), failed),
        call_ensures(PhonemizeError::message, (&PhonemizeError::NotRun,), not_run),
        call_ensures(
            PrepareError::message,
            (&PrepareError::Phonemize(PhonemizeError::Failed(why)),),
            unprepared,
        ),
        call_ensures(PrepareError::message, (&PrepareError::Voice,), voice),
    ensures
        failed@ == "espeak-ng failed: "@ + why@,
        not_run@ == "running espeak-ng (is it installed?)"@,
        unprepared@ == failed@,
        voice@ == "reading voice file"@,
{
}

/// A directory without the split model is named, and so is what to do about it; a machine without
/// a sink is told which programs are one; a request without text is called that.
pub proof fn law_setup_errors_are_reported(
    dir: &str,
    model: String,
    sink: String,
    request: String,
)
    requires
        call_ensures(AssetsError::message, (&AssetsError::SplitModelMissing, dir), model),
        call_ensures(SinkError::message, (&SinkError::NotFound,), sink),
        call_ensures(RequestError::message, (&RequestError::EmptyText,), request),
    ensures
        model@ == "split model not found in "@ + dir@
            + " (need stage1.onnx + stage2.onnx).\n  run `ryk --install-assets` to fetch the bundle, or point KOKORO_TRACT_DIR at a directory that has them."@,
        sink@ == "no audio sink found: install ffmpeg (for ffplay) or pulseaudio (for pacat)"@,
        request@ == "empty text"@,
{
}

} // verus!

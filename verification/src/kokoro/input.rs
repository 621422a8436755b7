//! What is to be spoken: switches, arguments and stdin.

use crate::markdown;
use crate::markdown::document;
use crate::text;
use crate::text_lemmas;
use vstd::prelude::*;

verus! {

// ---- switches ----
/// Switches that are settled once: by the first one who sets them, or else by the first one
/// who asks.
#[derive(Clone, Copy, PartialEq, Eq, Structural, Debug)]
pub struct Switches {
    pub verbose: Option<bool>,
    pub strip_markdown: Option<bool>,
}

/// A switch after somebody wants it to be `v`.
pub open spec fn settled(switch: Option<bool>, v: bool) -> Option<bool> {
    match switch {
        Some(first) => Some(first),
        None => Some(v),
    }
}

fn settle(switch: &mut Option<bool>, v: bool) -> (r: bool)
    ensures
        *final(switch) == settled(*old(switch), v),
        *final(switch) == Some(r),
{
    let r: bool = match *switch {
        Some(first) => first,
        None => v,
    };
    *switch = Some(r);
    r
}

impl Switches {
    /// Nothing is settled.
    pub fn new() -> (r: Switches)
        ensures
            r.verbose is None,
            r.strip_markdown is None,
    {
        Switches { verbose: None, strip_markdown: None }
    }
}

/// Turns verbose logging on or off. The first setter wins.
pub fn set_verbose(switches: &mut Switches, v: bool)
    ensures
        *final(switches) == (Switches {
            verbose: settled(old(switches).verbose, v),
            ..*old(switches)
        }),
{
    let _: bool = settle(&mut switches.verbose, v);
}

/// Whether progress and statistics are printed. Off by default; `in_env` says that
/// `KOKORO_VERBOSE` is set.
pub fn verbose(switches: &mut Switches, in_env: bool) -> (r: bool)
    ensures
        *final(switches) == (Switches {
            verbose: settled(old(switches).verbose, in_env),
            ..*old(switches)
        }),
        final(switches).verbose == Some(r),
{
    settle(&mut switches.verbose, in_env)
}

/// Turns the markdown pass on or off. The first setter wins.
pub fn set_strip_markdown(switches: &mut Switches, v: bool)
    ensures
        *final(switches) == (Switches {
            strip_markdown: settled(old(switches).strip_markdown, v),
            ..*old(switches)
        }),
{
    let _: bool = settle(&mut switches.strip_markdown, v);
}

/// Whether the markdown pass runs. On by default; `raw_in_env` says that `KOKORO_RAW` is
/// set.
pub fn strip_markdown(switches: &mut Switches, raw_in_env: bool) -> (r: bool)
    ensures
        *final(switches) == (Switches {
            strip_markdown: settled(old(switches).strip_markdown, !raw_in_env),
            ..*old(switches)
        }),
        final(switches).strip_markdown == Some(r),
{
    settle(&mut switches.strip_markdown, !raw_in_env)
}

/// Once settled, a switch never changes.
pub proof fn law_the_first_setter_wins(switch: Option<bool>, v: bool, w: bool)
    ensures
        settled(settled(switch, v), w) == settled(switch, v),
        settled(None, v) == Some(v),
{
}

// ---- cleanup ----
/// `s` without its markdown, or as it is.
pub open spec fn cleaned(s: Seq<char>, strip: bool) -> Seq<char> {
    if strip {
        document::stripped(s)
    } else {
        s
    }
}

/// Apply the markdown pass unless it's switched off. The single place both text readers
/// funnel through, so the one-shot and `--send` paths can't drift.
pub fn clean_input(text: &str, strip: bool) -> (r: String)
    ensures
        r@ == cleaned(text@, strip),
{
    if strip {
        markdown::strip(text)
    } else {
        text.to_string()
    }
}

// ---- arguments and stdin ----
/// Who reads text.
#[derive(Clone, Copy, PartialEq, Eq, Structural, Debug)]
pub enum Reader {
    /// The program that speaks.
    OneShot,
    /// The client that sends text to the daemon.
    Client,
}

/// Arguments that may appear anywhere without being spoken.
pub open spec fn is_flag(reader: Reader, arg: Seq<char>) -> bool {
    ||| arg == "-v"@
    ||| arg == "--verbose"@
    ||| arg == "--raw"@
    ||| reader is OneShot && arg == "--show-text"@
    ||| reader is Client && arg == "--send"@
}

/// The arguments that are not flags, in order.
pub open spec fn unflagged(reader: Reader, args: Seq<Seq<char>>) -> Seq<Seq<char>>
    decreases args.len(),
{
    if args.len() == 0 {
        Seq::empty()
    } else if is_flag(reader, args.last()) {
        unflagged(reader, args.drop_last())
    } else {
        unflagged(reader, args.drop_last()).push(args.last())
    }
}

/// The arguments that are text. A leading `--` is the usual separator and is dropped, which
/// is the only way to speak text that itself looks like a flag.
pub open spec fn text_args(reader: Reader, args: Seq<Seq<char>>) -> Seq<Seq<char>> {
    let rest = unflagged(reader, args);
    if rest.len() > 0 && rest[0] == "--"@ {
        rest.drop_first()
    } else {
        rest
    }
}

/// The text of stdin, or nothing if there is none to speak.
pub open spec fn piped(stdin: Seq<char>, strip: bool) -> Option<Seq<char>> {
    let s = cleaned(text::trimmed(stdin), strip);
    if text::trimmed(s).len() == 0 {
        None
    } else {
        Some(s)
    }
}

/// The text to speak: the arguments with a space between them, else what stdin holds.
pub open spec fn text_in(
    reader: Reader,
    args: Seq<Seq<char>>,
    stdin: Seq<char>,
    strip: bool,
) -> Option<Seq<char>> {
    let words = text_args(reader, args);
    if words.len() > 0 {
        Some(cleaned(text::joined(words, seq![' ']), strip))
    } else {
        piped(stdin, strip)
    }
}

/// Why there is no text.
#[derive(Clone, Copy, PartialEq, Eq, Structural, Debug)]
pub enum TextError {
    /// Neither the arguments nor stdin hold any.
    NoText,
}

fn flag(reader: Reader, arg: &[char]) -> (r: bool)
    ensures
        r == is_flag(reader, arg@),
{
    text::eq_str(arg, "-v") || text::eq_str(arg, "--verbose") || text::eq_str(arg, "--raw")
        || match reader {
        Reader::OneShot => text::eq_str(arg, "--show-text"),
        Reader::Client => text::eq_str(arg, "--send"),
    }
}

fn words(reader: Reader, args: &Vec<String>) -> (r: Vec<Vec<char>>)
    ensures
        text::views(r@) == text_args(reader, text::texts(args@)),
{
    let ghost all = text::texts(args@);
    let mut kept: Vec<Vec<char>> = Vec::new();
    let mut i: usize = 0;
    assert(text::views(kept@) =~= Seq::<Seq<char>>::empty());
    while i < args.len()
        invariant
            i <= args@.len(),
            all == text::texts(args@),
            text::views(kept@) == unflagged(reader, all.take(i as int)),
        decreases args@.len() - i,
    {
        let arg: Vec<char> = text::chars_of(args[i].as_str());
        assert(all.take(i + 1).drop_last() =~= all.take(i as int));
        assert(all.take(i + 1).last() == arg@);
        if !flag(reader, arg.as_slice()) {
            let ghost before = text::views(kept@);
            kept.push(arg);
            assert(text::views(kept@) =~= before.push(arg@));
        }
        i += 1;
    }
    assert(all.take(i as int) =~= all);
    if kept.len() > 0 && text::eq_str(kept[0].as_slice(), "--") {
        let ghost before = text::views(kept@);
        let _: Vec<char> = kept.remove(0);
        assert(text::views(kept@) =~= before.drop_first());
    }
    kept
}

/// Whether stdin is to be read: the arguments hold no text.
pub fn needs_stdin(reader: Reader, args: &Vec<String>) -> (r: bool)
    ensures
        r == (text_args(reader, text::texts(args@)).len() == 0),
{
    words(reader, args).len() == 0
}

fn read(reader: Reader, args: &Vec<String>, stdin: &str, strip: bool) -> (r: Result<
    String,
    TextError,
>)
    ensures
        match r {
            Ok(s) => text_in(reader, text::texts(args@), stdin@, strip) == Some(s@),
            Err(e) => text_in(reader, text::texts(args@), stdin@, strip) is None && e
                == TextError::NoText,
        },
{
    let parts: Vec<Vec<char>> = words(reader, args);
    if parts.len() > 0 {
        let line: Vec<char> = text::join(&parts, ' ');
        return Ok(clean_input(text::string_of(line.as_slice()).as_str(), strip));
    }
    let chars: Vec<char> = text::chars_of(stdin);
    let body: String = text::string_of(text::trim(chars.as_slice()));
    let clean: String = clean_input(body.as_str(), strip);
    let rest: Vec<char> = text::chars_of(clean.as_str());
    if text::trim(rest.as_slice()).len() == 0 {
        Err(TextError::NoText)
    } else {
        Ok(clean)
    }
}

/// Text from the arguments behind the program's name, else from stdin, with markdown syntax
/// stripped (see [`clean_input`]).
///
/// The markdown pass runs here rather than per chunk because its fenced-code state machine is
/// multi-line: it has to see the whole document before it is cut into sentences.
pub fn read_text(args: &Vec<String>, stdin: &str, strip: bool) -> (r: Result<String, TextError>)
    ensures
        match r {
            Ok(s) => text_in(Reader::OneShot, text::texts(args@), stdin@, strip) == Some(s@),
            Err(e) => text_in(Reader::OneShot, text::texts(args@), stdin@, strip) is None && e
                == TextError::NoText,
        },
{
    read(Reader::OneShot, args, stdin, strip)
}

/// Client text: the arguments around `--send` (joined), else stdin, markdown-stripped.
///
/// Stripping happens here, client-side, so `--raw` is honoured per invocation. The daemon
/// speaks whatever body it receives and never strips it again.
pub fn client_text(args: &Vec<String>, stdin: &str, strip: bool) -> (r: Result<String, TextError>)
    ensures
        match r {
            Ok(s) => text_in(Reader::Client, text::texts(args@), stdin@, strip) == Some(s@),
            Err(e) => text_in(Reader::Client, text::texts(args@), stdin@, strip) is None && e
                == TextError::NoText,
        },
{
    read(Reader::Client, args, stdin, strip)
}

impl TextError {
    pub open spec fn text(&self, reader: Reader) -> Seq<char> {
        match reader {
            Reader::OneShot => "no text provided (pass as args or pipe to stdin)"@,
            Reader::Client => "no text provided (pass after --send or pipe to stdin)"@,
        }
    }

    /// The error as it is reported.
    pub fn message(&self, reader: Reader) -> (r: String)
        ensures
            r@ == self.text(reader),
    {
        match reader {
            Reader::OneShot => "no text provided (pass as args or pipe to stdin)".to_string(),
            Reader::Client => "no text provided (pass after --send or pipe to stdin)".to_string(),
        }
    }
}

proof fn lemma_unflagged_concat(reader: Reader, a: Seq<Seq<char>>, b: Seq<Seq<char>>)
    ensures
        unflagged(reader, a + b) == unflagged(reader, a) + unflagged(reader, b),
    decreases b.len(),
{
    if b.len() == 0 {
        assert(a + b =~= a);
        assert(unflagged(reader, a) + unflagged(reader, b) =~= unflagged(reader, a));
    } else {
        lemma_unflagged_concat(reader, a, b.drop_last());
        assert((a + b).drop_last() =~= a + b.drop_last());
        assert((a + b).last() == b.last());
        assert(unflagged(reader, a + b) =~= unflagged(reader, a) + unflagged(reader, b));
    }
}

/// A flag may appear anywhere among the arguments: the text is the same without it.
pub proof fn law_flags_are_not_spoken(
    reader: Reader,
    a: Seq<Seq<char>>,
    flag: Seq<char>,
    b: Seq<Seq<char>>,
    stdin: Seq<char>,
    strip: bool,
)
    requires
        flag == "-v"@ || flag == "--verbose"@ || flag == "--raw"@ || flag == (match reader {
            Reader::OneShot => "--show-text"@,
            Reader::Client => "--send"@,
        }),
    ensures
        text_in(reader, a + seq![flag] + b, stdin, strip) == text_in(reader, a + b, stdin, strip),
{
    lemma_unflagged_concat(reader, a + seq![flag], b);
    lemma_unflagged_concat(reader, a, b);
    assert((a + seq![flag]).drop_last() =~= a);
}

proof fn lemma_unflagged_none(reader: Reader, args: Seq<Seq<char>>)
    requires
        forall|i: int| 0 <= i < args.len() ==> !is_flag(reader, #[trigger] args[i]),
    ensures
        unflagged(reader, args) == args,
    decreases args.len(),
{
    if args.len() > 0 {
        let front = args.drop_last();
        assert forall|i: int| 0 <= i < front.len() implies !is_flag(
            reader,
            #[trigger] front[i],
        ) by {
            assert(front[i] == args[i]);
        }
        lemma_unflagged_none(reader, front);
        assert(!is_flag(reader, args[args.len() - 1]));
        assert(front.push(args.last()) =~= args);
    }
}

/// Behind a `--` everything but flags is text, even what starts with a dash.
pub proof fn law_text_behind_the_separator_is_spoken(
    reader: Reader,
    args: Seq<Seq<char>>,
    stdin: Seq<char>,
    strip: bool,
)
    requires
        args.len() > 0,
        forall|i: int|
            0 <= i < args.len() ==> {
                &&& #[trigger] args[i] != "-v"@
                &&& args[i] != "--verbose"@
                &&& args[i] != "--raw"@
                &&& reader is OneShot ==> args[i] != "--show-text"@
                &&& reader is Client ==> args[i] != "--send"@
            },
    ensures
        text_in(reader, seq!["--"@] + args, stdin, strip) == Some(
            cleaned(text::joined(args, seq![' ']), strip),
        ),
{
    let all = seq!["--"@] + args;
    lemma_separator_is_no_flag(reader);
    assert forall|i: int| 0 <= i < all.len() implies !is_flag(reader, #[trigger] all[i]) by {
        if i > 0 {
            assert(all[i] == args[i - 1]);
        }
    }
    lemma_unflagged_none(reader, all);
    assert(all.drop_first() =~= args);
}

/// Stdin is spoken if no argument is text: all of it but the whitespace around it, line by
/// line and word by word. The markdown pass is handed exactly that, and only if it runs.
pub proof fn law_stdin_is_spoken_whole(
    reader: Reader,
    args: Seq<Seq<char>>,
    a: Seq<char>,
    t: Seq<char>,
    b: Seq<char>,
)
    requires
        forall|i: int|
            0 <= i < args.len() ==> {
                ||| #[trigger] args[i] == "-v"@
                ||| args[i] == "--verbose"@
                ||| args[i] == "--raw"@
                ||| reader is OneShot && args[i] == "--show-text"@
                ||| reader is Client && args[i] == "--send"@
            },
        text_lemmas::is_blank(a),
        text_lemmas::is_tight(t),
        text_lemmas::is_blank(b),
    ensures
        text_in(reader, args, a + t + b, false) == Some(t),
        text_in(reader, seq!["--"@] + args, a + t + b, false) == Some(t),
        text::words_of(t) == text::words_of(a + t + b),
        text_lemmas::is_blank(document::stripped(t)) ==> text_in(
            reader,
            args,
            a + t + b,
            true,
        ) is None,
        !text_lemmas::is_blank(document::stripped(t)) ==> text_in(reader, args, a + t + b, true)
            == Some(document::stripped(t)),
        text_in(reader, args, a + b, false) is None,
        text_in(reader, args, a + b, true) is None,
{
    let stdin = a + t + b;
    lemma_unflagged_all(reader, args);
    lemma_unflagged_concat(reader, seq!["--"@], args);
    lemma_separator_is_no_flag(reader);
    assert(seq!["--"@].drop_last() =~= Seq::<Seq<char>>::empty());
    assert(unflagged(reader, Seq::empty()) =~= Seq::<Seq<char>>::empty());
    assert(unflagged(reader, seq!["--"@]) =~= seq!["--"@]);
    assert(unflagged(reader, seq!["--"@] + args) =~= seq!["--"@]);
    assert(text_args(reader, seq!["--"@] + args) =~= Seq::<Seq<char>>::empty());
    text_lemmas::law_trimming_takes_only_whitespace(a, t, b);
    text_lemmas::lemma_trimmed(stdin);
    text_lemmas::lemma_trimmed(t);
    assert(text::words_of(t).len() > 0) by {
        assert(!text::is_space(t[0]));
    }
    text_lemmas::lemma_trimmed(document::stripped(t));
    let none = text::trimmed(a + b);
    assert(none =~= Seq::<char>::empty());
    text_lemmas::lemma_trimmed(none);
    assert(text::lines_of(Seq::<char>::empty()) =~= Seq::<Seq<char>>::empty());
    assert(document::stripped(Seq::empty()) =~= Seq::<char>::empty());
}

proof fn lemma_unflagged_all(reader: Reader, args: Seq<Seq<char>>)
    requires
        forall|i: int| 0 <= i < args.len() ==> is_flag(reader, #[trigger] args[i]),
    ensures
        unflagged(reader, args) == Seq::<Seq<char>>::empty(),
    decreases args.len(),
{
    if args.len() > 0 {
        let front = args.drop_last();
        assert forall|i: int| 0 <= i < front.len() implies is_flag(reader, #[trigger] front[i]) by {
            assert(front[i] == args[i]);
        }
        lemma_unflagged_all(reader, front);
        assert(is_flag(reader, args[args.len() - 1]));
    }
}

/// Arguments are spoken in their order, with a space between them, and stdin has no say. Only
/// the few flags, and a `--` in front, are left out.
pub proof fn law_arguments_are_spoken_in_order(
    reader: Reader,
    args: Seq<Seq<char>>,
    last: Seq<char>,
    stdin: Seq<char>,
)
    requires
        forall|i: int|
            0 <= i < args.push(last).len() ==> {
                &&& #[trigger] args.push(last)[i] != "-v"@
                &&& args.push(last)[i] != "--verbose"@
                &&& args.push(last)[i] != "--raw"@
                &&& reader is OneShot ==> args.push(last)[i] != "--show-text"@
                &&& reader is Client ==> args.push(last)[i] != "--send"@
            },
        args.push(last)[0] != "--"@,
    ensures
        args.len() == 0 ==> text_in(reader, args.push(last), stdin, false) == Some(last),
        args.len() > 0 ==> text_in(reader, args, stdin, false) is Some && text_in(
            reader,
            args.push(last),
            stdin,
            false,
        ) == Some(text_in(reader, args, stdin, false)->0 + seq![' '] + last),
        text_in(reader, args.push(last), stdin, true) == Some(
            document::stripped(text_in(reader, args.push(last), stdin, false)->0),
        ),
{
    let all = args.push(last);
    lemma_unflagged_none(reader, all);
    assert forall|i: int| 0 <= i < args.len() implies !is_flag(reader, #[trigger] args[i]) by {
        assert(args[i] == all[i]);
    }
    lemma_unflagged_none(reader, args);
    assert(all.drop_last() =~= args);
    if args.len() > 0 {
        assert(args[0] == all[0]);
    }
}

proof fn lemma_separator_is_no_flag(reader: Reader)
    ensures
        !is_flag(reader, "--"@),
{
    reveal_strlit("--");
    reveal_strlit("-v");
    reveal_strlit("--verbose");
    reveal_strlit("--raw");
    reveal_strlit("--show-text");
    reveal_strlit("--send");
    assert("-v"@[1] == 'v' && "--"@[1] == '-');
    assert("--"@.len() == 2 && "--raw"@.len() == 5 && "--send"@.len() == 6);
    assert("--verbose"@.len() == 9 && "--show-text"@.len() == 11);
}

} // verus!

//! The wire protocol: one utterance per connection, delimited by its end.
//!
//! ```text
//! line 1:  "<voice>\t<lang>\t<speed>\n"
//! body:    UTF-8 text
//! ```

use crate::text;
use vstd::prelude::*;

verus! {

/// A queued utterance: per-request config plus the text to speak.
pub struct Job {
    pub voice: String,
    pub lang: String,
    /// The speed as it was sent; how fast that is, is for the synthesizer to say.
    pub speed: Option<String>,
    pub text: String,
}

/// A job, as text.
pub struct Utterance {
    pub voice: Seq<char>,
    pub lang: Seq<char>,
    pub speed: Option<Seq<char>>,
    pub text: Seq<char>,
}

impl View for Job {
    type V = Utterance;

    open spec fn view(&self) -> Utterance {
        Utterance {
            voice: self.voice@,
            lang: self.lang@,
            speed: match self.speed {
                Some(s) => Some(s@),
                None => None,
            },
            text: self.text@,
        }
    }
}

/// Why a request is refused.
#[derive(Clone, Copy, PartialEq, Eq, Structural, Debug)]
pub enum RequestError {
    /// There is nothing to speak.
    EmptyText,
}

// ---- what the daemon reads ----
/// `s` without the line breaks that it ends with.
pub open spec fn without_breaks(s: Seq<char>) -> Seq<char>
    decreases s.len(),
{
    if s.len() > 0 && (s.last() == '\n' || s.last() == '\r') {
        without_breaks(s.drop_last())
    } else {
        s
    }
}

/// The pieces of `s` between its tabs.
pub open spec fn fields_of(s: Seq<char>) -> Seq<Seq<char>>
    decreases s.len(),
{
    proof {
        text::lemma_index_of(s, '\t', 0);
    }
    match text::index_of(s, '\t', 0) {
        None => seq![s],
        Some(k) => seq![s.take(k)] + fields_of(s.skip(k + 1)),
    }
}

/// Field `i`, if there is one and it isn't empty, else the default.
pub open spec fn field_or(fields: Seq<Seq<char>>, i: int, default: Seq<char>) -> Seq<char> {
    if i < fields.len() && fields[i].len() > 0 {
        fields[i]
    } else {
        default
    }
}

/// What a request asks for: missing and empty fields fall back to the usual defaults, and
/// fields beyond the third are ignored. A request without text asks for nothing.
pub open spec fn requested(header: Seq<char>, body: Seq<char>) -> Option<Utterance> {
    let fields = fields_of(without_breaks(header));
    let spoken = text::trimmed(body);
    if spoken.len() == 0 {
        None
    } else {
        Some(
            Utterance {
                voice: field_or(fields, 0, "af_heart"@),
                lang: field_or(fields, 1, "en-us"@),
                speed: if fields.len() > 2 {
                    Some(fields[2])
                } else {
                    None
                },
                text: spoken,
            },
        )
    }
}

/// How much of a connection's bytes is the header: the first line, with its line feed.
pub open spec fn header_len(wire: Seq<char>) -> int {
    match text::index_of(wire, '\n', 0) {
        Some(k) => k + 1,
        None => wire.len() as int,
    }
}

/// What a whole connection asks for.
pub open spec fn received(wire: Seq<char>) -> Option<Utterance> {
    requested(wire.take(header_len(wire)), wire.skip(header_len(wire)))
}

fn drop_breaks(s: &[char]) -> (r: &[char])
    ensures
        r@ == without_breaks(s@),
{
    let mut n: usize = s.len();
    assert(s@.take(n as int) =~= s@);
    while n > 0 && (s[n - 1] == '\n' || s[n - 1] == '\r')
        invariant
            n <= s@.len(),
            without_breaks(s@.take(n as int)) == without_breaks(s@),
        decreases n,
    {
        assert(s@.take(n as int).drop_last() =~= s@.take(n - 1));
        n -= 1;
    }
    assert(s@.subrange(0, n as int) =~= s@.take(n as int));
    vstd::slice::slice_subrange(s, 0, n)
}

fn split_fields(s: &[char]) -> (r: Vec<Vec<char>>)
    ensures
        text::views(r@) == fields_of(s@),
{
    let mut out: Vec<Vec<char>> = Vec::new();
    let mut start: usize = 0;
    let mut i: usize = 0;
    assert(s@.skip(0) =~= s@);
    assert(text::views(out@) + fields_of(s@) =~= fields_of(s@));
    while i < s.len()
        invariant
            start <= i <= s@.len(),
            text::index_of(s@, '\t', start as int) == text::index_of(s@, '\t', i as int),
            text::views(out@) + fields_of(s@.skip(start as int)) == fields_of(s@),
        decreases s@.len() - i,
    {
        if s[i] == '\t' {
            let ghost rest = s@.skip(start as int);
            let ghost before = text::views(out@);
            proof {
                text::lemma_index_of_skip(s@, '\t', start as int);
            }
            let field: Vec<char> = vstd::slice::slice_to_vec(
                vstd::slice::slice_subrange(s, start, i),
            );
            assert(field@ =~= rest.take(i - start));
            assert(rest.skip(i - start + 1) =~= s@.skip(i + 1));
            out.push(field);
            assert(text::views(out@) =~= before.push(field@));
            start = i + 1;
            assert(text::views(out@) + fields_of(s@.skip(start as int)) =~= before + (seq![field@]
                + fields_of(s@.skip(start as int))));
        }
        i += 1;
    }
    let ghost rest = s@.skip(start as int);
    let ghost before = text::views(out@);
    proof {
        text::lemma_index_of_skip(s@, '\t', start as int);
    }
    let field: Vec<char> = vstd::slice::slice_to_vec(
        vstd::slice::slice_subrange(s, start, s.len()),
    );
    assert(field@ =~= rest);
    out.push(field);
    assert(text::views(out@) =~= before + seq![rest]);
    out
}

fn pick_field(fields: &Vec<Vec<char>>, i: usize, default: &str) -> (r: String)
    ensures
        r@ == field_or(text::views(fields@), i as int, default@),
{
    if i < fields.len() && fields[i].len() > 0 {
        text::string_of(fields[i].as_slice())
    } else {
        default.to_string()
    }
}

/// Parse the wire request: a tab-separated `voice\tlang\tspeed` header line, then the body
/// text. Missing/short fields fall back to the usual defaults.
pub fn parse_request(header: &str, body: &str) -> (r: Result<Job, RequestError>)
    ensures
        match r {
            Ok(job) => requested(header@, body@) == Some(job@),
            Err(e) => requested(header@, body@) is None && e == RequestError::EmptyText,
        },
{
    let chars: Vec<char> = text::chars_of(header);
    let fields: Vec<Vec<char>> = split_fields(drop_breaks(chars.as_slice()));
    let voice: String = pick_field(&fields, 0, "af_heart");
    let lang: String = pick_field(&fields, 1, "en-us");
    let speed: Option<String> = if fields.len() > 2 {
        Some(text::string_of(fields[2].as_slice()))
    } else {
        None
    };
    let body: Vec<char> = text::chars_of(body);
    let spoken: &[char] = text::trim(body.as_slice());
    if spoken.len() == 0 {
        return Err(RequestError::EmptyText);
    }
    Ok(Job { voice, lang, speed, text: text::string_of(spoken) })
}

/// Read one utterance: everything that came over a connection until the client closed its
/// half.
pub fn read_request(wire: &str) -> (r: Result<Job, RequestError>)
    ensures
        match r {
            Ok(job) => received(wire@) == Some(job@),
            Err(e) => received(wire@) is None && e == RequestError::EmptyText,
        },
{
    let chars: Vec<char> = text::chars_of(wire);
    let n: usize = match text::find_char(chars.as_slice(), '\n', 0) {
        Some(k) => k + 1,
        None => chars.len(),
    };
    let head: &[char] = vstd::slice::slice_subrange(chars.as_slice(), 0, n);
    let tail: &[char] = vstd::slice::slice_subrange(chars.as_slice(), n, chars.len());
    assert(head@ =~= wire@.take(n as int));
    assert(tail@ =~= wire@.skip(n as int));
    parse_request(text::string_of(head).as_str(), text::string_of(tail).as_str())
}

impl RequestError {
    pub open spec fn text(&self) -> Seq<char> {
        "empty text"@
    }

    /// The error as it is reported, to the client and in the daemon's log.
    pub fn message(&self) -> (r: String)
        ensures
            r@ == self.text(),
    {
        "empty text".to_string()
    }
}

/// What a client is answered.
pub open spec fn answer(asked: Option<Utterance>) -> Seq<char> {
    match asked {
        Some(_) => "ok\n"@,
        None => "err: "@ + RequestError::EmptyText.text() + "\n"@,
    }
}

/// The line that acknowledges a request, or refuses it and says why.
pub fn reply(request: &Result<Job, RequestError>) -> (r: String)
    ensures
        r@ == answer(
            match request {
                Ok(job) => Some(job@),
                Err(_) => None,
            },
        ),
{
    match request {
        Ok(_) => "ok\n".to_string(),
        Err(e) => text::concat3("err: ", e.message().as_str(), "\n"),
    }
}

// ---- what the client sends ----
/// The header line of a request.
pub open spec fn header_line(voice: Seq<char>, lang: Seq<char>, speed: Seq<char>) -> Seq<char> {
    voice + seq!['\t'] + lang + seq!['\t'] + speed + seq!['\n']
}

/// A whole request.
pub open spec fn wire_of(
    voice: Seq<char>,
    lang: Seq<char>,
    speed: Seq<char>,
    text: Seq<char>,
) -> Seq<char> {
    header_line(voice, lang, speed) + text
}

/// The request that speaks `text`.
pub fn request(voice: &str, lang: &str, speed: &str, text: &str) -> (r: String)
    ensures
        r@ == wire_of(voice@, lang@, speed@, text@),
{
    let mut out: Vec<char> = text::chars_of(voice);
    out.push('\t');
    text::append_str(&mut out, lang);
    out.push('\t');
    text::append_str(&mut out, speed);
    out.push('\n');
    text::append_str(&mut out, text);
    assert(out@ =~= wire_of(voice@, lang@, speed@, text@));
    text::string_of(out.as_slice())
}

/// How the daemon refused, if it did.
pub open spec fn refusal(answer: Seq<char>) -> Option<Seq<char>> {
    let line = text::trimmed(answer);
    if "err:"@.is_prefix_of(line) {
        Some("daemon rejected request:"@ + line.skip("err:"@.len() as int))
    } else {
        None
    }
}

/// The error that the daemon's answer amounts to, if any.
pub fn rejection(answer: &str) -> (r: Option<String>)
    ensures
        match r {
            Some(message) => refusal(answer@) == Some(message@),
            None => refusal(answer@) is None,
        },
{
    let chars: Vec<char> = text::chars_of(answer);
    let line: &[char] = text::trim(chars.as_slice());
    proof {
        reveal_strlit("err:");
    }
    if text::starts_with(line, "err:") {
        let mut out: Vec<char> = text::chars_of("daemon rejected request:");
        assert(line@.subrange(4, line@.len() as int) =~= line@.skip(4));
        text::append_chars(&mut out, vstd::slice::slice_subrange(line, 4, line.len()));
        Some(text::string_of(out.as_slice()))
    } else {
        None
    }
}

} // verus!

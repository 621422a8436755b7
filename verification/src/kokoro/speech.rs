//! From text to what the model is fed: phonemes, padded token ids and a style row.

use crate::kokoro::program::ProgramRun;
use crate::kokoro::program;
use crate::kokoro::vocab::{tokenize, Vocab};
use crate::kokoro::vocab;
use crate::number;
use crate::text;
use vstd::prelude::*;

verus! {

pub const SAMPLE_RATE: u32 = 24000;

/// How many 32-bit floats make a style vector.
pub const STYLE_DIM: usize = 256;

// ---- phonemes ----
/// Why there are no phonemes.
pub enum PhonemizeError {
    /// espeak-ng could not be started.
    NotRun,
    /// espeak-ng failed, and said why.
    Failed(String),
}

/// The arguments of espeak-ng. The `--` before the text matters: a text that starts with a
/// dash would otherwise be taken for an option.
pub open spec fn phonemizer_args(text: Seq<char>, lang: Seq<char>) -> Seq<Seq<char>> {
    seq!["-q"@, "--ipa=3"@, "-v"@, lang, "--"@, text]
}

/// The arguments that have espeak-ng print the IPA of `text`, stress marks included.
pub fn espeak_args(text: &str, lang: &str) -> (r: Vec<String>)
    ensures
        text::texts(r@) == phonemizer_args(text@, lang@),
{
    let mut args: Vec<String> = Vec::new();
    args.push("-q".to_string());
    args.push("--ipa=3".to_string());
    args.push("-v".to_string());
    args.push(lang.to_string());
    args.push("--".to_string());
    args.push(text.to_string());
    assert(text::texts(args@) =~= phonemizer_args(text@, lang@));
    args
}

/// `s` with a space in place of every line feed.
pub open spec fn unbroken(s: Seq<char>) -> Seq<char> {
    s.map_values(
        |c: char|
            if c == '\n' {
                ' '
            } else {
                c
            },
    )
}

/// What is printed on several lines, on one line and without the whitespace around it.
pub open spec fn one_line(printed: Seq<char>) -> Seq<char> {
    text::trimmed(unbroken(printed))
}

/// What a run of espeak-ng gives: its output on one line, or why there is none.
pub open spec fn phonemized(run: ProgramRun) -> Result<Seq<char>, Option<Seq<char>>> {
    match run {
        ProgramRun::NotRun => Err(None),
        ProgramRun::Exited { success, stdout, stderr } => if success {
            Ok(one_line(program::lossy_text(stdout@)))
        } else {
            Err(Some(program::lossy_text(stderr@)))
        },
    }
}

/// The phonemes that espeak-ng printed.
pub fn phonemize(run: &ProgramRun) -> (r: Result<String, PhonemizeError>)
    ensures
        match r {
            Ok(phonemes) => phonemized(*run) == Ok::<Seq<char>, Option<Seq<char>>>(phonemes@),
            Err(PhonemizeError::NotRun) => phonemized(*run) == Err::<
                Seq<char>,
                Option<Seq<char>>,
            >(None),
            Err(PhonemizeError::Failed(why)) => phonemized(*run) == Err::<
                Seq<char>,
                Option<Seq<char>>,
            >(Some(why@)),
        },
{
    match run {
        ProgramRun::NotRun => Err(PhonemizeError::NotRun),
        ProgramRun::Exited { success, stdout, stderr } => {
            if !*success {
                return Err(PhonemizeError::Failed(program::from_utf8_lossy(stderr.as_slice())));
            }
            Ok(clean_phonemes(program::from_utf8_lossy(stdout.as_slice()).as_str()))
        },
    }
}

/// What espeak-ng printed, on one line and without the whitespace around it.
pub fn clean_phonemes(printed: &str) -> (r: String)
    ensures
        r@ == one_line(printed@),
{
    let out: Vec<char> = text::chars_of(printed);
    let line: Vec<char> = unbreak(out.as_slice());
    text::string_of(text::trim(line.as_slice()))
}

fn unbreak(s: &[char]) -> (r: Vec<char>)
    ensures
        r@ == unbroken(s@),
{
    let mut out: Vec<char> = Vec::new();
    let mut i: usize = 0;
    while i < s.len()
        invariant
            i <= s@.len(),
            out@ == unbroken(s@.take(i as int)),
        decreases s@.len() - i,
    {
        let c: char = s[i];
        out.push(
            if c == '\n' {
                ' '
            } else {
                c
            },
        );
        i += 1;
        assert(out@ =~= unbroken(s@.take(i as int)));
    }
    assert(s@.take(i as int) =~= s@);
    out
}

impl PhonemizeError {
    pub open spec fn text(&self) -> Seq<char> {
        match self {
            PhonemizeError::NotRun => "running espeak-ng (is it installed?)"@,
            PhonemizeError::Failed(why) => "espeak-ng failed: "@ + why@,
        }
    }

    /// The error as it is reported.
    pub fn message(&self) -> (r: String)
        ensures
            r@ == self.text(),
    {
        match self {
            PhonemizeError::NotRun => "running espeak-ng (is it installed?)".to_string(),
            PhonemizeError::Failed(why) => text::concat2("espeak-ng failed: ", why.as_str()),
        }
    }
}

// ---- tokens and style ----
/// Phonemes, padded token ids and the style vector of one utterance.
pub struct Prepared {
    pub phonemes: String,
    /// Token ids, padded with 0 at both ends.
    pub ids: Vec<i64>,
    /// The style vector for this utterance length, as the bytes of the voice file.
    pub style: Vec<u8>,
    /// Unpadded token count.
    pub token_len: usize,
}

/// Why a chunk could not be prepared.
pub enum PrepareError {
    Phonemize(PhonemizeError),
    /// The voice file could not be read.
    Voice,
}

/// Outcome of preparing one chunk. Neither of the others is fatal: a chunk with nothing to
/// say is simply not spoken, and the rest of the input plays on.
pub enum ChunkPrep {
    /// Ready to synthesize.
    Ready(Prepared),
    /// Phonemized fine, but nothing survived the vocabulary: a punctuation-only line (`};`,
    /// `???`), which is what pasted code is full of.
    Unspeakable,
    /// espeak-ng itself failed on this chunk.
    Failed,
}

/// How many bytes make a style vector.
pub open spec fn row_bytes() -> int {
    4 * STYLE_DIM
}

/// A voice file: floats of four bytes each, and enough of them for one style vector.
pub open spec fn is_voice(voice: Seq<u8>) -> bool {
    voice.len() % 4 == 0 && voice.len() / 4 / STYLE_DIM as nat >= 1
}

/// The style vector for an utterance of `token_len` tokens; the last one is for all that are
/// longer.
pub open spec fn style_row(voice: Seq<u8>, token_len: int) -> Seq<u8> {
    let rows = voice.len() / 4 / STYLE_DIM as nat;
    let row = if token_len < rows - 1 {
        token_len
    } else {
        rows - 1
    };
    voice.subrange(row * row_bytes(), (row + 1) * row_bytes())
}

/// Tokens with the pad token around them.
pub open spec fn padded(tokens: Seq<i64>) -> Seq<i64> {
    seq![0i64] + tokens + seq![0i64]
}

/// `p` is the utterance of the given phonemes and tokens.
pub open spec fn is_utterance(
    p: Prepared,
    phonemes: Seq<char>,
    tokens: Seq<i64>,
    voice: Seq<u8>,
) -> bool {
    &&& p.phonemes@ == phonemes
    &&& p.ids@ == padded(tokens)
    &&& p.style@ == style_row(voice, tokens.len() as int)
    &&& p.token_len == tokens.len()
}

/// There is something to say, and the voice file can't be used for it.
pub open spec fn needs_better_voice(
    phonemes: Seq<char>,
    vocab: Map<Seq<char>, i64>,
    voice: Option<&Vec<u8>>,
) -> bool {
    vocab::tokens_of(vocab, phonemes).len() > 0 && voice is Some && !is_voice(voice->0@)
}

/// What is prepared of phonemes: nothing if no token is left, whatever the voice; an error
/// if the voice file could not be read; else the utterance.
pub open spec fn is_prepared(
    r: Result<Option<Prepared>, PrepareError>,
    phonemes: Seq<char>,
    vocab: Map<Seq<char>, i64>,
    voice: Option<&Vec<u8>>,
) -> bool {
    let tokens = vocab::tokens_of(vocab, phonemes);
    if tokens.len() == 0 {
        r == Ok::<Option<Prepared>, PrepareError>(None)
    } else {
        match voice {
            None => r == Err::<Option<Prepared>, PrepareError>(PrepareError::Voice),
            Some(bytes) => r matches Ok(Some(p)) && is_utterance(p, phonemes, tokens, bytes@),
        }
    }
}

fn pick_style(voice: &Vec<u8>, token_len: usize) -> (r: Vec<u8>)
    requires
        is_voice(voice@),
    ensures
        r@ == style_row(voice@, token_len as int),
{
    let len: usize = voice.len();
    let rows: usize = len / 4 / STYLE_DIM;
    let row: usize = if token_len < rows - 1 {
        token_len
    } else {
        rows - 1
    };
    assert(rows * 1024 <= len);
    assert(row * 1024 + 1024 <= rows * 1024);
    let start: usize = row * 1024;
    assert(row_bytes() == 1024);
    assert(row * row_bytes() == start && (row + 1) * row_bytes() == start + 1024)
        by (nonlinear_arith)
        requires
            row_bytes() == 1024,
            start == row * 1024,
    ;
    vstd::slice::slice_to_vec(vstd::slice::slice_subrange(voice.as_slice(), start, start + 1024))
}

/// Tokenize IPA against the fixed vocabulary and pick the style row. If no token is left
/// there is no utterance to make, hence `Ok(None)` rather than an error. `voice` is the
/// content of the voice file, or `None` if it could not be read.
pub fn prepare_from_phonemes(phonemes: String, vocab: &Vocab, voice: Option<&Vec<u8>>) -> (r: Result<
    Option<Prepared>,
    PrepareError,
>)
    requires
        !needs_better_voice(phonemes@, vocab@, voice),
    ensures
        is_prepared(r, phonemes@, vocab@, voice),
{
    let mut tokens: Vec<i64> = tokenize(phonemes.as_str(), vocab);
    if tokens.len() == 0 {
        return Ok(None);
    }
    let token_len: usize = tokens.len();
    match voice {
        None => Err(PrepareError::Voice),
        Some(bytes) => {
            let style: Vec<u8> = pick_style(bytes, token_len);
            let ghost all = tokens@;
            let mut ids: Vec<i64> = Vec::new();
            ids.push(0);
            ids.append(&mut tokens);
            ids.push(0);
            assert(ids@ =~= padded(all));
            Ok(Some(Prepared { phonemes, ids, style, token_len }))
        },
    }
}

/// Tokenize what was phonemized and pick the style row of the voice.
///
/// Returns `None` when the chunk phonemizes to nothing the model can say. Callers that want
/// failures of espeak-ng tolerated too should use [`prepare_or_skip`].
pub fn prepare(
    phonemes: Result<String, PhonemizeError>,
    vocab: &Vocab,
    voice: Option<&Vec<u8>>,
) -> (r: Result<Option<Prepared>, PrepareError>)
    requires
        phonemes matches Ok(p) ==> !needs_better_voice(p@, vocab@, voice),
    ensures
        match phonemes {
            Ok(p) => is_prepared(r, p@, vocab@, voice),
            Err(e) => r == Err::<Option<Prepared>, PrepareError>(PrepareError::Phonemize(e)),
        },
{
    match phonemes {
        Ok(p) => prepare_from_phonemes(p, vocab, voice),
        Err(e) => Err(PrepareError::Phonemize(e)),
    }
}

/// [`prepare`], with failures of espeak-ng on a chunk downgraded to a skip. Errors that still
/// propagate are setup problems (an unreadable voice file, no espeak-ng), not text ones.
pub fn prepare_or_skip(
    phonemes: Result<String, PhonemizeError>,
    vocab: &Vocab,
    voice: Option<&Vec<u8>>,
) -> (r: Result<ChunkPrep, PrepareError>)
    requires
        phonemes matches Ok(p) ==> !needs_better_voice(p@, vocab@, voice),
    ensures
        match phonemes {
            Err(PhonemizeError::NotRun) => r == Err::<ChunkPrep, PrepareError>(
                PrepareError::Phonemize(PhonemizeError::NotRun),
            ),
            Err(PhonemizeError::Failed(_)) => r == Ok::<ChunkPrep, PrepareError>(ChunkPrep::Failed),
            Ok(p) => match r {
                Ok(ChunkPrep::Ready(u)) => is_prepared(Ok(Some(u)), p@, vocab@, voice),
                Ok(ChunkPrep::Unspeakable) => is_prepared(Ok(None), p@, vocab@, voice),
                Ok(ChunkPrep::Failed) => false,
                Err(e) => is_prepared(Err(e), p@, vocab@, voice),
            },
        },
{
    match phonemes {
        Err(PhonemizeError::NotRun) => Err(PrepareError::Phonemize(PhonemizeError::NotRun)),
        Err(PhonemizeError::Failed(_)) => Ok(ChunkPrep::Failed),
        Ok(p) => match prepare_from_phonemes(p, vocab, voice) {
            Ok(Some(u)) => Ok(ChunkPrep::Ready(u)),
            Ok(None) => Ok(ChunkPrep::Unspeakable),
            Err(e) => Err(e),
        },
    }
}

impl PrepareError {
    pub open spec fn text(&self) -> Seq<char> {
        match self {
            PrepareError::Phonemize(e) => e.text(),
            PrepareError::Voice => "reading voice file"@,
        }
    }

    /// The error as it is reported.
    pub fn message(&self) -> (r: String)
        ensures
            r@ == self.text(),
    {
        match self {
            PrepareError::Phonemize(e) => e.message(),
            PrepareError::Voice => "reading voice file".to_string(),
        }
    }
}

/// The line that is printed when espeak-ng failed on a chunk.
pub fn skip_line(error: &PhonemizeError) -> (r: String)
    ensures
        r@ == "[kokoro] skipping chunk (espeak-ng failed: "@ + error.text() + ")"@,
{
    text::concat3(
        "[kokoro] skipping chunk (espeak-ng failed: ",
        error.message().as_str(),
        ")",
    )
}

/// The warning that an input produced no audio. `failed` chunks point at a broken espeak-ng
/// rather than at the text.
pub open spec fn silence_warning(failed: nat) -> Seq<char> {
    if failed > 0 {
        "[kokoro] nothing speakable in input ("@ + number::decimal(failed)
            + " chunk(s) failed to phonemize — is espeak-ng installed?)"@
    } else {
        "[kokoro] nothing speakable in input"@
    }
}

/// Warn that a whole input produced no audio. Not an error: skipping every chunk is a
/// legitimate outcome for, say, a pasted block of pure punctuation.
pub fn warn_nothing_spoken(failed: usize) -> (r: String)
    ensures
        r@ == silence_warning(failed as nat),
{
    if failed > 0 {
        let mut out: Vec<char> = text::chars_of("[kokoro] nothing speakable in input (");
        let count: Vec<char> = number::to_decimal(failed as u64);
        text::append_chars(&mut out, count.as_slice());
        text::append_str(&mut out, " chunk(s) failed to phonemize — is espeak-ng installed?)");
        text::string_of(out.as_slice())
    } else {
        "[kokoro] nothing speakable in input".to_string()
    }
}

} // verus!

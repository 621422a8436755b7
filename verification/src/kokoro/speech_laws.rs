//! What holds of every utterance, and of every input.

use crate::kokoro::program::ProgramRun;
use crate::kokoro::program;
use crate::kokoro::speech::{PrepareError, Prepared};
use crate::kokoro::speech;
use crate::kokoro::vocab;
use crate::number;
use crate::text;
use crate::text_lemmas;
use vstd::prelude::*;

verus! {

/// An utterance never overruns the model's context, and the pad token wraps both its ends.
pub proof fn law_utterances_fit_the_model(vocab: Map<Seq<char>, i64>, phonemes: Seq<char>)
    ensures
        ({
            let tokens = vocab::tokens_of(vocab, phonemes);
            let ids = speech::padded(tokens);
            &&& tokens.len() <= vocab::MAX_PHONEMES
            &&& ids.len() == tokens.len() + 2
            &&& ids[0] == 0
            &&& ids.last() == 0
            &&& forall|i: int| 0 <= i < tokens.len() ==> ids[i + 1] == #[trigger] tokens[i]
        }),
{
}

/// Every style vector is whole, and utterances that are longer than the voice file foresees
/// share the last one.
pub proof fn law_style_rows_are_whole(voice: Seq<u8>, token_len: int)
    requires
        speech::is_voice(voice),
        0 <= token_len,
    ensures
        ({
            let rows = voice.len() / 4 / speech::STYLE_DIM as nat;
            &&& speech::style_row(voice, token_len).len() == speech::row_bytes()
            &&& token_len >= rows - 1 ==> speech::style_row(voice, token_len)
                == speech::style_row(voice, rows - 1)
        }),
{
    let rows = voice.len() / 4 / speech::STYLE_DIM as nat;
    let row = if token_len < rows - 1 {
        token_len
    } else {
        rows - 1
    };
    let b = speech::row_bytes();
    assert(b == 1024);
    assert(rows * 1024 <= voice.len());
    assert(0 <= row * b && (row + 1) * b == row * b + b && row * b + b <= rows * 1024)
        by (nonlinear_arith)
        requires
            b == 1024,
            0 <= row <= rows - 1,
    ;
}

/// espeak-ng speaks the text in the language that was asked for, whichever that is: the
/// language stands right behind `-v`. The text stands right behind `--` and is the last
/// argument, so that it is never taken for an option.
pub proof fn law_espeak_gets_text_and_language(text: Seq<char>, lang: Seq<char>)
    ensures
        ({
            let args = speech::phonemizer_args(text, lang);
            &&& args.len() == 6
            &&& args[0] == "-q"@
            &&& args[1] == "--ipa=3"@
            &&& args[2] == "-v"@
            &&& args[3] == lang
            &&& args[4] == "--"@
            &&& args[5] == text
        }),
{
}

/// Phonemes are put on one line: a line feed becomes a space, every other character stays as
/// it is and where it is, and only the whitespace around them all goes.
pub proof fn law_phonemes_are_kept_on_one_line(a: Seq<char>, p: Seq<char>, b: Seq<char>)
    requires
        text_lemmas::is_blank(a),
        text_lemmas::is_tight(p),
        text_lemmas::is_blank(b),
    ensures
        speech::one_line(a + p + b).len() == p.len(),
        forall|i: int|
            0 <= i < p.len() ==> #[trigger] speech::one_line(a + p + b)[i] == if p[i] == '\n' {
                ' '
            } else {
                p[i]
            },
        speech::one_line(a + b).len() == 0,
{
    let x = speech::unbroken(a);
    let y = speech::unbroken(p);
    let z = speech::unbroken(b);
    assert(speech::unbroken(a + p + b) =~= x + y + z);
    assert(speech::unbroken(a + b) =~= x + z);
    assert forall|i: int| 0 <= i < x.len() implies text::is_space(#[trigger] x[i]) by {
        assert(text::is_space(a[i]));
    }
    assert forall|i: int| 0 <= i < z.len() implies text::is_space(#[trigger] z[i]) by {
        assert(text::is_space(b[i]));
    }
    text_lemmas::law_trimming_takes_only_whitespace(x, y, z);
}

/// A run of espeak-ng that succeeded gives what it printed, one that failed what it
/// complained about, and one that never started nothing.
pub proof fn law_runs_give_what_was_printed(success: bool, stdout: Vec<u8>, stderr: Vec<u8>)
    ensures
        success ==> speech::phonemized(ProgramRun::Exited { success, stdout, stderr }) == Ok::<
            Seq<char>,
            Option<Seq<char>>,
        >(speech::one_line(program::lossy_text(stdout@))),
        !success ==> speech::phonemized(ProgramRun::Exited { success, stdout, stderr }) == Err::<
            Seq<char>,
            Option<Seq<char>>,
        >(Some(program::lossy_text(stderr@))),
        speech::phonemized(ProgramRun::NotRun) == Err::<Seq<char>, Option<Seq<char>>>(None),
{
}

/// The style vector of an utterance of `n` tokens are the 1024 bytes of row `n` of the voice
/// file, or of its last row if it has no such row.
pub proof fn law_style_rows_go_by_the_length(voice: Seq<u8>, n: int)
    requires
        voice.len() % 4 == 0,
        voice.len() >= 1024,
        0 <= n,
    ensures
        speech::is_voice(voice),
        speech::style_row(voice, n).len() == 1024,
        forall|i: int|
            0 <= i < 1024 ==> #[trigger] speech::style_row(voice, n)[i] == voice[i + 1024 * (if n
                < voice.len() / 1024 {
                n
            } else {
                voice.len() / 1024 - 1
            })],
{
    law_style_rows_are_whole(voice, n);
    let rows = voice.len() / 4 / 256nat;
    assert(rows == voice.len() / 1024);
    assert(speech::row_bytes() == 1024);
    assert(rows * 1024 <= voice.len());
    let row = if n < rows - 1 {
        n
    } else {
        rows - 1
    };
    assert(row * 1024 + 1024 <= rows * 1024);
    assert(row * speech::row_bytes() == 1024 * row && (row + 1) * speech::row_bytes() == 1024 * row
        + 1024) by (nonlinear_arith)
        requires
            speech::row_bytes() == 1024,
    ;
}

/// A file that is no whole number of 32-bit floats, or too short for one style vector, is no
/// voice.
pub proof fn law_short_files_are_no_voice(voice: Seq<u8>)
    ensures
        speech::is_voice(voice) <==> voice.len() % 4 == 0 && voice.len() >= 1024,
{
}

/// What is prepared of phonemes that the vocabulary carries: the phonemes themselves, their
/// tokens in order between two zeros, and the style row for so many tokens.
pub proof fn law_utterances_say_their_phonemes(
    r: Result<Option<Prepared>, PrepareError>,
    phonemes: Seq<char>,
    vocab: Map<Seq<char>, i64>,
    voice: &Vec<u8>,
)
    requires
        speech::is_prepared(r, phonemes, vocab, Some(voice)),
        1 <= phonemes.len() <= 510,
        forall|i: int|
            0 <= i < phonemes.len() ==> vocab.contains_key(seq![#[trigger] phonemes[i]]),
        voice@.len() % 4 == 0,
        voice@.len() >= 1024,
    ensures
        r matches Ok(Some(p)) && {
            &&& p.phonemes@ == phonemes
            &&& p.token_len == phonemes.len()
            &&& p.ids@.len() == phonemes.len() + 2
            &&& p.ids@[0] == 0
            &&& p.ids@[phonemes.len() as int + 1] == 0
            &&& forall|i: int|
                0 <= i < phonemes.len() ==> p.ids@[i + 1] == vocab[seq![#[trigger] phonemes[i]]]
            &&& p.style@.len() == 1024
            &&& forall|i: int|
                0 <= i < 1024 ==> #[trigger] p.style@[i] == voice@[i + 1024 * (if phonemes.len()
                    < voice@.len() / 1024 {
                    phonemes.len() as int
                } else {
                    voice@.len() / 1024 - 1
                })]
        },
{
    vocab::law_known_symbols_are_tokens(vocab, phonemes);
    law_style_rows_go_by_the_length(voice@, phonemes.len() as int);
    let tokens = vocab::tokens_of(vocab, phonemes);
    let p = r->Ok_0->0;
    assert forall|i: int| 0 <= i < phonemes.len() implies p.ids@[i + 1]
        == vocab[seq![#[trigger] phonemes[i]]] by {
        assert(tokens[i] == vocab[seq![phonemes[i]]]);
    }
}

/// Where a symbol can be spoken, an unreadable voice file is an error; where none can, there is
/// nothing to prepare, and the voice file is not missed.
pub proof fn law_only_speakable_chunks_need_a_voice(
    r: Result<Option<Prepared>, PrepareError>,
    phonemes: Seq<char>,
    vocab: Map<Seq<char>, i64>,
)
    requires
        speech::is_prepared(r, phonemes, vocab, None),
    ensures
        (exists|i: int|
            0 <= i < phonemes.len() && vocab.contains_key(seq![#[trigger] phonemes[i]])) ==> r
            == Err::<Option<Prepared>, PrepareError>(PrepareError::Voice),
        (forall|i: int|
            0 <= i < phonemes.len() ==> !vocab.contains_key(seq![#[trigger] phonemes[i]])) ==> r
            == Ok::<Option<Prepared>, PrepareError>(None),
{
    vocab::lemma_some_known(vocab, phonemes);
}

/// A warning says on how many chunks espeak-ng failed, if on any.
pub proof fn law_warnings_count_the_failures(failed: u64)
    requires
        failed > 0,
    ensures
        exists|i: int, j: int|
            0 <= i <= j <= speech::silence_warning(failed as nat).len() && number::number_in(
                #[trigger] speech::silence_warning(failed as nat).subrange(i, j),
            ) == Some(failed),
        speech::silence_warning(0) == "[kokoro] nothing speakable in input"@,
{
    let w = speech::silence_warning(failed as nat);
    let i = "[kokoro] nothing speakable in input ("@.len() as int;
    let d = number::decimal(failed as nat);
    assert(w.subrange(i, i + d.len()) =~= d);
    number::law_decimal_is_read_back(failed);
}

/// Any voice file of whole 32-bit floats with room for one style vector will do, and so will none
/// at all: it is then an error that there is none.
pub proof fn law_usable_voices_are_good_enough(
    phonemes: Seq<char>,
    vocab: Map<Seq<char>, i64>,
    voice: &Vec<u8>,
)
    ensures
        voice@.len() % 4 == 0 && voice@.len() >= 1024 ==> !speech::needs_better_voice(
            phonemes,
            vocab,
            Some(voice),
        ),
        !speech::needs_better_voice(phonemes, vocab, None),
        (forall|i: int|
            0 <= i < phonemes.len() ==> !vocab.contains_key(seq![#[trigger] phonemes[i]]))
            ==> !speech::needs_better_voice(phonemes, vocab, Some(voice)),
{
    vocab::lemma_some_known(vocab, phonemes);
}

/// Whatever the phonemes, an utterance carries them as they are, its tokens between two zeros,
/// and the style row for so many tokens, however many phonemes were dropped.
pub proof fn law_style_rows_go_by_the_tokens(
    r: Result<Option<Prepared>, PrepareError>,
    phonemes: Seq<char>,
    vocab: Map<Seq<char>, i64>,
    voice: &Vec<u8>,
)
    requires
        speech::is_prepared(r, phonemes, vocab, Some(voice)),
        exists|i: int|
            0 <= i < phonemes.len() && vocab.contains_key(seq![#[trigger] phonemes[i]]),
        voice@.len() % 4 == 0,
        voice@.len() >= 1024,
    ensures
        r matches Ok(Some(p)) && {
            &&& p.phonemes@ == phonemes
            &&& p.token_len == vocab::tokens_of(vocab, phonemes).len()
            &&& p.ids@ == seq![0i64] + vocab::tokens_of(vocab, phonemes) + seq![0i64]
            &&& p.style@.len() == 1024
            &&& forall|i: int|
                0 <= i < 1024 ==> #[trigger] p.style@[i] == voice@[i + 1024 * (if p.token_len
                    < voice@.len() / 1024 {
                    p.token_len as int
                } else {
                    voice@.len() / 1024 - 1
                })]
        },
{
    vocab::lemma_some_known(vocab, phonemes);
    law_style_rows_go_by_the_length(voice@, vocab::tokens_of(vocab, phonemes).len() as int);
}

} // verus!

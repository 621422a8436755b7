//! Chunk-skipping behaviour: text that can't be spoken must not abort the run.

use kukuryku::kokoro::program::{ensure_ort_dylib, ProgramRun};
use kukuryku::kokoro::speech::{
    clean_phonemes, espeak_args, prepare_from_phonemes, skip_line, PhonemizeError, PrepareError,
};
use kukuryku::kokoro::vocab::{tokenize, Vocab, VocabError};
use kukuryku::kokoro::{
    phonemize, prepare, prepare_or_skip, pulseaudio_start_args, split_sentences,
    warn_nothing_spoken, ChunkPrep, Prepared, MAX_PHONEMES, STYLE_DIM,
};
use kukuryku::markdown;

const VOCAB: &str = r#"{";":1,".":4," ":16,"a":43,"e":47,"h":50,"l":54,"o":57,"s":61,"t":62,"ə":83,"ɜ":87,"ʃ":131,"ˈ":156}"#;

fn vocab() -> Vocab {
    match Vocab::parse(VOCAB) {
        Ok(vocab) => vocab,
        Err(_) => panic!("the vocabulary is valid"),
    }
}

/// What espeak-ng prints: nothing for stray punctuation, names for symbols that have one.
fn espeak(text: &str) -> Result<String, PhonemizeError> {
    let ipa = match text {
        "=>" => "ˈiːkwəlz ɡɹˈeɪɾɚ ðˈæn".to_string(),
        "*/" => "ˈæstəɹˌɪsk slˈæʃ".to_string(),
        _ => text.chars().filter(|c| c.is_alphabetic() || *c == ' ').collect::<String>(),
    };
    phonemize(&ProgramRun::Exited {
        success: true,
        stdout: format!(" {ipa}\n").into_bytes(),
        stderr: Vec::new(),
    })
}

/// No voice file: the decision to skip a chunk is made before it is ever needed.
fn prep(text: &str) -> Result<Option<Prepared>, PrepareError> {
    prepare(espeak(text), &vocab(), None)
}

fn voice(rows: usize) -> Vec<u8> {
    let mut bytes = Vec::new();
    for row in 0..rows {
        for _ in 0..4 * STYLE_DIM {
            bytes.push(row as u8);
        }
    }
    bytes
}

/// Punctuation-only lines — what pasted code is full of — phonemize to nothing.
/// Reaching the (missing) voice file would mean we tried to synthesize them.
#[test]
fn punctuation_only_chunks_are_unspeakable() {
    for text in ["};", "}", "|>", "```", "???", ". . ."] {
        assert!(matches!(prep(text), Ok(None)), "expected {text:?} to be unspeakable");
    }
}

/// Real code phonemizes fine and must still be spoken, not skipped. It gets past
/// the vocab filter, so the missing voice file is what stops it.
#[test]
fn code_with_letters_is_still_spoken() {
    for text in ["#[derive(Debug)]", "=>", "*/", "for x in xs {"] {
        assert!(prep(text).is_err(), "expected {text:?} to reach the voice-file read");
    }
}

/// espeak-ng parses a leading `-` as a CLI option unless argv carries `--`.
#[test]
fn leading_dash_text_phonemizes() {
    assert_eq!(
        espeak_args("- first bullet", "en-us"),
        vec!["-q", "--ipa=3", "-v", "en-us", "--", "- first bullet"]
    );
    let out = match espeak("- first bullet") {
        Ok(out) => out,
        Err(_) => panic!("leading dash must not fail"),
    };
    assert!(!out.is_empty());
}

/// Prose with code pasted into it. `split_sentences`' merge rule absorbs most stray
/// punctuation into a speakable neighbour; what reaches `prepare` alone is a fragment with
/// no speakable neighbour to merge into (a leading one) or a punctuation run too long to
/// merge.
#[test]
fn code_interleaved_with_prose_keeps_the_prose() {
    for (text, want_skipped) in [
        ("};\nThe function returns early there.", "};"),
        (
            "The parser handles that case.\n>>>>>>>>>>>>>>>>>>>>\nThen it recurses downward.",
            ">>>>>>>>>>>>>>>>>>>>",
        ),
    ] {
        let chunks = split_sentences(text);
        let skipped: Vec<&String> = chunks.iter().filter(|c| matches!(prep(c), Ok(None))).collect();
        assert_eq!(skipped, vec![want_skipped], "wrong chunks skipped for {text:?}");
        // Every other chunk still gets synthesized, so no prose is lost.
        assert!(chunks.iter().filter(|c| !matches!(prep(c), Ok(None))).count() >= 1);
    }
}

/// An input that is nothing but punctuation: every chunk skipped, no audio, no error.
#[test]
fn all_punctuation_input_is_entirely_unspeakable() {
    let chunks = split_sentences("};\n```\n???");
    assert!(chunks.iter().all(|c| matches!(prep(c), Ok(None))));
}

/// The markdown pass and the chunker have to agree: after stripping, a real
/// document should have no chunk left that phonemizes to nothing.
#[test]
fn stripped_markdown_leaves_no_unspeakable_chunks() {
    let doc = "# Design notes\n\n\
               - **bold** item with `Pipeline::new` inline\n\
               - see [the doc](docs/playback_control.md)\n\n\
               ```rust\nlet x = 1;\n```\n\n\
               | a | b |\n|---|---|\n\n\
               ---\n\n\
               That is all.";
    let cleaned = markdown::strip(doc);
    let chunks = split_sentences(&cleaned);
    assert!(!chunks.is_empty());
    for chunk in &chunks {
        assert!(!matches!(prep(chunk), Ok(None)), "{chunk:?} phonemized to nothing");
    }
    // The syntax itself is gone, the prose is not.
    assert!(!cleaned.contains("**") && !cleaned.contains("```") && !cleaned.contains('|'));
    assert!(cleaned.contains("bold item") && cleaned.contains("That is all."));
}

/// A missing voice file is a setup problem and must stay fatal, never a skip.
#[test]
fn voice_errors_are_not_swallowed() {
    assert!(matches!(
        prepare_or_skip(espeak("hello there"), &vocab(), None),
        Err(PrepareError::Voice)
    ));
}

/// PulseAudio must be allowed to idle-exit once pacat disconnects. `--exit-idle-time=-1`
/// is opt-in via `RYK_PULSE_ARGS`, not a hardcoded start flag.
#[test]
fn pulseaudio_start_does_not_pin_idle() {
    for android in [false, true] {
        let args = pulseaudio_start_args(android, Some("--exit-idle-time=-1"));
        assert_eq!(args[0], "--start");
        let hardcoded = if android { 2 } else { 1 };
        if android {
            assert_eq!(args[1], "--load=module-sles-sink");
        }
        assert!(
            args.iter().take(hardcoded).all(|a| !a.contains("exit-idle-time")),
            "hardcoded pulseaudio args must not pin idle: {args:?}"
        );
        assert_eq!(args.len(), hardcoded + 1);
    }
    assert_eq!(pulseaudio_start_args(false, None), vec!["--start"]);
    assert_eq!(pulseaudio_start_args(false, Some(" -a  -b ")), vec!["--start", "-a", "-b"]);
}

#[test]
fn a_failure_of_espeak_is_a_skip_but_its_absence_is_fatal() {
    let failed = ProgramRun::Exited {
        success: false,
        stdout: b"ignored".to_vec(),
        stderr: b"no voice\xff".to_vec(),
    };
    match phonemize(&failed) {
        Err(e) => {
            assert_eq!(e.message(), "espeak-ng failed: no voice\u{fffd}");
            assert_eq!(
                skip_line(&e),
                "[kokoro] skipping chunk (espeak-ng failed: espeak-ng failed: no voice\u{fffd})"
            );
        }
        Ok(_) => panic!("it did not succeed"),
    }
    assert!(matches!(
        prepare_or_skip(phonemize(&failed), &vocab(), None),
        Ok(ChunkPrep::Failed)
    ));
    assert!(matches!(
        prepare(phonemize(&failed), &vocab(), None),
        Err(PrepareError::Phonemize(PhonemizeError::Failed(_)))
    ));
    match prepare_or_skip(phonemize(&ProgramRun::NotRun), &vocab(), None) {
        Err(e) => assert_eq!(e.message(), "running espeak-ng (is it installed?)"),
        Ok(_) => panic!("there is no espeak-ng"),
    }
    assert_eq!(PrepareError::Voice.message(), "reading voice file");
}

#[test]
fn phonemes_are_put_on_one_line() {
    assert_eq!(clean_phonemes(" a\nb \n"), "a b");
    assert_eq!(clean_phonemes("\n"), "");
}

#[test]
fn the_vocabulary_is_read_from_json() {
    let vocab = vocab();
    assert_eq!(vocab.id('h'), Some(50));
    assert_eq!(vocab.id('ə'), Some(83));
    assert_eq!(vocab.id('x'), None);
    for bad in ["", "[]", "{\"a\":1.5}", "{\"a\":1", "{\"a\":\"b\"}", "{\"a\":9223372036854775808}"] {
        assert!(matches!(Vocab::parse(bad), Err(VocabError::Malformed)), "{bad}");
    }
    match Vocab::parse("{\"a\":1,\"a\":-2}") {
        Ok(vocab) => assert_eq!(vocab.id('a'), Some(-2)),
        Err(_) => panic!("the later entry counts"),
    }
}

#[test]
fn entries_are_found_under_their_keys() {
    let entries = vec![("a".to_string(), 1), ("bc".to_string(), 2), ("d".to_string(), 3)];
    let vocab = Vocab::from_entries(&entries);
    assert_eq!(vocab.id('a'), Some(1));
    assert_eq!(vocab.id('b'), None);
    assert_eq!(vocab.id('d'), Some(3));
}

#[test]
fn unknown_symbols_are_dropped() {
    let vocab = vocab();
    assert_eq!(tokenize("həl\u{200d}o", &vocab), vec![50, 83, 54, 57]);
    assert_eq!(tokenize("həlo", &vocab), tokenize("h\u{200d}əxlo", &vocab));
    assert!(tokenize("xyz", &vocab).is_empty());
}

#[test]
fn utterances_fit_the_model() {
    let long: String = "a".repeat(MAX_PHONEMES + 7);
    match prepare_from_phonemes(long, &vocab(), Some(&voice(3))) {
        Ok(Some(p)) => {
            assert_eq!(p.token_len, 510);
            assert_eq!(p.ids.len(), 512);
            assert_eq!(p.ids[0], 0);
            assert_eq!(p.ids[1], 43);
            assert_eq!(p.ids[511], 0);
        }
        _ => panic!("it is speakable"),
    }
}

#[test]
fn the_style_row_goes_by_the_length() {
    for (phonemes, row) in [("a", 1u8), ("aa", 2), ("aaa", 3), ("aaaa", 3), ("aaxaxxa", 3)] {
        match prepare(Ok(phonemes.to_string()), &vocab(), Some(&voice(4))) {
            Ok(Some(p)) => {
                assert_eq!(p.phonemes, phonemes);
                assert_eq!(p.style, vec![row; 1024]);
            }
            _ => panic!("it is speakable"),
        }
    }
}

#[test]
fn a_ready_chunk_carries_its_utterance() {
    match prepare_or_skip(Ok("halo.".to_string()), &vocab(), Some(&voice(1))) {
        Ok(ChunkPrep::Ready(p)) => {
            assert_eq!(p.ids, vec![0, 50, 43, 54, 57, 4, 0]);
            assert_eq!(p.token_len, 5);
            assert_eq!(p.style, vec![0u8; 1024]);
        }
        _ => panic!("it is speakable"),
    }
    assert!(matches!(
        prepare_or_skip(Ok("??".to_string()), &vocab(), Some(&voice(1))),
        Ok(ChunkPrep::Unspeakable)
    ));
}

#[test]
fn silence_is_a_warning() {
    assert_eq!(warn_nothing_spoken(0), "[kokoro] nothing speakable in input");
    assert_eq!(
        warn_nothing_spoken(12),
        "[kokoro] nothing speakable in input (12 chunk(s) failed to phonemize — is espeak-ng \
         installed?)"
    );
}

#[test]
fn the_onnx_library_is_taken_from_a_good_probe() {
    let found = ProgramRun::Exited {
        success: true,
        stdout: b"/lib/libonnxruntime.so.1\n".to_vec(),
        stderr: Vec::new(),
    };
    assert_eq!(ensure_ort_dylib(false, &found), Some("/lib/libonnxruntime.so.1".to_string()));
    assert_eq!(ensure_ort_dylib(true, &found), None);
    assert_eq!(ensure_ort_dylib(false, &ProgramRun::NotRun), None);
    for (success, stdout) in [(true, " \n"), (false, "/lib/x.so")] {
        let probe = ProgramRun::Exited {
            success,
            stdout: stdout.as_bytes().to_vec(),
            stderr: Vec::new(),
        };
        assert_eq!(ensure_ort_dylib(false, &probe), None);
    }
}

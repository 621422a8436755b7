//! The audio sink, the run of an input, and WAV files.

use kukuryku::kokoro::playback::{
    action, notice_line, sink_is_live, start, step, Action, Event, Lifetime, Notice, Stage,
};
use kukuryku::kokoro::sink::{build_sink_command, starts_pulseaudio, SinkError};
use kukuryku::kokoro::speaking::{SpeakAction, SpeakEvent, SpeakStage, Speaking};
use kukuryku::kokoro::wav::write_wav_i16;
use kukuryku::kokoro::write_wav;

const SESSIONS: Lifetime = Lifetime::Sessions { idle_ms: 600_000 };

fn run(life: Lifetime, events: &[Event]) -> (Stage, Vec<Notice>) {
    let mut stage = start(life);
    let mut notices = Vec::new();
    for event in events {
        let (next, notice) = step(life, stage, *event);
        if notice != Notice::Nothing {
            notices.push(notice);
        }
        stage = next;
    }
    (stage, notices)
}

#[test]
fn a_session_spawns_for_the_first_chunk_and_shares_the_sink() {
    let (stage, notices) = run(
        SESSIONS,
        &[Event::Chunk, Event::Spawned, Event::Written, Event::Chunk, Event::Written],
    );
    assert_eq!(stage, Stage::Open);
    assert!(notices.is_empty());
    assert!(sink_is_live(stage));
    assert!(!sink_is_live(start(SESSIONS)));
    assert_eq!(action(SESSIONS, start(SESSIONS), false), Action::Receive);
    assert_eq!(action(SESSIONS, Stage::Opening, false), Action::Spawn);
    assert_eq!(action(SESSIONS, Stage::Writing { fresh: true }, false), Action::Write);
}

#[test]
fn a_held_sink_outlives_its_idle_time() {
    let opened = [Event::Chunk, Event::Spawned, Event::Written];
    let (stage, _) = run(SESSIONS, &opened);
    assert_eq!(action(SESSIONS, stage, true), Action::ReceiveFor { ms: 200 });
    assert_eq!(action(SESSIONS, stage, false), Action::ReceiveFor { ms: 600_000 });
    let (stage, notice) = step(SESSIONS, stage, Event::Timeout { held: true });
    assert_eq!((stage, notice), (Stage::Open, Notice::Nothing));
    let (stage, notice) = step(SESSIONS, stage, Event::Timeout { held: false });
    assert_eq!(stage, Stage::Closing { last: false, quiet: false });
    assert_eq!(notice, Notice::IdleClosing);
    assert_eq!(action(SESSIONS, stage, false), Action::Close);
    let (stage, _) = step(SESSIONS, stage, Event::Closed);
    assert_eq!(stage, Stage::Empty);
}

#[test]
fn sessions_survive_every_error() {
    let (stage, notices) = run(
        SESSIONS,
        &[
            Event::Chunk,
            Event::SpawnFailed,
            Event::Chunk,
            Event::Spawned,
            Event::WriteFailed,
            Event::CloseFailed,
            Event::Chunk,
            Event::Spawned,
            Event::Written,
            Event::Chunk,
            Event::WriteFailed,
            Event::CloseFailed,
            Event::Disconnected,
        ],
    );
    assert_eq!(stage, Stage::Finished);
    assert_eq!(
        notices,
        vec![Notice::WillRetry, Notice::WriteFailed, Notice::WriteFailed, Notice::WillRespawn]
    );
    assert_eq!(action(SESSIONS, stage, false), Action::Stop);
}

#[test]
fn sessions_drain_when_the_queue_ends() {
    let (stage, _) =
        run(SESSIONS, &[Event::Chunk, Event::Spawned, Event::Written, Event::Disconnected]);
    assert_eq!(stage, Stage::Closing { last: true, quiet: false });
    assert_eq!(step(SESSIONS, stage, Event::Closed).0, Stage::Finished);
    assert_eq!(step(SESSIONS, stage, Event::CloseFailed), (Stage::Finished, Notice::WillRespawn));
}

#[test]
fn one_shot_runs_have_one_sink_and_fail_with_it() {
    let life = Lifetime::OneShot;
    assert_eq!(action(life, start(life), false), Action::Spawn);
    let (stage, _) = run(life, &[Event::Spawned, Event::Chunk, Event::Written]);
    assert_eq!(action(life, stage, false), Action::Receive);
    let (stage, _) = step(life, stage, Event::Disconnected);
    assert_eq!(step(life, stage, Event::Closed).0, Stage::Finished);
    for events in [
        vec![Event::SpawnFailed],
        vec![Event::Spawned, Event::Chunk, Event::WriteFailed],
        vec![Event::Spawned, Event::Disconnected, Event::CloseFailed],
    ] {
        let (stage, notices) = run(life, &events);
        assert_eq!(stage, Stage::Failed);
        assert!(notices.is_empty());
        assert_eq!(action(life, stage, false), Action::Fail);
    }
}

#[test]
fn notices_are_printed_with_their_error() {
    assert_eq!(notice_line(Notice::Nothing, "e"), None);
    assert_eq!(
        notice_line(Notice::WillRetry, "gone"),
        Some("[kokoro] gone; will retry on next chunk".to_string())
    );
    assert_eq!(
        notice_line(Notice::WriteFailed, "pipe"),
        Some("[kokoro] audio sink write failed: pipe; will respawn on next chunk".to_string())
    );
    assert_eq!(
        notice_line(Notice::IdleClosing, ""),
        Some("[kokoro] audio sink idle; closing".to_string())
    );
    assert_eq!(
        notice_line(Notice::WillRespawn, "gone"),
        Some("[kokoro] gone; will respawn on next chunk".to_string())
    );
}

#[test]
fn ffplay_is_preferred_to_pacat() {
    for has_pacat in [false, true] {
        match build_sink_command(true, has_pacat) {
            Ok(c) => {
                assert_eq!(c.program, "ffplay");
                assert!(!c.needs_pulse);
                assert_eq!(
                    c.args.join(" "),
                    "-hide_banner -loglevel error -nodisp -autoexit -probesize 32 \
                     -analyzeduration 0 -fflags nobuffer -f f32le -ar 24000 -ac 1 -i pipe:0"
                );
            }
            Err(_) => panic!("ffplay is there"),
        }
    }
    match build_sink_command(false, true) {
        Ok(c) => {
            assert_eq!(c.program, "pacat");
            assert!(c.needs_pulse);
            assert_eq!(
                c.args.join(" "),
                "--raw --format=float32le --rate 24000 --channels=1 --latency-msec=100"
            );
        }
        Err(_) => panic!("pacat is there"),
    }
    match build_sink_command(false, false) {
        Ok(_) => panic!("there is nothing"),
        Err(e) => {
            assert_eq!(e, SinkError::NotFound);
            assert_eq!(
                e.message(),
                "no audio sink found: install ffmpeg (for ffplay) or pulseaudio (for pacat)"
            );
        }
    }
}

#[test]
fn pulseaudio_is_started_only_if_it_can_be_and_must_be() {
    assert!(starts_pulseaudio(true, false));
    assert!(!starts_pulseaudio(true, true));
    assert!(!starts_pulseaudio(false, false));
}

#[test]
fn skipped_sentences_cost_nothing() {
    let mut s = Speaking::new(4);
    let mut prepared = Vec::new();
    let mut pushed = Vec::new();
    loop {
        match s.action() {
            SpeakAction::Prepare { index } => {
                prepared.push(index);
                s.step(match index {
                    0 => SpeakEvent::Unspeakable,
                    2 => SpeakEvent::EspeakFailed,
                    _ => SpeakEvent::Ready,
                });
            }
            SpeakAction::Synthesize => s.step(SpeakEvent::Synthesized),
            SpeakAction::Push => {
                pushed.push(s.current);
                s.step(SpeakEvent::Pushed);
            }
            SpeakAction::Finish => break,
            SpeakAction::Abort => panic!("nothing broke"),
        }
    }
    assert_eq!(prepared, vec![0, 1, 2, 3]);
    assert_eq!(pushed, vec![1, 3]);
    assert_eq!((s.spoken, s.failed), (2, 1));
    assert_eq!(s.warning(), None);
}

#[test]
fn an_input_without_speech_is_a_warning() {
    let mut s = Speaking::new(2);
    s.step(SpeakEvent::EspeakFailed);
    assert_eq!(s.warning(), None);
    s.step(SpeakEvent::Unspeakable);
    assert_eq!(s.stage, SpeakStage::Finished);
    assert_eq!(
        s.warning(),
        Some(
            "[kokoro] nothing speakable in input (1 chunk(s) failed to phonemize — is espeak-ng \
             installed?)"
                .to_string()
        )
    );
    assert_eq!(
        Speaking::new(0).warning(),
        Some("[kokoro] nothing speakable in input".to_string())
    );
}

#[test]
fn what_breaks_ends_the_run() {
    let events = [SpeakEvent::Ready, SpeakEvent::Synthesized];
    for n in 0..3 {
        let mut s = Speaking::new(1);
        for event in &events[..n] {
            s.step(*event);
        }
        s.step(SpeakEvent::Broken);
        assert_eq!(s.action(), SpeakAction::Abort);
        assert_eq!(s.warning(), None);
    }
}

#[test]
fn wav_files_have_a_header_and_their_samples() {
    let mut out = vec![7u8];
    write_wav(&mut out, &[0, 1, -1, i16::MAX, i16::MIN]);
    let file = &out[1..];
    assert_eq!(out[0], 7);
    assert_eq!(file.len(), 54);
    assert_eq!(&file[0..4], b"RIFF");
    assert_eq!(file[4..8], 46u32.to_le_bytes());
    assert_eq!(&file[8..16], b"WAVEfmt ");
    assert_eq!(file[16..20], 16u32.to_le_bytes());
    assert_eq!(file[20..22], 1u16.to_le_bytes());
    assert_eq!(file[22..24], 1u16.to_le_bytes());
    assert_eq!(file[24..28], 24000u32.to_le_bytes());
    assert_eq!(file[28..32], 48000u32.to_le_bytes());
    assert_eq!(file[32..34], 2u16.to_le_bytes());
    assert_eq!(file[34..36], 16u16.to_le_bytes());
    assert_eq!(&file[36..40], b"data");
    assert_eq!(file[40..44], 10u32.to_le_bytes());
    assert_eq!(file[44..46], 0i16.to_le_bytes());
    assert_eq!(file[46..48], 1i16.to_le_bytes());
    assert_eq!(file[48..50], (-1i16).to_le_bytes());
    assert_eq!(file[50..52], i16::MAX.to_le_bytes());
    assert_eq!(file[52..54], i16::MIN.to_le_bytes());
}

#[test]
fn wav_files_may_be_empty_and_of_any_rate() {
    let mut out = Vec::new();
    write_wav_i16(&mut out, &[], 44100);
    assert_eq!(out.len(), 44);
    assert_eq!(out[24..28], 44100u32.to_le_bytes());
    assert_eq!(out[40..44], 0u32.to_le_bytes());
}

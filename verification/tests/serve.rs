//! The daemon and its client.

use kukuryku::kokoro;
use kukuryku::kokoro::assets::Place;
use kukuryku::serve::accept::{
    accept_step, shutdown_line, AcceptAction, AcceptEvent, ACCEPT_POLL_MS,
};
use kukuryku::serve::request::{
    parse_request, read_request, rejection, reply, request, RequestError,
};
use kukuryku::serve::socket::{
    connect_retry, daemon_output, socket_path, startup, Attempt, DaemonOutput, SocketPath, Startup,
};
use kukuryku::serve::voices::{resolve_voice, VoiceCache, VoiceStep};
use kukuryku::serve::{parse_idle_timeout, parse_sink_idle_ms};
use std::path::PathBuf;
use std::time::Duration;

fn idle_timeout(val: Option<&str>) -> Option<Duration> {
    parse_idle_timeout(val).map(Duration::from_secs)
}

fn sink_idle(val: Option<&str>) -> Duration {
    Duration::from_millis(parse_sink_idle_ms(val))
}

#[test]
fn idle_timeout_default_is_thirty_minutes() {
    assert_eq!(idle_timeout(None), Some(Duration::from_secs(1800)));
}

#[test]
fn idle_timeout_zero_or_off_disables() {
    for v in ["0", "off", "none", "-1", ""] {
        assert_eq!(idle_timeout(Some(v)), None, "{v}");
    }
}

#[test]
fn idle_timeout_parses_seconds() {
    assert_eq!(idle_timeout(Some("60")), Some(Duration::from_secs(60)));
}

#[test]
fn idle_timeout_garbage_falls_back_to_default() {
    assert_eq!(idle_timeout(Some("nope")), Some(Duration::from_secs(1800)));
}

#[test]
fn sink_idle_default_is_ten_minutes() {
    assert_eq!(sink_idle(None), Duration::from_secs(10 * 60));
    assert_eq!(Duration::from_millis(kokoro::DEFAULT_SINK_IDLE), Duration::from_secs(10 * 60));
}

#[test]
fn sink_idle_parses_milliseconds() {
    assert_eq!(sink_idle(Some("3000")), Duration::from_millis(3000));
}

#[test]
fn sink_idle_garbage_falls_back_to_default() {
    assert_eq!(sink_idle(Some("nope")), Duration::from_secs(10 * 60));
}

#[test]
fn numeric_settings_are_taken_as_they_are() {
    assert_eq!(parse_idle_timeout(Some("+5")), Some(5));
    assert_eq!(parse_idle_timeout(Some("000")), None);
    assert_eq!(parse_idle_timeout(Some("-2")), Some(1800));
    assert_eq!(parse_idle_timeout(Some("18446744073709551616")), Some(1800));
    assert_eq!(parse_sink_idle_ms(Some("0")), 0);
    assert_eq!(parse_sink_idle_ms(Some("")), 600_000);
}

#[test]
fn socket_paths_in_order_of_preference() {
    assert!(matches!(socket_path(true, true, true, None), SocketPath::Given));
    match socket_path(false, true, true, Some("ann")) {
        SocketPath::InRuntimeDir(name) => assert_eq!(name, "ryk.sock"),
        _ => panic!("the runtime directory comes next"),
    }
    match socket_path(false, false, true, Some("ann")) {
        SocketPath::InTempDir(name) => assert_eq!(name, "ryk-ann.sock"),
        _ => panic!("the temporary directory comes next"),
    }
    match socket_path(false, false, false, None) {
        SocketPath::At(path) => assert_eq!(path, "/tmp/ryk-user.sock"),
        _ => panic!("there is always /tmp"),
    }
}

#[test]
fn a_dead_socket_is_unlinked_and_a_live_one_is_respected() {
    assert_eq!(startup(true, true), Startup::AlreadyRunning);
    assert_eq!(startup(true, false), Startup::Bind { unlink: true });
    assert_eq!(startup(false, false), Startup::Bind { unlink: false });
}

#[test]
fn daemon_output_goes_to_its_log() {
    assert_eq!(daemon_output(true, true), DaemonOutput::Log);
    assert_eq!(daemon_output(true, false), DaemonOutput::Inherit);
    assert_eq!(daemon_output(false, false), DaemonOutput::Discard);
}

#[test]
fn a_client_tries_for_fifteen_seconds() {
    assert_eq!(connect_retry(true, 99_999), Attempt::Done);
    assert_eq!(connect_retry(false, 0), Attempt::Retry { ms: 150 });
    assert_eq!(connect_retry(false, 14_999), Attempt::Retry { ms: 150 });
    assert_eq!(connect_retry(false, 15_000), Attempt::GiveUp);
}

const SECOND: u128 = 1_000_000_000;

fn quiet(pending: usize, sink_live: bool, now: u128) -> AcceptEvent {
    AcceptEvent::Quiet { pending, sink_live, now }
}

#[test]
fn an_idle_daemon_shuts_down_after_its_timeout() {
    let mut since = None;
    let sleep = AcceptAction::Sleep { ms: ACCEPT_POLL_MS };
    assert_eq!(ACCEPT_POLL_MS, 250);
    assert_eq!(accept_step(&mut since, quiet(0, false, 5 * SECOND), Some(10)), sleep);
    assert_eq!(since, Some(5 * SECOND));
    assert_eq!(accept_step(&mut since, quiet(0, false, 15 * SECOND - 1), Some(10)), sleep);
    assert_eq!(
        accept_step(&mut since, quiet(0, false, 15 * SECOND), Some(10)),
        AcceptAction::ShutDown
    );
    assert_eq!(shutdown_line(10), "[ryk-serve] idle for 10s; shutting down");
}

#[test]
fn a_timeout_of_nothing_ends_with_the_first_idle_look() {
    let mut since = None;
    let sleep = AcceptAction::Sleep { ms: ACCEPT_POLL_MS };
    assert_eq!(accept_step(&mut since, quiet(1, false, SECOND), Some(0)), sleep);
    assert_eq!(
        accept_step(&mut since, quiet(0, false, 2 * SECOND), Some(0)),
        AcceptAction::ShutDown
    );
}

#[test]
fn work_and_sound_keep_the_daemon_alive() {
    let mut since = Some(0);
    let sleep = AcceptAction::Sleep { ms: ACCEPT_POLL_MS };
    assert_eq!(accept_step(&mut since, quiet(1, false, 99 * SECOND), Some(1)), sleep);
    assert_eq!(since, None);
    since = Some(0);
    assert_eq!(accept_step(&mut since, quiet(0, true, 99 * SECOND), Some(1)), sleep);
    assert_eq!(since, None);
}

#[test]
fn clients_and_failures_while_accepting() {
    let mut since = Some(7);
    assert_eq!(accept_step(&mut since, AcceptEvent::Failed, Some(1)), AcceptAction::Report);
    assert_eq!(since, Some(7));
    assert_eq!(accept_step(&mut since, AcceptEvent::Connected, Some(1)), AcceptAction::Serve);
    assert_eq!(since, None);
}

#[test]
fn without_a_timeout_the_daemon_stays() {
    let mut since = None;
    let sleep = AcceptAction::Sleep { ms: ACCEPT_POLL_MS };
    assert_eq!(accept_step(&mut since, quiet(0, false, 0), None), sleep);
    assert_eq!(accept_step(&mut since, quiet(0, false, u128::MAX), None), sleep);
}

#[test]
fn requests_arrive_as_sent() {
    let wire = request("am_michael", "en-gb", "1.25", " line one\nline two\t! \n");
    assert_eq!(wire, "am_michael\ten-gb\t1.25\n line one\nline two\t! \n");
    match read_request(&wire) {
        Ok(job) => {
            assert_eq!(job.voice, "am_michael");
            assert_eq!(job.lang, "en-gb");
            assert_eq!(job.speed, Some("1.25".to_string()));
            assert_eq!(job.text, "line one\nline two\t!");
        }
        Err(_) => panic!("there is text"),
    }
}

#[test]
fn missing_fields_fall_back() {
    for header in ["", "\n", "\r\n", "\t", "\t\n\n"] {
        match parse_request(header, "hi") {
            Ok(job) => {
                assert_eq!(job.voice, "af_heart");
                assert_eq!(job.lang, "en-us");
                assert_eq!(job.speed, None);
                assert_eq!(job.text, "hi");
            }
            Err(_) => panic!("there is text"),
        }
    }
    match parse_request("bf_emma\t\t\tmore\n", "hi") {
        Ok(job) => {
            assert_eq!(job.voice, "bf_emma");
            assert_eq!(job.lang, "en-us");
            assert_eq!(job.speed, Some("".to_string()));
        }
        Err(_) => panic!("there is text"),
    }
}

#[test]
fn blank_requests_are_refused() {
    for wire in ["", "v\tl\t1.0\n", "v\tl\t1.0\n  \n ", "no line feed"] {
        let asked = read_request(wire);
        assert!(matches!(asked, Err(RequestError::EmptyText)));
        assert_eq!(reply(&asked), "err: empty text\n");
        assert_eq!(
            rejection(&reply(&asked)),
            Some("daemon rejected request: empty text".to_string())
        );
    }
}

#[test]
fn accepted_requests_are_acknowledged() {
    let asked = read_request("v\tl\t1.0\nhello");
    assert_eq!(reply(&asked), "ok\n");
    assert_eq!(rejection(&reply(&asked)), None);
    assert_eq!(rejection(""), None);
    assert_eq!(rejection(" err:x \n"), Some("daemon rejected request:x".to_string()));
}

fn place(path: &str, exists: bool) -> Place {
    Place { path: PathBuf::from(path), exists }
}

#[test]
fn voices_are_found_once_and_remembered() {
    let mut cache = VoiceCache::new();
    assert!(matches!(resolve_voice(&mut cache, "a", place("dir/a.bin", false)), VoiceStep::Fetch));
    cache.remember("a", PathBuf::from("cache/a.bin"));
    match resolve_voice(&mut cache, "a", place("dir/a.bin", true)) {
        VoiceStep::Known(path) => assert_eq!(path, PathBuf::from("cache/a.bin")),
        VoiceStep::Fetch => panic!("it was fetched before"),
    }
    match resolve_voice(&mut cache, "b", place("dir/b.bin", true)) {
        VoiceStep::Known(path) => assert_eq!(path, PathBuf::from("dir/b.bin")),
        VoiceStep::Fetch => panic!("the bundle has it"),
    }
    match resolve_voice(&mut cache, "b", place("elsewhere", false)) {
        VoiceStep::Known(path) => assert_eq!(path, PathBuf::from("dir/b.bin")),
        VoiceStep::Fetch => panic!("it was found before"),
    }
}

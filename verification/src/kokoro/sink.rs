//! The process that plays raw samples, and the sound server that it may need.

use crate::kokoro::speech::SAMPLE_RATE;
use crate::number;
use crate::text;
use vstd::prelude::*;

verus! {

/// Default grace of the daemon's sink in milliseconds, after the last sample and with the
/// sink not held. Ten minutes covers a typical editor session (select, hear, pause, select
/// again) without pinning the sound hardware all day.
pub const DEFAULT_SINK_IDLE: u64 = 600_000;

/// Max sentences of synthesized audio buffered ahead of playback.
pub const STREAM_BUFFER: usize = 32;

/// A program that plays what it reads from its stdin.
pub struct SinkCommand {
    pub program: String,
    pub args: Vec<String>,
    /// It is no use without a running PulseAudio server.
    pub needs_pulse: bool,
}

/// Why there is no sink.
#[derive(Clone, Copy, PartialEq, Eq, Structural, Debug)]
pub enum SinkError {
    /// Neither program is installed.
    NotFound,
}

/// The arguments of ffplay: raw samples from stdin, played as soon as they arrive. With its
/// own idea of probing it would buffer some five seconds first.
pub open spec fn ffplay_args() -> Seq<Seq<char>> {
    seq![
        "-hide_banner"@,
        "-loglevel"@,
        "error"@,
        "-nodisp"@,
        "-autoexit"@,
        "-probesize"@,
        "32"@,
        "-analyzeduration"@,
        "0"@,
        "-fflags"@,
        "nobuffer"@,
        "-f"@,
        "f32le"@,
        "-ar"@,
        number::decimal(SAMPLE_RATE as nat),
        "-ac"@,
        "1"@,
        "-i"@,
        "pipe:0"@,
    ]
}

/// The arguments of pacat. The small latency lets clips start that are shorter than its
/// usual buffer.
pub open spec fn pacat_args() -> Seq<Seq<char>> {
    seq![
        "--raw"@,
        "--format=float32le"@,
        "--rate"@,
        number::decimal(SAMPLE_RATE as nat),
        "--channels=1"@,
        "--latency-msec=100"@,
    ]
}

fn rate() -> (r: String)
    ensures
        r@ == number::decimal(SAMPLE_RATE as nat),
{
    let digits: Vec<char> = number::to_decimal(SAMPLE_RATE as u64);
    text::string_of(digits.as_slice())
}

fn push_all(args: &mut Vec<String>, a: &str, b: &str, c: &str)
    ensures
        text::texts(final(args)@) == text::texts(old(args)@) + seq![a@, b@, c@],
{
    args.push(a.to_string());
    args.push(b.to_string());
    args.push(c.to_string());
    assert(text::texts(args@) =~= text::texts(old(args)@) + seq![a@, b@, c@]);
}

fn ffplay() -> (r: Vec<String>)
    ensures
        text::texts(r@) == ffplay_args(),
{
    let mut args: Vec<String> = Vec::new();
    push_all(&mut args, "-hide_banner", "-loglevel", "error");
    push_all(&mut args, "-nodisp", "-autoexit", "-probesize");
    push_all(&mut args, "32", "-analyzeduration", "0");
    push_all(&mut args, "-fflags", "nobuffer", "-f");
    push_all(&mut args, "f32le", "-ar", rate().as_str());
    push_all(&mut args, "-ac", "1", "-i");
    let ghost before = text::texts(args@);
    args.push("pipe:0".to_string());
    assert(text::texts(args@) =~= before.push("pipe:0"@));
    assert(text::texts(args@) =~= ffplay_args());
    args
}

fn pacat() -> (r: Vec<String>)
    ensures
        text::texts(r@) == pacat_args(),
{
    let mut args: Vec<String> = Vec::new();
    push_all(&mut args, "--raw", "--format=float32le", "--rate");
    push_all(&mut args, rate().as_str(), "--channels=1", "--latency-msec=100");
    assert(text::texts(args@) =~= pacat_args());
    args
}

/// Pick a raw-PCM sink command. Prefer `ffplay` (portable); fall back to `pacat`
/// (PulseAudio, standard on Linux). The arguments say which of them are installed.
pub fn build_sink_command(has_ffplay: bool, has_pacat: bool) -> (r: Result<SinkCommand, SinkError>)
    ensures
        match r {
            Ok(c) => if has_ffplay {
                c.program@ == "ffplay"@ && text::texts(c.args@) == ffplay_args() && !c.needs_pulse
            } else {
                has_pacat && c.program@ == "pacat"@ && text::texts(c.args@) == pacat_args()
                    && c.needs_pulse
            },
            Err(e) => !has_ffplay && !has_pacat && e == SinkError::NotFound,
        },
{
    if has_ffplay {
        return Ok(SinkCommand { program: "ffplay".to_string(), args: ffplay(), needs_pulse: false });
    }
    if has_pacat {
        return Ok(SinkCommand { program: "pacat".to_string(), args: pacat(), needs_pulse: true });
    }
    Err(SinkError::NotFound)
}

impl SinkError {
    /// The error as it is reported.
    pub fn message(&self) -> (r: String)
        ensures
            r@
                == "no audio sink found: install ffmpeg (for ffplay) or pulseaudio (for pacat)"@,
    {
        "no audio sink found: install ffmpeg (for ffplay) or pulseaudio (for pacat)".to_string()
    }
}

/// Whether a PulseAudio server is to be started before `pacat` is: it is installed, and none
/// is running. If it is absent there's nothing to do; `pacat` then fails with its own error.
pub fn starts_pulseaudio(installed: bool, running: bool) -> (r: bool)
    ensures
        r == (installed && !running),
{
    installed && !running
}

/// The arguments that start PulseAudio: Android has no default sink and needs one loaded;
/// `extra` arguments come from the environment.
pub open spec fn pulse_args(android: bool, extra: Option<Seq<char>>) -> Seq<Seq<char>> {
    let base = if android {
        seq!["--start"@, "--load=module-sles-sink"@]
    } else {
        seq!["--start"@]
    };
    match extra {
        Some(more) => base + text::words_of(more),
        None => base,
    }
}

/// Arguments for a fresh start of `pulseaudio`. `extra` is what `RYK_PULSE_ARGS` holds.
///
/// Its idle-exit is deliberately not turned off: that would pin the server, and on Android
/// the sound hardware, awake for as long as it lives.
pub fn pulseaudio_start_args(android: bool, extra: Option<&str>) -> (r: Vec<String>)
    ensures
        text::texts(r@) == pulse_args(
            android,
            match extra {
                Some(more) => Some(more@),
                None => None,
            },
        ),
{
    let mut args: Vec<String> = Vec::new();
    args.push("--start".to_string());
    if android {
        args.push("--load=module-sles-sink".to_string());
    }
    let ghost base = text::texts(args@);
    assert(base =~= pulse_args(android, None));
    if let Some(more) = extra {
        let chars: Vec<char> = text::chars_of(more);
        let words: Vec<Vec<char>> = text::split_whitespace(chars.as_slice());
        let ghost all = text::views(words@);
        let mut i: usize = 0;
        assert(base + all.take(0) =~= base);
        while i < words.len()
            invariant
                i <= words@.len(),
                all == text::views(words@),
                text::texts(args@) == base + all.take(i as int),
            decreases words@.len() - i,
        {
            let ghost before = text::texts(args@);
            args.push(text::string_of(words[i].as_slice()));
            assert(text::texts(args@) =~= before.push(all[i as int]));
            assert(base + all.take(i + 1) =~= (base + all.take(i as int)).push(all[i as int]));
            i += 1;
        }
        assert(all.take(i as int) =~= all);
    }
    args
}

/// `word` stands somewhere in `s`.
pub open spec fn mentions(s: Seq<char>, word: Seq<char>) -> bool {
    exists|p: int| 0 <= p <= s.len() && word.is_prefix_of(#[trigger] s.skip(p))
}

/// PulseAudio may exit once nobody is connected: its idle time is mentioned only by arguments
/// that the environment adds.
pub proof fn law_pulseaudio_may_idle_exit(android: bool)
    ensures
        forall|i: int|
            0 <= i < pulse_args(android, None).len() ==> !mentions(
                #[trigger] pulse_args(android, None)[i],
                "exit-idle-time"@,
            ),
{
    reveal_strlit("exit-idle-time");
    reveal_strlit("--start");
    reveal_strlit("--load=module-sles-sink");
    let flag = "exit-idle-time"@;
    let args = pulse_args(android, None);
    assert forall|i: int| 0 <= i < args.len() implies !mentions(#[trigger] args[i], flag) by {
        let arg = args[i];
        assert forall|k: int| 0 <= k < arg.len() implies #[trigger] arg[k] != 'x' by {}
        if mentions(arg, flag) {
            let p = choose|p: int| 0 <= p <= arg.len() && flag.is_prefix_of(#[trigger] arg.skip(p));
            assert(arg.skip(p).subrange(0, flag.len() as int)[1] == arg[p + 1]);
        }
    }
}

/// Both programs are told the format of the samples: 32-bit floats, one channel, 24000 per
/// second. ffplay reads them from its stdin, with no more probing than it must do, and ends with
/// them.
pub proof fn law_sinks_know_the_format()
    ensures
        ({
            let f = ffplay_args();
            let p = pacat_args();
            &&& f.len() == 19 && p.len() == 6
            &&& f[11] == "-f"@ && f[12] == "f32le"@
            &&& f[13] == "-ar"@ && number::number_in(f[14]) == Some(24000u64)
            &&& f[15] == "-ac"@ && f[16] == "1"@
            &&& f[17] == "-i"@ && f[18] == "pipe:0"@
            &&& f[0] == "-hide_banner"@ && f[1] == "-loglevel"@ && f[2] == "error"@
            &&& f[3] == "-nodisp"@ && f[4] == "-autoexit"@
            &&& f[5] == "-probesize"@ && f[6] == "32"@
            &&& f[7] == "-analyzeduration"@ && f[8] == "0"@
            &&& f[9] == "-fflags"@ && f[10] == "nobuffer"@
            &&& p[0] == "--raw"@ && p[1] == "--format=float32le"@
            &&& p[2] == "--rate"@ && number::number_in(p[3]) == Some(24000u64)
            &&& p[4] == "--channels=1"@ && p[5] == "--latency-msec=100"@
        }),
{
    number::law_decimal_is_read_back(24000);
}

/// PulseAudio is started with the arguments that the environment adds, all of them and in their
/// order, behind its own; a sink is loaded on Android only.
pub proof fn law_pulseaudio_gets_the_extra_arguments(android: bool, extra: Seq<char>, i: int)
    requires
        0 <= i < text::words_of(extra).len(),
    ensures
        pulse_args(android, None)[0] == "--start"@,
        pulse_args(android, Some(extra))[0] == "--start"@,
        pulse_args(true, None).len() == 2 && pulse_args(true, None)[1]
            == "--load=module-sles-sink"@,
        pulse_args(true, Some(extra))[1] == "--load=module-sles-sink"@,
        pulse_args(false, None).len() == 1,
        pulse_args(true, Some(extra)).len() == 2 + text::words_of(extra).len(),
        pulse_args(false, Some(extra)).len() == 1 + text::words_of(extra).len(),
        pulse_args(true, Some(extra))[2 + i] == text::words_of(extra)[i],
        pulse_args(false, Some(extra))[1 + i] == text::words_of(extra)[i],
{
}

} // verus!

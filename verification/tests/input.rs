//! Arguments, stdin, switches and asset places.

use kukuryku::cli::{parse_command, wants_raw, wants_verbose, CliError, Command};
use kukuryku::kokoro::assets::{repo_voice_file, voice_file, AssetsError, Place, TractPlan};
use kukuryku::kokoro::input::{client_text, needs_stdin, Reader, Switches, TextError};
use kukuryku::kokoro::{
    clean_input, local_assets_dir, read_text, resolve_assets, resolve_assets_tract,
    set_strip_markdown, set_verbose, strip_markdown, verbose, REPO,
};
use std::path::PathBuf;

fn args(list: &[&str]) -> Vec<String> {
    list.iter().map(|a| a.to_string()).collect()
}

fn spoken(list: &[&str], stdin: &str, strip: bool) -> Option<String> {
    read_text(&args(list), stdin, strip).ok()
}

fn sent(list: &[&str], stdin: &str, strip: bool) -> Option<String> {
    client_text(&args(list), stdin, strip).ok()
}

#[test]
fn the_first_setter_wins() {
    let mut s = Switches::new();
    set_verbose(&mut s, true);
    set_verbose(&mut s, false);
    assert!(verbose(&mut s, false));
    set_strip_markdown(&mut s, false);
    set_strip_markdown(&mut s, true);
    assert!(!strip_markdown(&mut s, false));
}

#[test]
fn the_environment_decides_if_nobody_did() {
    let mut s = Switches::new();
    assert!(verbose(&mut s, true));
    assert!(verbose(&mut s, false));
    assert!(strip_markdown(&mut s, false));
    assert!(strip_markdown(&mut s, true));
    let mut s = Switches::new();
    assert!(!verbose(&mut s, false));
    assert!(!strip_markdown(&mut s, true));
    set_verbose(&mut s, true);
    assert!(!verbose(&mut s, true));
}

#[test]
fn raw_input_is_left_alone() {
    assert_eq!(clean_input("# **Hi**", true), "Hi.");
    assert_eq!(clean_input("# **Hi**", false), "# **Hi**");
}

#[test]
fn arguments_are_joined_and_stripped() {
    assert_eq!(spoken(&["**hello**", "world"], "", true), Some("hello world".to_string()));
    assert_eq!(spoken(&["**hello**", "world"], "", false), Some("**hello** world".to_string()));
    assert_eq!(spoken(&[""], "ignored", true), Some("".to_string()));
}

#[test]
fn flags_are_not_spoken() {
    let flags = ["-v", "hi", "--raw", "--show-text", "there", "--verbose"];
    assert_eq!(spoken(&flags, "", false), Some("hi there".to_string()));
    assert_eq!(sent(&["-v", "--send", "hi", "--raw"], "", false), Some("hi".to_string()));
    assert_eq!(spoken(&["--send", "hi"], "", false), Some("--send hi".to_string()));
    assert_eq!(sent(&["--show-text", "hi"], "", false), Some("--show-text hi".to_string()));
}

#[test]
fn text_behind_the_separator_is_spoken() {
    assert_eq!(spoken(&["--", "- first bullet"], "", false), Some("- first bullet".to_string()));
    assert_eq!(spoken(&["-v", "--", "--", "x"], "", false), Some("-- x".to_string()));
    assert_eq!(spoken(&["x", "--"], "", false), Some("x --".to_string()));
    assert_eq!(sent(&["--send", "--", "-x"], "", false), Some("-x".to_string()));
}

#[test]
fn stdin_is_read_when_no_argument_is_text() {
    assert!(needs_stdin(Reader::OneShot, &args(&["-v", "--"])));
    assert!(needs_stdin(Reader::Client, &args(&["--send"])));
    assert!(!needs_stdin(Reader::OneShot, &args(&["--send"])));
    assert_eq!(spoken(&[], "\n # Title \n", true), Some("Title.".to_string()));
    assert_eq!(sent(&["--send", "--raw"], " *x* \n", false), Some("*x*".to_string()));
}

#[test]
fn no_text_is_an_error() {
    for stdin in ["", " \n", "---", "```\ncode\n```"] {
        assert!(matches!(read_text(&args(&[]), stdin, true), Err(TextError::NoText)));
        assert!(matches!(client_text(&args(&["--send"]), stdin, true), Err(TextError::NoText)));
    }
    assert_eq!(
        TextError::NoText.message(Reader::OneShot),
        "no text provided (pass as args or pipe to stdin)"
    );
    assert_eq!(
        TextError::NoText.message(Reader::Client),
        "no text provided (pass after --send or pipe to stdin)"
    );
}

fn command(list: &[&str]) -> Command {
    match parse_command(&args(list)) {
        Ok(command) => command,
        Err(e) => panic!("{}", e.message()),
    }
}

#[test]
fn commands_are_told_apart() {
    assert_eq!(command(&[]), Command::Speak);
    assert_eq!(command(&["hello"]), Command::Speak);
    assert_eq!(command(&["--", "--help"]), Command::Speak);
    assert_eq!(command(&["-x"]), Command::Speak);
    assert_eq!(command(&["--help"]), Command::Help);
    assert_eq!(command(&["-h"]), Command::Help);
    assert_eq!(command(&["--version"]), Command::Version);
    assert_eq!(command(&["-V"]), Command::Version);
    assert_eq!(command(&["--show-text", "x"]), Command::ShowText);
    assert_eq!(command(&["--serve"]), Command::Serve);
    assert_eq!(command(&["--send", "x"]), Command::Send);
    assert_eq!(command(&["--install-assets"]), Command::InstallAssets { dev: false });
    assert_eq!(command(&["--install-assets", "--dev"]), Command::InstallAssets { dev: true });
    assert_eq!(command(&["hello", "--help"]), Command::Speak);
}

#[test]
fn switches_may_appear_anywhere() {
    assert_eq!(command(&["-v", "--send", "hi"]), command(&["--send", "hi"]));
    assert_eq!(
        command(&["--install-assets", "--verbose", "--dev", "--raw"]),
        Command::InstallAssets { dev: true }
    );
    assert!(wants_verbose(&args(&["x", "-v"])));
    assert!(wants_verbose(&args(&["--verbose"])));
    assert!(!wants_verbose(&args(&["--raw", "-V"])));
    assert!(wants_raw(&args(&["x", "--raw"])));
    assert!(!wants_raw(&args(&["raw"])));
}

#[test]
fn mistakes_are_reported_not_spoken() {
    match parse_command(&args(&["-v", "--halp"])) {
        Err(e) => {
            assert_eq!(e.message(), "unknown flag `--halp` (see `ryk --help`)");
            assert!(matches!(e, CliError::UnknownFlag(_)));
        }
        Ok(_) => panic!("there is no such flag"),
    }
    match parse_command(&args(&["--install-assets", "here"])) {
        Err(e) => {
            assert_eq!(
                e.message(),
                "unknown argument `here` to --install-assets (only `--dev` accepted)"
            );
            assert!(matches!(e, CliError::UnknownInstallArgument(_)));
        }
        Ok(_) => panic!("there is no such argument"),
    }
}

fn place(path: &str, exists: bool) -> Place {
    Place { path: PathBuf::from(path), exists }
}

fn picked(explicit: Option<&str>, user: Option<bool>, cwd: bool, exe: Option<bool>) -> PathBuf {
    local_assets_dir(
        explicit.map(PathBuf::from),
        user.map(|exists| place("user", exists)),
        place("cwd", cwd),
        exe.map(|exists| place("exe", exists)),
    )
}

#[test]
fn asset_directories_in_order_of_preference() {
    assert_eq!(picked(Some("given"), Some(true), true, Some(true)), PathBuf::from("given"));
    assert_eq!(picked(None, Some(true), true, Some(true)), PathBuf::from("user"));
    assert_eq!(picked(None, Some(false), true, Some(true)), PathBuf::from("cwd"));
    assert_eq!(picked(None, None, true, Some(true)), PathBuf::from("cwd"));
    assert_eq!(picked(None, Some(false), false, Some(true)), PathBuf::from("exe"));
    assert_eq!(picked(None, None, false, Some(true)), PathBuf::from("exe"));
    assert_eq!(picked(None, Some(false), false, Some(false)), PathBuf::from("user"));
    assert_eq!(picked(None, None, false, None), PathBuf::from("cwd"));
}

#[test]
fn the_split_model_must_be_there() {
    for (stage1, stage2) in [(false, false), (true, false), (false, true)] {
        match resolve_assets_tract(PathBuf::from("d"), stage1, stage2, place("v", true)) {
            Err(e) => {
                assert_eq!(e, AssetsError::SplitModelMissing);
                assert_eq!(
                    e.message("/x"),
                    "split model not found in /x (need stage1.onnx + stage2.onnx).\n  run `ryk \
                     --install-assets` to fetch the bundle, or point KOKORO_TRACT_DIR at a \
                     directory that has them."
                );
            }
            Ok(_) => panic!("a stage is missing"),
        }
    }
}

#[test]
fn only_a_missing_voice_is_fetched() {
    match resolve_assets_tract(PathBuf::from("d"), true, true, place("v", true)) {
        Ok(TractPlan::Ready(assets)) => {
            assert_eq!(assets.dir, PathBuf::from("d"));
            assert_eq!(assets.voice_path, PathBuf::from("v"));
        }
        _ => panic!("everything is there"),
    }
    match resolve_assets_tract(PathBuf::from("d"), true, true, place("v", false)) {
        Ok(TractPlan::FetchVoice { dir }) => assert_eq!(dir, PathBuf::from("d")),
        _ => panic!("the voice is missing"),
    }
    assert_eq!(voice_file("af_heart"), "af_heart.bin");
    assert_eq!(repo_voice_file("af_heart"), "voices/af_heart.bin");
    assert_eq!(REPO, "onnx-community/Kokoro-82M-v1.0-ONNX");
}

#[test]
fn a_local_bundle_needs_model_and_voice() {
    match resolve_assets(place("m", true), place("v", true)) {
        Some(assets) => {
            assert_eq!(assets.model_path, PathBuf::from("m"));
            assert_eq!(assets.voice_path, PathBuf::from("v"));
        }
        None => panic!("both are there"),
    }
    assert!(resolve_assets(place("m", false), place("v", true)).is_none());
    assert!(resolve_assets(place("m", true), place("v", false)).is_none());
}

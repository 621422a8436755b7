//! What the command line asks for.

use crate::text;
use vstd::prelude::*;

verus! {

/// What to run.
#[derive(Clone, Copy, PartialEq, Eq, Structural, Debug)]
pub enum Command {
    /// Download the assets; `dev` puts them beside the executable.
    InstallAssets { dev: bool },
    Help,
    Version,
    /// Print what would be spoken, and stop.
    ShowText,
    /// Run the warm daemon.
    Serve,
    /// Send text to the daemon.
    Send,
    /// Speak text.
    Speak,
}

/// Why the command line makes no sense.
pub enum CliError {
    /// Only `--dev` may follow `--install-assets`.
    UnknownInstallArgument(String),
    /// An unknown `--flag` is a mistake, not something to read aloud.
    UnknownFlag(String),
}

/// Switches that may appear anywhere.
pub open spec fn is_switch(arg: Seq<char>) -> bool {
    arg == "-v"@ || arg == "--verbose"@ || arg == "--raw"@
}

/// The arguments without the switches, in order.
pub open spec fn unswitched(args: Seq<Seq<char>>) -> Seq<Seq<char>>
    decreases args.len(),
{
    if args.len() == 0 {
        Seq::empty()
    } else if is_switch(args.last()) {
        unswitched(args.drop_last())
    } else {
        unswitched(args.drop_last()).push(args.last())
    }
}

/// What the first argument that is no switch asks for. `--` ends the flags; the rest of the
/// arguments is text then, and so it is behind an argument that is no `--flag`.
pub open spec fn asked(args: Seq<Seq<char>>) -> Result<Command, (bool, Seq<char>)> {
    let rest = unswitched(args);
    if rest.len() == 0 {
        Ok(Command::Speak)
    } else if rest[0] == "--install-assets"@ {
        if rest.len() == 1 {
            Ok(Command::InstallAssets { dev: false })
        } else if rest[1] == "--dev"@ {
            Ok(Command::InstallAssets { dev: true })
        } else {
            Err((true, rest[1]))
        }
    } else if rest[0] == "--help"@ || rest[0] == "-h"@ {
        Ok(Command::Help)
    } else if rest[0] == "--version"@ || rest[0] == "-V"@ {
        Ok(Command::Version)
    } else if rest[0] == "--show-text"@ {
        Ok(Command::ShowText)
    } else if rest[0] == "--serve"@ {
        Ok(Command::Serve)
    } else if rest[0] == "--send"@ {
        Ok(Command::Send)
    } else if rest[0] != "--"@ && "--"@.is_prefix_of(rest[0]) {
        Err((false, rest[0]))
    } else {
        Ok(Command::Speak)
    }
}

fn switch(arg: &[char]) -> (r: bool)
    ensures
        r == is_switch(arg@),
{
    text::eq_str(arg, "-v") || text::eq_str(arg, "--verbose") || text::eq_str(arg, "--raw")
}

fn without_switches(args: &Vec<String>) -> (r: Vec<Vec<char>>)
    ensures
        text::views(r@) == unswitched(text::texts(args@)),
{
    let ghost all = text::texts(args@);
    let mut kept: Vec<Vec<char>> = Vec::new();
    let mut i: usize = 0;
    assert(text::views(kept@) =~= Seq::<Seq<char>>::empty());
    while i < args.len()
        invariant
            i <= args@.len(),
            all == text::texts(args@),
            text::views(kept@) == unswitched(all.take(i as int)),
        decreases args@.len() - i,
    {
        let arg: Vec<char> = text::chars_of(args[i].as_str());
        assert(all.take(i + 1).drop_last() =~= all.take(i as int));
        assert(all.take(i + 1).last() == arg@);
        if !switch(arg.as_slice()) {
            let ghost before = text::views(kept@);
            kept.push(arg);
            assert(text::views(kept@) =~= before.push(arg@));
        }
        i += 1;
    }
    assert(all.take(i as int) =~= all);
    kept
}

/// What the arguments behind the program's name ask for.
pub fn parse_command(args: &Vec<String>) -> (r: Result<Command, CliError>)
    ensures
        match r {
            Ok(command) => asked(text::texts(args@)) == Ok::<Command, (bool, Seq<char>)>(command),
            Err(CliError::UnknownInstallArgument(arg)) => asked(text::texts(args@)) == Err::<
                Command,
                (bool, Seq<char>),
            >((true, arg@)),
            Err(CliError::UnknownFlag(arg)) => asked(text::texts(args@)) == Err::<
                Command,
                (bool, Seq<char>),
            >((false, arg@)),
        },
{
    let rest: Vec<Vec<char>> = without_switches(args);
    if rest.len() == 0 {
        return Ok(Command::Speak);
    }
    let first: &[char] = rest[0].as_slice();
    assert(first@ == text::views(rest@)[0]);
    if text::eq_str(first, "--install-assets") {
        if rest.len() == 1 {
            return Ok(Command::InstallAssets { dev: false });
        }
        let second: &[char] = rest[1].as_slice();
        assert(second@ == text::views(rest@)[1]);
        if text::eq_str(second, "--dev") {
            Ok(Command::InstallAssets { dev: true })
        } else {
            Err(CliError::UnknownInstallArgument(text::string_of(second)))
        }
    } else if text::eq_str(first, "--help") || text::eq_str(first, "-h") {
        Ok(Command::Help)
    } else if text::eq_str(first, "--version") || text::eq_str(first, "-V") {
        Ok(Command::Version)
    } else if text::eq_str(first, "--show-text") {
        Ok(Command::ShowText)
    } else if text::eq_str(first, "--serve") {
        Ok(Command::Serve)
    } else if text::eq_str(first, "--send") {
        Ok(Command::Send)
    } else if !text::eq_str(first, "--") && text::starts_with(first, "--") {
        Err(CliError::UnknownFlag(text::string_of(first)))
    } else {
        Ok(Command::Speak)
    }
}

fn has_arg(args: &Vec<String>, wanted: &str) -> (r: bool)
    ensures
        r == text::texts(args@).contains(wanted@),
{
    let mut i: usize = 0;
    while i < args.len()
        invariant
            i <= args@.len(),
            forall|j: int| 0 <= j < i ==> text::texts(args@)[j] != wanted@,
        decreases args@.len() - i,
    {
        let arg: Vec<char> = text::chars_of(args[i].as_str());
        if text::eq_str(arg.as_slice(), wanted) {
            assert(text::texts(args@)[i as int] == wanted@);
            return true;
        }
        i += 1;
    }
    false
}

/// Whether progress and statistics are to be printed.
pub fn wants_verbose(args: &Vec<String>) -> (r: bool)
    ensures
        r == (text::texts(args@).contains("-v"@) || text::texts(args@).contains("--verbose"@)),
{
    has_arg(args, "-v") || has_arg(args, "--verbose")
}

/// Whether the input is to be spoken verbatim.
pub fn wants_raw(args: &Vec<String>) -> (r: bool)
    ensures
        r == text::texts(args@).contains("--raw"@),
{
    has_arg(args, "--raw")
}

impl CliError {
    pub open spec fn text(&self) -> Seq<char> {
        match self {
            CliError::UnknownInstallArgument(arg) => "unknown argument `"@ + arg@
                + "` to --install-assets (only `--dev` accepted)"@,
            CliError::UnknownFlag(arg) => "unknown flag `"@ + arg@ + "` (see `ryk --help`)"@,
        }
    }

    /// The error as it is reported.
    pub fn message(&self) -> (r: String)
        ensures
            r@ == self.text(),
    {
        match self {
            CliError::UnknownInstallArgument(arg) => text::concat3(
                "unknown argument `",
                arg.as_str(),
                "` to --install-assets (only `--dev` accepted)",
            ),
            CliError::UnknownFlag(arg) => text::concat3(
                "unknown flag `",
                arg.as_str(),
                "` (see `ryk --help`)",
            ),
        }
    }
}

proof fn lemma_unswitched_concat(a: Seq<Seq<char>>, b: Seq<Seq<char>>)
    ensures
        unswitched(a + b) == unswitched(a) + unswitched(b),
    decreases b.len(),
{
    if b.len() == 0 {
        assert(a + b =~= a);
        assert(unswitched(a) + unswitched(b) =~= unswitched(a));
    } else {
        lemma_unswitched_concat(a, b.drop_last());
        assert((a + b).drop_last() =~= a + b.drop_last());
        assert((a + b).last() == b.last());
        assert(unswitched(a + b) =~= unswitched(a) + unswitched(b));
    }
}

/// A switch may appear anywhere: the command is the same without it.
pub proof fn law_switches_may_appear_anywhere(
    a: Seq<Seq<char>>,
    switch: Seq<char>,
    b: Seq<Seq<char>>,
)
    requires
        switch == "-v"@ || switch == "--verbose"@ || switch == "--raw"@,
    ensures
        asked(a + seq![switch] + b) == asked(a + b),
{
    lemma_unswitched_concat(a + seq![switch], b);
    lemma_unswitched_concat(a, b);
    assert((a + seq![switch]).drop_last() =~= a);
}

/// No flag is read aloud: what is spoken starts with no argument that looks like one, unless
/// the separator says that it is text.
pub proof fn law_flags_are_not_read_aloud(args: Seq<Seq<char>>)
    requires
        asked(args) == Ok::<Command, (bool, Seq<char>)>(Command::Speak),
        unswitched(args).len() > 0,
    ensures
        unswitched(args)[0] == "--"@ || !"--"@.is_prefix_of(unswitched(args)[0]),
{
}

proof fn lemma_first_argument(first: Seq<char>, rest: Seq<Seq<char>>)
    requires
        first != "-v"@,
        first != "--verbose"@,
        first != "--raw"@,
    ensures
        unswitched(seq![first] + rest) == seq![first] + unswitched(rest),
{
    lemma_unswitched_concat(seq![first], rest);
    assert(seq![first].drop_last() =~= Seq::<Seq<char>>::empty());
    assert(unswitched(Seq::empty()) =~= Seq::<Seq<char>>::empty());
    assert(unswitched(seq![first]) =~= seq![first]);
}

/// No two of the flags are spelled alike.
proof fn lemma_flags_differ()
    ensures
        forall|i: int, j: int|
            0 <= i < j < flags().len() ==> #[trigger] flags()[i] != #[trigger] flags()[j],
        forall|i: int| 0 <= i < flags().len() ==> (#[trigger] flags()[i]).len() >= 2,
{
    reveal_strlit("-v");
    reveal_strlit("--verbose");
    reveal_strlit("--raw");
    reveal_strlit("--install-assets");
    reveal_strlit("--help");
    reveal_strlit("-h");
    reveal_strlit("--version");
    reveal_strlit("-V");
    reveal_strlit("--show-text");
    reveal_strlit("--serve");
    reveal_strlit("--send");
    reveal_strlit("--");
    assert("-v"@[1] == 'v' && "-h"@[1] == 'h' && "-V"@[1] == 'V' && "--"@[1] == '-');
    assert("--verbose"@[5] == 'b' && "--version"@[5] == 's');
    assert("--help"@[2] == 'h' && "--send"@[2] == 's');
    assert("-v"@.len() == 2 && "-h"@.len() == 2 && "-V"@.len() == 2 && "--"@.len() == 2);
    assert("--raw"@.len() == 5 && "--help"@.len() == 6 && "--send"@.len() == 6);
    assert("--serve"@.len() == 7 && "--verbose"@.len() == 9 && "--version"@.len() == 9);
    assert("--show-text"@.len() == 11 && "--install-assets"@.len() == 16);
}

spec fn flags() -> Seq<Seq<char>> {
    seq![
        "-v"@,
        "--verbose"@,
        "--raw"@,
        "--install-assets"@,
        "--help"@,
        "-h"@,
        "--version"@,
        "-V"@,
        "--show-text"@,
        "--serve"@,
        "--send"@,
        "--"@,
    ]
}

/// What the first argument asks for, whatever follows it: each command has its flag, and
/// without one, or behind `--`, the arguments are spoken.
pub proof fn law_every_command_has_its_flag(rest: Seq<Seq<char>>)
    ensures
        asked(seq!["--help"@] + rest) == Ok::<Command, (bool, Seq<char>)>(Command::Help),
        asked(seq!["-h"@] + rest) == Ok::<Command, (bool, Seq<char>)>(Command::Help),
        asked(seq!["--version"@] + rest) == Ok::<Command, (bool, Seq<char>)>(Command::Version),
        asked(seq!["-V"@] + rest) == Ok::<Command, (bool, Seq<char>)>(Command::Version),
        asked(seq!["--show-text"@] + rest) == Ok::<Command, (bool, Seq<char>)>(Command::ShowText),
        asked(seq!["--serve"@] + rest) == Ok::<Command, (bool, Seq<char>)>(Command::Serve),
        asked(seq!["--send"@] + rest) == Ok::<Command, (bool, Seq<char>)>(Command::Send),
        asked(seq!["--"@] + rest) == Ok::<Command, (bool, Seq<char>)>(Command::Speak),
        asked(Seq::empty()) == Ok::<Command, (bool, Seq<char>)>(Command::Speak),
{
    lemma_flags_differ();
    let f = flags();
    assert forall|i: int| 3 <= i < f.len() implies #[trigger] unswitched(seq![f[i]] + rest) == seq![
        f[i],
    ] + unswitched(rest) by {
        assert(f[0] != f[i] && f[1] != f[i] && f[2] != f[i]);
        lemma_first_argument(f[i], rest);
    }
    assert(f[3] == "--install-assets"@ && f[4] == "--help"@ && f[5] == "-h"@);
    assert(f[6] == "--version"@ && f[7] == "-V"@ && f[8] == "--show-text"@);
    assert(f[9] == "--serve"@ && f[10] == "--send"@ && f[11] == "--"@);
    assert(unswitched(seq![f[4]] + rest)[0] == f[4]);
    assert(unswitched(seq![f[5]] + rest)[0] == f[5]);
    assert(unswitched(seq![f[6]] + rest)[0] == f[6]);
    assert(unswitched(seq![f[7]] + rest)[0] == f[7]);
    assert(unswitched(seq![f[8]] + rest)[0] == f[8]);
    assert(unswitched(seq![f[9]] + rest)[0] == f[9]);
    assert(unswitched(seq![f[10]] + rest)[0] == f[10]);
    assert(unswitched(seq![f[11]] + rest)[0] == f[11]);
}

/// Assets are installed for the user, or with `--dev` beside the executable; any other argument
/// to that is reported as it was written.
pub proof fn law_assets_are_installed_where_asked(arg: Seq<char>, rest: Seq<Seq<char>>)
    requires
        arg != "-v"@,
        arg != "--verbose"@,
        arg != "--raw"@,
    ensures
        asked(seq!["--install-assets"@]) == Ok::<Command, (bool, Seq<char>)>(
            Command::InstallAssets { dev: false },
        ),
        arg == "--dev"@ ==> asked(seq!["--install-assets"@] + (seq![arg] + rest)) == Ok::<
            Command,
            (bool, Seq<char>),
        >(Command::InstallAssets { dev: true }),
        arg != "--dev"@ ==> asked(seq!["--install-assets"@] + (seq![arg] + rest)) == Err::<
            Command,
            (bool, Seq<char>),
        >((true, arg)),
{
    lemma_flags_differ();
    let f = flags();
    assert(f[0] != f[3] && f[1] != f[3] && f[2] != f[3]);
    let none = Seq::<Seq<char>>::empty();
    lemma_first_argument(f[3], none);
    assert(seq![f[3]] + none =~= seq!["--install-assets"@]);
    assert(unswitched(none) =~= none);
    lemma_first_argument(arg, rest);
    lemma_first_argument(f[3], seq![arg] + rest);
    let all = unswitched(seq![f[3]] + (seq![arg] + rest));
    assert(all[0] == f[3] && all[1] == arg);
}

/// Any other argument that starts with `--` is a mistake, reported as it was written; what does
/// not start with `--` is spoken, with all that follows.
pub proof fn law_unknown_flags_are_reported(arg: Seq<char>, rest: Seq<Seq<char>>)
    requires
        arg != "-v"@,
        arg != "--verbose"@,
        arg != "--raw"@,
        arg != "--install-assets"@,
        arg != "--help"@,
        arg != "-h"@,
        arg != "--version"@,
        arg != "-V"@,
        arg != "--show-text"@,
        arg != "--serve"@,
        arg != "--send"@,
        arg != "--"@,
    ensures
        arg.len() >= 2 && arg[0] == '-' && arg[1] == '-' ==> asked(seq![arg] + rest) == Err::<
            Command,
            (bool, Seq<char>),
        >((false, arg)),
        !(arg.len() >= 2 && arg[0] == '-' && arg[1] == '-') ==> asked(seq![arg] + rest) == Ok::<
            Command,
            (bool, Seq<char>),
        >(Command::Speak),
{
    lemma_first_argument(arg, rest);
    reveal_strlit("--");
    assert(unswitched(seq![arg] + rest)[0] == arg);
    if arg.len() >= 2 {
        assert(arg.subrange(0, 2)[0] == arg[0] && arg.subrange(0, 2)[1] == arg[1]);
        if arg[0] == '-' && arg[1] == '-' {
            assert(arg.subrange(0, 2) =~= "--"@);
        }
    }
}

} // verus!

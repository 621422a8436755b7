//! Where the daemon listens, how it starts, and how a client reaches it.

use crate::text;
use vstd::prelude::*;

verus! {

/// How long a client sleeps between two attempts to connect, in milliseconds.
pub const RETRY_MS: u64 = 150;

/// How long a client tries to connect to a daemon that it started, in milliseconds; this
/// covers the one-time compilation.
pub const CONNECT_MS: u64 = 15_000;

/// Where the socket is.
pub enum SocketPath {
    /// Where `$RYK_SOCKET` says.
    Given,
    /// A file in `$XDG_RUNTIME_DIR`.
    InRuntimeDir(String),
    /// A file in `$TMPDIR`.
    InTempDir(String),
    /// At this path.
    At(String),
}

/// The name of a user's socket where others may have theirs.
pub open spec fn user_socket(user: Option<&str>) -> Seq<char> {
    "ryk-"@ + (match user {
        Some(name) => name@,
        None => "user"@,
    }) + ".sock"@
}

/// Where the daemon listens and the client connects. `$RYK_SOCKET` wins; else
/// `$XDG_RUNTIME_DIR/ryk.sock`; else `$TMPDIR/ryk-$USER.sock` (some systems have no `/tmp`);
/// else `/tmp/ryk-$USER.sock`. The arguments say which of the variables are set.
pub fn socket_path(given: bool, runtime_dir: bool, temp_dir: bool, user: Option<&str>) -> (r:
    SocketPath)
    ensures
        match r {
            SocketPath::Given => given,
            SocketPath::InRuntimeDir(name) => !given && runtime_dir && name@ == "ryk.sock"@,
            SocketPath::InTempDir(name) => !given && !runtime_dir && temp_dir && name@
                == user_socket(user),
            SocketPath::At(path) => !given && !runtime_dir && !temp_dir && path@ == "/tmp/"@
                + user_socket(user),
        },
{
    if given {
        return SocketPath::Given;
    }
    if runtime_dir {
        return SocketPath::InRuntimeDir("ryk.sock".to_string());
    }
    let name: String = match user {
        Some(name) => text::concat3("ryk-", name, ".sock"),
        None => text::concat3("ryk-", "user", ".sock"),
    };
    if temp_dir {
        return SocketPath::InTempDir(name);
    }
    SocketPath::At(text::concat2("/tmp/", name.as_str()))
}

/// What a daemon does first.
#[derive(Clone, Copy, PartialEq, Eq, Structural, Debug)]
pub enum Startup {
    /// Another daemon is listening: say so and leave.
    AlreadyRunning,
    /// Bind the socket; `unlink` a dead one first.
    Bind { unlink: bool },
}

/// Stale-socket handling: a live daemon means "already running"; a dead socket file (left
/// over from a crash) is unlinked so that the socket can be bound afresh.
pub fn startup(exists: bool, answers: bool) -> (r: Startup)
    ensures
        r == if exists && answers {
            Startup::AlreadyRunning
        } else {
            Startup::Bind { unlink: exists }
        },
{
    if exists && answers {
        Startup::AlreadyRunning
    } else {
        Startup::Bind { unlink: exists }
    }
}

/// Where the output of a daemon goes that a client starts.
#[derive(Clone, Copy, PartialEq, Eq, Structural, Debug)]
pub enum DaemonOutput {
    /// To the log file beside the socket.
    Log,
    /// Nowhere.
    Discard,
    /// Where the client's own output goes.
    Inherit,
}

/// Picks the output: the log, if the file could be created and its handle shared between
/// both streams; nothing, if it could not be created.
pub fn daemon_output(created: bool, shared: bool) -> (r: DaemonOutput)
    ensures
        r == if !created {
            DaemonOutput::Discard
        } else if shared {
            DaemonOutput::Log
        } else {
            DaemonOutput::Inherit
        },
{
    if !created {
        DaemonOutput::Discard
    } else if shared {
        DaemonOutput::Log
    } else {
        DaemonOutput::Inherit
    }
}

/// What a client does after an attempt to connect.
#[derive(Clone, Copy, PartialEq, Eq, Structural, Debug)]
pub enum Attempt {
    /// It is connected.
    Done,
    /// It sleeps for so many milliseconds and tries again.
    Retry { ms: u64 },
    /// It gives up.
    GiveUp,
}

/// Poll-connect until the daemon accepts or the time is up. `elapsed_ms` counts from the
/// first attempt.
pub fn connect_retry(connected: bool, elapsed_ms: u64) -> (r: Attempt)
    ensures
        r == if connected {
            Attempt::Done
        } else if elapsed_ms < CONNECT_MS {
            Attempt::Retry { ms: RETRY_MS }
        } else {
            Attempt::GiveUp
        },
{
    if connected {
        Attempt::Done
    } else if elapsed_ms < CONNECT_MS {
        Attempt::Retry { ms: RETRY_MS }
    } else {
        Attempt::GiveUp
    }
}

/// A daemon that is alive is never displaced, and a dead one's socket never stays: it is
/// unlinked if it is there, and only then.
pub proof fn law_live_daemons_are_respected(exists: bool, answers: bool, r: Startup)
    requires
        call_ensures(startup, (exists, answers), r),
    ensures
        exists && answers ==> r == Startup::AlreadyRunning,
        exists && !answers ==> r == (Startup::Bind { unlink: true }),
        !exists ==> r == (Startup::Bind { unlink: false }),
{
}

/// `$RYK_SOCKET` wins over `$XDG_RUNTIME_DIR`, that over `$TMPDIR`, and that over `/tmp`. In a
/// directory that users share, the socket is named after its user.
pub proof fn law_sockets_are_looked_for_in_order(
    given: bool,
    runtime_dir: bool,
    temp_dir: bool,
    user: Option<&str>,
    r: SocketPath,
)
    requires
        call_ensures(socket_path, (given, runtime_dir, temp_dir, user), r),
    ensures
        given ==> r is Given,
        !given && runtime_dir ==> (r matches SocketPath::InRuntimeDir(name) && name@
            == "ryk.sock"@),
        !given && !runtime_dir && temp_dir && user is Some ==> (r matches SocketPath::InTempDir(
            name,
        ) && name@ == "ryk-"@ + user->0@ + ".sock"@),
        !given && !runtime_dir && temp_dir && user is None ==> (r matches SocketPath::InTempDir(
            name,
        ) && name@ == "ryk-"@ + "user"@ + ".sock"@),
        !given && !runtime_dir && !temp_dir && user is Some ==> (r matches SocketPath::At(path)
            && path@ == "/tmp/"@ + ("ryk-"@ + user->0@ + ".sock"@)),
        !given && !runtime_dir && !temp_dir && user is None ==> (r matches SocketPath::At(path)
            && path@ == "/tmp/"@ + ("ryk-"@ + "user"@ + ".sock"@)),
{
}

/// The log is written if it can be, and a client's own output is used only if it can be created
/// but not shared.
pub proof fn law_daemons_log_where_they_can(created: bool, shared: bool, r: DaemonOutput)
    requires
        call_ensures(daemon_output, (created, shared), r),
    ensures
        created && shared ==> r == DaemonOutput::Log,
        created && !shared ==> r == DaemonOutput::Inherit,
        !created ==> r == DaemonOutput::Discard,
{
}

/// A client tries again every 150 milliseconds for 15 seconds, and no longer; once it is
/// connected it is done, however late.
pub proof fn law_clients_try_for_fifteen_seconds(connected: bool, elapsed_ms: u64, r: Attempt)
    requires
        call_ensures(connect_retry, (connected, elapsed_ms), r),
    ensures
        connected ==> r == Attempt::Done,
        !connected && elapsed_ms < 15_000 ==> r == (Attempt::Retry { ms: 150 }),
        !connected && elapsed_ms >= 15_000 ==> r == Attempt::GiveUp,
{
}

} // verus!

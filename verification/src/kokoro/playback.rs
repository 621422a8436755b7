//! When the audio sink is spawned, fed and closed.
//!
//! The samples themselves never pass through here: the caller performs the action that is
//! asked for and reports how it went.

use crate::text;
use vstd::prelude::*;

verus! {

/// How often a held sink is looked at again, in milliseconds.
pub const HOLD_POLL_MS: u64 = 200;

/// How long a sink process lives.
#[derive(Clone, Copy, PartialEq, Eq, Structural, Debug)]
pub enum Lifetime {
    /// A single sink process until the queue ends.
    OneShot,
    /// One sink process per burst of audio: it is closed once the queue has been empty for
    /// `idle_ms` milliseconds and nobody holds it, and respawned for the next chunk.
    Sessions { idle_ms: u64 },
}

/// Where playback stands.
#[derive(Clone, Copy, PartialEq, Eq, Structural, Debug)]
pub enum Stage {
    /// No sink, and nothing to play.
    Empty,
    /// A sink is to be spawned.
    Opening,
    /// A chunk is to be written; `fresh` if it is the first one of its sink.
    Writing { fresh: bool },
    /// A sink is running, and nothing is to be written.
    Open,
    /// The sink is to be closed; `last` if the queue has ended, `quiet` if an error of the
    /// sink is of no interest any more.
    Closing { last: bool, quiet: bool },
    /// Playback is over.
    Finished,
    /// Playback has failed.
    Failed,
}

/// What playback asks for.
#[derive(Clone, Copy, PartialEq, Eq, Structural, Debug)]
pub enum Action {
    /// Wait for the next chunk.
    Receive,
    /// Wait for the next chunk, at most this many milliseconds.
    ReceiveFor { ms: u64 },
    /// Spawn the sink.
    Spawn,
    /// Write the chunk that was received last.
    Write,
    /// Close the pipe and wait until the sink has drained it.
    Close,
    /// Return.
    Stop,
    /// Return the error that came last.
    Fail,
}

/// How an action went.
#[derive(Clone, Copy, PartialEq, Eq, Structural, Debug)]
pub enum Event {
    Chunk,
    Disconnected,
    /// No chunk came in time; `held` if somebody holds the sink now.
    Timeout { held: bool },
    Spawned,
    SpawnFailed,
    Written,
    WriteFailed,
    Closed,
    CloseFailed,
}

/// What is reported on the way.
#[derive(Clone, Copy, PartialEq, Eq, Structural, Debug)]
pub enum Notice {
    Nothing,
    /// The sink could not be spawned.
    WillRetry,
    /// A chunk could not be written.
    WriteFailed,
    /// The sink has been idle long enough. A detail, for verbose runs only.
    IdleClosing,
    /// The sink did not end well.
    WillRespawn,
}

/// Where playback starts.
pub open spec fn first_stage(life: Lifetime) -> Stage {
    match life {
        Lifetime::OneShot => Stage::Opening,
        Lifetime::Sessions { idle_ms: _ } => Stage::Empty,
    }
}

/// What playback asks for at a stage; `held` if somebody holds the sink now.
pub open spec fn wanted(life: Lifetime, stage: Stage, held: bool) -> Action {
    match stage {
        Stage::Empty => Action::Receive,
        Stage::Opening => Action::Spawn,
        Stage::Writing { fresh: _ } => Action::Write,
        Stage::Open => match life {
            Lifetime::OneShot => Action::Receive,
            Lifetime::Sessions { idle_ms } => Action::ReceiveFor {
                ms: if held {
                    HOLD_POLL_MS
                } else {
                    idle_ms
                },
            },
        },
        Stage::Closing { last: _, quiet: _ } => Action::Close,
        Stage::Finished => Action::Stop,
        Stage::Failed => Action::Fail,
    }
}

/// `event` is an answer to what playback asks for at `stage`.
pub open spec fn is_answer(life: Lifetime, stage: Stage, event: Event) -> bool {
    match stage {
        Stage::Empty => event is Chunk || event is Disconnected,
        Stage::Opening => event is Spawned || event is SpawnFailed,
        Stage::Writing { fresh: _ } => event is Written || event is WriteFailed,
        Stage::Open => event is Chunk || event is Disconnected || (life is Sessions
            && event is Timeout),
        Stage::Closing { last: _, quiet: _ } => event is Closed || event is CloseFailed,
        Stage::Finished => false,
        Stage::Failed => false,
    }
}

/// The stage after an answer. A sink that breaks ends a one-shot run; sessions go on with
/// a new sink for the next chunk.
pub open spec fn next_stage(life: Lifetime, stage: Stage, event: Event) -> Stage {
    match (stage, event) {
        (Stage::Empty, Event::Chunk) => Stage::Opening,
        (Stage::Empty, Event::Disconnected) => Stage::Finished,
        (Stage::Opening, Event::Spawned) => if life is OneShot {
            Stage::Open
        } else {
            Stage::Writing { fresh: true }
        },
        (Stage::Opening, Event::SpawnFailed) => if life is OneShot {
            Stage::Failed
        } else {
            Stage::Empty
        },
        (Stage::Writing { fresh: _ }, Event::Written) => Stage::Open,
        (Stage::Writing { fresh }, Event::WriteFailed) => if life is OneShot {
            Stage::Failed
        } else {
            Stage::Closing { last: false, quiet: fresh }
        },
        (Stage::Open, Event::Chunk) => Stage::Writing { fresh: false },
        (Stage::Open, Event::Timeout { held }) => if held {
            Stage::Open
        } else {
            Stage::Closing { last: false, quiet: false }
        },
        (Stage::Open, Event::Disconnected) => Stage::Closing { last: true, quiet: false },
        (Stage::Closing { last, quiet: _ }, Event::Closed) => if last {
            Stage::Finished
        } else {
            Stage::Empty
        },
        (Stage::Closing { last, quiet: _ }, Event::CloseFailed) => if life is OneShot {
            Stage::Failed
        } else if last {
            Stage::Finished
        } else {
            Stage::Empty
        },
        _ => stage,
    }
}

/// What is reported of an answer. A one-shot run reports its error by failing.
pub open spec fn noticed(life: Lifetime, stage: Stage, event: Event) -> Notice {
    if life is OneShot {
        Notice::Nothing
    } else {
        match (stage, event) {
            (Stage::Opening, Event::SpawnFailed) => Notice::WillRetry,
            (Stage::Writing { fresh: _ }, Event::WriteFailed) => Notice::WriteFailed,
            (Stage::Open, Event::Timeout { held: false }) => Notice::IdleClosing,
            (Stage::Closing { last: _, quiet: false }, Event::CloseFailed) => Notice::WillRespawn,
            _ => Notice::Nothing,
        }
    }
}

/// A sink process is running, draining included.
pub open spec fn is_live(stage: Stage) -> bool {
    stage is Writing || stage is Open || stage is Closing
}

pub fn start(life: Lifetime) -> (r: Stage)
    ensures
        r == first_stage(life),
{
    match life {
        Lifetime::OneShot => Stage::Opening,
        Lifetime::Sessions { idle_ms: _ } => Stage::Empty,
    }
}

/// What to do next.
pub fn action(life: Lifetime, stage: Stage, held: bool) -> (r: Action)
    ensures
        r == wanted(life, stage, held),
{
    match stage {
        Stage::Empty => Action::Receive,
        Stage::Opening => Action::Spawn,
        Stage::Writing { fresh: _ } => Action::Write,
        Stage::Open => match life {
            Lifetime::OneShot => Action::Receive,
            Lifetime::Sessions { idle_ms } => Action::ReceiveFor {
                ms: if held {
                    HOLD_POLL_MS
                } else {
                    idle_ms
                },
            },
        },
        Stage::Closing { last: _, quiet: _ } => Action::Close,
        Stage::Finished => Action::Stop,
        Stage::Failed => Action::Fail,
    }
}

/// Whether the sink is running at a stage.
pub fn sink_is_live(stage: Stage) -> (r: bool)
    ensures
        r == is_live(stage),
{
    match stage {
        Stage::Writing { fresh: _ } => true,
        Stage::Open => true,
        Stage::Closing { last: _, quiet: _ } => true,
        _ => false,
    }
}

/// What an answer leads to, and what is reported of it.
pub fn step(life: Lifetime, stage: Stage, event: Event) -> (r: (Stage, Notice))
    requires
        is_answer(life, stage, event),
    ensures
        r.0 == next_stage(life, stage, event),
        r.1 == noticed(life, stage, event),
{
    let one_shot: bool = match life {
        Lifetime::OneShot => true,
        Lifetime::Sessions { idle_ms: _ } => false,
    };
    match (stage, event) {
        (Stage::Empty, Event::Chunk) => (Stage::Opening, Notice::Nothing),
        (Stage::Empty, Event::Disconnected) => (Stage::Finished, Notice::Nothing),
        (Stage::Opening, Event::Spawned) => if one_shot {
            (Stage::Open, Notice::Nothing)
        } else {
            (Stage::Writing { fresh: true }, Notice::Nothing)
        },
        (Stage::Opening, Event::SpawnFailed) => if one_shot {
            (Stage::Failed, Notice::Nothing)
        } else {
            (Stage::Empty, Notice::WillRetry)
        },
        (Stage::Writing { fresh: _ }, Event::Written) => (Stage::Open, Notice::Nothing),
        (Stage::Writing { fresh }, Event::WriteFailed) => if one_shot {
            (Stage::Failed, Notice::Nothing)
        } else {
            (Stage::Closing { last: false, quiet: fresh }, Notice::WriteFailed)
        },
        (Stage::Open, Event::Chunk) => (Stage::Writing { fresh: false }, Notice::Nothing),
        (Stage::Open, Event::Timeout { held }) => if held {
            (Stage::Open, Notice::Nothing)
        } else {
            (Stage::Closing { last: false, quiet: false }, Notice::IdleClosing)
        },
        (Stage::Open, Event::Disconnected) => (
            Stage::Closing { last: true, quiet: false },
            Notice::Nothing,
        ),
        (Stage::Closing { last, quiet: _ }, Event::Closed) => if last {
            (Stage::Finished, Notice::Nothing)
        } else {
            (Stage::Empty, Notice::Nothing)
        },
        (Stage::Closing { last, quiet }, Event::CloseFailed) => if one_shot {
            (Stage::Failed, Notice::Nothing)
        } else {
            (
                if last {
                    Stage::Finished
                } else {
                    Stage::Empty
                },
                if quiet {
                    Notice::Nothing
                } else {
                    Notice::WillRespawn
                },
            )
        },
        _ => (stage, Notice::Nothing),
    }
}

/// The line that is printed of a notice.
pub open spec fn notice_text(notice: Notice, error: Seq<char>) -> Option<Seq<char>> {
    match notice {
        Notice::Nothing => None,
        Notice::WillRetry => Some("[kokoro] "@ + error + "; will retry on next chunk"@),
        Notice::WriteFailed => Some(
            "[kokoro] audio sink write failed: "@ + error + "; will respawn on next chunk"@,
        ),
        Notice::IdleClosing => Some("[kokoro] audio sink idle; closing"@),
        Notice::WillRespawn => Some("[kokoro] "@ + error + "; will respawn on next chunk"@),
    }
}

/// The line to print, if any; `error` is how the last action failed.
pub fn notice_line(notice: Notice, error: &str) -> (r: Option<String>)
    ensures
        match r {
            Some(line) => notice_text(notice, error@) == Some(line@),
            None => notice_text(notice, error@) is None,
        },
{
    match notice {
        Notice::Nothing => None,
        Notice::WillRetry => Some(
            text::concat3("[kokoro] ", error, "; will retry on next chunk"),
        ),
        Notice::WriteFailed => Some(
            text::concat3(
                "[kokoro] audio sink write failed: ",
                error,
                "; will respawn on next chunk",
            ),
        ),
        Notice::IdleClosing => Some("[kokoro] audio sink idle; closing".to_string()),
        Notice::WillRespawn => Some(
            text::concat3("[kokoro] ", error, "; will respawn on next chunk"),
        ),
    }
}

} // verus!

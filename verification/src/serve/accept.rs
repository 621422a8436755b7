//! The daemon's accept loop: when it serves, sleeps and shuts down.

use crate::number;
use crate::text;
use vstd::prelude::*;

verus! {

/// How long the daemon sleeps between two looks at its socket, in milliseconds.
pub const ACCEPT_POLL_MS: u64 = 250;

/// What a look at the socket showed. Times are nanoseconds of a clock that never goes back.
#[derive(Clone, Copy, PartialEq, Eq, Structural, Debug)]
pub enum AcceptEvent {
    /// A client connected.
    Connected,
    /// Nobody did; so many jobs are pending, and the sink is live or not.
    Quiet { pending: usize, sink_live: bool, now: u128 },
    /// The look itself failed.
    Failed,
}

/// What the daemon does next.
#[derive(Clone, Copy, PartialEq, Eq, Structural, Debug)]
pub enum AcceptAction {
    /// Serve the client, then look again.
    Serve,
    /// Sleep for so many milliseconds, then look again.
    Sleep { ms: u64 },
    /// Report the failure, then look again.
    Report,
    /// Leave the loop.
    ShutDown,
}

/// Nothing is being spoken, and nothing is going to be.
pub open spec fn is_idle(event: AcceptEvent) -> bool {
    match event {
        AcceptEvent::Quiet { pending, sink_live, now } => pending == 0 && !sink_live,
        _ => false,
    }
}

/// Since when the daemon has been idle, after one more look at its socket. A failed look
/// tells nothing.
pub open spec fn idle_since_after(idle_since: Option<u128>, event: AcceptEvent) -> Option<u128> {
    match event {
        AcceptEvent::Connected => None,
        AcceptEvent::Quiet { pending, sink_live, now } => if is_idle(event) {
            match idle_since {
                Some(since) => Some(since),
                None => Some(now),
            }
        } else {
            None
        },
        AcceptEvent::Failed => idle_since,
    }
}

/// The daemon has been idle for `timeout_secs` seconds.
pub open spec fn is_overdue(since: u128, now: u128, timeout_secs: u64) -> bool {
    let elapsed = if now >= since {
        now - since
    } else {
        0
    };
    elapsed >= timeout_secs * 1_000_000_000
}

/// What the daemon does after a look at its socket. Without a timeout it runs until it is
/// killed.
pub open spec fn reaction(
    idle_since: Option<u128>,
    event: AcceptEvent,
    timeout_secs: Option<u64>,
) -> AcceptAction {
    match event {
        AcceptEvent::Connected => AcceptAction::Serve,
        AcceptEvent::Quiet { pending, sink_live, now } => if is_idle(event) && timeout_secs is Some
            && is_overdue(idle_since_after(idle_since, event)->0, now, timeout_secs->0) {
            AcceptAction::ShutDown
        } else {
            AcceptAction::Sleep { ms: ACCEPT_POLL_MS }
        },
        AcceptEvent::Failed => AcceptAction::Report,
    }
}

/// One turn of the accept loop: keeps track of since when the daemon has been idle.
pub fn accept_step(
    idle_since: &mut Option<u128>,
    event: AcceptEvent,
    timeout_secs: Option<u64>,
) -> (r: AcceptAction)
    ensures
        *final(idle_since) == idle_since_after(*old(idle_since), event),
        r == reaction(*old(idle_since), event, timeout_secs),
{
    match event {
        AcceptEvent::Connected => {
            *idle_since = None;
            AcceptAction::Serve
        },
        AcceptEvent::Quiet { pending, sink_live, now } => {
            if pending != 0 || sink_live {
                *idle_since = None;
                return AcceptAction::Sleep { ms: ACCEPT_POLL_MS };
            }
            let since: u128 = match *idle_since {
                Some(since) => since,
                None => now,
            };
            *idle_since = Some(since);
            let elapsed: u128 = if now >= since {
                now - since
            } else {
                0
            };
            let overdue: bool = match timeout_secs {
                Some(secs) => elapsed >= secs as u128 * 1_000_000_000,
                None => false,
            };
            if overdue {
                AcceptAction::ShutDown
            } else {
                AcceptAction::Sleep { ms: ACCEPT_POLL_MS }
            }
        },
        AcceptEvent::Failed => AcceptAction::Report,
    }
}

/// The line that is printed when the daemon shuts down.
pub fn shutdown_line(timeout_secs: u64) -> (r: String)
    ensures
        r@ == "[ryk-serve] idle for "@ + number::decimal(timeout_secs as nat)
            + "s; shutting down"@,
{
    let mut out: Vec<char> = text::chars_of("[ryk-serve] idle for ");
    let secs: Vec<char> = number::to_decimal(timeout_secs);
    text::append_chars(&mut out, secs.as_slice());
    text::append_str(&mut out, "s; shutting down");
    text::string_of(out.as_slice())
}

} // verus!

//! What the accept loop promises over any run of events.

use crate::serve::accept::{AcceptAction, AcceptEvent};
use crate::serve::accept;
use vstd::prelude::*;

verus! {

/// Since when the daemon has been idle after the given events.
pub open spec fn idle_since(events: Seq<AcceptEvent>) -> Option<u128>
    decreases events.len(),
{
    if events.len() == 0 {
        None
    } else {
        accept::idle_since_after(idle_since(events.drop_last()), events.last())
    }
}

/// From event `k` on nothing happened but idle looks and failed ones, and `k` is an idle one.
pub open spec fn is_idle_from(events: Seq<AcceptEvent>, k: int) -> bool {
    &&& 0 <= k < events.len()
    &&& accept::is_idle(events[k])
    &&& forall|i: int|
        k <= i < events.len() ==> accept::is_idle(#[trigger] events[i]) || events[i] is Failed
}

proof fn lemma_idle_since(events: Seq<AcceptEvent>)
    ensures
        idle_since(events) is Some ==> exists|k: int| #[trigger]
            is_idle_from(events, k) && events[k]->now == idle_since(events)->0,
    decreases events.len(),
{
    if events.len() > 0 && idle_since(events) is Some {
        let front = events.drop_last();
        let last = events.len() - 1;
        lemma_idle_since(front);
        if idle_since(front) is Some {
            let k = choose|k: int| #[trigger]
                is_idle_from(front, k) && front[k]->now == idle_since(front)->0;
            assert(events[k] == front[k]);
            assert forall|i: int| k <= i < events.len() implies accept::is_idle(
                #[trigger] events[i],
            ) || events[i] is Failed by {
                if i < last {
                    assert(events[i] == front[i]);
                }
            }
            assert(is_idle_from(events, k));
        } else {
            assert(is_idle_from(events, last));
        }
    }
}

/// The daemon never shuts down while a job is pending or the sink is live, nor before it has
/// been idle for the whole timeout without a break: some earlier look, at least that long
/// ago, already found it idle, and no client came and nothing was spoken since.
pub proof fn law_shuts_down_only_when_idle(events: Seq<AcceptEvent>, timeout_secs: u64)
    requires
        events.len() > 0,
        accept::reaction(idle_since(events.drop_last()), events.last(), Some(timeout_secs))
            == AcceptAction::ShutDown,
    ensures
        accept::is_idle(events.last()),
        exists|k: int| #[trigger]
            is_idle_from(events, k) && events.last()->now >= events[k]->now + timeout_secs
                * 1_000_000_000,
{
    lemma_idle_since(events);
    let k = choose|k: int| #[trigger]
        is_idle_from(events, k) && events[k]->now == idle_since(events)->0;
    assert(is_idle_from(events, k));
    assert(is_idle_from(events, events.len() - 1));
}

/// A daemon that stays idle does shut down: as soon as a look finds it idle for the whole
/// timeout.
pub proof fn law_an_idle_daemon_shuts_down(since: u128, now: u128, timeout_secs: u64)
    requires
        now >= since + timeout_secs * 1_000_000_000,
    ensures
        accept::reaction(
            Some(since),
            AcceptEvent::Quiet { pending: 0, sink_live: false, now },
            Some(timeout_secs),
        ) == AcceptAction::ShutDown,
{
}

/// Without a timeout the daemon never shuts down by itself.
pub proof fn law_no_timeout_means_no_shutdown(since: Option<u128>, event: AcceptEvent)
    ensures
        accept::reaction(since, event, None) != AcceptAction::ShutDown,
{
}

/// Every client is served, and starts the idle clock anew.
pub proof fn law_every_client_is_served(since: Option<u128>, timeout_secs: Option<u64>)
    ensures
        accept::reaction(since, AcceptEvent::Connected, timeout_secs) == AcceptAction::Serve,
        accept::idle_since_after(since, AcceptEvent::Connected) is None,
{
}

/// Whatever a look shows, the daemon looks again: a quarter of a second later if nobody
/// connected, unless it has been idle for too long, and at once if the look failed.
pub proof fn law_the_daemon_looks_again(
    since: Option<u128>,
    pending: usize,
    sink_live: bool,
    now: u128,
    timeout_secs: Option<u64>,
)
    ensures
        ({
            let event = AcceptEvent::Quiet { pending, sink_live, now };
            let action = accept::reaction(since, event, timeout_secs);
            &&& action == (AcceptAction::Sleep { ms: 250 }) || action == AcceptAction::ShutDown
            &&& pending > 0 || sink_live ==> action == (AcceptAction::Sleep { ms: 250 })
            &&& pending > 0 || sink_live ==> accept::idle_since_after(since, event) is None
            &&& pending == 0 && !sink_live && since is None ==> accept::idle_since_after(
                since,
                event,
            ) == Some(now)
            &&& pending == 0 && !sink_live && since is Some ==> accept::idle_since_after(
                since,
                event,
            ) == since
            &&& since is Some && timeout_secs is Some && now < since->0 + timeout_secs->0
                * 1_000_000_000 && timeout_secs->0 > 0 ==> action == (AcceptAction::Sleep {
                ms: 250,
            })
        }),
        accept::reaction(since, AcceptEvent::Failed, timeout_secs) == AcceptAction::Report,
        accept::idle_since_after(since, AcceptEvent::Failed) == since,
{
}

} // verus!

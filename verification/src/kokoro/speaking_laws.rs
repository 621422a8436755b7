//! What speaking an input promises over any run of events.

use crate::kokoro::speaking::{SpeakAction, SpeakEvent, Speaking};
use vstd::prelude::*;

verus! {

/// How an input of `total` sentences stands after the given events.
pub open spec fn state_after(total: usize, events: Seq<SpeakEvent>) -> Speaking
    decreases events.len(),
{
    if events.len() == 0 {
        Speaking::fresh(total)
    } else {
        state_after(total, events.drop_last()).after(events.last())
    }
}

/// Every event says how what was to be done went.
pub open spec fn is_run(total: usize, events: Seq<SpeakEvent>) -> bool
    decreases events.len(),
{
    events.len() > 0 ==> {
        &&& is_run(total, events.drop_last())
        &&& state_after(total, events.drop_last()).is_answer(events.last())
    }
}

/// How often an event occurs.
pub open spec fn count(events: Seq<SpeakEvent>, e: SpeakEvent) -> nat
    decreases events.len(),
{
    if events.len() == 0 {
        0
    } else if events.last() == e {
        count(events.drop_last(), e) + 1
    } else {
        count(events.drop_last(), e)
    }
}

/// At every moment, the sentences that had their turn are those that were queued and those
/// that were skipped; at most one more is in the works.
pub proof fn law_every_sentence_gets_its_turn(total: usize, events: Seq<SpeakEvent>)
    requires
        is_run(total, events),
    ensures
        ({
            let s = state_after(total, events);
            &&& s.wf()
            &&& s.total == total
            &&& s.current == count(events, SpeakEvent::Pushed) + count(
                events,
                SpeakEvent::Unspeakable,
            ) + count(events, SpeakEvent::EspeakFailed)
            &&& s.spoken == count(events, SpeakEvent::Pushed)
            &&& s.failed == count(events, SpeakEvent::EspeakFailed)
            &&& !(s.stage is Aborted) ==> count(events, SpeakEvent::Ready) == s.spoken + (if
            s.stage is Synthesizing || s.stage is Pushing {
                1nat
            } else {
                0nat
            })
            &&& s.stage is Aborted <==> count(events, SpeakEvent::Broken) > 0
        }),
    decreases events.len(),
{
    if events.len() > 0 {
        law_every_sentence_gets_its_turn(total, events.drop_last());
    }
}

/// Sentences that can't be spoken cost the others nothing: unless something broke, an input
/// is finished only when every sentence that was ready has been queued and every other one
/// skipped, and it counts as silent exactly when none was ready.
pub proof fn law_skipped_sentences_cost_nothing(total: usize, events: Seq<SpeakEvent>)
    requires
        is_run(total, events),
        state_after(total, events).stage is Finished,
    ensures
        count(events, SpeakEvent::Broken) == 0,
        count(events, SpeakEvent::Pushed) == count(events, SpeakEvent::Ready),
        total == count(events, SpeakEvent::Ready) + count(events, SpeakEvent::Unspeakable) + count(
            events,
            SpeakEvent::EspeakFailed,
        ),
        state_after(total, events).spoken == 0 <==> count(events, SpeakEvent::Ready) == 0,
{
    law_every_sentence_gets_its_turn(total, events);
}

/// Neither an unspeakable sentence nor a failure of espeak-ng ends the run.
pub proof fn law_a_skip_is_not_fatal(s: Speaking, event: SpeakEvent)
    requires
        s.wf(),
        s.stage is Preparing,
        event is Unspeakable || event is EspeakFailed,
    ensures
        !(s.after(event).stage is Aborted),
        s.after(event).current == s.current + 1,
        s.after(event).spoken == s.spoken,
{
}

/// What is to be done next: the current sentence is prepared, then synthesized, then queued. An
/// input without sentences is finished before it starts.
pub proof fn law_sentences_go_through_their_steps(s: Speaking, total: usize)
    ensures
        s.stage is Preparing ==> s.wanted() == (SpeakAction::Prepare { index: s.current }),
        s.stage is Synthesizing ==> s.wanted() == SpeakAction::Synthesize,
        s.stage is Pushing ==> s.wanted() == SpeakAction::Push,
        s.stage is Finished ==> s.wanted() == SpeakAction::Finish,
        s.stage is Aborted ==> s.wanted() == SpeakAction::Abort,
        Speaking::fresh(total).current == 0,
        Speaking::fresh(total).total == total,
        Speaking::fresh(total).spoken == 0 && Speaking::fresh(total).failed == 0,
        total == 0 ==> Speaking::fresh(total).stage is Finished,
        total > 0 ==> Speaking::fresh(total).stage is Preparing,
{
}

/// Sentences are spoken one after the other, from the first to the last: a sentence that is ready
/// is synthesized and queued, and then, or if it is skipped, the next one has its turn.
pub proof fn law_sentences_are_spoken_in_order(s: Speaking, skip: SpeakEvent)
    requires
        s.wf(),
        s.stage is Preparing,
        skip is Unspeakable || skip is EspeakFailed,
    ensures
        ({
            let queued = s.after(SpeakEvent::Ready).after(SpeakEvent::Synthesized).after(
                SpeakEvent::Pushed,
            );
            &&& s.after(SpeakEvent::Ready).wanted() == SpeakAction::Synthesize
            &&& s.after(SpeakEvent::Ready).after(SpeakEvent::Synthesized).wanted()
                == SpeakAction::Push
            &&& queued.spoken == s.spoken + 1 && queued.failed == s.failed
            &&& s.current + 1 < s.total ==> queued.wanted() == (SpeakAction::Prepare {
                index: (s.current + 1) as usize,
            })
            &&& s.current + 1 == s.total ==> queued.wanted() == SpeakAction::Finish
            &&& s.current + 1 < s.total ==> s.after(skip).wanted() == (SpeakAction::Prepare {
                index: (s.current + 1) as usize,
            })
            &&& s.current + 1 == s.total ==> s.after(skip).wanted() == SpeakAction::Finish
            &&& skip is EspeakFailed ==> s.after(skip).failed == s.failed + 1
            &&& skip is Unspeakable ==> s.after(skip).failed == s.failed
        }),
{
}

/// Whatever can come of a step is provided for, and a step that breaks ends the run with its
/// error.
pub proof fn law_every_outcome_is_provided_for(s: Speaking)
    ensures
        s.stage is Preparing ==> s.is_answer(SpeakEvent::Ready) && s.is_answer(
            SpeakEvent::Unspeakable,
        ) && s.is_answer(SpeakEvent::EspeakFailed),
        s.stage is Synthesizing ==> s.is_answer(SpeakEvent::Synthesized),
        s.stage is Pushing ==> s.is_answer(SpeakEvent::Pushed),
        s.stage is Preparing || s.stage is Synthesizing || s.stage is Pushing ==> s.is_answer(
            SpeakEvent::Broken,
        ) && s.after(SpeakEvent::Broken).wanted() == SpeakAction::Abort,
{
}

} // verus!

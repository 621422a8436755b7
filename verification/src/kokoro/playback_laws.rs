//! What playback promises over any run of events.

use crate::kokoro::playback::{Action, Event, Lifetime, Notice, Stage};
use crate::kokoro::playback;
use vstd::prelude::*;

verus! {

/// The stage after the given events.
pub open spec fn stage_after(life: Lifetime, events: Seq<Event>) -> Stage
    decreases events.len(),
{
    if events.len() == 0 {
        playback::first_stage(life)
    } else {
        playback::next_stage(life, stage_after(life, events.drop_last()), events.last())
    }
}

/// Every event answers what was asked for when it came.
pub open spec fn is_run(life: Lifetime, events: Seq<Event>) -> bool
    decreases events.len(),
{
    events.len() > 0 ==> {
        &&& is_run(life, events.drop_last())
        &&& playback::is_answer(life, stage_after(life, events.drop_last()), events.last())
    }
}

/// How often an event occurs.
pub open spec fn count(events: Seq<Event>, e: Event) -> nat
    decreases events.len(),
{
    if events.len() == 0 {
        0
    } else if events.last() == e {
        count(events.drop_last(), e) + 1
    } else {
        count(events.drop_last(), e)
    }
}

/// A sink that somebody holds is never closed for being idle, however long the next
/// sentence takes: it is looked at again after the polling interval.
pub proof fn law_a_held_sink_stays_open(idle_ms: u64)
    ensures
        ({
            let life = Lifetime::Sessions { idle_ms };
            &&& playback::next_stage(life, Stage::Open, Event::Timeout { held: true })
                == Stage::Open
            &&& playback::wanted(life, Stage::Open, true) == Action::ReceiveFor { ms: 200 }
            &&& playback::wanted(life, Stage::Open, false) == Action::ReceiveFor { ms: idle_ms }
        }),
{
}

/// A sink is closed only if it broke, the queue has ended, or nothing came for the whole
/// grace period while nobody held it.
pub proof fn law_a_sink_closes_only_when_due(life: Lifetime, stage: Stage, event: Event)
    requires
        playback::is_answer(life, stage, event),
        playback::next_stage(life, stage, event) is Closing,
    ensures
        ({
            ||| stage is Open && event == (Event::Timeout { held: false })
            ||| stage is Open && event is Disconnected
            ||| stage is Writing && event is WriteFailed
        }),
{
}

/// Chunks that come while the sink is open share it, and a chunk that comes when there is
/// none gets a new one.
pub proof fn law_chunks_share_the_sink(life: Lifetime)
    ensures
        playback::next_stage(life, Stage::Open, Event::Chunk) == (Stage::Writing { fresh: false }),
        playback::next_stage(life, Stage::Writing { fresh: false }, Event::Written) == Stage::Open,
        life is Sessions ==> playback::next_stage(life, Stage::Empty, Event::Chunk)
            == Stage::Opening,
        life is Sessions ==> playback::next_stage(life, Stage::Opening, Event::Spawned) == (
        Stage::Writing { fresh: true }),
{
}

/// Sessions outlive every error of a sink.
pub proof fn law_sessions_never_fail(life: Lifetime, events: Seq<Event>)
    requires
        life is Sessions,
        is_run(life, events),
    ensures
        !(stage_after(life, events) is Failed),
    decreases events.len(),
{
    if events.len() > 0 {
        law_sessions_never_fail(life, events.drop_last());
    }
}

/// No sink process is left behind: unless a one-shot run failed, every sink that was
/// spawned has been closed, but for the one that is running.
pub proof fn law_no_sink_is_left_behind(life: Lifetime, events: Seq<Event>)
    requires
        is_run(life, events),
    ensures
        !(stage_after(life, events) is Failed) ==> count(events, Event::Spawned) == count(
            events,
            Event::Closed,
        ) + count(events, Event::CloseFailed) + if playback::is_live(stage_after(life, events)) {
            1nat
        } else {
            0nat
        },
    decreases events.len(),
{
    if events.len() > 0 {
        law_no_sink_is_left_behind(life, events.drop_last());
    }
}

/// A chunk has been received and neither written nor given up.
pub open spec fn has_chunk_in_hand(life: Lifetime, stage: Stage) -> bool {
    stage is Writing || (stage is Opening && life is Sessions)
}

/// No chunk is lost in silence: every one that was received has been written, or its sink
/// could not be spawned or written to, or it is the one in hand.
pub proof fn law_every_chunk_is_accounted_for(life: Lifetime, events: Seq<Event>)
    requires
        is_run(life, events),
        !(stage_after(life, events) is Failed),
    ensures
        count(events, Event::Chunk) == count(events, Event::Written) + count(
            events,
            Event::WriteFailed,
        ) + count(events, Event::SpawnFailed) + if has_chunk_in_hand(
            life,
            stage_after(life, events),
        ) {
            1nat
        } else {
            0nat
        },
    decreases events.len(),
{
    if events.len() > 0 {
        let front = events.drop_last();
        assert(!(stage_after(life, front) is Failed));
        law_every_chunk_is_accounted_for(life, front);
        if life is OneShot {
            law_one_shot_has_one_sink(front);
        }
    }
}

/// A one-shot run has one sink: it is spawned once, and closed only after the queue ended.
pub proof fn law_one_shot_has_one_sink(events: Seq<Event>)
    requires
        is_run(Lifetime::OneShot, events),
    ensures
        count(events, Event::Spawned) <= 1,
        stage_after(Lifetime::OneShot, events) is Opening ==> count(events, Event::Spawned) == 0,
        !(stage_after(Lifetime::OneShot, events) is Empty),
        stage_after(Lifetime::OneShot, events) is Closing ==> count(events, Event::Disconnected)
            == 1,
        stage_after(Lifetime::OneShot, events) is Closing ==> stage_after(
            Lifetime::OneShot,
            events,
        )->last,
        count(events, Event::Disconnected) > 0 ==> !(stage_after(
            Lifetime::OneShot,
            events,
        ) is Open) && !(stage_after(Lifetime::OneShot, events) is Writing) && !(stage_after(
            Lifetime::OneShot,
            events,
        ) is Opening),
    decreases events.len(),
{
    if events.len() > 0 {
        law_one_shot_has_one_sink(events.drop_last());
    }
}

/// What is asked for is what the stage is about: a chunk that came is written, a sink that is
/// missing is spawned, and one that is done with is closed.
pub proof fn law_stages_ask_for_their_step(life: Lifetime, held: bool, fresh: bool, last: bool)
    ensures
        playback::wanted(life, Stage::Empty, held) == Action::Receive,
        playback::wanted(life, Stage::Opening, held) == Action::Spawn,
        playback::wanted(life, Stage::Writing { fresh }, held) == Action::Write,
        playback::wanted(Lifetime::OneShot, Stage::Open, held) == Action::Receive,
        playback::wanted(life, Stage::Closing { last, quiet: fresh }, held) == Action::Close,
        playback::wanted(life, Stage::Finished, held) == Action::Stop,
        playback::wanted(life, Stage::Failed, held) == Action::Fail,
{
}

/// A one-shot run spawns its sink first; sessions wait for something to play.
pub proof fn law_sessions_wait_for_a_chunk(idle_ms: u64, held: bool)
    ensures
        playback::wanted(Lifetime::OneShot, playback::first_stage(Lifetime::OneShot), held)
            == Action::Spawn,
        playback::wanted(
            Lifetime::Sessions { idle_ms },
            playback::first_stage(Lifetime::Sessions { idle_ms }),
            held,
        ) == Action::Receive,
{
}

/// The end of the queue ends playback: at once where no sink is running, and else after the sink
/// has been closed.
pub proof fn law_the_end_of_the_queue_ends_playback(life: Lifetime, quiet: bool)
    ensures
        playback::next_stage(life, Stage::Empty, Event::Disconnected) == Stage::Finished,
        playback::next_stage(life, Stage::Open, Event::Disconnected) is Closing,
        playback::next_stage(
            life,
            playback::next_stage(life, Stage::Open, Event::Disconnected),
            Event::Closed,
        ) == Stage::Finished,
        life is Sessions ==> playback::next_stage(
            life,
            playback::next_stage(life, Stage::Open, Event::Disconnected),
            Event::CloseFailed,
        ) == Stage::Finished,
        life is Sessions ==> playback::next_stage(
            life,
            playback::next_stage(life, Stage::Open, Event::Timeout { held: false }),
            Event::Closed,
        ) == Stage::Empty,
        life is Sessions ==> playback::next_stage(
            life,
            playback::next_stage(life, Stage::Writing { fresh: quiet }, Event::WriteFailed),
            Event::Closed,
        ) == Stage::Empty,
{
}

/// A one-shot run fails with its sink, whatever broke.
pub proof fn law_one_shot_fails_with_its_sink(fresh: bool, last: bool, quiet: bool)
    ensures
        playback::next_stage(Lifetime::OneShot, Stage::Opening, Event::SpawnFailed)
            == Stage::Failed,
        playback::next_stage(Lifetime::OneShot, Stage::Writing { fresh }, Event::WriteFailed)
            == Stage::Failed,
        playback::next_stage(
            Lifetime::OneShot,
            Stage::Closing { last, quiet },
            Event::CloseFailed,
        ) == Stage::Failed,
{
}

/// Sessions report every error of a sink, once: that it could not be spawned, that a chunk could
/// not be written, or that it did not end well, unless that follows from a write that failed on
/// a fresh sink. Nothing else is reported but that an idle sink is closed, and nothing at all of
/// a one-shot run, which fails instead.
pub proof fn law_errors_are_reported_once(life: Lifetime, stage: Stage, event: Event)
    requires
        playback::is_answer(life, stage, event),
    ensures
        life is OneShot ==> playback::noticed(life, stage, event) == Notice::Nothing,
        life is Sessions && event is SpawnFailed ==> playback::noticed(life, stage, event)
            == Notice::WillRetry,
        life is Sessions && event is WriteFailed ==> playback::noticed(life, stage, event)
            == Notice::WriteFailed,
        life is Sessions && event is CloseFailed && !stage->quiet ==> playback::noticed(
            life,
            stage,
            event,
        ) == Notice::WillRespawn,
        event is CloseFailed && stage->quiet ==> playback::noticed(life, stage, event)
            == Notice::Nothing,
        life is Sessions && event == (Event::Timeout { held: false }) ==> playback::noticed(
            life,
            stage,
            event,
        ) == Notice::IdleClosing,
        !(event is SpawnFailed) && !(event is WriteFailed) && !(event is CloseFailed) && event != (
        Event::Timeout { held: false }) ==> playback::noticed(life, stage, event)
            == Notice::Nothing,
        life is Sessions && event is WriteFailed && stage->fresh ==> playback::next_stage(
            life,
            stage,
            event,
        )->quiet,
        life is Sessions && event is WriteFailed && !stage->fresh ==> !playback::next_stage(
            life,
            stage,
            event,
        )->quiet,
        event is Disconnected && stage is Open ==> !playback::next_stage(life, stage, event)->quiet,
        event is Timeout && playback::next_stage(life, stage, event) is Closing
            ==> !playback::next_stage(life, stage, event)->quiet,
{
}

/// What is reported of an error quotes the error, behind the name of the program; of an idle
/// sink there is no error to quote, and of nothing there is nothing to say.
pub proof fn law_notices_quote_the_error(notice: Notice, error: Seq<char>)
    ensures
        (playback::notice_text(notice, error) is None) == (notice == Notice::Nothing),
        notice == Notice::WillRetry ==> playback::notice_text(notice, error) == Some(
            "[kokoro] "@ + error + "; will retry on next chunk"@,
        ),
        notice == Notice::WillRespawn ==> playback::notice_text(notice, error) == Some(
            "[kokoro] "@ + error + "; will respawn on next chunk"@,
        ),
        notice == Notice::WriteFailed ==> playback::notice_text(notice, error) == Some(
            "[kokoro] audio sink write failed: "@ + error + "; will respawn on next chunk"@,
        ),
        notice == Notice::IdleClosing ==> playback::notice_text(notice, error) == Some(
            "[kokoro] audio sink idle; closing"@,
        ),
{
}

/// Whatever can come of what is asked for is provided for.
pub proof fn law_every_outcome_is_provided_for(
    life: Lifetime,
    fresh: bool,
    last: bool,
    quiet: bool,
    held: bool,
)
    ensures
        playback::is_answer(life, Stage::Empty, Event::Chunk),
        playback::is_answer(life, Stage::Empty, Event::Disconnected),
        playback::is_answer(life, Stage::Opening, Event::Spawned),
        playback::is_answer(life, Stage::Opening, Event::SpawnFailed),
        playback::is_answer(life, Stage::Writing { fresh }, Event::Written),
        playback::is_answer(life, Stage::Writing { fresh }, Event::WriteFailed),
        playback::is_answer(life, Stage::Open, Event::Chunk),
        playback::is_answer(life, Stage::Open, Event::Disconnected),
        life is Sessions ==> playback::is_answer(life, Stage::Open, Event::Timeout { held }),
        playback::is_answer(life, Stage::Closing { last, quiet }, Event::Closed),
        playback::is_answer(life, Stage::Closing { last, quiet }, Event::CloseFailed),
{
}

/// A sink is live from when it was spawned until it has been closed.
pub proof fn law_sinks_are_live_until_closed(fresh: bool, last: bool, quiet: bool)
    ensures
        playback::is_live(Stage::Writing { fresh }),
        playback::is_live(Stage::Open),
        playback::is_live(Stage::Closing { last, quiet }),
        !playback::is_live(Stage::Empty),
        !playback::is_live(Stage::Opening),
        !playback::is_live(Stage::Finished),
        !playback::is_live(Stage::Failed),
{
}

} // verus!

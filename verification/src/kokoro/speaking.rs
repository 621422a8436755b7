//! Speaking one input, sentence by sentence.
//!
//! The caller prepares, synthesizes and queues; what it does next is decided here. A chunk
//! with nothing to say is skipped so that the rest of the input still plays.

use crate::kokoro::speech;
use vstd::prelude::*;

verus! {

/// What is being done with the current sentence.
#[derive(Clone, Copy, PartialEq, Eq, Structural, Debug)]
pub enum SpeakStage {
    Preparing,
    Synthesizing,
    Pushing,
    /// Every sentence has had its turn.
    Finished,
    /// Something broke that is not about the text.
    Aborted,
}

/// How far an input has been spoken.
#[derive(Clone, Copy, PartialEq, Eq, Structural, Debug)]
pub struct Speaking {
    /// How many sentences there are.
    pub total: usize,
    /// The current sentence.
    pub current: usize,
    pub stage: SpeakStage,
    /// How many sentences were queued for playback.
    pub spoken: usize,
    /// On how many espeak-ng failed.
    pub failed: usize,
}

/// How the last action went.
#[derive(Clone, Copy, PartialEq, Eq, Structural, Debug)]
pub enum SpeakEvent {
    /// The sentence is ready to synthesize.
    Ready,
    /// Nothing in the sentence can be spoken.
    Unspeakable,
    /// espeak-ng failed on the sentence.
    EspeakFailed,
    Synthesized,
    Pushed,
    /// The action failed.
    Broken,
}

/// What to do next.
#[derive(Clone, Copy, PartialEq, Eq, Structural, Debug)]
pub enum SpeakAction {
    /// Prepare the sentence with this index.
    Prepare { index: usize },
    /// Synthesize what was prepared.
    Synthesize,
    /// Queue what was synthesized.
    Push,
    /// Return, with a warning if nothing was spoken.
    Finish,
    /// Return the error that came last.
    Abort,
}

impl Speaking {
    /// The counts are those of sentences that had their turn, and there is a current one as
    /// long as there is something to do.
    pub open spec fn wf(self) -> bool {
        &&& self.current <= self.total
        &&& self.spoken + self.failed <= self.current
        &&& self.stage is Finished ==> self.current == self.total
        &&& !(self.stage is Finished) ==> self.current < self.total
    }

    /// The turn of the next sentence.
    pub open spec fn advanced(self) -> Speaking {
        Speaking {
            current: (self.current + 1) as usize,
            stage: if self.current + 1 == self.total {
                SpeakStage::Finished
            } else {
                SpeakStage::Preparing
            },
            ..self
        }
    }

    /// What to do next.
    pub open spec fn wanted(self) -> SpeakAction {
        match self.stage {
            SpeakStage::Preparing => SpeakAction::Prepare { index: self.current },
            SpeakStage::Synthesizing => SpeakAction::Synthesize,
            SpeakStage::Pushing => SpeakAction::Push,
            SpeakStage::Finished => SpeakAction::Finish,
            SpeakStage::Aborted => SpeakAction::Abort,
        }
    }

    /// `event` says how what is to be done next can go.
    pub open spec fn is_answer(self, event: SpeakEvent) -> bool {
        match self.stage {
            SpeakStage::Preparing => event is Ready || event is Unspeakable || event is EspeakFailed
                || event is Broken,
            SpeakStage::Synthesizing => event is Synthesized || event is Broken,
            SpeakStage::Pushing => event is Pushed || event is Broken,
            SpeakStage::Finished => false,
            SpeakStage::Aborted => false,
        }
    }

    /// How things stand after an event. A sentence that can't be spoken is skipped.
    pub open spec fn after(self, event: SpeakEvent) -> Speaking {
        match event {
            SpeakEvent::Ready => Speaking { stage: SpeakStage::Synthesizing, ..self },
            SpeakEvent::Unspeakable => self.advanced(),
            SpeakEvent::EspeakFailed => Speaking {
                failed: (self.failed + 1) as usize,
                ..self.advanced()
            },
            SpeakEvent::Synthesized => Speaking { stage: SpeakStage::Pushing, ..self },
            SpeakEvent::Pushed => Speaking { spoken: (self.spoken + 1) as usize, ..self.advanced() },
            SpeakEvent::Broken => Speaking { stage: SpeakStage::Aborted, ..self },
        }
    }

    /// Nothing of `total` sentences has been spoken.
    pub open spec fn fresh(total: usize) -> Speaking {
        Speaking {
            total,
            current: 0,
            stage: if total == 0 {
                SpeakStage::Finished
            } else {
                SpeakStage::Preparing
            },
            spoken: 0,
            failed: 0,
        }
    }

    /// Starts with an input of so many sentences.
    pub fn new(total: usize) -> (r: Speaking)
        ensures
            r == Speaking::fresh(total),
            r.wf(),
    {
        Speaking {
            total,
            current: 0,
            stage: if total == 0 {
                SpeakStage::Finished
            } else {
                SpeakStage::Preparing
            },
            spoken: 0,
            failed: 0,
        }
    }

    pub fn action(&self) -> (r: SpeakAction)
        ensures
            r == self.wanted(),
    {
        match self.stage {
            SpeakStage::Preparing => SpeakAction::Prepare { index: self.current },
            SpeakStage::Synthesizing => SpeakAction::Synthesize,
            SpeakStage::Pushing => SpeakAction::Push,
            SpeakStage::Finished => SpeakAction::Finish,
            SpeakStage::Aborted => SpeakAction::Abort,
        }
    }

    fn advance(&mut self)
        requires
            old(self).current < old(self).total,
        ensures
            *final(self) == old(self).advanced(),
    {
        self.current = self.current + 1;
        self.stage = if self.current == self.total {
            SpeakStage::Finished
        } else {
            SpeakStage::Preparing
        };
    }

    /// Takes in how the last action went.
    pub fn step(&mut self, event: SpeakEvent)
        requires
            old(self).wf(),
            old(self).is_answer(event),
        ensures
            *final(self) == old(self).after(event),
            final(self).wf(),
    {
        match event {
            SpeakEvent::Ready => {
                self.stage = SpeakStage::Synthesizing;
            },
            SpeakEvent::Unspeakable => {
                self.advance();
            },
            SpeakEvent::EspeakFailed => {
                self.advance();
                self.failed = self.failed + 1;
            },
            SpeakEvent::Synthesized => {
                self.stage = SpeakStage::Pushing;
            },
            SpeakEvent::Pushed => {
                self.advance();
                self.spoken = self.spoken + 1;
            },
            SpeakEvent::Broken => {
                self.stage = SpeakStage::Aborted;
            },
        }
    }

    /// The warning for an input of which nothing was spoken. Not an error: the daemon stays
    /// warm.
    pub fn warning(&self) -> (r: Option<String>)
        ensures
            match r {
                Some(w) => self.stage is Finished && self.spoken == 0 && w@
                    == speech::silence_warning(self.failed as nat),
                None => !(self.stage is Finished) || self.spoken > 0,
            },
    {
        match self.stage {
            SpeakStage::Finished => if self.spoken == 0 {
                Some(speech::warn_nothing_spoken(self.failed))
            } else {
                None
            },
            _ => None,
        }
    }
}

} // verus!

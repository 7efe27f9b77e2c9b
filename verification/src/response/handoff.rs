//! Non-blocking handoff of finalized responses to a background queue.

use std::time::SystemTime;

use vstd::prelude::*;

use super::chunk_capture::ChunkEvent;
use super::finalization::FinalizedResponse;

verus! {

/// What is handed to the background worker.
#[derive(Debug, Clone, PartialEq, Eq)]
pub struct HandoffPayload {
    pub finalized: FinalizedResponse,
    pub chunks: Vec<ChunkEvent>,
}

/// A payload stamped with the time it was enqueued.
#[derive(Debug, Clone, PartialEq, Eq)]
pub struct HandoffMessage {
    pub payload: HandoffPayload,
    pub enqueued_at: SystemTime,
}

/// Why a queue refused a message.
#[derive(Debug, Clone, PartialEq, Eq)]
pub struct HandoffError {
    pub message: String,
}

impl HandoffError {
    pub fn new(message: &str) -> (e: Self)
        ensures
            e.message@ == message@,
    {
        Self { message: message.to_owned() }
    }
}

/// A queue that takes messages without blocking; implemented by callers.
pub trait HandoffSink {
    /// Whether the queue may give `outcome` for `message`. Unless an
    /// implementation says more, it may give any answer.
    closed spec fn may_answer(&self, message: HandoffMessage, outcome: Result<(), HandoffError>) -> bool {
        true
    }

    fn try_enqueue(&self, message: HandoffMessage) -> (r: Result<(), HandoffError>)
        ensures
            self.may_answer(message, r),
    ;
}

/// Outcome of one handoff.
#[derive(Debug, Clone, PartialEq, Eq)]
pub enum HandoffDisposition {
    Enqueued,
    Dropped { reason: String },
}

/// The disposition that a queue's answer amounts to: accepted messages are
/// enqueued, refused ones are dropped with the queue's reason.
pub fn disposition_for(outcome: Result<(), HandoffError>) -> (d: HandoffDisposition)
    ensures
        d == disposition_for_spec(outcome),
{
    match outcome {
        Ok(()) => HandoffDisposition::Enqueued,
        Err(err) => HandoffDisposition::Dropped { reason: err.message },
    }
}

/// Hands payloads to a sink and never fails the caller's path.
pub struct NonBlockingHandoffOrchestrator<S: HandoffSink> {
    sink: S,
}

impl<S: HandoffSink> NonBlockingHandoffOrchestrator<S> {
    pub closed spec fn sink_of(&self) -> S {
        self.sink
    }

    pub fn new(sink: S) -> (o: Self)
        ensures
            o.sink_of() == sink,
    {
        Self { sink }
    }

    /// Enqueues the payload stamped with `now`; the result is the disposition of
    /// whatever the sink answered (see `disposition_for`).
    pub fn handoff(&self, payload: HandoffPayload, now: SystemTime) -> (d: HandoffDisposition)
        ensures
            exists|outcome: Result<(), HandoffError>|
                #![trigger disposition_for_spec(outcome)]
                self.sink_of().may_answer(HandoffMessage { payload, enqueued_at: now }, outcome)
                    && disposition_for_spec(outcome) == d,
    {
        let message = HandoffMessage { payload, enqueued_at: now };
        let ghost sent = message;
        let outcome = self.sink.try_enqueue(message);
        let ghost answered = outcome;
        let d = disposition_for(outcome);
        proof {
            assert(self.sink_of().may_answer(sent, answered));
            assert(disposition_for_spec(answered) == d);
        }
        d
    }
}

/// Accepted messages are enqueued; refused ones are dropped with the queue's reason.
pub open spec fn disposition_for_spec(outcome: Result<(), HandoffError>) -> HandoffDisposition {
    match outcome {
        Ok(()) => HandoffDisposition::Enqueued,
        Err(e) => HandoffDisposition::Dropped { reason: e.message },
    }
}

} // verus!

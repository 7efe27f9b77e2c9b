use std::cell::RefCell;
use std::rc::Rc;
use std::time::{Duration, SystemTime};

use recall_proxy::response::{
    ChunkCapture, FinalizedResponse, FinishReason, HandoffDisposition, HandoffError,
    HandoffMessage, HandoffPayload, HandoffSink, NonBlockingHandoffOrchestrator,
};
use recall_proxy::response::handoff::disposition_for;

#[test]
fn captures_chunks_and_assembles_in_order() {
    let mut capture = ChunkCapture::new("resp-1", SystemTime::UNIX_EPOCH);
    capture
        .push_chunk(0, "Hello ", SystemTime::UNIX_EPOCH)
        .expect("first chunk should be accepted");
    capture
        .push_chunk(1, "world", SystemTime::UNIX_EPOCH)
        .expect("second chunk should be accepted");

    assert_eq!(capture.assembled_text(), "Hello world");
    assert_eq!(capture.chunks().len(), 2);

    let finalized = capture.finalize(SystemTime::UNIX_EPOCH, FinishReason::Stop);
    assert_eq!(finalized.content, "Hello world");
    assert_eq!(finalized.chunk_count, 2);
}

#[test]
fn rejects_out_of_order_chunks() {
    let mut capture = ChunkCapture::new("resp-1", SystemTime::UNIX_EPOCH);

    let err = capture
        .push_chunk(2, "skipped chunks", SystemTime::UNIX_EPOCH)
        .expect_err("chunk ordering must be contiguous");

    assert_eq!(err.expected_next, 0);
    assert_eq!(err.received, 2);
}

#[test]
fn rejected_chunk_leaves_capture_unchanged() {
    let mut capture = ChunkCapture::new("resp-4", SystemTime::UNIX_EPOCH);
    capture.push_chunk(0, "a", SystemTime::UNIX_EPOCH).expect("first chunk");
    let err = capture.push_chunk(0, "again", SystemTime::UNIX_EPOCH).expect_err("duplicate");
    assert_eq!(err.expected_next, 1);
    assert_eq!(err.received, 0);
    assert_eq!(capture.chunks().len(), 1);
    assert_eq!(capture.assembled_text(), "a");
    capture.push_chunk(1, "b", SystemTime::UNIX_EPOCH).expect("next chunk");
    assert_eq!(capture.assembled_text(), "ab");
}

#[test]
fn finalization_carries_response_metadata() {
    let mut capture = ChunkCapture::new("resp-2", SystemTime::UNIX_EPOCH);
    capture
        .push_chunk(0, "abc", SystemTime::UNIX_EPOCH)
        .expect("chunk must be accepted");

    let finalized =
        FinalizedResponse::from_capture(capture, SystemTime::UNIX_EPOCH, FinishReason::Length);

    assert_eq!(finalized.response_id, "resp-2");
    assert_eq!(finalized.content, "abc");
    assert_eq!(finalized.chunk_count, 1);
    assert_eq!(finalized.finish_reason, FinishReason::Length);
}

#[test]
fn finalization_keeps_both_instants() {
    let start = SystemTime::UNIX_EPOCH + Duration::from_secs(5);
    let end = SystemTime::UNIX_EPOCH + Duration::from_secs(9);
    let capture = ChunkCapture::new("resp-5", start);
    let finalized = capture.finalize(end, FinishReason::ToolCall);
    assert_eq!(finalized.started_at, start);
    assert_eq!(finalized.completed_at, end);
    assert_eq!(finalized.content, "");
    assert_eq!(finalized.chunk_count, 0);
}

#[derive(Clone)]
struct CapturingSink {
    accepted: Rc<RefCell<Vec<HandoffMessage>>>,
    fail_with: Option<String>,
}

impl CapturingSink {
    fn success() -> Self {
        Self {
            accepted: Rc::new(RefCell::new(Vec::new())),
            fail_with: None,
        }
    }

    fn failure(message: &str) -> Self {
        Self {
            accepted: Rc::new(RefCell::new(Vec::new())),
            fail_with: Some(message.to_owned()),
        }
    }
}

impl HandoffSink for CapturingSink {
    fn try_enqueue(&self, message: HandoffMessage) -> Result<(), HandoffError> {
        if let Some(msg) = &self.fail_with {
            return Err(HandoffError::new(msg.as_str()));
        }

        self.accepted.borrow_mut().push(message);
        Ok(())
    }
}

fn payload() -> HandoffPayload {
    let mut capture = ChunkCapture::new("resp-3", SystemTime::UNIX_EPOCH);
    capture
        .push_chunk(0, "chunk", SystemTime::UNIX_EPOCH)
        .expect("chunk must be accepted");

    let finalized =
        FinalizedResponse::from_capture(capture.clone(), SystemTime::UNIX_EPOCH, FinishReason::Stop);

    HandoffPayload {
        finalized,
        chunks: capture.chunks().to_vec(),
    }
}

#[test]
fn returns_enqueued_when_sink_accepts() {
    let sink = CapturingSink::success();
    let accepted = sink.accepted.clone();
    let orchestrator = NonBlockingHandoffOrchestrator::new(sink);

    let disposition = orchestrator.handoff(payload(), SystemTime::UNIX_EPOCH);
    assert_eq!(disposition, HandoffDisposition::Enqueued);
    assert_eq!(accepted.borrow().len(), 1);
}

#[test]
fn drops_when_sink_is_unavailable_without_panicking() {
    let sink = CapturingSink::failure("queue unavailable");
    let orchestrator = NonBlockingHandoffOrchestrator::new(sink);

    let disposition = orchestrator.handoff(payload(), SystemTime::UNIX_EPOCH);
    assert_eq!(
        disposition,
        HandoffDisposition::Dropped {
            reason: "queue unavailable".to_owned()
        }
    );
}

#[test]
fn disposition_follows_queue_answer() {
    assert_eq!(disposition_for(Ok(())), HandoffDisposition::Enqueued);
    assert_eq!(
        disposition_for(Err(HandoffError::new("full"))),
        HandoffDisposition::Dropped { reason: "full".to_owned() }
    );
}

#[test]
fn enqueued_message_carries_payload_and_instant() {
    let sink = CapturingSink::success();
    let accepted = sink.accepted.clone();
    let orchestrator = NonBlockingHandoffOrchestrator::new(sink);
    let now = SystemTime::UNIX_EPOCH + Duration::from_secs(3);
    orchestrator.handoff(payload(), now);
    let messages = accepted.borrow();
    assert_eq!(messages[0].enqueued_at, now);
    assert_eq!(messages[0].payload.finalized.content, "chunk");
}

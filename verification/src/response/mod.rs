//! Response pipeline: streamed chunk capture, transcript finalization and the
//! non-blocking handoff to background workers.

pub mod chunk_capture;
pub mod finalization;
pub mod handoff;

pub use chunk_capture::{ChunkCapture, ChunkEvent, ChunkOrderingError};
pub use finalization::{FinalizedResponse, FinishReason};
pub use handoff::{
    HandoffDisposition, HandoffError, HandoffMessage, HandoffPayload, HandoffSink,
    NonBlockingHandoffOrchestrator,
};

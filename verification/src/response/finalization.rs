//! Transcript boundary finalization.

use std::time::SystemTime;

use vstd::prelude::*;

use super::chunk_capture::{joined_deltas, ChunkCapture};

verus! {

/// Why a response stream ended.
#[derive(Debug, Clone, Copy, PartialEq, Eq, Structural)]
pub enum FinishReason {
    Stop,
    Length,
    ToolCall,
    Error,
}

/// The immutable record of a completed response stream.
#[derive(Debug, Clone, PartialEq, Eq)]
pub struct FinalizedResponse {
    pub response_id: String,
    pub content: String,
    pub chunk_count: usize,
    pub started_at: SystemTime,
    pub completed_at: SystemTime,
    pub finish_reason: FinishReason,
}

impl FinalizedResponse {
    pub fn from_capture(
        capture: ChunkCapture,
        completed_at: SystemTime,
        finish_reason: FinishReason,
    ) -> (f: Self)
        ensures
            f.response_id == capture.id(),
            f.content@ == joined_deltas(capture.captured()),
            f.chunk_count == capture.captured().len(),
            f.started_at == capture.start(),
            f.completed_at == completed_at,
            f.finish_reason == finish_reason,
    {
        let response_id = capture.response_id();
        let started_at = capture.started_at();
        let content = capture.assembled_text();
        let chunk_count = capture.chunks().len();
        Self { response_id, content, chunk_count, started_at, completed_at, finish_reason }
    }
}

} // verus!

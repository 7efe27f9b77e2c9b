//! Payloads, queries and results exchanged with memory engines.

use std::collections::HashMap;
use std::time::SystemTime;

use vstd::prelude::*;

verus! {

/// Memory classes of the per-engine-type gateway.
#[derive(Debug, Clone, PartialEq, Eq, Structural)]
pub enum MemoryType {
    Structure,
    Temporal,
    Semantic,
}

/// Content written to the engines for one session.
#[derive(Debug, Clone)]
pub struct MemoryPayload {
    pub session_id: String,
    pub content: String,
    pub metadata: HashMap<String, String>,
}

/// A retrieval request: the session to read, the prompt, and a cap on results.
#[derive(Debug, Clone)]
pub struct MemoryQuery {
    pub session_id: String,
    pub prompt: String,
    pub max_results: usize,
}

/// A snippet returned by an engine, scored by the `f32` whose bits are `score_bits`.
#[derive(Debug, Clone, PartialEq)]
pub struct ContextSnippet {
    pub source: String,
    pub memory_type: MemoryType,
    pub content: String,
    pub score_bits: Option<u32>,
}

/// Acknowledgement of an ingest.
#[derive(Debug, Clone)]
pub struct IngestReceipt {
    pub ingested_at: SystemTime,
    pub scheduled_hindsight: bool,
}

/// An engine failure, described by a message.
#[derive(Debug, Clone, PartialEq, Eq)]
pub struct EngineError {
    message: String,
}

impl View for EngineError {
    type V = Seq<char>;

    /// The error message.
    closed spec fn view(&self) -> Seq<char> {
        self.message@
    }
}

impl EngineError {
    pub fn new(message: &str) -> (e: Self)
        ensures
            e@ == message@,
    {
        Self { message: message.to_owned() }
    }

    /// An error carrying an already built message.
    pub(crate) fn from_message(message: String) -> (e: Self)
        ensures
            e@ == message@,
    {
        Self { message }
    }

    /// The message.
    pub fn to_string(&self) -> (s: String)
        ensures
            s@ == self@,
    {
        self.message.clone()
    }
}

} // verus!

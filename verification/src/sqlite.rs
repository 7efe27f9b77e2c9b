//! The SQLite store's plain logic: where it connects, how rows are labelled
//! when written, and how rows become snippets when read.

use vstd::prelude::*;

use crate::context::ContextEngineType;
use crate::gateway_types::ContextSnippet;
use crate::mcp::engines::in_memory_engine::FULL_SCORE_BITS;
use crate::memory::MemoryProviderKind;

verus! {

/// Settings of an SQLite store.
#[derive(Debug, Clone, PartialEq, Eq)]
pub struct SqliteProviderConfig {
    pub db_path: String,
}

impl SqliteProviderConfig {
    /// The connection URL of the store: `sqlite:` followed by the path.
    pub fn connection_url(&self) -> (u: String)
        ensures
            u@ == "sqlite:"@ + self.db_path@,
    {
        let mut u = String::from_str("sqlite:");
        u.append(self.db_path.as_str());
        u
    }
}

/// The `memory_type` column written for a store's records.
pub open spec fn stored_label(kind: MemoryProviderKind) -> Seq<char> {
    match kind {
        MemoryProviderKind::Semantic => "semantic"@,
        MemoryProviderKind::Structure => "structural"@,
        MemoryProviderKind::Temporal => "temporal"@,
        MemoryProviderKind::Episodic => "episodic"@,
    }
}

/// The `memory_type` column written for a store's records.
pub fn memory_type_label(kind: MemoryProviderKind) -> (s: &'static str)
    ensures
        s@ == stored_label(kind),
{
    match kind {
        MemoryProviderKind::Semantic => "semantic",
        MemoryProviderKind::Structure => "structural",
        MemoryProviderKind::Temporal => "temporal",
        MemoryProviderKind::Episodic => "episodic",
    }
}

/// The engine type a stored row is reported under: the capitalised names
/// `Structural`, `Temporal` and `Semantic` are recognised, anything else is
/// semantic.
pub open spec fn row_engine_type_of(label: Seq<char>) -> ContextEngineType {
    if label == "Structural"@ {
        ContextEngineType::Structure
    } else if label == "Temporal"@ {
        ContextEngineType::Temporal
    } else {
        ContextEngineType::Semantic
    }
}

/// The engine type a stored row is reported under.
pub fn row_engine_type(label: &str) -> (t: ContextEngineType)
    ensures
        t == row_engine_type_of(label@),
{
    if crate::text::same_text(label, "Structural") {
        ContextEngineType::Structure
    } else if crate::text::same_text(label, "Temporal") {
        ContextEngineType::Temporal
    } else {
        ContextEngineType::Semantic
    }
}

/// The snippet a stored row is read back as: sourced from its namespace,
/// with full score.
pub fn row_snippet(namespace: String, content: String, label: &str) -> (s: ContextSnippet)
    ensures
        s.source@ == namespace@,
        s.content@ == content@,
        s.engine_type == row_engine_type_of(label@),
        s.score_bits == Some(FULL_SCORE_BITS),
{
    ContextSnippet {
        source: namespace,
        engine_type: row_engine_type(label),
        content,
        score_bits: Some(FULL_SCORE_BITS),
    }
}

} // verus!

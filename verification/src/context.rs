//! Request-time context domain models shared across the gateway.
//!
//! `f32` quantities (scores, confidences, weights) are carried as their IEEE-754
//! bit patterns (`f32::to_bits`), in fields whose names end in `_bits`.

use std::collections::{BTreeMap, HashMap};
use std::time::{Duration, SystemTime};

use vstd::prelude::*;

verus! {

/// The kind of memory a caller asks the gateway to retrieve.
#[derive(Debug, Clone, Copy, PartialEq, Eq, Hash, Structural)]
pub enum RetrievalIntent {
    /// Raw transcript / turn-level records.
    Episodic,
    /// Durable facts extracted from episodes.
    Semantic,
    /// Time-ordered context.
    Temporal,
    /// Graph-based links.
    Structure,
    /// Every engine type, merged.
    Mixed,
}

impl Default for RetrievalIntent {
    fn default() -> (r: Self)
        ensures
            r == RetrievalIntent::Mixed,
    {
        RetrievalIntent::Mixed
    }
}

/// A memory artifact in one of the four canonical categories.
#[derive(Debug, Clone, PartialEq)]
pub enum MemoryArtifact {
    /// A raw episode captured during a session.
    Episodic {
        session_id: String,
        turn_id: String,
        speaker: String,
        content: String,
        observed_at: String,
        metadata: BTreeMap<String, String>,
    },
    /// A durable fact derived from one or more episodes.
    Semantic {
        fact_id: String,
        session_id: String,
        subject: String,
        predicate: String,
        object: String,
        confidence_bits: u32,
        source_turn_ids: Vec<String>,
        extracted_at: String,
    },
    /// A time-ordered context record.
    Temporal {
        session_id: String,
        window_start: String,
        window_end: String,
        content: String,
        metadata: BTreeMap<String, String>,
    },
    /// A graph link between two references.
    Structure {
        source_ref: String,
        target_ref: String,
        relation_type: String,
        weight_bits: Option<u32>,
        metadata: BTreeMap<String, String>,
    },
}

/// The canonical kind of a memory artifact.
#[derive(Debug, Clone, Copy, PartialEq, Eq, Hash, Structural)]
pub enum MemoryArtifactKind {
    Episodic,
    Semantic,
    Temporal,
    Structure,
}

/// Engine classes that context can be assembled from.
#[derive(Debug, Clone, Copy, PartialEq, Eq, Hash, Structural)]
pub enum ContextEngineType {
    Structure,
    Temporal,
    Semantic,
    Graph,
}

impl MemoryArtifact {
    /// The engine an artifact is stored in: episodes live with the temporal engine.
    pub open spec fn spec_engine_type(&self) -> ContextEngineType {
        match self {
            MemoryArtifact::Episodic { .. } => ContextEngineType::Temporal,
            MemoryArtifact::Semantic { .. } => ContextEngineType::Semantic,
            MemoryArtifact::Temporal { .. } => ContextEngineType::Temporal,
            MemoryArtifact::Structure { .. } => ContextEngineType::Structure,
        }
    }

    pub open spec fn spec_kind(&self) -> MemoryArtifactKind {
        match self {
            MemoryArtifact::Episodic { .. } => MemoryArtifactKind::Episodic,
            MemoryArtifact::Semantic { .. } => MemoryArtifactKind::Semantic,
            MemoryArtifact::Temporal { .. } => MemoryArtifactKind::Temporal,
            MemoryArtifact::Structure { .. } => MemoryArtifactKind::Structure,
        }
    }

    pub fn engine_type(&self) -> (t: ContextEngineType)
        ensures
            t == self.spec_engine_type(),
    {
        match self {
            MemoryArtifact::Episodic { .. } => ContextEngineType::Temporal,
            MemoryArtifact::Semantic { .. } => ContextEngineType::Semantic,
            MemoryArtifact::Temporal { .. } => ContextEngineType::Temporal,
            MemoryArtifact::Structure { .. } => ContextEngineType::Structure,
        }
    }

    pub fn kind(&self) -> (k: MemoryArtifactKind)
        ensures
            k == self.spec_kind(),
    {
        match self {
            MemoryArtifact::Episodic { .. } => MemoryArtifactKind::Episodic,
            MemoryArtifact::Semantic { .. } => MemoryArtifactKind::Semantic,
            MemoryArtifact::Temporal { .. } => MemoryArtifactKind::Temporal,
            MemoryArtifact::Structure { .. } => MemoryArtifactKind::Structure,
        }
    }
}

/// An inbound request for assembled context.
#[derive(Debug, Clone)]
pub struct ContextRequest {
    pub tenant_id: String,
    pub agent_id: String,
    pub conversation_id: Option<String>,
    pub user_query: String,
    pub max_context_tokens: usize,
    pub metadata: HashMap<String, String>,
    pub retrieval_intent: RetrievalIntent,
}

/// One ranked snippet returned by an engine.
#[derive(Debug, Clone)]
pub struct EngineSnippet {
    pub engine_name: String,
    pub engine_type: ContextEngineType,
    pub rank: usize,
    pub text: String,
    pub relevance_score_bits: Option<u32>,
    pub estimated_tokens: usize,
    pub source_ref: Option<String>,
}

/// Timing and outcome of one engine lookup.
#[derive(Debug, Clone)]
pub struct EngineLookupMetrics {
    pub latency: Duration,
    pub timed_out: bool,
    pub failed: bool,
}

/// Everything one engine answered for a request.
#[derive(Debug, Clone)]
pub struct EngineLookupResult {
    pub engine_name: String,
    pub snippets: Vec<EngineSnippet>,
    pub metrics: EngineLookupMetrics,
    pub error: Option<String>,
}

/// Token budget for one assembled context.
#[derive(Debug, Clone)]
pub struct TokenBudget {
    pub total: usize,
    pub reserved_for_user_prompt: usize,
    pub reserved_for_system_prompt: usize,
}

impl TokenBudget {
    /// Tokens left for context once both reserves are taken out, never below zero.
    pub open spec fn spec_available(&self) -> int {
        let reserved = self.reserved_for_user_prompt + self.reserved_for_system_prompt;
        if self.total >= reserved {
            self.total - reserved
        } else {
            0
        }
    }

    pub fn available_for_context(&self) -> (tokens: usize)
        requires
            self.reserved_for_user_prompt + self.reserved_for_system_prompt <= usize::MAX,
        ensures
            tokens == self.spec_available(),
    {
        self.total.saturating_sub(self.reserved_for_user_prompt + self.reserved_for_system_prompt)
    }
}

/// Prompt-ready context and the bookkeeping of how it was built.
#[derive(Debug, Clone)]
pub struct AssembledContext {
    pub synthesized_context: String,
    pub used_tokens: usize,
    pub dropped_snippets: usize,
    pub warnings: Vec<String>,
}

/// A context payload accepted across memory engines.
#[derive(Debug, Clone, PartialEq, Eq)]
pub struct ContextItem {
    pub id: String,
    pub content: String,
    pub metadata: BTreeMap<String, String>,
}

/// A retrievable context fragment returned from providers.
#[derive(Debug, Clone, PartialEq)]
pub struct ContextChunk {
    pub item_id: String,
    pub content: String,
    pub score_bits: Option<u32>,
    pub metadata: BTreeMap<String, String>,
}

#[derive(Debug, Clone, PartialEq, Eq)]
pub struct TimeWindow {
    pub start: SystemTime,
    pub end: SystemTime,
}

#[derive(Debug, Clone, PartialEq, Eq)]
pub struct IngestRequest {
    pub tenant_id: String,
    pub session_id: Option<String>,
    pub correlation_id: String,
    pub occurred_at: SystemTime,
    pub items: Vec<ContextItem>,
    pub tags: BTreeMap<String, String>,
    pub deadline: Option<SystemTime>,
}

#[derive(Debug, Clone, PartialEq, Eq)]
pub struct IngestAck {
    pub accepted: usize,
    pub rejected: usize,
    pub provider_request_id: Option<String>,
    pub warnings: Vec<String>,
}

#[derive(Debug, Clone, PartialEq, Eq)]
pub struct QueryBudget {
    pub timeout: Duration,
    pub max_items: usize,
}

#[derive(Debug, Clone, PartialEq, Eq)]
pub struct QueryRequest {
    pub tenant_id: String,
    pub session_id: Option<String>,
    pub correlation_id: String,
    pub query: String,
    pub top_k: usize,
    pub filters: BTreeMap<String, String>,
    pub time_window: Option<TimeWindow>,
    pub budget: QueryBudget,
}

#[derive(Debug, Clone, PartialEq)]
pub struct QueryResponse {
    pub items: Vec<ContextChunk>,
    pub provider_latency_ms: u64,
    pub provider_request_id: Option<String>,
    pub partial: bool,
}

} // verus!

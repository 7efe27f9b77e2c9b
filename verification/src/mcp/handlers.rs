//! Request and response shapes of the MCP server's HTTP endpoints, and the
//! routing decisions they make.

use vstd::prelude::*;

use crate::context::ContextEngineType;
use crate::mcp::engines::in_memory_engine::{kind_label, kind_name};
use crate::memory::MemoryProviderKind;
use crate::MemoryRecord;

verus! {

/// Body of `/ingest`: a record and the engine it is meant for.
#[derive(Debug, Clone, PartialEq, Eq)]
pub struct IngestRequest {
    pub namespace: String,
    pub content: String,
    /// `structural`, `temporal` or `semantic`; empty when left out.
    pub engine: String,
}

/// Reply of `/ingest`.
#[derive(Debug, Clone, PartialEq, Eq)]
pub struct IngestResponse {
    pub status: String,
    pub engine: String,
}

/// Body of `/context`.
#[derive(Debug, Clone, PartialEq, Eq)]
pub struct ContextRequest {
    pub session_id: String,
    pub prompt: String,
    /// Defaults to `default_max_results()` when left out.
    pub max_results: usize,
}

/// How many snippets `/context` returns when the request does not say.
pub fn default_max_results() -> (n: usize)
    ensures
        n == 10,
{
    10
}

/// The engine an `/ingest` body names; anything unrecognised goes to the
/// structural engine.
pub open spec fn ingest_kind_for(engine: Seq<char>) -> MemoryProviderKind {
    if engine == "temporal"@ {
        MemoryProviderKind::Temporal
    } else if engine == "semantic"@ {
        MemoryProviderKind::Semantic
    } else {
        MemoryProviderKind::Structure
    }
}

/// The engine an `/ingest` body is routed to.
pub fn ingest_kind(engine: &str) -> (k: MemoryProviderKind)
    ensures
        k == ingest_kind_for(engine@),
{
    if crate::text::same_text(engine, "temporal") {
        MemoryProviderKind::Temporal
    } else if crate::text::same_text(engine, "semantic") {
        MemoryProviderKind::Semantic
    } else {
        MemoryProviderKind::Structure
    }
}

/// The pair of records the gateway receives for an `/ingest` body: the same
/// content filed under `<namespace>-structural` and `<namespace>-temporal`.
pub fn gateway_records(request: &IngestRequest) -> (r: (MemoryRecord, MemoryRecord))
    ensures
        r.0.namespace@ == request.namespace@ + "-structural"@,
        r.0.content@ == request.content@,
        r.1.namespace@ == request.namespace@ + "-temporal"@,
        r.1.content@ == request.content@,
{
    let mut structural = String::from_str(request.namespace.as_str());
    structural.append("-structural");
    let mut temporal = String::from_str(request.namespace.as_str());
    temporal.append("-temporal");
    (
        MemoryRecord { namespace: structural, content: request.content.clone() },
        MemoryRecord { namespace: temporal, content: request.content.clone() },
    )
}

/// The reply to an accepted `/ingest`: status `ok` and the engine's name.
pub fn ingest_response(kind: MemoryProviderKind) -> (r: IngestResponse)
    ensures
        r.status@ == "ok"@,
        r.engine@ == kind_label(kind),
{
    IngestResponse { status: "ok".to_owned(), engine: kind_name(kind).to_owned() }
}

/// Name of an engine type in `/context` replies.
pub open spec fn engine_type_label(t: ContextEngineType) -> Seq<char> {
    match t {
        ContextEngineType::Structure => "Structural"@,
        ContextEngineType::Temporal => "Temporal"@,
        ContextEngineType::Semantic => "Semantic"@,
        ContextEngineType::Graph => "Graph"@,
    }
}

/// Name of an engine type in `/context` replies.
pub fn engine_type_name(t: ContextEngineType) -> (s: &'static str)
    ensures
        s@ == engine_type_label(t),
{
    match t {
        ContextEngineType::Structure => "Structural",
        ContextEngineType::Temporal => "Temporal",
        ContextEngineType::Semantic => "Semantic",
        ContextEngineType::Graph => "Graph",
    }
}

} // verus!

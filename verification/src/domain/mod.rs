//! Domain types of the per-engine-type gateway.

pub mod types;

pub use types::{
    ContextSnippet, EngineError, IngestReceipt, MemoryPayload, MemoryQuery, MemoryType,
};

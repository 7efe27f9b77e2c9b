//! Verified core of the RecallProxy context gateway.

pub mod clock;
pub mod config;
pub mod context;
pub mod context_assembly;
pub mod domain;
pub mod error;
pub mod events;
pub mod factory;
pub mod gateway;
pub mod gateway_types;
pub mod hindsight;
pub mod mcp;
pub mod memory;
pub mod memory_engines;
pub mod merge_order;
pub mod response;
pub mod sqlite;
pub mod text;

use vstd::prelude::*;

verus! {

/// A normalized memory item: content filed under a namespace.
#[derive(Debug, Clone, PartialEq, Eq)]
pub struct MemoryRecord {
    pub namespace: String,
    pub content: String,
}

/// Contract for pluggable memory providers.
pub trait MemoryProvider {
    fn provider_name(&self) -> &'static str;
}

} // verus!

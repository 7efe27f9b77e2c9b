//! Memory contracts shared by providers: record shape, engine classes and
//! capability descriptors.

use std::borrow::Cow;

use vstd::prelude::*;

verus! {

/// Speaker roles of transcript turns.
#[derive(Debug, Clone, Copy, PartialEq, Eq, Structural)]
pub enum TranscriptSpeaker {
    User,
    Assistant,
    Tool,
    System,
}

/// Memory engine classes that records can be routed to.
#[derive(Debug, Clone, Copy, PartialEq, Eq, Hash, Structural)]
pub enum MemoryProviderKind {
    Semantic,
    Structure,
    Temporal,
    Episodic,
}

/// Memory classes a provider can declare capabilities for.
#[derive(Debug, Clone, Copy, PartialEq, Eq, Structural)]
pub enum MemoryKind {
    Semantic,
    Structure,
    Temporal,
}

/// What a provider supports for one memory class.
#[derive(Debug, Clone, PartialEq, Eq)]
pub struct CapabilityDescriptor {
    pub kind: MemoryKind,
    pub supports_ingest: bool,
    pub supports_query: bool,
    pub supports_streaming: bool,
    pub max_batch_size: Option<usize>,
}

/// `Clone` of `Cow`; nothing is stated of the copy, which for an owned value is
/// a fresh allocation made by `ToOwned`.
pub assume_specification<'a, B: ?Sized + ToOwned>[ <Cow<'a, B> as Clone>::clone ](c: &Cow<'a, B>) -> Cow<'a, B>;

/// Identity and capabilities of a provider.
#[derive(Debug, Clone, PartialEq, Eq)]
pub struct ProviderMetadata {
    pub provider_id: Cow<'static, str>,
    pub version: Cow<'static, str>,
    pub capabilities: Vec<CapabilityDescriptor>,
}

} // verus!

//! Configuration schema: provider registry, read pipelines and write pipelines.

pub mod context_pipeline;
pub mod routing;

use std::collections::BTreeMap;

use vstd::prelude::*;

use crate::context::RetrievalIntent;

pub use context_pipeline::{ContextPipelineConfig, DedupeStrategy, EngineConfig, MergePolicyConfig};

verus! {

/// Legacy top-level configuration; see `RecallProxyConfig`.
#[derive(Debug, Clone, PartialEq, Eq)]
pub struct GatewayConfig {
    pub bind_address: String,
    pub providers: Vec<ProviderConfig>,
}

/// Legacy provider wiring; see `ProviderRegistration`.
#[derive(Debug, Clone, PartialEq, Eq)]
pub struct ProviderConfig {
    pub name: String,
    pub kind: String,
}

/// Top-level configuration: providers, read pipelines, write pipelines.
#[derive(Debug, Clone, PartialEq, Eq)]
pub struct RecallProxyConfig {
    pub providers: Vec<ProviderRegistration>,
    pub read_pipelines: Vec<ReadPipeline>,
    pub write_pipelines: Vec<WritePipeline>,
    pub bind_address: Option<String>,
}

impl Default for RecallProxyConfig {
    fn default() -> (c: Self)
        ensures
            c.providers@.len() == 0,
            c.read_pipelines@.len() == 0,
            c.write_pipelines@.len() == 0,
            c.bind_address is None,
    {
        RecallProxyConfig {
            providers: Vec::new(),
            read_pipelines: Vec::new(),
            write_pipelines: Vec::new(),
            bind_address: None,
        }
    }
}

/// A memory provider available to the gateway.
#[derive(Debug, Clone, PartialEq, Eq)]
pub struct ProviderRegistration {
    pub id: String,
    pub provider_type: String,
    pub enabled: bool,
    pub capabilities: Vec<String>,
    pub settings: BTreeMap<String, String>,
}

/// A request-time retrieval pipeline.
#[derive(Debug, Clone, PartialEq, Eq)]
pub struct ReadPipeline {
    pub id: String,
    pub providers: Vec<ReadProviderRoute>,
}

/// One route of a read pipeline. A route with an `intent` only serves requests
/// of that intent.
#[derive(Debug, Clone, PartialEq, Eq)]
pub struct ReadProviderRoute {
    pub provider_id: String,
    pub capability: String,
    pub intent: Option<RetrievalIntent>,
    pub priority: u32,
    pub weight: u32,
    pub enabled: bool,
}

/// A response-time or background write pipeline.
#[derive(Debug, Clone, PartialEq, Eq)]
pub struct WritePipeline {
    pub id: String,
    pub trigger: WriteTrigger,
    pub sinks: Vec<WriteSink>,
}

/// What activates a write pipeline.
#[derive(Debug, Clone, Copy, PartialEq, Eq, Structural)]
pub enum WriteTrigger {
    OnRequest,
    OnResponse,
    AsyncHindsight,
}

/// One sink of a write pipeline.
#[derive(Debug, Clone, PartialEq, Eq)]
pub struct WriteSink {
    pub provider_id: String,
    pub capability: String,
    pub enabled: bool,
    pub criticality: WriteCriticality,
}

/// Whether a sink failure fails the write stage or is logged and ignored.
#[derive(Debug, Clone, Copy, PartialEq, Eq, Structural)]
pub enum WriteCriticality {
    Required,
    BestEffort,
}

impl Default for WriteCriticality {
    fn default() -> (c: Self)
        ensures
            c == WriteCriticality::Required,
    {
        WriteCriticality::Required
    }
}

/// Value of boolean settings that a configuration leaves out.
pub fn default_true() -> (b: bool)
    ensures
        b,
{
    true
}

/// The registration a legacy provider entry migrates to: enabled, with no
/// capabilities and no settings.
pub open spec fn migrated_registration(p: ProviderConfig, r: ProviderRegistration) -> bool {
    &&& r.id@ == p.name@
    &&& r.provider_type@ == p.kind@
    &&& r.enabled
    &&& r.capabilities@.len() == 0
    &&& r.settings@ == Map::<String, String>::empty()
}

impl GatewayConfig {
    /// Converts the legacy configuration into the canonical model.
    pub fn to_canonical(&self) -> (c: RecallProxyConfig)
        ensures
            c.bind_address matches Some(a) && a@ == self.bind_address@,
            c.providers@.len() == self.providers@.len(),
            forall|i: int|
                0 <= i < self.providers@.len() ==> migrated_registration(
                    #[trigger] self.providers@[i],
                    c.providers@[i],
                ),
            c.read_pipelines@.len() == 0,
            c.write_pipelines@.len() == 0,
    {
        let mut providers: Vec<ProviderRegistration> = Vec::new();
        let mut i: usize = 0;
        while i < self.providers.len()
            invariant
                i <= self.providers.len(),
                providers@.len() == i,
                forall|j: int|
                    0 <= j < i ==> migrated_registration(
                        #[trigger] self.providers@[j],
                        providers@[j],
                    ),
            decreases self.providers.len() - i,
        {
            let p = &self.providers[i];
            providers.push(
                ProviderRegistration {
                    id: p.name.clone(),
                    provider_type: p.kind.clone(),
                    enabled: default_true(),
                    capabilities: Vec::new(),
                    settings: BTreeMap::new(),
                },
            );
            i = i + 1;
        }
        RecallProxyConfig {
            bind_address: Some(self.bind_address.clone()),
            providers,
            read_pipelines: Vec::new(),
            write_pipelines: Vec::new(),
        }
    }
}

} // verus!

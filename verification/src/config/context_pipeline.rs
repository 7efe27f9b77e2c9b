//! Configuration of request-time context assembly.

use vstd::prelude::*;

verus! {

/// How lookups fan out and how their results are merged.
#[derive(Debug, Clone)]
pub struct ContextPipelineConfig {
    pub max_parallel_engines: usize,
    pub global_timeout_ms: u64,
    pub fail_open: bool,
    pub engine_configs: Vec<EngineConfig>,
    pub merge_policy: MergePolicyConfig,
}

/// One engine of the pipeline; `f32` settings are carried as their bit patterns.
#[derive(Debug, Clone)]
pub struct EngineConfig {
    pub name: String,
    pub engine_type: String,
    pub enabled: bool,
    pub timeout_ms: u64,
    pub max_snippets: usize,
    pub min_score_bits: Option<u32>,
    pub weight_bits: u32,
}

/// Precedence, deduplication and budget rules of the merge.
#[derive(Debug, Clone)]
pub struct MergePolicyConfig {
    pub precedence: Vec<String>,
    pub synthesis_template: String,
    pub dedupe_strategy: DedupeStrategy,
    pub max_snippets_per_engine: usize,
    pub max_context_tokens: usize,
    pub min_reserved_for_user_prompt_tokens: usize,
    pub min_reserved_for_system_prompt_tokens: usize,
}

/// How two snippets are recognised as the same.
#[derive(Debug, Clone, Copy, PartialEq, Eq, Structural)]
pub enum DedupeStrategy {
    ExactText,
    NormalizedText,
    SourceReference,
}

} // verus!

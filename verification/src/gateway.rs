//! The gateway runtime and the request path: handing engine results to an
//! assembler, and merging what the per-type engines answered.

use vstd::prelude::*;

use crate::config::GatewayConfig;
use crate::context::{AssembledContext, ContextRequest, EngineLookupResult, TokenBudget};
use crate::domain::ContextSnippet;

verus! {

/// The gateway process: its configuration.
#[derive(Debug, Clone)]
pub struct GatewayRuntime {
    pub config: GatewayConfig,
}

impl GatewayRuntime {
    /// A runtime holding `config`.
    pub fn new(config: GatewayConfig) -> (r: Self)
        ensures
            r.config == config,
    {
        GatewayRuntime { config }
    }
}

/// Turns what the engines answered into prompt-ready context; implemented by
/// the gateway's users.
pub trait ContextAssembler {
    /// Whether the assembler may produce `out` for these arguments. Unless an
    /// implementation says more, it may produce anything.
    closed spec fn assembles(
        &self,
        request: ContextRequest,
        token_budget: TokenBudget,
        results: Seq<EngineLookupResult>,
        out: AssembledContext,
    ) -> bool {
        true
    }

    fn assemble(
        &self,
        request: &ContextRequest,
        token_budget: &TokenBudget,
        results: Vec<EngineLookupResult>,
    ) -> (out: AssembledContext)
        ensures
            self.assembles(*request, *token_budget, results@, out),
    ;
}

/// Request-path orchestration: the engine results of a request, once joined,
/// are handed to the assembler unchanged.
pub struct RequestContextOrchestrator<A> {
    pub assembler: A,
}

impl<A: ContextAssembler> RequestContextOrchestrator<A> {
    /// What the assembler produces for the request, its budget and the results.
    pub fn execute(
        &self,
        request: &ContextRequest,
        token_budget: &TokenBudget,
        results: Vec<EngineLookupResult>,
    ) -> (out: AssembledContext)
        ensures
            self.assembler.assembles(*request, *token_budget, results@, out),
    {
        self.assembler.assemble(request, token_budget, results)
    }
}

/// The context of the per-type gateway: structural snippets first, then
/// temporal, then semantic, each in the order its engine gave them.
pub fn combined_snippets(
    structural: Vec<ContextSnippet>,
    temporal: Vec<ContextSnippet>,
    semantic: Vec<ContextSnippet>,
) -> (context: Vec<ContextSnippet>)
    ensures
        context@ == structural@ + temporal@ + semantic@,
{
    let mut structural = structural;
    let mut temporal = temporal;
    let mut semantic = semantic;
    let mut context: Vec<ContextSnippet> = Vec::new();
    context.append(&mut structural);
    context.append(&mut temporal);
    context.append(&mut semantic);
    context
}

} // verus!

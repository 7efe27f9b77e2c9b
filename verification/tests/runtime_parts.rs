use std::collections::HashMap;
use std::time::Duration;

use recall_proxy::clock::{epoch_stamp, millis_or_zero};
use recall_proxy::config::{GatewayConfig, ProviderConfig};
use recall_proxy::context::{
    AssembledContext, ContextRequest, EngineLookupMetrics, EngineLookupResult, RetrievalIntent,
    TokenBudget,
};
use recall_proxy::domain::{ContextSnippet, MemoryType};
use recall_proxy::gateway::{
    combined_snippets, ContextAssembler, GatewayRuntime, RequestContextOrchestrator,
};
use recall_proxy::hindsight::{HindsightJob, WorkerRuntime};

#[test]
fn gateway_runtime_new_stores_config() {
    let config = GatewayConfig {
        bind_address: "127.0.0.1:8080".to_string(),
        providers: vec![ProviderConfig {
            name: "stub".to_string(),
            kind: "semantic".to_string(),
        }],
    };

    let runtime = GatewayRuntime::new(config);
    assert_eq!(runtime.config.providers.len(), 1);
}

#[test]
fn hindsight_job_fields_are_preserved() {
    let job = HindsightJob {
        provider: ProviderConfig {
            name: "worker-provider".to_string(),
            kind: "structural".to_string(),
        },
        raw_content: "raw transcript".to_string(),
    };

    assert_eq!(job.provider.name, "worker-provider");
    assert_eq!(job.raw_content, "raw transcript");
}

#[test]
fn worker_process_accepts_job_payload() {
    let worker = WorkerRuntime;
    let job = HindsightJob {
        provider: ProviderConfig {
            name: "worker-provider".to_string(),
            kind: "semantic".to_string(),
        },
        raw_content: "payload".to_string(),
    };

    worker.process(job);
}

struct CountingAssembler;

impl ContextAssembler for CountingAssembler {
    fn assemble(
        &self,
        request: &ContextRequest,
        token_budget: &TokenBudget,
        results: Vec<EngineLookupResult>,
    ) -> AssembledContext {
        AssembledContext {
            synthesized_context: format!("{} via {} engines", request.user_query, results.len()),
            used_tokens: token_budget.total,
            dropped_snippets: 0,
            warnings: vec![],
        }
    }
}

#[test]
fn orchestrator_hands_results_to_its_assembler() {
    let orchestrator = RequestContextOrchestrator { assembler: CountingAssembler };
    let request = ContextRequest {
        tenant_id: "t".to_string(),
        agent_id: "a".to_string(),
        conversation_id: None,
        user_query: "q".to_string(),
        max_context_tokens: 10,
        metadata: HashMap::new(),
        retrieval_intent: RetrievalIntent::Mixed,
    };
    let budget = TokenBudget { total: 7, reserved_for_user_prompt: 0, reserved_for_system_prompt: 0 };
    let results = vec![EngineLookupResult {
        engine_name: "semantic".to_string(),
        snippets: vec![],
        metrics: EngineLookupMetrics { latency: Duration::from_millis(1), timed_out: false, failed: false },
        error: None,
    }];
    let assembled = orchestrator.execute(&request, &budget, results);
    assert_eq!(assembled.synthesized_context, "q via 1 engines");
    assert_eq!(assembled.used_tokens, 7);
}

fn snippet(source: &str, memory_type: MemoryType) -> ContextSnippet {
    ContextSnippet {
        source: source.to_string(),
        memory_type,
        content: format!("{} content", source),
        score_bits: None,
    }
}

#[test]
fn combined_snippets_keep_engine_order() {
    let combined = combined_snippets(
        vec![snippet("graph", MemoryType::Structure)],
        vec![snippet("timeline", MemoryType::Temporal)],
        vec![snippet("vector", MemoryType::Semantic), snippet("vector2", MemoryType::Semantic)],
    );
    let sources: Vec<&str> = combined.iter().map(|s| s.source.as_str()).collect();
    assert_eq!(sources, vec!["graph", "timeline", "vector", "vector2"]);
}

#[test]
fn combined_snippets_without_semantic_engine() {
    let combined = combined_snippets(vec![], vec![snippet("timeline", MemoryType::Temporal)], vec![]);
    assert_eq!(combined.len(), 1);
}

#[test]
fn epoch_stamp_rounds_instants_before_the_epoch_down() {
    assert_eq!(epoch_stamp(true, 12, 500), Some((12, 500)));
    assert_eq!(epoch_stamp(false, 12, 0), Some((-12, 0)));
    assert_eq!(epoch_stamp(false, 12, 250_000_000), Some((-13, 750_000_000)));
    assert_eq!(epoch_stamp(true, u64::MAX, 0), None);
}

#[test]
fn clock_millis_fall_back_to_zero() {
    assert_eq!(millis_or_zero(Some(1_700_000_000_123)), 1_700_000_000_123);
    assert_eq!(millis_or_zero(None), 0);
}

use std::collections::HashMap;
use std::time::Duration;

use recall_proxy::context::{
    ContextEngineType, ContextRequest, EngineLookupMetrics, EngineLookupResult, EngineSnippet,
    RetrievalIntent, TokenBudget,
};
use recall_proxy::context_assembly::assemble_context;

fn request() -> ContextRequest {
    ContextRequest {
        tenant_id: "tenant".to_string(),
        agent_id: "agent".to_string(),
        conversation_id: None,
        user_query: "hello".to_string(),
        max_context_tokens: 128,
        metadata: HashMap::new(),
        retrieval_intent: RetrievalIntent::Mixed,
    }
}

fn result(name: &str, snippets: Vec<EngineSnippet>) -> EngineLookupResult {
    EngineLookupResult {
        engine_name: name.to_string(),
        snippets,
        metrics: EngineLookupMetrics {
            latency: Duration::from_millis(5),
            timed_out: false,
            failed: false,
        },
        error: None,
    }
}

fn snippet(engine: &str, t: ContextEngineType, text: &str, tokens: usize) -> EngineSnippet {
    EngineSnippet {
        engine_name: engine.to_string(),
        engine_type: t,
        rank: 0,
        text: text.to_string(),
        relevance_score_bits: None,
        estimated_tokens: tokens,
        source_ref: None,
    }
}

#[test]
fn merges_in_precedence_order() {
    let precedence = vec!["semantic".to_string(), "temporal".to_string()];
    let budget = TokenBudget {
        total: 100,
        reserved_for_user_prompt: 10,
        reserved_for_system_prompt: 10,
    };
    let results = vec![
        result("temporal", vec![snippet("temporal", ContextEngineType::Temporal, "second", 5)]),
        result("semantic", vec![snippet("semantic", ContextEngineType::Semantic, "first", 5)]),
    ];

    let assembled = assemble_context(&request(), &budget, &precedence, results);
    assert!(assembled.synthesized_context.starts_with("[semantic] first"));
}

#[test]
fn drops_snippets_that_exceed_budget() {
    let precedence = vec!["semantic".to_string()];
    let budget = TokenBudget {
        total: 12,
        reserved_for_user_prompt: 5,
        reserved_for_system_prompt: 5,
    };
    let results = vec![result(
        "semantic",
        vec![snippet("semantic", ContextEngineType::Semantic, "too large", 4)],
    )];

    let assembled = assemble_context(&request(), &budget, &precedence, results);
    assert_eq!(assembled.used_tokens, 0);
    assert_eq!(assembled.dropped_snippets, 1);
}

#[test]
fn assembly_joins_sections_and_counts_tokens() {
    let precedence = vec!["semantic".to_string(), "temporal".to_string()];
    let budget = TokenBudget {
        total: 100,
        reserved_for_user_prompt: 10,
        reserved_for_system_prompt: 10,
    };
    let results = vec![
        result("temporal", vec![snippet("temporal", ContextEngineType::Temporal, "second", 5)]),
        result("semantic", vec![snippet("semantic", ContextEngineType::Semantic, "first", 7)]),
    ];

    let assembled = assemble_context(&request(), &budget, &precedence, results);
    assert_eq!(assembled.synthesized_context, "[semantic] first\n\n[temporal] second");
    assert_eq!(assembled.used_tokens, 12);
    assert_eq!(assembled.dropped_snippets, 0);
    assert!(assembled.warnings.is_empty());
}

#[test]
fn assembly_drops_duplicates_by_normalized_text() {
    let precedence = vec!["semantic".to_string(), "temporal".to_string()];
    let budget = TokenBudget {
        total: 100,
        reserved_for_user_prompt: 0,
        reserved_for_system_prompt: 0,
    };
    let results = vec![
        result("semantic", vec![snippet("semantic", ContextEngineType::Semantic, "Same Fact", 3)]),
        result("temporal", vec![snippet("temporal", ContextEngineType::Temporal, "  same fact ", 3)]),
    ];

    let assembled = assemble_context(&request(), &budget, &precedence, results);
    assert_eq!(assembled.synthesized_context, "[semantic] Same Fact");
    assert_eq!(assembled.used_tokens, 3);
    assert_eq!(assembled.dropped_snippets, 1);
}

#[test]
fn assembly_warns_for_missing_and_failed_engines() {
    let precedence = vec!["graph".to_string(), "semantic".to_string()];
    let budget = TokenBudget {
        total: 100,
        reserved_for_user_prompt: 0,
        reserved_for_system_prompt: 0,
    };
    let mut failed = result("semantic", vec![snippet("semantic", ContextEngineType::Semantic, "x", 1)]);
    failed.metrics.failed = true;
    failed.error = Some("boom".to_string());

    let assembled = assemble_context(&request(), &budget, &precedence, vec![failed]);
    assert_eq!(assembled.synthesized_context, "");
    assert_eq!(assembled.used_tokens, 0);
    assert_eq!(
        assembled.warnings,
        vec![
            "configured precedence references missing engine 'graph'".to_string(),
            "engine 'semantic' failed: Some(\"boom\")".to_string(),
        ]
    );
}

fn ranked(engine: &str, text: &str, rank: usize) -> EngineSnippet {
    EngineSnippet {
        engine_name: engine.to_string(),
        engine_type: ContextEngineType::Semantic,
        rank,
        text: text.to_string(),
        relevance_score_bits: None,
        estimated_tokens: 1,
        source_ref: None,
    }
}

#[test]
fn engines_left_out_of_precedence_come_last_in_name_order() {
    let precedence = vec!["temporal".to_string()];
    let budget = TokenBudget {
        total: 100,
        reserved_for_user_prompt: 0,
        reserved_for_system_prompt: 0,
    };
    let results = vec![
        result("zeta", vec![snippet("zeta", ContextEngineType::Graph, "z", 1)]),
        result("temporal", vec![snippet("temporal", ContextEngineType::Temporal, "t", 1)]),
        result("alpha", vec![snippet("alpha", ContextEngineType::Semantic, "a", 1)]),
        result("zeta", vec![snippet("zeta", ContextEngineType::Graph, "z again", 1)]),
    ];

    let assembled = assemble_context(&request(), &budget, &precedence, results);
    assert_eq!(assembled.synthesized_context, "[temporal] t\n\n[alpha] a\n\n[zeta] z");
    assert_eq!(assembled.used_tokens, 3);
    assert!(assembled.warnings.is_empty());
}

#[test]
fn snippets_are_admitted_in_rank_order() {
    let precedence = vec!["semantic".to_string()];
    let budget = TokenBudget {
        total: 2,
        reserved_for_user_prompt: 0,
        reserved_for_system_prompt: 0,
    };
    let results = vec![result(
        "semantic",
        vec![
            ranked("semantic", "third", 2),
            ranked("semantic", "first", 0),
            ranked("semantic", "second a", 1),
            ranked("semantic", "second b", 1),
        ],
    )];

    let assembled = assemble_context(&request(), &budget, &precedence, results);
    assert_eq!(assembled.synthesized_context, "[semantic] first\n\n[semantic] second a");
    assert_eq!(assembled.used_tokens, 2);
    assert_eq!(assembled.dropped_snippets, 2);
}

#[test]
fn failed_engine_left_out_of_precedence_still_warns() {
    let precedence: Vec<String> = vec![];
    let budget = TokenBudget {
        total: 10,
        reserved_for_user_prompt: 0,
        reserved_for_system_prompt: 0,
    };
    let mut failed = result("graph", vec![]);
    failed.metrics.failed = true;
    let assembled = assemble_context(&request(), &budget, &precedence, vec![failed]);
    assert_eq!(assembled.warnings, vec!["engine 'graph' failed: None".to_string()]);
}

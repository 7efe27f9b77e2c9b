use std::collections::BTreeMap;

use recall_proxy::context::{
    ContextEngineType, MemoryArtifact, MemoryArtifactKind, RetrievalIntent, TokenBudget,
};

#[test]
fn retrieval_intent_defaults_to_mixed() {
    let default_value: RetrievalIntent = Default::default();
    assert_eq!(default_value, RetrievalIntent::Mixed);
}

fn episodic_artifact() -> MemoryArtifact {
    MemoryArtifact::Episodic {
        session_id: "s".to_string(),
        turn_id: "t".to_string(),
        speaker: "u".to_string(),
        content: "c".to_string(),
        observed_at: "2026-05-07T07:00:00Z".to_string(),
        metadata: BTreeMap::new(),
    }
}

fn semantic_artifact() -> MemoryArtifact {
    MemoryArtifact::Semantic {
        fact_id: "f".to_string(),
        session_id: "s".to_string(),
        subject: "s".to_string(),
        predicate: "p".to_string(),
        object: "o".to_string(),
        confidence_bits: 0.5f32.to_bits(),
        source_turn_ids: vec![],
        extracted_at: "2026-05-07T07:00:00Z".to_string(),
    }
}

fn temporal_artifact() -> MemoryArtifact {
    MemoryArtifact::Temporal {
        session_id: "s".to_string(),
        window_start: "2026-05-07T06:00:00Z".to_string(),
        window_end: "2026-05-07T08:00:00Z".to_string(),
        content: "c".to_string(),
        metadata: BTreeMap::new(),
    }
}

fn structural_artifact() -> MemoryArtifact {
    MemoryArtifact::Structure {
        source_ref: "s".to_string(),
        target_ref: "t".to_string(),
        relation_type: "r".to_string(),
        weight_bits: None,
        metadata: BTreeMap::new(),
    }
}

#[test]
fn memory_artifact_kind_maps_correctly() {
    assert_eq!(episodic_artifact().kind(), MemoryArtifactKind::Episodic);
    assert_eq!(semantic_artifact().kind(), MemoryArtifactKind::Semantic);
    assert_eq!(temporal_artifact().kind(), MemoryArtifactKind::Temporal);
    assert_eq!(structural_artifact().kind(), MemoryArtifactKind::Structure);
}

#[test]
fn memory_artifact_engine_type_mapping() {
    assert_eq!(episodic_artifact().engine_type(), ContextEngineType::Temporal);
    assert_eq!(semantic_artifact().engine_type(), ContextEngineType::Semantic);
    assert_eq!(temporal_artifact().engine_type(), ContextEngineType::Temporal);
    assert_eq!(structural_artifact().engine_type(), ContextEngineType::Structure);
}

#[test]
fn token_budget_available_calculation() {
    let budget = TokenBudget {
        total: 1000,
        reserved_for_user_prompt: 100,
        reserved_for_system_prompt: 200,
    };

    assert_eq!(budget.available_for_context(), 700);
}

#[test]
fn token_budget_saturates_at_zero() {
    let budget = TokenBudget {
        total: 100,
        reserved_for_user_prompt: 60,
        reserved_for_system_prompt: 60,
    };

    assert_eq!(budget.available_for_context(), 0);
}

#[test]
fn token_budget_exactly_reserved_leaves_nothing() {
    let budget = TokenBudget {
        total: 300,
        reserved_for_user_prompt: 100,
        reserved_for_system_prompt: 200,
    };

    assert_eq!(budget.available_for_context(), 0);
}

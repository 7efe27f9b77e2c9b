use recall_proxy::context::ContextEngineType;
use recall_proxy::gateway_types::MemoryQuery;
use recall_proxy::memory::MemoryProviderKind;
use recall_proxy::memory_engines::{
    EpisodicEngine, EpisodicEngineConfig, SemanticEngine, SemanticEngineConfig, StructuralEngine,
    StructuralEngineConfig, TemporalEngine, TemporalEngineConfig,
};
use recall_proxy::MemoryRecord;

fn record(namespace: &str, content: &str) -> MemoryRecord {
    MemoryRecord {
        namespace: namespace.to_string(),
        content: content.to_string(),
    }
}

fn query(session_id: &str, prompt: &str, max_results: usize) -> MemoryQuery {
    MemoryQuery {
        session_id: session_id.to_string(),
        prompt: prompt.to_string(),
        max_results,
    }
}

#[test]
fn episodic_writes_and_retrieves_records() {
    let mut engine = EpisodicEngine::with_default_config();
    engine.write(record("session-1", "episodic memory 1")).unwrap();

    let results = engine.query(query("session-1", "", 10)).unwrap();
    assert_eq!(results.len(), 1);
    assert_eq!(results[0].content, "episodic memory 1");
}

#[test]
fn queries_by_session_id() {
    let mut engine = EpisodicEngine::with_default_config();
    engine.write(record("session-a", "session a data")).unwrap();
    engine.write(record("session-b", "session b data")).unwrap();

    let results = engine.query(query("session-a", "", 10)).unwrap();
    assert_eq!(results.len(), 1);
    assert_eq!(results[0].content, "session a data");
}

#[test]
fn episodic_returns_empty_for_unknown_session() {
    let mut engine = EpisodicEngine::with_default_config();
    let results = engine.query(query("nonexistent", "", 10)).unwrap();
    assert!(results.is_empty());
}

#[test]
fn respects_max_entries_per_session() {
    let config = EpisodicEngineConfig {
        max_age_minutes: 1440,
        max_entries_per_session: 3,
    };
    let mut engine = EpisodicEngine::new(config);
    for i in 0..5 {
        engine.write(record("session-1", &format!("entry-{}", i))).unwrap();
    }

    let results = engine.query(query("session-1", "", 10)).unwrap();
    assert_eq!(results.len(), 3);
}

#[test]
fn episodic_keeps_the_newest_entries() {
    let config = EpisodicEngineConfig {
        max_age_minutes: 1440,
        max_entries_per_session: 2,
    };
    let mut engine = EpisodicEngine::new(config);
    for i in 0..4 {
        engine.write(record("s", &format!("entry-{}", i))).unwrap();
    }
    let results = engine.query(query("s", "", 10)).unwrap();
    let contents: Vec<&str> = results.iter().map(|s| s.content.as_str()).collect();
    assert_eq!(contents, vec!["entry-2", "entry-3"]);
    assert_eq!(results[0].engine_type, ContextEngineType::Graph);
}

#[test]
fn memory_type_returns_episodic() {
    let engine = EpisodicEngine::with_default_config();
    assert_eq!(engine.memory_type(), MemoryProviderKind::Episodic);
}

#[test]
fn semantic_writes_and_retrieves_records() {
    let mut engine = SemanticEngine::with_default_config();
    engine.write(record("semantic-store", "user prefers rust")).unwrap();

    let results = engine.query(query("semantic-store", "", 10)).unwrap();
    assert_eq!(results.len(), 1);
    assert_eq!(results[0].content, "user prefers rust");
}

#[test]
fn stores_multiple_entries() {
    let mut engine = SemanticEngine::with_default_config();
    for i in 0..3 {
        engine.write(record("store", &format!("semantic entry {}", i))).unwrap();
    }

    let results = engine.query(query("store", "", 10)).unwrap();
    assert_eq!(results.len(), 3);
}

#[test]
fn keyword_search_finds_matching_content() {
    let mut engine = SemanticEngine::with_default_config();
    engine.write(record("lang", "rust is a systems programming language")).unwrap();

    let results = engine.query(query("", "rust programming", 10)).unwrap();
    assert_eq!(results.len(), 1);
    assert_eq!(results[0].content, "rust is a systems programming language");
}

#[test]
fn keyword_search_runs_only_without_namespace_hits() {
    let mut engine = SemanticEngine::new(SemanticEngineConfig {
        max_results: 10,
        enable_keyword_search: true,
    });
    engine.write(record("alpha", "Rust and Go")).unwrap();
    engine.write(record("beta", "python notes")).unwrap();

    let by_namespace = engine.query(query("alpha", "python", 10)).unwrap();
    assert_eq!(by_namespace.len(), 1);
    assert_eq!(by_namespace[0].content, "Rust and Go");
    assert_eq!(by_namespace[0].score_bits, Some(0.95f32.to_bits()));

    let by_keyword = engine.query(query("gamma", "PYTHON", 10)).unwrap();
    assert_eq!(by_keyword.len(), 1);
    assert_eq!(by_keyword[0].content, "python notes");
    assert_eq!(by_keyword[0].score_bits, Some(0.8f32.to_bits()));
}

#[test]
fn keyword_search_disabled_finds_nothing() {
    let mut engine = SemanticEngine::new(SemanticEngineConfig {
        max_results: 10,
        enable_keyword_search: false,
    });
    engine.write(record("alpha", "rust")).unwrap();
    let results = engine.query(query("zeta", "rust", 10)).unwrap();
    assert!(results.is_empty());
}

#[test]
fn memory_type_returns_semantic() {
    let engine = SemanticEngine::with_default_config();
    assert_eq!(engine.memory_type(), MemoryProviderKind::Semantic);
}

#[test]
fn writes_and_retrieves_facts() {
    let mut engine = StructuralEngine::with_default_config();
    engine.write(record("facts-1", "user|lives_in|Berlin")).unwrap();

    let results = engine.query(query("facts-1", "", 10)).unwrap();
    assert_eq!(results.len(), 1);
    assert_eq!(results[0].content, "user | lives_in | Berlin");
}

#[test]
fn parses_facts_from_content() {
    let mut engine = StructuralEngine::with_default_config();
    engine.write(record("relations", "Alice|knows|Bob")).unwrap();
    engine.write(record("relations", "Bob|works_at|Acme")).unwrap();

    let results = engine.query(query("relations", "", 10)).unwrap();
    assert_eq!(results.len(), 2);
}

#[test]
fn handles_non_pipe_delimited_content() {
    let mut engine = StructuralEngine::with_default_config();
    engine.write(record("freeform", "freeform text content")).unwrap();

    let results = engine.query(query("freeform", "", 10)).unwrap();
    assert_eq!(results.len(), 1);
    assert_eq!(results[0].content, "entity | has_property | freeform text content");
}

#[test]
fn structural_engine_evicts_oldest_fact() {
    let mut engine = StructuralEngine::new(StructuralEngineConfig {
        max_facts: 2,
        enable_relationships: true,
    });
    engine.write(record("r", "a|p|b")).unwrap();
    engine.write(record("r", "c|p|d")).unwrap();
    engine.write(record("r", "e|p|f")).unwrap();
    let results = engine.query(query("r", "", 10)).unwrap();
    let contents: Vec<&str> = results.iter().map(|s| s.content.as_str()).collect();
    assert_eq!(contents, vec!["e | p | f", "c | p | d"]);
    assert_eq!(results[0].engine_type, ContextEngineType::Structure);
}

#[test]
fn facts_split_at_the_first_two_pipes() {
    let mut engine = StructuralEngine::with_default_config();
    engine.write(record("f", " x | rel |y|z ")).unwrap();
    let results = engine.query(query("f", "", 10)).unwrap();
    assert_eq!(results[0].content, "x | rel | y|z");
}

#[test]
fn memory_type_returns_structural() {
    let engine = StructuralEngine::with_default_config();
    assert_eq!(engine.memory_type(), MemoryProviderKind::Structure);
}

#[test]
fn temporal_writes_and_retrieves_records() {
    let mut engine = TemporalEngine::with_default_config();
    engine.write(record("timeline-1", "temporal event 1")).unwrap();

    let results = engine.query(query("timeline-1", "", 10)).unwrap();
    assert_eq!(results.len(), 1);
    assert_eq!(results[0].content, "temporal event 1");
}

#[test]
fn returns_entries_in_reverse_chronological_order() {
    let mut engine = TemporalEngine::with_default_config();
    for i in 0..3 {
        engine.write(record("timeline", &format!("event-{}", i))).unwrap();
    }

    let results = engine.query(query("timeline", "", 10)).unwrap();
    assert_eq!(results.len(), 3);
    assert_eq!(results[0].content, "event-2");
    assert_eq!(results[1].content, "event-1");
    assert_eq!(results[2].content, "event-0");
}

#[test]
fn temporal_returns_empty_for_unknown_session() {
    let engine = TemporalEngine::with_default_config();
    let results = engine.query(query("nonexistent", "", 10)).unwrap();
    assert!(results.is_empty());
}

#[test]
fn temporal_engine_keeps_newest_entries_and_caps_results() {
    let mut engine = TemporalEngine::new(TemporalEngineConfig {
        max_entries: 2,
        enable_time_filtering: true,
    });
    for i in 0..4 {
        engine.write(record("t", &format!("event-{}", i))).unwrap();
    }
    let all = engine.query(query("", "", 10)).unwrap();
    let contents: Vec<&str> = all.iter().map(|s| s.content.as_str()).collect();
    assert_eq!(contents, vec!["event-3", "event-2"]);
    let one = engine.query(query("t", "", 1)).unwrap();
    assert_eq!(one.len(), 1);
    assert_eq!(one[0].content, "event-3");
}

#[test]
fn memory_type_returns_temporal() {
    let engine = TemporalEngine::with_default_config();
    assert_eq!(engine.memory_type(), MemoryProviderKind::Temporal);
}

#[test]
fn episodic_files_namespaces_under_their_session_key() {
    let mut engine = EpisodicEngine::with_default_config();
    engine.write(record("chat:turn-1", "first")).unwrap();
    engine.write(record("chat:turn-2", "second")).unwrap();
    engine.write(record("other", "elsewhere")).unwrap();

    let results = engine.query(query("chat", "", 10)).unwrap();
    let contents: Vec<&str> = results.iter().map(|s| s.content.as_str()).collect();
    assert_eq!(contents, vec!["first", "second"]);
    assert_eq!(results[0].source, "chat");
    assert_eq!(results[0].score_bits, None);
}

#[test]
fn semantic_namespace_match_is_by_containment() {
    let mut engine = SemanticEngine::with_default_config();
    engine.write(record("user-prefs", "likes tea")).unwrap();
    let inner = engine.query(query("prefs", "", 10)).unwrap();
    assert_eq!(inner.len(), 1);
    assert_eq!(inner[0].source, "user-prefs");
    let outer = engine.query(query("user-prefs-2024", "", 10)).unwrap();
    assert_eq!(outer.len(), 1);
    let none = engine.query(query("tea", "", 10)).unwrap();
    assert!(none.is_empty());
}

#[test]
fn temporal_event_type_does_not_hide_entries() {
    let mut engine = TemporalEngine::with_default_config();
    engine.write(record("transcript-1", "hello")).unwrap();
    engine.write(record("event-9", "login")).unwrap();
    let results = engine.query(query("", "", 10)).unwrap();
    assert_eq!(results.len(), 2);
    assert_eq!(results[0].content, "login");
    assert_eq!(results[0].engine_type, ContextEngineType::Temporal);
}

#[test]
fn semantic_max_results_caps_namespace_matches() {
    let mut engine = SemanticEngine::new(SemanticEngineConfig {
        max_results: 1,
        enable_keyword_search: true,
    });
    engine.write(record("notes", "first note")).unwrap();
    engine.write(record("notes", "second note")).unwrap();
    let results = engine.query(query("notes", "", 10)).unwrap();
    assert_eq!(results.len(), 1);
    assert_eq!(results[0].content, "first note");
}

#[test]
fn semantic_max_results_zero_answers_nothing() {
    let mut engine = SemanticEngine::new(SemanticEngineConfig {
        max_results: 0,
        enable_keyword_search: true,
    });
    engine.write(record("notes", "first note")).unwrap();
    assert!(engine.query(query("notes", "", 10)).unwrap().is_empty());
    assert!(engine.query(query("other", "note", 10)).unwrap().is_empty());
}

#[test]
fn temporal_write_at_replaces_an_entry_at_the_same_instant() {
    let mut engine = TemporalEngine::new(TemporalEngineConfig {
        max_entries: 10,
        enable_time_filtering: true,
    });
    engine.write_at(record("t", "first"), (100, 5));
    engine.write_at(record("t", "later"), (200, 0));
    engine.write_at(record("t", "same instant"), (100, 5));
    let all = engine.query(query("", "", 10)).unwrap();
    let contents: Vec<&str> = all.iter().map(|s| s.content.as_str()).collect();
    assert_eq!(contents, vec!["later", "same instant"]);
}

#[test]
fn temporal_write_at_keeps_the_newest_instants() {
    let mut engine = TemporalEngine::new(TemporalEngineConfig {
        max_entries: 2,
        enable_time_filtering: true,
    });
    engine.write_at(record("t", "b"), (-5, 0));
    engine.write_at(record("t", "a"), (-10, 0));
    engine.write_at(record("t", "c"), (0, 1));
    let all = engine.query(query("", "", 10)).unwrap();
    let contents: Vec<&str> = all.iter().map(|s| s.content.as_str()).collect();
    assert_eq!(contents, vec!["c", "b"]);
}

#[test]
fn episodic_query_since_prunes_older_episodes() {
    let mut engine = EpisodicEngine::new(EpisodicEngineConfig {
        max_age_minutes: 60,
        max_entries_per_session: 10,
    });
    engine.write_at(record("s1", "old"), (1_000, 0));
    engine.write_at(record("s1", "new"), (5_000, 0));
    engine.write_at(record("s2", "gone"), (10, 0));
    let results = engine.query_since(query("", "", 10), (1_000, 0));
    let contents: Vec<&str> = results.iter().map(|s| s.content.as_str()).collect();
    assert_eq!(contents, vec!["old", "new"]);
    assert_eq!(results[0].source, "s1");
    let later = engine.query_since(query("s1", "", 10), (1_000, 1));
    assert_eq!(later.len(), 1);
    assert_eq!(later[0].content, "new");
}

#[test]
fn episodic_query_serves_ages_beyond_a_hundred_billion_minutes() {
    let mut engine = EpisodicEngine::new(EpisodicEngineConfig {
        max_age_minutes: 130_000_000_000,
        max_entries_per_session: 10,
    });
    engine.write(record("s", "kept")).unwrap();
    let results = engine.query(query("s", "", 10)).unwrap();
    assert_eq!(results.len(), 1);
}

#[test]
fn episodic_query_fails_when_the_cutoff_leaves_the_calendar() {
    let mut engine = EpisodicEngine::new(EpisodicEngineConfig {
        max_age_minutes: 200_000_000_000,
        max_entries_per_session: 10,
    });
    engine.write(record("s", "kept")).unwrap();
    let err = engine.query(query("s", "", 10)).expect_err("cutoff out of range");
    assert_eq!(err.to_string(), "instant outside the representable range");
    let results = engine.query_since(query("s", "", 10), (0, 0));
    assert_eq!(results.len(), 1);
}

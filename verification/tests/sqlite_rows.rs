use recall_proxy::context::ContextEngineType;
use recall_proxy::memory::MemoryProviderKind;
use recall_proxy::sqlite::{memory_type_label, row_engine_type, row_snippet, SqliteProviderConfig};

#[test]
fn connection_url_prefixes_the_path() {
    let config = SqliteProviderConfig { db_path: "data/memory.db".to_string() };
    assert_eq!(config.connection_url(), "sqlite:data/memory.db");
}

#[test]
fn stored_labels_are_lowercase() {
    assert_eq!(memory_type_label(MemoryProviderKind::Semantic), "semantic");
    assert_eq!(memory_type_label(MemoryProviderKind::Structure), "structural");
    assert_eq!(memory_type_label(MemoryProviderKind::Temporal), "temporal");
    assert_eq!(memory_type_label(MemoryProviderKind::Episodic), "episodic");
}

#[test]
fn rows_map_capitalised_labels_only() {
    assert_eq!(row_engine_type("Structural"), ContextEngineType::Structure);
    assert_eq!(row_engine_type("Temporal"), ContextEngineType::Temporal);
    assert_eq!(row_engine_type("Semantic"), ContextEngineType::Semantic);
    assert_eq!(row_engine_type("structural"), ContextEngineType::Semantic);
    assert_eq!(row_engine_type("episodic"), ContextEngineType::Semantic);
}

#[test]
fn row_snippet_is_sourced_from_namespace_with_full_score() {
    let s = row_snippet("test-session".to_string(), "user prefers rust".to_string(), "semantic");
    assert_eq!(s.source, "test-session");
    assert_eq!(s.content, "user prefers rust");
    assert_eq!(s.engine_type, ContextEngineType::Semantic);
    assert_eq!(s.score_bits, Some(1.0f32.to_bits()));
}

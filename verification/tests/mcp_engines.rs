use recall_proxy::context::ContextEngineType;
use recall_proxy::gateway_types::MemoryQuery;
use recall_proxy::mcp::engine::InMemoryEngine as GroupedEngine;
use recall_proxy::mcp::engines::in_memory_engine::{InMemoryEngine, FULL_SCORE_BITS};
use recall_proxy::memory::MemoryProviderKind;
use recall_proxy::MemoryRecord;

fn record(namespace: &str, content: &str) -> MemoryRecord {
    MemoryRecord {
        namespace: namespace.to_string(),
        content: content.to_string(),
    }
}

fn query(session_id: &str, prompt: &str) -> MemoryQuery {
    MemoryQuery {
        session_id: session_id.to_string(),
        prompt: prompt.to_string(),
        max_results: 10,
    }
}

#[test]
fn in_memory_engine_writes_and_reads_records() {
    let mut engine = GroupedEngine::new(MemoryProviderKind::Structure);
    assert_eq!(engine.memory_type(), MemoryProviderKind::Structure);

    engine.write(record("test-ns", "hello world")).expect("write should succeed");

    let results = engine.query(query("test", "hello")).expect("query should succeed");
    assert_eq!(results.len(), 1);
    assert_eq!(results[0].content, "hello world");
}

#[test]
fn in_memory_engine_stores_multiple_entries() {
    let mut engine = GroupedEngine::new(MemoryProviderKind::Temporal);
    for i in 0..3 {
        engine
            .write(record(&format!("ns-{}", i), &format!("content-{}", i)))
            .expect("write should succeed");
    }

    let results = engine.query(query("x", "x")).expect("query should succeed");
    assert_eq!(results.len(), 3);
}

#[test]
fn write_and_query_returns_record() {
    let mut engine = InMemoryEngine::new(MemoryProviderKind::Structure);
    engine.write(record("ns-1", "hello")).unwrap();

    let results = engine.query(query("ns-1", "ns-1")).unwrap();
    assert_eq!(results.len(), 1);
    assert_eq!(results[0].content, "hello");
}

#[test]
fn in_memory_answers_are_labelled_by_kind() {
    let mut engine = InMemoryEngine::new(MemoryProviderKind::Episodic);
    engine.write(record("a", "one")).unwrap();
    engine.write(record("a", "two")).unwrap();
    let results = engine.query(query("anything", "")).unwrap();
    assert_eq!(results.len(), 2);
    assert_eq!(results[0].source, "Episodic");
    assert_eq!(results[0].engine_type, ContextEngineType::Graph);
    assert_eq!(results[0].score_bits, Some(FULL_SCORE_BITS));
    assert_eq!(results[0].score_bits, Some(1.0f32.to_bits()));
    let contents: Vec<&str> = results.iter().map(|s| s.content.as_str()).collect();
    assert_eq!(contents, vec!["one", "two"]);
}

#[test]
fn structural_in_memory_engine_reports_structural_source() {
    let mut engine = InMemoryEngine::new(MemoryProviderKind::Structure);
    engine.insert(record("n", "fact"));
    let results = engine.query(query("", "")).unwrap();
    assert_eq!(results[0].source, "Structural");
    assert_eq!(results[0].engine_type, ContextEngineType::Structure);
}

#[test]
fn in_memory_inserts_answer_each_content_once() {
    let mut engine = InMemoryEngine::new(MemoryProviderKind::Semantic);
    engine.insert(record("b", "two"));
    engine.insert(record("a", "one"));
    engine.insert(record("b", "three"));
    engine.insert(record("a", "one"));
    let results = engine.query(query("", "")).unwrap();
    let mut contents: Vec<&str> = results.iter().map(|s| s.content.as_str()).collect();
    contents.sort();
    assert_eq!(contents, vec!["one", "one", "three", "two"]);
    assert_eq!(engine.memory_type(), MemoryProviderKind::Semantic);
}

#[test]
fn grouped_engine_keeps_its_kind_over_writes() {
    let mut engine = GroupedEngine::new(MemoryProviderKind::Episodic);
    for i in 0..4 {
        engine.write(record("ns", &format!("c-{}", i))).unwrap();
        assert_eq!(engine.memory_type(), MemoryProviderKind::Episodic);
    }
    let results = engine.query(query("ns", "")).unwrap();
    assert_eq!(results.len(), 4);
    assert_eq!(engine.memory_type(), MemoryProviderKind::Episodic);
}

use recall_proxy::events::{
    CorrelationId, DeliveryMetadata, EventId, HandoffEnvelope, HandoffId, MemoryEngineType,
    SpanId, TraceContext, TraceId,
};

fn sample_trace() -> TraceContext {
    TraceContext {
        trace_id: TraceId::parse("trace-1").expect("trace id should be valid"),
        span_id: SpanId::parse("span-1").expect("span id should be valid"),
        correlation_id: CorrelationId::parse("corr-1").expect("correlation id should be valid"),
        causation_event_id: Some(EventId::parse("cause-1").expect("event id should be valid")),
        parent_span_id: Some(SpanId::parse("parent-1").expect("span id should be valid")),
    }
}

#[test]
fn id_types_reject_empty_values() {
    let err = EventId::parse("  ").expect_err("empty id should fail");
    assert_eq!(err.to_string(), "event_id must not be empty");
}

#[test]
fn delivery_metadata_sets_timestamp() {
    let metadata = DeliveryMetadata::new("gateway", MemoryEngineType::Temporal, 1)
        .expect("metadata should be valid");

    assert_eq!(metadata.producer, "gateway");
    assert!(metadata.produced_at_ms > 0);
    assert_eq!(metadata.target_engine, MemoryEngineType::Temporal);
}

#[test]
fn envelope_builds_dedupe_key_from_contract_fields() {
    let envelope = HandoffEnvelope::new(
        EventId::parse("evt-1").expect("event id should be valid"),
        HandoffId::parse("handoff-1").expect("handoff id should be valid"),
        "ingest.received",
        sample_trace(),
        DeliveryMetadata::new("gateway", MemoryEngineType::Structure, 2)
            .expect("metadata should be valid"),
        "payload",
    )
    .expect("envelope should be valid");

    assert_eq!(envelope.dedupe_key.as_str(), "handoff-1:ingest.received:evt-1");
}

#[test]
fn id_types_keep_their_value() {
    let id = HandoffId::parse("handoff-9").expect("id should be valid");
    assert_eq!(id.as_str(), "handoff-9");
    let err = SpanId::parse("").expect_err("empty span id should fail");
    assert_eq!(err.to_string(), "span_id must not be empty");
}

#[test]
fn delivery_metadata_rejects_blank_producer() {
    let err = DeliveryMetadata::new(" \t", MemoryEngineType::Graph, 0)
        .expect_err("blank producer should fail");
    assert_eq!(err.to_string(), "producer must not be empty");
}

#[test]
fn envelope_rejects_blank_event_type() {
    let err = HandoffEnvelope::new(
        EventId::parse("evt-2").expect("event id should be valid"),
        HandoffId::parse("handoff-2").expect("handoff id should be valid"),
        "   ",
        sample_trace(),
        DeliveryMetadata::new("gateway", MemoryEngineType::Semantic, 1)
            .expect("metadata should be valid"),
        42u32,
    )
    .expect_err("blank event type should fail");
    assert_eq!(err.to_string(), "event_type must not be empty");
}

#[test]
fn stamped_metadata_keeps_its_timestamp() {
    let metadata = DeliveryMetadata::stamped("gateway", MemoryEngineType::Temporal, 3, 1_234)
        .expect("metadata should be valid");
    assert_eq!(metadata.producer, "gateway");
    assert_eq!(metadata.produced_at_ms, 1_234);
    assert_eq!(metadata.target_engine, MemoryEngineType::Temporal);
    assert_eq!(metadata.attempt, 3);

    let err = DeliveryMetadata::stamped("  ", MemoryEngineType::Graph, 1, 5)
        .expect_err("blank producer should fail");
    assert_eq!(err.to_string(), "producer must not be empty");
}

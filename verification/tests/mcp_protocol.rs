use recall_proxy::context::ContextEngineType;
use recall_proxy::domain::EngineError;
use recall_proxy::mcp::handlers::{
    default_max_results, engine_type_name, gateway_records, ingest_kind, ingest_response,
    IngestRequest,
};
use recall_proxy::mcp::jsonrpc::{
    JsonRpcError, INVALID_PARAMS, INVALID_REQUEST, METHOD_NOT_FOUND, SERVER_ERROR,
};
use recall_proxy::gateway_types::ContextSnippet;
use recall_proxy::mcp::replies::{ingest_receipt, query_reply, server_description};
use recall_proxy::mcp::server::{
    backend_failure, result_engine_name, McpAction, McpParams, McpSession,
};
use recall_proxy::memory::MemoryProviderKind;

fn no_params() -> McpParams {
    McpParams {
        namespace: None,
        content: None,
        session_id: None,
        prompt: None,
        max_results: None,
    }
}

fn fail(code: i32, message: &str) -> McpAction {
    McpAction::Fail(JsonRpcError { code, message: message.to_string() })
}

#[test]
fn initialize_returns_server_info() {
    let mut session = McpSession::new();
    assert_eq!(session.next_action("initialize", None), McpAction::Describe);
    assert!(session.initialized());
}

#[test]
fn memory_ingest_routes_through_gateway() {
    let mut session = McpSession::new();
    session.next_action("initialize", None);
    let params = McpParams {
        namespace: Some("test-session".to_string()),
        content: Some("user preference: dark mode".to_string()),
        ..no_params()
    };
    assert_eq!(
        session.next_action("memory/ingest", Some(&params)),
        McpAction::Ingest {
            namespace: "test-session".to_string(),
            content: "user preference: dark mode".to_string(),
        }
    );
}

#[test]
fn memory_query_routes_through_gateway() {
    let mut session = McpSession::new();
    session.next_action("initialize", None);
    let params = McpParams {
        session_id: Some("test-session".to_string()),
        prompt: Some("what do we know?".to_string()),
        ..no_params()
    };
    assert_eq!(
        session.next_action("memory/query", Some(&params)),
        McpAction::Query {
            session_id: "test-session".to_string(),
            prompt: "what do we know?".to_string(),
            max_results: 10,
        }
    );
}

#[test]
fn memory_ingest_fails_before_initialize() {
    let mut session = McpSession::new();
    let params = McpParams {
        namespace: Some("test".to_string()),
        content: Some("data".to_string()),
        ..no_params()
    };
    let action = session.next_action("memory/ingest", Some(&params));
    assert_eq!(action, fail(INVALID_REQUEST, "server not initialized"));
    assert_eq!(INVALID_REQUEST, -32600);
    assert!(!session.initialized());
}

#[test]
fn unknown_method_returns_error() {
    let mut session = McpSession::new();
    let action = session.next_action("unknown/method", None);
    assert_eq!(action, fail(METHOD_NOT_FOUND, "Method not found: unknown/method"));
    assert_eq!(METHOD_NOT_FOUND, -32601);
}

#[test]
fn initialized_notification_is_acknowledged() {
    let mut session = McpSession::new();
    assert_eq!(session.next_action("initialized", None), McpAction::Acknowledge);
    assert!(!session.initialized());
}

#[test]
fn memory_query_fails_before_initialize() {
    let mut session = McpSession::new();
    let action = session.next_action("memory/query", None);
    assert_eq!(action, fail(INVALID_REQUEST, "server not initialized"));
}

#[test]
fn memory_methods_report_missing_parameters() {
    let mut session = McpSession::new();
    session.next_action("initialize", None);
    assert_eq!(session.next_action("memory/ingest", None), fail(INVALID_PARAMS, "missing params"));
    assert_eq!(
        session.next_action("memory/ingest", Some(&no_params())),
        fail(INVALID_PARAMS, "missing namespace")
    );
    let only_namespace = McpParams { namespace: Some("n".to_string()), ..no_params() };
    assert_eq!(
        session.next_action("memory/ingest", Some(&only_namespace)),
        fail(INVALID_PARAMS, "missing content")
    );
    assert_eq!(session.next_action("memory/query", None), fail(INVALID_PARAMS, "missing params"));
    assert_eq!(
        session.next_action("memory/query", Some(&no_params())),
        fail(INVALID_PARAMS, "missing session_id")
    );
    let only_session = McpParams { session_id: Some("s".to_string()), ..no_params() };
    assert_eq!(
        session.next_action("memory/query", Some(&only_session)),
        fail(INVALID_PARAMS, "missing prompt")
    );
    assert_eq!(INVALID_PARAMS, -32602);
}

#[test]
fn memory_query_takes_max_results_from_params() {
    let mut session = McpSession::new();
    session.next_action("initialize", None);
    let params = McpParams {
        session_id: Some("s".to_string()),
        prompt: Some("p".to_string()),
        max_results: Some(3),
        ..no_params()
    };
    assert_eq!(
        session.next_action("memory/query", Some(&params)),
        McpAction::Query { session_id: "s".to_string(), prompt: "p".to_string(), max_results: 3 }
    );
}

#[test]
fn backend_failures_are_server_errors() {
    let e = backend_failure("ingest", &EngineError::new("disk full"));
    assert_eq!(e.code, SERVER_ERROR);
    assert_eq!(e.code, -32000);
    assert_eq!(e.message, "ingest failed: disk full");
    let e = backend_failure("query", &EngineError::new("timeout"));
    assert_eq!(e.message, "query failed: timeout");
}

#[test]
fn result_engine_names_are_lowercase() {
    assert_eq!(result_engine_name(ContextEngineType::Structure), "structural");
    assert_eq!(result_engine_name(ContextEngineType::Temporal), "temporal");
    assert_eq!(result_engine_name(ContextEngineType::Semantic), "semantic");
    assert_eq!(result_engine_name(ContextEngineType::Graph), "graph");
}

#[test]
fn ingest_handler_picks_engine_and_records() {
    assert_eq!(ingest_kind("temporal"), MemoryProviderKind::Temporal);
    assert_eq!(ingest_kind("semantic"), MemoryProviderKind::Semantic);
    assert_eq!(ingest_kind("structural"), MemoryProviderKind::Structure);
    assert_eq!(ingest_kind(""), MemoryProviderKind::Structure);
    let request = IngestRequest {
        namespace: "ns".to_string(),
        content: "c".to_string(),
        engine: String::new(),
    };
    let (structural, temporal) = gateway_records(&request);
    assert_eq!(structural.namespace, "ns-structural");
    assert_eq!(temporal.namespace, "ns-temporal");
    assert_eq!(structural.content, "c");
    assert_eq!(temporal.content, "c");
    let response = ingest_response(MemoryProviderKind::Structure);
    assert_eq!(response.status, "ok");
    assert_eq!(response.engine, "Structural");
    assert_eq!(default_max_results(), 10);
    assert_eq!(engine_type_name(ContextEngineType::Structure), "Structural");
    assert_eq!(engine_type_name(ContextEngineType::Graph), "Graph");
}

#[test]
fn server_description_names_the_server() {
    let d = server_description();
    assert_eq!(d.protocol_version, "2025-03-26");
    assert_eq!(d.server_name, "recall-proxy-mcp-server");
    assert_eq!(d.server_version, "0.1.0");
    assert!(d.ingest && d.query);
}

#[test]
fn ingest_receipt_counts_content_bytes() {
    let r = ingest_receipt("test-session", "caf\u{e9}");
    assert_eq!(r.status, "accepted");
    assert_eq!(r.namespace, "test-session");
    assert_eq!(r.content_length, 5);
}

#[test]
fn query_reply_lists_each_snippet_with_its_engine_name() {
    let snippets = vec![
        ContextSnippet {
            source: "Temporal".to_string(),
            engine_type: ContextEngineType::Temporal,
            content: "event".to_string(),
            score_bits: Some(0.5f32.to_bits()),
        },
        ContextSnippet {
            source: "Structural".to_string(),
            engine_type: ContextEngineType::Structure,
            content: "fact".to_string(),
            score_bits: None,
        },
    ];
    let reply = query_reply("s-1", &snippets);
    assert_eq!(reply.session_id, "s-1");
    assert_eq!(reply.total, 2);
    assert_eq!(reply.results[0].engine_type, "temporal");
    assert_eq!(reply.results[0].content, "event");
    assert_eq!(reply.results[0].score_bits, Some(0.5f32.to_bits()));
    assert_eq!(reply.results[1].engine_type, "structural");
    assert_eq!(reply.results[1].source, "Structural");
    assert_eq!(reply.results[1].score_bits, None);
}

//! Decisions of the MCP server over JSON-RPC: which requests are served in
//! which session state, what their parameters must hold, and what error
//! answers a refused request.

use vstd::prelude::*;

use crate::context::ContextEngineType;
use crate::domain::EngineError;
use crate::mcp::jsonrpc::{
    JsonRpcError, INVALID_PARAMS, INVALID_REQUEST, METHOD_NOT_FOUND, SERVER_ERROR,
};

verus! {

/// The parameters of a request as far as the server reads them: each field is
/// present when the parameters hold that key with a value of the expected
/// JSON type (a string, or an unsigned integer for `max_results`).
#[derive(Debug, Clone, PartialEq, Eq)]
pub struct McpParams {
    pub namespace: Option<String>,
    pub content: Option<String>,
    pub session_id: Option<String>,
    pub prompt: Option<String>,
    pub max_results: Option<u64>,
}

/// What the server does with a request.
#[derive(Debug, Clone, PartialEq, Eq)]
pub enum McpAction {
    /// Answer with the server description.
    Describe,
    /// Answer with an empty object.
    Acknowledge,
    /// Hand the record to the gateway.
    Ingest { namespace: String, content: String },
    /// Ask the gateway for context.
    Query { session_id: String, prompt: String, max_results: usize },
    /// Answer with this error.
    Fail(JsonRpcError),
}

/// An `McpAction` as values.
pub enum ActionView {
    Describe,
    Acknowledge,
    Ingest(Seq<char>, Seq<char>),
    Query(Seq<char>, Seq<char>, usize),
    Fail(i32, Seq<char>),
}

impl View for McpAction {
    type V = ActionView;

    open spec fn view(&self) -> ActionView {
        match self {
            McpAction::Describe => ActionView::Describe,
            McpAction::Acknowledge => ActionView::Acknowledge,
            McpAction::Ingest { namespace, content } => ActionView::Ingest(namespace@, content@),
            McpAction::Query { session_id, prompt, max_results } => ActionView::Query(
                session_id@,
                prompt@,
                *max_results,
            ),
            McpAction::Fail(e) => ActionView::Fail(e.code, e.message@),
        }
    }
}

/// What `memory/ingest` does in a session and with these parameters.
pub open spec fn ingest_action(initialized: bool, params: Option<McpParams>) -> ActionView {
    if !initialized {
        ActionView::Fail(INVALID_REQUEST, "server not initialized"@)
    } else {
        match params {
            None => ActionView::Fail(INVALID_PARAMS, "missing params"@),
            Some(p) => match (p.namespace.deep_view(), p.content.deep_view()) {
                (None, _) => ActionView::Fail(INVALID_PARAMS, "missing namespace"@),
                (Some(_), None) => ActionView::Fail(INVALID_PARAMS, "missing content"@),
                (Some(n), Some(c)) => ActionView::Ingest(n, c),
            },
        }
    }
}

/// What `memory/query` does in a session and with these parameters; ten
/// results unless the parameters say otherwise.
pub open spec fn query_action(initialized: bool, params: Option<McpParams>) -> ActionView {
    if !initialized {
        ActionView::Fail(INVALID_REQUEST, "server not initialized"@)
    } else {
        match params {
            None => ActionView::Fail(INVALID_PARAMS, "missing params"@),
            Some(p) => match (p.session_id.deep_view(), p.prompt.deep_view()) {
                (None, _) => ActionView::Fail(INVALID_PARAMS, "missing session_id"@),
                (Some(_), None) => ActionView::Fail(INVALID_PARAMS, "missing prompt"@),
                (Some(s), Some(q)) => ActionView::Query(
                    s,
                    q,
                    match p.max_results {
                        Some(n) => n as usize,
                        None => 10usize,
                    },
                ),
            },
        }
    }
}

/// What the server does with a request of `method`.
pub open spec fn planned_action(initialized: bool, method: Seq<char>, params: Option<McpParams>) -> ActionView {
    if method == "initialize"@ {
        ActionView::Describe
    } else if method == "initialized"@ {
        ActionView::Acknowledge
    } else if method == "memory/ingest"@ {
        ingest_action(initialized, params)
    } else if method == "memory/query"@ {
        query_action(initialized, params)
    } else {
        ActionView::Fail(METHOD_NOT_FOUND, "Method not found: "@ + method)
    }
}

/// The protocol state of one client connection.
#[derive(Debug, Clone, PartialEq, Eq)]
pub struct McpSession {
    initialized: bool,
}

impl McpSession {
    /// Whether `initialize` has been received.
    pub closed spec fn is_initialized(&self) -> bool {
        self.initialized
    }

    /// A connection that has not been initialized.
    pub fn new() -> (s: Self)
        ensures
            !s.is_initialized(),
    {
        McpSession { initialized: false }
    }

    /// Whether `initialize` has been received.
    pub fn initialized(&self) -> (b: bool)
        ensures
            b == self.is_initialized(),
    {
        self.initialized
    }

    /// Decides what to do with a request. `initialize` opens the session; the
    /// memory methods are served only in an open session and with their
    /// required parameters.
    pub fn next_action(&mut self, method: &str, params: Option<&McpParams>) -> (a: McpAction)
        ensures
            final(self).is_initialized() == (old(self).is_initialized() || method@
                == "initialize"@),
            a@ == planned_action(
                old(self).is_initialized(),
                method@,
                match params {
                    Some(p) => Some(*p),
                    None => None,
                },
            ),
    {
        if crate::text::same_text(method, "initialize") {
            self.initialized = true;
            McpAction::Describe
        } else if crate::text::same_text(method, "initialized") {
            McpAction::Acknowledge
        } else if crate::text::same_text(method, "memory/ingest") {
            Self::ingest_action(self.initialized, params)
        } else if crate::text::same_text(method, "memory/query") {
            Self::query_action(self.initialized, params)
        } else {
            let mut message = String::from_str("Method not found: ");
            message.append(method);
            McpAction::Fail(JsonRpcError { code: METHOD_NOT_FOUND, message })
        }
    }

    fn ingest_action(initialized: bool, params: Option<&McpParams>) -> (a: McpAction)
        ensures
            a@ == ingest_action(
                initialized,
                match params {
                    Some(p) => Some(*p),
                    None => None,
                },
            ),
    {
        if !initialized {
            return McpAction::Fail(JsonRpcError::new(INVALID_REQUEST, "server not initialized"));
        }
        match params {
            None => McpAction::Fail(JsonRpcError::new(INVALID_PARAMS, "missing params")),
            Some(p) => match (&p.namespace, &p.content) {
                (None, _) => McpAction::Fail(JsonRpcError::new(INVALID_PARAMS, "missing namespace")),
                (Some(_), None) => McpAction::Fail(
                    JsonRpcError::new(INVALID_PARAMS, "missing content"),
                ),
                (Some(n), Some(c)) => McpAction::Ingest { namespace: n.clone(), content: c.clone() },
            },
        }
    }

    fn query_action(initialized: bool, params: Option<&McpParams>) -> (a: McpAction)
        ensures
            a@ == query_action(
                initialized,
                match params {
                    Some(p) => Some(*p),
                    None => None,
                },
            ),
    {
        if !initialized {
            return McpAction::Fail(JsonRpcError::new(INVALID_REQUEST, "server not initialized"));
        }
        match params {
            None => McpAction::Fail(JsonRpcError::new(INVALID_PARAMS, "missing params")),
            Some(p) => match (&p.session_id, &p.prompt) {
                (None, _) => McpAction::Fail(
                    JsonRpcError::new(INVALID_PARAMS, "missing session_id"),
                ),
                (Some(_), None) => McpAction::Fail(JsonRpcError::new(INVALID_PARAMS, "missing prompt")),
                (Some(s), Some(q)) => {
                    let max_results: usize = match p.max_results {
                        Some(n) => n as usize,
                        None => 10,
                    };
                    McpAction::Query { session_id: s.clone(), prompt: q.clone(), max_results }
                },
            },
        }
    }
}

/// The error answering a request whose memory operation failed.
pub fn backend_failure(operation: &str, error: &EngineError) -> (e: JsonRpcError)
    ensures
        e.code == SERVER_ERROR,
        e.message@ == operation@ + " failed: "@ + error@,
{
    let mut message = String::from_str(operation);
    message.append(" failed: ");
    message.append(error.to_string().as_str());
    JsonRpcError { code: SERVER_ERROR, message }
}

/// Name of an engine type in `memory/query` results.
pub open spec fn result_engine_label(t: ContextEngineType) -> Seq<char> {
    match t {
        ContextEngineType::Structure => "structural"@,
        ContextEngineType::Temporal => "temporal"@,
        ContextEngineType::Semantic => "semantic"@,
        ContextEngineType::Graph => "graph"@,
    }
}

/// Name of an engine type in `memory/query` results.
pub fn result_engine_name(t: ContextEngineType) -> (s: &'static str)
    ensures
        s@ == result_engine_label(t),
{
    match t {
        ContextEngineType::Structure => "structural",
        ContextEngineType::Temporal => "temporal",
        ContextEngineType::Semantic => "semantic",
        ContextEngineType::Graph => "graph",
    }
}

/// Before `initialize`, both memory methods are refused as invalid requests,
/// whatever their parameters.
pub proof fn lemma_memory_methods_need_initialize(method: Seq<char>, params: Option<McpParams>)
    requires
        method == "memory/ingest"@ || method == "memory/query"@,
    ensures
        planned_action(false, method, params) == ActionView::Fail(
            INVALID_REQUEST,
            "server not initialized"@,
        ),
{
    reveal_strlit("memory/ingest");
    reveal_strlit("memory/query");
    reveal_strlit("initialize");
    reveal_strlit("initialized");
    assert(method.len() != "initialize"@.len());
    assert(method.len() != "initialized"@.len());
}

} // verus!

//! What the MCP methods answer on success, as values the transport serializes.

use vstd::prelude::*;

use crate::gateway_types::{snippet_views, ContextSnippet, SnippetView};
use crate::mcp::server::{result_engine_label, result_engine_name};

verus! {

/// What `initialize` answers: the protocol version, the server's name and
/// version, and the memory methods it offers.
pub struct ServerDescription {
    pub protocol_version: String,
    pub server_name: String,
    pub server_version: String,
    pub ingest: bool,
    pub query: bool,
}

pub fn server_description() -> (d: ServerDescription)
    ensures
        d.protocol_version@ == "2025-03-26"@,
        d.server_name@ == "recall-proxy-mcp-server"@,
        d.server_version@ == "0.1.0"@,
        d.ingest,
        d.query,
{
    ServerDescription {
        protocol_version: String::from_str("2025-03-26"),
        server_name: String::from_str("recall-proxy-mcp-server"),
        server_version: String::from_str("0.1.0"),
        ingest: true,
        query: true,
    }
}

/// What `memory/ingest` answers once the gateway took the record.
pub struct IngestReceipt {
    pub status: String,
    pub namespace: String,
    /// Length of the content in UTF-8 bytes.
    pub content_length: usize,
}

pub fn ingest_receipt(namespace: &str, content: &str) -> (r: IngestReceipt)
    ensures
        r.status@ == "accepted"@,
        r.namespace@ == namespace@,
        r.content_length == vstd::utf8::encode_utf8(content@).len() as usize,
{
    IngestReceipt {
        status: String::from_str("accepted"),
        namespace: String::from_str(namespace),
        content_length: content.len(),
    }
}

/// One result of `memory/query`: a snippet with its engine named for the wire.
pub struct QueryResult {
    pub source: String,
    pub engine_type: String,
    pub content: String,
    pub score_bits: Option<u32>,
}

pub struct QueryResultView {
    pub source: Seq<char>,
    pub engine_type: Seq<char>,
    pub content: Seq<char>,
    pub score_bits: Option<u32>,
}

impl View for QueryResult {
    type V = QueryResultView;

    open spec fn view(&self) -> QueryResultView {
        QueryResultView {
            source: self.source@,
            engine_type: self.engine_type@,
            content: self.content@,
            score_bits: self.score_bits,
        }
    }
}

pub open spec fn result_of(s: SnippetView) -> QueryResultView {
    QueryResultView {
        source: s.source,
        engine_type: result_engine_label(s.engine_type),
        content: s.content,
        score_bits: s.score_bits,
    }
}

/// What `memory/query` answers: the session asked for, one result per snippet
/// in the gateway's order, and their number.
pub struct QueryReply {
    pub session_id: String,
    pub results: Vec<QueryResult>,
    pub total: usize,
}

pub fn query_reply(session_id: &str, snippets: &Vec<ContextSnippet>) -> (r: QueryReply)
    ensures
        r.session_id@ == session_id@,
        r.results@.map_values(|q: QueryResult| q@) == snippet_views(snippets@).map_values(
            |s: SnippetView| result_of(s),
        ),
        r.total == snippets@.len(),
{
    let mut results: Vec<QueryResult> = Vec::new();
    let mut i: usize = 0;
    while i < snippets.len()
        invariant
            i <= snippets.len(),
            results@.len() == i,
            forall|j: int| 0 <= j < i ==> #[trigger] results@[j]@ == result_of(snippets@[j]@),
        decreases snippets.len() - i,
    {
        let s = &snippets[i];
        results.push(
            QueryResult {
                source: s.source.clone(),
                engine_type: String::from_str(result_engine_name(s.engine_type)),
                content: s.content.clone(),
                score_bits: s.score_bits,
            },
        );
        i = i + 1;
    }
    proof {
        assert(results@.map_values(|q: QueryResult| q@) =~= snippet_views(snippets@).map_values(
            |s: SnippetView| result_of(s),
        ));
    }
    let total = results.len();
    QueryReply { session_id: String::from_str(session_id), results, total }
}

} // verus!

//! The MCP server's engines and request handling.

pub mod engine;
pub mod engines;
pub mod handlers;
pub mod jsonrpc;
pub mod replies;
pub mod server;
pub mod state;

//! Engine implementations backing the MCP server.

pub mod in_memory_engine;

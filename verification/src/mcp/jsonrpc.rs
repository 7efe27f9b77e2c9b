//! JSON-RPC 2.0 error values and the codes the server answers with.

use vstd::prelude::*;

verus! {

/// The request is not valid in the server's current state.
pub const INVALID_REQUEST: i32 = -32600i32;

/// The method does not exist.
pub const METHOD_NOT_FOUND: i32 = -32601i32;

/// The parameters are missing or malformed.
pub const INVALID_PARAMS: i32 = -32602i32;

/// The method was valid but the memory backend failed.
pub const SERVER_ERROR: i32 = -32000i32;

/// The error member of a JSON-RPC response.
#[derive(Debug, Clone, PartialEq, Eq)]
pub struct JsonRpcError {
    pub code: i32,
    pub message: String,
}

impl JsonRpcError {
    /// An error with the given code and message.
    pub fn new(code: i32, message: &str) -> (e: Self)
        ensures
            e.code == code,
            e.message@ == message@,
    {
        JsonRpcError { code, message: message.to_owned() }
    }
}

} // verus!

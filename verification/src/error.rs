//! Provider-facing error taxonomy with retryability hints.

use vstd::prelude::*;

use crate::text::concat2;

verus! {

/// What can go wrong when talking to a memory provider.
#[derive(Debug, Clone, PartialEq, Eq)]
pub enum ProviderError {
    InvalidRequest(String),
    Unauthorized,
    NotFound,
    Timeout,
    ResourceExhausted(String),
    Unavailable(String),
    Internal(String),
}

/// Result of a provider call.
pub type ProviderResult<T> = Result<T, ProviderError>;

impl ProviderError {
    /// Transient failures, worth another attempt.
    pub open spec fn spec_is_retryable(&self) -> bool {
        self is Timeout || self is Unavailable || self is ResourceExhausted
    }

    /// The human-readable message of an error.
    pub open spec fn message(&self) -> Seq<char> {
        match self {
            ProviderError::InvalidRequest(msg) => "invalid request: "@ + msg@,
            ProviderError::Unauthorized => "unauthorized"@,
            ProviderError::NotFound => "not found"@,
            ProviderError::Timeout => "timeout"@,
            ProviderError::ResourceExhausted(msg) => "resource exhausted: "@ + msg@,
            ProviderError::Unavailable(msg) => "temporarily unavailable: "@ + msg@,
            ProviderError::Internal(msg) => "internal provider error: "@ + msg@,
        }
    }

    pub fn is_retryable(&self) -> (r: bool)
        ensures
            r == self.spec_is_retryable(),
    {
        match self {
            ProviderError::Timeout | ProviderError::Unavailable(_)
            | ProviderError::ResourceExhausted(_) => true,
            _ => false,
        }
    }

    /// The error rendered as text.
    pub fn to_string(&self) -> (s: String)
        ensures
            s@ == self.message(),
    {
        match self {
            ProviderError::InvalidRequest(msg) => concat2("invalid request: ", msg.as_str()),
            ProviderError::Unauthorized => "unauthorized".to_owned(),
            ProviderError::NotFound => "not found".to_owned(),
            ProviderError::Timeout => "timeout".to_owned(),
            ProviderError::ResourceExhausted(msg) => concat2("resource exhausted: ", msg.as_str()),
            ProviderError::Unavailable(msg) => concat2("temporarily unavailable: ", msg.as_str()),
            ProviderError::Internal(msg) => concat2("internal provider error: ", msg.as_str()),
        }
    }
}

} // verus!

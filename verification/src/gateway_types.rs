//! Types exchanged between the unified gateway and its context engines.

use vstd::prelude::*;

use crate::context::ContextEngineType;

pub use crate::domain::{EngineError, MemoryQuery};

verus! {

/// A snippet returned by a context engine, scored by the `f32` whose bits are `score_bits`.
#[derive(Debug, Clone, PartialEq)]
pub struct ContextSnippet {
    pub source: String,
    pub engine_type: ContextEngineType,
    pub content: String,
    pub score_bits: Option<u32>,
}

/// A snippet as values: where it came from, which engine, its text and score bits.
pub struct SnippetView {
    pub source: Seq<char>,
    pub engine_type: ContextEngineType,
    pub content: Seq<char>,
    pub score_bits: Option<u32>,
}

impl View for ContextSnippet {
    type V = SnippetView;

    open spec fn view(&self) -> SnippetView {
        SnippetView {
            source: self.source@,
            engine_type: self.engine_type,
            content: self.content@,
            score_bits: self.score_bits,
        }
    }
}

/// The views of a run of snippets.
pub open spec fn snippet_views(snippets: Seq<ContextSnippet>) -> Seq<SnippetView> {
    snippets.map_values(|s: ContextSnippet| s@)
}

} // verus!

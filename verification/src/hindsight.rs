//! Background hindsight processing: the job handed to the worker.

use vstd::prelude::*;

use crate::config::ProviderConfig;

verus! {

/// A job for the background worker: the provider it concerns and the raw
/// content to extract from.
#[derive(Debug, Clone, PartialEq, Eq)]
pub struct HindsightJob {
    pub provider: ProviderConfig,
    pub raw_content: String,
}

/// The worker's entry point.
#[derive(Debug, Clone, Copy, PartialEq, Eq)]
pub struct WorkerRuntime;

impl WorkerRuntime {
    /// Accepts a job. Extraction is not wired yet: the job is consumed and
    /// nothing else changes.
    pub fn process(&self, _job: HindsightJob) {
    }
}

} // verus!

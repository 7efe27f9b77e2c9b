//! Capture of streamed response chunks, in strictly contiguous order.

use std::time::SystemTime;

use vstd::prelude::*;
use vstd::string::StringExecFns;

use super::finalization::{FinalizedResponse, FinishReason};

verus! {

/// One streamed piece of a response.
#[derive(Debug, Clone, PartialEq, Eq)]
pub struct ChunkEvent {
    pub sequence: u64,
    pub delta: String,
    pub received_at: SystemTime,
}

/// The text of a run of chunks, in order.
pub open spec fn joined_deltas(chunks: Seq<ChunkEvent>) -> Seq<char>
    decreases chunks.len(),
{
    if chunks.len() == 0 {
        Seq::empty()
    } else {
        joined_deltas(chunks.drop_last()) + chunks.last().delta@
    }
}

/// Chunks numbered by their position: the `i`-th chunk carries sequence `i`.
pub open spec fn contiguous(chunks: Seq<ChunkEvent>) -> bool {
    forall|i: int| 0 <= i < chunks.len() ==> #[trigger] chunks[i].sequence == i
}

/// Accumulates the chunks of one streamed response.
#[derive(Debug, Clone, PartialEq, Eq)]
pub struct ChunkCapture {
    pub response_id: String,
    pub started_at: SystemTime,
    chunks: Vec<ChunkEvent>,
}

/// A chunk arrived out of order.
#[derive(Debug, Clone, PartialEq, Eq, Structural)]
pub struct ChunkOrderingError {
    pub expected_next: u64,
    pub received: u64,
}

impl ChunkCapture {
    /// The chunks captured so far.
    pub closed spec fn captured(&self) -> Seq<ChunkEvent> {
        self.chunks@
    }

    /// The response the chunks belong to.
    pub closed spec fn id(&self) -> String {
        self.response_id
    }

    /// When the stream started.
    pub closed spec fn start(&self) -> SystemTime {
        self.started_at
    }

    /// Captured chunks are numbered 0, 1, 2, ... in arrival order.
    pub closed spec fn wf(&self) -> bool {
        contiguous(self.chunks@)
    }

    /// A well-formed capture holds chunks numbered 0, 1, 2, ... in order: no
    /// gaps, no duplicates, no reordering.
    pub proof fn lemma_chunks_numbered(&self)
        requires
            self.wf(),
        ensures
            contiguous(self.captured()),
            forall|i: int| 0 <= i < self.captured().len() ==> #[trigger] self.captured()[i].sequence == i,
    {
    }

    pub fn new(response_id: &str, started_at: SystemTime) -> (c: Self)
        ensures
            c.id()@ == response_id@,
            c.start() == started_at,
            c.captured() == Seq::<ChunkEvent>::empty(),
            c.wf(),
    {
        Self { response_id: String::from_str(response_id), started_at, chunks: Vec::new() }
    }

    /// Accepts the chunk numbered `sequence` only when it is the next one expected.
    pub fn push_chunk(&mut self, sequence: u64, delta: &str, received_at: SystemTime) -> (r: Result<
        (),
        ChunkOrderingError,
    >)
        requires
            old(self).wf(),
        ensures
            final(self).wf(),
            final(self).id() == old(self).id(),
            final(self).start() == old(self).start(),
            sequence == old(self).captured().len() ==> {
                &&& r is Ok
                &&& final(self).captured().len() == old(self).captured().len() + 1
                &&& final(self).captured().drop_last() == old(self).captured()
                &&& final(self).captured().last().sequence == sequence
                &&& final(self).captured().last().delta@ == delta@
                &&& final(self).captured().last().received_at == received_at
            },
            sequence != old(self).captured().len() ==> {
                &&& r == Err::<(), ChunkOrderingError>(
                    ChunkOrderingError {
                        expected_next: old(self).captured().len() as u64,
                        received: sequence,
                    },
                )
                &&& final(self).captured() == old(self).captured()
            },
    {
        let expected_next = self.chunks.len() as u64;
        if sequence != expected_next {
            return Err(ChunkOrderingError { expected_next, received: sequence });
        }
        let ghost before = self.chunks@;
        self.chunks.push(ChunkEvent { sequence, delta: String::from_str(delta), received_at });
        proof {
            assert(self.chunks@.drop_last() =~= before);
            assert forall|i: int| 0 <= i < self.chunks@.len() implies #[trigger] self.chunks@[i].sequence
                == i by {
                if i < before.len() {
                    assert(self.chunks@[i] == before[i]);
                }
            }
        }
        Ok(())
    }

    /// A copy of the response identifier.
    pub fn response_id(&self) -> (id: String)
        ensures
            id == self.id(),
    {
        self.response_id.clone()
    }

    pub fn started_at(&self) -> (t: SystemTime)
        ensures
            t == self.start(),
    {
        self.started_at
    }

    pub fn chunks(&self) -> (r: &[ChunkEvent])
        ensures
            r@ == self.captured(),
    {
        self.chunks.as_slice()
    }

    /// The response text so far: the deltas joined in order.
    pub fn assembled_text(&self) -> (text: String)
        ensures
            text@ == joined_deltas(self.captured()),
    {
        let mut text = String::new();
        let mut i: usize = 0;
        proof {
            assert(self.chunks@.take(0) =~= Seq::<ChunkEvent>::empty());
        }
        while i < self.chunks.len()
            invariant
                i <= self.chunks.len(),
                text@ == joined_deltas(self.chunks@.take(i as int)),
            decreases self.chunks.len() - i,
        {
            text.append(self.chunks[i].delta.as_str());
            proof {
                assert(self.chunks@.take(i + 1).drop_last() =~= self.chunks@.take(i as int));
            }
            i = i + 1;
        }
        proof {
            assert(self.chunks@.take(self.chunks@.len() as int) =~= self.chunks@);
        }
        text
    }

    /// Closes the capture into an immutable finalized response.
    pub fn finalize(self, completed_at: SystemTime, finish_reason: FinishReason) -> (f:
        FinalizedResponse)
        ensures
            f.response_id == self.id(),
            f.content@ == joined_deltas(self.captured()),
            f.chunk_count == self.captured().len(),
            f.started_at == self.start(),
            f.completed_at == completed_at,
            f.finish_reason == finish_reason,
    {
        FinalizedResponse::from_capture(self, completed_at, finish_reason)
    }
}

/// Accepting the next chunk extends the response text by exactly its delta.
pub proof fn lemma_next_chunk_extends_text(before: Seq<ChunkEvent>, after: Seq<ChunkEvent>)
    requires
        after.len() == before.len() + 1,
        after.drop_last() == before,
    ensures
        joined_deltas(after) == joined_deltas(before) + after.last().delta@,
{
}

} // verus!

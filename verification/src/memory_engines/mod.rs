//! In-memory memory engines, one per memory class: episodic, semantic,
//! temporal and structural.

pub mod episodic;
pub mod semantic;
pub mod structural;
pub mod temporal;



pub use episodic::{EpisodicEngine, EpisodicEngineConfig};
pub use semantic::{SemanticEngine, SemanticEngineConfig};
pub use structural::{StructuralEngine, StructuralEngineConfig};
pub use temporal::{TemporalEngine, TemporalEngineConfig};


use vstd::prelude::*;

use crate::gateway_types::{EngineError, SnippetView};
use crate::text::same_text;

verus! {

/// Message of the error an engine answers when the instant it needs (the system
/// clock's reading, or a cutoff before it) lies outside the range of dates it
/// can represent.
pub open spec fn clock_error_message() -> Seq<char> {
    "instant outside the representable range"@
}

pub fn clock_error() -> (e: EngineError)
    ensures
        e@ == clock_error_message(),
{
    EngineError::new("instant outside the representable range")
}

/// The answers among the first `k` candidates, in order.
pub open spec fn kept(cands: Seq<Option<SnippetView>>, k: int) -> Seq<SnippetView>
    decreases k,
{
    if k <= 0 || k > cands.len() {
        Seq::empty()
    } else {
        let r = kept(cands, k - 1);
        match cands[k - 1] {
            Some(s) => r.push(s),
            None => r,
        }
    }
}

/// Candidates scanned in order, stopping after the first candidate at which the
/// answer holds `max` snippets or more.
pub open spec fn capped_from(cands: Seq<Option<SnippetView>>, max: int, k: int) -> Seq<SnippetView>
    decreases cands.len() - k,
{
    if k >= cands.len() {
        kept(cands, cands.len() as int)
    } else if kept(cands, k + 1).len() >= max {
        kept(cands, k + 1)
    } else {
        capped_from(cands, max, k + 1)
    }
}

pub open spec fn capped(cands: Seq<Option<SnippetView>>, max: int) -> Seq<SnippetView> {
    capped_from(cands, max, 0)
}

/// Later prefixes of the candidates keep the answers of earlier ones in front.
proof fn lemma_kept_grows(cands: Seq<Option<SnippetView>>, a: int, b: int)
    requires
        0 <= a <= b <= cands.len(),
    ensures
        kept(cands, a).len() <= kept(cands, b).len(),
        kept(cands, b).take(kept(cands, a).len() as int) == kept(cands, a),
    decreases b - a,
{
    if a < b {
        lemma_kept_grows(cands, a, b - 1);
        let ka = kept(cands, a);
        let kb1 = kept(cands, b - 1);
        match cands[b - 1] {
            Some(s) => {
                assert(kept(cands, b) == kb1.push(s));
                assert(kb1.push(s).take(ka.len() as int) =~= kb1.take(ka.len() as int));
            },
            None => {},
        }
    }
}

/// The capped answer is the answers of some prefix of at least `k + 1` candidates.
proof fn lemma_capped_from_is_kept(cands: Seq<Option<SnippetView>>, max: int, k: int) -> (j: int)
    requires
        0 <= k < cands.len(),
    ensures
        k + 1 <= j <= cands.len(),
        capped_from(cands, max, k) == kept(cands, j),
    decreases cands.len() - k,
{
    if kept(cands, k + 1).len() >= max {
        k + 1
    } else if k + 1 >= cands.len() {
        assert(capped_from(cands, max, k + 1) == kept(cands, cands.len() as int));
        cands.len() as int
    } else {
        lemma_capped_from_is_kept(cands, max, k + 1)
    }
}

/// When the first candidate is an answer and at least one is asked for, it is
/// the first answer given.
pub proof fn lemma_first_candidate_answers_first(cands: Seq<Option<SnippetView>>, max: int, s: SnippetView)
    requires
        cands.len() > 0,
        cands[0] == Some(s),
    ensures
        capped(cands, max).len() >= 1,
        capped(cands, max)[0] == s,
{
    let j = lemma_capped_from_is_kept(cands, max, 0);
    lemma_kept_grows(cands, 1, j);
    assert(kept(cands, 0) == Seq::<SnippetView>::empty());
    assert(kept(cands, 1) == seq![s]);
    assert(kept(cands, j).take(1)[0] == kept(cands, j)[0]);
}

proof fn lemma_kept_all(cands: Seq<Option<SnippetView>>, k: int)
    requires
        0 <= k <= cands.len(),
        forall|i: int| 0 <= i < cands.len() ==> (#[trigger] cands[i]) is Some,
    ensures
        kept(cands, k) == Seq::new(k as nat, |i: int| cands[i]->0),
    decreases k,
{
    if k > 0 {
        lemma_kept_all(cands, k - 1);
        assert(kept(cands, k) =~= Seq::new(k as nat, |i: int| cands[i]->0));
    } else {
        assert(kept(cands, k) =~= Seq::new(k as nat, |i: int| cands[i]->0));
    }
}

proof fn lemma_capped_from_all(cands: Seq<Option<SnippetView>>, max: int, k: int)
    requires
        0 <= k <= cands.len(),
        max >= cands.len(),
        forall|i: int| 0 <= i < cands.len() ==> (#[trigger] cands[i]) is Some,
    ensures
        capped_from(cands, max, k) == kept(cands, cands.len() as int),
    decreases cands.len() - k,
{
    if k < cands.len() {
        lemma_kept_all(cands, k + 1);
        lemma_capped_from_all(cands, max, k + 1);
    }
}

/// When every candidate is an answer and the cap covers them all, the answer
/// is all of them, in order.
pub proof fn lemma_capped_keeps_all(cands: Seq<Option<SnippetView>>, max: int)
    requires
        max >= cands.len(),
        forall|i: int| 0 <= i < cands.len() ==> (#[trigger] cands[i]) is Some,
    ensures
        capped(cands, max) == Seq::new(cands.len(), |i: int| cands[i]->0),
{
    lemma_capped_from_all(cands, max, 0);
    lemma_kept_all(cands, cands.len() as int);
}

/// Index of the first of the newest `max` among `n` writes.
pub open spec fn newest_start(n: int, max: int) -> int {
    if n > max {
        n - max
    } else {
        0
    }
}

/// A keyed list of positions, keys in first-use order.
pub type PositionIndex = Seq<(Seq<char>, Seq<usize>)>;

pub open spec fn distinct_keys(index: PositionIndex) -> bool {
    forall|i: int, j: int|
        0 <= i < index.len() && 0 <= j < index.len() && i != j ==> #[trigger] index[i].0
            != #[trigger] index[j].0
}

pub open spec fn has_key(index: PositionIndex, key: Seq<char>) -> bool {
    exists|i: int| 0 <= i < index.len() && #[trigger] index[i].0 == key
}

pub open spec fn key_index(index: PositionIndex, key: Seq<char>) -> int {
    choose|i: int| 0 <= i < index.len() && #[trigger] index[i].0 == key
}

/// `position` appended to the list under `key` (a new last key when absent).
pub open spec fn with_position(index: PositionIndex, key: Seq<char>, position: usize) -> PositionIndex {
    if has_key(index, key) {
        let i = key_index(index, key);
        index.update(i, (key, index[i].1.push(position)))
    } else {
        index.push((key, seq![position]))
    }
}

/// The positions listed under `key`, none when the key is absent.
pub open spec fn positions_of(index: PositionIndex, key: Seq<char>) -> Seq<usize> {
    if has_key(index, key) {
        index[key_index(index, key)].1
    } else {
        Seq::empty()
    }
}

/// Appends `position` under `key` in an exec index.
pub fn push_position(index: &mut Vec<(String, Vec<usize>)>, key: &str, position: usize)
    requires
        distinct_keys(index_view(old(index)@)),
    ensures
        distinct_keys(index_view(final(index)@)),
        index_view(final(index)@) == with_position(index_view(old(index)@), key@, position),
{
    let ghost v0 = index_view(index@);
    let ghost before = index@;
    let mut i: usize = 0;
    while i < index.len()
        invariant
            i <= index.len(),
            index@ == before,
            old(index)@ == before,
            v0 == index_view(before),
            distinct_keys(v0),
            forall|j: int| 0 <= j < i ==> #[trigger] v0[j].0 != key@,
        decreases index.len() - i,
    {
        if same_text(index[i].0.as_str(), key) {
            index[i].1.push(position);
            proof {
                assert(v0[i as int].0 == key@);
                assert(has_key(v0, key@));
                assert(key_index(v0, key@) == i);
                assert forall|j: int| 0 <= j < index@.len() implies #[trigger] index_view(index@)[j]
                    == with_position(v0, key@, position)[j] by {
                    if j != i {
                        assert(index@[j] == before[j]);
                    }
                }
                assert(index_view(index@) =~= with_position(v0, key@, position));
            }
            return;
        }
        i = i + 1;
    }
    let mut positions: Vec<usize> = Vec::new();
    positions.push(position);
    index.push((key.to_owned(), positions));
    proof {
        assert(positions@ =~= seq![position]);
        assert forall|j: int| 0 <= j < index@.len() implies #[trigger] index_view(index@)[j]
            == with_position(v0, key@, position)[j] by {
            if j < before.len() {
                assert(index@[j] == before[j]);
            }
        }
        assert(index_view(index@) =~= with_position(v0, key@, position));
    }
}

/// An exec index as values.
pub open spec fn index_view(index: Seq<(String, Vec<usize>)>) -> PositionIndex {
    index.map_values(|e: (String, Vec<usize>)| (e.0@, e.1@))
}

} // verus!

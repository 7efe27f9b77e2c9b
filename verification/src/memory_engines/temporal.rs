//! Temporal memory engine: a timeline of records keyed by the instant they were
//! written, answered newest first.

use vstd::prelude::*;

use crate::clock::{earlier, is_earlier, utc_now, Stamp};
use crate::context::ContextEngineType;
use crate::gateway_types::{snippet_views, ContextSnippet, EngineError, MemoryQuery, SnippetView};
use crate::mcp::engines::in_memory_engine::FULL_SCORE_BITS;
use crate::memory::MemoryProviderKind;
use crate::memory_engines::{
    clock_error, clock_error_message, capped, capped_from, kept, lemma_capped_keeps_all, lemma_first_candidate_answers_first, newest_start,
};
use crate::text::{contains, contains_text, lemma_contains_itself, lemma_contains_prefix};
use crate::MemoryRecord;

verus! {

/// Configuration of the temporal engine.
#[derive(Debug, Clone)]
pub struct TemporalEngineConfig {
    /// Maximum number of entries kept; the oldest are pruned first.
    pub max_entries: usize,
    /// Whether time-range filtering is enabled.
    pub enable_time_filtering: bool,
}

impl Default for TemporalEngineConfig {
    fn default() -> (c: Self)
        ensures
            c.max_entries == 100000,
            c.enable_time_filtering,
    {
        Self { max_entries: 100000, enable_time_filtering: true }
    }
}

/// A timeline entry.
#[derive(Debug)]
struct TemporalEntry {
    record: MemoryRecord,
    event_type: String,
}

/// A timeline entry as values.
pub struct TimelineEntry {
    pub at: Stamp,
    pub namespace: Seq<char>,
    pub content: Seq<char>,
    pub event_type: Seq<char>,
}

/// Records filed under a namespace naming transcripts or events are classed as such.
pub open spec fn event_type_for(namespace: Seq<char>) -> Seq<char> {
    if contains_text(namespace, "transcript"@) {
        "transcript"@
    } else if contains_text(namespace, "event"@) {
        "event"@
    } else {
        "memory"@
    }
}

/// The entry a record becomes when written at `at`.
pub open spec fn entry_at(at: Stamp, namespace: Seq<char>, content: Seq<char>) -> TimelineEntry {
    TimelineEntry { at, namespace, content, event_type: event_type_for(namespace) }
}

/// Entries strictly ordered by instant, oldest first.
pub open spec fn chronological(entries: Seq<TimelineEntry>) -> bool {
    forall|i: int, j: int|
        0 <= i < j < entries.len() ==> earlier(#[trigger] entries[i].at, #[trigger] entries[j].at)
}

/// `p` is where an entry stamped `at` belongs: after every earlier entry.
pub open spec fn is_insertion_point(entries: Seq<TimelineEntry>, at: Stamp, p: int) -> bool {
    &&& 0 <= p <= entries.len()
    &&& forall|j: int| 0 <= j < p ==> earlier(#[trigger] entries[j].at, at)
    &&& p < entries.len() ==> !earlier(entries[p].at, at)
}

pub open spec fn insertion_point(entries: Seq<TimelineEntry>, at: Stamp) -> int {
    choose|p: int| is_insertion_point(entries, at, p)
}

/// The timeline with `e` in its place; an entry at the same instant is replaced.
pub open spec fn placed(entries: Seq<TimelineEntry>, e: TimelineEntry) -> Seq<TimelineEntry> {
    let p = insertion_point(entries, e.at);
    if p < entries.len() && entries[p].at == e.at {
        entries.update(p, e)
    } else {
        entries.insert(p, e)
    }
}

/// The newest `max` entries.
pub open spec fn pruned(entries: Seq<TimelineEntry>, max: int) -> Seq<TimelineEntry> {
    if entries.len() > max {
        entries.skip(entries.len() - max)
    } else {
        entries
    }
}

pub open spec fn entry_matches(e: TimelineEntry, session: Seq<char>) -> bool {
    session.len() == 0 || contains_text(e.namespace, session) || contains_text(session, e.namespace)
}

pub open spec fn timeline_snippet(e: TimelineEntry) -> SnippetView {
    SnippetView {
        source: e.namespace,
        engine_type: ContextEngineType::Temporal,
        content: e.content,
        score_bits: Some(FULL_SCORE_BITS),
    }
}

/// Entries newest first, each an answer when it matches the session.
pub open spec fn timeline_candidates(entries: Seq<TimelineEntry>, session: Seq<char>) -> Seq<
    Option<SnippetView>,
> {
    Seq::new(
        entries.len(),
        |k: int|
            {
                let e = entries[entries.len() - 1 - k];
                if entry_matches(e, session) {
                    Some(timeline_snippet(e))
                } else {
                    None
                }
            },
    )
}

proof fn lemma_insertion_point_unique(entries: Seq<TimelineEntry>, at: Stamp, p: int, q: int)
    requires
        is_insertion_point(entries, at, p),
        is_insertion_point(entries, at, q),
    ensures
        p == q,
{
    if p < q {
        assert(earlier(entries[p].at, at));
    }
    if q < p {
        assert(earlier(entries[q].at, at));
    }
}

proof fn lemma_placed_chronological(entries: Seq<TimelineEntry>, e: TimelineEntry, p: int)
    requires
        chronological(entries),
        is_insertion_point(entries, e.at, p),
    ensures
        insertion_point(entries, e.at) == p,
        chronological(placed(entries, e)),
{
    lemma_insertion_point_unique(entries, e.at, insertion_point(entries, e.at), p);
    let r = placed(entries, e);
    if p < entries.len() && entries[p].at == e.at {
        assert forall|i: int, j: int| 0 <= i < j < r.len() implies earlier(
            #[trigger] r[i].at,
            #[trigger] r[j].at,
        ) by {
            assert(r[i].at == entries[i].at);
            assert(r[j].at == entries[j].at);
        }
    } else {
        assert forall|i: int, j: int| 0 <= i < j < r.len() implies earlier(
            #[trigger] r[i].at,
            #[trigger] r[j].at,
        ) by {
            if j < p {
                assert(r[i] == entries[i]);
                assert(r[j] == entries[j]);
            } else if j == p {
                assert(r[i] == entries[i]);
            } else if i < p {
                assert(r[i] == entries[i]);
                assert(r[j] == entries[j - 1]);
                assert(earlier(entries[i].at, e.at));
                assert(!earlier(entries[p].at, e.at));
                if p < j - 1 {
                    assert(earlier(entries[p].at, entries[j - 1].at));
                }
            } else if i == p {
                assert(r[j] == entries[j - 1]);
                assert(!earlier(entries[p].at, e.at));
                if p < j - 1 {
                    assert(earlier(entries[p].at, entries[j - 1].at));
                }
            } else {
                assert(r[i] == entries[i - 1]);
                assert(r[j] == entries[j - 1]);
            }
        }
    }
}

/// In-memory temporal engine.
pub struct TemporalEngine {
    config: TemporalEngineConfig,
    store: Vec<(Stamp, TemporalEntry)>,
}

impl TemporalEngine {
    pub closed spec fn settings(&self) -> TemporalEngineConfig {
        self.config
    }

    /// The timeline, oldest first.
    pub closed spec fn timeline(&self) -> Seq<TimelineEntry> {
        self.store@.map_values(
            |e: (Stamp, TemporalEntry)|
                TimelineEntry {
                    at: e.0,
                    namespace: e.1.record.namespace@,
                    content: e.1.record.content@,
                    event_type: e.1.event_type@,
                },
        )
    }

    /// The timeline is strictly ordered and within its bound.
    pub closed spec fn wf(&self) -> bool {
        &&& chronological(self.timeline())
        &&& self.store@.len() <= self.config.max_entries
    }

    pub fn new(config: TemporalEngineConfig) -> (e: Self)
        ensures
            e.wf(),
            e.settings() == config,
            e.timeline() == Seq::<TimelineEntry>::empty(),
    {
        let e = Self { config, store: Vec::new() };
        proof {
            assert(e.timeline() =~= Seq::<TimelineEntry>::empty());
        }
        e
    }

    pub fn with_default_config() -> (e: Self)
        ensures
            e.wf(),
            e.settings().max_entries == 100000,
            e.settings().enable_time_filtering,
            e.timeline() == Seq::<TimelineEntry>::empty(),
    {
        Self::new(TemporalEngineConfig::default())
    }

    /// Drops the oldest entries until at most `max_entries` remain.
    fn prune(&mut self)
        requires
            chronological(old(self).timeline()),
        ensures
            final(self).wf(),
            final(self).settings() == old(self).settings(),
            final(self).timeline() == pruned(
                old(self).timeline(),
                old(self).settings().max_entries as int,
            ),
    {
        let ghost t0 = self.timeline();
        let ghost max = self.config.max_entries as int;
        let ghost mut dropped: int = 0;
        while self.store.len() > self.config.max_entries
            invariant
                t0.len() > max ==> 0 <= dropped <= t0.len() - max,
                t0.len() <= max ==> dropped == 0,
                max == self.config.max_entries as int,
                self.settings() == old(self).settings(),
                self.timeline() == t0.skip(dropped),
                self.store@.len() == t0.len() - dropped,
                chronological(t0),
            decreases self.store.len(),
        {
            let ghost before = self.store@;
            let ghost tl = self.timeline();
            self.store.remove(0);
            proof {
                assert(self.store@ == before.remove(0));
                assert(self.timeline() =~= tl.drop_first());
                dropped = dropped + 1;
                assert(self.timeline() =~= t0.skip(dropped));
            }
        }
        proof {
            assert(t0.skip(0) =~= t0);
            assert forall|i: int, j: int| 0 <= i < j < self.timeline().len() implies earlier(
                #[trigger] self.timeline()[i].at,
                #[trigger] self.timeline()[j].at,
            ) by {
                assert(self.timeline()[i] == t0[i + dropped]);
                assert(self.timeline()[j] == t0[j + dropped]);
            }
        }
    }

    pub fn memory_type(&self) -> (k: MemoryProviderKind)
        ensures
            k == MemoryProviderKind::Temporal,
    {
        MemoryProviderKind::Temporal
    }

    /// Puts the record on the timeline at the current instant (see `write_at`).
    /// Fails, leaving the engine as it was, only when the system clock reads
    /// outside the range of dates chrono represents.
    pub fn write(&mut self, record: MemoryRecord) -> (r: Result<(), EngineError>)
        requires
            old(self).wf(),
        ensures
            final(self).wf(),
            final(self).settings() == old(self).settings(),
            final(self).timeline().len() <= final(self).settings().max_entries,
            chronological(final(self).timeline()),
            match r {
                Ok(()) => exists|at: Stamp|
                    final(self).timeline() == pruned(
                        placed(
                            old(self).timeline(),
                            #[trigger] entry_at(at, record.namespace@, record.content@),
                        ),
                        old(self).settings().max_entries as int,
                    ),
                Err(e) => e@ == clock_error_message() && final(self).timeline() == old(
                    self,
                ).timeline(),
            },
    {
        match utc_now() {
            Some(at) => {
                self.write_at(record, at);
                Ok(())
            },
            None => Err(clock_error()),
        }
    }

    /// Puts the record on the timeline at `timestamp` (replacing an entry at the
    /// very same instant), then prunes to `max_entries`.
    pub fn write_at(&mut self, record: MemoryRecord, timestamp: Stamp)
        requires
            old(self).wf(),
        ensures
            final(self).wf(),
            final(self).settings() == old(self).settings(),
            final(self).timeline().len() <= final(self).settings().max_entries,
            chronological(final(self).timeline()),
            final(self).timeline() == pruned(
                placed(old(self).timeline(), entry_at(timestamp, record.namespace@, record.content@)),
                old(self).settings().max_entries as int,
            ),
    {
        let event_type = if contains(record.namespace.as_str(), "transcript") {
            "transcript".to_owned()
        } else if contains(record.namespace.as_str(), "event") {
            "event".to_owned()
        } else {
            "memory".to_owned()
        };
        let ghost t0 = self.timeline();
        let ghost e = TimelineEntry {
            at: timestamp,
            namespace: record.namespace@,
            content: record.content@,
            event_type: event_type@,
        };
        let entry = TemporalEntry { record, event_type };
        let mut p: usize = 0;
        while p < self.store.len() && is_earlier(self.store[p].0, timestamp)
            invariant
                p <= self.store.len(),
                t0 == self.timeline(),
                forall|j: int| 0 <= j < p ==> earlier(#[trigger] t0[j].at, timestamp),
            decreases self.store.len() - p,
        {
            p = p + 1;
        }
        proof {
            lemma_placed_chronological(t0, e, p as int);
        }
        let ghost before = self.store@;
        if p < self.store.len() && self.store[p].0.0 == timestamp.0 && self.store[p].0.1
            == timestamp.1 {
            self.store.set(p, (timestamp, entry));
            proof {
                assert(self.timeline() =~= placed(t0, e));
            }
        } else {
            self.store.insert(p, (timestamp, entry));
            proof {
                assert(self.timeline() =~= placed(t0, e));
            }
        }
        self.prune();
        proof {
            assert(e == entry_at(timestamp, e.namespace, e.content));
            assert(self.timeline() == pruned(
                placed(t0, e),
                self.config.max_entries as int,
            ));
        }
    }

    /// Timeline entries newest first that match the query's session; the scan
    /// stops once `max_results` answers are gathered (checked after each entry).
    /// Never fails.
    pub fn query(&self, query: MemoryQuery) -> (r: Result<Vec<ContextSnippet>, EngineError>)
        ensures
            r matches Ok(snippets) && snippet_views(snippets@) == capped(
                timeline_candidates(self.timeline(), query.session_id@),
                query.max_results as int,
            ),
    {
        let ghost cands = timeline_candidates(self.timeline(), query.session_id@);
        let ghost max = query.max_results as int;
        let n = self.store.len();
        let mut results: Vec<ContextSnippet> = Vec::new();
        let mut k: usize = 0;
        proof {
            assert(snippet_views(results@) =~= Seq::<SnippetView>::empty());
        }
        while k < n
            invariant
                n == self.store@.len(),
                cands == timeline_candidates(self.timeline(), query.session_id@),
                max == query.max_results as int,
                k <= n,
                snippet_views(results@) == kept(cands, k as int),
                capped(cands, max) == capped_from(cands, max, k as int),
            decreases n - k,
        {
            let entry = &self.store[n - 1 - k].1;
            let ns = entry.record.namespace.as_str();
            let session = query.session_id.as_str();
            let ghost prev = results@;
            if session.is_empty() || contains(ns, session) || contains(session, ns) {
                results.push(
                    ContextSnippet {
                        source: entry.record.namespace.clone(),
                        engine_type: ContextEngineType::Temporal,
                        content: entry.record.content.clone(),
                        score_bits: Some(FULL_SCORE_BITS),
                    },
                );
                proof {
                    assert(snippet_views(results@) =~= snippet_views(prev).push(
                        cands[k as int]->0,
                    ));
                }
            } else {
                proof {
                    assert(cands[k as int] is None);
                }
            }
            proof {
                assert(snippet_views(results@) == kept(cands, k + 1));
            }
            if results.len() >= query.max_results {
                return Ok(results);
            }
            k = k + 1;
        }
        Ok(results)
    }
}

/// A record written at an instant later than every entry of the timeline is the
/// first answer to a query for its namespace, while the engine keeps at least
/// one entry.
pub proof fn lemma_newest_write_answers_first(
    entries: Seq<TimelineEntry>,
    at: Stamp,
    namespace: Seq<char>,
    content: Seq<char>,
    max_entries: int,
    max_results: int,
)
    requires
        forall|i: int| 0 <= i < entries.len() ==> earlier(#[trigger] entries[i].at, at),
        max_entries >= 1,
    ensures
        ({
            let e = entry_at(at, namespace, content);
            let answer = capped(
                timeline_candidates(pruned(placed(entries, e), max_entries), namespace),
                max_results,
            );
            answer.len() >= 1 && answer[0] == timeline_snippet(e)
        }),
{
    let e = entry_at(at, namespace, content);
    assert(is_insertion_point(entries, at, entries.len() as int));
    lemma_insertion_point_unique(entries, at, insertion_point(entries, at), entries.len() as int);
    let all = placed(entries, e);
    assert(all == entries.push(e));
    let kept_entries = pruned(all, max_entries);
    assert(kept_entries.len() >= 1 && kept_entries.last() == e);
    lemma_contains_itself(namespace);
    let cands = timeline_candidates(kept_entries, namespace);
    assert(cands[0] == Some(timeline_snippet(e)));
    lemma_first_candidate_answers_first(cands, max_results, timeline_snippet(e));
}

/// The `k`-th newest entry answers a query exactly when its namespace contains
/// the query's session id or is contained in it (every entry answers an empty
/// session id); it answers with its content, from its namespace.
pub proof fn lemma_entry_answers_by_containment(entries: Seq<TimelineEntry>, session: Seq<char>, k: int)
    requires
        0 <= k < entries.len(),
    ensures
        ({
            let e = entries[entries.len() - 1 - k];
            let related = session.len() == 0 || contains_text(e.namespace, session) || contains_text(
                session,
                e.namespace,
            );
            &&& related ==> timeline_candidates(entries, session)[k] == Some(timeline_snippet(e))
            &&& !related ==> timeline_candidates(entries, session)[k] is None
        }),
{
}

/// A record written at an instant later than every entry is the first answer to
/// every query whose session id its namespace contains, or that contains its
/// namespace, while the engine keeps at least one entry.
pub proof fn lemma_newest_write_answers_related_sessions(
    entries: Seq<TimelineEntry>,
    at: Stamp,
    namespace: Seq<char>,
    content: Seq<char>,
    session: Seq<char>,
    max_entries: int,
    max_results: int,
)
    requires
        forall|i: int| 0 <= i < entries.len() ==> earlier(#[trigger] entries[i].at, at),
        max_entries >= 1,
        contains_text(namespace, session) || contains_text(session, namespace),
    ensures
        ({
            let e = entry_at(at, namespace, content);
            let answer = capped(
                timeline_candidates(pruned(placed(entries, e), max_entries), session),
                max_results,
            );
            answer.len() >= 1 && answer[0] == timeline_snippet(e)
        }),
{
    let e = entry_at(at, namespace, content);
    assert(is_insertion_point(entries, at, entries.len() as int));
    lemma_insertion_point_unique(entries, at, insertion_point(entries, at), entries.len() as int);
    let all = placed(entries, e);
    assert(all == entries.push(e));
    let kept_entries = pruned(all, max_entries);
    assert(kept_entries.len() >= 1 && kept_entries.last() == e);
    let cands = timeline_candidates(kept_entries, session);
    assert(cands[0] == Some(timeline_snippet(e)));
    lemma_first_candidate_answers_first(cands, max_results, timeline_snippet(e));
}

/// A record filed under `{session}-temporal` (as the MCP ingest files it) at an
/// instant later than every entry is the first answer to a query for `session`.
pub proof fn lemma_ingested_entry_answers_its_session(
    entries: Seq<TimelineEntry>,
    at: Stamp,
    session: Seq<char>,
    content: Seq<char>,
    max_entries: int,
    max_results: int,
)
    requires
        forall|i: int| 0 <= i < entries.len() ==> earlier(#[trigger] entries[i].at, at),
        max_entries >= 1,
    ensures
        ({
            let e = entry_at(at, session + "-temporal"@, content);
            let answer = capped(
                timeline_candidates(pruned(placed(entries, e), max_entries), session),
                max_results,
            );
            answer.len() >= 1 && answer[0] == timeline_snippet(e) && answer[0].source == session
                + "-temporal"@
        }),
{
    lemma_contains_prefix(session, "-temporal"@);
    lemma_newest_write_answers_related_sessions(
        entries,
        at,
        session + "-temporal"@,
        content,
        session,
        max_entries,
        max_results,
    );
}

/// The timeline after a run of writes, each `(instant, namespace, content)`
/// placed by its instant and the oldest pruned beyond `max_entries` (as `write_at`
/// does).
pub open spec fn timeline_after_writes(
    entries: Seq<TimelineEntry>,
    writes: Seq<(Stamp, Seq<char>, Seq<char>)>,
    max_entries: int,
) -> Seq<TimelineEntry>
    decreases writes.len(),
{
    if writes.len() == 0 {
        entries
    } else {
        let before = timeline_after_writes(entries, writes.drop_last(), max_entries);
        let w = writes.last();
        pruned(placed(before, entry_at(w.0, w.1, w.2)), max_entries)
    }
}

/// A run of writes into an empty temporal engine, at strictly increasing
/// instants, keeps one entry per write for the last `max_entries` writes,
/// oldest first: only the oldest are pruned.
pub proof fn lemma_writes_keep_newest_entries(
    writes: Seq<(Stamp, Seq<char>, Seq<char>)>,
    max_entries: int,
)
    requires
        max_entries >= 1,
        forall|i: int, j: int|
            0 <= i < j < writes.len() ==> earlier(#[trigger] writes[i].0, #[trigger] writes[j].0),
    ensures
        timeline_after_writes(Seq::empty(), writes, max_entries) == writes.skip(
            newest_start(writes.len() as int, max_entries),
        ).map_values(|w: (Stamp, Seq<char>, Seq<char>)| entry_at(w.0, w.1, w.2)),
    decreases writes.len(),
{
    let n = writes.len() as int;
    if n > 0 {
        let prev = writes.drop_last();
        assert forall|i: int, j: int| 0 <= i < j < prev.len() implies earlier(
            #[trigger] prev[i].0,
            #[trigger] prev[j].0,
        ) by {
            assert(prev[i] == writes[i] && prev[j] == writes[j]);
        }
        lemma_writes_keep_newest_entries(prev, max_entries);
        let s0 = newest_start(n - 1, max_entries);
        let s1 = newest_start(n, max_entries);
        let before = timeline_after_writes(Seq::empty(), prev, max_entries);
        let w = writes.last();
        let e = entry_at(w.0, w.1, w.2);
        assert(before.len() == n - 1 - s0);
        assert forall|k: int| 0 <= k < before.len() implies earlier(#[trigger] before[k].at, w.0) by {
            assert(before[k].at == writes[s0 + k].0);
        }
        assert(is_insertion_point(before, w.0, before.len() as int));
        lemma_insertion_point_unique(before, w.0, insertion_point(before, w.0), before.len() as int);
        assert(placed(before, e) == before.push(e));
        let target = writes.skip(s1).map_values(
            |x: (Stamp, Seq<char>, Seq<char>)| entry_at(x.0, x.1, x.2),
        );
        if before.len() + 1 > max_entries {
            assert(s1 == s0 + 1);
            assert(before.push(e).skip(before.len() + 1 - max_entries) =~= target);
        } else {
            assert(s0 == 0 && s1 == 0);
            assert(before.push(e) =~= target);
        }
    } else {
        assert(writes.skip(0).map_values(|x: (Stamp, Seq<char>, Seq<char>)| entry_at(x.0, x.1, x.2))
            =~= Seq::<TimelineEntry>::empty());
    }
}

/// A query with an empty session id reaches every entry; when its cap covers
/// them all, the answer is every entry, newest first.
pub proof fn lemma_empty_session_answers_newest_first(entries: Seq<TimelineEntry>, max_results: int)
    requires
        max_results >= entries.len(),
    ensures
        capped(timeline_candidates(entries, Seq::empty()), max_results) == Seq::new(
            entries.len(),
            |i: int| timeline_snippet(entries[entries.len() - 1 - i]),
        ),
{
    let cands = timeline_candidates(entries, Seq::empty());
    assert forall|i: int| 0 <= i < cands.len() implies (#[trigger] cands[i]) is Some by {
        assert(entry_matches(entries[entries.len() - 1 - i], Seq::empty()));
    }
    lemma_capped_keeps_all(cands, max_results);
    assert(Seq::new(cands.len(), |i: int| cands[i]->0) =~= Seq::new(
        entries.len(),
        |i: int| timeline_snippet(entries[entries.len() - 1 - i]),
    ));
}

/// After a run of writes into an empty temporal engine at strictly increasing
/// instants, a query with an empty session id whose cap covers the writes answers
/// with the entries of the last `max_entries` writes, newest first.
pub proof fn lemma_run_answers_newest_entries_first(
    writes: Seq<(Stamp, Seq<char>, Seq<char>)>,
    max_entries: int,
    max_results: int,
)
    requires
        max_entries >= 1,
        max_results >= writes.len(),
        forall|i: int, j: int|
            0 <= i < j < writes.len() ==> earlier(#[trigger] writes[i].0, #[trigger] writes[j].0),
    ensures
        ({
            let n = writes.len() as int;
            let entries = timeline_after_writes(Seq::empty(), writes, max_entries);
            capped(timeline_candidates(entries, Seq::empty()), max_results) == Seq::new(
                (n - newest_start(n, max_entries)) as nat,
                |i: int|
                    timeline_snippet(
                        entry_at(writes[n - 1 - i].0, writes[n - 1 - i].1, writes[n - 1 - i].2),
                    ),
            )
        }),
{
    let n = writes.len() as int;
    let entries = timeline_after_writes(Seq::empty(), writes, max_entries);
    lemma_writes_keep_newest_entries(writes, max_entries);
    lemma_empty_session_answers_newest_first(entries, max_results);
    assert(Seq::new(entries.len(), |i: int| timeline_snippet(entries[entries.len() - 1 - i]))
        =~= Seq::new(
        (n - newest_start(n, max_entries)) as nat,
        |i: int|
            timeline_snippet(
                entry_at(writes[n - 1 - i].0, writes[n - 1 - i].1, writes[n - 1 - i].2),
            ),
    ));
}

} // verus!

//! Episodic memory engine: records grouped by session, each session bounded in
//! size, entries older than a maximum age pruned before every query.

use vstd::prelude::*;

use crate::clock::{earlier, is_earlier, minutes_before, utc_minutes_before, utc_now, Stamp, NANOS_PER_SEC};
use crate::memory_engines::{clock_error, clock_error_message};
use crate::context::ContextEngineType;
use crate::gateway_types::{snippet_views, ContextSnippet, EngineError, MemoryQuery, SnippetView};
use crate::memory::MemoryProviderKind;
use crate::text::{before_first, contains, contains_text, first_piece};
use crate::MemoryRecord;

verus! {

/// Configuration of the episodic engine.
#[derive(Debug, Clone)]
pub struct EpisodicEngineConfig {
    /// Maximum age of entries, in minutes, before they are pruned.
    pub max_age_minutes: u64,
    /// Maximum number of entries per session; the oldest makes room for a new one.
    pub max_entries_per_session: usize,
}

impl Default for EpisodicEngineConfig {
    fn default() -> (c: Self)
        ensures
            c.max_age_minutes == 1440,
            c.max_entries_per_session == 10000,
    {
        Self { max_age_minutes: 1440, max_entries_per_session: 10000 }
    }
}

/// A stored episode.
#[derive(Debug)]
struct EpisodicEntry {
    record: MemoryRecord,
    created_at: Stamp,
    session_id: String,
}

/// An episode as values: when it was written and what it holds.
pub struct EpisodeView {
    pub at: Stamp,
    pub content: Seq<char>,
}

pub open spec fn episode(at: Stamp, content: Seq<char>) -> EpisodeView {
    EpisodeView { at, content }
}

/// Sessions as values: `(session id, episodes oldest first)`, each id once.
pub type Sessions = Seq<(Seq<char>, Seq<EpisodeView>)>;

/// The session a namespace belongs to: the part before its first `:`.
pub open spec fn session_key(namespace: Seq<char>) -> Seq<char> {
    before_first(namespace, ':')
}

pub open spec fn distinct_sessions(sessions: Sessions) -> bool {
    forall|i: int, j: int|
        0 <= i < sessions.len() && 0 <= j < sessions.len() && i != j ==> #[trigger] sessions[i].0
            != #[trigger] sessions[j].0
}

/// No session holds more than `max` episodes.
pub open spec fn sessions_within(sessions: Sessions, max: int) -> bool {
    forall|i: int| 0 <= i < sessions.len() ==> (#[trigger] sessions[i]).1.len() <= max
}

pub open spec fn has_session(sessions: Sessions, id: Seq<char>) -> bool {
    exists|i: int| 0 <= i < sessions.len() && #[trigger] sessions[i].0 == id
}

pub open spec fn session_index(sessions: Sessions, id: Seq<char>) -> int {
    choose|i: int| 0 <= i < sessions.len() && #[trigger] sessions[i].0 == id
}

/// The sessions after recording `episode` under `id`, evicting the session's
/// oldest episode when it already holds `max` or more.
pub open spec fn recorded(sessions: Sessions, id: Seq<char>, episode: EpisodeView, max: int) -> Sessions {
    if has_session(sessions, id) {
        let i = session_index(sessions, id);
        let episodes = sessions[i].1;
        let room = if episodes.len() >= max {
            episodes.drop_first()
        } else {
            episodes
        };
        sessions.update(i, (id, room.push(episode)))
    } else {
        sessions.push((id, seq![episode]))
    }
}

/// Episodes written at or after `cutoff`.
pub open spec fn since(episodes: Seq<EpisodeView>, cutoff: Stamp) -> Seq<EpisodeView>
    decreases episodes.len(),
{
    if episodes.len() == 0 {
        Seq::empty()
    } else {
        let rest = since(episodes.drop_last(), cutoff);
        if earlier(episodes.last().at, cutoff) {
            rest
        } else {
            rest.push(episodes.last())
        }
    }
}

/// Sessions with their episodes older than `cutoff` pruned; emptied sessions dropped.
pub open spec fn pruned_sessions(sessions: Sessions, cutoff: Stamp) -> Sessions
    decreases sessions.len(),
{
    if sessions.len() == 0 {
        Seq::empty()
    } else {
        let rest = pruned_sessions(sessions.drop_last(), cutoff);
        let kept = since(sessions.last().1, cutoff);
        if kept.len() > 0 {
            rest.push((sessions.last().0, kept))
        } else {
            rest
        }
    }
}

/// Pruning at `cutoff` leaves no episode written before it, and keeps every
/// episode written at or after it, in its session and in order.
pub proof fn lemma_pruning_keeps_exactly_the_recent(sessions: Sessions, cutoff: Stamp)
    ensures
        forall|i: int, k: int|
            0 <= i < pruned_sessions(sessions, cutoff).len() && 0 <= k < pruned_sessions(
                sessions,
                cutoff,
            )[i].1.len() ==> !earlier(
                (#[trigger] pruned_sessions(sessions, cutoff)[i].1[k]).at,
                cutoff,
            ),
        forall|i: int|
            0 <= i < sessions.len() ==> #[trigger] since(sessions[i].1, cutoff).len() == 0
                || pruned_sessions(sessions, cutoff).contains((sessions[i].0, since(sessions[i].1, cutoff))),
    decreases sessions.len(),
{
    if sessions.len() > 0 {
        let d = sessions.drop_last();
        lemma_pruning_keeps_exactly_the_recent(d, cutoff);
        lemma_since_recent(sessions.last().1, cutoff);
        let rest = pruned_sessions(d, cutoff);
        let out = pruned_sessions(sessions, cutoff);
        assert forall|i: int, k: int|
            0 <= i < out.len() && 0 <= k < out[i].1.len() implies !earlier(
                (#[trigger] out[i].1[k]).at,
                cutoff,
            ) by {
            if i < rest.len() {
                assert(out[i] == rest[i]);
            }
        }
        assert forall|i: int|
            0 <= i < sessions.len() implies #[trigger] since(sessions[i].1, cutoff).len() == 0
                || out.contains((sessions[i].0, since(sessions[i].1, cutoff))) by {
            if i < d.len() {
                assert(d[i] == sessions[i]);
                if since(d[i].1, cutoff).len() > 0 {
                    let m = choose|m: int| 0 <= m < rest.len() && rest[m] == (d[i].0, since(d[i].1, cutoff));
                    assert(out[m] == rest[m]);
                }
            } else if since(sessions[i].1, cutoff).len() > 0 {
                assert(out[rest.len() as int] == (sessions[i].0, since(sessions[i].1, cutoff)));
            }
        }
    }
}

proof fn lemma_since_recent(episodes: Seq<EpisodeView>, cutoff: Stamp)
    ensures
        forall|k: int|
            0 <= k < since(episodes, cutoff).len() ==> !earlier(
                (#[trigger] since(episodes, cutoff)[k]).at,
                cutoff,
            ),
    decreases episodes.len(),
{
    if episodes.len() > 0 {
        lemma_since_recent(episodes.drop_last(), cutoff);
        let rest = since(episodes.drop_last(), cutoff);
        assert forall|k: int| 0 <= k < since(episodes, cutoff).len() implies !earlier(
            (#[trigger] since(episodes, cutoff)[k]).at,
            cutoff,
        ) by {
            if k < rest.len() {
                assert(since(episodes, cutoff)[k] == rest[k]);
            }
        }
    }
}

/// A query for `query_session` reaches sessions whose id contains it.
pub open spec fn session_matches(id: Seq<char>, query_session: Seq<char>) -> bool {
    query_session.len() == 0 || id == query_session || contains_text(id, query_session)
}

pub open spec fn episode_snippet(id: Seq<char>, e: EpisodeView) -> SnippetView {
    SnippetView { source: id, engine_type: ContextEngineType::Graph, content: e.content, score_bits: None }
}

/// Episodes of matching sessions, session by session, at most `max` in all.
pub open spec fn recalled(sessions: Sessions, query_session: Seq<char>, max: int) -> Seq<SnippetView>
    decreases sessions.len(),
{
    if sessions.len() == 0 {
        Seq::empty()
    } else {
        let r = recalled(sessions.drop_last(), query_session, max);
        let s = sessions.last();
        if session_matches(s.0, query_session) {
            let room = max - r.len();
            let n = if room < s.1.len() {
                room
            } else {
                s.1.len() as int
            };
            r + s.1.take(n).map_values(|e: EpisodeView| episode_snippet(s.0, e))
        } else {
            r
        }
    }
}

proof fn lemma_recalled_bounded(sessions: Sessions, query_session: Seq<char>, max: int)
    requires
        max >= 0,
    ensures
        recalled(sessions, query_session, max).len() <= max,
    decreases sessions.len(),
{
    if sessions.len() > 0 {
        lemma_recalled_bounded(sessions.drop_last(), query_session, max);
    }
}

proof fn lemma_session_key_colon(namespace: Seq<char>)
    ensures
        !contains_text(namespace, ":"@) ==> session_key(namespace) == namespace,
{
    reveal_strlit(":");
    if exists|i: int| 0 <= i < namespace.len() && namespace[i] == ':' {
        let i = choose|i: int| 0 <= i < namespace.len() && namespace[i] == ':';
        assert(namespace.subrange(i, i + 1) =~= ":"@);
    }
}

spec fn episodes_of(entries: Seq<EpisodicEntry>) -> Seq<EpisodeView> {
    entries.map_values(|e: EpisodicEntry| EpisodeView { at: e.created_at, content: e.record.content@ })
}

spec fn sessions_of(store: Seq<(String, Vec<EpisodicEntry>)>) -> Sessions {
    store.map_values(|s: (String, Vec<EpisodicEntry>)| (s.0@, episodes_of(s.1@)))
}

proof fn lemma_since_len(episodes: Seq<EpisodeView>, cutoff: Stamp)
    ensures
        since(episodes, cutoff).len() <= episodes.len(),
    decreases episodes.len(),
{
    if episodes.len() > 0 {
        lemma_since_len(episodes.drop_last(), cutoff);
    }
}

proof fn lemma_pruned_sessions_within(sessions: Sessions, cutoff: Stamp, max: int)
    requires
        sessions_within(sessions, max),
    ensures
        sessions_within(pruned_sessions(sessions, cutoff), max),
    decreases sessions.len(),
{
    if sessions.len() > 0 {
        let d = sessions.drop_last();
        assert forall|i: int| 0 <= i < d.len() implies (#[trigger] d[i]).1.len() <= max by {
            assert(d[i] == sessions[i]);
        }
        lemma_pruned_sessions_within(d, cutoff, max);
        lemma_since_len(sessions.last().1, cutoff);
        let rest = pruned_sessions(d, cutoff);
        let p = pruned_sessions(sessions, cutoff);
        assert forall|i: int| 0 <= i < p.len() implies (#[trigger] p[i]).1.len() <= max by {
            if i < rest.len() {
                assert(p[i] == rest[i]);
            }
        }
    }
}

proof fn lemma_pruned_sessions_keys(sessions: Sessions, cutoff: Stamp)
    ensures
        forall|i: int|
            0 <= i < pruned_sessions(sessions, cutoff).len() ==> exists|j: int|
                0 <= j < sessions.len() && #[trigger] sessions[j].0 == #[trigger] pruned_sessions(
                    sessions,
                    cutoff,
                )[i].0,
        distinct_sessions(sessions) ==> distinct_sessions(pruned_sessions(sessions, cutoff)),
    decreases sessions.len(),
{
    if sessions.len() > 0 {
        let d = sessions.drop_last();
        lemma_pruned_sessions_keys(d, cutoff);
        let rest = pruned_sessions(d, cutoff);
        let p = pruned_sessions(sessions, cutoff);
        assert forall|i: int| 0 <= i < p.len() implies exists|j: int|
            0 <= j < sessions.len() && #[trigger] sessions[j].0 == #[trigger] p[i].0 by {
            if i < rest.len() {
                assert(p[i] == rest[i]);
                let j = choose|j: int| 0 <= j < d.len() && #[trigger] d[j].0 == rest[i].0;
                assert(sessions[j] == d[j]);
            } else {
                assert(sessions[sessions.len() - 1].0 == p[i].0);
            }
        }
        if distinct_sessions(sessions) {
            assert(distinct_sessions(d)) by {
                assert forall|a: int, b: int|
                    0 <= a < d.len() && 0 <= b < d.len() && a != b implies #[trigger] d[a].0
                    != #[trigger] d[b].0 by {
                    assert(d[a] == sessions[a]);
                    assert(d[b] == sessions[b]);
                }
            }
            assert forall|i: int, j: int|
                0 <= i < p.len() && 0 <= j < p.len() && i != j implies #[trigger] p[i].0
                != #[trigger] p[j].0 by {
                if i < rest.len() && j < rest.len() {
                    assert(p[i] == rest[i]);
                    assert(p[j] == rest[j]);
                } else if i >= rest.len() {
                    assert(p[j] == rest[j]);
                    let b = choose|b: int| 0 <= b < d.len() && #[trigger] d[b].0 == rest[j].0;
                    assert(sessions[b] == d[b]);
                    assert(sessions[sessions.len() - 1].0 != sessions[b].0);
                } else {
                    assert(p[i] == rest[i]);
                    let b = choose|b: int| 0 <= b < d.len() && #[trigger] d[b].0 == rest[i].0;
                    assert(sessions[b] == d[b]);
                    assert(sessions[sessions.len() - 1].0 != sessions[b].0);
                }
            }
        }
    }
}

/// The last episode of a run survives a cutoff it is not older than.
proof fn lemma_since_keeps_last(episodes: Seq<EpisodeView>, cutoff: Stamp)
    requires
        episodes.len() > 0,
        !earlier(episodes.last().at, cutoff),
    ensures
        since(episodes, cutoff).len() > 0,
        since(episodes, cutoff).last() == episodes.last(),
{
}

/// When `key` is the only session id that can match the query, recalling the
/// pruned sessions gives the unexpired episodes of `key`, up to `max`.
proof fn lemma_recall_of_sole_session(
    sessions: Sessions,
    cutoff: Stamp,
    query_session: Seq<char>,
    max: int,
    key: Seq<char>,
)
    requires
        distinct_sessions(sessions),
        max >= 0,
        session_matches(key, query_session),
        forall|k: int|
            0 <= k < sessions.len() && (#[trigger] sessions[k]).0 != key ==> !session_matches(
                sessions[k].0,
                query_session,
            ),
    ensures
        has_session(sessions, key) ==> ({
            let kept_episodes = since(sessions[session_index(sessions, key)].1, cutoff);
            let n = if max < kept_episodes.len() {
                max
            } else {
                kept_episodes.len() as int
            };
            recalled(pruned_sessions(sessions, cutoff), query_session, max)
                == kept_episodes.take(n).map_values(|e: EpisodeView| episode_snippet(key, e))
        }),
        !has_session(sessions, key) ==> recalled(pruned_sessions(sessions, cutoff), query_session, max)
            == Seq::<SnippetView>::empty(),
    decreases sessions.len(),
{
    if sessions.len() > 0 {
        let d = sessions.drop_last();
        let last = sessions.last();
        assert(distinct_sessions(d)) by {
            assert forall|a: int, b: int|
                0 <= a < d.len() && 0 <= b < d.len() && a != b implies #[trigger] d[a].0
                != #[trigger] d[b].0 by {
                assert(d[a] == sessions[a]);
                assert(d[b] == sessions[b]);
            }
        }
        assert forall|k: int| 0 <= k < d.len() && (#[trigger] d[k]).0 != key implies !session_matches(
            d[k].0,
            query_session,
        ) by {
            assert(d[k] == sessions[k]);
        }
        lemma_recall_of_sole_session(d, cutoff, query_session, max, key);
        let rest = pruned_sessions(d, cutoff);
        let kept_last = since(last.1, cutoff);
        let p = pruned_sessions(sessions, cutoff);
        if last.0 == key {
            assert(!has_session(d, key)) by {
                if has_session(d, key) {
                    let j = choose|j: int| 0 <= j < d.len() && #[trigger] d[j].0 == key;
                    assert(sessions[j] == d[j]);
                    assert(sessions[j].0 != sessions[sessions.len() - 1].0);
                }
            }
            assert(has_session(sessions, key)) by {
                assert(sessions[sessions.len() - 1].0 == key);
            }
            let i = session_index(sessions, key);
            assert(i == sessions.len() - 1) by {
                if i != sessions.len() - 1 {
                    assert(sessions[i].0 != sessions[sessions.len() - 1].0);
                }
            }
            if kept_last.len() > 0 {
                assert(p.drop_last() == rest);
                assert(p.last() == (key, kept_last));
            } else {
                assert(p == rest);
                assert(kept_last.take(0).map_values(|e: EpisodeView| episode_snippet(key, e))
                    =~= Seq::<SnippetView>::empty());
            }
        } else {
            assert(has_session(sessions, key) == has_session(d, key)) by {
                if has_session(sessions, key) {
                    let j = choose|j: int| 0 <= j < sessions.len() && #[trigger] sessions[j].0 == key;
                    assert(j != sessions.len() - 1);
                    assert(d[j] == sessions[j]);
                }
                if has_session(d, key) {
                    let j = choose|j: int| 0 <= j < d.len() && #[trigger] d[j].0 == key;
                    assert(sessions[j] == d[j]);
                }
            }
            if has_session(sessions, key) {
                let i = session_index(sessions, key);
                let j = session_index(d, key);
                assert(sessions[j] == d[j]);
                assert(i == j) by {
                    if i != j {
                        assert(sessions[i].0 != sessions[j].0);
                    }
                }
            }
            assert(!session_matches(sessions[sessions.len() - 1].0, query_session));
            if kept_last.len() > 0 {
                assert(p.drop_last() == rest);
                assert(p.last() == (last.0, kept_last));
            } else {
                assert(p == rest);
            }
        }
    }
}

/// An episode written to a session and not older than a query's cutoff is the
/// last answer to a query that only that session matches, when the cap covers
/// the session's capacity.
pub proof fn lemma_written_episode_is_recalled(
    sessions: Sessions,
    namespace: Seq<char>,
    content: Seq<char>,
    at: Stamp,
    max_entries: int,
    cutoff: Stamp,
    query_session: Seq<char>,
    max_results: int,
)
    requires
        distinct_sessions(sessions),
        sessions_within(sessions, max_entries),
        max_entries >= 1,
        max_results >= max_entries,
        !earlier(at, cutoff),
        session_matches(session_key(namespace), query_session),
        forall|k: int|
            0 <= k < sessions.len() && (#[trigger] sessions[k]).0 != session_key(namespace)
                ==> !session_matches(sessions[k].0, query_session),
    ensures
        ({
            let key = session_key(namespace);
            let e = episode(at, content);
            let answer = recalled(
                pruned_sessions(recorded(sessions, key, e, max_entries), cutoff),
                query_session,
                max_results,
            );
            answer.len() >= 1 && answer.last() == episode_snippet(key, e)
        }),
{
    let key = session_key(namespace);
    let e = episode(at, content);
    let after = recorded(sessions, key, e, max_entries);
    let i = if has_session(sessions, key) {
        session_index(sessions, key)
    } else {
        sessions.len() as int
    };
    assert(0 <= i < after.len() && after[i].0 == key && after[i].1.last() == e && after[i].1.len()
        <= max_entries);
    assert forall|k: int| 0 <= k < after.len() && k != i implies (#[trigger] after[k]).0 != key
        && after[k] == sessions[k] by {
        if has_session(sessions, key) {
            assert(sessions[k].0 != sessions[i].0);
        } else {
            assert(after[k] == sessions[k]);
        }
    }
    assert(distinct_sessions(after)) by {
        assert forall|a: int, b: int|
            0 <= a < after.len() && 0 <= b < after.len() && a != b implies #[trigger] after[a].0
            != #[trigger] after[b].0 by {
            if a != i && b != i {
                assert(after[a] == sessions[a]);
                assert(after[b] == sessions[b]);
            }
        }
    }
    assert forall|k: int|
        0 <= k < after.len() && (#[trigger] after[k]).0 != key implies !session_matches(
        after[k].0,
        query_session,
    ) by {
        assert(k != i);
        assert(after[k] == sessions[k]);
    }
    assert(has_session(after, key));
    assert(session_index(after, key) == i) by {
        let j = session_index(after, key);
        if j != i {
            assert(after[j].0 != after[i].0);
        }
    }
    lemma_recall_of_sole_session(after, cutoff, query_session, max_results, key);
    lemma_since_keeps_last(after[i].1, cutoff);
    lemma_since_len(after[i].1, cutoff);
}

/// In-memory episodic engine.
pub struct EpisodicEngine {
    config: EpisodicEngineConfig,
    store: Vec<(String, Vec<EpisodicEntry>)>,
}

impl EpisodicEngine {
    pub closed spec fn settings(&self) -> EpisodicEngineConfig {
        self.config
    }

    pub closed spec fn sessions(&self) -> Sessions {
        sessions_of(self.store@)
    }

    pub closed spec fn wf(&self) -> bool {
        &&& distinct_sessions(self.sessions())
        &&& sessions_within(self.sessions(), self.config.max_entries_per_session as int)
    }

    /// A well-formed engine files each session once and keeps every session
    /// within its capacity.
    pub proof fn lemma_sessions_well_formed(&self)
        requires
            self.wf(),
        ensures
            distinct_sessions(self.sessions()),
            sessions_within(self.sessions(), self.settings().max_entries_per_session as int),
    {
    }

    pub fn new(config: EpisodicEngineConfig) -> (e: Self)
        ensures
            e.wf(),
            e.settings() == config,
            e.sessions() == Sessions::empty(),
    {
        let e = Self { config, store: Vec::new() };
        proof {
            assert(e.sessions() =~= Sessions::empty());
        }
        e
    }

    /// The configuration the engine was built with.
    pub fn config(&self) -> (c: &EpisodicEngineConfig)
        ensures
            *c == self.settings(),
    {
        &self.config
    }

    pub fn with_default_config() -> (e: Self)
        ensures
            e.wf(),
            e.settings().max_age_minutes == 1440,
            e.settings().max_entries_per_session == 10000,
            e.sessions() == Sessions::empty(),
    {
        Self::new(EpisodicEngineConfig::default())
    }

    pub fn memory_type(&self) -> (k: MemoryProviderKind)
        ensures
            k == MemoryProviderKind::Episodic,
    {
        MemoryProviderKind::Episodic
    }

    fn position_of(&self, id: &String) -> (r: Option<usize>)
        ensures
            match r {
                Some(i) => i < self.store@.len() && self.sessions()[i as int].0 == id@,
                None => !has_session(self.sessions(), id@),
            },
    {
        let mut i: usize = 0;
        while i < self.store.len()
            invariant
                i <= self.store.len(),
                forall|j: int| 0 <= j < i ==> #[trigger] self.sessions()[j].0 != id@,
            decreases self.store.len() - i,
        {
            if self.store[i].0 == *id {
                return Some(i);
            }
            i = i + 1;
        }
        None
    }

    /// Records the episode at the current instant (see `write_at`). Fails,
    /// leaving the engine as it was, only when the system clock reads outside the
    /// range of dates chrono represents.
    pub fn write(&mut self, record: MemoryRecord) -> (r: Result<(), EngineError>)
        requires
            old(self).wf(),
            old(self).settings().max_entries_per_session > 0,
        ensures
            final(self).wf(),
            final(self).settings() == old(self).settings(),
            sessions_within(final(self).sessions(), final(self).settings().max_entries_per_session as int),
            match r {
                Ok(()) => exists|at: Stamp|
                    final(self).sessions() == recorded(
                        old(self).sessions(),
                        session_key(record.namespace@),
                        #[trigger] episode(at, record.content@),
                        old(self).settings().max_entries_per_session as int,
                    ),
                Err(e) => e@ == clock_error_message() && final(self).sessions() == old(
                    self,
                ).sessions(),
            },
    {
        match utc_now() {
            Some(at) => {
                self.write_at(record, at);
                Ok(())
            },
            None => Err(clock_error()),
        }
    }

    /// Records the episode, written at `created_at`, under the session its
    /// namespace names, evicting the session's oldest episode when it is full.
    pub fn write_at(&mut self, record: MemoryRecord, created_at: Stamp)
        requires
            old(self).wf(),
            old(self).settings().max_entries_per_session > 0,
        ensures
            final(self).wf(),
            final(self).settings() == old(self).settings(),
            sessions_within(final(self).sessions(), final(self).settings().max_entries_per_session as int),
            final(self).sessions() == recorded(
                old(self).sessions(),
                session_key(record.namespace@),
                episode(created_at, record.content@),
                old(self).settings().max_entries_per_session as int,
            ),
    {
        proof {
            lemma_session_key_colon(record.namespace@);
        }
        let session_id = if contains(record.namespace.as_str(), ":") {
            match first_piece(record.namespace.as_str(), ':') {
                Some(piece) => piece.to_owned(),
                None => "default".to_owned(),
            }
        } else {
            record.namespace.clone()
        };
        let ghost s0 = self.sessions();
        let ghost e = episode(created_at, record.content@);
        let ghost max = self.config.max_entries_per_session as int;
        let entry = EpisodicEntry { record, created_at, session_id: session_id.clone() };
        match self.position_of(&session_id) {
            Some(i) => {
                let ghost before = self.store@;
                proof {
                    assert(has_session(s0, session_id@));
                    assert(session_index(s0, session_id@) == i);
                }
                if self.store[i].1.len() >= self.config.max_entries_per_session {
                    self.store[i].1.remove(0);
                }
                let ghost mid = self.store@[i as int].1@;
                self.store[i].1.push(entry);
                proof {
                    let eps = s0[i as int].1;
                    let room = if eps.len() >= max {
                        eps.drop_first()
                    } else {
                        eps
                    };
                    assert(episodes_of(mid) =~= room);
                    assert(self.sessions()[i as int].1 =~= room.push(e));
                    assert forall|j: int| 0 <= j < self.store@.len() implies #[trigger] self.sessions()[j]
                        == recorded(s0, session_id@, e, max)[j] by {
                        if j != i {
                            assert(self.store@[j] == before[j]);
                        }
                    }
                    assert(self.sessions() =~= recorded(s0, session_id@, e, max));
                }
            },
            None => {
                let ghost before = self.store@;
                let mut entries: Vec<EpisodicEntry> = Vec::new();
                entries.push(entry);
                self.store.push((session_id, entries));
                proof {
                    assert forall|j: int| 0 <= j < self.store@.len() implies #[trigger] self.sessions()[j]
                        == recorded(s0, session_id@, e, max)[j] by {
                        if j < before.len() {
                            assert(self.store@[j] == before[j]);
                        } else {
                            assert(self.sessions()[j].1 =~= seq![e]);
                        }
                    }
                    assert(self.sessions() =~= recorded(s0, session_id@, e, max));
                }
            },
        }
    }

    /// Drops episodes written before `cutoff`, and the sessions left empty.
    fn prune(&mut self, cutoff: Stamp)
        requires
            old(self).wf(),
        ensures
            final(self).wf(),
            final(self).settings() == old(self).settings(),
            final(self).sessions() == pruned_sessions(old(self).sessions(), cutoff),
    {
        let ghost s0 = self.sessions();
        let mut remaining: Vec<(String, Vec<EpisodicEntry>)> = Vec::new();
        std::mem::swap(&mut remaining, &mut self.store);
        let ghost all = remaining@;
        let ghost mut taken: int = 0;
        proof {
            assert(s0 == sessions_of(all));
            assert(s0.take(0) =~= Sessions::empty());
            assert(self.sessions() =~= Sessions::empty());
            assert(remaining@ =~= all.skip(0));
        }
        while remaining.len() > 0
            invariant
                s0 == sessions_of(all),
                0 <= taken <= all.len(),
                remaining@ == all.skip(taken),
                self.sessions() == pruned_sessions(s0.take(taken), cutoff),
                self.settings() == old(self).settings(),
            decreases remaining.len(),
        {
            let ghost before = self.store@;
            let (id, mut entries) = remaining.remove(0);
            proof {
                assert(all.skip(taken)[0] == all[taken]);
                assert(remaining@ =~= all.skip(taken + 1));
            }
            let ghost e_all = entries@;
            let ghost mut seen: int = 0;
            let mut kept: Vec<EpisodicEntry> = Vec::new();
            proof {
                assert(episodes_of(e_all).take(0) =~= Seq::<EpisodeView>::empty());
                assert(episodes_of(kept@) =~= Seq::<EpisodeView>::empty());
                assert(entries@ =~= e_all.skip(0));
            }
            while entries.len() > 0
                invariant
                    0 <= seen <= e_all.len(),
                    entries@ == e_all.skip(seen),
                    episodes_of(kept@) == since(episodes_of(e_all).take(seen), cutoff),
                decreases entries.len(),
            {
                let ghost prev = kept@;
                let e = entries.remove(0);
                proof {
                    assert(e_all.skip(seen)[0] == e_all[seen]);
                    assert(entries@ =~= e_all.skip(seen + 1));
                    assert(episodes_of(e_all).take(seen + 1).drop_last() =~= episodes_of(e_all).take(seen));
                }
                if !is_earlier(e.created_at, cutoff) {
                    kept.push(e);
                    proof {
                        assert(episodes_of(kept@) =~= episodes_of(prev).push(episodes_of(e_all)[seen]));
                    }
                }
                proof {
                    seen = seen + 1;
                }
            }
            proof {
                assert(episodes_of(e_all).take(e_all.len() as int) =~= episodes_of(e_all));
                assert(s0.take(taken + 1).drop_last() =~= s0.take(taken));
                assert(s0.take(taken + 1).last() == s0[taken]);
                assert(s0[taken] == (id@, episodes_of(e_all)));
            }
            if kept.len() > 0 {
                self.store.push((id, kept));
                proof {
                    assert(self.sessions() =~= sessions_of(before).push((id@, episodes_of(kept@))));
                }
            }
            proof {
                taken = taken + 1;
            }
        }
        proof {
            assert(s0.take(s0.len() as int) =~= s0);
            lemma_pruned_sessions_keys(s0, cutoff);
            lemma_pruned_sessions_within(s0, cutoff, self.config.max_entries_per_session as int);
        }
    }

    /// Prunes episodes older than `max_age_minutes` before the current instant,
    /// then answers as `query_since` does. Fails, leaving the engine as it was,
    /// only when the system clock, or the instant `max_age_minutes` before it,
    /// lies outside the range of dates chrono represents.
    pub fn query(&mut self, query: MemoryQuery) -> (r: Result<Vec<ContextSnippet>, EngineError>)
        requires
            old(self).wf(),
        ensures
            final(self).wf(),
            final(self).settings() == old(self).settings(),
            match r {
                Ok(snippets) => exists|now: Stamp, cutoff: Stamp|
                    #![trigger minutes_before(now, old(self).settings().max_age_minutes as i64), pruned_sessions(old(self).sessions(), cutoff)]
                    cutoff.0 == minutes_before(now, old(self).settings().max_age_minutes as i64).0
                        && cutoff.1 == now.1 && final(self).sessions() == pruned_sessions(
                        old(self).sessions(),
                        cutoff,
                    ) && snippet_views(snippets@) == recalled(
                        final(self).sessions(),
                        query.session_id@,
                        query.max_results as int,
                    ),
                Err(e) => e@ == clock_error_message() && final(self).sessions() == old(
                    self,
                ).sessions(),
            },
    {
        match utc_now() {
            Some(now) => self.query_at(query, now),
            None => Err(clock_error()),
        }
    }

    /// Prunes episodes older than `max_age_minutes` before `now`, then answers
    /// as `query_since` does. Fails, leaving the engine as it was, only when the
    /// instant `max_age_minutes` before `now` lies outside the range of dates
    /// chrono represents.
    pub fn query_at(&mut self, query: MemoryQuery, now: Stamp) -> (r: Result<Vec<ContextSnippet>, EngineError>)
        requires
            old(self).wf(),
            now.1 < NANOS_PER_SEC,
        ensures
            final(self).wf(),
            final(self).settings() == old(self).settings(),
            match r {
                Ok(snippets) => {
                    let cutoff = minutes_before(now, old(self).settings().max_age_minutes as i64);
                    &&& final(self).sessions() == pruned_sessions(
                        old(self).sessions(),
                        (cutoff.0 as i64, cutoff.1),
                    )
                    &&& i64::MIN <= cutoff.0 <= i64::MAX
                    &&& snippet_views(snippets@) == recalled(
                        final(self).sessions(),
                        query.session_id@,
                        query.max_results as int,
                    )
                },
                Err(e) => e@ == clock_error_message() && final(self).sessions() == old(
                    self,
                ).sessions(),
            },
    {
        let minutes = self.config.max_age_minutes as i64;
        match utc_minutes_before(now, minutes) {
            Some(cutoff) => Ok(self.query_since(query, cutoff)),
            None => Err(clock_error()),
        }
    }

    /// Prunes episodes written before `cutoff`, then answers with the episodes of
    /// every session whose id contains the query's session (all sessions for an
    /// empty one), at most `max_results` in all.
    pub fn query_since(&mut self, query: MemoryQuery, cutoff: Stamp) -> (snippets: Vec<ContextSnippet>)
        requires
            old(self).wf(),
        ensures
            final(self).wf(),
            final(self).settings() == old(self).settings(),
            final(self).sessions() == pruned_sessions(old(self).sessions(), cutoff),
            snippet_views(snippets@) == recalled(
                final(self).sessions(),
                query.session_id@,
                query.max_results as int,
            ),
    {
        self.prune(cutoff);
        let ghost sessions = self.sessions();
        let max = query.max_results;
        let mut results: Vec<ContextSnippet> = Vec::new();
        let mut i: usize = 0;
        proof {
            assert(sessions.take(0) =~= Sessions::empty());
            assert(snippet_views(results@) =~= Seq::<SnippetView>::empty());
        }
        while i < self.store.len()
            invariant
                i <= self.store.len(),
                sessions == self.sessions(),
                max == query.max_results,
                snippet_views(results@) == recalled(
                    sessions.take(i as int),
                    query.session_id@,
                    max as int,
                ),
            decreases self.store.len() - i,
        {
            let id = &self.store[i].0;
            let entries = &self.store[i].1;
            let ghost r0 = snippet_views(results@);
            let ghost eps = sessions[i as int].1;
            proof {
                assert(sessions.take(i + 1).drop_last() =~= sessions.take(i as int));
                assert(sessions.take(i + 1).last() == sessions[i as int]);
                lemma_recalled_bounded(sessions.take(i as int), query.session_id@, max as int);
            }
            let q = query.session_id.as_str();
            if q.is_empty() || *id == query.session_id || contains(id.as_str(), q) {
                let room = max - results.len();
                let mut j: usize = 0;
                proof {
                    assert(eps.take(0).map_values(|e: EpisodeView| episode_snippet(id@, e))
                        =~= Seq::<SnippetView>::empty());
                    assert(r0 + Seq::<SnippetView>::empty() =~= r0);
                }
                while j < entries.len() && j < room
                    invariant
                        j <= entries.len(),
                        j <= room,
                        eps == episodes_of(entries@),
                        snippet_views(results@) == r0 + eps.take(j as int).map_values(
                            |e: EpisodeView| episode_snippet(id@, e),
                        ),
                    decreases entries.len() - j,
                {
                    let ghost prev = results@;
                    results.push(
                        ContextSnippet {
                            source: id.clone(),
                            engine_type: ContextEngineType::Graph,
                            content: entries[j].record.content.clone(),
                            score_bits: None,
                        },
                    );
                    proof {
                        assert(eps.take(j + 1) =~= eps.take(j as int).push(eps[j as int]));
                        assert(snippet_views(results@) =~= snippet_views(prev).push(
                            episode_snippet(id@, eps[j as int]),
                        ));
                        assert(eps.take(j + 1).map_values(|e: EpisodeView| episode_snippet(id@, e))
                            =~= eps.take(j as int).map_values(
                            |e: EpisodeView| episode_snippet(id@, e),
                        ).push(episode_snippet(id@, eps[j as int])));
                    }
                    j = j + 1;
                }
            }
            i = i + 1;
        }
        proof {
            assert(sessions.take(sessions.len() as int) =~= sessions);
        }
        results
    }
}

} // verus!

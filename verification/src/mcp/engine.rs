//! In-memory engine that files records by namespace and answers queries by
//! namespace match, falling back to everything it holds.

use vstd::prelude::*;

use crate::context::ContextEngineType;
use crate::gateway_types::{snippet_views, ContextSnippet, EngineError, MemoryQuery, SnippetView};
use crate::memory::MemoryProviderKind;
use crate::text::{contains, contains_text};
use crate::MemoryRecord;

verus! {

/// One stored record.
#[derive(Debug, Clone)]
pub struct MemoryEntry {
    pub namespace: String,
    pub content: String,
}

/// Records grouped by namespace, namespaces in the order they were first written.
pub struct InMemoryEngine {
    memory_type: MemoryProviderKind,
    store: Vec<(String, Vec<MemoryEntry>)>,
}

/// The engine type under which a memory class answers queries.
pub open spec fn engine_type_of(kind: MemoryProviderKind) -> ContextEngineType {
    match kind {
        MemoryProviderKind::Semantic => ContextEngineType::Semantic,
        MemoryProviderKind::Structure => ContextEngineType::Structure,
        MemoryProviderKind::Temporal => ContextEngineType::Temporal,
        MemoryProviderKind::Episodic => ContextEngineType::Graph,
    }
}

pub fn kind_to_engine_type(kind: MemoryProviderKind) -> (t: ContextEngineType)
    ensures
        t == engine_type_of(kind),
{
    match kind {
        MemoryProviderKind::Semantic => ContextEngineType::Semantic,
        MemoryProviderKind::Structure => ContextEngineType::Structure,
        MemoryProviderKind::Temporal => ContextEngineType::Temporal,
        MemoryProviderKind::Episodic => ContextEngineType::Graph,
    }
}

/// Stored contents as values: one `(namespace, contents in write order)` per namespace.
pub type Groups = Seq<(Seq<char>, Seq<Seq<char>>)>;

/// No namespace is filed twice.
pub open spec fn distinct_namespaces(groups: Groups) -> bool {
    forall|i: int, j: int|
        0 <= i < groups.len() && 0 <= j < groups.len() && i != j ==> #[trigger] groups[i].0
            != #[trigger] groups[j].0
}

pub open spec fn has_namespace(groups: Groups, ns: Seq<char>) -> bool {
    exists|i: int| 0 <= i < groups.len() && #[trigger] groups[i].0 == ns
}

pub open spec fn namespace_index(groups: Groups, ns: Seq<char>) -> int {
    choose|i: int| 0 <= i < groups.len() && #[trigger] groups[i].0 == ns
}

/// The store after filing `content` under `ns`: appended to the namespace's
/// contents, or as a new last namespace.
pub open spec fn filed(groups: Groups, ns: Seq<char>, content: Seq<char>) -> Groups {
    if has_namespace(groups, ns) {
        let i = namespace_index(groups, ns);
        groups.update(i, (ns, groups[i].1.push(content)))
    } else {
        groups.push((ns, seq![content]))
    }
}

/// A query for `session` reaches namespace `ns` when either text contains the other.
pub open spec fn namespace_matches(session: Seq<char>, ns: Seq<char>) -> bool {
    contains_text(session, ns) || contains_text(ns, session)
}

pub open spec fn entry_snippet(ns: Seq<char>, content: Seq<char>, et: ContextEngineType) -> SnippetView {
    SnippetView { source: ns, engine_type: et, content, score_bits: None }
}

/// Snippets of one namespace's contents, in write order.
pub open spec fn group_snippets(ns: Seq<char>, contents: Seq<Seq<char>>, et: ContextEngineType) -> Seq<
    SnippetView,
> {
    contents.map_values(|c: Seq<char>| entry_snippet(ns, c, et))
}

/// Snippets of the namespaces that match `session` (of all namespaces when `everything`).
pub open spec fn collected(
    groups: Groups,
    session: Seq<char>,
    everything: bool,
    et: ContextEngineType,
) -> Seq<SnippetView>
    decreases groups.len(),
{
    if groups.len() == 0 {
        Seq::empty()
    } else {
        let rest = collected(groups.drop_last(), session, everything, et);
        let g = groups.last();
        if everything || namespace_matches(session, g.0) {
            rest + group_snippets(g.0, g.1, et)
        } else {
            rest
        }
    }
}

/// Answer to a query for `session`: the matching namespaces, or, when none
/// matches, everything stored.
pub open spec fn answer(groups: Groups, session: Seq<char>, et: ContextEngineType) -> Seq<SnippetView> {
    let matching = collected(groups, session, false, et);
    if matching.len() > 0 {
        matching
    } else {
        collected(groups, session, true, et)
    }
}

proof fn lemma_collected_includes_group(
    groups: Groups,
    session: Seq<char>,
    everything: bool,
    et: ContextEngineType,
    k: int,
    m: int,
)
    requires
        0 <= k < groups.len(),
        everything || namespace_matches(session, groups[k].0),
        0 <= m < groups[k].1.len(),
    ensures
        collected(groups, session, everything, et).contains(
            entry_snippet(groups[k].0, groups[k].1[m], et),
        ),
    decreases groups.len(),
{
    let rest = collected(groups.drop_last(), session, everything, et);
    let x = entry_snippet(groups[k].0, groups[k].1[m], et);
    if k == groups.len() - 1 {
        let g = group_snippets(groups[k].0, groups[k].1, et);
        assert(g[m] == x);
        assert((rest + g)[rest.len() + m] == x);
    } else {
        assert(groups.drop_last()[k] == groups[k]);
        lemma_collected_includes_group(groups.drop_last(), session, everything, et, k, m);
        let i = choose|i: int| 0 <= i < rest.len() && rest[i] == x;
        let g = groups.last();
        if everything || namespace_matches(session, g.0) {
            assert((rest + group_snippets(g.0, g.1, et))[i] == x);
        }
    }
}

/// What is written can be read back: after filing `content` under `ns`, a query
/// whose session matches `ns` answers with that content, sourced from `ns`.
pub proof fn lemma_written_record_is_retrievable(
    groups: Groups,
    ns: Seq<char>,
    content: Seq<char>,
    session: Seq<char>,
    et: ContextEngineType,
)
    requires
        distinct_namespaces(groups),
        namespace_matches(session, ns),
    ensures
        answer(filed(groups, ns, content), session, et).contains(entry_snippet(ns, content, et)),
{
    let g = filed(groups, ns, content);
    let k = if has_namespace(groups, ns) {
        namespace_index(groups, ns)
    } else {
        groups.len() as int
    };
    assert(g[k].0 == ns);
    assert(g[k].1.last() == content);
    lemma_collected_includes_group(g, session, false, et, k, g[k].1.len() - 1);
}

/// A query that matches no namespace answers with everything stored.
pub proof fn lemma_unmatched_query_returns_everything(
    groups: Groups,
    session: Seq<char>,
    et: ContextEngineType,
)
    requires
        forall|i: int| 0 <= i < groups.len() ==> !namespace_matches(session, #[trigger] groups[i].0),
    ensures
        answer(groups, session, et) == collected(groups, session, true, et),
{
    lemma_nothing_matches_collects_nothing(groups, session, et);
}

proof fn lemma_nothing_matches_collects_nothing(
    groups: Groups,
    session: Seq<char>,
    et: ContextEngineType,
)
    requires
        forall|i: int| 0 <= i < groups.len() ==> !namespace_matches(session, #[trigger] groups[i].0),
    ensures
        collected(groups, session, false, et).len() == 0,
    decreases groups.len(),
{
    if groups.len() > 0 {
        assert forall|i: int| 0 <= i < groups.drop_last().len() implies !namespace_matches(
            session,
            #[trigger] groups.drop_last()[i].0,
        ) by {
            assert(groups.drop_last()[i] == groups[i]);
        }
        lemma_nothing_matches_collects_nothing(groups.drop_last(), session, et);
        assert(!namespace_matches(session, groups[groups.len() - 1].0));
    }
}

impl InMemoryEngine {
    /// The stored contents.
    pub closed spec fn groups(&self) -> Groups {
        self.store@.map_values(
            |g: (String, Vec<MemoryEntry>)|
                (g.0@, g.1@.map_values(|e: MemoryEntry| e.content@)),
        )
    }

    pub closed spec fn kind(&self) -> MemoryProviderKind {
        self.memory_type
    }

    /// Every namespace is filed once, and every entry sits under its own namespace.
    pub closed spec fn wf(&self) -> bool {
        &&& distinct_namespaces(self.groups())
        &&& forall|i: int, j: int|
            0 <= i < self.store@.len() && 0 <= j < self.store@[i].1@.len()
                ==> #[trigger] self.store@[i].1@[j].namespace@ == self.store@[i].0@
    }

    pub fn new(memory_type: MemoryProviderKind) -> (e: Self)
        ensures
            e.wf(),
            e.kind() == memory_type,
            e.groups() == Seq::<(Seq<char>, Seq<Seq<char>>)>::empty(),
    {
        let e = Self { memory_type, store: Vec::new() };
        proof {
            assert(e.groups() =~= Seq::<(Seq<char>, Seq<Seq<char>>)>::empty());
        }
        e
    }

    pub fn memory_type(&self) -> (k: MemoryProviderKind)
        ensures
            k == self.kind(),
    {
        self.memory_type
    }

    /// The store, grouped by namespace.
    pub fn store(&self) -> (s: &Vec<(String, Vec<MemoryEntry>)>)
        ensures
            s@.map_values(
                |g: (String, Vec<MemoryEntry>)|
                    (g.0@, g.1@.map_values(|e: MemoryEntry| e.content@)),
            ) == self.groups(),
    {
        &self.store
    }

    /// Files the record under its namespace; never fails.
    pub fn write(&mut self, record: MemoryRecord) -> (r: Result<(), EngineError>)
        requires
            old(self).wf(),
        ensures
            r is Ok,
            final(self).wf(),
            final(self).kind() == old(self).kind(),
            final(self).groups() == filed(old(self).groups(), record.namespace@, record.content@),
    {
        let ghost g0 = self.groups();
        let entry = MemoryEntry { namespace: record.namespace.clone(), content: record.content };
        match self.position_of(&record.namespace) {
            Some(i) => {
                let ghost before = self.store@;
                self.store[i].1.push(entry);
                proof {
                    assert(g0[i as int].0 == record.namespace@);
                    assert(has_namespace(g0, record.namespace@));
                    let k = namespace_index(g0, record.namespace@);
                    assert(k == i);
                    assert(self.store@[i as int].1@.map_values(|e: MemoryEntry| e.content@)
                        =~= g0[i as int].1.push(record.content@));
                    assert forall|j: int| 0 <= j < self.store@.len() implies #[trigger] self.groups()[j]
                        == filed(g0, record.namespace@, record.content@)[j] by {
                        if j != i {
                            assert(self.store@[j] == before[j]);
                        }
                    }
                    assert(self.groups() =~= filed(g0, record.namespace@, record.content@));
                }
            },
            None => {
                let ghost before = self.store@;
                let mut entries: Vec<MemoryEntry> = Vec::new();
                entries.push(entry);
                self.store.push((record.namespace, entries));
                proof {
                    assert(self.store@ == before.push((record.namespace, entries)));
                    assert(entries@.map_values(|e: MemoryEntry| e.content@) =~= seq![record.content@]);
                    assert forall|j: int| 0 <= j < self.store@.len() implies #[trigger] self.groups()[j]
                        == filed(g0, record.namespace@, record.content@)[j] by {
                        if j < before.len() {
                            assert(self.store@[j] == before[j]);
                        }
                    }
                    assert(self.groups() =~= filed(g0, record.namespace@, record.content@));
                }
            },
        }
        Ok(())
    }

    /// Snippets of the matching namespaces (of every namespace when `everything`).
    fn collect(&self, session: &String, everything: bool, et: ContextEngineType) -> (r: Vec<
        ContextSnippet,
    >)
        ensures
            snippet_views(r@) == collected(self.groups(), session@, everything, et),
    {
        let mut results: Vec<ContextSnippet> = Vec::new();
        let mut i: usize = 0;
        proof {
            assert(self.groups().take(0) =~= Seq::<(Seq<char>, Seq<Seq<char>>)>::empty());
            assert(snippet_views(results@) =~= Seq::<SnippetView>::empty());
        }
        while i < self.store.len()
            invariant
                i <= self.store.len(),
                snippet_views(results@) == collected(
                    self.groups().take(i as int),
                    session@,
                    everything,
                    et,
                ),
            decreases self.store.len() - i,
        {
            let ghost before = snippet_views(results@);
            let namespace = &self.store[i].0;
            let entries = &self.store[i].1;
            let ghost contents = self.groups()[i as int].1;
            proof {
                assert(self.groups().take(i + 1).drop_last() =~= self.groups().take(i as int));
                assert(self.groups().take(i + 1).last() == self.groups()[i as int]);
            }
            if everything || contains(session.as_str(), namespace.as_str()) || contains(
                namespace.as_str(),
                session.as_str(),
            ) {
                let mut j: usize = 0;
                proof {
                    assert(group_snippets(namespace@, contents.take(0), et) =~= Seq::<
                        SnippetView,
                    >::empty());
                    assert(before + group_snippets(namespace@, contents.take(0), et) =~= before);
                }
                while j < entries.len()
                    invariant
                        j <= entries.len(),
                        contents == entries@.map_values(|e: MemoryEntry| e.content@),
                        snippet_views(results@) == before + group_snippets(
                            namespace@,
                            contents.take(j as int),
                            et,
                        ),
                    decreases entries.len() - j,
                {
                    let ghost prev = results@;
                    results.push(
                        ContextSnippet {
                            source: namespace.clone(),
                            engine_type: et,
                            content: entries[j].content.clone(),
                            score_bits: None,
                        },
                    );
                    proof {
                        assert(contents.take(j + 1) =~= contents.take(j as int).push(contents[j as int]));
                        assert(snippet_views(results@) =~= snippet_views(prev).push(
                            entry_snippet(namespace@, contents[j as int], et),
                        ));
                        assert(group_snippets(namespace@, contents.take(j + 1), et) =~= group_snippets(
                            namespace@,
                            contents.take(j as int),
                            et,
                        ).push(entry_snippet(namespace@, contents[j as int], et)));
                    }
                    j = j + 1;
                }
                proof {
                    assert(contents.take(entries@.len() as int) =~= contents);
                }
            }
            i = i + 1;
        }
        proof {
            assert(self.groups().take(self.store@.len() as int) =~= self.groups());
        }
        results
    }

    /// Snippets of every namespace matching the query's session, or of everything
    /// stored when none matches; never fails.
    pub fn query(&self, query: MemoryQuery) -> (r: Result<Vec<ContextSnippet>, EngineError>)
        ensures
            r matches Ok(snippets) && snippet_views(snippets@) == answer(
                self.groups(),
                query.session_id@,
                engine_type_of(self.kind()),
            ),
    {
        let et = kind_to_engine_type(self.memory_type);
        let matching = self.collect(&query.session_id, false, et);
        if matching.len() > 0 {
            Ok(matching)
        } else {
            Ok(self.collect(&query.session_id, true, et))
        }
    }

    /// Index of the namespace `ns` in the store, if it is filed.
    fn position_of(&self, ns: &String) -> (r: Option<usize>)
        requires
            self.wf(),
        ensures
            match r {
                Some(i) => i < self.store@.len() && self.groups()[i as int].0 == ns@,
                None => !has_namespace(self.groups(), ns@),
            },
    {
        let mut i: usize = 0;
        while i < self.store.len()
            invariant
                i <= self.store.len(),
                forall|j: int| 0 <= j < i ==> #[trigger] self.groups()[j].0 != ns@,
            decreases self.store.len() - i,
        {
            if self.store[i].0 == *ns {
                return Some(i);
            }
            i = i + 1;
        }
        None
    }
}

/// The store after filing each `(namespace, content)` of `writes` in turn.
pub open spec fn filed_all(groups: Groups, writes: Seq<(Seq<char>, Seq<char>)>) -> Groups
    decreases writes.len(),
{
    if writes.len() == 0 {
        groups
    } else {
        filed(filed_all(groups, writes.drop_last()), writes.last().0, writes.last().1)
    }
}

/// Over a run of writes, an engine keeps the memory class it was made with, and
/// its store is the writes filed in turn. `states[i + 1]` is the engine after the
/// write of `writes[i]` to `states[i]`, as `InMemoryEngine::write` states it.
pub proof fn lemma_run_keeps_kind(states: Seq<InMemoryEngine>, writes: Seq<(Seq<char>, Seq<char>)>)
    requires
        states.len() == writes.len() + 1,
        forall|i: int|
            #![trigger writes[i]]
            0 <= i < writes.len() ==> states[i + 1].kind() == states[i].kind() && states[i
                + 1].groups() == filed(states[i].groups(), writes[i].0, writes[i].1),
    ensures
        forall|i: int| 0 <= i < states.len() ==> #[trigger] states[i].kind() == states[0].kind(),
        states.last().groups() == filed_all(states[0].groups(), writes),
    decreases writes.len(),
{
    if writes.len() > 0 {
        let n = writes.len() - 1;
        let s0 = states.drop_last();
        let w0 = writes.drop_last();
        assert forall|i: int| #![trigger w0[i]] 0 <= i < w0.len() implies s0[i + 1].kind()
            == s0[i].kind() && s0[i + 1].groups() == filed(s0[i].groups(), w0[i].0, w0[i].1) by {
            assert(w0[i] == writes[i]);
            assert(s0[i] == states[i] && s0[i + 1] == states[i + 1]);
        }
        lemma_run_keeps_kind(s0, w0);
        assert(writes[n] == writes.last());
        assert(s0.last() == states[n]);
        assert forall|i: int| 0 <= i < states.len() implies #[trigger] states[i].kind()
            == states[0].kind() by {
            if i < states.len() - 1 {
                assert(s0[i] == states[i]);
            }
        }
    }
}

} // verus!

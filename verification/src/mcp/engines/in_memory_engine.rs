//! In-memory engine that answers every query with everything it holds.

use vstd::prelude::*;

use crate::gateway_types::{snippet_views, ContextSnippet, EngineError, MemoryQuery, SnippetView};
use crate::mcp::engine::{
    distinct_namespaces, engine_type_of, filed, filed_all, has_namespace, kind_to_engine_type,
    namespace_index, Groups,
};
use crate::memory::MemoryProviderKind;
use crate::MemoryRecord;

verus! {

/// Bits of the `f32` score `1.0` given to every answer.
pub const FULL_SCORE_BITS: u32 = 0x3f80_0000u32;

/// Name of a memory class as it appears in snippet sources.
pub open spec fn kind_label(kind: MemoryProviderKind) -> Seq<char> {
    match kind {
        MemoryProviderKind::Semantic => "Semantic"@,
        MemoryProviderKind::Structure => "Structural"@,
        MemoryProviderKind::Temporal => "Temporal"@,
        MemoryProviderKind::Episodic => "Episodic"@,
    }
}

pub fn kind_name(kind: MemoryProviderKind) -> (s: &'static str)
    ensures
        s@ == kind_label(kind),
{
    match kind {
        MemoryProviderKind::Semantic => "Semantic",
        MemoryProviderKind::Structure => "Structural",
        MemoryProviderKind::Temporal => "Temporal",
        MemoryProviderKind::Episodic => "Episodic",
    }
}

pub open spec fn record_snippet(kind: MemoryProviderKind, content: Seq<char>) -> SnippetView {
    SnippetView {
        source: kind_label(kind),
        engine_type: engine_type_of(kind),
        content,
        score_bits: Some(FULL_SCORE_BITS),
    }
}

/// Every stored content, namespace by namespace, in write order.
pub open spec fn everything(groups: Groups, kind: MemoryProviderKind) -> Seq<SnippetView>
    decreases groups.len(),
{
    if groups.len() == 0 {
        Seq::empty()
    } else {
        everything(groups.drop_last(), kind) + groups.last().1.map_values(
            |c: Seq<char>| record_snippet(kind, c),
        )
    }
}

/// Records grouped by namespace, namespaces in the order they were first written.
pub struct InMemoryEngine {
    memory_type: MemoryProviderKind,
    data: Vec<(String, Vec<MemoryRecord>)>,
}

impl InMemoryEngine {
    /// The stored contents.
    pub closed spec fn groups(&self) -> Groups {
        self.data@.map_values(
            |g: (String, Vec<MemoryRecord>)| (g.0@, g.1@.map_values(|r: MemoryRecord| r.content@)),
        )
    }

    pub closed spec fn kind(&self) -> MemoryProviderKind {
        self.memory_type
    }

    pub closed spec fn wf(&self) -> bool {
        distinct_namespaces(self.groups())
    }

    pub fn new(memory_type: MemoryProviderKind) -> (e: Self)
        ensures
            e.wf(),
            e.kind() == memory_type,
            e.groups() == Seq::<(Seq<char>, Seq<Seq<char>>)>::empty(),
    {
        let e = Self { memory_type, data: Vec::new() };
        proof {
            assert(e.groups() =~= Seq::<(Seq<char>, Seq<Seq<char>>)>::empty());
        }
        e
    }

    pub fn memory_type(&self) -> (k: MemoryProviderKind)
        ensures
            k == self.kind(),
    {
        self.memory_type
    }

    /// Files the record under its namespace.
    pub fn insert(&mut self, record: MemoryRecord)
        requires
            old(self).wf(),
        ensures
            final(self).wf(),
            final(self).kind() == old(self).kind(),
            final(self).groups() == filed(old(self).groups(), record.namespace@, record.content@),
    {
        let ghost g0 = self.groups();
        let ghost ns = record.namespace@;
        let ghost content = record.content@;
        match self.position_of(&record.namespace) {
            Some(i) => {
                let ghost before = self.data@;
                self.data[i].1.push(record);
                proof {
                    assert(g0[i as int].0 == ns);
                    assert(has_namespace(g0, ns));
                    assert(namespace_index(g0, ns) == i);
                    assert(self.data@[i as int].1@.map_values(|r: MemoryRecord| r.content@)
                        =~= g0[i as int].1.push(content));
                    assert forall|j: int| 0 <= j < self.data@.len() implies #[trigger] self.groups()[j]
                        == filed(g0, ns, content)[j] by {
                        if j != i {
                            assert(self.data@[j] == before[j]);
                        }
                    }
                    assert(self.groups() =~= filed(g0, ns, content));
                }
            },
            None => {
                let ghost before = self.data@;
                let key = record.namespace.clone();
                let mut records: Vec<MemoryRecord> = Vec::new();
                records.push(record);
                self.data.push((key, records));
                proof {
                    assert(records@.map_values(|r: MemoryRecord| r.content@) =~= seq![content]);
                    assert forall|j: int| 0 <= j < self.data@.len() implies #[trigger] self.groups()[j]
                        == filed(g0, ns, content)[j] by {
                        if j < before.len() {
                            assert(self.data@[j] == before[j]);
                        }
                    }
                    assert(self.groups() =~= filed(g0, ns, content));
                }
            },
        }
    }

    fn position_of(&self, ns: &String) -> (r: Option<usize>)
        ensures
            match r {
                Some(i) => i < self.data@.len() && self.groups()[i as int].0 == ns@,
                None => !has_namespace(self.groups(), ns@),
            },
    {
        let mut i: usize = 0;
        while i < self.data.len()
            invariant
                i <= self.data.len(),
                forall|j: int| 0 <= j < i ==> #[trigger] self.groups()[j].0 != ns@,
            decreases self.data.len() - i,
        {
            if self.data[i].0 == *ns {
                return Some(i);
            }
            i = i + 1;
        }
        None
    }

    /// Files the record; never fails.
    pub fn write(&mut self, record: MemoryRecord) -> (r: Result<(), EngineError>)
        requires
            old(self).wf(),
        ensures
            r is Ok,
            final(self).wf(),
            final(self).kind() == old(self).kind(),
            final(self).groups() == filed(old(self).groups(), record.namespace@, record.content@),
    {
        self.insert(record);
        Ok(())
    }

    /// Every stored record, whatever the query asks; never fails.
    pub fn query(&self, _query: MemoryQuery) -> (r: Result<Vec<ContextSnippet>, EngineError>)
        ensures
            r matches Ok(snippets) && snippet_views(snippets@) == everything(self.groups(), self.kind()),
    {
        let engine_type = kind_to_engine_type(self.memory_type);
        let mut results: Vec<ContextSnippet> = Vec::new();
        let mut i: usize = 0;
        proof {
            assert(self.groups().take(0) =~= Seq::<(Seq<char>, Seq<Seq<char>>)>::empty());
            assert(snippet_views(results@) =~= Seq::<SnippetView>::empty());
        }
        while i < self.data.len()
            invariant
                i <= self.data.len(),
                engine_type == engine_type_of(self.kind()),
                snippet_views(results@) == everything(self.groups().take(i as int), self.kind()),
            decreases self.data.len() - i,
        {
            let ghost before = snippet_views(results@);
            let records = &self.data[i].1;
            let ghost contents = self.groups()[i as int].1;
            proof {
                assert(self.groups().take(i + 1).drop_last() =~= self.groups().take(i as int));
                assert(self.groups().take(i + 1).last() == self.groups()[i as int]);
                assert(contents.take(0).map_values(|c: Seq<char>| record_snippet(self.kind(), c))
                    =~= Seq::<SnippetView>::empty());
                assert(before + Seq::<SnippetView>::empty() =~= before);
            }
            let mut j: usize = 0;
            while j < records.len()
                invariant
                    j <= records.len(),
                    engine_type == engine_type_of(self.kind()),
                    contents == records@.map_values(|r: MemoryRecord| r.content@),
                    snippet_views(results@) == before + contents.take(j as int).map_values(
                        |c: Seq<char>| record_snippet(self.kind(), c),
                    ),
                decreases records.len() - j,
            {
                let ghost prev = results@;
                results.push(
                    ContextSnippet {
                        source: kind_name(self.memory_type).to_owned(),
                        engine_type,
                        content: records[j].content.clone(),
                        score_bits: Some(FULL_SCORE_BITS),
                    },
                );
                proof {
                    assert(contents.take(j + 1) =~= contents.take(j as int).push(contents[j as int]));
                    assert(snippet_views(results@) =~= snippet_views(prev).push(
                        record_snippet(self.kind(), contents[j as int]),
                    ));
                    assert(contents.take(j + 1).map_values(
                        |c: Seq<char>| record_snippet(self.kind(), c),
                    ) =~= contents.take(j as int).map_values(
                        |c: Seq<char>| record_snippet(self.kind(), c),
                    ).push(record_snippet(self.kind(), contents[j as int])));
                }
                j = j + 1;
            }
            proof {
                assert(contents.take(records@.len() as int) =~= contents);
            }
            i = i + 1;
        }
        proof {
            assert(self.groups().take(self.data@.len() as int) =~= self.groups());
        }
        Ok(results)
    }
}

/// What is written can be read back: after filing `content`, every query answers
/// with it.
pub proof fn lemma_written_record_is_returned(
    groups: Groups,
    ns: Seq<char>,
    content: Seq<char>,
    kind: MemoryProviderKind,
)
    requires
        distinct_namespaces(groups),
    ensures
        everything(filed(groups, ns, content), kind).contains(record_snippet(kind, content)),
{
    let g = filed(groups, ns, content);
    let k = if has_namespace(groups, ns) {
        namespace_index(groups, ns)
    } else {
        groups.len() as int
    };
    assert(g[k].1.last() == content);
    lemma_everything_includes(g, kind, k, g[k].1.len() - 1);
}

proof fn lemma_everything_includes(groups: Groups, kind: MemoryProviderKind, k: int, m: int)
    requires
        0 <= k < groups.len(),
        0 <= m < groups[k].1.len(),
    ensures
        everything(groups, kind).contains(record_snippet(kind, groups[k].1[m])),
    decreases groups.len(),
{
    let rest = everything(groups.drop_last(), kind);
    let last = groups.last().1.map_values(|c: Seq<char>| record_snippet(kind, c));
    let x = record_snippet(kind, groups[k].1[m]);
    if k == groups.len() - 1 {
        assert(last[m] == x);
        assert((rest + last)[rest.len() + m] == x);
    } else {
        assert(groups.drop_last()[k] == groups[k]);
        lemma_everything_includes(groups.drop_last(), kind, k, m);
        let i = choose|i: int| 0 <= i < rest.len() && rest[i] == x;
        assert((rest + last)[i] == x);
    }
}

/// Inserting a record adds exactly its content to what queries answer, as a
/// multiset: everything stored before stays, once each, and nothing else comes.
pub proof fn lemma_insert_adds_one_content(
    groups: Groups,
    ns: Seq<char>,
    content: Seq<char>,
    kind: MemoryProviderKind,
)
    ensures
        everything(filed(groups, ns, content), kind).to_multiset() == everything(
            groups,
            kind,
        ).to_multiset().insert(record_snippet(kind, content)),
{
    broadcast use vstd::seq_lib::to_multiset_build;

    if has_namespace(groups, ns) {
        let i = namespace_index(groups, ns);
        assert(groups[i].0 == ns);
        lemma_appending_adds_one(groups, kind, i, content);
    } else {
        let g = groups.push((ns, seq![content]));
        let before = everything(groups, kind);
        assert(g.drop_last() =~= groups);
        assert(seq![content].map_values(|c: Seq<char>| record_snippet(kind, c)) =~= seq![
            record_snippet(kind, content),
        ]);
        assert(everything(g, kind) =~= before.push(record_snippet(kind, content)));
    }
}

proof fn lemma_appending_adds_one(
    groups: Groups,
    kind: MemoryProviderKind,
    k: int,
    content: Seq<char>,
)
    requires
        0 <= k < groups.len(),
    ensures
        everything(groups.update(k, (groups[k].0, groups[k].1.push(content))), kind).to_multiset()
            == everything(groups, kind).to_multiset().insert(record_snippet(kind, content)),
    decreases groups.len(),
{
    broadcast use vstd::seq_lib::to_multiset_build, vstd::seq_lib::lemma_multiset_commutative;
    broadcast use vstd::multiset::group_multiset_axioms;

    let g = groups.update(k, (groups[k].0, groups[k].1.push(content)));
    let y = record_snippet(kind, content);
    let rest = everything(groups.drop_last(), kind);
    if k == groups.len() - 1 {
        assert(g.drop_last() =~= groups.drop_last());
        let last = groups.last().1.map_values(|c: Seq<char>| record_snippet(kind, c));
        assert(g.last().1.map_values(|c: Seq<char>| record_snippet(kind, c)) =~= last.push(y));
        assert(everything(g, kind) =~= (rest + last).push(y));
    } else {
        let d = groups.drop_last();
        assert(g.drop_last() =~= d.update(k, (d[k].0, d[k].1.push(content))));
        lemma_appending_adds_one(d, kind, k, content);
        assert(g.last() == groups.last());
        let last = groups.last().1.map_values(|c: Seq<char>| record_snippet(kind, c));
        assert(everything(g, kind) == everything(g.drop_last(), kind) + last);
        assert(everything(groups, kind) == rest + last);
        assert(everything(g, kind).to_multiset() =~= everything(groups, kind).to_multiset().insert(
            y,
        ));
    }
}

/// Starting empty, what queries answer after a run of inserts is, as a multiset,
/// exactly the contents written.
pub proof fn lemma_inserts_answer_every_content(
    writes: Seq<(Seq<char>, Seq<char>)>,
    kind: MemoryProviderKind,
)
    ensures
        everything(filed_all(Seq::empty(), writes), kind).to_multiset() == writes.map_values(
            |w: (Seq<char>, Seq<char>)| record_snippet(kind, w.1),
        ).to_multiset(),
    decreases writes.len(),
{
    broadcast use vstd::seq_lib::to_multiset_build;

    let f = |w: (Seq<char>, Seq<char>)| record_snippet(kind, w.1);
    if writes.len() == 0 {
        assert(everything(Seq::<(Seq<char>, Seq<Seq<char>>)>::empty(), kind) =~= Seq::<
            SnippetView,
        >::empty());
        assert(writes.map_values(f) =~= Seq::<SnippetView>::empty());
    } else {
        lemma_inserts_answer_every_content(writes.drop_last(), kind);
        lemma_insert_adds_one_content(
            filed_all(Seq::empty(), writes.drop_last()),
            writes.last().0,
            writes.last().1,
            kind,
        );
        assert(writes.map_values(f) =~= writes.drop_last().map_values(f).push(
            record_snippet(kind, writes.last().1),
        ));
    }
}

} // verus!

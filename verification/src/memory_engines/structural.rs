//! Structural memory engine: subject-predicate-object facts with subject and
//! predicate indexes, answered newest first.

use vstd::prelude::*;
use vstd::string::StringExecFns;

use crate::clock::{utc_now, Stamp};
use crate::context::ContextEngineType;
use crate::gateway_types::{snippet_views, ContextSnippet, EngineError, MemoryQuery, SnippetView};
use crate::memory::MemoryProviderKind;
use crate::memory_engines::{
    capped, capped_from, lemma_capped_keeps_all, newest_start, lemma_first_candidate_answers_first, distinct_keys, has_key, index_view, key_index, kept, push_position, with_position,
    PositionIndex,
};
use crate::text::{contains, lemma_contains_itself, lemma_contains_prefix, lemma_first_index_of, lemma_split_parts_at, lemma_split_parts_one, contains_text, split_parts, same_text, splitn, trim, trim_spec};
use crate::MemoryRecord;

verus! {

/// Bits of the `f32` confidence `0.7` given to free-form content.
pub const FREEFORM_CONFIDENCE_BITS: u32 = 0x3f33_3333u32;

/// Bits of the `f32` confidence `0.95` given to explicit triples.
pub const TRIPLE_CONFIDENCE_BITS: u32 = 0x3f73_3333u32;

/// Configuration of the structural engine.
#[derive(Debug, Clone)]
pub struct StructuralEngineConfig {
    /// Maximum number of facts kept; the oldest fact makes room for a new one.
    pub max_facts: usize,
    /// Whether facts are indexed by subject and predicate.
    pub enable_relationships: bool,
}

impl Default for StructuralEngineConfig {
    fn default() -> (c: Self)
        ensures
            c.max_facts == 50000,
            c.enable_relationships,
    {
        Self { max_facts: 50000, enable_relationships: true }
    }
}

/// A stored fact.
#[derive(Debug)]
struct FactEntry {
    subject: String,
    predicate: String,
    object: String,
    confidence_bits: u32,
    source_namespace: String,
    /// When the fact was stored; absent when the clock read outside the dates it can stamp.
    created_at: Option<Stamp>,
}

/// A fact as values.
pub struct FactView {
    pub subject: Seq<char>,
    pub predicate: Seq<char>,
    pub object: Seq<char>,
    pub confidence_bits: u32,
    pub namespace: Seq<char>,
}

/// The triple that content stands for: `subject|predicate|object` (parts trimmed),
/// or, for any other content, the content as a property of a generic entity.
pub open spec fn parsed_fact(content: Seq<char>) -> (Seq<char>, Seq<char>, Seq<char>) {
    let parts = split_parts(content, 3, '|');
    if parts.len() == 3 {
        (trim_spec(parts[0]), trim_spec(parts[1]), trim_spec(parts[2]))
    } else {
        ("entity"@, "has_property"@, content)
    }
}

/// Explicit triples are trusted more than free-form properties.
pub open spec fn confidence_for(predicate: Seq<char>) -> u32 {
    if predicate == "has_property"@ {
        FREEFORM_CONFIDENCE_BITS
    } else {
        TRIPLE_CONFIDENCE_BITS
    }
}

/// The fact a record is stored as.
pub open spec fn fact_of(record_namespace: Seq<char>, content: Seq<char>) -> FactView {
    let (s, p, o) = parsed_fact(content);
    FactView {
        subject: s,
        predicate: p,
        object: o,
        confidence_bits: confidence_for(p),
        namespace: record_namespace,
    }
}

/// A query for `session` reaches facts of namespaces that contain it or that it contains.
pub open spec fn fact_matches(f: FactView, session: Seq<char>) -> bool {
    session.len() == 0 || contains_text(f.namespace, session) || contains_text(session, f.namespace)
}

/// A fact rendered as `subject | predicate | object`.
pub open spec fn fact_snippet(f: FactView) -> SnippetView {
    SnippetView {
        source: f.namespace,
        engine_type: ContextEngineType::Structure,
        content: f.subject + " | "@ + f.predicate + " | "@ + f.object,
        score_bits: Some(f.confidence_bits),
    }
}

/// Facts newest first, each an answer when it matches the session.
pub open spec fn fact_candidates(facts: Seq<FactView>, session: Seq<char>) -> Seq<Option<SnippetView>> {
    Seq::new(
        facts.len(),
        |k: int|
            {
                let f = facts[facts.len() - 1 - k];
                if fact_matches(f, session) {
                    Some(fact_snippet(f))
                } else {
                    None
                }
            },
    )
}

/// The positions left once the fact at position 0 is evicted: that position is
/// dropped and every other moves down by one.
pub open spec fn after_eviction(positions: Seq<usize>) -> Seq<usize>
    decreases positions.len(),
{
    if positions.len() == 0 {
        Seq::empty()
    } else {
        let rest = after_eviction(positions.drop_last());
        let p = positions.last();
        if p == 0 {
            rest
        } else {
            rest.push((p - 1) as usize)
        }
    }
}

/// The index once the oldest fact is evicted: its positions are dropped, the
/// others move down by one, and keys left without positions are dropped.
pub open spec fn shifted(index: PositionIndex) -> PositionIndex
    decreases index.len(),
{
    if index.len() == 0 {
        Seq::empty()
    } else {
        let rest = shifted(index.drop_last());
        let moved = after_eviction(index.last().1);
        if moved.len() > 0 {
            rest.push((index.last().0, moved))
        } else {
            rest
        }
    }
}

proof fn lemma_shifted_keys(index: PositionIndex)
    ensures
        forall|i: int|
            0 <= i < shifted(index).len() ==> exists|j: int|
                0 <= j < index.len() && #[trigger] index[j].0 == #[trigger] shifted(index)[i].0,
        distinct_keys(index) ==> distinct_keys(shifted(index)),
    decreases index.len(),
{
    if index.len() > 0 {
        let d = index.drop_last();
        lemma_shifted_keys(d);
        let rest = shifted(d);
        assert forall|i: int| 0 <= i < shifted(index).len() implies exists|j: int|
            0 <= j < index.len() && #[trigger] index[j].0 == #[trigger] shifted(index)[i].0 by {
            if i < rest.len() {
                assert(shifted(index)[i] == rest[i]);
                let j = choose|j: int| 0 <= j < d.len() && #[trigger] d[j].0 == rest[i].0;
                assert(index[j] == d[j]);
            } else {
                assert(index[index.len() - 1].0 == shifted(index)[i].0);
            }
        }
        if distinct_keys(index) {
            assert forall|i: int, j: int|
                0 <= i < shifted(index).len() && 0 <= j < shifted(index).len() && i != j implies #[trigger] shifted(index)[i].0
                != #[trigger] shifted(index)[j].0 by {
                if i < rest.len() && j < rest.len() {
                    assert(shifted(index)[i] == rest[i]);
                    assert(shifted(index)[j] == rest[j]);
                    assert(distinct_keys(d)) by {
                        assert forall|a: int, b: int|
                            0 <= a < d.len() && 0 <= b < d.len() && a != b implies #[trigger] d[a].0
                            != #[trigger] d[b].0 by {
                            assert(d[a] == index[a]);
                            assert(d[b] == index[b]);
                        }
                    }
                } else if i >= rest.len() {
                    assert(shifted(index)[j] == rest[j]);
                    let b = choose|b: int| 0 <= b < d.len() && #[trigger] d[b].0 == rest[j].0;
                    assert(index[b] == d[b]);
                    assert(index[index.len() - 1].0 != index[b].0);
                } else {
                    assert(shifted(index)[i] == rest[i]);
                    let b = choose|b: int| 0 <= b < d.len() && #[trigger] d[b].0 == rest[i].0;
                    assert(index[b] == d[b]);
                    assert(index[index.len() - 1].0 != index[b].0);
                }
            }
        }
    }
}

/// The key a fact is indexed under: its subject, or its predicate.
pub open spec fn fact_key(f: FactView, by_subject: bool) -> Seq<char> {
    if by_subject {
        f.subject
    } else {
        f.predicate
    }
}

/// Every position listed under a key names a stored fact with that key.
pub open spec fn indexes_facts(index: PositionIndex, facts: Seq<FactView>, by_subject: bool) -> bool {
    forall|i: int, j: int|
        0 <= i < index.len() && 0 <= j < index[i].1.len() ==> (#[trigger] index[i].1[j]) < facts.len()
            && fact_key(facts[index[i].1[j] as int], by_subject) == index[i].0
}

/// Positions naming facts with `key` still do so, one down, once the oldest fact
/// is evicted.
proof fn lemma_after_eviction_names(
    positions: Seq<usize>,
    facts: Seq<FactView>,
    by_subject: bool,
    key: Seq<char>,
)
    requires
        forall|j: int|
            0 <= j < positions.len() ==> (#[trigger] positions[j]) < facts.len() && fact_key(
                facts[positions[j] as int],
                by_subject,
            ) == key,
    ensures
        forall|k: int|
            0 <= k < after_eviction(positions).len() ==> (#[trigger] after_eviction(positions)[k])
                < facts.drop_first().len() && fact_key(
                facts.drop_first()[after_eviction(positions)[k] as int],
                by_subject,
            ) == key,
    decreases positions.len(),
{
    if positions.len() > 0 {
        let d = positions.drop_last();
        assert forall|j: int| 0 <= j < d.len() implies (#[trigger] d[j]) < facts.len() && fact_key(
            facts[d[j] as int],
            by_subject,
        ) == key by {
            assert(d[j] == positions[j]);
        }
        lemma_after_eviction_names(d, facts, by_subject, key);
        let p = positions[positions.len() - 1];
        assert(p == positions.last());
        let r = after_eviction(d);
        if p > 0 {
            assert(facts.drop_first()[p - 1] == facts[p as int]);
            assert(after_eviction(positions) == r.push((p - 1) as usize));
        } else {
            assert(after_eviction(positions) == r);
        }
        assert forall|k: int| 0 <= k < after_eviction(positions).len() implies (
        #[trigger] after_eviction(positions)[k]) < facts.drop_first().len() && fact_key(
            facts.drop_first()[after_eviction(positions)[k] as int],
            by_subject,
        ) == key by {
            if k < r.len() {
                assert(after_eviction(positions)[k] == r[k]);
            }
        }
    }
}

proof fn lemma_shifted_entries(index: PositionIndex)
    ensures
        forall|i: int|
            0 <= i < shifted(index).len() ==> exists|j: int|
                0 <= j < index.len() && index[j].0 == (#[trigger] shifted(index)[i]).0
                    && shifted(index)[i].1 == after_eviction(index[j].1),
    decreases index.len(),
{
    if index.len() > 0 {
        let d = index.drop_last();
        lemma_shifted_entries(d);
        assert forall|i: int| 0 <= i < shifted(index).len() implies exists|j: int|
            0 <= j < index.len() && index[j].0 == (#[trigger] shifted(index)[i]).0
                && shifted(index)[i].1 == after_eviction(index[j].1) by {
            if i < shifted(d).len() {
                assert(shifted(index)[i] == shifted(d)[i]);
                let j = choose|j: int|
                    0 <= j < d.len() && d[j].0 == (#[trigger] shifted(d)[i]).0 && shifted(d)[i].1
                        == after_eviction(d[j].1);
                assert(index[j] == d[j]);
            } else {
                assert(index[index.len() - 1] == index.last());
            }
        }
    }
}

/// Evicting the oldest fact keeps an index naming the right facts.
proof fn lemma_eviction_keeps_indexing(index: PositionIndex, facts: Seq<FactView>, by_subject: bool)
    requires
        indexes_facts(index, facts, by_subject),
        facts.len() > 0,
    ensures
        indexes_facts(shifted(index), facts.drop_first(), by_subject),
{
    lemma_shifted_entries(index);
    let sh = shifted(index);
    assert forall|i: int, j: int| 0 <= i < sh.len() && 0 <= j < sh[i].1.len() implies (
    #[trigger] sh[i].1[j]) < facts.drop_first().len() && fact_key(
        facts.drop_first()[sh[i].1[j] as int],
        by_subject,
    ) == sh[i].0 by {
        let a = choose|a: int|
            0 <= a < index.len() && index[a].0 == (#[trigger] sh[i]).0 && sh[i].1 == after_eviction(
                index[a].1,
            );
        assert forall|m: int| 0 <= m < index[a].1.len() implies (#[trigger] index[a].1[m])
            < facts.len() && fact_key(facts[index[a].1[m] as int], by_subject) == index[a].0 by {}
        lemma_after_eviction_names(index[a].1, facts, by_subject, index[a].0);
        assert(sh[i].1[j] == after_eviction(index[a].1)[j]);
    }
}

/// A new last fact leaves the positions already listed naming the same facts.
proof fn lemma_new_fact_keeps_indexing(
    index: PositionIndex,
    facts: Seq<FactView>,
    by_subject: bool,
    f: FactView,
)
    requires
        indexes_facts(index, facts, by_subject),
        facts.len() <= usize::MAX,
    ensures
        indexes_facts(index, facts.push(f), by_subject),
        indexes_facts(
            with_position(index, fact_key(f, by_subject), facts.len() as usize),
            facts.push(f),
            by_subject,
        ),
{
    let g = facts.push(f);
    let key = fact_key(f, by_subject);
    let pos = facts.len() as usize;
    assert forall|i: int, j: int| 0 <= i < index.len() && 0 <= j < index[i].1.len() implies (
    #[trigger] index[i].1[j]) < g.len() && fact_key(g[index[i].1[j] as int], by_subject)
        == index[i].0 by {
        assert(g[index[i].1[j] as int] == facts[index[i].1[j] as int]);
    }
    let w = with_position(index, key, pos);
    assert forall|i: int, j: int| 0 <= i < w.len() && 0 <= j < w[i].1.len() implies (
    #[trigger] w[i].1[j]) < g.len() && fact_key(g[w[i].1[j] as int], by_subject) == w[i].0 by {
        if has_key(index, key) {
            let k = key_index(index, key);
            assert(index[k].0 == key);
            assert(w == index.update(k, (key, index[k].1.push(pos))));
            if i == k {
                if j == index[k].1.len() {
                    assert(w[i].1[j] == pos);
                    assert(g[pos as int] == f);
                } else {
                    assert(w[i].1[j] == index[i].1[j]);
                    assert(index[i].1[j] < g.len());
                    assert(g[index[i].1[j] as int] == facts[index[i].1[j] as int]);
                }
            } else {
                assert(w[i] == index[i]);
                assert(index[i].1[j] < g.len());
                assert(g[index[i].1[j] as int] == facts[index[i].1[j] as int]);
            }
        } else {
            assert(w == index.push((key, seq![pos])));
            if i == index.len() {
                assert(w[i].1[j] == pos);
                assert(g[pos as int] == f);
            } else {
                assert(w[i] == index[i]);
                assert(index[i].1[j] < g.len());
                assert(g[index[i].1[j] as int] == facts[index[i].1[j] as int]);
            }
        }
    }
}

/// Content written as `subject|predicate|object`, with no `|` in the subject or
/// the predicate, is stored as that triple with each part trimmed.
pub proof fn lemma_triple_content_round_trip(subject: Seq<char>, predicate: Seq<char>, object: Seq<char>)
    requires
        !subject.contains('|'),
        !predicate.contains('|'),
    ensures
        parsed_fact(subject + "|"@ + predicate + "|"@ + object) == (
            trim_spec(subject),
            trim_spec(predicate),
            trim_spec(object),
        ),
{
    reveal_strlit("|");
    let c = subject + "|"@ + predicate + "|"@ + object;
    let i = subject.len() as int;
    assert forall|j: int| 0 <= j < i implies c[j] != '|' by {
        assert(c[j] == subject[j]);
        if subject[j] == '|' {
            assert(subject.contains('|'));
        }
    }
    assert(c[i] == '|');
    lemma_first_index_of(c, '|', i);
    let rest = c.skip(i + 1);
    assert(rest =~= predicate + "|"@ + object);
    let k = predicate.len() as int;
    assert forall|j: int| 0 <= j < k implies rest[j] != '|' by {
        assert(rest[j] == predicate[j]);
        if predicate[j] == '|' {
            assert(predicate.contains('|'));
        }
    }
    assert(rest[k] == '|');
    lemma_first_index_of(rest, '|', k);
    assert(c.take(i) =~= subject);
    assert(rest.take(k) =~= predicate);
    assert(rest.skip(k + 1) =~= object);
    lemma_split_parts_one(rest.skip(k + 1), '|');
    lemma_split_parts_at(rest, 2, '|', k);
    lemma_split_parts_at(c, 3, '|', i);
    assert(split_parts(c, 3, '|') =~= seq![subject, predicate, object]);
}

/// In-memory structural engine.
pub struct StructuralEngine {
    config: StructuralEngineConfig,
    facts: Vec<FactEntry>,
    subject_index: Vec<(String, Vec<usize>)>,
    predicate_index: Vec<(String, Vec<usize>)>,
}

impl StructuralEngine {
    pub closed spec fn settings(&self) -> StructuralEngineConfig {
        self.config
    }

    /// Stored facts, oldest first.
    pub closed spec fn facts_view(&self) -> Seq<FactView> {
        self.facts@.map_values(
            |f: FactEntry|
                FactView {
                    subject: f.subject@,
                    predicate: f.predicate@,
                    object: f.object@,
                    confidence_bits: f.confidence_bits,
                    namespace: f.source_namespace@,
                },
        )
    }

    pub closed spec fn subjects(&self) -> PositionIndex {
        index_view(self.subject_index@)
    }

    pub closed spec fn predicates(&self) -> PositionIndex {
        index_view(self.predicate_index@)
    }

    /// At most `max_facts` facts are kept, and each index lists a key once.
    pub closed spec fn wf(&self) -> bool {
        &&& self.facts@.len() <= self.config.max_facts
        &&& distinct_keys(self.subjects())
        &&& distinct_keys(self.predicates())
        &&& indexes_facts(self.subjects(), self.facts_view(), true)
        &&& indexes_facts(self.predicates(), self.facts_view(), false)
    }

    /// The indexes name facts: every position listed under a subject (or a
    /// predicate) is that of a stored fact with that subject (or predicate).
    pub proof fn lemma_indexes_name_their_facts(&self)
        requires
            self.wf(),
        ensures
            indexes_facts(self.subjects(), self.facts_view(), true),
            indexes_facts(self.predicates(), self.facts_view(), false),
    {
    }

    pub fn new(config: StructuralEngineConfig) -> (e: Self)
        ensures
            e.wf(),
            e.settings() == config,
            e.facts_view() == Seq::<FactView>::empty(),
    {
        let e = Self {
            config,
            facts: Vec::new(),
            subject_index: Vec::new(),
            predicate_index: Vec::new(),
        };
        proof {
            assert(e.facts_view() =~= Seq::<FactView>::empty());
            assert(e.subjects() =~= PositionIndex::empty());
            assert(e.predicates() =~= PositionIndex::empty());
        }
        e
    }

    /// The configuration the engine was built with.
    pub fn config(&self) -> (c: &StructuralEngineConfig)
        ensures
            *c == self.settings(),
    {
        &self.config
    }

    pub fn with_default_config() -> (e: Self)
        ensures
            e.wf(),
            e.settings().max_facts == 50000,
            e.settings().enable_relationships,
            e.facts_view() == Seq::<FactView>::empty(),
    {
        Self::new(StructuralEngineConfig::default())
    }

    /// Splits `subject|predicate|object` content into its trimmed parts.
    fn parse_fact(content: &str) -> (r: (String, String, String))
        ensures
            (r.0@, r.1@, r.2@) == parsed_fact(content@),
    {
        let parts = splitn(content, 3, '|');
        proof {
            assert(parts@.map_values(|p: &str| p@).len() == parts@.len());
        }
        if parts.len() == 3 {
            proof {
                assert(parts@[0]@ == split_parts(content@, 3, '|')[0]);
                assert(parts@[1]@ == split_parts(content@, 3, '|')[1]);
                assert(parts@[2]@ == split_parts(content@, 3, '|')[2]);
            }
            (
                trim(parts[0]).to_owned(),
                trim(parts[1]).to_owned(),
                trim(parts[2]).to_owned(),
            )
        } else {
            ("entity".to_owned(), "has_property".to_owned(), content.to_owned())
        }
    }

    pub fn memory_type(&self) -> (k: MemoryProviderKind)
        ensures
            k == MemoryProviderKind::Structure,
    {
        MemoryProviderKind::Structure
    }

    /// Stores the record as a fact. When the store is full the oldest fact is
    /// evicted, its indexed positions dropped and every other position moved down
    /// by one; the new fact's subject and predicate are then indexed (if enabled)
    /// at the new fact's position.
    pub fn write(&mut self, record: MemoryRecord) -> (r: Result<(), EngineError>)
        requires
            old(self).wf(),
            old(self).settings().max_facts > 0,
        ensures
            r is Ok,
            final(self).wf(),
            final(self).settings() == old(self).settings(),
            final(self).facts_view().len() <= final(self).settings().max_facts,
            ({
                let full = old(self).facts_view().len() >= old(self).settings().max_facts;
                let kept_facts = if full {
                    old(self).facts_view().drop_first()
                } else {
                    old(self).facts_view()
                };
                let subjects = if full {
                    shifted(old(self).subjects())
                } else {
                    old(self).subjects()
                };
                let predicates = if full {
                    shifted(old(self).predicates())
                } else {
                    old(self).predicates()
                };
                let f = fact_of(record.namespace@, record.content@);
                let position = kept_facts.len() as usize;
                &&& final(self).facts_view() == kept_facts.push(f)
                &&& final(self).subjects() == if old(self).settings().enable_relationships {
                    with_position(subjects, f.subject, position)
                } else {
                    subjects
                }
                &&& final(self).predicates() == if old(self).settings().enable_relationships {
                    with_position(predicates, f.predicate, position)
                } else {
                    predicates
                }
            }),
    {
        let (subject, predicate, object) = Self::parse_fact(record.content.as_str());
        let confidence_bits = if same_text(predicate.as_str(), "has_property") {
            FREEFORM_CONFIDENCE_BITS
        } else {
            TRIPLE_CONFIDENCE_BITS
        };
        let fact = FactEntry {
            subject: subject.clone(),
            predicate: predicate.clone(),
            object,
            confidence_bits,
            source_namespace: record.namespace.clone(),
            created_at: utc_now(),
        };
        let ghost old_facts = self.facts_view();
        let ghost old_subjects = self.subjects();
        let ghost old_predicates = self.predicates();
        if self.facts.len() >= self.config.max_facts {
            self.facts.remove(0);
            shift_positions(&mut self.subject_index);
            shift_positions(&mut self.predicate_index);
            proof {
                assert(self.facts_view() =~= old_facts.drop_first());
                lemma_eviction_keeps_indexing(old_subjects, old_facts, true);
                lemma_eviction_keeps_indexing(old_predicates, old_facts, false);
            }
        }
        let ghost mid_facts = self.facts_view();
        let ghost mid_subjects = self.subjects();
        let ghost mid_predicates = self.predicates();
        let ghost f = fact_of(record.namespace@, record.content@);
        let idx = self.facts.len();
        self.facts.push(fact);
        proof {
            assert(self.facts_view() =~= mid_facts.push(f));
            assert(fact_key(f, true) == subject@);
            assert(fact_key(f, false) == predicate@);
            lemma_new_fact_keeps_indexing(mid_subjects, mid_facts, true, f);
            lemma_new_fact_keeps_indexing(mid_predicates, mid_facts, false, f);
        }
        if self.config.enable_relationships {
            push_position(&mut self.subject_index, subject.as_str(), idx);
            push_position(&mut self.predicate_index, predicate.as_str(), idx);
        }
        Ok(())
    }

    /// Facts newest first that match the query's session, rendered as triples;
    /// the scan stops once `max_results` answers are gathered (checked after
    /// each fact). Never fails.
    pub fn query(&self, query: MemoryQuery) -> (r: Result<Vec<ContextSnippet>, EngineError>)
        ensures
            r matches Ok(snippets) && snippet_views(snippets@) == capped(
                fact_candidates(self.facts_view(), query.session_id@),
                query.max_results as int,
            ),
    {
        let ghost cands = fact_candidates(self.facts_view(), query.session_id@);
        let ghost max = query.max_results as int;
        let n = self.facts.len();
        let mut results: Vec<ContextSnippet> = Vec::new();
        let mut k: usize = 0;
        proof {
            assert(snippet_views(results@) =~= Seq::<SnippetView>::empty());
        }
        while k < n
            invariant
                n == self.facts@.len(),
                cands == fact_candidates(self.facts_view(), query.session_id@),
                max == query.max_results as int,
                k <= n,
                snippet_views(results@) == kept(cands, k as int),
                capped(cands, max) == capped_from(cands, max, k as int),
            decreases n - k,
        {
            let fact = &self.facts[n - 1 - k];
            let ns = fact.source_namespace.as_str();
            let session = query.session_id.as_str();
            let ghost prev = results@;
            if session.is_empty() || contains(ns, session) || contains(session, ns) {
                let content = fact.subject.clone().concat(" | ").concat(fact.predicate.as_str()).concat(
                    " | ",
                ).concat(fact.object.as_str());
                results.push(
                    ContextSnippet {
                        source: fact.source_namespace.clone(),
                        engine_type: ContextEngineType::Structure,
                        content,
                        score_bits: Some(fact.confidence_bits),
                    },
                );
                proof {
                    assert(snippet_views(results@) =~= snippet_views(prev).push(
                        cands[k as int]->0,
                    ));
                }
            } else {
                proof {
                    assert(cands[k as int] is None);
                }
            }
            proof {
                assert(snippet_views(results@) == kept(cands, k + 1));
            }
            if results.len() >= query.max_results {
                return Ok(results);
            }
            k = k + 1;
        }
        Ok(results)
    }
}

/// Drops position 0 from an exec index, moves every other position down by one,
/// and drops the keys left without positions.
fn shift_positions(index: &mut Vec<(String, Vec<usize>)>)
    requires
        distinct_keys(index_view(old(index)@)),
    ensures
        distinct_keys(index_view(final(index)@)),
        index_view(final(index)@) == shifted(index_view(old(index)@)),
{
    let ghost v0 = index_view(index@);
    let mut out: Vec<(String, Vec<usize>)> = Vec::new();
    let mut i: usize = 0;
    proof {
        assert(v0.take(0) =~= PositionIndex::empty());
        assert(index_view(out@) =~= PositionIndex::empty());
    }
    while i < index.len()
        invariant
            i <= index.len(),
            v0 == index_view(index@),
            index_view(out@) == shifted(v0.take(i as int)),
        decreases index.len() - i,
    {
        let positions = &index[i].1;
        let mut moved: Vec<usize> = Vec::new();
        let mut j: usize = 0;
        proof {
            assert(positions@.take(0) =~= Seq::<usize>::empty());
        }
        while j < positions.len()
            invariant
                j <= positions.len(),
                moved@ == after_eviction(positions@.take(j as int)),
            decreases positions.len() - j,
        {
            proof {
                assert(positions@.take(j + 1).drop_last() =~= positions@.take(j as int));
                assert(positions@.take(j + 1).last() == positions@[j as int]);
            }
            if positions[j] > 0 {
                moved.push(positions[j] - 1);
            }
            j = j + 1;
        }
        proof {
            assert(positions@.take(positions@.len() as int) =~= positions@);
            assert(v0.take(i + 1).drop_last() =~= v0.take(i as int));
            assert(v0.take(i + 1).last() == v0[i as int]);
        }
        if moved.len() > 0 {
            let ghost prev = out@;
            out.push((index[i].0.clone(), moved));
            proof {
                assert(index_view(out@) =~= index_view(prev).push((v0[i as int].0, moved@)));
            }
        }
        i = i + 1;
    }
    proof {
        assert(v0.take(v0.len() as int) =~= v0);
        lemma_shifted_keys(v0);
    }
    *index = out;
}

/// A record written to the structural engine is, as a fact, the first answer to
/// a query for its namespace, whatever the facts before it and the result cap.
pub proof fn lemma_written_fact_answers_first(
    facts: Seq<FactView>,
    namespace: Seq<char>,
    content: Seq<char>,
    max_results: int,
)
    ensures
        ({
            let f = fact_of(namespace, content);
            let answer = capped(fact_candidates(facts.push(f), namespace), max_results);
            answer.len() >= 1 && answer[0] == fact_snippet(f)
        }),
{
    let f = fact_of(namespace, content);
    lemma_contains_itself(namespace);
    let cands = fact_candidates(facts.push(f), namespace);
    assert(cands[0] == Some(fact_snippet(f)));
    lemma_first_candidate_answers_first(cands, max_results, fact_snippet(f));
}

/// The `k`-th newest fact answers a query exactly when its namespace contains
/// the query's session id or is contained in it (every fact answers an empty
/// session id); it answers as `subject | predicate | object` from its namespace.
pub proof fn lemma_fact_answers_by_containment(facts: Seq<FactView>, session: Seq<char>, k: int)
    requires
        0 <= k < facts.len(),
    ensures
        ({
            let f = facts[facts.len() - 1 - k];
            let related = session.len() == 0 || contains_text(f.namespace, session) || contains_text(
                session,
                f.namespace,
            );
            &&& related ==> fact_candidates(facts, session)[k] == Some(fact_snippet(f))
            &&& !related ==> fact_candidates(facts, session)[k] is None
        }),
{
}

/// A record just written is the first answer to every query whose session id
/// its namespace contains, or that contains its namespace.
pub proof fn lemma_written_fact_answers_related_sessions(
    facts: Seq<FactView>,
    namespace: Seq<char>,
    content: Seq<char>,
    session: Seq<char>,
    max_results: int,
)
    requires
        contains_text(namespace, session) || contains_text(session, namespace),
    ensures
        ({
            let f = fact_of(namespace, content);
            let answer = capped(fact_candidates(facts.push(f), session), max_results);
            answer.len() >= 1 && answer[0] == fact_snippet(f)
        }),
{
    let f = fact_of(namespace, content);
    let cands = fact_candidates(facts.push(f), session);
    assert(cands[0] == Some(fact_snippet(f)));
    lemma_first_candidate_answers_first(cands, max_results, fact_snippet(f));
}

/// A fact filed under `{session}-structural` (as the MCP ingest files it) is the
/// first answer to a query for `session` right after it is written.
pub proof fn lemma_ingested_fact_answers_its_session(
    facts: Seq<FactView>,
    session: Seq<char>,
    content: Seq<char>,
    max_results: int,
)
    ensures
        ({
            let f = fact_of(session + "-structural"@, content);
            let answer = capped(fact_candidates(facts.push(f), session), max_results);
            answer.len() >= 1 && answer[0] == fact_snippet(f) && answer[0].source == session
                + "-structural"@
        }),
{
    lemma_contains_prefix(session, "-structural"@);
    lemma_written_fact_answers_related_sessions(
        facts,
        session + "-structural"@,
        content,
        session,
        max_results,
    );
}

/// The facts after a run of writes of `(namespace, content)` records, each
/// evicting the oldest fact when `max_facts` are already held (as `write` does).
pub open spec fn facts_after_writes(
    facts: Seq<FactView>,
    records: Seq<(Seq<char>, Seq<char>)>,
    max_facts: int,
) -> Seq<FactView>
    decreases records.len(),
{
    if records.len() == 0 {
        facts
    } else {
        let before = facts_after_writes(facts, records.drop_last(), max_facts);
        let kept_facts = if before.len() >= max_facts {
            before.drop_first()
        } else {
            before
        };
        kept_facts.push(fact_of(records.last().0, records.last().1))
    }
}

/// A run of writes into an empty structural engine keeps the facts of the last
/// `max_facts` records, oldest first: the oldest facts are evicted first.
pub proof fn lemma_writes_keep_newest_facts(records: Seq<(Seq<char>, Seq<char>)>, max_facts: int)
    requires
        max_facts >= 1,
    ensures
        facts_after_writes(Seq::empty(), records, max_facts) == records.skip(
            newest_start(records.len() as int, max_facts),
        ).map_values(|r: (Seq<char>, Seq<char>)| fact_of(r.0, r.1)),
    decreases records.len(),
{
    let n = records.len() as int;
    if n > 0 {
        let prev = records.drop_last();
        lemma_writes_keep_newest_facts(prev, max_facts);
        let s0 = newest_start(n - 1, max_facts);
        let s1 = newest_start(n, max_facts);
        let before = facts_after_writes(Seq::empty(), prev, max_facts);
        assert(before.len() == n - 1 - s0);
        if before.len() >= max_facts {
            assert(s1 == s0 + 1);
            assert(before.drop_first() =~= prev.skip(s1).map_values(
                |r: (Seq<char>, Seq<char>)| fact_of(r.0, r.1),
            ));
        } else {
            assert(s0 == 0 && s1 == 0);
        }
        assert(records.skip(s1) =~= prev.skip(s1).push(records.last()));
        assert(records.skip(s1).map_values(|r: (Seq<char>, Seq<char>)| fact_of(r.0, r.1))
            =~= prev.skip(s1).map_values(|r: (Seq<char>, Seq<char>)| fact_of(r.0, r.1)).push(
            fact_of(records.last().0, records.last().1),
        ));
    } else {
        assert(records.skip(0).map_values(|r: (Seq<char>, Seq<char>)| fact_of(r.0, r.1))
            =~= Seq::<FactView>::empty());
    }
}

/// A query with an empty session id reaches every fact; when its cap covers
/// them all, the answer is every fact, newest first.
pub proof fn lemma_empty_session_answers_newest_first(facts: Seq<FactView>, max_results: int)
    requires
        max_results >= facts.len(),
    ensures
        capped(fact_candidates(facts, Seq::empty()), max_results) == Seq::new(
            facts.len(),
            |i: int| fact_snippet(facts[facts.len() - 1 - i]),
        ),
{
    let cands = fact_candidates(facts, Seq::empty());
    assert forall|i: int| 0 <= i < cands.len() implies (#[trigger] cands[i]) is Some by {
        assert(fact_matches(facts[facts.len() - 1 - i], Seq::empty()));
    }
    lemma_capped_keeps_all(cands, max_results);
    assert(Seq::new(cands.len(), |i: int| cands[i]->0) =~= Seq::new(
        facts.len(),
        |i: int| fact_snippet(facts[facts.len() - 1 - i]),
    ));
}

/// After a run of writes into an empty structural engine, a query with an empty
/// session id whose cap covers the writes answers with the facts of the last
/// `max_facts` writes, newest first.
pub proof fn lemma_run_answers_newest_facts_first(
    records: Seq<(Seq<char>, Seq<char>)>,
    max_facts: int,
    max_results: int,
)
    requires
        max_facts >= 1,
        max_results >= records.len(),
    ensures
        ({
            let n = records.len() as int;
            let facts = facts_after_writes(Seq::empty(), records, max_facts);
            capped(fact_candidates(facts, Seq::empty()), max_results) == Seq::new(
                (n - newest_start(n, max_facts)) as nat,
                |i: int| fact_snippet(fact_of(records[n - 1 - i].0, records[n - 1 - i].1)),
            )
        }),
{
    let n = records.len() as int;
    let facts = facts_after_writes(Seq::empty(), records, max_facts);
    let s = newest_start(n, max_facts);
    lemma_writes_keep_newest_facts(records, max_facts);
    assert(facts.len() == n - s);
    assert forall|i: int| 0 <= i < n - s implies #[trigger] facts[facts.len() - 1 - i] == fact_of(
        records[n - 1 - i].0,
        records[n - 1 - i].1,
    ) by {
        assert(records.skip(s)[n - s - 1 - i] == records[n - 1 - i]);
    }
    lemma_empty_session_answers_newest_first(facts, max_results);
    assert(Seq::new(facts.len(), |i: int| fact_snippet(facts[facts.len() - 1 - i])) =~= Seq::new(
        (n - newest_start(n, max_facts)) as nat,
        |i: int| fact_snippet(fact_of(records[n - 1 - i].0, records[n - 1 - i].1)),
    ));
}

} // verus!

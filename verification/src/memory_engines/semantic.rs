//! Semantic memory engine: records answered by namespace, or, when no namespace
//! matches, by keywords of the prompt looked up in a word index.

use std::collections::BTreeMap;

use vstd::prelude::*;

use crate::clock::{utc_now, Stamp};
use crate::context::ContextEngineType;
use crate::gateway_types::{snippet_views, ContextSnippet, EngineError, MemoryQuery, SnippetView};
use crate::memory::MemoryProviderKind;
use crate::memory_engines::{
    distinct_keys, has_key, index_view, key_index, positions_of, push_position, with_position,
    PositionIndex,
};
use crate::text::{contains, contains_text, lemma_contains_itself, lowercase, same_text, split_whitespace, to_lowercase, words};
use crate::MemoryRecord;

verus! {

/// Bits of the `f32` score `0.95` given to namespace matches.
pub const NAMESPACE_SCORE_BITS: u32 = 0x3f73_3333u32;

/// Bits of the `f32` score `0.8` given to keyword matches.
pub const KEYWORD_SCORE_BITS: u32 = 0x3f4c_cccdu32;

/// Configuration of the semantic engine.
#[derive(Debug, Clone)]
pub struct SemanticEngineConfig {
    /// Maximum number of results per query.
    pub max_results: usize,
    /// Whether content is indexed for keyword search.
    pub enable_keyword_search: bool,
}

impl Default for SemanticEngineConfig {
    fn default() -> (c: Self)
        ensures
            c.max_results == 50,
            c.enable_keyword_search,
    {
        Self { max_results: 50, enable_keyword_search: true }
    }
}

/// A stored semantic entry.
#[derive(Debug)]
struct SemanticEntry {
    record: MemoryRecord,
    /// When the entry was stored; absent when the clock read outside the dates it can stamp.
    created_at: Option<Stamp>,
    metadata: BTreeMap<String, String>,
}

/// Stored entries as values: `(namespace, content)`, in write order.
pub type Entries = Seq<(Seq<char>, Seq<char>)>;

/// `position` listed under every word of `ws`, word by word.
pub open spec fn indexed_words(index: PositionIndex, ws: Seq<Seq<char>>, position: usize) -> PositionIndex
    decreases ws.len(),
{
    if ws.len() == 0 {
        index
    } else {
        with_position(indexed_words(index, ws.drop_last(), position), ws.last(), position)
    }
}

/// The word index of a run of contents: every lower-cased word of the content at
/// position `i` lists `i`, once per occurrence.
pub open spec fn keyword_index(contents: Seq<Seq<char>>) -> PositionIndex
    decreases contents.len(),
{
    if contents.len() == 0 {
        Seq::empty()
    } else {
        indexed_words(
            keyword_index(contents.drop_last()),
            words(lowercase(contents.last())),
            (contents.len() - 1) as usize,
        )
    }
}

pub open spec fn contents_of(entries: Entries) -> Seq<Seq<char>> {
    entries.map_values(|e: (Seq<char>, Seq<char>)| e.1)
}

/// Every listed position is below `bound`.
pub open spec fn positions_below(index: PositionIndex, bound: int) -> bool {
    forall|i: int, j: int|
        0 <= i < index.len() && 0 <= j < index[i].1.len() ==> #[trigger] index[i].1[j] < bound
}

pub open spec fn namespace_snippet(e: (Seq<char>, Seq<char>)) -> SnippetView {
    SnippetView {
        source: e.0,
        engine_type: ContextEngineType::Semantic,
        content: e.1,
        score_bits: Some(NAMESPACE_SCORE_BITS),
    }
}

pub open spec fn keyword_snippet(e: (Seq<char>, Seq<char>)) -> SnippetView {
    SnippetView {
        source: e.0,
        engine_type: ContextEngineType::Semantic,
        content: e.1,
        score_bits: Some(KEYWORD_SCORE_BITS),
    }
}

pub open spec fn namespace_hit(namespace: Seq<char>, session: Seq<char>) -> bool {
    session.len() == 0 || contains_text(namespace, session) || contains_text(session, namespace)
}

/// Entries whose namespace matches the session, in write order.
pub open spec fn namespace_hits(entries: Entries, session: Seq<char>) -> Seq<SnippetView>
    decreases entries.len(),
{
    if entries.len() == 0 {
        Seq::empty()
    } else {
        let rest = namespace_hits(entries.drop_last(), session);
        if namespace_hit(entries.last().0, session) {
            rest.push(namespace_snippet(entries.last()))
        } else {
            rest
        }
    }
}

/// Entries listed under the given words, word by word, in index order.
pub open spec fn keyword_hits(entries: Entries, index: PositionIndex, ws: Seq<Seq<char>>) -> Seq<
    SnippetView,
>
    decreases ws.len(),
{
    if ws.len() == 0 {
        Seq::empty()
    } else {
        keyword_hits(entries, index, ws.drop_last()) + positions_of(index, ws.last()).map_values(
            |p: usize| keyword_snippet(entries[p as int]),
        )
    }
}

/// The first snippet of each content, in order.
pub open spec fn first_of_each_content(cands: Seq<SnippetView>) -> Seq<SnippetView>
    decreases cands.len(),
{
    if cands.len() == 0 {
        Seq::empty()
    } else {
        let r = first_of_each_content(cands.drop_last());
        if exists|k: int| 0 <= k < r.len() && #[trigger] r[k].content == cands.last().content {
            r
        } else {
            r.push(cands.last())
        }
    }
}

/// The answer to a query, at most `max_results` snippets: the first namespace
/// matches; when there are none, keyword search is enabled and the prompt is not
/// empty, the entries listed under the prompt's lower-cased words, the first
/// `max_results` hits kept, one per content.
pub open spec fn semantic_answer(
    entries: Entries,
    index: PositionIndex,
    keyword_search: bool,
    max_results: int,
    session: Seq<char>,
    prompt: Seq<char>,
) -> Seq<SnippetView> {
    let direct = namespace_hits(entries, session);
    if direct.len() == 0 && keyword_search && prompt.len() > 0 {
        let hits = keyword_hits(entries, index, words(lowercase(prompt)));
        let n = if max_results < hits.len() {
            max_results
        } else {
            hits.len() as int
        };
        first_of_each_content(hits.take(n))
    } else {
        direct.take(if max_results < direct.len() {
            max_results
        } else {
            direct.len() as int
        })
    }
}

/// Keeping the first snippet of each content never adds snippets.
proof fn lemma_first_of_each_content_len(cands: Seq<SnippetView>)
    ensures
        first_of_each_content(cands).len() <= cands.len(),
    decreases cands.len(),
{
    if cands.len() > 0 {
        lemma_first_of_each_content_len(cands.drop_last());
    }
}

proof fn lemma_with_position_keeps(index: PositionIndex, key: Seq<char>, position: usize, bound: int)
    requires
        distinct_keys(index),
        positions_below(index, bound),
        position < bound,
    ensures
        distinct_keys(with_position(index, key, position)),
        positions_below(with_position(index, key, position), bound),
{
    let r = with_position(index, key, position);
    if has_key(index, key) {
        let k = key_index(index, key);
        assert forall|i: int, j: int|
            0 <= i < r.len() && 0 <= j < r[i].1.len() implies #[trigger] r[i].1[j] < bound by {
            if i == k {
                if j < index[k].1.len() {
                    assert(r[i].1[j] == index[k].1[j]);
                }
            } else {
                assert(r[i] == index[i]);
            }
        }
        assert forall|i: int, j: int|
            0 <= i < r.len() && 0 <= j < r.len() && i != j implies #[trigger] r[i].0
            != #[trigger] r[j].0 by {
            assert(r[i].0 == index[i].0);
            assert(r[j].0 == index[j].0);
        }
    } else {
        assert forall|i: int, j: int|
            0 <= i < r.len() && 0 <= j < r[i].1.len() implies #[trigger] r[i].1[j] < bound by {
            if i < index.len() {
                assert(r[i] == index[i]);
            }
        }
        assert forall|i: int, j: int|
            0 <= i < r.len() && 0 <= j < r.len() && i != j implies #[trigger] r[i].0
            != #[trigger] r[j].0 by {
            if i < index.len() && j < index.len() {
                assert(r[i] == index[i]);
                assert(r[j] == index[j]);
            } else if i < index.len() {
                assert(r[i] == index[i]);
            } else {
                assert(r[j] == index[j]);
            }
        }
    }
}

proof fn lemma_indexed_words_keeps(index: PositionIndex, ws: Seq<Seq<char>>, position: usize, bound: int)
    requires
        distinct_keys(index),
        positions_below(index, bound),
        position < bound,
    ensures
        distinct_keys(indexed_words(index, ws, position)),
        positions_below(indexed_words(index, ws, position), bound),
    decreases ws.len(),
{
    if ws.len() > 0 {
        lemma_indexed_words_keeps(index, ws.drop_last(), position, bound);
        lemma_with_position_keeps(indexed_words(index, ws.drop_last(), position), ws.last(), position, bound);
    }
}

proof fn lemma_positions_below_grow(index: PositionIndex, a: int, b: int)
    requires
        positions_below(index, a),
        a <= b,
    ensures
        positions_below(index, b),
{
}

proof fn lemma_keyword_index_ok(contents: Seq<Seq<char>>)
    ensures
        distinct_keys(keyword_index(contents)),
        positions_below(keyword_index(contents), contents.len() as int),
    decreases contents.len(),
{
    if contents.len() > 0 {
        lemma_keyword_index_ok(contents.drop_last());
        lemma_positions_below_grow(
            keyword_index(contents.drop_last()),
            contents.len() - 1,
            contents.len() as int,
        );
        lemma_indexed_words_keeps(
            keyword_index(contents.drop_last()),
            words(lowercase(contents.last())),
            (contents.len() - 1) as usize,
            contents.len() as int,
        );
    }
}

proof fn lemma_positions_of_with_position(
    index: PositionIndex,
    key: Seq<char>,
    position: usize,
    w: Seq<char>,
    bound: int,
)
    requires
        distinct_keys(index),
        positions_below(index, bound),
        position < bound,
    ensures
        positions_of(with_position(index, key, position), w) == if key == w {
            positions_of(index, w).push(position)
        } else {
            positions_of(index, w)
        },
{
    let r = with_position(index, key, position);
    lemma_with_position_keeps(index, key, position, bound);
    if has_key(index, key) {
        let i = key_index(index, key);
        assert(r[i].0 == key);
        if key == w {
            assert(has_key(r, w));
            let j = key_index(r, w);
            if j != i {
                assert(r[j].0 != r[i].0);
            }
        } else {
            assert(has_key(r, w) == has_key(index, w)) by {
                if has_key(index, w) {
                    let j = key_index(index, w);
                    assert(r[j].0 == index[j].0);
                }
                if has_key(r, w) {
                    let j = key_index(r, w);
                    assert(r[j].0 == index[j].0);
                }
            }
            if has_key(r, w) {
                let j = key_index(r, w);
                let k = key_index(index, w);
                assert(j != i);
                assert(r[j] == index[j]);
                if j != k {
                    assert(index[j].0 != index[k].0);
                }
            }
        }
    } else {
        let n = index.len() as int;
        assert(r[n].0 == key);
        if key == w {
            assert(has_key(r, w));
            let j = key_index(r, w);
            if j != n {
                assert(r[j] == index[j]);
            }
        } else {
            assert(has_key(r, w) == has_key(index, w)) by {
                if has_key(index, w) {
                    let j = key_index(index, w);
                    assert(r[j] == index[j]);
                }
                if has_key(r, w) {
                    let j = key_index(r, w);
                    assert(j != n);
                    assert(r[j] == index[j]);
                }
            }
            if has_key(r, w) {
                let j = key_index(r, w);
                let k = key_index(index, w);
                assert(j != n);
                assert(r[j] == index[j]);
                if j != k {
                    assert(index[j].0 != index[k].0);
                }
            }
        }
    }
}

proof fn lemma_indexed_words_contains(
    index: PositionIndex,
    ws: Seq<Seq<char>>,
    position: usize,
    w: Seq<char>,
    q: usize,
)
    requires
        distinct_keys(index),
        positions_below(index, position + 1),
    ensures
        positions_of(indexed_words(index, ws, position), w).contains(q) <==> (positions_of(
            index,
            w,
        ).contains(q) || (q == position && ws.contains(w))),
    decreases ws.len(),
{
    if ws.len() > 0 {
        let before = indexed_words(index, ws.drop_last(), position);
        lemma_indexed_words_contains(index, ws.drop_last(), position, w, q);
        lemma_indexed_words_keeps(index, ws.drop_last(), position, position + 1);
        lemma_positions_of_with_position(before, ws.last(), position, w, position + 1);
        let pb = positions_of(before, w);
        assert(pb.push(position).contains(q) <==> (pb.contains(q) || q == position)) by {
            if pb.push(position).contains(q) {
                let k = choose|k: int| 0 <= k < pb.push(position).len() && pb.push(position)[k] == q;
                if k < pb.len() {
                    assert(pb[k] == q);
                }
            }
            if pb.contains(q) {
                let k = choose|k: int| 0 <= k < pb.len() && pb[k] == q;
                assert(pb.push(position)[k] == q);
            }
            if q == position {
                assert(pb.push(position)[pb.len() as int] == q);
            }
        }
        assert(ws.contains(w) <==> (ws.drop_last().contains(w) || ws.last() == w)) by {
            if ws.contains(w) {
                let k = choose|k: int| 0 <= k < ws.len() && ws[k] == w;
                if k < ws.len() - 1 {
                    assert(ws.drop_last()[k] == w);
                }
            }
            if ws.drop_last().contains(w) {
                let k = choose|k: int| 0 <= k < ws.drop_last().len() && ws.drop_last()[k] == w;
                assert(ws[k] == w);
            }
            if ws.last() == w {
                assert(ws[ws.len() - 1] == w);
            }
        }
    }
}

/// The word index of a run of contents lists position `p` under the word `w`
/// exactly when `w` is a word of the lower-cased content at `p`.
pub proof fn lemma_keyword_index_lists_content_words(contents: Seq<Seq<char>>, w: Seq<char>, p: int)
    requires
        0 <= p < contents.len(),
        contents.len() <= usize::MAX,
    ensures
        positions_of(keyword_index(contents), w).contains(p as usize) <==> words(
            lowercase(contents[p]),
        ).contains(w),
    decreases contents.len(),
{
    let n = contents.len() as int;
    let prev = contents.drop_last();
    lemma_keyword_index_ok(prev);
    lemma_positions_below_grow(keyword_index(prev), n - 1, n);
    lemma_indexed_words_contains(
        keyword_index(prev),
        words(lowercase(contents.last())),
        (n - 1) as usize,
        w,
        p as usize,
    );
    if p < n - 1 {
        lemma_keyword_index_lists_content_words(prev, w, p);
        assert(prev[p] == contents[p]);
    } else {
        if positions_of(keyword_index(prev), w).contains((n - 1) as usize) {
            let k = choose|k: int|
                0 <= k < positions_of(keyword_index(prev), w).len() && positions_of(
                    keyword_index(prev),
                    w,
                )[k] == (n - 1) as usize;
            let i = key_index(keyword_index(prev), w);
            assert(keyword_index(prev)[i].1[k] < n - 1);
        }
    }
}

/// In-memory semantic engine.
pub struct SemanticEngine {
    config: SemanticEngineConfig,
    store: Vec<SemanticEntry>,
    index: Vec<(String, Vec<usize>)>,
}

impl SemanticEngine {
    pub closed spec fn settings(&self) -> SemanticEngineConfig {
        self.config
    }

    /// Stored entries, in write order.
    pub closed spec fn entries(&self) -> Entries {
        self.store@.map_values(|e: SemanticEntry| (e.record.namespace@, e.record.content@))
    }

    /// The keyword index.
    pub closed spec fn word_index(&self) -> PositionIndex {
        index_view(self.index@)
    }

    /// With keyword search on, the index is exactly the word index of the contents.
    pub closed spec fn wf(&self) -> bool {
        &&& distinct_keys(self.word_index())
        &&& self.config.enable_keyword_search ==> self.word_index() == keyword_index(
            contents_of(self.entries()),
        )
    }

    /// With keyword search on, the engine's word index lists each stored entry
    /// under exactly the words of its lower-cased content.
    pub proof fn lemma_index_lists_content_words(&self, w: Seq<char>, p: int)
        requires
            self.wf(),
            self.settings().enable_keyword_search,
            0 <= p < self.entries().len(),
        ensures
            positions_of(self.word_index(), w).contains(p as usize) <==> words(
                lowercase(self.entries()[p].1),
            ).contains(w),
    {
        assert(self.store@.len() == self.store.len());
        lemma_keyword_index_lists_content_words(contents_of(self.entries()), w, p);
    }

    pub fn new(config: SemanticEngineConfig) -> (e: Self)
        ensures
            e.wf(),
            e.settings() == config,
            e.entries() == Entries::empty(),
    {
        let e = Self { config, store: Vec::new(), index: Vec::new() };
        proof {
            assert(e.entries() =~= Entries::empty());
            assert(e.word_index() =~= PositionIndex::empty());
            assert(contents_of(e.entries()) =~= Seq::<Seq<char>>::empty());
        }
        e
    }

    pub fn with_default_config() -> (e: Self)
        ensures
            e.wf(),
            e.settings().max_results == 50,
            e.settings().enable_keyword_search,
            e.entries() == Entries::empty(),
    {
        Self::new(SemanticEngineConfig::default())
    }

    /// Lists `position` under every lower-cased word of `content`.
    fn index_words(&mut self, content: &str, position: usize)
        requires
            distinct_keys(old(self).word_index()),
        ensures
            final(self).word_index() == indexed_words(
                old(self).word_index(),
                words(lowercase(content@)),
                position,
            ),
            distinct_keys(final(self).word_index()),
            final(self).store@ == old(self).store@,
            final(self).config == old(self).config,
    {
        let lowered = to_lowercase(content);
        let ws = split_whitespace(lowered.as_str());
        let ghost all = ws@.map_values(|w: &str| w@);
        let ghost i0 = self.word_index();
        let mut k: usize = 0;
        proof {
            assert(all.take(0) =~= Seq::<Seq<char>>::empty());
        }
        while k < ws.len()
            invariant
                k <= ws.len(),
                all == ws@.map_values(|w: &str| w@),
                all == words(lowercase(content@)),
                self.word_index() == indexed_words(i0, all.take(k as int), position),
                distinct_keys(self.word_index()),
                self.store@ == old(self).store@,
                self.config == old(self).config,
            decreases ws.len() - k,
        {
            push_position(&mut self.index, ws[k], position);
            proof {
                assert(all.take(k + 1).drop_last() =~= all.take(k as int));
                assert(all.take(k + 1).last() == all[k as int]);
            }
            k = k + 1;
        }
        proof {
            assert(all.take(ws@.len() as int) =~= all);
        }
    }

    /// Rebuilds the keyword index from the stored entries.
    fn rebuild_index(&mut self)
        ensures
            final(self).word_index() == keyword_index(contents_of(old(self).entries())),
            final(self).store@ == old(self).store@,
            final(self).config == old(self).config,
    {
        self.index = Vec::new();
        let ghost contents = contents_of(self.entries());
        let mut i: usize = 0;
        proof {
            assert(self.word_index() =~= PositionIndex::empty());
            assert(contents.take(0) =~= Seq::<Seq<char>>::empty());
        }
        while i < self.store.len()
            invariant
                i <= self.store.len(),
                contents == contents_of(self.entries()),
                self.store@ == old(self).store@,
                self.config == old(self).config,
                self.word_index() == keyword_index(contents.take(i as int)),
            decreases self.store.len() - i,
        {
            proof {
                lemma_keyword_index_ok(contents.take(i as int));
                assert(contents.take(i + 1).drop_last() =~= contents.take(i as int));
                assert(contents.take(i + 1).last() == contents[i as int]);
            }
            let content = self.store[i].record.content.clone();
            self.index_words(content.as_str(), i);
            i = i + 1;
        }
        proof {
            assert(contents.take(contents.len() as int) =~= contents);
        }
    }

    pub fn memory_type(&self) -> (k: MemoryProviderKind)
        ensures
            k == MemoryProviderKind::Semantic,
    {
        MemoryProviderKind::Semantic
    }

    /// Stores the record and, with keyword search on, indexes its words. Never fails.
    pub fn write(&mut self, record: MemoryRecord) -> (r: Result<(), EngineError>)
        requires
            old(self).wf(),
        ensures
            r is Ok,
            final(self).wf(),
            final(self).settings() == old(self).settings(),
            final(self).entries() == old(self).entries().push((record.namespace@, record.content@)),
    {
        let ghost e0 = self.entries();
        let idx = self.store.len();
        let entry = SemanticEntry { record, created_at: utc_now(), metadata: BTreeMap::new() };
        let ghost added = (entry.record.namespace@, entry.record.content@);
        self.store.push(entry);
        proof {
            assert(self.entries() =~= e0.push(added));
            assert(contents_of(self.entries()) =~= contents_of(e0).push(added.1));
            assert(contents_of(self.entries()).drop_last() =~= contents_of(e0));
        }
        if self.config.enable_keyword_search {
            let content = self.store[idx].record.content.clone();
            self.index_words(content.as_str(), idx);
        }
        Ok(())
    }

    /// Namespace matches, else keyword hits (see `semantic_answer`). Keyword hits
    /// all share one score, so ordering them by score leaves them in the order found.
    /// Never fails.
    pub fn query(&self, query: MemoryQuery) -> (r: Result<Vec<ContextSnippet>, EngineError>)
        requires
            self.wf(),
        ensures
            r matches Ok(snippets) && snippet_views(snippets@) == semantic_answer(
                self.entries(),
                self.word_index(),
                self.settings().enable_keyword_search,
                self.settings().max_results as int,
                query.session_id@,
                query.prompt@,
            ),
            r matches Ok(snippets) && snippets@.len() <= self.settings().max_results,
    {
        let mut direct = self.namespace_matches(&query.session_id);
        if direct.len() == 0 && self.config.enable_keyword_search && !query.prompt.as_str().is_empty() {
            proof {
                lemma_keyword_index_ok(contents_of(self.entries()));
            }
            let hits = self.keyword_matches(query.prompt.as_str());
            let n = if self.config.max_results < hits.len() {
                self.config.max_results
            } else {
                hits.len()
            };
            let r = first_per_content(&hits, n);
            proof {
                lemma_first_of_each_content_len(snippet_views(hits@).take(n as int));
                assert(snippet_views(r@).len() == r@.len());
            }
            Ok(r)
        } else {
            let ghost all = direct@;
            if self.config.max_results < direct.len() {
                direct.truncate(self.config.max_results);
                proof {
                    assert(snippet_views(direct@) =~= snippet_views(all).take(
                        self.config.max_results as int,
                    ));
                }
            } else {
                proof {
                    assert(snippet_views(all).take(snippet_views(all).len() as int) =~= snippet_views(
                        all,
                    ));
                }
            }
            Ok(direct)
        }
    }

    fn namespace_matches(&self, session: &String) -> (r: Vec<ContextSnippet>)
        ensures
            snippet_views(r@) == namespace_hits(self.entries(), session@),
    {
        let mut results: Vec<ContextSnippet> = Vec::new();
        let mut i: usize = 0;
        proof {
            assert(self.entries().take(0) =~= Entries::empty());
            assert(snippet_views(results@) =~= Seq::<SnippetView>::empty());
        }
        while i < self.store.len()
            invariant
                i <= self.store.len(),
                snippet_views(results@) == namespace_hits(self.entries().take(i as int), session@),
            decreases self.store.len() - i,
        {
            let ns = self.store[i].record.namespace.as_str();
            let ghost prev = results@;
            proof {
                assert(self.entries().take(i + 1).drop_last() =~= self.entries().take(i as int));
                assert(self.entries().take(i + 1).last() == self.entries()[i as int]);
            }
            if session.as_str().is_empty() || contains(ns, session.as_str()) || contains(
                session.as_str(),
                ns,
            ) {
                results.push(
                    ContextSnippet {
                        source: self.store[i].record.namespace.clone(),
                        engine_type: ContextEngineType::Semantic,
                        content: self.store[i].record.content.clone(),
                        score_bits: Some(NAMESPACE_SCORE_BITS),
                    },
                );
                proof {
                    assert(snippet_views(results@) =~= snippet_views(prev).push(
                        namespace_snippet(self.entries()[i as int]),
                    ));
                }
            }
            i = i + 1;
        }
        proof {
            assert(self.entries().take(self.store@.len() as int) =~= self.entries());
        }
        results
    }

    /// Entries listed under each lower-cased word of the prompt.
    fn keyword_matches(&self, prompt: &str) -> (r: Vec<ContextSnippet>)
        requires
            distinct_keys(self.word_index()),
            positions_below(self.word_index(), self.store@.len() as int),
        ensures
            snippet_views(r@) == keyword_hits(
                self.entries(),
                self.word_index(),
                words(lowercase(prompt@)),
            ),
    {
        let lowered = to_lowercase(prompt);
        let ws = split_whitespace(lowered.as_str());
        let ghost all = ws@.map_values(|w: &str| w@);
        let ghost entries = self.entries();
        let mut results: Vec<ContextSnippet> = Vec::new();
        let mut k: usize = 0;
        proof {
            assert(all.take(0) =~= Seq::<Seq<char>>::empty());
            assert(snippet_views(results@) =~= Seq::<SnippetView>::empty());
        }
        while k < ws.len()
            invariant
                k <= ws.len(),
                all == ws@.map_values(|w: &str| w@),
                entries == self.entries(),
                distinct_keys(self.word_index()),
                positions_below(self.word_index(), self.store@.len() as int),
                snippet_views(results@) == keyword_hits(entries, self.word_index(), all.take(k as int)),
            decreases ws.len() - k,
        {
            proof {
                assert(all.take(k + 1).drop_last() =~= all.take(k as int));
                assert(all.take(k + 1).last() == all[k as int]);
            }
            let ghost r0 = snippet_views(results@);
            let ghost ps = positions_of(self.word_index(), all[k as int]);
            match self.index_position(ws[k]) {
                Some(w) => {
                    let positions = &self.index[w].1;
                    let mut j: usize = 0;
                    proof {
                        assert(ps == positions@);
                        assert(r0 + ps.take(0).map_values(|p: usize| keyword_snippet(entries[p as int]))
                            =~= r0);
                    }
                    while j < positions.len()
                        invariant
                            j <= positions.len(),
                            ps == positions@,
                            entries == self.entries(),
                            forall|m: int| 0 <= m < ps.len() ==> #[trigger] ps[m] < self.store@.len(),
                            snippet_views(results@) == r0 + ps.take(j as int).map_values(
                                |p: usize| keyword_snippet(entries[p as int]),
                            ),
                        decreases positions.len() - j,
                    {
                        let p = positions[j];
                        let ghost prev = results@;
                        results.push(
                            ContextSnippet {
                                source: self.store[p].record.namespace.clone(),
                                engine_type: ContextEngineType::Semantic,
                                content: self.store[p].record.content.clone(),
                                score_bits: Some(KEYWORD_SCORE_BITS),
                            },
                        );
                        proof {
                            assert(ps.take(j + 1) =~= ps.take(j as int).push(ps[j as int]));
                            assert(snippet_views(results@) =~= snippet_views(prev).push(
                                keyword_snippet(entries[p as int]),
                            ));
                            assert(ps.take(j + 1).map_values(
                                |p: usize| keyword_snippet(entries[p as int]),
                            ) =~= ps.take(j as int).map_values(
                                |p: usize| keyword_snippet(entries[p as int]),
                            ).push(keyword_snippet(entries[p as int])));
                        }
                        j = j + 1;
                    }
                    proof {
                        assert(ps.take(positions@.len() as int) =~= ps);
                    }
                },
                None => {
                    proof {
                        assert(ps =~= Seq::<usize>::empty());
                        assert(r0 + Seq::<SnippetView>::empty() =~= r0);
                    }
                },
            }
            k = k + 1;
        }
        proof {
            assert(all.take(ws@.len() as int) =~= all);
        }
        results
    }

    /// Where `word` sits in the index, if it is listed.
    fn index_position(&self, word: &str) -> (r: Option<usize>)
        requires
            distinct_keys(self.word_index()),
            positions_below(self.word_index(), self.store@.len() as int),
        ensures
            match r {
                Some(w) => w < self.index@.len() && has_key(self.word_index(), word@) && key_index(
                    self.word_index(),
                    word@,
                ) == w,
                None => !has_key(self.word_index(), word@),
            },
    {
        let mut i: usize = 0;
        while i < self.index.len()
            invariant
                i <= self.index.len(),
                distinct_keys(self.word_index()),
                forall|j: int| 0 <= j < i ==> #[trigger] self.word_index()[j].0 != word@,
            decreases self.index.len() - i,
        {
            if same_text(self.index[i].0.as_str(), word) {
                proof {
                    assert(self.word_index()[i as int].0 == word@);
                    assert(has_key(self.word_index(), word@));
                    let c = key_index(self.word_index(), word@);
                    if c != i {
                        assert(self.word_index()[c].0 != self.word_index()[i as int].0);
                    }
                }
                return Some(i);
            }
            i = i + 1;
        }
        None
    }
}

/// The first snippet of each content among the first `n` candidates.
fn first_per_content(cands: &Vec<ContextSnippet>, n: usize) -> (r: Vec<ContextSnippet>)
    requires
        n <= cands@.len(),
    ensures
        snippet_views(r@) == first_of_each_content(snippet_views(cands@).take(n as int)),
{
    let ghost all = snippet_views(cands@);
    let mut results: Vec<ContextSnippet> = Vec::new();
    let mut i: usize = 0;
    proof {
        assert(all.take(0) =~= Seq::<SnippetView>::empty());
        assert(snippet_views(results@) =~= Seq::<SnippetView>::empty());
    }
    while i < n
        invariant
            i <= n,
            n <= cands@.len(),
            all == snippet_views(cands@),
            snippet_views(results@) == first_of_each_content(all.take(i as int)),
        decreases n - i,
    {
        let ghost r = snippet_views(results@);
        proof {
            assert(all.take(i + 1).drop_last() =~= all.take(i as int));
            assert(all.take(i + 1).last() == all[i as int]);
        }
        let mut k: usize = 0;
        let mut seen = false;
        while k < results.len()
            invariant
                k <= results.len(),
                i < n,
                n <= cands@.len(),
                all == snippet_views(cands@),
                r == snippet_views(results@),
                seen <==> exists|m: int| 0 <= m < k && #[trigger] r[m].content == all[i as int].content,
            decreases results.len() - k,
        {
            if results[k].content == cands[i].content {
                seen = true;
                proof {
                    assert(r[k as int].content == all[i as int].content);
                }
            }
            k = k + 1;
        }
        if !seen {
            let c = &cands[i];
            results.push(
                ContextSnippet {
                    source: c.source.clone(),
                    engine_type: c.engine_type,
                    content: c.content.clone(),
                    score_bits: c.score_bits,
                },
            );
            proof {
                assert(snippet_views(results@) =~= r.push(all[i as int]));
            }
        }
        i = i + 1;
    }
    results
}

proof fn lemma_first_of_each_content_covers(cands: Seq<SnippetView>, j: int)
    requires
        0 <= j < cands.len(),
    ensures
        exists|k: int|
            0 <= k < first_of_each_content(cands).len() && #[trigger] first_of_each_content(
                cands,
            )[k].content == cands[j].content,
    decreases cands.len(),
{
    let d = cands.drop_last();
    let r = first_of_each_content(d);
    if j < cands.len() - 1 {
        lemma_first_of_each_content_covers(d, j);
        let k = choose|k: int| 0 <= k < r.len() && #[trigger] r[k].content == d[j].content;
        assert(first_of_each_content(cands)[k] == r[k]);
    } else if exists|k: int| 0 <= k < r.len() && #[trigger] r[k].content == cands.last().content {
        let k = choose|k: int| 0 <= k < r.len() && #[trigger] r[k].content == cands.last().content;
        assert(first_of_each_content(cands)[k] == r[k]);
    } else {
        assert(first_of_each_content(cands)[r.len() as int] == cands.last());
    }
}

proof fn lemma_first_of_each_content_distinct(cands: Seq<SnippetView>)
    ensures
        forall|a: int, b: int|
            0 <= a < b < first_of_each_content(cands).len() ==> (#[trigger] first_of_each_content(
                cands,
            )[a]).content != (#[trigger] first_of_each_content(cands)[b]).content,
    decreases cands.len(),
{
    if cands.len() > 0 {
        let d = cands.drop_last();
        let r = first_of_each_content(d);
        lemma_first_of_each_content_distinct(d);
        let out = first_of_each_content(cands);
        assert forall|a: int, b: int| 0 <= a < b < out.len() implies (#[trigger] out[a]).content
            != (#[trigger] out[b]).content by {
            assert(out[a] == r[a]);
            if b < r.len() {
                assert(out[b] == r[b]);
            } else {
                assert(out[b] == cands.last());
                if r[a].content == cands.last().content {
                    assert(exists|k: int| 0 <= k < r.len() && #[trigger] r[k].content == cands.last().content);
                }
            }
        }
    }
}

/// The entries listed under a word of `ws` are keyword hits for `ws`.
proof fn lemma_keyword_hits_include(entries: Entries, index: PositionIndex, ws: Seq<Seq<char>>, w: Seq<char>, p: usize)
    requires
        ws.contains(w),
        positions_of(index, w).contains(p),
    ensures
        keyword_hits(entries, index, ws).contains(keyword_snippet(entries[p as int])),
    decreases ws.len(),
{
    let d = ws.drop_last();
    let tail = positions_of(index, ws.last()).map_values(|q: usize| keyword_snippet(entries[q as int]));
    let before = keyword_hits(entries, index, d);
    if ws.last() == w {
        let k = choose|k: int| 0 <= k < positions_of(index, w).len() && positions_of(index, w)[k] == p;
        assert((before + tail)[before.len() + k] == keyword_snippet(entries[p as int]));
    } else {
        let k = choose|k: int| 0 <= k < ws.len() && ws[k] == w;
        assert(d[k] == w);
        lemma_keyword_hits_include(entries, index, d, w, p);
        let m = choose|m: int| 0 <= m < before.len() && before[m] == keyword_snippet(entries[p as int]);
        assert((before + tail)[m] == keyword_snippet(entries[p as int]));
    }
}

/// When no namespace matches and keyword search runs on a non-empty prompt,
/// the answer holds each content at most once, and holds the content of every
/// keyword hit among the first `max_results` hits.
pub proof fn lemma_keyword_answer_keeps_early_hits(
    entries: Entries,
    index: PositionIndex,
    max_results: int,
    session: Seq<char>,
    prompt: Seq<char>,
)
    requires
        namespace_hits(entries, session).len() == 0,
        prompt.len() > 0,
    ensures
        ({
            let hits = keyword_hits(entries, index, words(lowercase(prompt)));
            let answer = semantic_answer(entries, index, true, max_results, session, prompt);
            &&& forall|a: int, b: int|
                0 <= a < b < answer.len() ==> (#[trigger] answer[a]).content != (#[trigger] answer[b]).content
            &&& forall|i: int|
                0 <= i < hits.len() && i < max_results ==> exists|k: int|
                    0 <= k < answer.len() && (#[trigger] answer[k]).content == (#[trigger] hits[i]).content
        }),
{
    let hits = keyword_hits(entries, index, words(lowercase(prompt)));
    let n = if max_results < hits.len() {
        max_results
    } else {
        hits.len() as int
    };
    let answer = semantic_answer(entries, index, true, max_results, session, prompt);
    lemma_first_of_each_content_distinct(hits.take(n));
    assert forall|i: int| 0 <= i < hits.len() && i < max_results implies exists|k: int|
        0 <= k < answer.len() && (#[trigger] answer[k]).content == (#[trigger] hits[i]).content by {
        assert(hits.take(n)[i] == hits[i]);
        lemma_first_of_each_content_covers(hits.take(n), i);
        let k = choose|k: int|
            0 <= k < first_of_each_content(hits.take(n)).len() && #[trigger] first_of_each_content(
                hits.take(n),
            )[k].content == hits.take(n)[i].content;
        assert(answer[k].content == hits[i].content);
    }
}

/// With keyword search on and no namespace match, every stored entry whose
/// lower-cased content shares a word with the lower-cased prompt is a keyword
/// hit; so it is answered (once per content) when it is among the first
/// `max_results` hits.
pub proof fn lemma_entry_sharing_a_prompt_word_is_a_hit(
    entries: Entries,
    prompt: Seq<char>,
    w: Seq<char>,
    p: int,
)
    requires
        0 <= p < entries.len(),
        entries.len() <= usize::MAX,
        words(lowercase(prompt)).contains(w),
        words(lowercase(entries[p].1)).contains(w),
    ensures
        keyword_hits(
            entries,
            keyword_index(contents_of(entries)),
            words(lowercase(prompt)),
        ).contains(keyword_snippet(entries[p])),
{
    let contents = contents_of(entries);
    assert(contents[p] == entries[p].1);
    lemma_keyword_index_lists_content_words(contents, w, p);
    lemma_keyword_hits_include(entries, keyword_index(contents), words(lowercase(prompt)), w, p as usize);
}

/// A query whose session is the namespace just written answers by namespace:
/// the first namespace matches, up to the result limit. When the limit covers
/// every match, the last answer is the record written.
pub proof fn lemma_written_record_answers_its_namespace(
    entries: Entries,
    index: PositionIndex,
    keyword_search: bool,
    max_results: int,
    namespace: Seq<char>,
    content: Seq<char>,
    prompt: Seq<char>,
)
    requires
        max_results >= 0,
    ensures
        ({
            let all = entries.push((namespace, content));
            let hits = namespace_hits(all, namespace);
            let answer = semantic_answer(all, index, keyword_search, max_results, namespace, prompt);
            &&& hits.len() >= 1
            &&& hits.last() == namespace_snippet((namespace, content))
            &&& max_results < hits.len() ==> answer == hits.take(max_results)
            &&& max_results >= hits.len() ==> answer == hits
        }),
{
    lemma_contains_itself(namespace);
    let all = entries.push((namespace, content));
    let hits = namespace_hits(all, namespace);
    assert(all.drop_last() == entries);
    assert(namespace_hit(all.last().0, namespace));
    assert(hits.take(hits.len() as int) =~= hits);
}
} // verus!

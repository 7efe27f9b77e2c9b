//! Deterministic merge and synthesis of engine snippets.
//!
//! Engines are visited in precedence order, then the engines the precedence
//! leaves out, in name order; within an engine, snippets are taken in rank
//! order, equal ranks in the order the engine returned them. A snippet whose
//! dedupe key was already
//! seen is dropped; otherwise its key is recorded and the snippet is admitted if
//! it fits in what is left of the token budget, and dropped if it does not.
//! Admitted snippets are rendered as `[engine] text`, separated by blank lines.

use vstd::prelude::*;
use vstd::string::StringExecFns;

use crate::context::{
    AssembledContext, ContextRequest, EngineLookupResult, EngineSnippet, TokenBudget,
};
use crate::merge_order::{
    by_rank, holds_text, lemma_by_rank_sorts, lemma_unlisted_names, rank_order, strictly_sorted,
    unlisted_engine_names, unlisted_names, is_listed,
};
use crate::text::{
    same_text, concat3, debug_option_string, debug_option_text, lowercase, to_lowercase, trim, trim_spec,
};

verus! {

/// The key under which two snippets count as the same: the source reference when
/// there is one, else the trimmed, lower-cased text.
pub open spec fn snippet_key(s: EngineSnippet) -> Seq<char> {
    match s.source_ref {
        Some(r) => r@,
        None => lowercase(trim_spec(s.text@)),
    }
}

/// Where a merge stands after some snippets have been considered.
pub struct AssemblyState {
    /// Every dedupe key met so far, in order.
    pub seen: Seq<Seq<char>>,
    /// Keys of the admitted snippets, in order.
    pub admitted: Seq<Seq<char>>,
    pub used: int,
    pub dropped: int,
    pub output: Seq<char>,
    pub warnings: Seq<Seq<char>>,
}

pub open spec fn initial_state() -> AssemblyState {
    AssemblyState {
        seen: Seq::empty(),
        admitted: Seq::empty(),
        used: 0,
        dropped: 0,
        output: Seq::empty(),
        warnings: Seq::empty(),
    }
}

/// `output` with one more `[name] text` section, a blank line apart from what precedes it.
pub open spec fn with_section(output: Seq<char>, name: Seq<char>, text: Seq<char>) -> Seq<char> {
    let prefix = if output.len() == 0 {
        output
    } else {
        output + "\n\n"@
    };
    prefix + "["@ + name + "] "@ + text
}

pub open spec fn missing_engine_warning(name: Seq<char>) -> Seq<char> {
    "configured precedence references missing engine '"@ + name + "'"@
}

pub open spec fn failed_engine_warning(name: Seq<char>, error: Option<Seq<char>>) -> Seq<char> {
    "engine '"@ + name + "' failed: "@ + debug_option_text(error)
}

/// One snippet of engine `name` considered against a budget of `budget` tokens.
pub open spec fn admit_snippet(
    st: AssemblyState,
    name: Seq<char>,
    s: EngineSnippet,
    budget: int,
) -> AssemblyState {
    let key = snippet_key(s);
    if st.seen.contains(key) {
        AssemblyState { dropped: st.dropped + 1, ..st }
    } else if st.used + s.estimated_tokens > budget {
        AssemblyState { seen: st.seen.push(key), dropped: st.dropped + 1, ..st }
    } else {
        AssemblyState {
            seen: st.seen.push(key),
            admitted: st.admitted.push(key),
            used: st.used + s.estimated_tokens,
            output: with_section(st.output, name, s.text@),
            ..st
        }
    }
}

/// The snippets of engine `name`, considered one after the other.
pub open spec fn admit_snippets(
    st: AssemblyState,
    name: Seq<char>,
    snippets: Seq<EngineSnippet>,
    budget: int,
) -> AssemblyState
    decreases snippets.len(),
{
    if snippets.len() == 0 {
        st
    } else {
        admit_snippet(
            admit_snippets(st, name, snippets.drop_last(), budget),
            name,
            snippets.last(),
            budget,
        )
    }
}

pub open spec fn has_result_named(results: Seq<EngineLookupResult>, name: Seq<char>) -> bool {
    exists|i: int| 0 <= i < results.len() && #[trigger] results[i].engine_name@ == name
}

/// `i` is the first position of a result named `name`.
pub open spec fn is_first_named(results: Seq<EngineLookupResult>, name: Seq<char>, i: int) -> bool {
    &&& 0 <= i < results.len()
    &&& results[i].engine_name@ == name
    &&& forall|j: int| 0 <= j < i ==> #[trigger] results[j].engine_name@ != name
}

pub open spec fn first_named(results: Seq<EngineLookupResult>, name: Seq<char>) -> int {
    choose|i: int| is_first_named(results, name, i)
}

/// The engine named `name` merged in: a warning when it is missing or failed,
/// its snippets in rank order otherwise.
pub open spec fn merge_engine(
    st: AssemblyState,
    name: Seq<char>,
    results: Seq<EngineLookupResult>,
    budget: int,
) -> AssemblyState {
    if !has_result_named(results, name) {
        AssemblyState { warnings: st.warnings.push(missing_engine_warning(name)), ..st }
    } else {
        let r = results[first_named(results, name)];
        if r.metrics.failed {
            AssemblyState {
                warnings: st.warnings.push(failed_engine_warning(name, r.error.deep_view())),
                ..st
            }
        } else {
            admit_snippets(st, name, by_rank(r.snippets@), budget)
        }
    }
}

/// The engines named by `names`, merged in one after the other.
pub open spec fn merge_names(names: Seq<Seq<char>>, results: Seq<EngineLookupResult>, budget: int) -> AssemblyState
    decreases names.len(),
{
    if names.len() == 0 {
        initial_state()
    } else {
        merge_engine(merge_names(names.drop_last(), results, budget), names.last(), results, budget)
    }
}

/// The order engines are merged in: the precedence list, then the engines it
/// leaves out, in name order.
pub open spec fn merge_order(precedence: Seq<String>, results: Seq<EngineLookupResult>) -> Seq<Seq<char>> {
    precedence.map_values(|p: String| p@) + unlisted_names(precedence, results, results.len() as int)
}

/// The whole merge.
pub open spec fn merged(precedence: Seq<String>, results: Seq<EngineLookupResult>, budget: int) -> AssemblyState {
    merge_names(merge_order(precedence, results), results, budget)
}

/// Number of snippets an engine named `name` contributes to the merge.
pub open spec fn considered_for(results: Seq<EngineLookupResult>, name: Seq<char>) -> int {
    if has_result_named(results, name) && !results[first_named(results, name)].metrics.failed {
        results[first_named(results, name)].snippets@.len() as int
    } else {
        0
    }
}

/// Number of snippets the merge of `names` considers.
pub open spec fn considered_count(names: Seq<Seq<char>>, results: Seq<EngineLookupResult>) -> int
    decreases names.len(),
{
    if names.len() == 0 {
        0
    } else {
        considered_count(names.drop_last(), results) + considered_for(results, names.last())
    }
}

/// Number of entries of `names` whose engine is missing or failed.
pub open spec fn unavailable_count(names: Seq<Seq<char>>, results: Seq<EngineLookupResult>) -> int
    decreases names.len(),
{
    if names.len() == 0 {
        0
    } else {
        let name = names.last();
        unavailable_count(names.drop_last(), results) + if !has_result_named(results, name)
            || results[first_named(results, name)].metrics.failed {
            1int
        } else {
            0int
        }
    }
}

/// What every reachable merge state satisfies.
pub open spec fn state_ok(st: AssemblyState, budget: int) -> bool {
    &&& 0 <= st.used <= budget
    &&& st.dropped >= 0
    &&& st.seen.no_duplicates()
    &&& st.admitted.no_duplicates()
    &&& forall|k: Seq<char>| #[trigger] st.admitted.contains(k) ==> st.seen.contains(k)
}

proof fn lemma_admit_snippet(st: AssemblyState, name: Seq<char>, s: EngineSnippet, budget: int)
    requires
        state_ok(st, budget),
    ensures
        state_ok(admit_snippet(st, name, s, budget), budget),
        admit_snippet(st, name, s, budget).dropped + admit_snippet(st, name, s, budget).admitted.len()
            == st.dropped + st.admitted.len() + 1,
        admit_snippet(st, name, s, budget).warnings == st.warnings,
{
    let key = snippet_key(s);
    let next = admit_snippet(st, name, s, budget);
    if !st.seen.contains(key) {
        assert forall|i: int, j: int|
            0 <= i < next.seen.len() && 0 <= j < next.seen.len() && i != j implies next.seen[i]
            != next.seen[j] by {
            if i == st.seen.len() as int {
                assert(st.seen[j] == next.seen[j]);
            } else if j == st.seen.len() as int {
                assert(st.seen[i] == next.seen[i]);
            }
        }
        if st.used + s.estimated_tokens <= budget {
            assert(!st.admitted.contains(key));
            assert forall|i: int, j: int|
                0 <= i < next.admitted.len() && 0 <= j < next.admitted.len() && i != j implies next.admitted[i]
                != next.admitted[j] by {
                if i == st.admitted.len() as int {
                    assert(st.admitted[j] == next.admitted[j]);
                } else if j == st.admitted.len() as int {
                    assert(st.admitted[i] == next.admitted[i]);
                }
            }
            assert forall|k: Seq<char>| #[trigger] next.admitted.contains(k) implies next.seen.contains(
                k,
            ) by {
                if k != key {
                    let i = choose|i: int| 0 <= i < next.admitted.len() && next.admitted[i] == k;
                    assert(i < st.admitted.len());
                    assert(st.admitted[i] == k);
                    assert(st.admitted.contains(k));
                    assert(st.seen.contains(k));
                    let j = choose|j: int| 0 <= j < st.seen.len() && st.seen[j] == k;
                    assert(next.seen[j] == k);
                } else {
                    assert(next.seen[st.seen.len() as int] == key);
                }
            }
        } else {
            assert forall|k: Seq<char>| #[trigger] next.admitted.contains(k) implies next.seen.contains(
                k,
            ) by {
                assert(st.seen.contains(k));
                let j = choose|j: int| 0 <= j < st.seen.len() && st.seen[j] == k;
                assert(next.seen[j] == k);
            }
        }
    }
}

proof fn lemma_admit_snippets(
    st: AssemblyState,
    name: Seq<char>,
    snippets: Seq<EngineSnippet>,
    budget: int,
)
    requires
        state_ok(st, budget),
    ensures
        state_ok(admit_snippets(st, name, snippets, budget), budget),
        admit_snippets(st, name, snippets, budget).dropped + admit_snippets(
            st,
            name,
            snippets,
            budget,
        ).admitted.len() == st.dropped + st.admitted.len() + snippets.len(),
        admit_snippets(st, name, snippets, budget).warnings == st.warnings,
    decreases snippets.len(),
{
    if snippets.len() > 0 {
        lemma_admit_snippets(st, name, snippets.drop_last(), budget);
        lemma_admit_snippet(
            admit_snippets(st, name, snippets.drop_last(), budget),
            name,
            snippets.last(),
            budget,
        );
    }
}

proof fn lemma_merge_engine(
    st: AssemblyState,
    name: Seq<char>,
    results: Seq<EngineLookupResult>,
    budget: int,
)
    requires
        state_ok(st, budget),
    ensures
        state_ok(merge_engine(st, name, results, budget), budget),
        merge_engine(st, name, results, budget).dropped + merge_engine(
            st,
            name,
            results,
            budget,
        ).admitted.len() == st.dropped + st.admitted.len() + considered_for(results, name),
        merge_engine(st, name, results, budget).warnings.len() == st.warnings.len() + if !has_result_named(results, name)
            || results[first_named(results, name)].metrics.failed {
            1int
        } else {
            0int
        },
{
    if has_result_named(results, name) {
        let r = results[first_named(results, name)];
        if !r.metrics.failed {
            lemma_by_rank_sorts(r.snippets@);
            lemma_admit_snippets(st, name, by_rank(r.snippets@), budget);
        }
    }
}

proof fn lemma_merge_names(names: Seq<Seq<char>>, results: Seq<EngineLookupResult>, budget: int)
    requires
        budget >= 0,
    ensures
        state_ok(merge_names(names, results, budget), budget),
        merge_names(names, results, budget).dropped + merge_names(names, results, budget).admitted.len()
            == considered_count(names, results),
        merge_names(names, results, budget).warnings.len() == unavailable_count(names, results),
    decreases names.len(),
{
    if names.len() > 0 {
        lemma_merge_names(names.drop_last(), results, budget);
        lemma_merge_engine(merge_names(names.drop_last(), results, budget), names.last(), results, budget);
    }
}

proof fn lemma_considered_nonneg(names: Seq<Seq<char>>, results: Seq<EngineLookupResult>)
    ensures
        considered_count(names, results) >= 0,
    decreases names.len(),
{
    if names.len() > 0 {
        lemma_considered_nonneg(names.drop_last(), results);
    }
}

proof fn lemma_considered_monotone(names: Seq<Seq<char>>, results: Seq<EngineLookupResult>, n: int)
    requires
        0 <= n <= names.len(),
    ensures
        0 <= considered_count(names.take(n), results) <= considered_count(names, results),
    decreases names.len(),
{
    if n == names.len() {
        assert(names.take(n) =~= names);
        lemma_considered_nonneg(names, results);
    } else {
        lemma_considered_monotone(names.drop_last(), results, n);
        assert(names.drop_last().take(n) =~= names.take(n));
    }
}

/// The merge visits the precedence list first, then every engine it leaves
/// out, once each and in name order; so every engine that answered is merged.
pub proof fn lemma_every_answering_engine_is_merged(
    precedence: Seq<String>,
    results: Seq<EngineLookupResult>,
)
    ensures
        merge_order(precedence, results).take(precedence.len() as int) == precedence.map_values(
            |p: String| p@,
        ),
        strictly_sorted(merge_order(precedence, results).skip(precedence.len() as int)),
        forall|i: int|
            0 <= i < results.len() ==> merge_order(precedence, results).contains(
                (#[trigger] results[i]).engine_name@,
            ),
{
    let listed = precedence.map_values(|p: String| p@);
    let u = unlisted_names(precedence, results, results.len() as int);
    let order = merge_order(precedence, results);
    lemma_unlisted_names(precedence, results, results.len() as int);
    assert(order.take(precedence.len() as int) =~= listed);
    assert(order.skip(precedence.len() as int) =~= u);
    assert forall|i: int| 0 <= i < results.len() implies order.contains(
        (#[trigger] results[i]).engine_name@,
    ) by {
        let name = results[i].engine_name@;
        if is_listed(precedence, name) {
            let k = choose|k: int| 0 <= k < precedence.len() && (#[trigger] precedence[k])@ == name;
            assert(order[k] == name);
        } else {
            assert(u.contains(name));
            let k = choose|k: int| 0 <= k < u.len() && u[k] == name;
            assert(order[precedence.len() + k] == name);
        }
    }
}

/// Two snippets carrying the same source reference are never both admitted:
/// once one has been considered, the other is dropped whatever its text and
/// engine, and leaves the context, the tokens used and the admitted keys as they
/// were.
pub proof fn lemma_same_source_ref_admitted_once(
    st: AssemblyState,
    name_a: Seq<char>,
    a: EngineSnippet,
    name_b: Seq<char>,
    b: EngineSnippet,
    budget: int,
)
    requires
        a.source_ref is Some,
        b.source_ref is Some,
        a.source_ref->0@ == b.source_ref->0@,
    ensures
        ({
            let s1 = admit_snippet(st, name_a, a, budget);
            let s2 = admit_snippet(s1, name_b, b, budget);
            &&& s2.output == s1.output
            &&& s2.used == s1.used
            &&& s2.admitted == s1.admitted
            &&& s2.dropped == s1.dropped + 1
        }),
{
    let key = a.source_ref->0@;
    let s1 = admit_snippet(st, name_a, a, budget);
    assert(s1.seen.contains(key)) by {
        if !st.seen.contains(key) {
            assert(s1.seen == st.seen.push(key));
            assert(s1.seen[st.seen.len() as int] == key);
        }
    }
}

/// Snippets with different source references are never deduplicated against
/// each other: when neither reference was met before and the budget holds both,
/// both are admitted, each as its own `[engine] text` section, whatever their
/// texts.
pub proof fn lemma_distinct_source_refs_both_admitted(
    st: AssemblyState,
    name_a: Seq<char>,
    a: EngineSnippet,
    name_b: Seq<char>,
    b: EngineSnippet,
    budget: int,
)
    requires
        a.source_ref is Some,
        b.source_ref is Some,
        a.source_ref->0@ != b.source_ref->0@,
        !st.seen.contains(a.source_ref->0@),
        !st.seen.contains(b.source_ref->0@),
        st.used + a.estimated_tokens + b.estimated_tokens <= budget,
    ensures
        ({
            let s2 = admit_snippet(admit_snippet(st, name_a, a, budget), name_b, b, budget);
            &&& s2.output == with_section(with_section(st.output, name_a, a.text@), name_b, b.text@)
            &&& s2.used == st.used + a.estimated_tokens + b.estimated_tokens
            &&& s2.admitted == st.admitted.push(a.source_ref->0@).push(b.source_ref->0@)
            &&& s2.dropped == st.dropped
        }),
{
    let ka = a.source_ref->0@;
    let kb = b.source_ref->0@;
    let s1 = admit_snippet(st, name_a, a, budget);
    assert(s1.seen == st.seen.push(ka));
    assert(!s1.seen.contains(kb)) by {
        if s1.seen.contains(kb) {
            let i = choose|i: int| 0 <= i < s1.seen.len() && s1.seen[i] == kb;
            if i < st.seen.len() {
                assert(st.seen[i] == kb);
            }
        }
    }
}

/// The merge never spends more tokens than the budget leaves for context.
pub proof fn lemma_assembly_within_budget(
    precedence: Seq<String>,
    results: Seq<EngineLookupResult>,
    budget: int,
)
    requires
        budget >= 0,
    ensures
        0 <= merged(precedence, results, budget).used <= budget,
{
    lemma_merge_names(merge_order(precedence, results), results, budget);
}

/// Every snippet of every engine the merge visits that did not fail is either
/// admitted or counted as dropped (by dedupe or by budget).
pub proof fn lemma_assembly_accounts_for_every_snippet(
    precedence: Seq<String>,
    results: Seq<EngineLookupResult>,
    budget: int,
)
    requires
        budget >= 0,
    ensures
        merged(precedence, results, budget).dropped + merged(precedence, results, budget).admitted.len()
            == considered_count(merge_order(precedence, results), results),
{
    lemma_merge_names(merge_order(precedence, results), results, budget);
}

/// No two admitted snippets share a dedupe key.
pub proof fn lemma_assembly_admits_distinct_keys(
    precedence: Seq<String>,
    results: Seq<EngineLookupResult>,
    budget: int,
)
    requires
        budget >= 0,
    ensures
        merged(precedence, results, budget).admitted.no_duplicates(),
{
    lemma_merge_names(merge_order(precedence, results), results, budget);
}

/// Engine failures never disappear silently: each visited engine that is
/// missing or failed yields exactly one warning, and nothing else does.
pub proof fn lemma_assembly_warns_for_each_unavailable_engine(
    precedence: Seq<String>,
    results: Seq<EngineLookupResult>,
    budget: int,
)
    requires
        budget >= 0,
    ensures
        merged(precedence, results, budget).warnings.len() == unavailable_count(
            merge_order(precedence, results),
            results,
        ),
{
    lemma_merge_names(merge_order(precedence, results), results, budget);
}

/// The dedupe key of a snippet.
fn dedupe_key(snippet: &EngineSnippet) -> (key: String)
    ensures
        key@ == snippet_key(*snippet),
{
    match &snippet.source_ref {
        Some(r) => r.clone(),
        None => to_lowercase(trim(snippet.text.as_str())),
    }
}

/// Position of the first result named `name`, if any.
fn find_result(results: &Vec<EngineLookupResult>, name: &str) -> (r: Option<usize>)
    ensures
        match r {
            Some(i) => is_first_named(results@, name@, i as int),
            None => !has_result_named(results@, name@),
        },
{
    let mut i: usize = 0;
    while i < results.len()
        invariant
            i <= results.len(),
            forall|j: int| 0 <= j < i ==> #[trigger] results@[j].engine_name@ != name@,
        decreases results.len() - i,
    {
        if same_text(results[i].engine_name.as_str(), name) {
            return Some(i);
        }
        i = i + 1;
    }
    None
}

/// Appends one `[name] text` section to `output`.
fn push_section(output: &mut String, name: &str, text: &str)
    ensures
        final(output)@ == with_section(old(output)@, name@, text@),
{
    if !output.as_str().is_empty() {
        output.append("\n\n");
    }
    output.append("[");
    output.append(name);
    output.append("] ");
    output.append(text);
}

/// A merge in progress.
struct Merge {
    seen: Vec<String>,
    output: String,
    used: usize,
    dropped: usize,
    warnings: Vec<String>,
    admitted: Ghost<Seq<Seq<char>>>,
}

impl Merge {
    spec fn state(&self) -> AssemblyState {
        AssemblyState {
            seen: self.seen@.map_values(|k: String| k@),
            admitted: self.admitted@,
            used: self.used as int,
            dropped: self.dropped as int,
            output: self.output@,
            warnings: self.warnings@.map_values(|w: String| w@),
        }
    }
}

/// Considers one snippet of engine `name`.
fn admit_into(m: &mut Merge, name: &str, snippet: &EngineSnippet, max_tokens: usize)
    requires
        state_ok(old(m).state(), max_tokens as int),
        old(m).state().dropped + old(m).state().admitted.len() + 1 <= usize::MAX,
    ensures
        final(m).state() == admit_snippet(old(m).state(), name@, *snippet, max_tokens as int),
{
    let ghost before = m.state();
    let key = dedupe_key(snippet);
    if holds_text(&m.seen, key.as_str()) {
        m.dropped = m.dropped + 1;
    } else {
        m.seen.push(key);
        proof {
            assert(m.seen@.map_values(|k: String| k@) =~= before.seen.push(snippet_key(*snippet)));
        }
        if snippet.estimated_tokens > max_tokens - m.used {
            m.dropped = m.dropped + 1;
        } else {
            push_section(&mut m.output, name, snippet.text.as_str());
            m.used = m.used + snippet.estimated_tokens;
            proof {
                m.admitted = Ghost(m.admitted@.push(snippet_key(*snippet)));
            }
        }
    }
    proof {
        assert(m.state() == admit_snippet(before, name@, *snippet, max_tokens as int));
    }
}

/// Merges in the engine named `name`.
fn merge_engine_into(m: &mut Merge, name: &str, results: &Vec<EngineLookupResult>, max_tokens: usize)
    requires
        state_ok(old(m).state(), max_tokens as int),
        old(m).state().dropped + old(m).state().admitted.len() + considered_for(results@, name@)
            <= usize::MAX,
    ensures
        final(m).state() == merge_engine(old(m).state(), name@, results@, max_tokens as int),
{
    let ghost budget = max_tokens as int;
    let ghost before = m.state();
    match find_result(results, name) {
        None => {
            let w = concat3("configured precedence references missing engine '", name, "'");
            m.warnings.push(w);
            proof {
                assert(m.warnings@.map_values(|w: String| w@) =~= before.warnings.push(
                    missing_engine_warning(name@),
                ));
            }
        },
        Some(idx) => {
            let engine_result = &results[idx];
            proof {
                let f = first_named(results@, name@);
                assert(is_first_named(results@, name@, f));
                if f < idx {
                    assert(results@[f].engine_name@ != name@);
                }
                if idx < f {
                    assert(results@[idx as int].engine_name@ != name@);
                }
                assert(f == idx);
            }
            if engine_result.metrics.failed {
                let debug = debug_option_string(&engine_result.error);
                let w = concat3("engine '", name, "' failed: ");
                let w = w.concat(debug.as_str());
                m.warnings.push(w);
                proof {
                    assert(m.warnings@.map_values(|w: String| w@) =~= before.warnings.push(
                        failed_engine_warning(name@, engine_result.error.deep_view()),
                    ));
                }
            } else {
                let snippets = &engine_result.snippets;
                let order = rank_order(snippets);
                let ghost ranked = by_rank(snippets@);
                proof {
                    lemma_by_rank_sorts(snippets@);
                    assert(ranked.take(0) =~= Seq::<EngineSnippet>::empty());
                }
                let mut k: usize = 0;
                while k < order.len()
                    invariant
                        k <= order@.len(),
                        ranked == by_rank(snippets@),
                        ranked.len() == snippets@.len(),
                        order@.map_values(|i: usize| snippets@[i as int]) == ranked,
                        forall|j: int| 0 <= j < order@.len() ==> #[trigger] order@[j] < snippets@.len(),
                        budget == max_tokens as int,
                        state_ok(before, budget),
                        before.dropped + before.admitted.len() + snippets@.len() <= usize::MAX,
                        m.state() == admit_snippets(before, name@, ranked.take(k as int), budget),
                    decreases order@.len() - k,
                {
                    let snippet = &snippets[order[k]];
                    proof {
                        assert(ranked[k as int] == snippets@[order@[k as int] as int]);
                        lemma_admit_snippets(before, name@, ranked.take(k as int), budget);
                        assert(ranked.take(k + 1).drop_last() =~= ranked.take(k as int));
                        assert(ranked.take(k + 1).last() == ranked[k as int]);
                    }
                    admit_into(m, name, snippet, max_tokens);
                    k = k + 1;
                }
                proof {
                    assert(ranked.take(ranked.len() as int) =~= ranked);
                }
            }
        },
    }
}

/// Merges engine results into prompt-ready context: the engines of the
/// precedence list first, then the engines it leaves out in name order; each
/// engine's snippets in rank order.
pub fn assemble_context(
    _request: &ContextRequest,
    token_budget: &TokenBudget,
    precedence: &[String],
    results: Vec<EngineLookupResult>,
) -> (ctx: AssembledContext)
    requires
        token_budget.reserved_for_user_prompt + token_budget.reserved_for_system_prompt
            <= usize::MAX,
        considered_count(merge_order(precedence@, results@), results@) <= usize::MAX,
    ensures
        ({
            let st = merged(precedence@, results@, token_budget.spec_available());
            &&& ctx.synthesized_context@ == st.output
            &&& ctx.used_tokens == st.used
            &&& ctx.dropped_snippets == st.dropped
            &&& ctx.warnings@.map_values(|w: String| w@) == st.warnings
        }),
{
    let max_tokens = token_budget.available_for_context();
    let ghost budget = max_tokens as int;
    let ghost order = merge_order(precedence@, results@);
    let ghost listed = precedence@.map_values(|p: String| p@);
    let mut m = Merge {
        seen: Vec::new(),
        output: String::new(),
        used: 0,
        dropped: 0,
        warnings: Vec::new(),
        admitted: Ghost(Seq::empty()),
    };
    proof {
        assert(m.seen@.map_values(|k: String| k@) =~= Seq::<Seq<char>>::empty());
        assert(m.warnings@.map_values(|w: String| w@) =~= Seq::<Seq<char>>::empty());
        assert(m.output@ =~= Seq::<char>::empty());
        assert(m.state() == initial_state());
        assert(order.take(0) =~= Seq::<Seq<char>>::empty());
    }
    let mut p: usize = 0;
    while p < precedence.len()
        invariant
            p <= precedence@.len(),
            budget == max_tokens as int,
            order == merge_order(precedence@, results@),
            listed == precedence@.map_values(|p: String| p@),
            considered_count(order, results@) <= usize::MAX,
            m.state() == merge_names(order.take(p as int), results@, budget),
        decreases precedence@.len() - p,
    {
        proof {
            assert(order[p as int] == listed[p as int]);
            assert(order.take(p + 1).drop_last() =~= order.take(p as int));
            assert(order.take(p + 1).last() == order[p as int]);
            lemma_merge_names(order.take(p as int), results@, budget);
            lemma_considered_monotone(order, results@, p + 1);
        }
        merge_engine_into(&mut m, precedence[p].as_str(), &results, max_tokens);
        p = p + 1;
    }
    let unlisted = unlisted_engine_names(precedence, &results);
    let ghost plen = precedence@.len() as int;
    let mut q: usize = 0;
    while q < unlisted.len()
        invariant
            q <= unlisted@.len(),
            plen == precedence@.len(),
            budget == max_tokens as int,
            order == merge_order(precedence@, results@),
            unlisted@.map_values(|t: String| t@) == unlisted_names(
                precedence@,
                results@,
                results@.len() as int,
            ),
            considered_count(order, results@) <= usize::MAX,
            m.state() == merge_names(order.take(plen + q), results@, budget),
        decreases unlisted@.len() - q,
    {
        proof {
            assert(order[plen + q] == unlisted@.map_values(|t: String| t@)[q as int]);
            assert(order.take(plen + q + 1).drop_last() =~= order.take(plen + q));
            assert(order.take(plen + q + 1).last() == order[plen + q]);
            lemma_merge_names(order.take(plen + q), results@, budget);
            lemma_considered_monotone(order, results@, plen + q + 1);
        }
        merge_engine_into(&mut m, unlisted[q].as_str(), &results, max_tokens);
        q = q + 1;
    }
    proof {
        assert(order.take(plen + q) =~= order);
    }
    AssembledContext {
        synthesized_context: m.output,
        used_tokens: m.used,
        dropped_snippets: m.dropped,
        warnings: m.warnings,
    }
}

} // verus!

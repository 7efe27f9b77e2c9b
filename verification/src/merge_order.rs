//! The order in which a merge visits engines and snippets: an engine's
//! snippets by rank, and the engines a precedence list leaves out by name.

use vstd::prelude::*;

use crate::context::{EngineLookupResult, EngineSnippet};
use crate::text::same_text;

verus! {

broadcast use vstd::seq_lib::to_multiset_insert, vstd::seq_lib::to_multiset_build;

/// Number of leading snippets ranked no later than `rank`.
pub open spec fn ranked_up_to(sorted: Seq<EngineSnippet>, rank: usize) -> nat
    decreases sorted.len(),
{
    if sorted.len() > 0 && sorted[0].rank <= rank {
        1 + ranked_up_to(sorted.drop_first(), rank)
    } else {
        0
    }
}

/// The snippets in rank order, lowest rank first; snippets of equal rank keep
/// the order the engine gave them.
pub open spec fn by_rank(snippets: Seq<EngineSnippet>) -> Seq<EngineSnippet>
    decreases snippets.len(),
{
    if snippets.len() == 0 {
        Seq::empty()
    } else {
        let sorted = by_rank(snippets.drop_last());
        sorted.insert(ranked_up_to(sorted, snippets.last().rank) as int, snippets.last())
    }
}

/// Ranks never decrease along the sequence.
pub open spec fn rank_sorted(s: Seq<EngineSnippet>) -> bool {
    forall|i: int, j: int| 0 <= i < j < s.len() ==> #[trigger] s[i].rank <= #[trigger] s[j].rank
}

/// The leading run counted by `ranked_up_to` ends exactly at `j`.
proof fn lemma_ranked_up_to_at(sorted: Seq<EngineSnippet>, rank: usize, j: int)
    requires
        0 <= j <= sorted.len(),
        forall|k: int| 0 <= k < j ==> #[trigger] sorted[k].rank <= rank,
        j < sorted.len() ==> sorted[j].rank > rank,
    ensures
        ranked_up_to(sorted, rank) == j,
    decreases j,
{
    if j > 0 {
        let rest = sorted.drop_first();
        assert forall|k: int| 0 <= k < j - 1 implies #[trigger] rest[k].rank <= rank by {
            assert(rest[k] == sorted[k + 1]);
        }
        if j - 1 < rest.len() {
            assert(rest[j - 1] == sorted[j]);
        }
        lemma_ranked_up_to_at(rest, rank, j - 1);
    }
}

/// In a rank-sorted sequence, the snippets before the counted run's end are
/// ranked no later than `rank` and the ones from it on strictly later.
proof fn lemma_ranked_up_to_splits(sorted: Seq<EngineSnippet>, rank: usize)
    requires
        rank_sorted(sorted),
    ensures
        ranked_up_to(sorted, rank) <= sorted.len(),
        forall|k: int| 0 <= k < ranked_up_to(sorted, rank) ==> #[trigger] sorted[k].rank <= rank,
        forall|k: int| ranked_up_to(sorted, rank) <= k < sorted.len() ==> #[trigger] sorted[k].rank > rank,
    decreases sorted.len(),
{
    if sorted.len() > 0 {
        let rest = sorted.drop_first();
        assert(rank_sorted(rest)) by {
            assert forall|i: int, j: int| 0 <= i < j < rest.len() implies #[trigger] rest[i].rank
                <= #[trigger] rest[j].rank by {
                assert(rest[i] == sorted[i + 1]);
                assert(rest[j] == sorted[j + 1]);
            }
        }
        lemma_ranked_up_to_splits(rest, rank);
        if sorted[0].rank <= rank {
            assert forall|k: int| 0 <= k < ranked_up_to(sorted, rank) implies #[trigger] sorted[k].rank
                <= rank by {
                if k > 0 {
                    assert(sorted[k] == rest[k - 1]);
                }
            }
            assert forall|k: int| ranked_up_to(sorted, rank) <= k < sorted.len() implies #[trigger] sorted[k].rank
                > rank by {
                assert(sorted[k] == rest[k - 1]);
            }
        } else {
            assert forall|k: int| 0 <= k < sorted.len() implies #[trigger] sorted[k].rank > rank by {
                assert(sorted[0].rank <= sorted[k].rank);
            }
        }
    }
}

/// Rank order keeps every snippet, once, and sorts them by rank.
pub proof fn lemma_by_rank_sorts(snippets: Seq<EngineSnippet>)
    ensures
        by_rank(snippets).len() == snippets.len(),
        by_rank(snippets).to_multiset() == snippets.to_multiset(),
        rank_sorted(by_rank(snippets)),
    decreases snippets.len(),
{
    if snippets.len() > 0 {
        let before = snippets.drop_last();
        let x = snippets.last();
        lemma_by_rank_sorts(before);
        let sorted = by_rank(before);
        lemma_ranked_up_to_splits(sorted, x.rank);
        let p = ranked_up_to(sorted, x.rank) as int;
        let r = sorted.insert(p, x);
        assert(snippets == before.push(x));
        assert(r.to_multiset() == sorted.to_multiset().insert(x));
        assert(before.push(x).to_multiset() == before.to_multiset().insert(x));
        assert forall|i: int, j: int| 0 <= i < j < r.len() implies #[trigger] r[i].rank
            <= #[trigger] r[j].rank by {
            if j < p {
                assert(r[i] == sorted[i] && r[j] == sorted[j]);
            } else if j == p {
                assert(r[i] == sorted[i]);
            } else if i < p {
                assert(r[i] == sorted[i] && r[j] == sorted[j - 1]);
            } else if i == p {
                assert(r[j] == sorted[j - 1]);
            } else {
                assert(r[i] == sorted[i - 1] && r[j] == sorted[j - 1]);
            }
        }
    } else {
        assert(snippets =~= Seq::<EngineSnippet>::empty());
    }
}

/// Positions of an engine's snippets in rank order.
pub fn rank_order(snippets: &Vec<EngineSnippet>) -> (order: Vec<usize>)
    ensures
        forall|k: int| 0 <= k < order@.len() ==> #[trigger] order@[k] < snippets@.len(),
        order@.map_values(|i: usize| snippets@[i as int]) == by_rank(snippets@),
{
    let mut order: Vec<usize> = Vec::new();
    let mut i: usize = 0;
    proof {
        assert(snippets@.take(0) =~= Seq::<EngineSnippet>::empty());
    }
    while i < snippets.len()
        invariant
            i <= snippets@.len(),
            forall|k: int| 0 <= k < order@.len() ==> #[trigger] order@[k] < i,
            order@.map_values(|k: usize| snippets@[k as int]) == by_rank(snippets@.take(i as int)),
        decreases snippets@.len() - i,
    {
        let ghost sorted = by_rank(snippets@.take(i as int));
        let rank = snippets[i].rank;
        proof {
            lemma_by_rank_sorts(snippets@.take(i as int));
        }
        let mut j: usize = 0;
        while j < order.len() && snippets[order[j]].rank <= rank
            invariant
                j <= order@.len(),
                i < snippets@.len(),
                rank == snippets@[i as int].rank,
                forall|k: int| 0 <= k < order@.len() ==> #[trigger] order@[k] < i,
                order@.map_values(|k: usize| snippets@[k as int]) == sorted,
                forall|k: int| 0 <= k < j ==> #[trigger] sorted[k].rank <= rank,
            decreases order@.len() - j,
        {
            assert(sorted[j as int] == snippets@[order@[j as int] as int]);
            j = j + 1;
        }
        proof {
            if j < order@.len() {
                assert(sorted[j as int] == snippets@[order@[j as int] as int]);
            }
            lemma_ranked_up_to_at(sorted, rank, j as int);
            assert(snippets@.take(i + 1).drop_last() =~= snippets@.take(i as int));
            assert(snippets@.take(i + 1).last() == snippets@[i as int]);
        }
        let ghost old_order = order@;
        order.insert(j, i);
        proof {
            assert(order@.map_values(|k: usize| snippets@[k as int]) =~= old_order.map_values(
                |k: usize| snippets@[k as int],
            ).insert(j as int, snippets@[i as int]));
        }
        i = i + 1;
    }
    proof {
        assert(snippets@.take(snippets@.len() as int) =~= snippets@);
    }
    order
}

/// `a` sorts strictly before `b`: at the first character where they differ the
/// one of `a` is lower, or `a` is a proper prefix of `b`.
pub open spec fn text_before(a: Seq<char>, b: Seq<char>) -> bool
    decreases a.len(),
{
    if a.len() == 0 {
        b.len() > 0
    } else if b.len() == 0 {
        false
    } else if a[0] != b[0] {
        (a[0] as int) < (b[0] as int)
    } else {
        text_before(a.drop_first(), b.drop_first())
    }
}

/// No text sorts before itself.
pub proof fn lemma_text_before_irreflexive(a: Seq<char>)
    ensures
        !text_before(a, a),
    decreases a.len(),
{
    if a.len() > 0 {
        lemma_text_before_irreflexive(a.drop_first());
    }
}

/// Of two different texts, one sorts before the other, and not both ways.
pub proof fn lemma_text_before_total(a: Seq<char>, b: Seq<char>)
    ensures
        a != b ==> (text_before(a, b) || text_before(b, a)),
        !(text_before(a, b) && text_before(b, a)),
    decreases a.len(),
{
    if a.len() > 0 && b.len() > 0 && a[0] == b[0] {
        lemma_text_before_total(a.drop_first(), b.drop_first());
        if a != b {
            assert(a.drop_first() != b.drop_first()) by {
                if a.drop_first() == b.drop_first() {
                    assert(a =~= seq![a[0]] + a.drop_first());
                    assert(b =~= seq![b[0]] + b.drop_first());
                }
            }
        }
    } else if a.len() == 0 && b.len() == 0 {
        assert(a =~= b);
    }
}

/// Sorting before is transitive.
pub proof fn lemma_text_before_transitive(a: Seq<char>, b: Seq<char>, c: Seq<char>)
    requires
        text_before(a, b),
        text_before(b, c),
    ensures
        text_before(a, c),
    decreases a.len(),
{
    if a.len() > 0 && b.len() > 0 && c.len() > 0 && a[0] == b[0] && b[0] == c[0] {
        lemma_text_before_transitive(a.drop_first(), b.drop_first(), c.drop_first());
    }
}

/// Number of leading names that sort before `name`.
pub open spec fn names_before(sorted: Seq<Seq<char>>, name: Seq<char>) -> nat
    decreases sorted.len(),
{
    if sorted.len() > 0 && text_before(sorted[0], name) {
        1 + names_before(sorted.drop_first(), name)
    } else {
        0
    }
}

/// Names in strictly increasing order, hence each once.
pub open spec fn strictly_sorted(names: Seq<Seq<char>>) -> bool {
    forall|i: int, j: int| 0 <= i < j < names.len() ==> text_before(#[trigger] names[i], #[trigger] names[j])
}

/// Whether the precedence list names the engine.
pub open spec fn is_listed(precedence: Seq<String>, name: Seq<char>) -> bool {
    exists|i: int| 0 <= i < precedence.len() && (#[trigger] precedence[i])@ == name
}

/// Names of the first `n` results that the precedence list leaves out, each
/// once, in name order.
pub open spec fn unlisted_names(precedence: Seq<String>, results: Seq<EngineLookupResult>, n: int) -> Seq<
    Seq<char>,
>
    decreases n,
{
    if n <= 0 {
        Seq::empty()
    } else {
        let prev = unlisted_names(precedence, results, n - 1);
        let name = results[n - 1].engine_name@;
        if is_listed(precedence, name) || prev.contains(name) {
            prev
        } else {
            prev.insert(names_before(prev, name) as int, name)
        }
    }
}

proof fn lemma_names_before_at(sorted: Seq<Seq<char>>, name: Seq<char>, j: int)
    requires
        0 <= j <= sorted.len(),
        forall|k: int| 0 <= k < j ==> text_before(#[trigger] sorted[k], name),
        j < sorted.len() ==> !text_before(sorted[j], name),
    ensures
        names_before(sorted, name) == j,
    decreases j,
{
    if j > 0 {
        let rest = sorted.drop_first();
        assert forall|k: int| 0 <= k < j - 1 implies text_before(#[trigger] rest[k], name) by {
            assert(rest[k] == sorted[k + 1]);
        }
        if j - 1 < rest.len() {
            assert(rest[j - 1] == sorted[j]);
        }
        lemma_names_before_at(rest, name, j - 1);
    }
}

proof fn lemma_names_before_splits(sorted: Seq<Seq<char>>, name: Seq<char>)
    requires
        strictly_sorted(sorted),
        !sorted.contains(name),
    ensures
        names_before(sorted, name) <= sorted.len(),
        forall|k: int| 0 <= k < names_before(sorted, name) ==> text_before(#[trigger] sorted[k], name),
        forall|k: int| names_before(sorted, name) <= k < sorted.len() ==> text_before(name, #[trigger] sorted[k]),
    decreases sorted.len(),
{
    if sorted.len() > 0 {
        let rest = sorted.drop_first();
        assert(strictly_sorted(rest)) by {
            assert forall|i: int, j: int| 0 <= i < j < rest.len() implies text_before(
                #[trigger] rest[i],
                #[trigger] rest[j],
            ) by {
                assert(rest[i] == sorted[i + 1]);
                assert(rest[j] == sorted[j + 1]);
            }
        }
        assert(!rest.contains(name)) by {
            if rest.contains(name) {
                let k = choose|k: int| 0 <= k < rest.len() && rest[k] == name;
                assert(sorted[k + 1] == name);
            }
        }
        lemma_names_before_splits(rest, name);
        assert(sorted[0] != name);
        lemma_text_before_total(sorted[0], name);
        if text_before(sorted[0], name) {
            assert forall|k: int| 0 <= k < names_before(sorted, name) implies text_before(
                #[trigger] sorted[k],
                name,
            ) by {
                if k > 0 {
                    assert(sorted[k] == rest[k - 1]);
                }
            }
            assert forall|k: int| names_before(sorted, name) <= k < sorted.len() implies text_before(
                name,
                #[trigger] sorted[k],
            ) by {
                assert(sorted[k] == rest[k - 1]);
            }
        } else {
            assert forall|k: int| 0 <= k < sorted.len() implies text_before(name, #[trigger] sorted[k]) by {
                if k > 0 {
                    lemma_text_before_transitive(name, sorted[0], sorted[k]);
                }
            }
        }
    }
}

/// The engines the precedence list leaves out are visited in name order, each
/// once: exactly the names of results that the list does not hold.
pub proof fn lemma_unlisted_names(precedence: Seq<String>, results: Seq<EngineLookupResult>, n: int)
    requires
        0 <= n <= results.len(),
    ensures
        strictly_sorted(unlisted_names(precedence, results, n)),
        unlisted_names(precedence, results, n).no_duplicates(),
        forall|name: Seq<char>|
            #![trigger unlisted_names(precedence, results, n).contains(name)]
            unlisted_names(precedence, results, n).contains(name) <==> (!is_listed(precedence, name)
                && exists|i: int| 0 <= i < n && (#[trigger] results[i]).engine_name@ == name),
    decreases n,
{
    let u = unlisted_names(precedence, results, n);
    if n > 0 {
        lemma_unlisted_names(precedence, results, n - 1);
        let prev = unlisted_names(precedence, results, n - 1);
        let name = results[n - 1].engine_name@;
        if !(is_listed(precedence, name) || prev.contains(name)) {
            lemma_names_before_splits(prev, name);
            let p = names_before(prev, name) as int;
            assert forall|i: int, j: int| 0 <= i < j < u.len() implies text_before(
                #[trigger] u[i],
                #[trigger] u[j],
            ) by {
                if j < p {
                    assert(u[i] == prev[i] && u[j] == prev[j]);
                } else if j == p {
                    assert(u[i] == prev[i]);
                } else if i < p {
                    assert(u[i] == prev[i] && u[j] == prev[j - 1]);
                    lemma_text_before_transitive(prev[i], name, prev[j - 1]);
                } else if i == p {
                    assert(u[j] == prev[j - 1]);
                } else {
                    assert(u[i] == prev[i - 1] && u[j] == prev[j - 1]);
                }
            }
            assert forall|x: Seq<char>| u.contains(x) <==> (prev.contains(x) || x == name) by {
                if u.contains(x) {
                    let k = choose|k: int| 0 <= k < u.len() && u[k] == x;
                    if k < p {
                        assert(prev[k] == x);
                    } else if k > p {
                        assert(prev[k - 1] == x);
                    }
                }
                if prev.contains(x) {
                    let k = choose|k: int| 0 <= k < prev.len() && prev[k] == x;
                    if k < p {
                        assert(u[k] == x);
                    } else {
                        assert(u[k + 1] == x);
                    }
                }
                if x == name {
                    assert(u[p] == name);
                }
            }
        }
        assert forall|x: Seq<char>| #![trigger u.contains(x)] u.contains(x) <==> (!is_listed(precedence, x)
            && exists|i: int| 0 <= i < n && (#[trigger] results[i]).engine_name@ == x) by {
            if exists|i: int| 0 <= i < n && (#[trigger] results[i]).engine_name@ == x {
                let i = choose|i: int| 0 <= i < n && (#[trigger] results[i]).engine_name@ == x;
                if i < n - 1 {
                    assert(exists|i: int| 0 <= i < n - 1 && (#[trigger] results[i]).engine_name@ == x);
                }
            }
            if exists|i: int| 0 <= i < n - 1 && (#[trigger] results[i]).engine_name@ == x {
                let i = choose|i: int| 0 <= i < n - 1 && (#[trigger] results[i]).engine_name@ == x;
                assert(0 <= i < n && results[i].engine_name@ == x);
            }
        }
    }
    assert forall|i: int, j: int| 0 <= i < u.len() && 0 <= j < u.len() && i != j implies u[i] != u[j] by {
        if i < j {
            assert(text_before(u[i], u[j]));
        } else {
            assert(text_before(u[j], u[i]));
        }
        if u[i] == u[j] {
            lemma_text_before_irreflexive(u[i]);
        }
    }
}

/// Whether `texts` holds `text`.
pub fn holds_text(texts: &Vec<String>, text: &str) -> (r: bool)
    ensures
        r == texts@.map_values(|t: String| t@).contains(text@),
{
    let ghost view = texts@.map_values(|t: String| t@);
    let mut i: usize = 0;
    while i < texts.len()
        invariant
            i <= texts.len(),
            view == texts@.map_values(|t: String| t@),
            forall|j: int| 0 <= j < i ==> view[j] != text@,
        decreases texts.len() - i,
    {
        if same_text(texts[i].as_str(), text) {
            assert(view[i as int] == text@);
            return true;
        }
        i = i + 1;
    }
    false
}

/// Whether the precedence list names the engine.
fn listed(precedence: &[String], name: &str) -> (r: bool)
    ensures
        r == is_listed(precedence@, name@),
{
    let mut i: usize = 0;
    while i < precedence.len()
        invariant
            i <= precedence@.len(),
            forall|j: int| 0 <= j < i ==> (#[trigger] precedence@[j])@ != name@,
        decreases precedence@.len() - i,
    {
        if same_text(precedence[i].as_str(), name) {
            return true;
        }
        i = i + 1;
    }
    false
}

/// `str`'s `<`: byte-wise lexicographic order, which for UTF-8 text is the
/// character-wise order of `text_before`.
#[verifier::external_body]
pub(crate) fn precedes(a: &str, b: &str) -> (r: bool)
    ensures
        r == text_before(a@, b@),
{
    a < b
}

/// Names of the results the precedence list leaves out, each once, in name order.
pub fn unlisted_engine_names(precedence: &[String], results: &Vec<EngineLookupResult>) -> (names: Vec<
    String,
>)
    ensures
        names@.map_values(|t: String| t@) == unlisted_names(precedence@, results@, results@.len() as int),
{
    let mut names: Vec<String> = Vec::new();
    let mut i: usize = 0;
    proof {
        assert(names@.map_values(|t: String| t@) =~= Seq::<Seq<char>>::empty());
    }
    while i < results.len()
        invariant
            i <= results@.len(),
            names@.map_values(|t: String| t@) == unlisted_names(precedence@, results@, i as int),
        decreases results@.len() - i,
    {
        let name = results[i].engine_name.as_str();
        let ghost prev = names@.map_values(|t: String| t@);
        if !listed(precedence, name) && !holds_text(&names, name) {
            proof {
                lemma_unlisted_names(precedence@, results@, i as int);
            }
            let mut j: usize = 0;
            while j < names.len() && precedes(names[j].as_str(), name)
                invariant
                    j <= names@.len(),
                    prev == names@.map_values(|t: String| t@),
                    forall|k: int| 0 <= k < j ==> text_before(#[trigger] prev[k], name@),
                decreases names@.len() - j,
            {
                j = j + 1;
            }
            proof {
                lemma_names_before_at(prev, name@, j as int);
            }
            let ghost old_names = names@;
            names.insert(j, results[i].engine_name.clone());
            proof {
                assert(names@.map_values(|t: String| t@) =~= old_names.map_values(|t: String| t@).insert(
                    j as int,
                    name@,
                ));
            }
        }
        i = i + 1;
    }
    names
}

} // verus!

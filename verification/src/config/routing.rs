//! Which routes of a read pipeline serve a capability, and in which order they
//! are tried.

use vstd::prelude::*;

use crate::config::{ReadPipeline, ReadProviderRoute};
use crate::merge_order::{
    lemma_text_before_irreflexive, lemma_text_before_total, lemma_text_before_transitive,
    precedes, text_before,
};
use crate::text::same_text;

verus! {

/// The route is enabled and serves `capability`.
pub open spec fn serves(r: ReadProviderRoute, capability: Seq<char>) -> bool {
    r.enabled && r.capability@ == capability
}

/// `a` is tried before `b`: lower priority first; for equal priority, higher
/// weight first; then by provider ID.
pub open spec fn route_before(a: ReadProviderRoute, b: ReadProviderRoute) -> bool {
    ||| a.priority < b.priority
    ||| a.priority == b.priority && a.weight > b.weight
    ||| a.priority == b.priority && a.weight == b.weight && text_before(
        a.provider_id@,
        b.provider_id@,
    )
}

/// No route is tried before one that comes earlier.
pub open spec fn in_routing_order(routes: Seq<ReadProviderRoute>) -> bool {
    forall|i: int, j: int|
        0 <= i < j < routes.len() ==> !route_before(#[trigger] routes[j], #[trigger] routes[i])
}

/// The routes that serve `capability`, in pipeline order.
pub open spec fn serving_routes(routes: Seq<ReadProviderRoute>, capability: Seq<char>) -> Seq<
    ReadProviderRoute,
>
    decreases routes.len(),
{
    if routes.len() == 0 {
        Seq::empty()
    } else {
        let rest = serving_routes(routes.drop_last(), capability);
        if serves(routes.last(), capability) {
            rest.push(routes.last())
        } else {
            rest
        }
    }
}

/// Trying before is a strict order: never both ways, and transitive.
pub proof fn lemma_route_before_strict(a: ReadProviderRoute, b: ReadProviderRoute, c: ReadProviderRoute)
    ensures
        !route_before(a, a),
        !(route_before(a, b) && route_before(b, a)),
        route_before(a, b) && route_before(b, c) ==> route_before(a, c),
{
    lemma_text_before_irreflexive(a.provider_id@);
    lemma_text_before_total(a.provider_id@, b.provider_id@);
    if route_before(a, b) && route_before(b, c) && a.priority == c.priority && a.weight == c.weight {
        lemma_text_before_transitive(a.provider_id@, b.provider_id@, c.provider_id@);
    }
}

/// Two routes of different priority, weight or provider ID are ordered one way
/// or the other: only full ties are left in pipeline order.
pub proof fn lemma_route_before_total(a: ReadProviderRoute, b: ReadProviderRoute)
    requires
        a.priority != b.priority || a.weight != b.weight || a.provider_id@ != b.provider_id@,
    ensures
        route_before(a, b) || route_before(b, a),
{
    lemma_text_before_total(a.provider_id@, b.provider_id@);
}

fn tried_before(a: &ReadProviderRoute, b: &ReadProviderRoute) -> (r: bool)
    ensures
        r == route_before(*a, *b),
{
    if a.priority != b.priority {
        a.priority < b.priority
    } else if a.weight != b.weight {
        a.weight > b.weight
    } else {
        precedes(a.provider_id.as_str(), b.provider_id.as_str())
    }
}

fn copy_route(r: &ReadProviderRoute) -> (c: ReadProviderRoute)
    ensures
        c == *r,
{
    ReadProviderRoute {
        provider_id: r.provider_id.clone(),
        capability: r.capability.clone(),
        intent: r.intent,
        priority: r.priority,
        weight: r.weight,
        enabled: r.enabled,
    }
}

impl ReadPipeline {
    /// The enabled routes for `capability`, each once, in the order they are
    /// tried: by ascending priority, then descending weight, then provider ID.
    pub fn routes_for(&self, capability: &str) -> (routes: Vec<ReadProviderRoute>)
        ensures
            routes@.to_multiset() == serving_routes(self.providers@, capability@).to_multiset(),
            in_routing_order(routes@),
    {
        let mut routes: Vec<ReadProviderRoute> = Vec::new();
        let mut i: usize = 0;
        proof {
            assert(self.providers@.take(0) =~= Seq::<ReadProviderRoute>::empty());
            assert(routes@ =~= Seq::<ReadProviderRoute>::empty());
        }
        while i < self.providers.len()
            invariant
                i <= self.providers@.len(),
                routes@.to_multiset() == serving_routes(
                    self.providers@.take(i as int),
                    capability@,
                ).to_multiset(),
                in_routing_order(routes@),
            decreases self.providers@.len() - i,
        {
            let r = &self.providers[i];
            proof {
                assert(self.providers@.take(i + 1).drop_last() =~= self.providers@.take(i as int));
                assert(self.providers@.take(i + 1).last() == self.providers@[i as int]);
            }
            if r.enabled && same_text(r.capability.as_str(), capability) {
                let mut p: usize = 0;
                while p < routes.len()
                    invariant
                        p <= routes@.len(),
                        forall|q: int| 0 <= q < p ==> !route_before(*r, #[trigger] routes@[q]),
                    ensures
                        p <= routes@.len(),
                        forall|q: int| 0 <= q < p ==> !route_before(*r, #[trigger] routes@[q]),
                        p < routes@.len() ==> route_before(*r, routes@[p as int]),
                    decreases routes@.len() - p,
                {
                    if tried_before(r, &routes[p]) {
                        break;
                    }
                    p = p + 1;
                }
                let ghost before = routes@;
                let c = copy_route(r);
                routes.insert(p, c);
                proof {
                    assert(routes@ == before.insert(p as int, *r));
                    assert(serving_routes(self.providers@.take(i + 1), capability@)
                        == serving_routes(self.providers@.take(i as int), capability@).push(*r));
                    vstd::seq_lib::to_multiset_insert(before, p as int, *r);
                    vstd::seq_lib::to_multiset_build(
                        serving_routes(self.providers@.take(i as int), capability@),
                        *r,
                    );
                    assert forall|a: int, b: int| 0 <= a < b < routes@.len() implies !route_before(
                        #[trigger] routes@[b],
                        #[trigger] routes@[a],
                    ) by {
                        let x = *r;
                        if a < p && b == p {
                            assert(routes@[a] == before[a]);
                            assert(!route_before(x, before[a]));
                        } else if a == p && b > p {
                            let y = before[b - 1];
                            assert(routes@[b] == y);
                            if p < before.len() {
                                if b - 1 > p {
                                    assert(!route_before(before[b - 1], before[p as int]));
                                }
                                lemma_route_before_strict(y, x, before[p as int]);
                            }
                        } else {
                            let a0 = if a < p { a } else { a - 1 };
                            let b0 = if b < p { b } else { b - 1 };
                            assert(routes@[a] == before[a0]);
                            assert(routes@[b] == before[b0]);
                        }
                    }
                }
            }
            proof {
                if !serves(*r, capability@) {
                    assert(serving_routes(self.providers@.take(i + 1), capability@)
                        == serving_routes(self.providers@.take(i as int), capability@));
                }
            }
            i = i + 1;
        }
        proof {
            assert(self.providers@.take(self.providers@.len() as int) =~= self.providers@);
        }
        routes
    }
}

} // verus!

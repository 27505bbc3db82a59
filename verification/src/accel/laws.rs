//! What searches of a tree find, against a look at every chunk.
use vstd::prelude::*;
use crate::accel::bvh::{
    has_slot_bit, law_visits_front_to_back, ray_octant, visiting_order, BoxHits, BvhInner, Found, Hit, InternalRay, RayRules,
    TriangleHitSimd,
};
use crate::accel::collapse::is_valid_reference;
use crate::accel::node::{Bvh8Node, NO_CHILD, WIDTH};
use crate::scalar::Scalar;

verus! {

impl BvhInner {
    /// Whether a chunk lies under a reference.
    pub open spec fn is_under(self, reference: u32, c: int) -> bool
        decreases self.height(reference),
    {
        if Bvh8Node::is_leaf(reference) {
            Bvh8Node::leaf_start(reference) <= c < Bvh8Node::leaf_start(reference) + Bvh8Node::leaf_count(reference)
        } else {
            reference < self.nodes@.len() && exists|slot: int|
                0 <= slot < WIDTH && {
                    let child = #[trigger] self.nodes@[reference as int].children[slot];
                    child != NO_CHILD && self.height(child) < self.height(reference) && self.is_under(child, c)
                }
        }
    }

    /// Whether a chunk lies under a child of a node.
    pub open spec fn is_under_child(self, n: int, slot: int, c: int) -> bool {
        let child = self.nodes@[n].children[slot];
        child != NO_CHILD && self.is_under(child, c)
    }

    /// A hit in a chunk, as it is in the scene.
    pub open spec fn in_scene(self, h: TriangleHitSimd, c: int) -> Hit {
        let slot = self.tri_slots@[WIDTH * c + h.lane];
        Hit { t: h.hit.t, u: h.hit.u, v: h.hit.v, prim_id: slot.orig_idx, geom_id: slot.geom_id }
    }
}

/// What a ray first hits in each chunk, whatever the limit.
pub type FirstHits = spec_fn(int) -> Option<TriangleHitSimd>;

/// Whether a chunk is first hit before a limit.
pub open spec fn is_before(first: FirstHits, c: int, t: Scalar) -> bool {
    first(c) matches Some(h) && h.hit.t.lt(t)
}

/// Whether a test of chunks finds the first hit in each if it lies before the
/// limit, none at a negative distance.
pub open spec fn tests_chunks(inner: BvhInner, rules: RayRules, ray: InternalRay, first: FirstHits) -> bool {
    &&& forall|c: int, t: Scalar|
        #![trigger inner.chunk_hit(rules, ray, c, t)]
        0 <= c < inner.soa_chunks@.len() ==> (rules.closest)(ray, inner.soa_chunks@[c], t, inner.mask_of(c)) == (
        if is_before(first, c, t) {
            first(c)
        } else {
            None
        })
    &&& forall|c: int| (#[trigger] first(c)) matches Some(h) ==> h.lane < WIDTH && !h.hit.t.lt(Scalar::zero())
}

/// Whether a test of boxes loses no hit: a box over a chunk that is hit before
/// the limit is entered, and no later than the chunk is hit.
pub open spec fn tests_boxes(inner: BvhInner, rules: RayRules, ray: InternalRay, first: FirstHits) -> bool {
    forall|n: int, slot: int, c: int, t: Scalar|
        #![trigger inner.is_under_child(n, slot, c), (rules.boxes)(ray, inner.nodes@[n], t)]
        0 <= n < inner.nodes@.len() && 0 <= slot < WIDTH && inner.is_under_child(n, slot, c) && is_before(
            first,
            c,
            t,
        ) ==> {
            let hits = (rules.boxes)(ray, inner.nodes@[n], t);
            has_slot_bit(hits.mask, slot) && hits.t[slot].le(first(c)->0.hit.t)
        }
}

/// Whether what is found is what was found, or a nearer hit in a chunk under a
/// reference.
spec fn is_progress(inner: BvhInner, first: FirstHits, reference: u32, old_found: Found, found: Found) -> bool {
    found == old_found || (exists|c: int| {
        &&& #[trigger] inner.is_under(reference, c)
        &&& is_before(first, c, old_found.t_max)
        &&& found.hit == Some(inner.in_scene(first(c)->0, c))
        &&& found.t_max == first(c)->0.hit.t
    })
}

proof fn lemma_after_chunks(
    inner: BvhInner,
    rules: RayRules,
    ray: InternalRay,
    first: FirstHits,
    reference: u32,
    n: nat,
    found: Found,
)
    requires
        inner.valid(),
        tests_chunks(inner, rules, ray, first),
        Bvh8Node::is_leaf(reference),
        Bvh8Node::leaf_start(reference) + Bvh8Node::leaf_count(reference) <= inner.soa_chunks@.len(),
        n <= Bvh8Node::leaf_count(reference),
    ensures
        ({
            let start = Bvh8Node::leaf_start(reference) as int;
            let f = inner.after_chunks(rules, ray, start, n, found);
            &&& is_progress(inner, first, reference, found, f)
            &&& forall|c: int| start <= c < start + n ==> !#[trigger] is_before(first, c, f.t_max)
            &&& forall|c: int| is_before(first, c, f.t_max) ==> #[trigger] is_before(first, c, found.t_max)
        }),
    decreases n,
{
    if n > 0 {
        let start = Bvh8Node::leaf_start(reference) as int;
        lemma_after_chunks(inner, rules, ray, first, reference, (n - 1) as nat, found);
        let f = inner.after_chunks(rules, ray, start, (n - 1) as nat, found);
        let g = inner.after_chunks(rules, ray, start, n, found);
        let c = start + n - 1;
        let h = inner.chunk_hit(rules, ray, c, f.t_max);
        if is_before(first, c, f.t_max) {
            assert(inner.is_under(reference, c));
            assert(g.hit == Some(inner.in_scene(first(c)->0, c)));
            assert(is_before(first, c, found.t_max));
        }
        assert forall|d: int| start <= d < start + n implies !#[trigger] is_before(first, d, g.t_max) by {
            assert(!is_before(first, d, f.t_max) || d == c);
        }
        assert forall|d: int| is_before(first, d, g.t_max) implies #[trigger] is_before(first, d, found.t_max) by {
            assert(is_before(first, d, f.t_max));
        }
    }
}

/// After a visit, nothing in the subtree is nearer than what is known.
proof fn lemma_after_visit(
    inner: BvhInner,
    rules: RayRules,
    ray: InternalRay,
    first: FirstHits,
    reference: u32,
    t: Scalar,
    found: Found,
)
    requires
        inner.valid(),
        tests_chunks(inner, rules, ray, first),
        tests_boxes(inner, rules, ray, first),
        reference != NO_CHILD,
        is_valid_reference(reference, -1, inner.nodes@.len() as int, inner.soa_chunks@.len() as int),
        forall|c: int|
            #[trigger] inner.is_under(reference, c) && is_before(first, c, found.t_max) ==> t.le(
                first(c)->0.hit.t,
            ),
    ensures
        ({
            let f = inner.after_visit(rules, ray, reference, t, found);
            &&& is_progress(inner, first, reference, found, f)
            &&& forall|c: int| #[trigger] inner.is_under(reference, c) ==> !is_before(first, c, f.t_max)
            &&& forall|c: int| is_before(first, c, f.t_max) ==> #[trigger] is_before(first, c, found.t_max)
        }),
    decreases inner.height(reference), WIDTH + 1,
{
    let f = inner.after_visit(rules, ray, reference, t, found);
    if found.t_max.le(t) {
        assert forall|c: int| #[trigger] inner.is_under(reference, c) implies !is_before(first, c, f.t_max) by {}
    } else if Bvh8Node::is_leaf(reference) {
        lemma_after_chunks(inner, rules, ray, first, reference, Bvh8Node::leaf_count(reference) as nat, found);
    } else {
        let hits = (rules.boxes)(ray, inner.nodes@[reference as int], found.t_max);
        lemma_after_children(inner, rules, ray, first, reference, hits, found.t_max, 0, found);
        let order = visiting_order(ray_octant(ray));
        law_visits_front_to_back(ray_octant(ray));
        assert forall|c: int| #[trigger] inner.is_under(reference, c) implies !is_before(first, c, f.t_max) by {
            let slot = choose|slot: int|
                0 <= slot < WIDTH && {
                    let child = #[trigger] inner.nodes@[reference as int].children[slot];
                    child != NO_CHILD && inner.height(child) < inner.height(reference) && inner.is_under(child, c)
                };
            assert(order.contains(slot as usize));
            let k = choose|k: int| 0 <= k < order.len() && order[k] == slot as usize;
            assert(inner.is_under_child(reference as int, order[k] as int, c));
        }
    }
}

proof fn lemma_after_children(
    inner: BvhInner,
    rules: RayRules,
    ray: InternalRay,
    first: FirstHits,
    n: u32,
    hits: BoxHits,
    t_max: Scalar,
    k: nat,
    found: Found,
)
    requires
        inner.valid(),
        tests_chunks(inner, rules, ray, first),
        tests_boxes(inner, rules, ray, first),
        !Bvh8Node::is_leaf(n),
        n < inner.nodes@.len(),
        hits == (rules.boxes)(ray, inner.nodes@[n as int], t_max),
        forall|c: int| is_before(first, c, found.t_max) ==> #[trigger] is_before(first, c, t_max),
        k <= WIDTH,
    ensures
        ({
            let f = inner.after_children(rules, ray, n, hits, t_max, k, found);
            let order = visiting_order(ray_octant(ray));
            &&& is_progress(inner, first, n, found, f)
            &&& forall|j: int, c: int|
                k <= j < WIDTH && #[trigger] inner.is_under_child(n as int, order[j] as int, c) ==> !is_before(
                    first,
                    c,
                    f.t_max,
                )
            &&& forall|c: int| is_before(first, c, f.t_max) ==> #[trigger] is_before(first, c, found.t_max)
        }),
    decreases inner.height(n), WIDTH - k,
{
    if k < WIDTH {
        let order = visiting_order(ray_octant(ray));
        law_visits_front_to_back(ray_octant(ray));
        let slot = order[k as int] as int;
        let child = inner.nodes@[n as int].children[slot];
        let f = inner.after_children(rules, ray, n, hits, t_max, k, found);
        assert(is_valid_reference(child, n as int, inner.nodes@.len() as int, inner.soa_chunks@.len() as int));
        if inner.is_candidate(n as int, hits, t_max, slot) {
            assert forall|c: int|
                #[trigger] inner.is_under(child, c) && is_before(first, c, found.t_max) implies hits.t[slot].le(
                first(c)->0.hit.t,
            ) by {
                assert(is_before(first, c, t_max));
                assert(inner.is_under_child(n as int, slot, c));
            }
            lemma_after_visit(inner, rules, ray, first, child, hits.t[slot], found);
            let g = inner.after_visit(rules, ray, child, hits.t[slot], found);
            assert forall|c: int| is_before(first, c, g.t_max) implies #[trigger] is_before(first, c, t_max) by {
                assert(is_before(first, c, found.t_max));
            }
            lemma_after_children(inner, rules, ray, first, n, hits, t_max, k + 1, g);
            assert forall|j: int, c: int|
                k <= j < WIDTH && #[trigger] inner.is_under_child(n as int, order[j] as int, c) implies !is_before(
                first,
                c,
                f.t_max,
            ) by {
                if j == k {
                    assert(inner.is_under(child, c));
                    assert(!is_before(first, c, g.t_max));
                }
            }
            assert forall|c: int| is_before(first, c, f.t_max) implies #[trigger] is_before(
                first,
                c,
                found.t_max,
            ) by {
                assert(is_before(first, c, g.t_max));
            }
            if f == g && g != found {
                let c = choose|c: int| {
                    &&& #[trigger] inner.is_under(child, c)
                    &&& is_before(first, c, found.t_max)
                    &&& g.hit == Some(inner.in_scene(first(c)->0, c))
                    &&& g.t_max == first(c)->0.hit.t
                };
                assert(inner.nodes@[n as int].children[slot] == child);
                assert(inner.is_under(n, c));
            } else if f != g {
                let c = choose|c: int| {
                    &&& #[trigger] inner.is_under(n, c)
                    &&& is_before(first, c, g.t_max)
                    &&& f.hit == Some(inner.in_scene(first(c)->0, c))
                    &&& f.t_max == first(c)->0.hit.t
                };
                assert(is_before(first, c, found.t_max));
            }
        } else {
            lemma_after_children(inner, rules, ray, first, n, hits, t_max, k + 1, found);
            assert forall|j: int, c: int|
                k <= j < WIDTH && #[trigger] inner.is_under_child(n as int, order[j] as int, c) implies !is_before(
                first,
                c,
                f.t_max,
            ) by {
                if j == k && is_before(first, c, f.t_max) {
                    assert(is_before(first, c, found.t_max));
                    assert(is_before(first, c, t_max));
                }
            }
        }
    }
}

/// A search finds the nearest hit there is: the first hit of some chunk under
/// the root, before the ray ends, with no chunk under the root hit before it;
/// and it finds none only if the ray hits no chunk under the root before it
/// ends. This needs tests of boxes that lose no hit.
pub proof fn law_nearest_is_nearest(inner: BvhInner, rules: RayRules, ray: InternalRay, first: FirstHits)
    requires
        inner.valid(),
        inner.nodes@.len() > 0,
        tests_chunks(inner, rules, ray, first),
        tests_boxes(inner, rules, ray, first),
    ensures
        match inner.nearest(rules, ray) {
            Some(hit) => {
                &&& exists|c: int|
                    #[trigger] inner.is_under(0, c) && is_before(first, c, ray.tmax) && hit == inner.in_scene(
                        first(c)->0,
                        c,
                    )
                &&& forall|c: int| #[trigger] inner.is_under(0, c) ==> !is_before(first, c, hit.t)
            },
            None => forall|c: int| #[trigger] inner.is_under(0, c) ==> !is_before(first, c, ray.tmax),
        },
{
    let start = Found { t_max: ray.tmax, hit: None };
    lemma_after_visit(inner, rules, ray, first, 0, Scalar::zero(), start);
}

/// Whether a test of boxes leads to every chunk that the ray hits at all.
pub open spec fn leads_to_hits(inner: BvhInner, rules: RayRules, ray: InternalRay) -> bool {
    forall|n: int, slot: int, c: int|
        0 <= n < inner.nodes@.len() && 0 <= slot < WIDTH && #[trigger] inner.is_under_child(n, slot, c)
            && inner.hits_chunk(rules, ray, c) ==> inner.is_candidate(
            n,
            (rules.boxes)(ray, inner.nodes@[n], ray.tmax),
            ray.tmax,
            slot,
        )
}

proof fn lemma_hits_subtree(inner: BvhInner, rules: RayRules, ray: InternalRay, reference: u32)
    requires
        inner.valid(),
        leads_to_hits(inner, rules, ray),
        reference != NO_CHILD,
        is_valid_reference(reference, -1, inner.nodes@.len() as int, inner.soa_chunks@.len() as int),
    ensures
        inner.hits_subtree(rules, ray, reference) <==> exists|c: int|
            #[trigger] inner.is_under(reference, c) && inner.hits_chunk(rules, ray, c),
    decreases inner.height(reference), WIDTH + 1,
{
    if Bvh8Node::is_leaf(reference) {
        let start = Bvh8Node::leaf_start(reference);
        let count = Bvh8Node::leaf_count(reference);
        if inner.hits_subtree(rules, ray, reference) {
            let c = choose|c: int| start <= c < start + count && #[trigger] inner.hits_chunk(rules, ray, c);
            assert(inner.is_under(reference, c));
        }
    } else {
        let hits = (rules.boxes)(ray, inner.nodes@[reference as int], ray.tmax);
        lemma_hits_children(inner, rules, ray, reference, hits, WIDTH as nat);
        if inner.hits_subtree(rules, ray, reference) {
            let (slot, c) = choose|slot: int, c: int|
                0 <= slot < WIDTH && #[trigger] inner.is_under_child(reference as int, slot, c) && inner.hits_chunk(
                    rules,
                    ray,
                    c,
                );
            let child = inner.nodes@[reference as int].children[slot];
            assert(is_valid_reference(
                child,
                reference as int,
                inner.nodes@.len() as int,
                inner.soa_chunks@.len() as int,
            ));
            assert(inner.is_under(reference, c));
        }
        if exists|c: int| #[trigger] inner.is_under(reference, c) && inner.hits_chunk(rules, ray, c) {
            let c = choose|c: int| #[trigger] inner.is_under(reference, c) && inner.hits_chunk(rules, ray, c);
            let slot = choose|slot: int|
                0 <= slot < WIDTH && {
                    let child = #[trigger] inner.nodes@[reference as int].children[slot];
                    child != NO_CHILD && inner.height(child) < inner.height(reference) && inner.is_under(child, c)
                };
            assert(inner.is_under_child(reference as int, slot, c));
        }
    }
}

proof fn lemma_hits_children(inner: BvhInner, rules: RayRules, ray: InternalRay, n: u32, hits: BoxHits, k: nat)
    requires
        inner.valid(),
        leads_to_hits(inner, rules, ray),
        !Bvh8Node::is_leaf(n),
        n < inner.nodes@.len(),
        hits == (rules.boxes)(ray, inner.nodes@[n as int], ray.tmax),
        k <= WIDTH,
    ensures
        inner.hits_children(rules, ray, n, hits, k) <==> exists|slot: int, c: int|
            0 <= slot < k && #[trigger] inner.is_under_child(n as int, slot, c) && inner.hits_chunk(rules, ray, c),
    decreases inner.height(n), k,
{
    if k > 0 {
        lemma_hits_children(inner, rules, ray, n, hits, (k - 1) as nat);
        let slot = k - 1;
        let child = inner.nodes@[n as int].children[slot];
        assert(is_valid_reference(child, n as int, inner.nodes@.len() as int, inner.soa_chunks@.len() as int));
        if child != NO_CHILD {
            lemma_hits_subtree(inner, rules, ray, child);
        }
        if inner.hits_children(rules, ray, n, hits, k) && !inner.hits_children(rules, ray, n, hits, (k - 1) as nat) {
            let c = choose|c: int| #[trigger] inner.is_under(child, c) && inner.hits_chunk(rules, ray, c);
            assert(inner.is_under_child(n as int, slot, c));
        }
        if exists|slot: int, c: int|
            0 <= slot < k && #[trigger] inner.is_under_child(n as int, slot, c) && inner.hits_chunk(rules, ray, c) {
            let (s, c) = choose|s: int, c: int|
                0 <= s < k && #[trigger] inner.is_under_child(n as int, s, c) && inner.hits_chunk(rules, ray, c);
            if s == slot {
                assert(inner.is_under(child, c));
            } else {
                assert(0 <= s < k - 1 && inner.is_under_child(n as int, s, c));
            }
        }
    }
}

/// A ray hits something exactly if it hits a chunk under the root. This needs
/// tests of boxes that lead to every chunk the ray hits.
pub proof fn law_any_hit_misses_nothing(inner: BvhInner, rules: RayRules, ray: InternalRay)
    requires
        inner.valid(),
        inner.nodes@.len() > 0,
        leads_to_hits(inner, rules, ray),
    ensures
        inner.is_hit(rules, ray) <==> exists|c: int|
            #[trigger] inner.is_under(0, c) && inner.hits_chunk(rules, ray, c),
{
    lemma_hits_subtree(inner, rules, ray, 0);
}

/// Only chunks that exist lie under a reference.
proof fn lemma_under_in_range(inner: BvhInner, reference: u32, c: int)
    requires
        inner.valid(),
        reference != NO_CHILD,
        is_valid_reference(reference, -1, inner.nodes@.len() as int, inner.soa_chunks@.len() as int),
        inner.is_under(reference, c),
    ensures
        0 <= c < inner.soa_chunks@.len(),
    decreases inner.height(reference),
{
    if !Bvh8Node::is_leaf(reference) {
        let slot = choose|slot: int|
            0 <= slot < WIDTH && {
                let child = #[trigger] inner.nodes@[reference as int].children[slot];
                child != NO_CHILD && inner.height(child) < inner.height(reference) && inner.is_under(child, c)
            };
        let child = inner.nodes@[reference as int].children[slot];
        assert(is_valid_reference(
            child,
            reference as int,
            inner.nodes@.len() as int,
            inner.soa_chunks@.len() as int,
        ));
        lemma_under_in_range(inner, child, c);
    }
}

/// A ray has a nearest hit exactly if it hits anything, where both tests of a
/// chunk agree on whether it is hit.
pub proof fn law_both_searches_agree(inner: BvhInner, rules: RayRules, ray: InternalRay, first: FirstHits)
    requires
        inner.valid(),
        inner.nodes@.len() > 0,
        tests_chunks(inner, rules, ray, first),
        tests_boxes(inner, rules, ray, first),
        forall|c: int|
            0 <= c < inner.soa_chunks@.len() ==> (#[trigger] inner.hits_chunk(rules, ray, c) <==> is_before(
                first,
                c,
                ray.tmax,
            )),
    ensures
        inner.is_hit(rules, ray) <==> inner.nearest(rules, ray) is Some,
{
    assert forall|n: int, slot: int, c: int|
        0 <= n < inner.nodes@.len() && 0 <= slot < WIDTH && #[trigger] inner.is_under_child(n, slot, c)
            && inner.hits_chunk(rules, ray, c) implies inner.is_candidate(
        n,
        (rules.boxes)(ray, inner.nodes@[n], ray.tmax),
        ray.tmax,
        slot,
    ) by {
        let child = inner.nodes@[n].children[slot];
        assert(is_valid_reference(child, n, inner.nodes@.len() as int, inner.soa_chunks@.len() as int));
        lemma_under_in_range(inner, child, c);
        assert(is_before(first, c, ray.tmax));
    }
    law_nearest_is_nearest(inner, rules, ray, first);
    law_any_hit_misses_nothing(inner, rules, ray);
    if inner.is_hit(rules, ray) {
        let c = choose|c: int| #[trigger] inner.is_under(0, c) && inner.hits_chunk(rules, ray, c);
        lemma_under_in_range(inner, 0, c);
        assert(is_before(first, c, ray.tmax));
    }
    if inner.nearest(rules, ray) is Some {
        let hit = inner.nearest(rules, ray)->0;
        let c = choose|c: int|
            #[trigger] inner.is_under(0, c) && is_before(first, c, ray.tmax) && hit == inner.in_scene(first(c)->0, c);
        lemma_under_in_range(inner, 0, c);
        assert(inner.hits_chunk(rules, ray, c));
    }
}

} // verus!

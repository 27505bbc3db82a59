//! The tree as it is searched.
use vstd::prelude::*;
use crate::accel::collapse::{are_valid_nodes, is_valid_reference};
use crate::accel::node::{Bvh8Node, FlatTriangles, TriSlot, LEAF_FLAG, MAX_CHUNKS, NO_CHILD, WIDTH};
use crate::arith::{Arith, ArithRules};
use crate::scalar::{Point3, Scalar};

verus! {

/// Ray for BVH queries. `dir` must be normalized.
#[derive(Clone, Copy, PartialEq, Eq, Structural, Debug)]
pub struct Ray {
    pub org: Point3,
    pub dir: Point3,
    pub tmin: Scalar,
    pub tmax: Scalar,
}

impl Ray {
    /// A ray without end.
    #[verifier::allow_in_spec]
    pub fn new(org: Point3, dir: Point3) -> Ray
        returns
            (Ray { org, dir, tmin: Scalar::zero(), tmax: Scalar::infinity() }),
    {
        Ray { org, dir, tmin: Scalar::zero(), tmax: Scalar::infinity() }
    }

    /// The part of a ray between two distances.
    #[verifier::allow_in_spec]
    pub fn new_with_minmax(org: Point3, dir: Point3, tmin: Scalar, tmax: Scalar) -> Ray
        returns
            (Ray { org, dir, tmin, tmax }),
    {
        Ray { org, dir, tmin, tmax }
    }
}

/// A ray, ready to be tested against boxes and triangles.
#[derive(Clone, Copy, PartialEq, Eq, Structural, Debug)]
pub struct InternalRay {
    pub origin: Point3,
    pub direction: Point3,
    pub inv_direction: Point3,
    pub tmin: Scalar,
    pub tmax: Scalar,
}

/// Where a ray enters the boxes of a node's children: a bit for each box that
/// it hits, and the distances.
#[derive(Clone, Copy, Debug)]
pub struct BoxHits {
    pub mask: u32,
    pub t: [Scalar; 8],
}

/// Where a ray hits a triangle: the distance and two barycentric coordinates.
#[derive(Clone, Copy, PartialEq, Eq, Structural, Debug)]
pub struct TriangleHit {
    pub t: Scalar,
    pub u: Scalar,
    pub v: Scalar,
}

/// The nearest hit in a chunk, and the lane of the triangle.
#[derive(Clone, Copy, PartialEq, Eq, Structural, Debug)]
pub struct TriangleHitSimd {
    pub hit: TriangleHit,
    pub lane: u32,
}

/// Result of a closest-hit query.
#[derive(Clone, Copy, PartialEq, Eq, Structural, Debug)]
pub struct Hit {
    pub t: Scalar,
    pub u: Scalar,
    pub v: Scalar,
    /// Index of the hit triangle within the `Geometry` it belongs to.
    pub prim_id: u32,
    /// Index of the `Geometry` within the `Scene`.
    pub geom_id: u32,
}

/// The functions by which rays are tested.
pub struct RayRules {
    /// A ray with its direction made unit length, and the reciprocals of the
    /// direction's coordinates.
    pub internal: spec_fn(Ray) -> InternalRay,
    /// Which of a node's boxes a ray enters, and where.
    pub boxes: spec_fn(InternalRay, Bvh8Node, Scalar) -> BoxHits,
    /// The nearest hit in a chunk.
    pub closest: spec_fn(InternalRay, FlatTriangles, Scalar, u8) -> Option<TriangleHitSimd>,
    /// Whether a triangle of a chunk is hit.
    pub any: spec_fn(InternalRay, FlatTriangles, Scalar, u8) -> bool,
}

impl RayRules {
    /// Whether these are the functions that an arithmetic of numbers gives.
    #[verifier::opaque]
    pub open spec fn describe<M: Arith>(self, m: M) -> bool {
        exists|arith: ArithRules| #[trigger] arith.describe(m) && self == arith.ray_rules()
    }
}

/// The slots of a node in the order in which a ray meets the octants: the one
/// it comes from first, then by the number of axes along which it has to cross
/// over.
pub open spec fn visiting_order(oct: int) -> Seq<usize> {
    if oct == 0 {
        seq![0usize, 1, 2, 4, 3, 5, 6, 7]
    } else if oct == 1 {
        seq![1usize, 0, 3, 5, 2, 4, 7, 6]
    } else if oct == 2 {
        seq![2usize, 0, 3, 6, 1, 4, 7, 5]
    } else if oct == 3 {
        seq![3usize, 1, 2, 7, 0, 5, 6, 4]
    } else if oct == 4 {
        seq![4usize, 0, 5, 6, 1, 2, 7, 3]
    } else if oct == 5 {
        seq![5usize, 1, 4, 7, 0, 3, 6, 2]
    } else if oct == 6 {
        seq![6usize, 2, 4, 7, 0, 3, 5, 1]
    } else {
        seq![7usize, 3, 5, 6, 1, 2, 4, 0]
    }
}

/// The slots of a node in the order in which a ray meets the octants.
pub fn child_order(oct: usize) -> (r: [usize; 8])
    ensures
        r@ == visiting_order(oct as int),
{
    let r: [usize; 8] = if oct == 0 {
        [0, 1, 2, 4, 3, 5, 6, 7]
    } else if oct == 1 {
        [1, 0, 3, 5, 2, 4, 7, 6]
    } else if oct == 2 {
        [2, 0, 3, 6, 1, 4, 7, 5]
    } else if oct == 3 {
        [3, 1, 2, 7, 0, 5, 6, 4]
    } else if oct == 4 {
        [4, 0, 5, 6, 1, 2, 7, 3]
    } else if oct == 5 {
        [5, 1, 4, 7, 0, 3, 6, 2]
    } else if oct == 6 {
        [6, 2, 4, 7, 0, 3, 5, 1]
    } else {
        [7, 3, 5, 6, 1, 2, 4, 0]
    };
    assert(r@ =~= visiting_order(oct as int));
    r
}

/// Number of axes along which two octants differ.
pub open spec fn octant_distance(a: int, b: int) -> int {
    (if a % 2 == b % 2 { 0int } else { 1 }) + (if a / 2 % 2 == b / 2 % 2 { 0int } else { 1 }) + (if a / 4 % 2 == b / 4 % 2 {
        0int
    } else {
        1
    })
}

/// A ray visits every slot once, and none before one that is fewer crossings
/// away from where it comes from.
pub proof fn law_visits_front_to_back(oct: int)
    requires
        0 <= oct < WIDTH,
    ensures
        visiting_order(oct).len() == WIDTH,
        visiting_order(oct)[0] == oct,
        visiting_order(oct).no_duplicates(),
        forall|i: int| 0 <= i < WIDTH ==> #[trigger] visiting_order(oct)[i] < WIDTH,
        forall|i: int, j: int|
            0 <= i < j < WIDTH ==> octant_distance(#[trigger] visiting_order(oct)[i] as int, oct) <= octant_distance(
                #[trigger] visiting_order(oct)[j] as int,
                oct,
            ),
        forall|slot: usize| slot < WIDTH ==> #[trigger] visiting_order(oct).contains(slot),
{
    let s = visiting_order(oct);
    assert forall|slot: usize| slot < WIDTH implies #[trigger] s.contains(slot) by {
        assert(s[0] == slot || s[1] == slot || s[2] == slot || s[3] == slot || s[4] == slot || s[5] == slot || s[6]
            == slot || s[7] == slot);
    }
}

/// The octant that a ray comes from: one bit per axis, set where the ray runs
/// toward lower coordinates.
pub open spec fn ray_octant(ray: InternalRay) -> int {
    (if ray.direction.x.lt(Scalar::zero()) { 1int } else { 0 }) + (if ray.direction.y.lt(Scalar::zero()) {
        2int
    } else {
        0
    }) + (if ray.direction.z.lt(Scalar::zero()) {
        4int
    } else {
        0
    })
}

/// A tree: its nodes, the root first, and its chunks of eight triangles, each
/// triangle with what it was in the scene.
pub struct BvhInner {
    pub nodes: Vec<Bvh8Node>,
    pub tri_slots: Vec<TriSlot>,
    pub soa_chunks: Vec<FlatTriangles>,
    /// One bitmask per chunk. A set bit means that the triangle in that lane
    /// accepts hits from behind.
    pub double_sided_masks: Vec<u8>,
}

/// Whether the bit of a slot is set.
pub open spec fn has_slot_bit(mask: u32, slot: int) -> bool {
    mask & (1u32 << (slot as u32)) != 0
}

impl BvhInner {
    /// Whether every reference can be followed and every triangle has a slot.
    pub open spec fn valid(self) -> bool {
        &&& self.soa_chunks.len() <= MAX_CHUNKS
        &&& self.tri_slots.len() == WIDTH * self.soa_chunks.len()
        &&& self.nodes.len() <= LEAF_FLAG
        &&& are_valid_nodes(self.nodes@, 0, self.soa_chunks.len() as int)
    }

    /// The mask of a chunk; without one, no triangle is hit from behind.
    pub open spec fn mask_of(self, c: int) -> u8 {
        if 0 <= c < self.double_sided_masks@.len() {
            self.double_sided_masks@[c]
        } else {
            0
        }
    }

    /// How high a reference stands: a leaf lowest, later nodes below earlier ones.
    pub open spec fn height(self, reference: u32) -> nat {
        if Bvh8Node::is_leaf(reference) || reference >= self.nodes@.len() {
            0
        } else {
            (self.nodes@.len() - reference) as nat
        }
    }

    /// The nearest hit in a chunk before `t_max`, as it is in the scene.
    pub open spec fn chunk_hit(self, rules: RayRules, ray: InternalRay, c: int, t_max: Scalar) -> Option<Hit> {
        match (rules.closest)(ray, self.soa_chunks@[c], t_max, self.mask_of(c)) {
            Some(h) => if h.lane < WIDTH {
                let slot = self.tri_slots@[WIDTH * c + h.lane];
                Some(
                    Hit {
                        t: h.hit.t,
                        u: h.hit.u,
                        v: h.hit.v,
                        prim_id: slot.orig_idx,
                        geom_id: slot.geom_id,
                    },
                )
            } else {
                None
            },
            None => None,
        }
    }
}

/// How far a search has come: the distance beyond which nothing matters any
/// more, and the nearest hit so far.
#[verifier::ext_equal]
pub struct Found {
    pub t_max: Scalar,
    pub hit: Option<Hit>,
}

impl BvhInner {
    /// What is known after some chunks of a leaf.
    pub open spec fn after_chunks(self, rules: RayRules, ray: InternalRay, start: int, n: nat, found: Found) -> Found
        decreases n,
    {
        if n == 0 {
            found
        } else {
            let f = self.after_chunks(rules, ray, start, (n - 1) as nat, found);
            match self.chunk_hit(rules, ray, start + n - 1, f.t_max) {
                Some(h) => Found { t_max: h.t, hit: Some(h) },
                None => f,
            }
        }
    }

    /// Whether the child in a slot is worth a visit: its box is hit, and nearer
    /// than what was known when the node was tested.
    pub open spec fn is_candidate(self, n: int, hits: BoxHits, t_max: Scalar, slot: int) -> bool {
        &&& has_slot_bit(hits.mask, slot)
        &&& self.nodes@[n].children[slot] != NO_CHILD
        &&& hits.t[slot].lt(t_max)
    }

    /// What is known after the subtree that a reference names, entered at `t`:
    /// nothing new if that is no nearer than what is known; else what its chunks
    /// give, or what its children give in the order in which the ray meets them.
    pub open spec fn after_visit(self, rules: RayRules, ray: InternalRay, reference: u32, t: Scalar, found: Found) -> Found
        decreases self.height(reference), WIDTH + 1,
    {
        if found.t_max.le(t) {
            found
        } else if Bvh8Node::is_leaf(reference) {
            self.after_chunks(
                rules,
                ray,
                Bvh8Node::leaf_start(reference) as int,
                Bvh8Node::leaf_count(reference) as nat,
                found,
            )
        } else if reference < self.nodes@.len() {
            let hits = (rules.boxes)(ray, self.nodes@[reference as int], found.t_max);
            self.after_children(rules, ray, reference, hits, found.t_max, 0, found)
        } else {
            found
        }
    }

    /// What is known after the children of a node from the `k`th in order on.
    pub open spec fn after_children(
        self,
        rules: RayRules,
        ray: InternalRay,
        n: u32,
        hits: BoxHits,
        t_max: Scalar,
        k: nat,
        found: Found,
    ) -> Found
        decreases self.height(n), WIDTH - k,
    {
        if k >= WIDTH {
            found
        } else {
            let slot = visiting_order(ray_octant(ray))[k as int] as int;
            let child = self.nodes@[n as int].children[slot];
            if self.is_candidate(n as int, hits, t_max, slot) && self.height(child) < self.height(n) {
                self.after_children(
                    rules,
                    ray,
                    n,
                    hits,
                    t_max,
                    k + 1,
                    self.after_visit(rules, ray, child, hits.t[slot], found),
                )
            } else {
                self.after_children(rules, ray, n, hits, t_max, k + 1, found)
            }
        }
    }

    /// The nearest hit of a ray.
    pub open spec fn nearest(self, rules: RayRules, ray: InternalRay) -> Option<Hit> {
        if self.nodes@.len() == 0 {
            None
        } else {
            self.after_visit(rules, ray, 0, Scalar::zero(), Found { t_max: ray.tmax, hit: None }).hit
        }
    }
}

/// Nine to a power.
pub open spec fn pow9(n: nat) -> nat
    decreases n,
{
    if n == 0 {
        1
    } else {
        9 * pow9((n - 1) as nat)
    }
}

proof fn lemma_pow9_monotone(a: nat, b: nat)
    requires
        a <= b,
    ensures
        1 <= pow9(a) <= pow9(b),
    decreases b,
{
    if a < b {
        lemma_pow9_monotone(a, (b - 1) as nat);
    } else if a > 0 {
        lemma_pow9_monotone((a - 1) as nat, (a - 1) as nat);
    }
}

impl BvhInner {
    /// What is known after all that is still to be visited, the last first.
    spec fn after_stack(self, rules: RayRules, ray: InternalRay, stack: Seq<(u32, Scalar)>, found: Found) -> Found
        decreases stack.len(),
    {
        if stack.len() == 0 {
            found
        } else {
            self.after_stack(
                rules,
                ray,
                stack.drop_last(),
                self.after_visit(rules, ray, stack.last().0, stack.last().1, found),
            )
        }
    }

    /// A bound on the number of visits that a stack can still cause.
    spec fn stack_weight(self, stack: Seq<(u32, Scalar)>) -> nat
        decreases stack.len(),
    {
        if stack.len() == 0 {
            0
        } else {
            self.stack_weight(stack.drop_last()) + pow9(self.height(stack.last().0))
        }
    }

    /// Whether a reference can be followed from anywhere.
    spec fn is_reference(self, reference: u32) -> bool {
        reference != NO_CHILD && is_valid_reference(
            reference,
            -1,
            self.nodes@.len() as int,
            self.soa_chunks@.len() as int,
        )
    }

    /// Whether all references on a stack can be followed.
    spec fn is_stack(self, stack: Seq<(u32, Scalar)>) -> bool {
        forall|i: int| 0 <= i < stack.len() ==> self.is_reference((#[trigger] stack[i]).0)
    }

    proof fn lemma_push(self, rules: RayRules, ray: InternalRay, stack: Seq<(u32, Scalar)>, x: (u32, Scalar), found: Found)
        ensures
            self.after_stack(rules, ray, stack.push(x), found) == self.after_stack(
                rules,
                ray,
                stack,
                self.after_visit(rules, ray, x.0, x.1, found),
            ),
            self.stack_weight(stack.push(x)) == self.stack_weight(stack) + pow9(self.height(x.0)),
    {
        assert(stack.push(x).drop_last() =~= stack);
    }

    /// The mask of a chunk; without one, no triangle is hit from behind.
    fn get_mask(&self, c: usize) -> (r: u8)
        ensures
            r == self.mask_of(c as int),
    {
        if c < self.double_sided_masks.len() {
            self.double_sided_masks[c]
        } else {
            0
        }
    }

    /// The octant that a ray comes from.
    fn octant_of(ray: &InternalRay) -> (r: usize)
        ensures
            r == ray_octant(*ray),
            r < WIDTH,
    {
        let x: usize = if ray.direction.x.lt(Scalar::zero()) { 1 } else { 0 };
        let y: usize = if ray.direction.y.lt(Scalar::zero()) { 2 } else { 0 };
        let z: usize = if ray.direction.z.lt(Scalar::zero()) { 4 } else { 0 };
        x + y + z
    }

    /// Searches the chunks of a leaf.
    fn search_leaf<M: Arith>(&self, math: &M, ray: &InternalRay, reference: u32, t_max: Scalar, hit: Option<Hit>) -> (r: (
        Scalar,
        Option<Hit>,
    ))
        requires
            self.valid(),
            self.is_reference(reference),
            Bvh8Node::is_leaf(reference),
        ensures
            forall|rules: RayRules| #[trigger]
                rules.describe(*math) ==> (Found { t_max: r.0, hit: r.1 }) == self.after_chunks(
                    rules,
                    *ray,
                    Bvh8Node::leaf_start(reference) as int,
                    Bvh8Node::leaf_count(reference) as nat,
                    (Found { t_max, hit }),
                ),
    {
        let start: u32 = Bvh8Node::leaf_start(reference);
        let count: u32 = Bvh8Node::leaf_count(reference);
        let mut far = t_max;
        let mut best = hit;
        let mut i: u32 = 0;
        while i < count
            invariant
                i <= count,
                self.valid(),
                start + count <= self.soa_chunks.len(),
                forall|rules: RayRules| #[trigger]
                    rules.describe(*math) ==> (Found { t_max: far, hit: best }) == self.after_chunks(
                        rules,
                        *ray,
                        start as int,
                        i as nat,
                        (Found { t_max, hit }),
                    ),
            decreases count - i,
        {
            let c: usize = (start + i) as usize;
            let mask: u8 = self.get_mask(c);
            let found = ray.closest_triangle_simd8(math, &self.soa_chunks[c], far, mask);
            if let Some(h) = found {
                if h.lane < 8 {
                    let slot = self.tri_slots[c * WIDTH + h.lane as usize];
                    far = h.hit.t;
                    best = Some(
                        Hit {
                            t: h.hit.t,
                            u: h.hit.u,
                            v: h.hit.v,
                            prim_id: slot.orig_idx,
                            geom_id: slot.geom_id,
                        },
                    );
                }
            }
            i = i + 1;
        }
        (far, best)
    }

    /// The nearest hit of a ray.
    pub fn closest_hit<M: Arith>(&self, math: &M, ray: &InternalRay) -> (r: Option<Hit>)
        requires
            self.valid(),
        ensures
            forall|rules: RayRules| #[trigger] rules.describe(*math) ==> r == self.nearest(rules, *ray),
    {
        if self.nodes.len() == 0 {
            return None;
        }
        let order = child_order(Self::octant_of(ray));
        proof {
            law_visits_front_to_back(ray_octant(*ray));
        }
        let mut t_max = ray.tmax;
        let mut hit: Option<Hit> = None;
        let mut stack: Vec<(u32, Scalar)> = Vec::new();
        stack.push((0, Scalar::zero()));
        let ghost start = Found { t_max: ray.tmax, hit: None };
        proof {
            assert forall|rules: RayRules| #[trigger] rules.describe(*math) implies self.after_stack(
                rules,
                *ray,
                stack@,
                Found { t_max, hit },
            ) == self.after_visit(rules, *ray, 0, Scalar::zero(), start) by {
                assert(stack@ =~= Seq::empty().push((0u32, Scalar::zero())));
                self.lemma_push(rules, *ray, Seq::empty(), (0u32, Scalar::zero()), start);
            }
        }
        while stack.len() > 0
            invariant
                self.valid(),
                self.is_stack(stack@),
                order@ == visiting_order(ray_octant(*ray)),
                forall|i: int| 0 <= i < WIDTH ==> #[trigger] order[i] < WIDTH,
                forall|rules: RayRules| #[trigger]
                    rules.describe(*math) ==> self.after_stack(rules, *ray, stack@, (Found { t_max, hit }))
                        == self.after_visit(rules, *ray, 0, Scalar::zero(), start),
            decreases self.stack_weight(stack@),
        {
            let ghost whole = stack@;
            let (reference, t) = stack.pop().unwrap();
            let ghost rest = stack@;
            let ghost now = Found { t_max, hit };
            proof {
                assert(whole.drop_last() =~= rest);
                assert(self.is_reference(whole[whole.len() - 1].0));
                lemma_pow9_monotone(0, self.height(reference));
                assert(self.is_stack(rest)) by {
                    assert forall|i: int| 0 <= i < rest.len() implies self.is_reference((#[trigger] rest[i]).0) by {
                        assert(whole[i] == rest[i]);
                    }
                }
            }
            if !t_max.le(t) {
                if Bvh8Node::is_leaf(reference) {
                    let (far, best) = self.search_leaf(math, ray, reference, t_max, hit);
                    t_max = far;
                    hit = best;
                } else {
                    let node = &self.nodes[reference as usize];
                    let hits = ray.intersect_bvh8(math, node, t_max);
                    let mut k: usize = WIDTH;
                    while k > 0
                        invariant
                            k <= WIDTH,
                            self.valid(),
                            *node == self.nodes[reference as int],
                            !Bvh8Node::is_leaf(reference),
                            reference < self.nodes.len(),
                            self.is_stack(stack@),
                            order@ == visiting_order(ray_octant(*ray)),
                            forall|i: int| 0 <= i < WIDTH ==> #[trigger] order[i] < WIDTH,
                            self.stack_weight(stack@) <= self.stack_weight(rest) + (WIDTH - k) * pow9(
                                (self.height(reference) - 1) as nat,
                            ),
                            forall|rules: RayRules, f: Found|
                                #![trigger self.after_stack(rules, *ray, stack@, f)]
                                rules.describe(*math) ==> self.after_stack(rules, *ray, stack@, f)
                                    == self.after_stack(
                                    rules,
                                    *ray,
                                    rest,
                                    self.after_children(rules, *ray, reference, hits, t_max, k as nat, f),
                                ),
                        decreases k,
                    {
                        let ghost before = stack@;
                        k = k - 1;
                        let slot: usize = order[k];
                        let child: u32 = node.children[slot];
                        if hits.mask & (1u32 << (slot as u32)) != 0 && child != NO_CHILD && hits.t[slot].lt(t_max) {
                            stack.push((child, hits.t[slot]));
                            proof {
                                assert(is_valid_reference(
                                    self.nodes@[reference as int].children[slot as int],
                                    reference as int,
                                    self.nodes@.len() as int,
                                    self.soa_chunks@.len() as int,
                                ));
                                assert(self.height(child) < self.height(reference));
                                self.lemma_push(
                                    arbitrary(),
                                    *ray,
                                    before,
                                    (child, hits.t[slot as int]),
                                    arbitrary(),
                                );
                                lemma_pow9_monotone(self.height(child), (self.height(reference) - 1) as nat);
                                assert((WIDTH - k) * pow9((self.height(reference) - 1) as nat) == (WIDTH - (k + 1))
                                    * pow9((self.height(reference) - 1) as nat) + pow9(
                                    (self.height(reference) - 1) as nat,
                                )) by (nonlinear_arith);
                            }
                        } else {
                            proof {
                                assert((WIDTH - k) * pow9((self.height(reference) - 1) as nat) >= (WIDTH - (k + 1))
                                    * pow9((self.height(reference) - 1) as nat)) by (nonlinear_arith)
                                    requires
                                        k < WIDTH,
                                ;
                            }
                        }
                        proof {
                            assert forall|rules: RayRules, f: Found|
                                #![trigger self.after_stack(rules, *ray, stack@, f)]
                                rules.describe(*math) implies self.after_stack(rules, *ray, stack@, f)
                                == self.after_stack(
                                rules,
                                *ray,
                                rest,
                                self.after_children(rules, *ray, reference, hits, t_max, k as nat, f),
                            ) by {
                                if stack@.len() > before.len() {
                                    self.lemma_push(rules, *ray, before, (child, hits.t[slot as int]), f);
                                }
                            }
                        }
                    }
                    proof {
                        let h = self.height(reference);
                        assert(8 * pow9((h - 1) as nat) < pow9(h)) by {
                            lemma_pow9_monotone(0, (h - 1) as nat);
                        }
                        assert forall|rules: RayRules| #[trigger] rules.describe(*math) implies self.after_stack(
                            rules,
                            *ray,
                            stack@,
                            now,
                        ) == self.after_visit(rules, *ray, 0, Scalar::zero(), start) by {
                            assert(self.after_visit(rules, *ray, reference, t, now) == self.after_children(
                                rules,
                                *ray,
                                reference,
                                hits,
                                t_max,
                                0,
                                now,
                            ));
                        }
                    }
                }
            }
        }
        hit
    }
}

impl BvhInner {
    /// Whether a ray hits a triangle of a chunk.
    pub open spec fn hits_chunk(self, rules: RayRules, ray: InternalRay, c: int) -> bool {
        (rules.any)(ray, self.soa_chunks@[c], ray.tmax, self.mask_of(c))
    }

    /// Whether a ray hits a chunk of the subtree that a reference names, going
    /// down through boxes that it hits.
    pub open spec fn hits_subtree(self, rules: RayRules, ray: InternalRay, reference: u32) -> bool
        decreases self.height(reference), WIDTH + 1,
    {
        if Bvh8Node::is_leaf(reference) {
            let start = Bvh8Node::leaf_start(reference);
            exists|c: int|
                start <= c < start + Bvh8Node::leaf_count(reference) && #[trigger] self.hits_chunk(rules, ray, c)
        } else {
            reference < self.nodes@.len() && self.hits_children(
                rules,
                ray,
                reference,
                (rules.boxes)(ray, self.nodes@[reference as int], ray.tmax),
                WIDTH as nat,
            )
        }
    }

    /// Whether that is so of a child in one of the first `k` slots of a node.
    pub open spec fn hits_children(self, rules: RayRules, ray: InternalRay, n: u32, hits: BoxHits, k: nat) -> bool
        decreases self.height(n), k,
    {
        if k == 0 {
            false
        } else {
            let child = self.nodes@[n as int].children[k - 1];
            ||| self.hits_children(rules, ray, n, hits, (k - 1) as nat)
            ||| self.is_candidate(n as int, hits, ray.tmax, k - 1) && self.height(child) < self.height(n)
                && self.hits_subtree(rules, ray, child)
        }
    }

    /// Whether a ray hits anything.
    pub open spec fn is_hit(self, rules: RayRules, ray: InternalRay) -> bool {
        self.nodes@.len() > 0 && self.hits_subtree(rules, ray, 0)
    }

    /// Whether a ray hits something in one of the subtrees on a stack.
    spec fn hits_stack(self, rules: RayRules, ray: InternalRay, stack: Seq<(u32, Scalar)>) -> bool
        decreases stack.len(),
    {
        if stack.len() == 0 {
            false
        } else {
            self.hits_stack(rules, ray, stack.drop_last()) || self.hits_subtree(rules, ray, stack.last().0)
        }
    }

    /// Whether a ray hits a chunk of a leaf.
    fn any_in_leaf<M: Arith>(&self, math: &M, ray: &InternalRay, reference: u32) -> (r: bool)
        requires
            self.valid(),
            self.is_reference(reference),
            Bvh8Node::is_leaf(reference),
        ensures
            forall|rules: RayRules| #[trigger]
                rules.describe(*math) ==> r == self.hits_subtree(rules, *ray, reference),
    {
        let start: u32 = Bvh8Node::leaf_start(reference);
        let count: u32 = Bvh8Node::leaf_count(reference);
        let mut i: u32 = 0;
        while i < count
            invariant
                i <= count,
                self.valid(),
                start == Bvh8Node::leaf_start(reference),
                count == Bvh8Node::leaf_count(reference),
                Bvh8Node::is_leaf(reference),
                start + count <= self.soa_chunks.len(),
                forall|rules: RayRules, c: int|
                    #![trigger rules.describe(*math), self.hits_chunk(rules, *ray, c)]
                    rules.describe(*math) && start <= c < start + i ==> !self.hits_chunk(rules, *ray, c),
            decreases count - i,
        {
            let c: usize = (start + i) as usize;
            if ray.any_triangle_simd8(math, &self.soa_chunks[c], ray.tmax, self.get_mask(c)) {
                proof {
                    assert forall|rules: RayRules| #[trigger] rules.describe(*math) implies self.hits_subtree(
                        rules,
                        *ray,
                        reference,
                    ) by {
                        assert(self.hits_chunk(rules, *ray, c as int));
                    }
                }
                return true;
            }
            i = i + 1;
        }
        false
    }

    /// Whether a ray hits anything.
    pub fn any_hit<M: Arith>(&self, math: &M, ray: &InternalRay) -> (r: bool)
        requires
            self.valid(),
        ensures
            forall|rules: RayRules| #[trigger] rules.describe(*math) ==> r == self.is_hit(rules, *ray),
    {
        if self.nodes.len() == 0 {
            return false;
        }
        let mut stack: Vec<(u32, Scalar)> = Vec::new();
        stack.push((0, Scalar::zero()));
        proof {
            let s = Seq::<(u32, Scalar)>::empty();
            assert(stack@ =~= s.push((0u32, Scalar::zero())));
            assert(stack@.drop_last() =~= s);
            assert forall|rules: RayRules| #[trigger] rules.describe(*math) implies self.hits_stack(
                rules,
                *ray,
                stack@,
            ) == self.is_hit(rules, *ray) by {
                assert(!self.hits_stack(rules, *ray, s));
            }
        }
        while stack.len() > 0
            invariant
                self.valid(),
                self.nodes.len() > 0,
                self.is_stack(stack@),
                forall|rules: RayRules| #[trigger]
                    rules.describe(*math) ==> self.hits_stack(rules, *ray, stack@) == self.is_hit(rules, *ray),
            decreases self.stack_weight(stack@),
        {
            let ghost whole = stack@;
            let (reference, _t) = stack.pop().unwrap();
            let ghost rest = stack@;
            proof {
                assert(whole.drop_last() =~= rest);
                assert(self.is_reference(whole[whole.len() - 1].0));
                lemma_pow9_monotone(0, self.height(reference));
                assert forall|i: int| 0 <= i < rest.len() implies self.is_reference((#[trigger] rest[i]).0) by {
                    assert(whole[i] == rest[i]);
                }
            }
            if Bvh8Node::is_leaf(reference) {
                if self.any_in_leaf(math, ray, reference) {
                    return true;
                }
            } else {
                let node = &self.nodes[reference as usize];
                let hits = ray.intersect_bvh8(math, node, ray.tmax);
                let mut k: usize = 0;
                while k < WIDTH
                    invariant
                        k <= WIDTH,
                        self.valid(),
                        *node == self.nodes[reference as int],
                        !Bvh8Node::is_leaf(reference),
                        reference < self.nodes.len(),
                        self.is_stack(stack@),
                        self.stack_weight(stack@) <= self.stack_weight(rest) + k * pow9(
                            (self.height(reference) - 1) as nat,
                        ),
                        forall|rules: RayRules| #[trigger]
                            rules.describe(*math) ==> self.hits_stack(rules, *ray, stack@) == (self.hits_stack(
                                rules,
                                *ray,
                                rest,
                            ) || self.hits_children(rules, *ray, reference, hits, k as nat)),
                    decreases WIDTH - k,
                {
                    let ghost before = stack@;
                    let child: u32 = node.children[k];
                    proof {
                        let p = pow9((self.height(reference) - 1) as nat);
                        assert((k + 1) * p == k * p + p) by (nonlinear_arith);
                    }
                    if hits.mask & (1u32 << (k as u32)) != 0 && child != NO_CHILD && hits.t[k].lt(ray.tmax) {
                        stack.push((child, Scalar::zero()));
                        proof {
                            assert(is_valid_reference(
                                self.nodes@[reference as int].children[k as int],
                                reference as int,
                                self.nodes@.len() as int,
                                self.soa_chunks@.len() as int,
                            ));
                            assert(stack@.drop_last() =~= before);
                            lemma_pow9_monotone(self.height(child), (self.height(reference) - 1) as nat);
                        }
                    }
                    k = k + 1;
                }
                proof {
                    let h = self.height(reference);
                    assert(8 * pow9((h - 1) as nat) < pow9(h)) by {
                        lemma_pow9_monotone(0, (h - 1) as nat);
                    }
                }
            }
        }
        false
    }
}

} // verus!

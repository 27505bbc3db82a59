//! Meshes that give light.
use vstd::prelude::*;
use crate::arith::{
    blend, cross, law_blend_has_corners, law_cross_is_right_handed, law_dot_counts_axes_alike, minus, norm, Arith,
    ArithRules,
};
use crate::distribution::{bin_of, Distribution1D};
use crate::pcg32::{Pcg32, Stream};
use crate::scalar::{Point3, Scalar};
use crate::scene::{Color, Texture, Vec2};
use crate::texture::{are_complete, modulate};

verus! {

/// Key of one half.
pub const HALF_KEY: i32 = 0x3f00_0000;

/// One emissive triangle in world space.
#[derive(Clone, Copy, PartialEq, Eq, Structural, Debug)]
pub struct EmitterTri {
    pub v0: Point3,
    pub v1: Point3,
    pub v2: Point3,
    pub uv0: Vec2,
    pub uv1: Vec2,
    pub uv2: Vec2,
    /// Geometric normal, unit length.
    pub normal: Point3,
}

/// Geometric sample on an area light: position and normal only, no texture
/// evaluation.
#[derive(Clone, Copy, PartialEq, Eq, Structural, Debug)]
pub struct EmitterGeomSample {
    pub p: Point3,
    pub normal: Point3,
    pub tri_idx: usize,
    pub u: Scalar,
    pub v: Scalar,
    pub pdf_area: Scalar,
}

/// Result of sampling a point on an area light.
#[derive(Clone, Copy, PartialEq, Eq, Structural, Debug)]
pub struct EmitterSample {
    pub p: Point3,
    pub normal: Point3,
    pub le: Color,
    pub pdf_area: Scalar,
}

/// One emissive mesh instance = one area light. Triangles are sampled
/// area-weighted within the mesh, so the density over the surface is constant.
pub struct MeshEmitter {
    tris: Vec<EmitterTri>,
    /// Over the triangles, weighted by their areas.
    pick: Distribution1D,
    total_area: Scalar,
    emissive: Color,
    emissive_texture: Option<u32>,
}

/// The triangles of an area light, the table by which one is picked and what it was
/// normalized by, the total area, the color and the texture.
#[verifier::ext_equal]
pub struct MeshEmitterView {
    pub tris: Seq<EmitterTri>,
    pub cdf: Seq<Scalar>,
    pub integral: Scalar,
    pub total_area: Scalar,
    pub emissive: Color,
    pub emissive_texture: Option<u32>,
}

impl View for MeshEmitter {
    type V = MeshEmitterView;

    closed spec fn view(&self) -> MeshEmitterView {
        MeshEmitterView {
            tris: self.tris@,
            cdf: self.pick.cdf@,
            integral: self.pick.integral,
            total_area: self.total_area,
            emissive: self.emissive,
            emissive_texture: self.emissive_texture,
        }
    }
}

impl MeshEmitterView {
    /// Whether there is a triangle, and a bin for each.
    pub open spec fn valid(self) -> bool {
        self.tris.len() > 0 && self.cdf.len() == self.tris.len() + 1
    }
}

/// A weighted mean of three points of a texture.
pub fn blend_uv<M: Arith>(math: &M, a: Vec2, wa: Scalar, b: Vec2, wb: Scalar, c: Vec2, wc: Scalar) -> (r: Vec2)
    ensures
        forall|rules: ArithRules| #[trigger] rules.describe(*math) ==> r == rules.blend_uv(a, wa, b, wb, c, wc),
{
    Vec2 {
        x: math.sum(math.sum(math.product(a.x, wa), math.product(b.x, wb)), math.product(c.x, wc)),
        y: math.sum(math.sum(math.product(a.y, wa), math.product(b.y, wb)), math.product(c.y, wc)),
    }
}

/// Two barycentric coordinates and the third.
#[derive(Clone, Copy, PartialEq, Eq, Structural, Debug)]
pub struct Barycentric {
    pub u: Scalar,
    pub v: Scalar,
    pub w: Scalar,
}

impl ArithRules {
    /// A weighted mean of three points of a texture.
    pub open spec fn blend_uv(self, a: Vec2, wa: Scalar, b: Vec2, wb: Scalar, c: Vec2, wc: Scalar) -> Vec2 {
        Vec2 {
            x: self.sum(self.sum(self.product(a.x, wa), self.product(b.x, wb)), self.product(c.x, wc)),
            y: self.sum(self.sum(self.product(a.y, wa), self.product(b.y, wb)), self.product(c.y, wc)),
        }
    }

    /// The third barycentric coordinate.
    pub open spec fn third(self, u: Scalar, v: Scalar) -> Scalar {
        self.difference(self.difference(Scalar::one(), u), v)
    }

    /// The point of a triangle that two uniform numbers pick: those beyond the
    /// diagonal of the square are folded back.
    pub open spec fn folded(self, u: Scalar, v: Scalar) -> Barycentric {
        if Scalar::one().lt(self.sum(u, v)) {
            let fu = self.difference(Scalar::one(), u);
            let fv = self.difference(Scalar::one(), v);
            Barycentric { u: fu, v: fv, w: self.third(fu, fv) }
        } else {
            Barycentric { u, v, w: self.third(u, v) }
        }
    }

    /// The area of a triangle.
    pub open spec fn tri_area(self, t: EmitterTri) -> Scalar {
        self.product(
            Scalar { key: HALF_KEY },
            self.norm(self.cross(self.minus(t.v1, t.v0), self.minus(t.v2, t.v0))),
        )
    }

    /// The areas of triangles.
    pub open spec fn areas(self, tris: Seq<EmitterTri>) -> Seq<Scalar> {
        tris.map_values(|t: EmitterTri| self.tri_area(t))
    }

    /// The areas of the first `k` triangles, added up.
    pub open spec fn area_of(self, tris: Seq<EmitterTri>, k: nat) -> Scalar
        decreases k,
    {
        if k == 0 {
            Scalar::zero()
        } else {
            self.sum(self.area_of(tris, (k - 1) as nat), self.tri_area(tris[k - 1]))
        }
    }

    /// The area light made of some triangles, or none if there is nothing to sample.
    pub open spec fn emitter_of(
        self,
        tris: Seq<EmitterTri>,
        emissive: Color,
        emissive_texture: Option<u32>,
    ) -> Option<MeshEmitterView> {
        let total_area = self.area_of(tris, tris.len());
        if tris.len() == 0 || total_area.le(Scalar::zero()) {
            None
        } else {
            Some(
                MeshEmitterView {
                    tris,
                    cdf: self.cdf_of(self.areas(tris)),
                    integral: self.integral_of(self.areas(tris)),
                    total_area,
                    emissive,
                    emissive_texture,
                },
            )
        }
    }

    /// The point that three uniform numbers pick: the first the triangle, the
    /// others a point in it.
    pub open spec fn geom_sample(self, m: MeshEmitterView, u0: Scalar, u1: Scalar, u2: Scalar) -> EmitterGeomSample {
        let i = bin_of(m.cdf, u0);
        let tri = m.tris[i];
        let b = self.folded(u1, u2);
        EmitterGeomSample {
            p: self.blend(tri.v0, b.w, tri.v1, b.u, tri.v2, b.v),
            normal: tri.normal,
            tri_idx: i as usize,
            u: b.u,
            v: b.v,
            pdf_area: self.quotient(Scalar::one(), m.total_area),
        }
    }

    /// The radiance emitted at a sampled point.
    pub open spec fn emitted(self, m: MeshEmitterView, s: EmitterGeomSample, textures: Seq<Texture>) -> Color {
        let tri = m.tris[s.tri_idx as int];
        let uv = self.blend_uv(tri.uv0, self.third(s.u, s.v), tri.uv1, s.u, tri.uv2, s.v);
        self.modulated(textures, m.emissive_texture, m.emissive, uv)
    }
}

/// The third barycentric coordinate.
pub fn third<M: Arith>(math: &M, u: Scalar, v: Scalar) -> (r: Scalar)
    ensures
        forall|rules: ArithRules| #[trigger] rules.describe(*math) ==> r == rules.third(u, v),
{
    math.difference(math.difference(Scalar::one(), u), v)
}

/// The point of a triangle that two uniform numbers pick.
fn fold<M: Arith>(math: &M, u: Scalar, v: Scalar) -> (r: Barycentric)
    ensures
        forall|rules: ArithRules| #[trigger] rules.describe(*math) ==> r == rules.folded(u, v),
{
    if Scalar::one().lt(math.sum(u, v)) {
        let fu = math.difference(Scalar::one(), u);
        let fv = math.difference(Scalar::one(), v);
        Barycentric { u: fu, v: fv, w: third(math, fu, fv) }
    } else {
        Barycentric { u, v, w: third(math, u, v) }
    }
}

impl EmitterTri {
    /// The area of the triangle.
    pub fn area<M: Arith>(&self, math: &M) -> (r: Scalar)
        ensures
            forall|rules: ArithRules| #[trigger] rules.describe(*math) ==> r == rules.tri_area(*self),
    {
        let e1 = minus(math, self.v1, self.v0);
        let e2 = minus(math, self.v2, self.v0);
        math.product(Scalar { key: HALF_KEY }, norm(math, cross(math, e1, e2)))
    }
}

impl MeshEmitter {
    /// There is a triangle to sample, and a bin for each.
    #[verifier::type_invariant]
    spec fn is_sound(self) -> bool {
        self@.valid()
    }

    /// Build from non-degenerate world-space triangles. Returns `None` if there
    /// are none or the total area is zero.
    pub fn new<M: Arith>(
        math: &M,
        tris: Vec<EmitterTri>,
        emissive: Color,
        emissive_texture: Option<u32>,
    ) -> (r: Option<MeshEmitter>)
        ensures
            tris.len() == 0 ==> r is None,
            r matches Some(m) ==> m@.valid() && m@.tris == tris@ && m@.emissive == emissive && m@.emissive_texture
                == emissive_texture && !m@.total_area.le(Scalar::zero()),
            forall|rules: ArithRules| #[trigger]
                rules.describe(*math) ==> match r {
                    Some(m) => rules.emitter_of(tris@, emissive, emissive_texture) == Some(m@),
                    None => rules.emitter_of(tris@, emissive, emissive_texture) is None,
                },
    {
        if tris.len() == 0 {
            return None;
        }
        let mut areas: Vec<Scalar> = Vec::new();
        let mut total_area = Scalar::zero();
        let mut i: usize = 0;
        while i < tris.len()
            invariant
                i <= tris.len(),
                areas.len() == i,
                forall|rules: ArithRules, j: int|
                    #![trigger rules.describe(*math), areas@[j]]
                    rules.describe(*math) && 0 <= j < i ==> areas@[j] == rules.tri_area(tris@[j]),
                forall|rules: ArithRules| #[trigger]
                    rules.describe(*math) ==> total_area == rules.area_of(tris@, i as nat),
            decreases tris.len() - i,
        {
            let area = tris[i].area(math);
            areas.push(area);
            total_area = math.sum(total_area, area);
            i = i + 1;
        }
        proof {
            assert forall|rules: ArithRules| #[trigger] rules.describe(*math) implies areas@ == rules.areas(tris@) by {
                assert(areas@ =~= rules.areas(tris@));
            }
        }
        if total_area.le(Scalar::zero()) {
            return None;
        }
        let pick = Distribution1D::new(math, &areas);
        Some(MeshEmitter { tris, pick, total_area, emissive, emissive_texture })
    }

    /// The sum of the areas of the triangles.
    pub fn total_area(&self) -> (r: Scalar)
        ensures
            r == self@.total_area,
    {
        self.total_area
    }

    /// The triangles.
    pub fn tris(&self) -> (r: &Vec<EmitterTri>)
        ensures
            r@ == self@.tris,
    {
        &self.tris
    }

    /// The color of the light.
    pub fn emissive(&self) -> (r: Color)
        ensures
            r == self@.emissive,
    {
        self.emissive
    }

    /// The texture that modulates the color.
    pub fn emissive_texture(&self) -> (r: Option<u32>)
        ensures
            r == self@.emissive_texture,
    {
        self.emissive_texture
    }

    /// Geometry-only sample: a triangle and a point in it, no texture lookup.
    /// Call `le_at()` afterwards, if the sample passes backface and distance tests.
    pub fn sample_geom<M: Arith>(&self, math: &M, rng: &mut Pcg32) -> (r: EmitterGeomSample)
        ensures
            final(rng)@ == old(rng)@.next().next().next(),
            r.tri_idx < self@.tris.len(),
            forall|rules: ArithRules| #[trigger]
                rules.describe(*math) ==> r == rules.geom_sample(
                    self@,
                    old(rng)@.value(),
                    old(rng)@.next().value(),
                    old(rng)@.next().next().value(),
                ),
    {
        proof {
            use_type_invariant(self);
        }
        let u0 = rng.next_f32();
        let tri_idx: usize = self.pick.sample(math, u0).bin;
        let tri = self.tris[tri_idx];
        let u1 = rng.next_f32();
        let u2 = rng.next_f32();
        let b = fold(math, u1, u2);
        EmitterGeomSample {
            p: blend(math, tri.v0, b.w, tri.v1, b.u, tri.v2, b.v),
            normal: tri.normal,
            tri_idx,
            u: b.u,
            v: b.v,
            pdf_area: math.quotient(Scalar::one(), self.total_area),
        }
    }

    /// Evaluate emitted radiance at a previously sampled geometry point.
    pub fn le_at<M: Arith>(&self, math: &M, s: &EmitterGeomSample, textures: &Vec<Texture>) -> (r: Color)
        requires
            s.tri_idx < self@.tris.len(),
            are_complete(textures@),
        ensures
            forall|rules: ArithRules| #[trigger] rules.describe(*math) ==> r == rules.emitted(self@, *s, textures@),
    {
        let tri = self.tris[s.tri_idx];
        let uv = blend_uv(math, tri.uv0, third(math, s.u, s.v), tri.uv1, s.u, tri.uv2, s.v);
        modulate(math, textures, self.emissive_texture, self.emissive, uv)
    }

    /// Area-weighted sample of a point on the mesh, with what is emitted there.
    pub fn sample<M: Arith>(&self, math: &M, rng: &mut Pcg32, textures: &Vec<Texture>) -> (r: EmitterSample)
        requires
            are_complete(textures@),
        ensures
            final(rng)@ == old(rng)@.next().next().next(),
            forall|rules: ArithRules| #[trigger]
                rules.describe(*math) ==> {
                    let g = rules.geom_sample(
                        self@,
                        old(rng)@.value(),
                        old(rng)@.next().value(),
                        old(rng)@.next().next().value(),
                    );
                    r == (EmitterSample {
                        p: g.p,
                        normal: g.normal,
                        le: rules.emitted(self@, g, textures@),
                        pdf_area: g.pdf_area,
                    })
                },
    {
        let g = self.sample_geom(math, rng);
        let le = self.le_at(math, &g, textures);
        EmitterSample { p: g.p, normal: g.normal, le, pdf_area: g.pdf_area }
    }
}

/// The density over an area light does not depend on the point sampled: picking
/// triangles by area cancels the density within a triangle.
pub proof fn law_area_density_is_constant(
    rules: ArithRules,
    m: MeshEmitterView,
    a: Stream,
    b: Stream,
)
    ensures
        rules.geom_sample(m, a.value(), a.next().value(), a.next().next().value()).pdf_area == rules.geom_sample(
            m,
            b.value(),
            b.next().value(),
            b.next().next().value(),
        ).pdf_area,
{
}

/// Barycentric coordinates make one together, wherever taking away can be undone.
pub proof fn law_coordinates_make_one(rules: ArithRules, u: Scalar, v: Scalar)
    requires
        ({
            let w = rules.difference(Scalar::one(), u);
            &&& rules.sum(rules.difference(w, v), v) == w
            &&& rules.sum(w, u) == Scalar::one()
        }),
    ensures
        rules.sum(rules.sum(rules.third(u, v), v), u) == Scalar::one(),
{
}

/// Two numbers always pick a point of the triangle: no coordinate is negative,
/// wherever less a smaller number is not negative; and those in the triangle already
/// stay as they are.
pub proof fn law_folding_stays_inside(rules: ArithRules, u: Scalar, v: Scalar)
    requires
        rules.keeps_selves(),
        rules.orders_sums(),
        Scalar::zero().le(u) && u.le(Scalar::one()),
        Scalar::zero().le(v) && v.le(Scalar::one()),
        rules.sum(u, v).ordered(),
        !Scalar::one().lt(rules.sum(u, v)) ==> v.le(rules.difference(Scalar::one(), u)) && rules.difference(
            Scalar::one(),
            u,
        ).is_finite(),
        Scalar::one().lt(rules.sum(u, v)) ==> rules.difference(Scalar::one(), v).le(
            rules.difference(Scalar::one(), rules.difference(Scalar::one(), u)),
        ) && rules.difference(Scalar::one(), rules.difference(Scalar::one(), u)).is_finite() && rules.difference(
            Scalar::one(),
            v,
        ).is_finite(),
    ensures
        ({
            let b = rules.folded(u, v);
            &&& Scalar::zero().le(b.u)
            &&& Scalar::zero().le(b.v)
            &&& Scalar::zero().le(b.w)
            &&& rules.sum(u, v).le(Scalar::one()) ==> b.u == u && b.v == v
            &&& Scalar::one().lt(rules.sum(u, v)) ==> b.u == rules.difference(Scalar::one(), u) && b.v
                == rules.difference(Scalar::one(), v)
        }),
{
    assert(rules.difference(Scalar::one(), Scalar::one()) == Scalar::zero());
    let a = rules.difference(Scalar::one(), u);
    let b = rules.difference(Scalar::one(), v);
    assert(rules.difference(Scalar::one(), Scalar::one()).le(a));
    assert(rules.difference(Scalar::one(), Scalar::one()).le(b));
    if Scalar::one().lt(rules.sum(u, v)) {
        let c = rules.difference(Scalar::one(), a);
        assert(rules.difference(b, b) == Scalar::zero());
        assert(rules.difference(b, b).le(rules.difference(c, b)));
    } else {
        assert(rules.difference(v, v) == Scalar::zero());
        assert(rules.difference(v, v).le(rules.difference(a, v)));
    }
}

/// A sampled point lies on the triangle that the first number picks: at its corners
/// where the others say so, with its normal; and what is emitted there is read from
/// the texture at the same corner.
pub proof fn law_sample_lies_on_its_triangle(
    rules: ArithRules,
    m: MeshEmitterView,
    u0: Scalar,
    u1: Scalar,
    u2: Scalar,
    textures: Seq<Texture>,
)
    requires
        m.valid(),
        rules.keeps_ones(),
        rules.keeps_zeros(),
        rules.keeps_selves(),
        0 <= bin_of(m.cdf, u0) < m.tris.len(),
        m.tris.len() <= usize::MAX,
        ({
            let tri = m.tris[bin_of(m.cdf, u0)];
            &&& tri.v0.is_finite() && tri.v1.is_finite() && tri.v2.is_finite()
            &&& tri.uv0.x.is_finite() && tri.uv1.x.is_finite() && tri.uv2.x.is_finite()
            &&& tri.uv0.y.is_finite() && tri.uv1.y.is_finite() && tri.uv2.y.is_finite()
        }),
    ensures
        ({
            let tri = m.tris[bin_of(m.cdf, u0)];
            let s = rules.geom_sample(m, u0, u1, u2);
            let b = rules.folded(u1, u2);
            &&& s.normal == tri.normal
            &&& s.tri_idx == bin_of(m.cdf, u0)
            &&& s.u == b.u && s.v == b.v
            &&& b.u == Scalar::zero() && b.v == Scalar::zero() ==> s.p == tri.v0 && rules.emitted(m, s, textures)
                == rules.modulated(textures, m.emissive_texture, m.emissive, tri.uv0)
            &&& b.u == Scalar::one() && b.v == Scalar::zero() ==> s.p == tri.v1 && rules.emitted(m, s, textures)
                == rules.modulated(textures, m.emissive_texture, m.emissive, tri.uv1)
            &&& b.u == Scalar::zero() && b.v == Scalar::one() ==> s.p == tri.v2 && rules.emitted(m, s, textures)
                == rules.modulated(textures, m.emissive_texture, m.emissive, tri.uv2)
        }),
{
    let tri = m.tris[bin_of(m.cdf, u0)];
    law_blend_has_corners(rules, tri.v0, tri.v1, tri.v2);
    assert(rules.difference(Scalar::one(), Scalar::zero()) == Scalar::one());
    assert(rules.difference(Scalar::one(), Scalar::one()) == Scalar::zero());
    assert(rules.blend_uv(tri.uv0, Scalar::one(), tri.uv1, Scalar::zero(), tri.uv2, Scalar::zero()) == tri.uv0);
    assert(rules.blend_uv(tri.uv0, Scalar::zero(), tri.uv1, Scalar::one(), tri.uv2, Scalar::zero()) == tri.uv1);
    assert(rules.blend_uv(tri.uv0, Scalar::zero(), tri.uv1, Scalar::zero(), tri.uv2, Scalar::one()) == tri.uv2);
}

/// The density over an area light, times its area, is one; and its area is that of
/// its triangles together.
pub proof fn law_density_over_the_area_is_one(
    rules: ArithRules,
    tris: Seq<EmitterTri>,
    emissive: Color,
    texture: Option<u32>,
    u0: Scalar,
    u1: Scalar,
    u2: Scalar,
)
    requires
        ({
            let area = rules.area_of(tris, tris.len());
            rules.product(rules.quotient(Scalar::one(), area), area) == Scalar::one()
        }),
        rules.keeps_zeros(),
    ensures
        rules.emitter_of(tris, emissive, texture) matches Some(m) ==> {
            &&& rules.product(rules.geom_sample(m, u0, u1, u2).pdf_area, m.total_area) == Scalar::one()
            &&& tris.len() == 1 && rules.tri_area(tris[0]).ordered() ==> m.total_area == rules.tri_area(tris[0])
            &&& tris.len() == 2 && rules.tri_area(tris[0]).ordered() ==> m.total_area == rules.sum(
                rules.tri_area(tris[0]),
                rules.tri_area(tris[1]),
            )
            &&& m.emissive == emissive
            &&& m.emissive_texture == texture
        },
        tris.len() > 0 ==> rules.area_of(tris, tris.len()) == rules.sum(
            rules.area_of(tris.drop_last(), (tris.len() - 1) as nat),
            rules.tri_area(tris.last()),
        ),
{
    reveal_with_fuel(ArithRules::area_of, 3);
    if tris.len() > 0 {
        lemma_area_of_prefix(rules, tris, tris.drop_last(), (tris.len() - 1) as nat);
    }
}

proof fn lemma_area_of_prefix(rules: ArithRules, a: Seq<EmitterTri>, b: Seq<EmitterTri>, k: nat)
    requires
        k <= a.len(),
        k <= b.len(),
        forall|i: int| 0 <= i < k ==> a[i] == b[i],
    ensures
        rules.area_of(a, k) == rules.area_of(b, k),
    decreases k,
{
    if k > 0 {
        lemma_area_of_prefix(rules, a, b, (k - 1) as nat);
    }
}

/// The area of a triangle with a right angle is half the product of its legs,
/// wherever the root of a square is the number again.
pub proof fn law_right_triangle_has_half_the_square(rules: ArithRules, tri: EmitterTri, a: Scalar, b: Scalar)
    requires
        rules.keeps_zeros(),
        rules.keeps_signs(),
        rules.commutes(),
        rules.minus(tri.v1, tri.v0) == (Point3 { x: a, y: Scalar::zero(), z: Scalar::zero() }),
        rules.minus(tri.v2, tri.v0) == (Point3 { x: Scalar::zero(), y: b, z: Scalar::zero() }),
        a.is_finite(),
        b.is_finite(),
        rules.product(a, b).is_finite(),
        rules.product(rules.product(a, b), rules.product(a, b)).ordered(),
        rules.root(rules.product(rules.product(a, b), rules.product(a, b))) == rules.product(a, b),
    ensures
        rules.tri_area(tri) == rules.product(Scalar { key: HALF_KEY }, rules.product(a, b)),
{
    law_cross_is_right_handed(rules, a, b, Point3::origin(), Point3::origin());
    law_dot_counts_axes_alike(rules, rules.product(a, b), rules.product(a, b));
}

} // verus!

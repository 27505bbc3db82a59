//! Scenes that can be searched with rays.
use vstd::prelude::*;
use crate::accel::builder::{build, is_built};
use crate::accel::bvh::{BvhInner, Hit, Ray, RayRules};
use crate::accel::bounds::has_numbers;
use crate::accel::exhaustive::{
    ends_off_triangles, is_hit_before_end, is_hit_of_triangle, law_blocked_where_hit, law_search_finds_nearest_triangle,
};
use crate::accel::geometry::{is_buildable, Geometry};
use crate::accel::kernel::{law_arithmetic_settles_all, to_internal};
use crate::arith::{Arith, ArithRules};
use crate::scalar::Scalar;

verus! {

/// What can be searched with rays.
pub trait RayAccelerator {
    /// The nearest hit of a ray.
    fn closest_hit<M: Arith>(&self, math: &M, ray: &Ray) -> Option<Hit>;

    /// Whether a ray hits anything.
    fn any_hit<M: Arith>(&self, math: &M, ray: &Ray) -> bool;
}

/// BVH-accelerated scene. Attach geometries, then call `commit` to build.
pub struct Scene {
    geometries: Vec<Geometry>,
    inner: Option<BvhInner>,
}

impl Scene {
    /// The attached geometries, each at its `geom_id`.
    pub closed spec fn geometries(self) -> Seq<Geometry> {
        self.geometries@
    }

    /// The tree over the geometries, if one was built since the last was attached.
    pub closed spec fn tree(self) -> Option<BvhInner> {
        self.inner
    }

    #[verifier::type_invariant]
    spec fn is_sound(self) -> bool {
        self.inner matches Some(inner) ==> inner.valid()
    }

    /// A scene without geometries.
    pub fn new() -> (r: Scene)
        ensures
            r.geometries() == Seq::<Geometry>::empty(),
            r.tree() is None,
    {
        Scene { geometries: Vec::new(), inner: None }
    }

    /// Attach a geometry and return its `geom_id`.
    pub fn attach_geometry(&mut self, geom: Geometry) -> (r: u32)
        requires
            old(self).geometries().len() < u32::MAX,
        ensures
            r == old(self).geometries().len(),
            final(self).geometries() == old(self).geometries().push(geom),
            final(self).tree() is None,
    {
        self.inner = None;
        let mut geometries: Vec<Geometry> = Vec::new();
        std::mem::swap(&mut self.geometries, &mut geometries);
        let id: u32 = geometries.len() as u32;
        geometries.push(geom);
        self.geometries = geometries;
        id
    }

    /// Build (or rebuild) the BVH from all attached geometries.
    pub fn commit<M: Arith>(&mut self, math: &M)
        requires
            is_buildable(old(self).geometries()),
        ensures
            final(self).geometries() == old(self).geometries(),
            final(self).tree() is Some,
            is_built(final(self).tree()->0, old(self).geometries(), *math),
    {
        let inner = build(math, &self.geometries);
        self.inner = Some(inner);
    }
}

impl Default for Scene {
    fn default() -> (r: Scene)
        ensures
            r.geometries() == Seq::<Geometry>::empty(),
            r.tree() is None,
    {
        Scene::new()
    }
}

impl RayAccelerator for Scene {
    fn closest_hit<M: Arith>(&self, math: &M, ray: &Ray) -> (r: Option<Hit>)
        ensures
            self.tree() is None ==> r is None,
            forall|rules: RayRules| #[trigger]
                rules.describe(*math) ==> (self.tree() matches Some(inner) ==> r == inner.nearest(
                    rules,
                    (rules.internal)(*ray),
                )),
    {
        proof {
            use_type_invariant(self);
        }
        match &self.inner {
            Some(inner) => {
                let internal = to_internal(math, ray);
                inner.closest_hit(math, &internal)
            },
            None => None,
        }
    }

    fn any_hit<M: Arith>(&self, math: &M, ray: &Ray) -> (r: bool)
        ensures
            self.tree() is None ==> !r,
            forall|rules: RayRules| #[trigger]
                rules.describe(*math) ==> (self.tree() matches Some(inner) ==> r == inner.is_hit(
                    rules,
                    (rules.internal)(*ray),
                )),
    {
        proof {
            use_type_invariant(self);
        }
        match &self.inner {
            Some(inner) => {
                let internal = to_internal(math, ray);
                inner.any_hit(math, &internal)
            },
            None => false,
        }
    }
}

/// Once committed, a scene is searched as a whole: what `closest_hit` gives is the
/// nearest hit among all triangles of all attached geometries, named by geometry
/// and triangle, and none only where no triangle is hit; and for a ray that does
/// not end on a triangle, `any_hit` tells whether `closest_hit` gives anything.
pub proof fn law_committed_scene_covers_all<M: Arith>(scene: Scene, math: M, rules: ArithRules, ray: Ray)
    requires
        scene.tree() is Some,
        is_built(scene.tree()->0, scene.geometries(), math),
        is_buildable(scene.geometries()),
        has_numbers(scene.geometries()),
        rules.describe(math),
        Scalar::zero().le(rules.internal_ray(ray).tmin),
        rules.searches_exactly(rules.internal_ray(ray), scene.geometries()),
    ensures
        rules.ray_rules().describe(math),
        ({
            let geoms = scene.geometries();
            let r = rules.internal_ray(ray);
            let found = scene.tree()->0.nearest(rules.ray_rules(), (rules.ray_rules().internal)(ray));
            let blocked = scene.tree()->0.is_hit(rules.ray_rules(), (rules.ray_rules().internal)(ray));
            &&& forall|g: int, j: int| #[trigger]
                is_hit_before_end(rules, r, geoms, g, j) ==> (found matches Some(hit) && hit.t.le(
                    rules.mesh_hit(r, geoms, g, j)->0.t,
                ))
            &&& (found matches Some(hit) ==> is_hit_of_triangle(rules, r, geoms, hit))
            &&& ends_off_triangles(rules, r, geoms) ==> (blocked <==> found is Some)
        }),
{
    let inner = scene.tree()->0;
    let geoms = scene.geometries();
    let r = rules.internal_ray(ray);
    law_arithmetic_settles_all(rules, math);
    law_search_finds_nearest_triangle(inner, geoms, math, rules, r);
    if ends_off_triangles(rules, r, geoms) {
        law_blocked_where_hit(inner, geoms, math, rules, r);
    }
}

} // verus!

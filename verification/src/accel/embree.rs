//! The stand-in for an external ray-tracing library that is not linked: scenes
//! take geometries and answer every query with a miss.
use vstd::prelude::*;
use crate::accel::bvh::{Hit, Ray};
use crate::accel::scene::RayAccelerator;
use crate::arith::Arith;
use crate::scalar::Point3;

verus! {

/// Triangle-mesh geometry. Build with `Geometry::triangle_mesh`.
pub struct Geometry {
    pub verts: Vec<Point3>,
    pub tris: Vec<[u32; 3]>,
}

impl Geometry {
    /// A mesh of triangles, each by the indices of its corners.
    pub fn triangle_mesh(verts: Vec<Point3>, tris: Vec<[u32; 3]>) -> (r: Geometry)
        ensures
            r.verts == verts,
            r.tris == tris,
    {
        Geometry { verts, tris }
    }
}

/// A scene whose `commit` and queries do nothing.
pub struct Scene {
    geometries: Vec<Geometry>,
}

impl Scene {
    /// The attached geometries, each at its `geom_id`.
    pub closed spec fn geometries(self) -> Seq<Geometry> {
        self.geometries@
    }

    /// A scene without geometries.
    pub fn new() -> (r: Scene)
        ensures
            r.geometries() == Seq::<Geometry>::empty(),
    {
        Scene { geometries: Vec::new() }
    }

    /// Attach a geometry and return its `geom_id`.
    pub fn attach_geometry(&mut self, geom: Geometry) -> (r: u32)
        requires
            old(self).geometries().len() < u32::MAX,
        ensures
            r == old(self).geometries().len(),
            final(self).geometries() == old(self).geometries().push(geom),
    {
        self.geometries.push(geom);
        (self.geometries.len() - 1) as u32
    }

    /// Does nothing.
    pub fn commit(&mut self)
        ensures
            *final(self) == *old(self),
    {
    }
}

impl Default for Scene {
    fn default() -> (r: Scene)
        ensures
            r.geometries() == Seq::<Geometry>::empty(),
    {
        Scene::new()
    }
}

impl RayAccelerator for Scene {
    fn closest_hit<M: Arith>(&self, math: &M, ray: &Ray) -> (r: Option<Hit>)
        ensures
            r is None,
    {
        None
    }

    fn any_hit<M: Arith>(&self, math: &M, ray: &Ray) -> (r: bool)
        ensures
            !r,
    {
        false
    }
}

} // verus!

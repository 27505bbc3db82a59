//! The triangle meshes a tree is built from.
use vstd::prelude::*;
use crate::scalar::Point3;

verus! {

/// Triangle mesh geometry. Build with `Geometry::triangle_mesh`.
pub struct Geometry {
    pub verts: Vec<Point3>,
    pub tris: Vec<[u32; 3]>,
    /// Per-triangle double-sided flag. Empty means all triangles are single-sided.
    /// When set, the triangle accepts hits from both front and back.
    pub double_sided: Vec<bool>,
}

impl Geometry {
    /// A mesh of single-sided triangles, each by the indices of its corners.
    pub fn triangle_mesh(verts: &Vec<Point3>, tris: &Vec<[u32; 3]>) -> (r: Geometry)
        ensures
            r.verts@ == verts@,
            r.tris@ == tris@,
            r.double_sided@ == Seq::<bool>::empty(),
    {
        let mut v: Vec<Point3> = Vec::new();
        let mut i: usize = 0;
        while i < verts.len()
            invariant
                i <= verts.len(),
                v@ == verts@.take(i as int),
            decreases verts.len() - i,
        {
            v.push(verts[i]);
            i = i + 1;
            assert(v@ =~= verts@.take(i as int));
        }
        let mut t: Vec<[u32; 3]> = Vec::new();
        let mut i: usize = 0;
        while i < tris.len()
            invariant
                i <= tris.len(),
                t@ == tris@.take(i as int),
            decreases tris.len() - i,
        {
            t.push(tris[i]);
            i = i + 1;
            assert(t@ =~= tris@.take(i as int));
        }
        assert(v@ =~= verts@);
        assert(t@ =~= tris@);
        Geometry { verts: v, tris: t, double_sided: Vec::new() }
    }

    /// The same mesh with other double-sided flags.
    pub fn with_double_sided(self, ds: Vec<bool>) -> (r: Geometry)
        ensures
            r.verts == self.verts,
            r.tris == self.tris,
            r.double_sided == ds,
    {
        Geometry { verts: self.verts, tris: self.tris, double_sided: ds }
    }

    /// Whether a triangle accepts hits from behind.
    pub open spec fn is_double_sided(self, j: int) -> bool {
        0 <= j < self.double_sided@.len() && self.double_sided@[j]
    }
}

/// The corners of all meshes, one mesh after the other.
pub open spec fn vertices_of(geoms: Seq<Geometry>) -> Seq<Point3>
    decreases geoms.len(),
{
    if geoms.len() == 0 {
        Seq::empty()
    } else {
        vertices_of(geoms.drop_last()) + geoms.last().verts@
    }
}

/// A triangle of a mesh: its corners among those of all meshes, its index in
/// its mesh, and the index of the mesh.
#[derive(Clone, Copy, PartialEq, Eq, Structural, Debug)]
pub struct BuildTri {
    pub v0: u32,
    pub v1: u32,
    pub v2: u32,
    pub orig_idx: u32,
    pub geom_id: u32,
}

/// The triangles of one mesh.
pub open spec fn mesh_triangles(tris: Seq<[u32; 3]>, offset: int, geom_id: int) -> Seq<BuildTri> {
    Seq::new(
        tris.len(),
        |j: int|
            BuildTri {
                v0: (tris[j][0] + offset) as u32,
                v1: (tris[j][1] + offset) as u32,
                v2: (tris[j][2] + offset) as u32,
                orig_idx: j as u32,
                geom_id: geom_id as u32,
            },
    )
}

/// The triangles of all meshes, one mesh after the other.
pub open spec fn triangles_of(geoms: Seq<Geometry>) -> Seq<BuildTri>
    decreases geoms.len(),
{
    if geoms.len() == 0 {
        Seq::empty()
    } else {
        let rest = geoms.drop_last();
        triangles_of(rest) + mesh_triangles(geoms.last().tris@, vertices_of(rest).len() as int, rest.len() as int)
    }
}

/// Most triangles that a tree can hold: eight to a chunk, and a leaf reference
/// counts chunks in 24 bits.
pub const MAX_TRIANGLES: usize = 0x0800_0000;

/// Whether a tree can be built: all indices fit 32 bits, each corner of each
/// triangle is there, and there are no more triangles than a tree can hold.
pub open spec fn is_buildable(geoms: Seq<Geometry>) -> bool {
    &&& geoms.len() < u32::MAX
    &&& vertices_of(geoms).len() < u32::MAX
    &&& triangles_of(geoms).len() <= MAX_TRIANGLES
    &&& forall|g: int, j: int, k: int|
        #![trigger geoms[g].tris@[j][k]]
        0 <= g < geoms.len() && 0 <= j < geoms[g].tris@.len() && 0 <= k < 3 ==> geoms[g].tris@[j][k] + vertices_of(
            geoms.take(g),
        ).len() < vertices_of(geoms).len()
}

/// Whether the corners of a triangle are there.
pub open spec fn has_corners(t: BuildTri, vertices: nat) -> bool {
    t.v0 < vertices && t.v1 < vertices && t.v2 < vertices
}

/// The first meshes have no more corners and triangles than all.
pub proof fn lemma_prefix_lengths(geoms: Seq<Geometry>, n: int)
    requires
        0 <= n <= geoms.len(),
    ensures
        vertices_of(geoms.take(n)).len() <= vertices_of(geoms).len(),
        triangles_of(geoms.take(n)).len() <= triangles_of(geoms).len(),
    decreases geoms.len() - n,
{
    if n < geoms.len() {
        lemma_prefix_lengths(geoms, n + 1);
        assert(geoms.take(n + 1).drop_last() =~= geoms.take(n));
    } else {
        assert(geoms.take(n) =~= geoms);
    }
}

/// Collects the corners and the triangles of all meshes.
pub fn gather(geoms: &Vec<Geometry>) -> (r: (Vec<Point3>, Vec<BuildTri>))
    requires
        is_buildable(geoms@),
    ensures
        r.0@ == vertices_of(geoms@),
        r.1@ == triangles_of(geoms@),
        forall|i: int| 0 <= i < r.1@.len() ==> has_corners(#[trigger] r.1@[i], r.0@.len()),
{
    let mut vertices: Vec<Point3> = Vec::new();
    let mut tris: Vec<BuildTri> = Vec::new();
    let mut g: usize = 0;
    assert(geoms@.take(0) =~= Seq::<Geometry>::empty());
    while g < geoms.len()
        invariant
            g <= geoms.len(),
            is_buildable(geoms@),
            vertices@ == vertices_of(geoms@.take(g as int)),
            tris@ == triangles_of(geoms@.take(g as int)),
            forall|i: int| 0 <= i < tris@.len() ==> has_corners(#[trigger] tris@[i], vertices_of(geoms@).len()),
        decreases geoms.len() - g,
    {
        let ghost rest = geoms@.take(g as int);
        proof {
            lemma_prefix_lengths(geoms@, g + 1);
            assert(geoms@.take(g + 1).drop_last() =~= rest);
        }
        let geom = &geoms[g];
        let offset: u32 = vertices.len() as u32;
        let mut i: usize = 0;
        while i < geom.verts.len()
            invariant
                i <= geom.verts.len(),
                vertices@ == vertices_of(rest) + geom.verts@.take(i as int),
            decreases geom.verts.len() - i,
        {
            vertices.push(geom.verts[i]);
            i = i + 1;
            assert(vertices@ =~= vertices_of(rest) + geom.verts@.take(i as int));
        }
        assert(geom.verts@.take(i as int) =~= geom.verts@);
        let mut j: usize = 0;
        while j < geom.tris.len()
            invariant
                j <= geom.tris.len(),
                g < geoms.len(),
                *geom == geoms[g as int],
                is_buildable(geoms@),
                rest == geoms@.take(g as int),
                offset == vertices_of(rest).len(),
                triangles_of(rest).len() + geom.tris.len() <= MAX_TRIANGLES,
                tris@ == triangles_of(rest) + mesh_triangles(geom.tris@, offset as int, g as int).take(j as int),
                forall|i: int| 0 <= i < tris@.len() ==> has_corners(#[trigger] tris@[i], vertices_of(geoms@).len()),
            decreases geom.tris.len() - j,
        {
            let t = geom.tris[j];
            assert(geoms@[g as int].tris@[j as int][0] == t[0]);
            assert(geoms@[g as int].tris@[j as int][1] == t[1]);
            assert(geoms@[g as int].tris@[j as int][2] == t[2]);
            tris.push(
                BuildTri {
                    v0: t[0] + offset,
                    v1: t[1] + offset,
                    v2: t[2] + offset,
                    orig_idx: j as u32,
                    geom_id: g as u32,
                },
            );
            j = j + 1;
            assert(tris@ =~= triangles_of(rest) + mesh_triangles(geom.tris@, offset as int, g as int).take(
                j as int,
            ));
        }
        proof {
            let m = mesh_triangles(geom.tris@, offset as int, g as int);
            assert(m.take(j as int) =~= m);
        }
        g = g + 1;
    }
    assert(geoms@.take(g as int) =~= geoms@);
    (vertices, tris)
}

proof fn lemma_prefix_triangles(geoms: Seq<Geometry>, g: int)
    requires
        0 <= g < geoms.len(),
    ensures
        triangles_of(geoms.take(g)).len() + geoms[g].tris@.len() <= triangles_of(geoms).len(),
        vertices_of(geoms.take(g)).len() + geoms[g].verts@.len() <= vertices_of(geoms).len(),
{
    lemma_prefix_lengths(geoms, g + 1);
    assert(geoms.take(g + 1).drop_last() =~= geoms.take(g));
}

/// Whether each corner of a mesh's triangles is there.
fn has_all_corners(tris: &Vec<[u32; 3]>, offset: u64, total: u64) -> (r: bool)
    requires
        offset <= u32::MAX,
    ensures
        r == (forall|j: int, k: int|
            #![trigger tris@[j][k]]
            0 <= j < tris@.len() && 0 <= k < 3 ==> tris@[j][k] + offset < total),
{
    let mut j: usize = 0;
    while j < tris.len()
        invariant
            j <= tris.len(),
            offset <= u32::MAX,
            forall|i: int, k: int|
                #![trigger tris@[i][k]]
                0 <= i < j && 0 <= k < 3 ==> tris@[i][k] + offset < total,
        decreases tris.len() - j,
    {
        let t = tris[j];
        let mut k: usize = 0;
        while k < 3
            invariant
                k <= 3,
                j < tris.len(),
                t == tris@[j as int],
                offset <= u32::MAX,
                forall|l: int| #![trigger t[l]] 0 <= l < k ==> t[l] + offset < total,
            decreases 3 - k,
        {
            if t[k] as u64 + offset >= total {
                assert(tris@[j as int][k as int] + offset >= total);
                return false;
            }
            k = k + 1;
        }
        j = j + 1;
    }
    true
}

/// Whether a tree can be built over some meshes.
pub fn check_buildable(geoms: &Vec<Geometry>) -> (r: bool)
    ensures
        r == is_buildable(geoms@),
{
    if geoms.len() >= u32::MAX as usize {
        return false;
    }
    let mut vertices: usize = 0;
    let mut tris: usize = 0;
    let mut g: usize = 0;
    assert(geoms@.take(0) =~= Seq::<Geometry>::empty());
    while g < geoms.len()
        invariant
            g <= geoms.len(),
            vertices == vertices_of(geoms@.take(g as int)).len(),
            tris == triangles_of(geoms@.take(g as int)).len(),
            vertices < u32::MAX,
            tris <= MAX_TRIANGLES,
        decreases geoms.len() - g,
    {
        proof {
            lemma_prefix_triangles(geoms@, g as int);
            assert(geoms@.take(g + 1).drop_last() =~= geoms@.take(g as int));
        }
        let v: usize = geoms[g].verts.len();
        let t: usize = geoms[g].tris.len();
        if v >= u32::MAX as usize - vertices || t > MAX_TRIANGLES - tris {
            return false;
        }
        vertices = vertices + v;
        tris = tris + t;
        g = g + 1;
    }
    assert(geoms@.take(g as int) =~= geoms@);
    let total: u64 = vertices as u64;
    let mut offset: u64 = 0;
    let mut g: usize = 0;
    while g < geoms.len()
        invariant
            g <= geoms.len(),
            offset == vertices_of(geoms@.take(g as int)).len(),
            total == vertices_of(geoms@).len(),
            total < u32::MAX,
            triangles_of(geoms@).len() <= MAX_TRIANGLES,
            geoms.len() < u32::MAX,
            forall|h: int, j: int, k: int|
                #![trigger geoms@[h].tris@[j][k]]
                0 <= h < g && 0 <= j < geoms@[h].tris@.len() && 0 <= k < 3 ==> geoms@[h].tris@[j][k] + vertices_of(
                    geoms@.take(h),
                ).len() < total,
        decreases geoms.len() - g,
    {
        proof {
            lemma_prefix_triangles(geoms@, g as int);
            assert(geoms@.take(g + 1).drop_last() =~= geoms@.take(g as int));
        }
        if !has_all_corners(&geoms[g].tris, offset, total) {
            proof {
                let (j, k) = choose|j: int, k: int|
                    #![trigger geoms@[g as int].tris@[j][k]]
                    0 <= j < geoms@[g as int].tris@.len() && 0 <= k < 3 && geoms@[g as int].tris@[j][k] + offset >= total;
                assert(geoms@[g as int].tris@[j][k] + offset >= total);
            }
            return false;
        }
        offset = offset + geoms[g].verts.len() as u64;
        g = g + 1;
    }
    true
}

} // verus!

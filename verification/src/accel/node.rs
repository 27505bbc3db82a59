//! Nodes of the eight-wide tree and what its leaves hold.
use vstd::prelude::*;
use crate::aabb::AABB;
use crate::scalar::{Point3, Scalar};

verus! {

/// Number of children of a node and of triangles in a chunk.
pub const WIDTH: usize = 8;

/// Marks a child reference as a leaf.
pub const LEAF_FLAG: u32 = 0x8000_0000;

/// Where a leaf's chunk count starts.
pub const COUNT_SHIFT: u32 = 24;

/// The bits of a leaf's chunk count.
pub const COUNT_MASK: u32 = 0x7F;

/// The bits of a leaf's first chunk.
pub const START_MASK: u32 = 0x00FF_FFFF;

/// First chunk index that a leaf reference cannot hold.
pub const MAX_CHUNKS: u32 = 0x0100_0000;

/// First number of chunks that a leaf reference cannot hold.
pub const LEAF_LIMIT: u32 = 128;

/// Reference that stands for "no child".
pub const NO_CHILD: u32 = u32::MAX;

/// Eight triangles, as a corner and two edges each, coordinate by coordinate.
#[derive(Clone, Copy, Debug)]
pub struct FlatTriangles {
    pub v0_x: [Scalar; 8],
    pub v0_y: [Scalar; 8],
    pub v0_z: [Scalar; 8],
    pub e1_x: [Scalar; 8],
    pub e1_y: [Scalar; 8],
    pub e1_z: [Scalar; 8],
    pub e2_x: [Scalar; 8],
    pub e2_y: [Scalar; 8],
    pub e2_z: [Scalar; 8],
}

impl FlatTriangles {
    /// The corner of the triangle in a lane.
    pub open spec fn corner(self, lane: int) -> Point3 {
        Point3 { x: self.v0_x[lane], y: self.v0_y[lane], z: self.v0_z[lane] }
    }

    /// The first edge of the triangle in a lane.
    pub open spec fn edge1(self, lane: int) -> Point3 {
        Point3 { x: self.e1_x[lane], y: self.e1_y[lane], z: self.e1_z[lane] }
    }

    /// The second edge of the triangle in a lane.
    pub open spec fn edge2(self, lane: int) -> Point3 {
        Point3 { x: self.e2_x[lane], y: self.e2_y[lane], z: self.e2_z[lane] }
    }

    /// Puts a triangle into a lane.
    pub fn set_lane(&mut self, lane: usize, corner: Point3, edge1: Point3, edge2: Point3)
        requires
            lane < WIDTH,
        ensures
            forall|i: int| 0 <= i < WIDTH ==> final(self).corner(i) == (if i == lane { corner } else {
                old(self).corner(i)
            }),
            forall|i: int| 0 <= i < WIDTH ==> final(self).edge1(i) == (if i == lane { edge1 } else {
                old(self).edge1(i)
            }),
            forall|i: int| 0 <= i < WIDTH ==> final(self).edge2(i) == (if i == lane { edge2 } else {
                old(self).edge2(i)
            }),
    {
        self.v0_x[lane] = corner.x;
        self.v0_y[lane] = corner.y;
        self.v0_z[lane] = corner.z;
        self.e1_x[lane] = edge1.x;
        self.e1_y[lane] = edge1.y;
        self.e1_z[lane] = edge1.z;
        self.e2_x[lane] = edge2.x;
        self.e2_y[lane] = edge2.y;
        self.e2_z[lane] = edge2.z;
    }
}

impl Default for FlatTriangles {
    /// Eight triangles that are all the origin.
    fn default() -> (r: FlatTriangles)
        ensures
            forall|i: int| 0 <= i < WIDTH ==> r.corner(i) == Point3::origin(),
            forall|i: int| 0 <= i < WIDTH ==> r.edge1(i) == Point3::origin(),
            forall|i: int| 0 <= i < WIDTH ==> r.edge2(i) == Point3::origin(),
    {
        let z = Scalar::zero();
        FlatTriangles {
            v0_x: [z; 8],
            v0_y: [z; 8],
            v0_z: [z; 8],
            e1_x: [z; 8],
            e1_y: [z; 8],
            e1_z: [z; 8],
            e2_x: [z; 8],
            e2_y: [z; 8],
            e2_z: [z; 8],
        }
    }
}

/// A node of the eight-wide tree: the boxes of its children, coordinate by
/// coordinate, and a reference to each child.
///
/// A reference is the index of a node, a leaf as `encode_leaf` writes it, or
/// `NO_CHILD`.
#[derive(Clone, Copy, Debug)]
pub struct Bvh8Node {
    pub p_min_x: [Scalar; 8],
    pub p_min_y: [Scalar; 8],
    pub p_min_z: [Scalar; 8],
    pub p_max_x: [Scalar; 8],
    pub p_max_y: [Scalar; 8],
    pub p_max_z: [Scalar; 8],
    pub children: [u32; 8],
}

/// The reference to a leaf of `count` chunks from `start` on.
pub open spec fn leaf_reference(start: u32, count: u32) -> u32 {
    start | (count << COUNT_SHIFT) | LEAF_FLAG
}

/// A box none of whose bounds is a number.
pub open spec fn nan_box() -> AABB {
    let p = Point3 { x: Scalar::nan(), y: Scalar::nan(), z: Scalar::nan() };
    AABB { min: p, max: p }
}

impl Bvh8Node {
    /// The box of the child in a slot.
    pub open spec fn child_box(self, slot: int) -> AABB {
        AABB {
            min: Point3 { x: self.p_min_x[slot], y: self.p_min_y[slot], z: self.p_min_z[slot] },
            max: Point3 { x: self.p_max_x[slot], y: self.p_max_y[slot], z: self.p_max_z[slot] },
        }
    }

    /// The reference to a leaf of `chunk_count` chunks from `start_chunk` on.
    #[verifier::allow_in_spec]
    pub fn encode_leaf(start_chunk: u32, chunk_count: u32) -> u32
        returns
            leaf_reference(start_chunk, chunk_count),
    {
        start_chunk | (chunk_count << COUNT_SHIFT) | LEAF_FLAG
    }

    /// Whether a reference is to a leaf (or `NO_CHILD`).
    #[verifier::allow_in_spec]
    pub fn is_leaf(encoded: u32) -> bool
        returns
            encoded >= LEAF_FLAG,
    {
        assert((encoded & 0x8000_0000 != 0) == (encoded >= 0x8000_0000)) by (bit_vector);
        encoded & LEAF_FLAG != 0
    }

    /// The first chunk of a leaf.
    #[verifier::allow_in_spec]
    pub fn leaf_start(encoded: u32) -> u32
        returns
            encoded % MAX_CHUNKS,
    {
        assert(encoded & 0x00FF_FFFF == encoded % 0x0100_0000) by (bit_vector);
        encoded & START_MASK
    }

    /// The number of chunks of a leaf.
    #[verifier::allow_in_spec]
    pub fn leaf_count(encoded: u32) -> u32
        returns
            (encoded / MAX_CHUNKS) % 128,
    {
        assert((encoded >> 24) & 0x7F == (encoded / 0x0100_0000) % 128) by (bit_vector);
        (encoded >> COUNT_SHIFT) & COUNT_MASK
    }

    /// Puts a child into a slot.
    pub fn set_child(&mut self, slot: usize, aabb: &AABB, reference: u32)
        requires
            slot < WIDTH,
        ensures
            forall|i: int| 0 <= i < WIDTH ==> final(self).child_box(i) == (if i == slot { *aabb } else {
                old(self).child_box(i)
            }),
            final(self).children@ == old(self).children@.update(slot as int, reference),
    {
        self.p_min_x[slot] = aabb.min.x;
        self.p_min_y[slot] = aabb.min.y;
        self.p_min_z[slot] = aabb.min.z;
        self.p_max_x[slot] = aabb.max.x;
        self.p_max_y[slot] = aabb.max.y;
        self.p_max_z[slot] = aabb.max.z;
        self.children[slot] = reference;
    }
}

impl Default for Bvh8Node {
    /// A node without children.
    fn default() -> (r: Bvh8Node)
        ensures
            forall|i: int| 0 <= i < WIDTH ==> r.child_box(i) == nan_box(),
            r.children@ == Seq::new(8, |i: int| NO_CHILD),
    {
        let n = Scalar::nan();
        let r = Bvh8Node {
            p_min_x: [n; 8],
            p_min_y: [n; 8],
            p_min_z: [n; 8],
            p_max_x: [n; 8],
            p_max_y: [n; 8],
            p_max_z: [n; 8],
            children: [NO_CHILD; 8],
        };
        assert(r.children@ =~= Seq::new(8, |i: int| NO_CHILD));
        r
    }
}

/// Reading a leaf reference gives back the run that it was made from, and it is
/// neither a node index nor `NO_CHILD`.
pub proof fn law_leaf_reference_round_trip(start: u32, count: u32)
    requires
        start + count <= MAX_CHUNKS,
        0 < count < LEAF_LIMIT,
    ensures
        Bvh8Node::is_leaf(leaf_reference(start, count)),
        Bvh8Node::leaf_start(leaf_reference(start, count)) == start,
        Bvh8Node::leaf_count(leaf_reference(start, count)) == count,
        leaf_reference(start, count) != NO_CHILD,
{
    let e: u32 = start | (count << 24) | 0x8000_0000;
    assert(e >= 0x8000_0000 && e % 0x0100_0000 == start && (e / 0x0100_0000) % 128 == count) by (bit_vector)
        requires
            e == start | (count << 24) | 0x8000_0000,
            start < 0x0100_0000,
            count < 128,
    ;
    if e == 0xffff_ffff {
        assert(0xffff_ffffu32 % 0x0100_0000 == 0xff_ffff);
    }
}

/// What a triangle of the tree was in the scene.
#[derive(Clone, Copy, PartialEq, Eq, Structural, Debug)]
pub struct TriSlot {
    pub orig_idx: u32,
    pub geom_id: u32,
}

} // verus!

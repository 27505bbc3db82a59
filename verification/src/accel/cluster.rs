//! Clustering of triangles: neighbours in space become neighbours in the order,
//! so that each run of eight is compact.
use vstd::prelude::*;
use vstd::seq_lib::lemma_fold_left_permutation;
use crate::aabb::{empty_box, law_points_any_order, AABB};
use crate::accel::geometry::{has_corners, BuildTri};
use crate::accel::math::{centroid, extent, BuildRules};
use crate::arith::Arith;
use crate::order::{
    lemma_map_rearranged, lemma_rearranged_items, lemma_rearranged_transitive, lemma_rearranged_wider,
    lemma_swap_rearranges, rearranged, swap_items,
};
use crate::scalar::Point3;

verus! {

/// The place of an indexed point along an axis.
pub open spec fn place(points: Seq<Point3>, axis: usize, i: usize) -> int {
    points[i as int].coord(axis).key as int
}

/// Moves the item that belongs at `nth` between `start` and `end`, by place
/// along an axis, to that position, those before it before and those after it
/// after.
pub fn select_nth(indices: &mut Vec<usize>, points: &Vec<Point3>, axis: usize, start: usize, end: usize, nth: usize)
    requires
        start <= nth < end <= old(indices).len(),
        forall|i: int| 0 <= i < old(indices).len() ==> #[trigger] old(indices)[i] < points.len(),
    ensures
        rearranged(old(indices)@, final(indices)@, start as int, end as int),
        forall|i: int|
            start <= i < nth ==> place(points@, axis, #[trigger] final(indices)[i]) <= place(
                points@,
                axis,
                final(indices)[nth as int],
            ),
        forall|i: int|
            nth <= i < end ==> place(points@, axis, final(indices)[nth as int]) <= place(
                points@,
                axis,
                #[trigger] final(indices)[i],
            ),
{
    let ghost original = indices@;
    let mut lo: usize = start;
    let mut hi: usize = end;
    while hi - lo > 1
        invariant
            start <= lo <= nth < hi <= end <= indices.len(),
            original == old(indices)@,
            original.len() == indices.len(),
            rearranged(original, indices@, start as int, end as int),
            forall|i: int| 0 <= i < indices.len() ==> #[trigger] indices[i] < points.len(),
            forall|i: int, j: int|
                #![trigger indices[i], indices[j]]
                start <= i < lo <= j < end ==> place(points@, axis, indices[i]) <= place(points@, axis, indices[j]),
            forall|i: int, j: int|
                #![trigger indices[i], indices[j]]
                start <= i < hi <= j < end ==> place(points@, axis, indices[i]) <= place(points@, axis, indices[j]),
        decreases hi - lo,
    {
        let pivot: i32 = points[indices[lo + (hi - lo) / 2]].coord(axis).key;
        let ghost mut w: int = lo + (hi - lo) / 2;
        let mut less: usize = lo;
        let mut more: usize = hi;
        let mut i: usize = lo;
        while i < more
            invariant
                start <= lo <= less <= i <= more <= hi <= end <= indices.len(),
                original == old(indices)@,
            original.len() == indices.len(),
                rearranged(original, indices@, start as int, end as int),
                forall|k: int| 0 <= k < indices.len() ==> #[trigger] indices[k] < points.len(),
                forall|k: int| lo <= k < less ==> place(points@, axis, #[trigger] indices[k]) < pivot,
                forall|k: int| less <= k < i ==> place(points@, axis, #[trigger] indices[k]) == pivot,
                forall|k: int| more <= k < hi ==> place(points@, axis, #[trigger] indices[k]) > pivot,
                less < i || (i <= w < more && place(points@, axis, indices[w]) == pivot),
                forall|a: int, b: int|
                    #![trigger indices[a], indices[b]]
                    start <= a < lo <= b < end ==> place(points@, axis, indices[a]) <= place(
                        points@,
                        axis,
                        indices[b],
                    ),
                forall|a: int, b: int|
                    #![trigger indices[a], indices[b]]
                    start <= a < hi <= b < end ==> place(points@, axis, indices[a]) <= place(
                        points@,
                        axis,
                        indices[b],
                    ),
            decreases more - i,
        {
            let ghost before = indices@;
            let key: i32 = points[indices[i]].coord(axis).key;
            if key < pivot {
                swap_items(indices, less, i);
                proof {
                    lemma_swap_rearranges(before, less as int, i as int, start as int, end as int);
                    lemma_rearranged_transitive(original, before, indices@, start as int, end as int);
                }
                less = less + 1;
                i = i + 1;
            } else if key > pivot {
                more = more - 1;
                swap_items(indices, i, more);
                proof {
                    if w == more {
                        w = i as int;
                    }
                    lemma_swap_rearranges(before, i as int, more as int, start as int, end as int);
                    lemma_rearranged_transitive(original, before, indices@, start as int, end as int);
                }
            } else {
                i = i + 1;
            }
        }
        if nth < less {
            hi = less;
        } else if nth >= more {
            lo = more;
        } else {
            return ;
        }
    }
}

/// The least box around some points.
pub open spec fn point_bounds(points: Seq<Point3>) -> AABB {
    points.fold_left(empty_box(), |b: AABB, p: Point3| b.with_point(p))
}

/// The longest axis of a box, the first of equals.
pub open spec fn longest_axis(rules: BuildRules, b: AABB) -> usize {
    let x = (rules.extent)(b.min.x, b.max.x);
    let y = (rules.extent)(b.min.y, b.max.y);
    let z = (rules.extent)(b.min.z, b.max.z);
    if (if x.lt(y) { y } else { x }).lt(z) {
        2
    } else if x.lt(y) {
        1
    } else {
        0
    }
}

/// Where a cluster of more than one item is cut: at the middle, rounded down
/// to a multiple of eight; small clusters after eight, the last item apart.
pub open spec fn cut(count: int) -> int {
    if count >= 16 {
        count / 2 / 8 * 8
    } else if count > 8 {
        8
    } else {
        count - 1
    }
}

/// Whether points are ordered by nested cuts: each cluster is cut across its
/// longest axis, with no point before the cut beyond a point after it, and so
/// are both parts.
pub open spec fn is_clustered(rules: BuildRules, points: Seq<Point3>) -> bool
    decreases points.len(),
{
    if points.len() <= 1 {
        true
    } else {
        let n = points.len() as int;
        let k = cut(n);
        let axis = longest_axis(rules, point_bounds(points));
        if 0 < k < n {
            &&& forall|i: int, j: int|
                #![trigger points[i], points[j]]
                0 <= i < k <= j < n ==> points[i].coord(axis).key <= points[j].coord(axis).key
            &&& is_clustered(rules, points.subrange(0, k))
            &&& is_clustered(rules, points.subrange(k, n))
        } else {
            false
        }
    }
}

/// The points that indices name, in their order.
pub open spec fn pick(points: Seq<Point3>, indices: Seq<usize>) -> Seq<Point3> {
    indices.map_values(|i: usize| points[i as int])
}

proof fn lemma_bounds_order(p: Seq<Point3>, q: Seq<Point3>)
    requires
        p.to_multiset() == q.to_multiset(),
    ensures
        point_bounds(p) == point_bounds(q),
{
    let g = |b: AABB, p: Point3| b.with_point(p);
    assert forall|c: Point3, d: Point3, v: AABB| #[trigger] g(g(v, c), d) == g(g(v, d), c) by {
        law_points_any_order(v, c, d);
    }
    lemma_fold_left_permutation(p, q, g, empty_box());
}

/// Orders indices so that the points they name are clustered.
pub fn split_clusters<M: Arith>(
    math: &M,
    indices: &mut Vec<usize>,
    points: &Vec<Point3>,
    start: usize,
    end: usize,
)
    requires
        start <= end <= old(indices).len(),
        forall|i: int| 0 <= i < old(indices).len() ==> #[trigger] old(indices)[i] < points.len(),
    ensures
        rearranged(old(indices)@, final(indices)@, start as int, end as int),
        forall|i: int| 0 <= i < final(indices).len() ==> #[trigger] final(indices)[i] < points.len(),
        forall|rules: BuildRules| #[trigger]
            rules.describe(*math) ==> is_clustered(
                rules,
                pick(points@, final(indices)@.subrange(start as int, end as int)),
            ),
    decreases end - start,
{
    let count: usize = end - start;
    if count <= 1 {
        return ;
    }
    let ghost indices0 = indices@;
    let mut bounds = AABB::invalid();
    let mut i: usize = start;
    while i < end
        invariant
            start <= i <= end <= indices.len(),
            indices@ == indices0,
            forall|i: int| 0 <= i < indices.len() ==> #[trigger] indices[i] < points.len(),
            bounds == point_bounds(pick(points@, indices@.subrange(start as int, i as int))),
        decreases end - i,
    {
        proof {
            let a = pick(points@, indices@.subrange(start as int, i as int));
            let b = pick(points@, indices@.subrange(start as int, i + 1));
            assert(b.drop_last() =~= a);
        }
        bounds.extend(points[indices[i]]);
        i = i + 1;
    }

    let x = extent(math, bounds.min.x, bounds.max.x);
    let y = extent(math, bounds.min.y, bounds.max.y);
    let z = extent(math, bounds.min.z, bounds.max.z);
    let mut axis: usize = 0;
    let mut longest = x;
    if x.lt(y) {
        axis = 1;
        longest = y;
    }
    if longest.lt(z) {
        axis = 2;
    }
    let mid: usize = count / 2;
    let mut offset: usize = (mid / 8) * 8;
    if offset == 0 {
        offset = if count - 1 < 8 { count - 1 } else { 8 };
    }
    assert(offset == cut(count as int) && 0 < offset < count);

    let split: usize = start + offset;
    select_nth(indices, points, axis, start, end, split);
    let ghost indices1 = indices@;
    proof {
        assert forall|i: int| 0 <= i < indices.len() implies #[trigger] indices[i] < points.len() by {
            if start <= i < end {
                let j = lemma_rearranged_items(indices0, indices1, start as int, end as int, i);
            }
        }
    }
    split_clusters(math, indices, points, start, split);
    let ghost indices2 = indices@;
    split_clusters(math, indices, points, split, end);
    let ghost indices3 = indices@;
    proof {
        let a = start as int;
        let m = split as int;
        let b = end as int;
        lemma_rearranged_wider(indices1, indices2, a, m, a, b);
        lemma_rearranged_wider(indices2, indices3, m, b, a, b);
        lemma_rearranged_transitive(indices1, indices2, indices3, a, b);
        lemma_rearranged_transitive(indices0, indices1, indices3, a, b);
        let p0 = pick(points@, indices0.subrange(a, b));
        let p = pick(points@, indices3.subrange(a, b));
        lemma_map_rearranged(indices0.subrange(a, b), indices3.subrange(a, b), |i: usize| points@[i as int]);
        lemma_bounds_order(p0, p);
        assert forall|i: int, j: int|
            #![trigger p[i], p[j]]
            0 <= i < offset <= j < count implies p[i].coord(axis).key <= p[j].coord(axis).key by {
            assert(indices3[a + i] == indices2[a + i]);
            let u = lemma_rearranged_items(indices1, indices2, a, m, a + i);
            let v = lemma_rearranged_items(indices2, indices3, m, b, a + j);
            assert(indices2[v] == indices1[v]);
            assert(place(points@, axis, indices1[u]) <= place(points@, axis, indices1[m]));
            assert(place(points@, axis, indices1[m]) <= place(points@, axis, indices1[v]));
        }
        assert(indices3.subrange(a, m) =~= indices2.subrange(a, m));
        assert(p.subrange(0, offset as int) =~= pick(points@, indices3.subrange(a, m)));
        assert(p.subrange(offset as int, count as int) =~= pick(points@, indices3.subrange(m, b)));
        assert forall|rules: BuildRules| #[trigger] rules.describe(*math) implies is_clustered(rules, p) by {
            assert(axis == longest_axis(rules, point_bounds(p)));
        }
    }
}

/// The middles of triangles.
pub open spec fn centroids_of(rules: BuildRules, vertices: Seq<Point3>, tris: Seq<BuildTri>) -> Seq<Point3> {
    tris.map_values(
        |t: BuildTri| (rules.centroid)(vertices[t.v0 as int], vertices[t.v1 as int], vertices[t.v2 as int]),
    )
}

/// Orders triangles so that their middles are clustered.
pub fn cluster_triangles<M: Arith>(math: &M, vertices: &Vec<Point3>, tris: &mut Vec<BuildTri>)
    requires
        forall|i: int| 0 <= i < old(tris).len() ==> has_corners(#[trigger] old(tris)[i], vertices@.len()),
    ensures
        final(tris).len() == old(tris).len(),
        final(tris)@.to_multiset() == old(tris)@.to_multiset(),
        forall|i: int| 0 <= i < final(tris).len() ==> has_corners(#[trigger] final(tris)[i], vertices@.len()),
        forall|rules: BuildRules| #[trigger]
            rules.describe(*math) ==> is_clustered(rules, centroids_of(rules, vertices@, final(tris)@)),
{
    let ghost tris0 = tris@;
    let n: usize = tris.len();
    let mut indices: Vec<usize> = Vec::new();
    let mut centroids: Vec<Point3> = Vec::new();
    let mut i: usize = 0;
    while i < n
        invariant
            i <= n,
            n == tris.len(),
            tris@ == tris0,
            indices.len() == i,
            centroids.len() == i,
            forall|j: int| 0 <= j < n ==> has_corners(#[trigger] tris[j], vertices@.len()),
            forall|j: int| 0 <= j < i ==> #[trigger] indices[j] == j,
            forall|rules: BuildRules, j: int|
                #![trigger rules.describe(*math), centroids[j]]
                rules.describe(*math) && 0 <= j < i ==> centroids[j] == centroids_of(rules, vertices@, tris0)[j],
        decreases n - i,
    {
        let t = tris[i];
        indices.push(i);
        centroids.push(
            centroid(math, vertices[t.v0 as usize], vertices[t.v1 as usize], vertices[t.v2 as usize]),
        );
        i = i + 1;
    }
    let ghost range = indices@;
    split_clusters(math, &mut indices, &centroids, 0, n);

    let mut ordered: Vec<BuildTri> = Vec::new();
    let mut i: usize = 0;
    while i < n
        invariant
            i <= n,
            n == tris.len(),
            n == indices.len(),
            tris@ == tris0,
            forall|j: int| 0 <= j < n ==> has_corners(#[trigger] tris[j], vertices@.len()),
            forall|j: int| 0 <= j < n ==> #[trigger] indices[j] < n,
            ordered.len() == i,
            forall|j: int| 0 <= j < i ==> #[trigger] ordered[j] == tris0[indices[j] as int],
        decreases n - i,
    {
        ordered.push(tris[indices[i]]);
        i = i + 1;
    }
    proof {
        let f = |i: usize| tris0[i as int];
        assert(range.subrange(0, n as int) =~= range);
        assert(indices@.subrange(0, n as int) =~= indices@);
        lemma_map_rearranged(range, indices@, f);
        assert(range.map_values(f) =~= tris0);
        assert(indices@.map_values(f) =~= ordered@);
        assert forall|rules: BuildRules| #[trigger] rules.describe(*math) implies is_clustered(
            rules,
            centroids_of(rules, vertices@, ordered@),
        ) by {
            assert(pick(centroids@, indices@) =~= centroids_of(rules, vertices@, ordered@));
        }
    }
    *tris = ordered;
}

} // verus!

//! Where a run of chunks is split: the candidate with the least expected cost.
use vstd::prelude::*;
use vstd::seq_lib::lemma_fold_left_permutation;
use crate::aabb::{empty_box, law_points_any_order, law_union_order, AABB};
use crate::accel::math::{bin, leaf_cost, side, split_cost, BuildRules, SAH_BINS, SAH_SPLITS};
use crate::arith::Arith;
use crate::order::{lemma_rearranged_transitive, lemma_swap_rearranges, rearranged, swap_items};
use crate::scalar::{Point3, Scalar};

verus! {

/// The chunks a tree is built over: their boxes and the middles of these.
pub struct ChunkView {
    pub boxes: Seq<AABB>,
    pub mids: Seq<Point3>,
}

/// The least box around the boxes of some chunks.
pub open spec fn box_around(s: Seq<usize>, boxes: Seq<AABB>) -> AABB {
    s.fold_left(empty_box(), |b: AABB, c: usize| b.union(boxes[c as int]))
}

/// The least box around the middles of some chunks.
pub open spec fn mid_bounds(s: Seq<usize>, mids: Seq<Point3>) -> AABB {
    s.fold_left(empty_box(), |b: AABB, c: usize| b.with_point(mids[c as int]))
}

/// Whether a box has no extent along an axis.
pub open spec fn is_flat(bounds: AABB, axis: usize) -> bool {
    bounds.min.coord(axis).is_finite() && bounds.min.coord(axis) == bounds.max.coord(axis)
}

/// The last bin, for what would lie beyond it.
pub open spec fn capped(bin: usize) -> usize {
    if bin < SAH_BINS {
        bin
    } else {
        (SAH_BINS - 1) as usize
    }
}

/// A box and a number of chunks.
pub struct Tally {
    pub aabb: AABB,
    pub count: nat,
}

impl Tally {
    pub open spec fn plus(self, other: Tally) -> Tally {
        Tally { aabb: self.aabb.union(other.aabb), count: self.count + other.count }
    }
}

/// How chunks fall into the bins along an axis of a box.
pub struct Binning {
    pub rules: BuildRules,
    pub chunks: ChunkView,
    pub bounds: AABB,
    pub axis: usize,
}

impl Binning {
    /// The bin of a chunk when candidates are counted.
    pub open spec fn bin(self, c: usize) -> usize {
        capped(
            (self.rules.bin)(
                self.chunks.mids[c as int].coord(self.axis),
                self.bounds.min.coord(self.axis),
                self.bounds.max.coord(self.axis),
            ),
        )
    }

    /// The bin of a chunk when the split is made.
    pub open spec fn side(self, c: usize) -> usize {
        capped(
            (self.rules.side)(
                self.chunks.mids[c as int].coord(self.axis),
                self.bounds.min.coord(self.axis),
                self.bounds.max.coord(self.axis),
            ),
        )
    }

    /// Box and number of the chunks in the bins from `lo` to `hi`.
    pub open spec fn tally(self, s: Seq<usize>, lo: int, hi: int) -> Tally {
        s.fold_left(
            Tally { aabb: empty_box(), count: 0 },
            |t: Tally, c: usize|
                if lo <= self.bin(c) <= hi {
                    Tally { aabb: t.aabb.union(self.chunks.boxes[c as int]), count: t.count + 1 }
                } else {
                    t
                },
        )
    }

    /// Number of the chunks that a split after bin `last` puts to the left.
    pub open spec fn left_count(self, s: Seq<usize>, last: usize) -> nat {
        s.fold_left(
            0nat,
            |n: nat, c: usize|
                if self.side(c) <= last {
                    n + 1
                } else {
                    n
                },
        )
    }

    /// The cost of a split after bin `i` of a node with a given area, if both
    /// sides get a chunk.
    pub open spec fn candidate(self, s: Seq<usize>, area: Scalar, i: int) -> Option<Scalar> {
        let left = self.tally(s, 0, i);
        let right = self.tally(s, i + 1, SAH_BINS - 1);
        if left.count > 0 && right.count > 0 {
            Some(
                (self.rules.split_cost)(
                    area,
                    (self.rules.surface_area)(left.aabb),
                    left.count as usize,
                    (self.rules.surface_area)(right.aabb),
                    right.count as usize,
                ),
            )
        } else {
            None
        }
    }
}

/// A split: after which bin of which axis, and at what cost.
#[derive(Clone, Copy, PartialEq, Eq, Structural, Debug)]
pub struct Split {
    pub cost: Scalar,
    pub axis: usize,
    pub bin: usize,
}

/// The split that any candidate below the largest finite cost replaces.
pub open spec fn no_split() -> Split {
    Split { cost: Scalar::max_finite(), axis: 0, bin: 0 }
}

/// A run of chunks, about to be split.
pub struct Run {
    pub rules: BuildRules,
    pub chunks: ChunkView,
    pub items: Seq<usize>,
}

impl Run {
    /// The box around the run's chunks.
    pub open spec fn aabb(self) -> AABB {
        box_around(self.items, self.chunks.boxes)
    }

    /// The box around the middles of the run's chunks.
    pub open spec fn bounds(self) -> AABB {
        mid_bounds(self.items, self.chunks.mids)
    }

    /// The bins along an axis.
    pub open spec fn binning(self, axis: usize) -> Binning {
        Binning { rules: self.rules, chunks: self.chunks, bounds: self.bounds(), axis }
    }

    /// The cost of the split after bin `i` along an axis, if it is a candidate.
    pub open spec fn candidate(self, axis: usize, i: int) -> Option<Scalar> {
        if is_flat(self.bounds(), axis) {
            None
        } else {
            self.binning(axis).candidate(self.items, (self.rules.surface_area)(self.aabb()), i)
        }
    }

    /// The first cheapest of a split and the candidates along an axis before bin `n`.
    pub open spec fn best_on_axis(self, axis: usize, so_far: Split, n: nat) -> Split
        decreases n,
    {
        if n == 0 {
            so_far
        } else {
            let b = self.best_on_axis(axis, so_far, (n - 1) as nat);
            match self.candidate(axis, n - 1) {
                Some(cost) => if cost.lt(b.cost) {
                    Split { cost, axis, bin: (n - 1) as usize }
                } else {
                    b
                },
                None => b,
            }
        }
    }

    /// The first cheapest candidate along the first `n` axes.
    pub open spec fn best(self, n: nat) -> Split
        decreases n,
    {
        if n == 0 {
            no_split()
        } else {
            self.best_on_axis((n - 1) as usize, self.best((n - 1) as nat), SAH_SPLITS as nat)
        }
    }

    /// The split to make, or none if the run is to stay a leaf: where it has one
    /// chunk, where all middles coincide, where no candidate is cheaper than a
    /// leaf, and where the split would leave a side empty.
    pub open spec fn split(self) -> Option<Split> {
        let b = self.best(3);
        let left = self.binning(b.axis).left_count(self.items, b.bin);
        if self.items.len() <= 1 {
            None
        } else if is_flat(self.bounds(), 0) && is_flat(self.bounds(), 1) && is_flat(self.bounds(), 2) {
            None
        } else if (self.rules.leaf_cost)(self.items.len() as usize).le(b.cost) {
            None
        } else if left == 0 || left == self.items.len() {
            None
        } else {
            Some(b)
        }
    }
}

/// No candidate is cheaper than the best split, and the best split is a
/// candidate unless none is below the largest finite cost.
pub proof fn law_best_is_cheapest(run: Run, axis: usize, i: int)
    requires
        axis < 3,
        0 <= i < SAH_SPLITS,
    ensures
        run.candidate(axis, i) matches Some(cost) ==> !cost.lt(run.best(3).cost),
        run.best(3) == no_split() || run.candidate(run.best(3).axis, run.best(3).bin as int) == Some(
            run.best(3).cost,
        ),
{
    reveal_with_fuel(Run::best, 4);
    lemma_best_on_axis(run, 0, no_split(), SAH_SPLITS as nat, i);
    lemma_best_on_axis(run, 1, run.best(1), SAH_SPLITS as nat, i);
    lemma_best_on_axis(run, 2, run.best(2), SAH_SPLITS as nat, i);
}

proof fn lemma_best_on_axis(run: Run, axis: usize, so_far: Split, n: nat, i: int)
    requires
        0 <= i,
        n <= SAH_SPLITS,
        so_far.cost.ordered(),
    ensures
        run.best_on_axis(axis, so_far, n).cost.le(so_far.cost),
        i < n ==> (run.candidate(axis, i) matches Some(cost) ==> !cost.lt(run.best_on_axis(axis, so_far, n).cost)),
        run.best_on_axis(axis, so_far, n) == so_far || {
            let b = run.best_on_axis(axis, so_far, n);
            b.axis == axis && run.candidate(axis, b.bin as int) == Some(b.cost)
        },
    decreases n,
{
    if n > 0 {
        lemma_best_on_axis(run, axis, so_far, (n - 1) as nat, i);
    }
}

/// The bins from `lo` to `hi` hold what those up to `m` and those after `m` hold.
proof fn lemma_tally_concat(b: Binning, s: Seq<usize>, lo: int, m: int, hi: int)
    requires
        lo - 1 <= m <= hi,
    ensures
        b.tally(s, lo, hi) == b.tally(s, lo, m).plus(b.tally(s, m + 1, hi)),
        b.tally(s, lo, hi).count <= s.len(),
    decreases s.len(),
{
    if s.len() == 0 {
        law_union_order(empty_box(), empty_box(), empty_box());
    } else {
        let t = s.drop_last();
        lemma_tally_concat(b, t, lo, m, hi);
        let x = b.chunks.boxes[s.last() as int];
        let l = b.tally(t, lo, m).aabb;
        let r = b.tally(t, m + 1, hi).aabb;
        law_union_order(l, r, x);
        law_union_order(l, x, r);
        law_union_order(r, x, x);
    }
}

proof fn lemma_tally_empty(b: Binning, s: Seq<usize>, lo: int, hi: int)
    requires
        lo > hi,
    ensures
        b.tally(s, lo, hi) == (Tally { aabb: empty_box(), count: 0 }),
    decreases s.len(),
{
    if s.len() > 0 {
        lemma_tally_empty(b, s.drop_last(), lo, hi);
    }
}

proof fn lemma_tally_all(b: Binning, s: Seq<usize>)
    ensures
        b.tally(s, 0, SAH_BINS - 1).count == s.len(),
    decreases s.len(),
{
    if s.len() > 0 {
        lemma_tally_all(b, s.drop_last());
    }
}

/// A box and a number of chunks, as they are counted.
#[derive(Clone, Copy, Debug)]
pub struct Bin {
    pub aabb: AABB,
    pub count: usize,
}

impl Bin {
    pub open spec fn tally(self) -> Tally {
        Tally { aabb: self.aabb, count: self.count as nat }
    }
}

/// The chunks of a tree under construction: the order they are held in, their
/// boxes and the middles of these.
pub struct ChunkOrder {
    pub indices: Vec<usize>,
    pub aabbs: Vec<AABB>,
    pub centroids: Vec<Point3>,
}

impl ChunkOrder {
    /// The chunks, without their order.
    pub open spec fn chunks(self) -> ChunkView {
        ChunkView { boxes: self.aabbs@, mids: self.centroids@ }
    }

    /// A run of chunks in the present order.
    pub open spec fn run(self, first: int, count: int) -> Seq<usize> {
        self.indices@.subrange(first, first + count)
    }

    /// Whether every index names a chunk with a box and a middle.
    pub open spec fn valid(self) -> bool {
        &&& self.aabbs@.len() == self.centroids@.len()
        &&& forall|i: int| 0 <= i < self.indices@.len() ==> #[trigger] self.indices@[i] < self.aabbs@.len()
    }

    /// The box around the chunks of a run.
    pub fn run_box(&self, first: usize, count: usize) -> (r: AABB)
        requires
            self.valid(),
            first + count <= self.indices.len(),
        ensures
            r == box_around(self.run(first as int, count as int), self.aabbs@),
    {
        let mut aabb = AABB::invalid();
        let mut i: usize = 0;
        while i < count
            invariant
                i <= count,
                self.valid(),
                first + count <= self.indices.len(),
                aabb == box_around(self.run(first as int, i as int), self.aabbs@),
            decreases count - i,
        {
            proof {
                assert(self.run(first as int, i + 1).drop_last() =~= self.run(first as int, i as int));
            }
            aabb.extend_aabb(&self.aabbs[self.indices[first + i]]);
            i = i + 1;
        }
        aabb
    }

    /// The box around the middles of the chunks of a run.
    pub fn run_mid_bounds(&self, first: usize, count: usize) -> (r: AABB)
        requires
            self.valid(),
            first + count <= self.indices.len(),
        ensures
            r == mid_bounds(self.run(first as int, count as int), self.centroids@),
    {
        let mut bounds = AABB::invalid();
        let mut i: usize = 0;
        while i < count
            invariant
                i <= count,
                self.valid(),
                first + count <= self.indices.len(),
                bounds == mid_bounds(self.run(first as int, i as int), self.centroids@),
            decreases count - i,
        {
            proof {
                assert(self.run(first as int, i + 1).drop_last() =~= self.run(first as int, i as int));
            }
            bounds.extend(self.centroids[self.indices[first + i]]);
            i = i + 1;
        }
        bounds
    }

    /// The bins along an axis of a box.
    pub open spec fn binning(self, rules: BuildRules, bounds: AABB, axis: usize) -> Binning {
        Binning { rules, chunks: self.chunks(), bounds, axis }
    }

    /// What each bin along an axis holds.
    fn fill_bins<M: Arith>(&self, math: &M, first: usize, count: usize, bounds: &AABB, axis: usize) -> (r: [Bin;
        16])
        requires
            self.valid(),
            first + count <= self.indices.len(),
        ensures
            bin_total(r@, SAH_BINS as nat) == count,
            forall|rules: BuildRules, j: int|
                #![trigger rules.describe(*math), r[j]]
                rules.describe(*math) && 0 <= j < SAH_BINS ==> r[j].tally() == self.binning(
                    rules,
                    *bounds,
                    axis,
                ).tally(self.run(first as int, count as int), j, j),
    {
        let mut bins = [Bin { aabb: AABB::invalid(), count: 0 };16];
        let mut i: usize = 0;
        proof {
            lemma_bin_total_zero(bins@, SAH_BINS as nat);
        }
        while i < count
            invariant
                i <= count,
                self.valid(),
                first + count <= self.indices.len(),
                bin_total(bins@, SAH_BINS as nat) == i,
                forall|rules: BuildRules, j: int|
                    #![trigger rules.describe(*math), bins[j]]
                    rules.describe(*math) && 0 <= j < SAH_BINS ==> bins[j].tally() == self.binning(
                        rules,
                        *bounds,
                        axis,
                    ).tally(self.run(first as int, i as int), j, j),
            decreases count - i,
        {
            let chunk: usize = self.indices[first + i];
            let x = self.centroids[chunk].coord(axis);
            let raw: usize = bin(math, x, bounds.min.coord(axis), bounds.max.coord(axis));
            let bin: usize = if raw < SAH_BINS { raw } else { SAH_BINS - 1 };
            let ghost before = bins@;
            let mut entry = bins[bin];
            proof {
                assert(self.run(first as int, i + 1).drop_last() =~= self.run(first as int, i as int));
                lemma_bin_total_update(before, bin as int, entry, SAH_BINS as nat);
            }
            entry.aabb.extend_aabb(&self.aabbs[chunk]);
            entry.count = entry.count + 1;
            bins[bin] = entry;
            proof {
                lemma_bin_total_update(before, bin as int, entry, SAH_BINS as nat);
                assert(bins@ =~= before.update(bin as int, entry));
            }
            i = i + 1;
        }
        bins
    }
}

/// Number of chunks in the first `n` bins.
spec fn bin_total(bins: Seq<Bin>, n: nat) -> nat
    decreases n,
{
    if n == 0 {
        0
    } else {
        bin_total(bins, (n - 1) as nat) + bins[n - 1].count as nat
    }
}

proof fn lemma_bin_total_zero(bins: Seq<Bin>, n: nat)
    requires
        forall|i: int| 0 <= i < n ==> (#[trigger] bins[i]).count == 0,
    ensures
        bin_total(bins, n) == 0,
    decreases n,
{
    if n > 0 {
        lemma_bin_total_zero(bins, (n - 1) as nat);
    }
}

proof fn lemma_bin_total_update(bins: Seq<Bin>, k: int, entry: Bin, n: nat)
    requires
        0 <= k < bins.len(),
        n <= bins.len(),
    ensures
        k < n ==> bin_total(bins.update(k, entry), n) == bin_total(bins, n) - bins[k].count + entry.count,
        k >= n ==> bin_total(bins.update(k, entry), n) == bin_total(bins, n),
        k < n ==> bins[k].count <= bin_total(bins, n),
    decreases n,
{
    if n > 0 {
        lemma_bin_total_update(bins, k, entry, (n - 1) as nat);
    }
}

proof fn lemma_bin_total_prefix(bins: Seq<Bin>, a: nat, b: nat)
    requires
        a <= b,
    ensures
        bin_total(bins, a) <= bin_total(bins, b),
    decreases b,
{
    if a < b {
        lemma_bin_total_prefix(bins, a, (b - 1) as nat);
    }
}

impl ChunkOrder {
    /// What lies on each side of each place between bins.
    fn sweep<M: Arith>(
        &self,
        math: &M,
        first: usize,
        count: usize,
        bounds: &AABB,
        axis: usize,
    ) -> (r: ([Bin; 15], [Bin; 15]))
        requires
            self.valid(),
            first + count <= self.indices.len(),
        ensures
            forall|rules: BuildRules, j: int|
                #![trigger rules.describe(*math), r.0[j]]
                rules.describe(*math) && 0 <= j < SAH_SPLITS ==> r.0[j].tally() == self.binning(
                    rules,
                    *bounds,
                    axis,
                ).tally(self.run(first as int, count as int), 0, j),
            forall|rules: BuildRules, j: int|
                #![trigger rules.describe(*math), r.1[j]]
                rules.describe(*math) && 0 <= j < SAH_SPLITS ==> r.1[j].tally() == self.binning(
                    rules,
                    *bounds,
                    axis,
                ).tally(self.run(first as int, count as int), j + 1, SAH_BINS - 1),
    {
        let ghost s = self.run(first as int, count as int);
        let bins = self.fill_bins(math, first, count, bounds, axis);

        let empty = Bin { aabb: AABB::invalid(), count: 0 };
        let mut left = [empty;15];
        let mut acc = empty;
        let mut i: usize = 0;
        proof {
            assert forall|rules: BuildRules| #[trigger] rules.describe(*math) implies acc.tally() == self.binning(
                rules,
                *bounds,
                axis,
            ).tally(s, 0, -1) by {
                lemma_tally_empty(self.binning(rules, *bounds, axis), s, 0, -1);
            }
        }
        while i < SAH_SPLITS
            invariant
                i <= SAH_SPLITS,
                bin_total(bins@, SAH_BINS as nat) == count,
                acc.count == bin_total(bins@, i as nat),
                forall|rules: BuildRules, j: int|
                    #![trigger rules.describe(*math), bins[j]]
                    rules.describe(*math) && 0 <= j < SAH_BINS ==> bins[j].tally() == self.binning(
                        rules,
                        *bounds,
                        axis,
                    ).tally(s, j, j),
                forall|rules: BuildRules| #[trigger]
                    rules.describe(*math) ==> acc.tally() == self.binning(rules, *bounds, axis).tally(
                        s,
                        0,
                        i - 1,
                    ),
                forall|rules: BuildRules, j: int|
                    #![trigger rules.describe(*math), left[j]]
                    rules.describe(*math) && 0 <= j < i ==> left[j].tally() == self.binning(
                        rules,
                        *bounds,
                        axis,
                    ).tally(s, 0, j),
            decreases SAH_SPLITS - i,
        {
            proof {
                lemma_bin_total_prefix(bins@, (i + 1) as nat, SAH_BINS as nat);
            }
            let ghost before = acc;
            acc.count = acc.count + bins[i].count;
            acc.aabb.extend_aabb(&bins[i].aabb);
            proof {
                assert forall|rules: BuildRules| #[trigger]
                    rules.describe(*math) implies acc.tally() == self.binning(rules, *bounds, axis).tally(
                    s,
                    0,
                    i as int,
                ) by {
                    lemma_tally_concat(self.binning(rules, *bounds, axis), s, 0, i - 1, i as int);
                    assert(acc.tally() == before.tally().plus(bins[i as int].tally()));
                }
            }
            left[i] = acc;
            i = i + 1;
        }

        let mut right = [empty;15];
        let mut acc = empty;
        let mut i: usize = SAH_SPLITS;
        proof {
            assert forall|rules: BuildRules| #[trigger] rules.describe(*math) implies acc.tally() == self.binning(
                rules,
                *bounds,
                axis,
            ).tally(s, SAH_BINS as int, SAH_BINS - 1) by {
                lemma_tally_empty(self.binning(rules, *bounds, axis), s, SAH_BINS as int, SAH_BINS - 1);
            }
        }
        while i > 0
            invariant
                i <= SAH_SPLITS,
                bin_total(bins@, SAH_BINS as nat) == count,
                acc.count + bin_total(bins@, (i + 1) as nat) == count,
                forall|rules: BuildRules, j: int|
                    #![trigger rules.describe(*math), bins[j]]
                    rules.describe(*math) && 0 <= j < SAH_BINS ==> bins[j].tally() == self.binning(
                        rules,
                        *bounds,
                        axis,
                    ).tally(s, j, j),
                forall|rules: BuildRules| #[trigger]
                    rules.describe(*math) ==> acc.tally() == self.binning(rules, *bounds, axis).tally(
                        s,
                        i + 1,
                        SAH_BINS - 1,
                    ),
                forall|rules: BuildRules, j: int|
                    #![trigger rules.describe(*math), right[j]]
                    rules.describe(*math) && i <= j < SAH_SPLITS ==> right[j].tally() == self.binning(
                        rules,
                        *bounds,
                        axis,
                    ).tally(s, j + 1, SAH_BINS - 1),
            decreases i,
        {
            let ghost before = acc;
            acc.count = acc.count + bins[i].count;
            acc.aabb.extend_aabb(&bins[i].aabb);
            proof {
                assert forall|rules: BuildRules| #[trigger]
                    rules.describe(*math) implies acc.tally() == self.binning(rules, *bounds, axis).tally(
                    s,
                    i as int,
                    SAH_BINS - 1,
                ) by {
                    lemma_tally_concat(self.binning(rules, *bounds, axis), s, i as int, i as int, SAH_BINS - 1);
                    law_union_order(before.aabb, bins[i as int].aabb, bins[i as int].aabb);
                    assert(acc.tally() == bins[i as int].tally().plus(before.tally()));
                }
            }
            right[i - 1] = acc;
            i = i - 1;
        }
        (left, right)
    }

    /// The first cheapest of a split and the candidates along an axis.
    fn best_on_axis<M: Arith>(
        &self,
        math: &M,
        first: usize,
        count: usize,
        aabb: &AABB,
        bounds: &AABB,
        axis: usize,
        so_far: Split,
    ) -> (r: Split)
        requires
            self.valid(),
            first + count <= self.indices.len(),
            *aabb == box_around(self.run(first as int, count as int), self.aabbs@),
            *bounds == mid_bounds(self.run(first as int, count as int), self.centroids@),
            !is_flat(*bounds, axis),
        ensures
            forall|rules: BuildRules| #[trigger]
                rules.describe(*math) ==> r == self.run_view(rules, first as int, count as int).best_on_axis(
                    axis,
                    so_far,
                    SAH_SPLITS as nat,
                ),
            so_far.axis < 3 && axis < 3 ==> r.axis < 3,
    {
        let ghost s = self.run(first as int, count as int);
        let (left, right) = self.sweep(math, first, count, bounds, axis);
        let area = aabb.surface_area(math);
        let mut best = so_far;
        let mut i: usize = 0;
        while i < SAH_SPLITS
            invariant
                i <= SAH_SPLITS,
                s == self.run(first as int, count as int),
                *aabb == box_around(s, self.aabbs@),
                *bounds == mid_bounds(s, self.centroids@),
                !is_flat(*bounds, axis),
                so_far.axis < 3 && axis < 3 ==> best.axis < 3,
                forall|rules: BuildRules| #[trigger]
                    rules.describe(*math) ==> area == (rules.surface_area)(*aabb),
                forall|rules: BuildRules, j: int|
                    #![trigger rules.describe(*math), left[j]]
                    rules.describe(*math) && 0 <= j < SAH_SPLITS ==> left[j].tally() == self.binning(
                        rules,
                        *bounds,
                        axis,
                    ).tally(s, 0, j),
                forall|rules: BuildRules, j: int|
                    #![trigger rules.describe(*math), right[j]]
                    rules.describe(*math) && 0 <= j < SAH_SPLITS ==> right[j].tally() == self.binning(
                        rules,
                        *bounds,
                        axis,
                    ).tally(s, j + 1, SAH_BINS - 1),
                forall|rules: BuildRules| #[trigger]
                    rules.describe(*math) ==> best == self.run_view(rules, first as int, count as int).best_on_axis(
                        axis,
                        so_far,
                        i as nat,
                    ),
            decreases SAH_SPLITS - i,
        {
            if left[i].count > 0 && right[i].count > 0 {
                let cost = split_cost(
                    math,
                    area,
                    left[i].aabb.surface_area(math),
                    left[i].count,
                    right[i].aabb.surface_area(math),
                    right[i].count,
                );
                if cost.lt(best.cost) {
                    best = Split { cost, axis, bin: i };
                }
            }
            i = i + 1;
        }
        best
    }

    /// A run of chunks as it is split.
    pub open spec fn run_view(self, rules: BuildRules, first: int, count: int) -> Run {
        Run { rules, chunks: self.chunks(), items: self.run(first, count) }
    }
}

/// Whether two runs hold the same chunks, in whatever order.
pub open spec fn same_chunks(a: Run, b: Run) -> bool {
    &&& a.rules == b.rules
    &&& a.chunks == b.chunks
    &&& a.items.to_multiset() == b.items.to_multiset()
}

/// The order of a run's chunks decides neither its box nor its split.
pub proof fn law_split_ignores_order(a: Run, b: Run)
    requires
        same_chunks(a, b),
    ensures
        a.aabb() == b.aabb(),
        a.bounds() == b.bounds(),
        a.split() == b.split(),
{
    lemma_boxes_order(a, b);
    assert forall|axis: usize, i: int| a.candidate(axis, i) == b.candidate(axis, i) by {
        lemma_tally_order(a.binning(axis), a.items, b.items, 0, i);
        lemma_tally_order(a.binning(axis), a.items, b.items, i + 1, SAH_BINS - 1);
    }
    lemma_best_same(a, b, 3);
    let best = a.best(3);
    lemma_left_count_order(a.binning(best.axis), a.items, b.items, best.bin);
    assert(a.binning(best.axis) == b.binning(best.axis));
    assert(a.items.len() == b.items.len()) by {
        vstd::seq_lib::to_multiset_len(a.items);
        vstd::seq_lib::to_multiset_len(b.items);
    }
}

/// The order of chunks does not decide the box around them.
pub proof fn lemma_box_around_order(s: Seq<usize>, t: Seq<usize>, boxes: Seq<AABB>)
    requires
        s.to_multiset() == t.to_multiset(),
    ensures
        box_around(s, boxes) == box_around(t, boxes),
{
    let f = |x: AABB, c: usize| x.union(boxes[c as int]);
    assert forall|c: usize, d: usize, v: AABB| #[trigger] f(f(v, c), d) == f(f(v, d), c) by {
        law_union_order(v, boxes[c as int], boxes[d as int]);
        law_union_order(v, boxes[d as int], boxes[c as int]);
        law_union_order(boxes[c as int], boxes[d as int], v);
    }
    lemma_fold_left_permutation(s, t, f, empty_box());
}

proof fn lemma_boxes_order(a: Run, b: Run)
    requires
        same_chunks(a, b),
    ensures
        a.aabb() == b.aabb(),
        a.bounds() == b.bounds(),
{
    lemma_box_around_order(a.items, b.items, a.chunks.boxes);
    let mids = a.chunks.mids;
    let g = |x: AABB, c: usize| x.with_point(mids[c as int]);
    assert forall|c: usize, d: usize, v: AABB| #[trigger] g(g(v, c), d) == g(g(v, d), c) by {
        law_points_any_order(v, mids[c as int], mids[d as int]);
    }
    lemma_fold_left_permutation(a.items, b.items, g, empty_box());
}

proof fn lemma_left_count_order(n: Binning, s: Seq<usize>, t: Seq<usize>, last: usize)
    requires
        s.to_multiset() == t.to_multiset(),
    ensures
        n.left_count(s, last) == n.left_count(t, last),
{
    let h = |k: nat, c: usize|
        if n.side(c) <= last {
            k + 1
        } else {
            k
        };
    lemma_fold_left_permutation(s, t, h, 0nat);
}

proof fn lemma_tally_order(n: Binning, s: Seq<usize>, t: Seq<usize>, lo: int, hi: int)
    requires
        s.to_multiset() == t.to_multiset(),
    ensures
        n.tally(s, lo, hi) == n.tally(t, lo, hi),
{
    let f = |t: Tally, c: usize|
        if lo <= n.bin(c) <= hi {
            Tally { aabb: t.aabb.union(n.chunks.boxes[c as int]), count: t.count + 1 }
        } else {
            t
        };
    assert forall|c: usize, d: usize, v: Tally| #[trigger] f(f(v, c), d) == f(f(v, d), c) by {
        let x = n.chunks.boxes[c as int];
        let y = n.chunks.boxes[d as int];
        law_union_order(v.aabb, x, y);
        law_union_order(v.aabb, y, x);
        law_union_order(x, y, v.aabb);
    }
    lemma_fold_left_permutation(s, t, f, Tally { aabb: empty_box(), count: 0 });
}

proof fn lemma_best_on_axis_same(a: Run, b: Run, axis: usize, so_far: Split, n: nat)
    requires
        forall|axis: usize, i: int| a.candidate(axis, i) == b.candidate(axis, i),
    ensures
        a.best_on_axis(axis, so_far, n) == b.best_on_axis(axis, so_far, n),
    decreases n,
{
    if n > 0 {
        lemma_best_on_axis_same(a, b, axis, so_far, (n - 1) as nat);
    }
}

proof fn lemma_best_same(a: Run, b: Run, n: nat)
    requires
        forall|axis: usize, i: int| a.candidate(axis, i) == b.candidate(axis, i),
    ensures
        a.best(n) == b.best(n),
    decreases n,
{
    if n > 0 {
        lemma_best_same(a, b, (n - 1) as nat);
        lemma_best_on_axis_same(a, b, (n - 1) as usize, a.best((n - 1) as nat), SAH_SPLITS as nat);
    }
}

/// A run whose first `k` chunks, and only these, a split puts to the left.
pub open spec fn is_parted(n: Binning, s: Seq<usize>, last: usize, k: int) -> bool {
    &&& forall|i: int| 0 <= i < k ==> n.side(#[trigger] s[i]) <= last
    &&& forall|i: int| k <= i < s.len() ==> n.side(#[trigger] s[i]) > last
}

proof fn lemma_parted_count(n: Binning, s: Seq<usize>, last: usize, k: int)
    requires
        0 <= k <= s.len(),
        is_parted(n, s, last, k),
    ensures
        n.left_count(s, last) == k,
    decreases s.len(),
{
    if s.len() > 0 {
        let t = s.drop_last();
        assert(s.last() == s[s.len() - 1]);
        assert forall|i: int| 0 <= i < t.len() implies #[trigger] t[i] == s[i] by {}
        if k == s.len() {
            lemma_parted_count(n, t, last, k - 1);
        } else {
            lemma_parted_count(n, t, last, k);
        }
    }
}

impl ChunkOrder {
    /// The cheapest split of a run, if it is cheaper than a leaf.
    fn choose_split<M: Arith>(&self, math: &M, first: usize, count: usize, aabb: &AABB, bounds: &AABB) -> (r: Option<
        Split,
    >)
        requires
            self.valid(),
            first + count <= self.indices.len(),
            *aabb == box_around(self.run(first as int, count as int), self.aabbs@),
            *bounds == mid_bounds(self.run(first as int, count as int), self.centroids@),
        ensures
            r matches Some(b) ==> b.axis < 3,
            forall|rules: BuildRules| #[trigger]
                rules.describe(*math) ==> {
                    let run = self.run_view(rules, first as int, count as int);
                    match r {
                        Some(b) => {
                            &&& b == run.best(3)
                            &&& !(is_flat(*bounds, 0) && is_flat(*bounds, 1) && is_flat(*bounds, 2))
                            &&& !(rules.leaf_cost)(count).le(b.cost)
                        },
                        None => run.split() is None,
                    }
                },
    {
        if Self::flat(bounds, 0) && Self::flat(bounds, 1) && Self::flat(bounds, 2) {
            return None;
        }
        let mut best = Split { cost: Scalar::max_finite(), axis: 0, bin: 0 };
        let mut axis: usize = 0;
        while axis < 3
            invariant
                axis <= 3,
                best.axis < 3,
                self.valid(),
                first + count <= self.indices.len(),
                *aabb == box_around(self.run(first as int, count as int), self.aabbs@),
                *bounds == mid_bounds(self.run(first as int, count as int), self.centroids@),
                forall|rules: BuildRules| #[trigger]
                    rules.describe(*math) ==> best == self.run_view(rules, first as int, count as int).best(
                        axis as nat,
                    ),
            decreases 3 - axis,
        {
            let ghost before = best;
            if !Self::flat(bounds, axis) {
                best = self.best_on_axis(math, first, count, aabb, bounds, axis, best);
            } else {
                proof {
                    assert forall|rules: BuildRules| #[trigger] rules.describe(*math) implies best
                        == self.run_view(rules, first as int, count as int).best_on_axis(
                        axis,
                        before,
                        SAH_SPLITS as nat,
                    ) by {
                        lemma_flat_axis(
                            self.run_view(rules, first as int, count as int),
                            axis,
                            before,
                            SAH_SPLITS as nat,
                        );
                    }
                }
            }
            axis = axis + 1;
        }
        if leaf_cost(math, count).le(best.cost) {
            None
        } else {
            Some(best)
        }
    }

    /// Whether a box has no extent along an axis.
    fn flat(bounds: &AABB, axis: usize) -> (r: bool)
        ensures
            r == is_flat(*bounds, axis),
    {
        bounds.min.coord(axis).is_finite() && bounds.min.coord(axis) == bounds.max.coord(axis)
    }

    /// Moves the chunks of a run that a split puts to the left before the others,
    /// and says how many there are.
    fn partition<M: Arith>(
        &mut self,
        math: &M,
        first: usize,
        count: usize,
        bounds: &AABB,
        axis: usize,
        last: usize,
    ) -> (r: usize)
        requires
            old(self).valid(),
            first + count <= old(self).indices.len(),
        ensures
            final(self).valid(),
            final(self).chunks() == old(self).chunks(),
            rearranged(old(self).indices@, final(self).indices@, first as int, first + count),
            r <= count,
            forall|rules: BuildRules| #[trigger]
                rules.describe(*math) ==> is_parted(
                    old(self).binning(rules, *bounds, axis),
                    final(self).run(first as int, count as int),
                    last,
                    r as int,
                ),
    {
        let ghost order = self.indices@;
        let mut left: usize = first;
        let mut right: usize = first + count;
        while left < right
            invariant
                first <= left <= right <= first + count,
                first + count <= self.indices.len(),
                self.valid(),
                self.chunks() == old(self).chunks(),
                rearranged(order, self.indices@, first as int, first + count),
                forall|rules: BuildRules, i: int|
                    #![trigger rules.describe(*math), self.indices@[i]]
                    rules.describe(*math) && first <= i < left ==> self.binning(rules, *bounds, axis).side(
                        self.indices@[i],
                    ) <= last,
                forall|rules: BuildRules, i: int|
                    #![trigger rules.describe(*math), self.indices@[i]]
                    rules.describe(*math) && right <= i < first + count ==> self.binning(
                        rules,
                        *bounds,
                        axis,
                    ).side(self.indices@[i]) > last,
            decreases right - left,
        {
            let chunk: usize = self.indices[left];
            let x = self.centroids[chunk].coord(axis);
            let raw: usize = side(math, x, bounds.min.coord(axis), bounds.max.coord(axis));
            let bin: usize = if raw < SAH_BINS { raw } else { SAH_BINS - 1 };
            if bin <= last {
                left = left + 1;
            } else {
                right = right - 1;
                let ghost before = self.indices@;
                swap_items(&mut self.indices, left, right);
                proof {
                    lemma_swap_rearranges(before, left as int, right as int, first as int, first + count);
                    lemma_rearranged_transitive(order, before, self.indices@, first as int, first + count);
                }
            }
        }
        proof {
            assert forall|rules: BuildRules| #[trigger] rules.describe(*math) implies is_parted(
                old(self).binning(rules, *bounds, axis),
                self.run(first as int, count as int),
                last,
                left - first,
            ) by {
                let s = self.run(first as int, count as int);
                assert forall|i: int| 0 <= i < s.len() implies s[i] == #[trigger] self.indices@[first + i] by {}
                assert forall|i: int| 0 <= i < left - first implies old(self).binning(rules, *bounds, axis).side(
                    #[trigger] s[i],
                ) <= last by {
                    assert(s[i] == self.indices@[first + i]);
                }
                assert forall|i: int| left - first <= i < s.len() implies old(self).binning(
                    rules,
                    *bounds,
                    axis,
                ).side(#[trigger] s[i]) > last by {
                    assert(s[i] == self.indices@[first + i]);
                }
            }
        }
        left - first
    }

    /// Splits a run, if it is to be split: its chunks change places so that the
    /// left ones come first, and the number of these is returned.
    pub fn split_run<M: Arith>(&mut self, math: &M, first: usize, count: usize, aabb: &AABB) -> (r: Option<usize>)
        requires
            old(self).valid(),
            first + count <= old(self).indices.len(),
            *aabb == box_around(old(self).run(first as int, count as int), old(self).aabbs@),
        ensures
            final(self).valid(),
            final(self).chunks() == old(self).chunks(),
            rearranged(old(self).indices@, final(self).indices@, first as int, first + count),
            r matches Some(k) ==> 0 < k < count,
            forall|rules: BuildRules| #[trigger]
                rules.describe(*math) ==> {
                    let run = old(self).run_view(rules, first as int, count as int);
                    match run.split() {
                        None => r is None,
                        Some(b) => r matches Some(k) && is_parted(
                            run.binning(b.axis),
                            final(self).run(first as int, count as int),
                            b.bin,
                            k as int,
                        ),
                    }
                },
    {
        if count <= 1 {
            return None;
        }
        let bounds = self.run_mid_bounds(first, count);
        let ghost before = *self;
        match self.choose_split(math, first, count, aabb, &bounds) {
            None => None,
            Some(best) => {
                let k: usize = self.partition(math, first, count, &bounds, best.axis, best.bin);
                proof {
                    assert forall|rules: BuildRules| #[trigger] rules.describe(*math) implies before.run_view(
                        rules,
                        first as int,
                        count as int,
                    ).binning(best.axis).left_count(before.run(first as int, count as int), best.bin) == k by {
                        let run = before.run_view(rules, first as int, count as int);
                        lemma_parted_count(
                            run.binning(best.axis),
                            self.run(first as int, count as int),
                            best.bin,
                            k as int,
                        );
                        lemma_left_count_order(
                            run.binning(best.axis),
                            before.run(first as int, count as int),
                            self.run(first as int, count as int),
                            best.bin,
                        );
                    }
                }
                if k == 0 || k == count {
                    None
                } else {
                    Some(k)
                }
            },
        }
    }
}

proof fn lemma_flat_axis(run: Run, axis: usize, so_far: Split, n: nat)
    requires
        is_flat(run.bounds(), axis),
    ensures
        run.best_on_axis(axis, so_far, n) == so_far,
    decreases n,
{
    if n > 0 {
        lemma_flat_axis(run, axis, so_far, (n - 1) as nat);
    }
}

/// A split counts every chunk on one side: those of both sides make up the run.
pub proof fn law_sides_make_up_the_run(b: Binning, s: Seq<usize>, i: int)
    requires
        0 <= i < SAH_SPLITS,
    ensures
        b.tally(s, 0, i).count + b.tally(s, i + 1, SAH_BINS - 1).count == s.len(),
        b.tally(s, 0, i).count > 0 <==> exists|j: int| 0 <= j < s.len() && b.bin(#[trigger] s[j]) <= i,
        b.tally(s, i + 1, SAH_BINS - 1).count > 0 <==> exists|j: int| 0 <= j < s.len() && b.bin(#[trigger] s[j]) > i,
    decreases s.len(),
{
    lemma_tally_concat(b, s, 0, i, SAH_BINS - 1);
    lemma_tally_all(b, s);
    if s.len() > 0 {
        let t = s.drop_last();
        law_sides_make_up_the_run(b, t, i);
        let n = s.len() - 1;
        assert(s[n] == s.last());
        if b.tally(t, 0, i).count > 0 {
            let j = choose|j: int| 0 <= j < t.len() && b.bin(#[trigger] t[j]) <= i;
            assert(s[j] == t[j]);
        }
        if b.tally(t, i + 1, SAH_BINS - 1).count > 0 {
            let j = choose|j: int| 0 <= j < t.len() && b.bin(#[trigger] t[j]) > i;
            assert(s[j] == t[j]);
        }
        assert forall|j: int| 0 <= j < s.len() && b.bin(#[trigger] s[j]) <= i implies b.tally(s, 0, i).count > 0 by {
            if j < n {
                assert(t[j] == s[j]);
            }
        }
        assert forall|j: int| 0 <= j < s.len() && b.bin(#[trigger] s[j]) > i implies b.tally(
            s,
            i + 1,
            SAH_BINS - 1,
        ).count > 0 by {
            if j < n {
                assert(t[j] == s[j]);
            }
        }
    }
}

} // verus!

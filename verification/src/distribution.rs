//! Inverse-CDF sampling of piecewise-constant distributions. A distribution over
//! a grid is a marginal over rows and one conditional per row.
use vstd::prelude::*;
use crate::arith::{Arith, ArithRules};
use crate::scalar::Scalar;

verus! {

/// A position in [0, 1), the density there, and the bin that it lies in.
#[derive(Clone, Copy, PartialEq, Eq, Structural, Debug)]
pub struct LineSample {
    pub x: Scalar,
    pub pdf: Scalar,
    pub bin: usize,
}

/// A position in the unit square, and the density there.
#[derive(Clone, Copy, PartialEq, Eq, Structural, Debug)]
pub struct SquareSample {
    pub u: Scalar,
    pub v: Scalar,
    pub pdf: Scalar,
}

/// 1D piecewise-constant distribution over `n` bins.
#[derive(Clone)]
pub struct Distribution1D {
    /// Normalized, with one entry more than there are bins.
    pub cdf: Vec<Scalar>,
    /// The un-normalized sum of the input function.
    pub integral: Scalar,
}

/// 2D piecewise-constant distribution over a grid (row-major), sampled via a
/// marginal over rows then a per-row conditional over columns.
#[derive(Clone)]
pub struct Distribution2D {
    /// One per row.
    pub conditional: Vec<Distribution1D>,
    /// Over the rows, weighted by their integrals.
    pub marginal: Distribution1D,
}

/// Halves a range of a table until one place is left: the first entry in it that
/// is greater than `u`, if all before are not and all after are.
pub open spec fn search(cdf: Seq<Scalar>, u: Scalar, lo: int, hi: int) -> int
    decreases hi - lo,
{
    if lo >= hi {
        lo
    } else {
        let mid = lo + (hi - lo) / 2;
        if cdf[mid].le(u) {
            search(cdf, u, mid + 1, hi)
        } else {
            search(cdf, u, lo, mid)
        }
    }
}

/// The bin that a uniform number falls in.
pub open spec fn bin_of(cdf: Seq<Scalar>, u: Scalar) -> int {
    let p = search(cdf, u, 0, cdf.len() as int);
    let n = cdf.len() - 1;
    if p == 0 {
        0
    } else if p - 1 < n {
        p - 1
    } else {
        n - 1
    }
}

/// The bin at a count, or the last.
pub open spec fn bin_at(count: usize, n: int) -> int {
    if count < n {
        count as int
    } else {
        n - 1
    }
}

/// The row `v` of a table of `w` columns.
pub open spec fn row_of(func: Seq<Scalar>, w: int, v: int) -> Seq<Scalar> {
    func.subrange(v * w, (v + 1) * w)
}

impl ArithRules {
    /// The sum of the first `k` weights, negative ones counted as zero.
    pub open spec fn running(self, f: Seq<Scalar>, k: nat) -> Scalar
        decreases k,
    {
        if k == 0 {
            Scalar::zero()
        } else {
            self.sum(self.running(f, (k - 1) as nat), f[k - 1].max(Scalar::zero()))
        }
    }

    /// The sum of all weights.
    pub open spec fn integral_of(self, f: Seq<Scalar>) -> Scalar {
        self.running(f, f.len())
    }

    /// The normalized table of running sums; a uniform one if all weights are zero.
    pub open spec fn cdf_of(self, f: Seq<Scalar>) -> Seq<Scalar> {
        let total = self.integral_of(f);
        Seq::new(
            f.len() + 1,
            |i: int|
                if Scalar::zero().lt(total) {
                    self.quotient(self.running(f, i as nat), total)
                } else {
                    self.quotient(self.of_count(i as usize), self.of_count(bins(f.len() as int) as usize))
                },
        )
    }

    /// The position that a uniform number picks.
    pub open spec fn line_sample(self, cdf: Seq<Scalar>, u: Scalar) -> LineSample {
        let n = (cdf.len() - 1) as usize;
        let bin = bin_of(cdf, u);
        let c0 = cdf[bin];
        let dc = self.difference(cdf[bin + 1], c0);
        let frac = if Scalar::zero().lt(dc) {
            self.quotient(self.difference(u, c0), dc)
        } else {
            Scalar::zero()
        };
        LineSample {
            x: self.quotient(self.sum(self.of_count(bin as usize), frac), self.of_count(n)),
            pdf: self.product(dc, self.of_count(n)),
            bin: bin as usize,
        }
    }

    /// The density at a position.
    pub open spec fn line_pdf(self, cdf: Seq<Scalar>, x: Scalar) -> Scalar {
        let n = (cdf.len() - 1) as usize;
        let bin = bin_at(self.to_count(self.product(x, self.of_count(n))), n as int);
        self.product(self.difference(cdf[bin + 1], cdf[bin]), self.of_count(n))
    }

    /// The integrals of the rows of a table.
    pub open spec fn row_integrals(self, func: Seq<Scalar>, w: int, h: int) -> Seq<Scalar> {
        Seq::new(h as nat, |v: int| self.integral_of(row_of(func, w, v)))
    }

    /// The position that two uniform numbers pick: the first the row, the second
    /// the column.
    pub open spec fn square_sample(self, d: Distribution2D, u1: Scalar, u2: Scalar) -> SquareSample {
        let row = self.line_sample(d.marginal.cdf@, u1);
        let column = self.line_sample(d.conditional@[row.bin as int].cdf@, u2);
        SquareSample { u: column.x, v: row.x, pdf: self.product(row.pdf, column.pdf) }
    }

    /// The density at a position of the unit square.
    pub open spec fn square_pdf(self, d: Distribution2D, u: Scalar, v: Scalar) -> Scalar {
        let h = d.conditional@.len();
        let row = bin_at(self.to_count(self.product(v, self.of_count(h as usize))), h as int);
        self.product(self.line_pdf(d.marginal.cdf@, v), self.line_pdf(d.conditional@[row].cdf@, u))
    }
}

/// Number of bins, at least one.
pub open spec fn bins(n: int) -> int {
    if n < 1 {
        1
    } else {
        n
    }
}

/// The first entry of a table that is greater than `u`.
fn find<'a>(cdf: &'a Vec<Scalar>, u: Scalar) -> (r: usize)
    ensures
        r == search(cdf@, u, 0, cdf@.len() as int),
        r <= cdf.len(),
{
    let mut lo: usize = 0;
    let mut hi: usize = cdf.len();
    while lo < hi
        invariant
            lo <= hi <= cdf.len(),
            search(cdf@, u, lo as int, hi as int) == search(cdf@, u, 0, cdf@.len() as int),
        decreases hi - lo,
    {
        let mid: usize = lo + (hi - lo) / 2;
        if cdf[mid].le(u) {
            lo = mid + 1;
        } else {
            hi = mid;
        }
    }
    lo
}

impl Distribution1D {
    /// Whether there is a bin to sample.
    pub open spec fn has_bins(self) -> bool {
        self.cdf@.len() >= 2
    }

    /// A distribution over bins of given weights.
    pub fn new<M: Arith>(math: &M, f: &Vec<Scalar>) -> (r: Distribution1D)
        ensures
            r.cdf@.len() == f.len() + 1,
            forall|rules: ArithRules| #[trigger]
                rules.describe(*math) ==> r.cdf@ == rules.cdf_of(f@) && r.integral == rules.integral_of(f@),
    {
        let n: usize = if f.len() < 1 { 1 } else { f.len() };
        let mut cdf: Vec<Scalar> = Vec::new();
        cdf.push(Scalar::zero());
        let mut acc = Scalar::zero();
        let mut i: usize = 0;
        while i < f.len()
            invariant
                i <= f.len(),
                cdf.len() == i + 1,
                forall|rules: ArithRules| #[trigger] rules.describe(*math) ==> acc == rules.running(f@, i as nat),
                forall|rules: ArithRules, j: int|
                    #![trigger rules.describe(*math), cdf@[j]]
                    rules.describe(*math) && 0 <= j <= i ==> cdf@[j] == rules.running(f@, j as nat),
            decreases f.len() - i,
        {
            acc = math.sum(acc, f[i].max(Scalar::zero()));
            cdf.push(acc);
            i = i + 1;
        }
        let integral = acc;
        let ghost sums = cdf@;
        let spread = Scalar::zero().lt(integral);
        let mut k: usize = 0;
        while k < cdf.len()
            invariant
                k <= cdf.len(),
                cdf.len() == f.len() + 1,
                n == bins(f.len() as int),
                sums.len() == cdf.len(),
                spread == Scalar::zero().lt(integral),
                forall|rules: ArithRules, j: int|
                    #![trigger rules.describe(*math), sums[j]]
                    rules.describe(*math) && 0 <= j < sums.len() ==> sums[j] == rules.running(f@, j as nat),
                forall|j: int| k <= j < cdf.len() ==> cdf@[j] == sums[j],
                forall|rules: ArithRules, j: int|
                    #![trigger rules.describe(*math), cdf@[j]]
                    rules.describe(*math) && 0 <= j < k ==> cdf@[j] == (if spread {
                        rules.quotient(sums[j], integral)
                    } else {
                        rules.quotient(rules.of_count(j as usize), rules.of_count(n))
                    }),
            decreases cdf.len() - k,
        {
            let c = if spread {
                math.quotient(cdf[k], integral)
            } else {
                math.quotient(math.of_count(k), math.of_count(n))
            };
            cdf[k] = c;
            k = k + 1;
        }
        proof {
            assert forall|rules: ArithRules| #[trigger] rules.describe(*math) implies cdf@ == rules.cdf_of(f@)
                && integral == rules.integral_of(f@) by {
                assert(integral == rules.integral_of(f@));
                assert(cdf@ =~= rules.cdf_of(f@));
            }
        }
        Distribution1D { cdf, integral }
    }

    /// The integral of the input function (un-normalized total weight).
    pub fn integral(&self) -> (r: Scalar)
        ensures
            r == self.integral,
    {
        self.integral
    }

    /// Sample a continuous position in `[0,1)` from a uniform `u`.
    pub fn sample<M: Arith>(&self, math: &M, u: Scalar) -> (r: LineSample)
        requires
            self.has_bins(),
        ensures
            r.bin == bin_of(self.cdf@, u),
            r.bin < self.cdf@.len() - 1,
            forall|rules: ArithRules| #[trigger] rules.describe(*math) ==> r == rules.line_sample(self.cdf@, u),
    {
        let n: usize = self.cdf.len() - 1;
        let p: usize = find(&self.cdf, u);
        let bin: usize = if p == 0 {
            0
        } else if p - 1 < n {
            p - 1
        } else {
            n - 1
        };
        let c0 = self.cdf[bin];
        let dc = math.difference(self.cdf[bin + 1], c0);
        let frac = if Scalar::zero().lt(dc) {
            math.quotient(math.difference(u, c0), dc)
        } else {
            Scalar::zero()
        };
        LineSample {
            x: math.quotient(math.sum(math.of_count(bin), frac), math.of_count(n)),
            pdf: math.product(dc, math.of_count(n)),
            bin,
        }
    }

    /// Piecewise-constant density at a continuous position `x` in `[0,1)`.
    pub fn pdf<M: Arith>(&self, math: &M, x: Scalar) -> (r: Scalar)
        requires
            self.has_bins(),
        ensures
            forall|rules: ArithRules| #[trigger] rules.describe(*math) ==> r == rules.line_pdf(self.cdf@, x),
    {
        let n: usize = self.cdf.len() - 1;
        let count: usize = math.to_count(math.product(x, math.of_count(n)));
        let bin: usize = if count < n { count } else { n - 1 };
        math.product(math.difference(self.cdf[bin + 1], self.cdf[bin]), math.of_count(n))
    }
}

impl Distribution2D {
    /// Whether this is a grid of a width and a height.
    pub open spec fn is_grid(self, w: int, h: int) -> bool {
        &&& self.conditional@.len() == h
        &&& self.marginal.cdf@.len() == h + 1
        &&& forall|v: int| 0 <= v < h ==> (#[trigger] self.conditional@[v]).cdf@.len() == w + 1
    }

    /// A distribution over a grid of given weights, row by row.
    pub fn new<M: Arith>(math: &M, func: &Vec<Scalar>, w: usize, h: usize) -> (r: Distribution2D)
        requires
            w * h <= func.len(),
        ensures
            r.is_grid(w as int, h as int),
            forall|rules: ArithRules| #[trigger]
                rules.describe(*math) ==> {
                    let rows = rules.row_integrals(func@, w as int, h as int);
                    r.marginal.cdf@ == rules.cdf_of(rows) && r.marginal.integral == rules.integral_of(rows)
                },
            forall|rules: ArithRules, v: int|
                #![trigger rules.describe(*math), r.conditional@[v]]
                rules.describe(*math) && 0 <= v < h ==> {
                    let row = row_of(func@, w as int, v);
                    r.conditional@[v].cdf@ == rules.cdf_of(row) && r.conditional@[v].integral == rules.integral_of(row)
                },
    {
        let mut conditional: Vec<Distribution1D> = Vec::new();
        let mut row_integrals: Vec<Scalar> = Vec::new();
        let mut v: usize = 0;
        while v < h
            invariant
                v <= h,
                w * h <= func.len(),
                conditional.len() == v,
                row_integrals.len() == v,
                forall|j: int| 0 <= j < v ==> (#[trigger] conditional@[j]).cdf@.len() == w + 1,
                forall|rules: ArithRules, j: int|
                    #![trigger rules.describe(*math), conditional@[j]]
                    rules.describe(*math) && 0 <= j < v ==> {
                        let row = row_of(func@, w as int, j);
                        conditional@[j].cdf@ == rules.cdf_of(row) && conditional@[j].integral == rules.integral_of(row)
                    },
                forall|rules: ArithRules, j: int|
                    #![trigger rules.describe(*math), row_integrals@[j]]
                    rules.describe(*math) && 0 <= j < v ==> row_integrals@[j] == rules.integral_of(
                        row_of(func@, w as int, j),
                    ),
            decreases h - v,
        {
            assert((v + 1) * w <= w * h) by (nonlinear_arith)
                requires
                    v + 1 <= h,
            ;
            assert((v + 1) * w - v * w == w) by (nonlinear_arith);
            let row = slice_row(func, w, v);
            let d = Distribution1D::new(math, &row);
            row_integrals.push(d.integral());
            conditional.push(d);
            v = v + 1;
        }
        let marginal = Distribution1D::new(math, &row_integrals);
        proof {
            assert forall|rules: ArithRules| #[trigger] rules.describe(*math) implies ({
                let rows = rules.row_integrals(func@, w as int, h as int);
                marginal.cdf@ == rules.cdf_of(rows) && marginal.integral == rules.integral_of(rows)
            }) by {
                assert(row_integrals@ =~= rules.row_integrals(func@, w as int, h as int));
            }
        }
        Distribution2D { conditional, marginal }
    }

    /// Sample a position in the unit square from two uniforms.
    pub fn sample<M: Arith>(&self, math: &M, u1: Scalar, u2: Scalar) -> (r: SquareSample)
        requires
            exists|w: int, h: int| w > 0 && h > 0 && #[trigger] self.is_grid(w, h),
        ensures
            forall|rules: ArithRules| #[trigger] rules.describe(*math) ==> r == rules.square_sample(*self, u1, u2),
    {
        let row = self.marginal.sample(math, u1);
        let column = self.conditional[row.bin].sample(math, u2);
        SquareSample { u: column.x, v: row.x, pdf: math.product(row.pdf, column.pdf) }
    }

    /// Joint density at a position of the unit square.
    pub fn pdf<M: Arith>(&self, math: &M, u: Scalar, v: Scalar) -> (r: Scalar)
        requires
            exists|w: int, h: int| w > 0 && h > 0 && #[trigger] self.is_grid(w, h),
        ensures
            forall|rules: ArithRules| #[trigger] rules.describe(*math) ==> r == rules.square_pdf(*self, u, v),
    {
        let h: usize = self.conditional.len();
        let count: usize = math.to_count(math.product(v, math.of_count(h)));
        let row: usize = if count < h { count } else { h - 1 };
        math.product(self.marginal.pdf(math, v), self.conditional[row].pdf(math, u))
    }
}

/// The row `v` of a table of `w` columns.
fn slice_row(func: &Vec<Scalar>, w: usize, v: usize) -> (r: Vec<Scalar>)
    requires
        (v + 1) * w <= func.len(),
    ensures
        r@ == row_of(func@, w as int, v as int),
{
    assert((v + 1) * w == v * w + w) by (nonlinear_arith);
    let mut row: Vec<Scalar> = Vec::new();
    let mut i: usize = 0;
    while i < w
        invariant
            i <= w,
            v * w + w <= func.len(),
            row.len() == i,
            forall|j: int| 0 <= j < i ==> #[trigger] row@[j] == func@[v * w + j],
        decreases w - i,
    {
        row.push(func[v * w + i]);
        i = i + 1;
    }
    assert(row@ =~= row_of(func@, w as int, v as int));
    row
}

/// Whether a table splits at `k`: no entry before it is greater than `u`, and
/// all from it on are.
pub open spec fn splits_at(cdf: Seq<Scalar>, u: Scalar, k: int) -> bool {
    &&& 0 <= k <= cdf.len()
    &&& forall|i: int| 0 <= i < k ==> (#[trigger] cdf[i]).le(u)
    &&& forall|i: int| k <= i < cdf.len() ==> !(#[trigger] cdf[i]).le(u)
}

proof fn lemma_search(cdf: Seq<Scalar>, u: Scalar, k: int, lo: int, hi: int)
    requires
        splits_at(cdf, u, k),
        0 <= lo <= k <= hi <= cdf.len(),
    ensures
        search(cdf, u, lo, hi) == k,
    decreases hi - lo,
{
    if lo < hi {
        let mid = lo + (hi - lo) / 2;
        if cdf[mid].le(u) {
            lemma_search(cdf, u, k, mid + 1, hi);
        } else {
            lemma_search(cdf, u, k, lo, mid);
        }
    }
}

/// In a table that starts at or below `u` and splits, the bin of `u` is the last
/// whose left edge is not greater; beyond the table, the last bin.
pub proof fn law_bin_holds_the_number(cdf: Seq<Scalar>, u: Scalar, k: int)
    requires
        cdf.len() >= 2,
        cdf[0].le(u),
        splits_at(cdf, u, k),
    ensures
        cdf[bin_of(cdf, u)].le(u),
        bin_of(cdf, u) < cdf.len() - 2 ==> !cdf[bin_of(cdf, u) + 1].le(u),
{
    lemma_search(cdf, u, k, 0, cdf.len() as int);
}

/// Whether adding what is not negative does not make a number less, dividing by
/// a finite positive number keeps the order, and counts stay in order and finite.
pub open spec fn keeps_order(rules: ArithRules) -> bool {
    &&& forall|a: Scalar, b: Scalar|
        a.ordered() && Scalar::zero().le(b) && Scalar::zero().le(a) ==> a.le(#[trigger] rules.sum(a, b))
    &&& forall|a: Scalar, b: Scalar, c: Scalar|
        #![trigger rules.quotient(a, c), rules.quotient(b, c)]
        a.le(b) && Scalar::zero().lt(c) && c.is_finite() ==> rules.quotient(a, c).le(rules.quotient(b, c))
    &&& forall|a: usize, b: usize|
        #![trigger rules.of_count(a), rules.of_count(b)]
        a <= b ==> rules.of_count(a).le(rules.of_count(b))
    &&& forall|a: usize| 0 < a ==> Scalar::zero().lt(#[trigger] rules.of_count(a)) && rules.of_count(a).is_finite()
}

proof fn lemma_running_grows(rules: ArithRules, f: Seq<Scalar>, i: nat, j: nat)
    requires
        keeps_order(rules),
        i <= j <= f.len(),
    ensures
        Scalar::zero().le(rules.running(f, i)),
        rules.running(f, i).le(rules.running(f, j)),
    decreases j,
{
    if j > 0 {
        let w = f[j - 1].max(Scalar::zero());
        if i == j {
            lemma_running_grows(rules, f, (j - 1) as nat, (j - 1) as nat);
            assert(rules.running(f, (j - 1) as nat).le(rules.sum(rules.running(f, (j - 1) as nat), w)));
        } else {
            lemma_running_grows(rules, f, i, (j - 1) as nat);
            lemma_running_grows(rules, f, (j - 1) as nat, (j - 1) as nat);
            assert(rules.running(f, (j - 1) as nat).le(rules.sum(rules.running(f, (j - 1) as nat), w)));
        }
    }
}

/// Under arithmetic that keeps the order, the table of a distribution of finite
/// weight never goes down.
pub proof fn law_cdf_never_falls(rules: ArithRules, f: Seq<Scalar>, i: int, j: int)
    requires
        keeps_order(rules),
        f.len() < usize::MAX,
        rules.integral_of(f).is_finite(),
        0 <= i <= j <= f.len(),
    ensures
        rules.cdf_of(f)[i].le(rules.cdf_of(f)[j]),
{
    lemma_running_grows(rules, f, i as nat, j as nat);
    lemma_running_grows(rules, f, j as nat, f.len());
    let total = rules.integral_of(f);
    let n = bins(f.len() as int) as usize;
    if Scalar::zero().lt(total) {
        assert(rules.quotient(rules.running(f, i as nat), total).le(rules.quotient(rules.running(f, j as nat), total)));
    } else {
        assert(rules.of_count(i as usize).le(rules.of_count(j as usize)));
        assert(Scalar::zero().lt(rules.of_count(n)));
        assert(rules.quotient(rules.of_count(i as usize), rules.of_count(n)).le(
            rules.quotient(rules.of_count(j as usize), rules.of_count(n)),
        ));
    }
}

/// A table that never falls splits at every number.
proof fn lemma_splits(cdf: Seq<Scalar>, u: Scalar, n: nat) -> (k: int)
    requires
        n <= cdf.len(),
        u.ordered(),
        forall|i: int, j: int| 0 <= i <= j < cdf.len() ==> (#[trigger] cdf[i]).le(#[trigger] cdf[j]),
    ensures
        0 <= k <= n,
        forall|i: int| 0 <= i < k ==> (#[trigger] cdf[i]).le(u),
        forall|i: int| k <= i < n ==> !(#[trigger] cdf[i]).le(u),
    decreases n,
{
    if n == 0 {
        0
    } else {
        let k = lemma_splits(cdf, u, (n - 1) as nat);
        if cdf[n - 1].le(u) {
            if k < n - 1 {
                assert(cdf[k].le(cdf[n - 1]));
            }
            n as int
        } else {
            k
        }
    }
}

/// Whether a table never falls and is made of finite numbers from zero on.
pub open spec fn is_rising(cdf: Seq<Scalar>) -> bool {
    &&& cdf.len() >= 2
    &&& forall|i: int, j: int| 0 <= i <= j < cdf.len() ==> (#[trigger] cdf[i]).le(#[trigger] cdf[j])
    &&& forall|i: int| 0 <= i < cdf.len() ==> (#[trigger] cdf[i]).is_finite() && Scalar::zero().le(cdf[i])
}

/// The bin of a number below the end of a table has it between its edges.
proof fn lemma_between_edges(cdf: Seq<Scalar>, u: Scalar)
    requires
        is_rising(cdf),
        cdf[0].le(u),
        u.lt(cdf.last()),
    ensures
        0 <= bin_of(cdf, u) < cdf.len() - 1,
        cdf[bin_of(cdf, u)].le(u),
        u.lt(cdf[bin_of(cdf, u) + 1]),
{
    let k = lemma_splits(cdf, u, cdf.len());
    lemma_search(cdf, u, k, 0, cdf.len() as int);
    assert(!cdf[cdf.len() - 1].le(u));
    assert(cdf[bin_of(cdf, u) + 1].le(cdf[cdf.len() - 1]));
}

/// A bin without weight is never chosen, by any number below the end of the
/// table, wherever adding nothing changes nothing.
pub proof fn law_empty_bin_is_never_chosen(rules: ArithRules, f: Seq<Scalar>, u: Scalar)
    requires
        keeps_order(rules),
        forall|a: Scalar| Scalar::zero().le(a) ==> #[trigger] rules.sum(a, Scalar::zero()) == a,
        0 < f.len() < usize::MAX,
        is_rising(rules.cdf_of(f)),
        Scalar::zero().lt(rules.integral_of(f)),
        rules.cdf_of(f)[0].le(u),
        u.lt(rules.cdf_of(f).last()),
    ensures
        0 <= bin_of(rules.cdf_of(f), u) < f.len(),
        Scalar::zero().lt(f[bin_of(rules.cdf_of(f), u)]),
{
    let cdf = rules.cdf_of(f);
    lemma_between_edges(cdf, u);
    let b = bin_of(cdf, u);
    lemma_running_grows(rules, f, b as nat, b as nat);
    if !Scalar::zero().lt(f[b]) {
        assert(f[b].max(Scalar::zero()) == Scalar::zero());
        assert(rules.running(f, (b + 1) as nat) == rules.running(f, b as nat));
        assert(cdf[b + 1] == cdf[b]);
    }
}

/// Whether places come in order: what is further along is no less far from where
/// it is counted, an edge is at most one bin along, and a bin ends no later than
/// the next begins. Rounding to the nearest number keeps them so.
pub open spec fn keeps_places(rules: ArithRules) -> bool {
    &&& forall|a: Scalar, b: Scalar, c: Scalar|
        #![trigger rules.difference(a, c), rules.difference(b, c)]
        a.is_finite() && b.is_finite() && c.is_finite() && a.le(b) ==> rules.difference(a, c).le(
            rules.difference(b, c),
        )
    &&& forall|a: Scalar, b: Scalar|
        a.is_finite() && Scalar::zero().le(b) && b.le(a) ==> (#[trigger] rules.difference(a, b)).is_finite()
            && Scalar::zero().le(rules.difference(a, b))
    &&& forall|a: Scalar|
        a.is_finite() && Scalar::zero().lt(a) ==> #[trigger] rules.quotient(a, a) == Scalar::one() && rules.quotient(
            Scalar::zero(),
            a,
        ) == Scalar::zero()
    &&& forall|n: usize, a: Scalar, b: Scalar|
        #![trigger rules.sum(rules.of_count(n), a), rules.sum(rules.of_count(n), b)]
        a.le(b) ==> rules.sum(rules.of_count(n), a).le(rules.sum(rules.of_count(n), b))
    &&& forall|n: usize| #[trigger] rules.sum(rules.of_count(n), Scalar::zero()) == rules.of_count(n)
    &&& forall|n: usize|
        n < usize::MAX ==> (#[trigger] rules.sum(rules.of_count(n), Scalar::one())).le(rules.of_count((n + 1) as usize))
}

/// How far along a bin a number lies.
spec fn along(rules: ArithRules, cdf: Seq<Scalar>, bin: int, u: Scalar) -> Scalar {
    let dc = rules.difference(cdf[bin + 1], cdf[bin]);
    if Scalar::zero().lt(dc) {
        rules.quotient(rules.difference(u, cdf[bin]), dc)
    } else {
        Scalar::zero()
    }
}

proof fn lemma_along(rules: ArithRules, cdf: Seq<Scalar>, bin: int, u: Scalar, v: Scalar)
    requires
        keeps_order(rules),
        keeps_places(rules),
        is_rising(cdf),
        0 <= bin < cdf.len() - 1,
        cdf[bin].le(u),
        u.le(v),
        v.lt(cdf[bin + 1]),
    ensures
        Scalar::zero().le(along(rules, cdf, bin, u)),
        along(rules, cdf, bin, u).le(along(rules, cdf, bin, v)),
        along(rules, cdf, bin, v).le(Scalar::one()),
{
    let c = cdf[bin];
    let d = cdf[bin + 1];
    let dc = rules.difference(d, c);
    assert(c.is_finite() && d.is_finite() && Scalar::zero().le(c));
    assert(dc.is_finite());
    let x = rules.difference(u, c);
    let y = rules.difference(v, c);
    assert(Scalar::zero().le(x));
    assert(x.le(y));
    assert(y.le(dc));
    if Scalar::zero().lt(dc) {
        assert(rules.quotient(dc, dc) == Scalar::one());
        assert(rules.quotient(Scalar::zero(), dc).le(rules.quotient(x, dc)));
        assert(rules.quotient(x, dc).le(rules.quotient(y, dc)));
        assert(rules.quotient(y, dc).le(rules.quotient(dc, dc)));
    }
}

/// The position that a number picks never falls as the number grows, for numbers
/// below the end of the table.
pub proof fn law_position_never_falls(rules: ArithRules, cdf: Seq<Scalar>, u: Scalar, v: Scalar)
    requires
        keeps_order(rules),
        keeps_places(rules),
        is_rising(cdf),
        cdf.len() <= usize::MAX,
        cdf[0].le(u),
        u.le(v),
        v.lt(cdf.last()),
    ensures
        rules.line_sample(cdf, u).bin <= rules.line_sample(cdf, v).bin,
        rules.line_sample(cdf, u).x.le(rules.line_sample(cdf, v).x),
{
    lemma_between_edges(cdf, u);
    lemma_between_edges(cdf, v);
    let a = bin_of(cdf, u);
    let b = bin_of(cdf, v);
    if b < a {
        assert(cdf[b + 1].le(cdf[a]));
    }
    let n = (cdf.len() - 1) as usize;
    let p = along(rules, cdf, a, u);
    let q = along(rules, cdf, b, v);
    let left = rules.sum(rules.of_count(a as usize), p);
    let right = rules.sum(rules.of_count(b as usize), q);
    lemma_along(rules, cdf, a, u, u);
    lemma_along(rules, cdf, b, v, v);
    if a == b {
        lemma_along(rules, cdf, a, u, v);
        assert(left.le(right));
    } else {
        let end = rules.sum(rules.of_count(a as usize), Scalar::one());
        assert(left.le(end));
        assert(end.le(rules.of_count((a + 1) as usize)));
        assert(rules.of_count((a + 1) as usize).le(rules.of_count(b as usize)));
        assert(rules.sum(rules.of_count(b as usize), Scalar::zero()).le(right));
        assert(left.le(right));
    }
    assert(rules.quotient(left, rules.of_count(n)).le(rules.quotient(right, rules.of_count(n))));
}

/// A table of running sums starts at nothing and ends at one, and the step of a bin,
/// times the sum of all weights, is between the running sums around it: it grows with
/// the weight of the bin alone.
pub proof fn law_table_runs_from_nothing_to_one(rules: ArithRules, f: Seq<Scalar>, i: int)
    requires
        rules.keeps_zeros(),
        rules.keeps_selves(),
        0 <= i < f.len(),
        Scalar::zero().lt(rules.integral_of(f)),
        rules.integral_of(f).is_finite(),
        rules.product(rules.quotient(rules.running(f, i as nat), rules.integral_of(f)), rules.integral_of(f))
            == rules.running(f, i as nat),
        rules.product(rules.quotient(rules.running(f, (i + 1) as nat), rules.integral_of(f)), rules.integral_of(f))
            == rules.running(f, (i + 1) as nat),
    ensures
        rules.cdf_of(f)[0] == Scalar::zero(),
        rules.cdf_of(f).last() == Scalar::one(),
        rules.product(rules.cdf_of(f)[i + 1], rules.integral_of(f)) == rules.sum(
            rules.product(rules.cdf_of(f)[i], rules.integral_of(f)),
            f[i].max(Scalar::zero()),
        ),
{
}

/// Without any weight, all bins are alike: the table steps by one part of their
/// number at each.
pub proof fn law_no_weight_is_even(rules: ArithRules, f: Seq<Scalar>, i: int)
    requires
        0 <= i <= f.len(),
        f.len() > 0,
        !Scalar::zero().lt(rules.integral_of(f)),
        rules.product(
            rules.quotient(rules.of_count(i as usize), rules.of_count(f.len() as usize)),
            rules.of_count(f.len() as usize),
        ) == rules.of_count(i as usize),
    ensures
        rules.product(rules.cdf_of(f)[i], rules.of_count(f.len() as usize)) == rules.of_count(i as usize),
{
}

/// A sample lies in its bin as far along as the number drawn lies between the edges of
/// the bin, and its density is the height of the bin: the step of the table times the
/// number of bins.
pub proof fn law_sample_lies_along_its_bin(rules: ArithRules, cdf: Seq<Scalar>, u: Scalar)
    requires
        2 <= cdf.len() <= usize::MAX,
        0 <= bin_of(cdf, u) < cdf.len() - 1,
        rules.keeps_zeros(),
        rules.keeps_selves(),
        ({
            let bin = bin_of(cdf, u);
            let step = rules.difference(cdf[bin + 1], cdf[bin]);
            let n = rules.of_count((cdf.len() - 1) as usize);
            let at = rules.sum(rules.of_count(bin as usize), rules.quotient(rules.difference(u, cdf[bin]), step));
            &&& Scalar::zero().lt(step) && step.is_finite()
            &&& cdf[bin].is_finite() && cdf[bin + 1].is_finite()
            &&& rules.of_count(bin as usize).is_finite()
            &&& rules.product(rules.quotient(at, n), n) == at
        }),
    ensures
        ({
            let bin = bin_of(cdf, u);
            let step = rules.difference(cdf[bin + 1], cdf[bin]);
            let n = rules.of_count((cdf.len() - 1) as usize);
            let s = rules.line_sample(cdf, u);
            &&& s.bin == bin
            &&& s.pdf == rules.product(step, n)
            &&& u == cdf[bin] ==> rules.product(s.x, n) == rules.of_count(bin as usize)
            &&& u == cdf[bin + 1] ==> rules.product(s.x, n) == rules.sum(rules.of_count(bin as usize), Scalar::one())
        }),
{
}

/// A position has the density that a sample there was drawn with: that of the bin it
/// lies in.
pub proof fn law_density_is_that_of_the_sample(rules: ArithRules, cdf: Seq<Scalar>, u: Scalar)
    requires
        2 <= cdf.len() <= usize::MAX,
        0 <= bin_of(cdf, u) < cdf.len() - 1,
        rules.to_count(
            rules.product(rules.line_sample(cdf, u).x, rules.of_count((cdf.len() - 1) as usize)),
        ) == bin_of(cdf, u),
    ensures
        rules.line_pdf(cdf, rules.line_sample(cdf, u).x) == rules.line_sample(cdf, u).pdf,
{
}

/// On a grid the first number picks the row and the second the column within it; the
/// density is the product of both, and a position has the density that a sample
/// there was drawn with.
pub proof fn law_grid_is_sampled_row_then_column(rules: ArithRules, d: Distribution2D, w: int, h: int, u1: Scalar, u2: Scalar)
    requires
        d.is_grid(w, h),
        0 < h < usize::MAX,
        0 < w < usize::MAX,
        0 <= bin_of(d.marginal.cdf@, u1) < h,
        ({
            let row = rules.line_sample(d.marginal.cdf@, u1);
            let cdf = d.conditional@[row.bin as int].cdf@;
            let column = rules.line_sample(cdf, u2);
            &&& cdf.len() == w + 1
            &&& 0 <= bin_of(cdf, u2) < w
            &&& rules.to_count(rules.product(row.x, rules.of_count(h as usize))) == row.bin
            &&& rules.to_count(rules.product(column.x, rules.of_count(w as usize))) == column.bin
        }),
    ensures
        ({
            let s = rules.square_sample(d, u1, u2);
            let row = rules.line_sample(d.marginal.cdf@, u1);
            let column = rules.line_sample(d.conditional@[row.bin as int].cdf@, u2);
            &&& s.v == row.x
            &&& s.u == column.x
            &&& s.pdf == rules.product(row.pdf, column.pdf)
            &&& rules.square_pdf(d, s.u, s.v) == s.pdf
        }),
{
    let row = rules.line_sample(d.marginal.cdf@, u1);
    law_density_is_that_of_the_sample(rules, d.marginal.cdf@, u1);
    law_density_is_that_of_the_sample(rules, d.conditional@[row.bin as int].cdf@, u2);
}

} // verus!

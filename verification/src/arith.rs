//! Arithmetic on single-precision numbers, and on points made of them.
//!
//! Rounded arithmetic is left to the caller, who brings an [`Arith`]. Formulas
//! are stated for every [`ArithRules`] that describes the implementation.
use vstd::prelude::*;
use crate::scalar::{Point3, Scalar};

verus! {

/// Arithmetic on single-precision numbers.
///
/// No contract is asked of an implementation. What is computed with one is
/// stated for every [`ArithRules`] that describes it.
pub trait Arith {
    /// The sum of two numbers.
    fn sum(&self, a: Scalar, b: Scalar) -> Scalar;

    /// One number less another.
    fn difference(&self, a: Scalar, b: Scalar) -> Scalar;

    /// The product of two numbers.
    fn product(&self, a: Scalar, b: Scalar) -> Scalar;

    /// One number over another.
    fn quotient(&self, a: Scalar, b: Scalar) -> Scalar;

    /// The product of two numbers plus a third, rounded once.
    fn fused(&self, a: Scalar, b: Scalar, c: Scalar) -> Scalar;

    /// The square root.
    fn root(&self, a: Scalar) -> Scalar;

    /// The sine of an angle in radians.
    fn sine(&self, a: Scalar) -> Scalar;

    /// The cosine of an angle in radians.
    fn cosine(&self, a: Scalar) -> Scalar;

    /// The tangent of an angle in radians.
    fn slope(&self, a: Scalar) -> Scalar;

    /// The angle whose cosine is given.
    fn arc_cosine(&self, a: Scalar) -> Scalar;

    /// The angle of the point with the given ordinate and abscissa.
    fn arc_tangent(&self, y: Scalar, x: Scalar) -> Scalar;

    /// A number raised to a power.
    fn power(&self, a: Scalar, b: Scalar) -> Scalar;

    /// A number raised to a whole power.
    fn whole_power(&self, a: Scalar, n: i32) -> Scalar;

    /// The least nonnegative remainder of a division.
    fn wrapped(&self, a: Scalar, b: Scalar) -> Scalar;

    /// The greatest whole number that is not greater.
    fn floor(&self, a: Scalar) -> Scalar;

    /// The natural exponential.
    fn exponential(&self, a: Scalar) -> Scalar;

    /// The natural logarithm.
    fn logarithm(&self, a: Scalar) -> Scalar;

    /// The number nearest to a count.
    fn of_count(&self, n: usize) -> Scalar;

    /// The whole part, as a count: 0 below zero, the greatest count beyond it.
    fn to_count(&self, a: Scalar) -> usize;

    /// The number nearest to an index.
    fn of_index(&self, n: i32) -> Scalar;

    /// The whole part, as an index: the nearest one if out of range.
    fn to_index(&self, a: Scalar) -> i32;

    /// The whole part, as a coordinate: 0 below zero, the greatest one beyond it.
    fn to_natural(&self, a: Scalar) -> u32;

    /// The scalar product of two lists of the same length.
    fn inner(&self, a: &Vec<Scalar>, b: &Vec<Scalar>) -> Scalar;
}

/// Functions that an implementation of [`Arith`] may compute.
pub struct ArithRules {
    pub sum: spec_fn(Scalar, Scalar) -> Scalar,
    pub difference: spec_fn(Scalar, Scalar) -> Scalar,
    pub product: spec_fn(Scalar, Scalar) -> Scalar,
    pub quotient: spec_fn(Scalar, Scalar) -> Scalar,
    pub fused: spec_fn(Scalar, Scalar, Scalar) -> Scalar,
    pub root: spec_fn(Scalar) -> Scalar,
    pub sine: spec_fn(Scalar) -> Scalar,
    pub cosine: spec_fn(Scalar) -> Scalar,
    pub slope: spec_fn(Scalar) -> Scalar,
    pub arc_cosine: spec_fn(Scalar) -> Scalar,
    pub arc_tangent: spec_fn(Scalar, Scalar) -> Scalar,
    pub power: spec_fn(Scalar, Scalar) -> Scalar,
    pub whole_power: spec_fn(Scalar, i32) -> Scalar,
    pub wrapped: spec_fn(Scalar, Scalar) -> Scalar,
    pub floor: spec_fn(Scalar) -> Scalar,
    pub exponential: spec_fn(Scalar) -> Scalar,
    pub logarithm: spec_fn(Scalar) -> Scalar,
    pub of_count: spec_fn(usize) -> Scalar,
    pub to_count: spec_fn(Scalar) -> usize,
    pub of_index: spec_fn(i32) -> Scalar,
    pub to_index: spec_fn(Scalar) -> i32,
    pub to_natural: spec_fn(Scalar) -> u32,
    pub inner: spec_fn(Seq<Scalar>, Seq<Scalar>) -> Scalar,
}

impl ArithRules {
    /// Whether an implementation computes these functions.
    pub open spec fn describe<M: Arith>(self, m: M) -> bool {
        &&& forall|a: Scalar, b: Scalar, r: Scalar|
            #[trigger] call_ensures(M::sum, (&m, a, b), r) ==> r == (self.sum)(a, b)
        &&& forall|a: Scalar, b: Scalar, r: Scalar|
            #[trigger] call_ensures(M::difference, (&m, a, b), r) ==> r == (self.difference)(a, b)
        &&& forall|a: Scalar, b: Scalar, r: Scalar|
            #[trigger] call_ensures(M::product, (&m, a, b), r) ==> r == (self.product)(a, b)
        &&& forall|a: Scalar, b: Scalar, r: Scalar|
            #[trigger] call_ensures(M::quotient, (&m, a, b), r) ==> r == (self.quotient)(a, b)
        &&& forall|a: Scalar, b: Scalar, c: Scalar, r: Scalar|
            #[trigger] call_ensures(M::fused, (&m, a, b, c), r) ==> r == (self.fused)(a, b, c)
        &&& forall|a: Scalar, r: Scalar|
            #[trigger] call_ensures(M::root, (&m, a), r) ==> r == (self.root)(a)
        &&& forall|a: Scalar, r: Scalar|
            #[trigger] call_ensures(M::sine, (&m, a), r) ==> r == (self.sine)(a)
        &&& forall|a: Scalar, r: Scalar|
            #[trigger] call_ensures(M::cosine, (&m, a), r) ==> r == (self.cosine)(a)
        &&& forall|a: Scalar, r: Scalar|
            #[trigger] call_ensures(M::slope, (&m, a), r) ==> r == (self.slope)(a)
        &&& forall|a: Scalar, r: Scalar|
            #[trigger] call_ensures(M::arc_cosine, (&m, a), r) ==> r == (self.arc_cosine)(a)
        &&& forall|y: Scalar, x: Scalar, r: Scalar|
            #[trigger] call_ensures(M::arc_tangent, (&m, y, x), r) ==> r == (self.arc_tangent)(y, x)
        &&& forall|a: Scalar, b: Scalar, r: Scalar|
            #[trigger] call_ensures(M::power, (&m, a, b), r) ==> r == (self.power)(a, b)
        &&& forall|a: Scalar, n: i32, r: Scalar|
            #[trigger] call_ensures(M::whole_power, (&m, a, n), r) ==> r == (self.whole_power)(a, n)
        &&& forall|a: Scalar, b: Scalar, r: Scalar|
            #[trigger] call_ensures(M::wrapped, (&m, a, b), r) ==> r == (self.wrapped)(a, b)
        &&& forall|a: Scalar, r: Scalar|
            #[trigger] call_ensures(M::floor, (&m, a), r) ==> r == (self.floor)(a)
        &&& forall|a: Scalar, r: Scalar|
            #[trigger] call_ensures(M::exponential, (&m, a), r) ==> r == (self.exponential)(a)
        &&& forall|a: Scalar, r: Scalar|
            #[trigger] call_ensures(M::logarithm, (&m, a), r) ==> r == (self.logarithm)(a)
        &&& forall|n: usize, r: Scalar|
            #[trigger] call_ensures(M::of_count, (&m, n), r) ==> r == (self.of_count)(n)
        &&& forall|a: Scalar, r: usize|
            #[trigger] call_ensures(M::to_count, (&m, a), r) ==> r == (self.to_count)(a)
        &&& forall|n: i32, r: Scalar|
            #[trigger] call_ensures(M::of_index, (&m, n), r) ==> r == (self.of_index)(n)
        &&& forall|a: Scalar, r: i32|
            #[trigger] call_ensures(M::to_index, (&m, a), r) ==> r == (self.to_index)(a)
        &&& forall|a: Scalar, r: u32|
            #[trigger] call_ensures(M::to_natural, (&m, a), r) ==> r == (self.to_natural)(a)
        &&& forall|a: Vec<Scalar>, b: Vec<Scalar>, r: Scalar|
            #[trigger] call_ensures(M::inner, (&m, &a, &b), r) ==> r == (self.inner)(a@, b@)
    }
}

impl ArithRules {
    /// The sum of two numbers.
    pub open spec fn sum(self, a: Scalar, b: Scalar) -> Scalar {
        (self.sum)(a, b)
    }

    /// One number less another.
    pub open spec fn difference(self, a: Scalar, b: Scalar) -> Scalar {
        (self.difference)(a, b)
    }

    /// The product of two numbers.
    pub open spec fn product(self, a: Scalar, b: Scalar) -> Scalar {
        (self.product)(a, b)
    }

    /// One number over another.
    pub open spec fn quotient(self, a: Scalar, b: Scalar) -> Scalar {
        (self.quotient)(a, b)
    }

    /// The product of two numbers plus a third, rounded once.
    pub open spec fn fused(self, a: Scalar, b: Scalar, c: Scalar) -> Scalar {
        (self.fused)(a, b, c)
    }

    /// The square root.
    pub open spec fn root(self, a: Scalar) -> Scalar {
        (self.root)(a)
    }

    /// The sine of an angle in radians.
    pub open spec fn sine(self, a: Scalar) -> Scalar {
        (self.sine)(a)
    }

    /// The cosine of an angle in radians.
    pub open spec fn cosine(self, a: Scalar) -> Scalar {
        (self.cosine)(a)
    }

    /// The tangent of an angle in radians.
    pub open spec fn slope(self, a: Scalar) -> Scalar {
        (self.slope)(a)
    }

    /// The angle whose cosine is given.
    pub open spec fn arc_cosine(self, a: Scalar) -> Scalar {
        (self.arc_cosine)(a)
    }

    /// The angle of the point with the given ordinate and abscissa.
    pub open spec fn arc_tangent(self, y: Scalar, x: Scalar) -> Scalar {
        (self.arc_tangent)(y, x)
    }

    /// A number raised to a power.
    pub open spec fn power(self, a: Scalar, b: Scalar) -> Scalar {
        (self.power)(a, b)
    }

    /// A number raised to a whole power.
    pub open spec fn whole_power(self, a: Scalar, n: i32) -> Scalar {
        (self.whole_power)(a, n)
    }

    /// The least nonnegative remainder of a division.
    pub open spec fn wrapped(self, a: Scalar, b: Scalar) -> Scalar {
        (self.wrapped)(a, b)
    }

    /// The greatest whole number that is not greater.
    pub open spec fn floor(self, a: Scalar) -> Scalar {
        (self.floor)(a)
    }

    /// The natural exponential.
    pub open spec fn exponential(self, a: Scalar) -> Scalar {
        (self.exponential)(a)
    }

    /// The natural logarithm.
    pub open spec fn logarithm(self, a: Scalar) -> Scalar {
        (self.logarithm)(a)
    }

    /// The number nearest to a count.
    pub open spec fn of_count(self, n: usize) -> Scalar {
        (self.of_count)(n)
    }

    /// The whole part, as a count: 0 below zero, the greatest count beyond it.
    pub open spec fn to_count(self, a: Scalar) -> usize {
        (self.to_count)(a)
    }

    /// The number nearest to an index.
    pub open spec fn of_index(self, n: i32) -> Scalar {
        (self.of_index)(n)
    }

    /// The whole part, as an index: the nearest one if out of range.
    pub open spec fn to_index(self, a: Scalar) -> i32 {
        (self.to_index)(a)
    }

    /// The whole part, as a coordinate: 0 below zero, the greatest one beyond it.
    pub open spec fn to_natural(self, a: Scalar) -> u32 {
        (self.to_natural)(a)
    }

    /// The scalar product of two lists of the same length.
    pub open spec fn inner(self, a: Seq<Scalar>, b: Seq<Scalar>) -> Scalar {
        (self.inner)(a, b)
    }

    /// The sum of two vectors.
    pub open spec fn plus(self, p: Point3, q: Point3) -> Point3 {
        Point3 { x: self.sum(p.x, q.x), y: self.sum(p.y, q.y), z: self.sum(p.z, q.z) }
    }

    /// One vector less another.
    pub open spec fn minus(self, p: Point3, q: Point3) -> Point3 {
        Point3 { x: self.difference(p.x, q.x), y: self.difference(p.y, q.y), z: self.difference(p.z, q.z) }
    }

    /// The product of two vectors, coordinate by coordinate.
    pub open spec fn times(self, p: Point3, q: Point3) -> Point3 {
        Point3 { x: self.product(p.x, q.x), y: self.product(p.y, q.y), z: self.product(p.z, q.z) }
    }

    /// A vector, stretched.
    pub open spec fn scaled(self, p: Point3, s: Scalar) -> Point3 {
        Point3 { x: self.product(p.x, s), y: self.product(p.y, s), z: self.product(p.z, s) }
    }

    /// A vector, shrunk.
    pub open spec fn shrunk(self, p: Point3, s: Scalar) -> Point3 {
        Point3 { x: self.quotient(p.x, s), y: self.quotient(p.y, s), z: self.quotient(p.z, s) }
    }

    /// The scalar product.
    pub open spec fn dot(self, p: Point3, q: Point3) -> Scalar {
        self.sum(self.sum(self.product(p.x, q.x), self.product(p.y, q.y)), self.product(p.z, q.z))
    }

    /// The vector product.
    pub open spec fn cross(self, p: Point3, q: Point3) -> Point3 {
        Point3 {
            x: self.difference(self.product(p.y, q.z), self.product(p.z, q.y)),
            y: self.difference(self.product(p.z, q.x), self.product(p.x, q.z)),
            z: self.difference(self.product(p.x, q.y), self.product(p.y, q.x)),
        }
    }

    /// The length of a vector.
    pub open spec fn norm(self, p: Point3) -> Scalar {
        self.root(self.dot(p, p))
    }

    /// A vector, made unit length.
    pub open spec fn unit(self, p: Point3) -> Point3 {
        self.shrunk(p, self.norm(p))
    }

    /// Three vectors, each weighted and then added.
    pub open spec fn blend(self, a: Point3, wa: Scalar, b: Point3, wb: Scalar, c: Point3, wc: Scalar) -> Point3 {
        self.plus(self.plus(self.scaled(a, wa), self.scaled(b, wb)), self.scaled(c, wc))
    }

    /// The vector that lies part of the way from one to another.
    pub open spec fn between(self, p: Point3, q: Point3, t: Scalar) -> Point3 {
        self.plus(self.scaled(p, self.difference(Scalar::one(), t)), self.scaled(q, t))
    }
}

/// The sum of two vectors.
pub fn plus<M: Arith>(math: &M, p: Point3, q: Point3) -> (r: Point3)
    ensures
        forall|rules: ArithRules| #[trigger] rules.describe(*math) ==> r == rules.plus(p, q),
{
    Point3 { x: math.sum(p.x, q.x), y: math.sum(p.y, q.y), z: math.sum(p.z, q.z) }
}

/// One vector less another.
pub fn minus<M: Arith>(math: &M, p: Point3, q: Point3) -> (r: Point3)
    ensures
        forall|rules: ArithRules| #[trigger] rules.describe(*math) ==> r == rules.minus(p, q),
{
    Point3 { x: math.difference(p.x, q.x), y: math.difference(p.y, q.y), z: math.difference(p.z, q.z) }
}

/// The product of two vectors, coordinate by coordinate.
pub fn times<M: Arith>(math: &M, p: Point3, q: Point3) -> (r: Point3)
    ensures
        forall|rules: ArithRules| #[trigger] rules.describe(*math) ==> r == rules.times(p, q),
{
    Point3 { x: math.product(p.x, q.x), y: math.product(p.y, q.y), z: math.product(p.z, q.z) }
}

/// A vector, stretched.
pub fn scaled<M: Arith>(math: &M, p: Point3, s: Scalar) -> (r: Point3)
    ensures
        forall|rules: ArithRules| #[trigger] rules.describe(*math) ==> r == rules.scaled(p, s),
{
    Point3 { x: math.product(p.x, s), y: math.product(p.y, s), z: math.product(p.z, s) }
}

/// A vector, shrunk.
pub fn shrunk<M: Arith>(math: &M, p: Point3, s: Scalar) -> (r: Point3)
    ensures
        forall|rules: ArithRules| #[trigger] rules.describe(*math) ==> r == rules.shrunk(p, s),
{
    Point3 { x: math.quotient(p.x, s), y: math.quotient(p.y, s), z: math.quotient(p.z, s) }
}

/// The scalar product.
pub fn dot<M: Arith>(math: &M, p: Point3, q: Point3) -> (r: Scalar)
    ensures
        forall|rules: ArithRules| #[trigger] rules.describe(*math) ==> r == rules.dot(p, q),
{
    math.sum(math.sum(math.product(p.x, q.x), math.product(p.y, q.y)), math.product(p.z, q.z))
}

/// The vector product.
pub fn cross<M: Arith>(math: &M, p: Point3, q: Point3) -> (r: Point3)
    ensures
        forall|rules: ArithRules| #[trigger] rules.describe(*math) ==> r == rules.cross(p, q),
{
    Point3 {
        x: math.difference(math.product(p.y, q.z), math.product(p.z, q.y)),
        y: math.difference(math.product(p.z, q.x), math.product(p.x, q.z)),
        z: math.difference(math.product(p.x, q.y), math.product(p.y, q.x)),
    }
}

/// The length of a vector.
pub fn norm<M: Arith>(math: &M, p: Point3) -> (r: Scalar)
    ensures
        forall|rules: ArithRules| #[trigger] rules.describe(*math) ==> r == rules.norm(p),
{
    math.root(dot(math, p, p))
}

/// A vector, made unit length.
pub fn unit<M: Arith>(math: &M, p: Point3) -> (r: Point3)
    ensures
        forall|rules: ArithRules| #[trigger] rules.describe(*math) ==> r == rules.unit(p),
{
    shrunk(math, p, norm(math, p))
}

/// Three vectors, each weighted and then added.
pub fn blend<M: Arith>(math: &M, a: Point3, wa: Scalar, b: Point3, wb: Scalar, c: Point3, wc: Scalar) -> (r: Point3)
    ensures
        forall|rules: ArithRules| #[trigger] rules.describe(*math) ==> r == rules.blend(a, wa, b, wb, c, wc),
{
    plus(math, plus(math, scaled(math, a, wa), scaled(math, b, wb)), scaled(math, c, wc))
}

/// The vector that lies part of the way from one to another.
pub fn between<M: Arith>(math: &M, p: Point3, q: Point3, t: Scalar) -> (r: Point3)
    ensures
        forall|rules: ArithRules| #[trigger] rules.describe(*math) ==> r == rules.between(p, q, t),
{
    plus(math, scaled(math, p, math.difference(Scalar::one(), t)), scaled(math, q, t))
}

impl ArithRules {
    /// Whether one changes nothing as a factor or a divisor. Rounding to the nearest
    /// number does so.
    pub open spec fn keeps_ones(self) -> bool {
        &&& forall|x: Scalar| x.ordered() ==> #[trigger] self.product(x, Scalar::one()) == x
        &&& forall|x: Scalar| x.ordered() ==> #[trigger] self.product(Scalar::one(), x) == x
        &&& forall|x: Scalar| x.ordered() ==> #[trigger] self.quotient(x, Scalar::one()) == x
    }

    /// Whether zero adds nothing, takes nothing away and leaves nothing as a factor.
    /// Rounding to the nearest number does so.
    pub open spec fn keeps_zeros(self) -> bool {
        &&& forall|x: Scalar| x.ordered() ==> #[trigger] self.sum(x, Scalar::zero()) == x
        &&& forall|x: Scalar| x.ordered() ==> #[trigger] self.sum(Scalar::zero(), x) == x
        &&& forall|x: Scalar| x.ordered() ==> #[trigger] self.difference(x, Scalar::zero()) == x
        &&& forall|x: Scalar| x.is_finite() ==> #[trigger] self.product(x, Scalar::zero()) == Scalar::zero()
        &&& forall|x: Scalar| x.is_finite() ==> #[trigger] self.product(Scalar::zero(), x) == Scalar::zero()
        &&& forall|x: Scalar|
            x.ordered() && !x.is_zero() ==> #[trigger] self.quotient(Scalar::zero(), x) == Scalar::zero()
    }

    /// Whether nothing is left of a number less itself, and a number goes into itself
    /// once. Rounding to the nearest number does so.
    pub open spec fn keeps_selves(self) -> bool {
        &&& forall|x: Scalar| x.is_finite() ==> #[trigger] self.difference(x, x) == Scalar::zero()
        &&& forall|x: Scalar| x.is_finite() && !x.is_zero() ==> #[trigger] self.quotient(x, x) == Scalar::one()
    }

    /// Whether the order of what is added or multiplied does not matter. Rounding to
    /// the nearest number does so.
    pub open spec fn commutes(self) -> bool {
        &&& forall|a: Scalar, b: Scalar|
            a.is_finite() && b.is_finite() ==> #[trigger] self.sum(a, b) == self.sum(b, a)
        &&& forall|a: Scalar, b: Scalar|
            a.is_finite() && b.is_finite() ==> #[trigger] self.product(a, b) == self.product(b, a)
    }

    /// Whether results turn their sign with what they are made of. Rounding to the
    /// nearest number does so.
    pub open spec fn keeps_signs(self) -> bool {
        &&& forall|a: Scalar, b: Scalar|
            a.is_finite() && b.is_finite() ==> #[trigger] self.product(a.negated(), b) == self.product(a, b).negated()
        &&& forall|a: Scalar, b: Scalar|
            a.is_finite() && b.is_finite() ==> #[trigger] self.quotient(a.negated(), b) == self.quotient(a, b).negated()
        &&& forall|a: Scalar, b: Scalar|
            a.is_finite() && b.is_finite() ==> #[trigger] self.sum(a.negated(), b.negated()) == self.sum(a, b).negated()
        &&& forall|a: Scalar, b: Scalar|
            a.is_finite() && b.is_finite() ==> #[trigger] self.difference(a, b) == self.difference(b, a).negated()
    }

    /// Whether sums and differences grow with what is added, and differences fall
    /// with what is taken away. Rounding to the nearest number does so.
    pub open spec fn orders_sums(self) -> bool {
        &&& forall|a: Scalar, b: Scalar, c: Scalar|
            #![trigger self.sum(a, c), self.sum(b, c)]
            a.is_finite() && b.is_finite() && c.is_finite() && a.le(b) ==> self.sum(a, c).le(self.sum(b, c))
        &&& forall|a: Scalar, b: Scalar, c: Scalar|
            #![trigger self.sum(c, a), self.sum(c, b)]
            a.is_finite() && b.is_finite() && c.is_finite() && a.le(b) ==> self.sum(c, a).le(self.sum(c, b))
        &&& forall|a: Scalar, b: Scalar, c: Scalar|
            #![trigger self.difference(a, c), self.difference(b, c)]
            a.is_finite() && b.is_finite() && c.is_finite() && a.le(b) ==> self.difference(a, c).le(
                self.difference(b, c),
            )
        &&& forall|a: Scalar, b: Scalar, c: Scalar|
            #![trigger self.difference(c, a), self.difference(c, b)]
            a.is_finite() && b.is_finite() && c.is_finite() && a.le(b) ==> self.difference(c, b).le(
                self.difference(c, a),
            )
    }

    /// Whether products by what is not negative and quotients by what is positive
    /// keep the order. Rounding to the nearest number does so.
    pub open spec fn orders_products(self) -> bool {
        &&& forall|a: Scalar, b: Scalar, c: Scalar|
            #![trigger self.product(a, c), self.product(b, c)]
            a.is_finite() && b.is_finite() && c.is_finite() && a.le(b) && Scalar::zero().le(c) ==> self.product(a, c).le(
                self.product(b, c),
            )
        &&& forall|a: Scalar, b: Scalar, c: Scalar|
            #![trigger self.product(c, a), self.product(c, b)]
            a.is_finite() && b.is_finite() && c.is_finite() && a.le(b) && Scalar::zero().le(c) ==> self.product(c, a).le(
                self.product(c, b),
            )
        &&& forall|a: Scalar, b: Scalar, c: Scalar|
            #![trigger self.quotient(a, c), self.quotient(b, c)]
            a.is_finite() && b.is_finite() && c.is_finite() && a.le(b) && Scalar::zero().lt(c) ==> self.quotient(a, c).le(
                self.quotient(b, c),
            )
    }

    /// Whether taking a part `p / d` of a number can be undone: `d` times the part
    /// is `p` times the number.
    pub open spec fn undoes_part(self, x: Scalar, p: Scalar, d: Scalar) -> bool {
        self.product(self.product(x, self.quotient(p, d)), d) == self.product(x, p)
    }

    /// Whether taking a part `p / d` of a vector can be undone.
    pub open spec fn undoes_parts(self, v: Point3, p: Scalar, d: Scalar) -> bool {
        self.undoes_part(v.x, p, d) && self.undoes_part(v.y, p, d) && self.undoes_part(v.z, p, d)
    }
}

impl Point3 {
    /// Whether all coordinates are finite.
    pub open spec fn is_finite(self) -> bool {
        self.x.is_finite() && self.y.is_finite() && self.z.is_finite()
    }

    /// Whether all coordinates are numbers.
    pub open spec fn ordered(self) -> bool {
        self.x.ordered() && self.y.ordered() && self.z.ordered()
    }

    /// Whether each coordinate is at most that of another.
    pub open spec fn at_most(self, other: Point3) -> bool {
        self.x.le(other.x) && self.y.le(other.y) && self.z.le(other.z)
    }
}

/// A weighted mean is one of its vectors where that has all the weight.
pub proof fn law_blend_has_corners(rules: ArithRules, a: Point3, b: Point3, c: Point3)
    requires
        rules.keeps_ones(),
        rules.keeps_zeros(),
        a.is_finite(),
        b.is_finite(),
        c.is_finite(),
    ensures
        rules.blend(a, Scalar::one(), b, Scalar::zero(), c, Scalar::zero()) == a,
        rules.blend(a, Scalar::zero(), b, Scalar::one(), c, Scalar::zero()) == b,
        rules.blend(a, Scalar::zero(), b, Scalar::zero(), c, Scalar::one()) == c,
{
}

/// On the way from one vector to another, the start is at nothing and the end at one.
pub proof fn law_between_has_ends(rules: ArithRules, p: Point3, q: Point3)
    requires
        rules.keeps_ones(),
        rules.keeps_zeros(),
        rules.keeps_selves(),
        p.is_finite(),
        q.is_finite(),
    ensures
        rules.between(p, q, Scalar::zero()) == p,
        rules.between(p, q, Scalar::one()) == q,
{
    assert(rules.difference(Scalar::one(), Scalar::zero()) == Scalar::one());
    assert(rules.difference(Scalar::one(), Scalar::one()) == Scalar::zero());
}

/// The vector product is right-handed: along two axes in turn it runs along the
/// third, as long as both vectors are together; and it turns around with the order
/// of its vectors.
pub proof fn law_cross_is_right_handed(rules: ArithRules, a: Scalar, b: Scalar, p: Point3, q: Point3)
    requires
        rules.keeps_zeros(),
        rules.keeps_signs(),
        rules.commutes(),
        a.is_finite(),
        b.is_finite(),
        rules.product(a, b).is_finite(),
        p.is_finite(),
        q.is_finite(),
        rules.product(p.y, q.z).is_finite() && rules.product(p.z, q.y).is_finite(),
        rules.product(p.z, q.x).is_finite() && rules.product(p.x, q.z).is_finite(),
        rules.product(p.x, q.y).is_finite() && rules.product(p.y, q.x).is_finite(),
    ensures
        ({
            let o = Scalar::zero();
            let x = Point3 { x: a, y: o, z: o };
            let y = Point3 { x: o, y: a, z: o };
            let z = Point3 { x: o, y: o, z: a };
            &&& rules.cross(x, Point3 { x: o, y: b, z: o }) == (Point3 { x: o, y: o, z: rules.product(a, b) })
            &&& rules.cross(y, Point3 { x: o, y: o, z: b }) == (Point3 { x: rules.product(a, b), y: o, z: o })
            &&& rules.cross(z, Point3 { x: b, y: o, z: o }) == (Point3 { x: o, y: rules.product(a, b), z: o })
        }),
        rules.cross(q, p) == rules.cross(p, q).negated(),
{
}

/// The squared length of a vector along an axis is the square of what it has there,
/// and each axis counts alike.
pub proof fn law_dot_counts_axes_alike(rules: ArithRules, a: Scalar, b: Scalar)
    requires
        rules.keeps_zeros(),
        a.is_finite(),
        b.is_finite(),
        rules.product(a, b).ordered(),
    ensures
        ({
            let o = Scalar::zero();
            &&& rules.dot(Point3 { x: a, y: o, z: o }, Point3 { x: b, y: o, z: o }) == rules.product(a, b)
            &&& rules.dot(Point3 { x: o, y: a, z: o }, Point3 { x: o, y: b, z: o }) == rules.product(a, b)
            &&& rules.dot(Point3 { x: o, y: o, z: a }, Point3 { x: o, y: o, z: b }) == rules.product(a, b)
            &&& rules.dot(Point3 { x: a, y: o, z: o }, Point3 { x: o, y: b, z: o }) == o
            &&& rules.dot(Point3 { x: a, y: o, z: o }, Point3 { x: o, y: o, z: b }) == o
            &&& rules.dot(Point3 { x: o, y: a, z: o }, Point3 { x: o, y: o, z: b }) == o
        }),
{
}

/// A vector that was made unit length is the vector again once it is stretched by its
/// length, wherever dividing by the length can be undone; and the length, as a
/// factor of itself, is the scalar product of the vector with itself.
pub proof fn law_unit_keeps_the_direction(rules: ArithRules, p: Point3)
    requires
        ({
            let n = rules.root(rules.dot(p, p));
            &&& rules.product(rules.quotient(p.x, n), n) == p.x
            &&& rules.product(rules.quotient(p.y, n), n) == p.y
            &&& rules.product(rules.quotient(p.z, n), n) == p.z
            &&& rules.product(n, n) == rules.dot(p, p)
        }),
    ensures
        rules.scaled(rules.unit(p), rules.norm(p)) == p,
        rules.product(rules.norm(p), rules.norm(p)) == rules.dot(p, p),
{
}

} // verus!

//! Double-precision numbers, known by their order, and arithmetic on them.
//!
//! As with [`crate::scalar::Scalar`], a binary64 pattern is read as the signed
//! integer "sign times magnitude", and rounded arithmetic is left to the caller.
use vstd::prelude::*;

verus! {

/// Magnitude of the infinities.
pub const DOUBLE_INFINITY_KEY: i64 = 0x7ff0_0000_0000_0000;

/// A double-precision number, identified by its order key.
#[derive(Clone, Copy, PartialEq, Eq, Structural, Debug)]
pub struct Double {
    pub key: i64,
}

/// The order key of a binary64 pattern: its magnitude, with its sign.
pub open spec fn key_of_double(bits: u64) -> int {
    if bits < 0x8000_0000_0000_0000 {
        bits as int
    } else {
        0x8000_0000_0000_0000 - bits
    }
}

impl Double {
    /// Whether this is a number (finite or infinite) rather than not-a-number.
    pub open spec fn ordered(self) -> bool {
        -DOUBLE_INFINITY_KEY <= self.key <= DOUBLE_INFINITY_KEY
    }

    /// The number with a given binary64 pattern. Both zeros become one number.
    pub fn from_bits(bits: u64) -> (r: Double)
        ensures
            r.key == key_of_double(bits),
    {
        if bits < 0x8000_0000_0000_0000 {
            Double { key: bits as i64 }
        } else {
            Double { key: -((bits - 0x8000_0000_0000_0000) as i64) }
        }
    }

    /// The binary64 pattern of this number (the positive one for zero). The one
    /// key that no pattern has reads as its successor.
    pub fn to_bits(self) -> (r: u64)
        ensures
            self.key > i64::MIN ==> key_of_double(r) == self.key,
            self.key == i64::MIN ==> r == u64::MAX,
            r != 0x8000_0000_0000_0000,
    {
        if self.key >= 0 {
            self.key as u64
        } else if self.key == i64::MIN {
            u64::MAX
        } else {
            0x8000_0000_0000_0000 + (-self.key) as u64
        }
    }

    /// Zero.
    #[verifier::allow_in_spec]
    pub fn zero() -> Double
        returns
            (Double { key: 0 }),
    {
        Double { key: 0 }
    }

    /// Strictly less; false if either side is not a number.
    #[verifier::allow_in_spec]
    pub fn lt(self, other: Double) -> bool
        returns
            self.ordered() && other.ordered() && self.key < other.key,
    {
        -DOUBLE_INFINITY_KEY <= self.key && self.key < other.key && other.key <= DOUBLE_INFINITY_KEY
    }

    /// Less or equal; false if either side is not a number.
    #[verifier::allow_in_spec]
    pub fn le(self, other: Double) -> bool
        returns
            self.ordered() && other.ordered() && self.key <= other.key,
    {
        -DOUBLE_INFINITY_KEY <= self.key && self.key <= other.key && other.key <= DOUBLE_INFINITY_KEY
    }
}

/// Every pattern but negative zero comes back from its number, and negative zero
/// comes back as zero: `to_bits` undoes `from_bits`.
pub proof fn law_double_round_trip(bits: u64, back: u64)
    requires
        key_of_double(back) == key_of_double(bits),
        back != 0x8000_0000_0000_0000,
    ensures
        back == (if bits == 0x8000_0000_0000_0000 { 0u64 } else { bits }),
{
}

/// Arithmetic on double-precision numbers.
///
/// No contract is asked of an implementation. What is computed with one is
/// stated for every [`PreciseRules`] that describes it.
pub trait PreciseArith {
    /// The sum of two numbers.
    fn precise_sum(&self, a: Double, b: Double) -> Double;

    /// The product of two numbers.
    fn precise_product(&self, a: Double, b: Double) -> Double;

    /// One number over another.
    fn precise_quotient(&self, a: Double, b: Double) -> Double;

    /// The number nearest to a count.
    fn precise_count(&self, n: u64) -> Double;

    /// A time in nanoseconds, in seconds.
    fn seconds(&self, nanoseconds: u64) -> Double;
}

/// What an arithmetic computes.
pub ghost struct PreciseRules {
    pub sum: spec_fn(Double, Double) -> Double,
    pub product: spec_fn(Double, Double) -> Double,
    pub quotient: spec_fn(Double, Double) -> Double,
    pub count: spec_fn(u64) -> Double,
    pub seconds: spec_fn(u64) -> Double,
}

impl PreciseRules {
    /// Whether an implementation computes this.
    pub open spec fn describe<M: PreciseArith>(self, m: M) -> bool {
        &&& forall|a: Double, b: Double, r: Double|
            #[trigger] call_ensures(M::precise_sum, (&m, a, b), r) ==> r == (self.sum)(a, b)
        &&& forall|a: Double, b: Double, r: Double|
            #[trigger] call_ensures(M::precise_product, (&m, a, b), r) ==> r == (self.product)(a, b)
        &&& forall|a: Double, b: Double, r: Double|
            #[trigger] call_ensures(M::precise_quotient, (&m, a, b), r) ==> r == (self.quotient)(a, b)
        &&& forall|n: u64, r: Double|
            #[trigger] call_ensures(M::precise_count, (&m, n), r) ==> r == (self.count)(n)
        &&& forall|n: u64, r: Double|
            #[trigger] call_ensures(M::seconds, (&m, n), r) ==> r == (self.seconds)(n)
    }

    /// The sum of two numbers.
    pub open spec fn sum(self, a: Double, b: Double) -> Double {
        (self.sum)(a, b)
    }

    /// The product of two numbers.
    pub open spec fn product(self, a: Double, b: Double) -> Double {
        (self.product)(a, b)
    }

    /// One number over another.
    pub open spec fn quotient(self, a: Double, b: Double) -> Double {
        (self.quotient)(a, b)
    }

    /// The number nearest to a count.
    pub open spec fn count(self, n: u64) -> Double {
        (self.count)(n)
    }

    /// A time in nanoseconds, in seconds.
    pub open spec fn seconds(self, n: u64) -> Double {
        (self.seconds)(n)
    }
}

} // verus!

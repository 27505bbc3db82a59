//! Single-precision numbers, known by their order.
//!
//! An IEEE-754 binary32 pattern is a sign and a magnitude. Reading it as the
//! signed integer "sign times magnitude" gives a key that orders finite numbers
//! and infinities exactly as the numbers themselves are ordered, with both
//! zeros on key 0. Patterns whose magnitude lies beyond infinity are not
//! numbers; every comparison with one of them is false.
use vstd::prelude::*;

verus! {

/// Magnitude of the infinities.
pub const INFINITY_KEY: i32 = 0x7f80_0000;

/// Magnitude of the largest finite number.
pub const MAX_KEY: i32 = 0x7f7f_ffff;

/// Key of the number one.
pub const ONE_KEY: i32 = 0x3f80_0000;

/// Key of the quiet not-a-number pattern.
pub const NAN_KEY: i32 = 0x7fc0_0000;

/// A single-precision number, identified by its order key.
#[derive(Clone, Copy, PartialEq, Eq, Structural, Debug)]
pub struct Scalar {
    pub key: i32,
}

/// The order key of a binary32 pattern: its magnitude, with its sign.
pub open spec fn key_of_bits(bits: u32) -> int {
    if bits < 0x8000_0000 {
        bits as int
    } else {
        0x8000_0000 - bits
    }
}

impl Scalar {
    /// Whether this is a number (finite or infinite) rather than not-a-number.
    pub open spec fn ordered(self) -> bool {
        -INFINITY_KEY <= self.key <= INFINITY_KEY
    }

    /// Rank under which `min` picks the least: numbers by value, then the rest.
    pub open spec fn min_rank(self) -> int {
        if self.ordered() {
            self.key as int
        } else {
            self.key + 0x1_0000_0000
        }
    }

    /// Rank under which `max` picks the greatest: numbers by value, the rest below.
    pub open spec fn max_rank(self) -> int {
        if self.ordered() {
            self.key as int
        } else {
            self.key - 0x1_0000_0000
        }
    }

    /// The scalar with a given binary32 pattern. Both zeros become one scalar.
    pub fn from_bits(bits: u32) -> (r: Scalar)
        ensures
            r.key == key_of_bits(bits),
    {
        if bits < 0x8000_0000 {
            Scalar { key: bits as i32 }
        } else {
            Scalar { key: -((bits - 0x8000_0000) as i32) }
        }
    }

    /// The binary32 pattern of this scalar (the positive one for zero). The one
    /// key that no pattern has reads as its successor.
    pub fn to_bits(self) -> (r: u32)
        ensures
            self.key > i32::MIN ==> key_of_bits(r) == self.key,
            self.key == i32::MIN ==> r == u32::MAX,
            r != 0x8000_0000,
    {
        if self.key >= 0 {
            self.key as u32
        } else if self.key == i32::MIN {
            u32::MAX
        } else {
            0x8000_0000 + (-self.key) as u32
        }
    }

    /// Zero.
    #[verifier::allow_in_spec]
    pub fn zero() -> Scalar
        returns
            (Scalar { key: 0 }),
    {
        Scalar { key: 0 }
    }

    /// One.
    #[verifier::allow_in_spec]
    pub fn one() -> Scalar
        returns
            (Scalar { key: ONE_KEY }),
    {
        Scalar { key: ONE_KEY }
    }

    /// Positive infinity.
    #[verifier::allow_in_spec]
    pub fn infinity() -> Scalar
        returns
            (Scalar { key: INFINITY_KEY }),
    {
        Scalar { key: INFINITY_KEY }
    }

    /// Negative infinity.
    #[verifier::allow_in_spec]
    pub fn neg_infinity() -> Scalar
        returns
            (Scalar { key: (-INFINITY_KEY) as i32 }),
    {
        Scalar { key: -INFINITY_KEY }
    }

    /// The largest finite number.
    #[verifier::allow_in_spec]
    pub fn max_finite() -> Scalar
        returns
            (Scalar { key: MAX_KEY }),
    {
        Scalar { key: MAX_KEY }
    }

    /// Not a number.
    #[verifier::allow_in_spec]
    pub fn nan() -> Scalar
        returns
            (Scalar { key: NAN_KEY }),
    {
        Scalar { key: NAN_KEY }
    }

    /// Whether this is not a number.
    #[verifier::allow_in_spec]
    pub fn is_nan(self) -> bool
        returns
            !self.ordered(),
    {
        self.key < -INFINITY_KEY || self.key > INFINITY_KEY
    }

    /// Whether this is neither infinite nor not-a-number.
    #[verifier::allow_in_spec]
    pub fn is_finite(self) -> bool
        returns
            -INFINITY_KEY < self.key < INFINITY_KEY,
    {
        -INFINITY_KEY < self.key && self.key < INFINITY_KEY
    }

    /// Whether this is zero.
    #[verifier::allow_in_spec]
    pub fn is_zero(self) -> bool
        returns
            self.key == 0,
    {
        self.key == 0
    }

    /// Strictly less; false if either side is not a number.
    #[verifier::allow_in_spec]
    pub fn lt(self, other: Scalar) -> bool
        returns
            self.ordered() && other.ordered() && self.key < other.key,
    {
        !self.is_nan() && !other.is_nan() && self.key < other.key
    }

    /// Less or equal; false if either side is not a number.
    #[verifier::allow_in_spec]
    pub fn le(self, other: Scalar) -> bool
        returns
            self.ordered() && other.ordered() && self.key <= other.key,
    {
        !self.is_nan() && !other.is_nan() && self.key <= other.key
    }

    /// The scalar with the other sign. The one key that no pattern has stays.
    #[verifier::allow_in_spec]
    pub fn negated(self) -> Scalar
        returns
            (if self.key == i32::MIN { self } else { Scalar { key: (-self.key) as i32 } }),
    {
        if self.key == i32::MIN {
            self
        } else {
            Scalar { key: -self.key }
        }
    }

    /// The scalar without its sign. The one key that no pattern has stays.
    #[verifier::allow_in_spec]
    pub fn magnitude(self) -> Scalar
        returns
            (if self.key < 0 { self.negated() } else { self }),
    {
        if self.key < 0 {
            self.negated()
        } else {
            self
        }
    }

    /// The scalar, kept between bounds; not-a-number stays.
    #[verifier::allow_in_spec]
    pub fn clamped(self, lo: Scalar, hi: Scalar) -> Scalar
        returns
            (if self.lt(lo) { lo } else if hi.lt(self) { hi } else { self }),
    {
        if self.lt(lo) {
            lo
        } else if hi.lt(self) {
            hi
        } else {
            self
        }
    }

    /// The lesser of two scalars; a number wins over not-a-number.
    #[verifier::allow_in_spec]
    pub fn min(self, other: Scalar) -> Scalar
        returns
            (if self.min_rank() <= other.min_rank() { self } else { other }),
    {
        if self.is_nan() == other.is_nan() {
            if self.key <= other.key {
                self
            } else {
                other
            }
        } else if self.is_nan() {
            other
        } else {
            self
        }
    }

    /// The greater of two scalars; a number wins over not-a-number.
    #[verifier::allow_in_spec]
    pub fn max(self, other: Scalar) -> Scalar
        returns
            (if self.max_rank() >= other.max_rank() { self } else { other }),
    {
        if self.is_nan() == other.is_nan() {
            if self.key >= other.key {
                self
            } else {
                other
            }
        } else if self.is_nan() {
            other
        } else {
            self
        }
    }
}

/// Every pattern but negative zero comes back from its scalar, and negative
/// zero comes back as zero: `to_bits` undoes `from_bits`.
pub proof fn law_bits_round_trip(bits: u32, back: u32)
    requires
        key_of_bits(back) == key_of_bits(bits),
        back != 0x8000_0000,
    ensures
        back == (if bits == 0x8000_0000 { 0u32 } else { bits }),
{
}

/// On numbers, `le` is a total order and `lt` is its strict part.
pub proof fn law_numbers_totally_ordered(a: Scalar, b: Scalar, c: Scalar)
    requires
        a.ordered(),
        b.ordered(),
        c.ordered(),
    ensures
        a.le(a),
        a.le(b) || b.le(a),
        a.le(b) && b.le(a) ==> a == b,
        a.le(b) && b.le(c) ==> a.le(c),
        a.lt(b) <==> !b.le(a),
{
}

/// A point or direction in space.
#[derive(Clone, Copy, PartialEq, Eq, Structural, Debug)]
pub struct Point3 {
    pub x: Scalar,
    pub y: Scalar,
    pub z: Scalar,
}

impl Point3 {
    /// The coordinate along an axis: 0 is x, 1 is y, any other is z.
    #[verifier::allow_in_spec]
    pub fn coord(self, axis: usize) -> Scalar
        returns
            (if axis == 0 { self.x } else if axis == 1 { self.y } else { self.z }),
    {
        if axis == 0 {
            self.x
        } else if axis == 1 {
            self.y
        } else {
            self.z
        }
    }

    /// The vector that points the other way.
    #[verifier::allow_in_spec]
    pub fn negated(self) -> Point3
        returns
            (Point3 { x: self.x.negated(), y: self.y.negated(), z: self.z.negated() }),
    {
        Point3 { x: self.x.negated(), y: self.y.negated(), z: self.z.negated() }
    }

    /// The point at the origin.
    #[verifier::allow_in_spec]
    pub fn origin() -> Point3
        returns
            (Point3 { x: Scalar { key: 0 }, y: Scalar { key: 0 }, z: Scalar { key: 0 } }),
    {
        Point3 { x: Scalar { key: 0 }, y: Scalar { key: 0 }, z: Scalar { key: 0 } }
    }
}

} // verus!

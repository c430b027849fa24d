//! Single-precision values held as IEEE-754 bit patterns.
//!
//! The library stores, moves and orders coordinates, distances and costs, but
//! never does arithmetic on them. A value is therefore kept as the 32 bits of
//! its binary32 encoding, and its order is read off those bits: a pattern
//! that is not a NaN stands at the signed magnitude of its bits.

use vstd::prelude::*;

verus! {

/// The sign bit of a bit pattern.
pub const SIGN_BIT: u32 = 0x8000_0000;

/// The magnitude of the two infinities. Every larger magnitude is a NaN.
pub const INFINITY_MAGNITUDE: u32 = 0x7f80_0000;

/// Bit pattern of the largest finite value.
pub const MAX_BITS: u32 = 0x7f7f_ffff;

/// Bit pattern of the smallest finite value, the negative of the largest.
pub const LOWEST_BITS: u32 = 0xff7f_ffff;

/// Bit pattern of positive zero.
pub const ZERO_BITS: u32 = 0;

/// Bit pattern of one.
pub const ONE_BITS: u32 = 0x3f80_0000;

/// A single-precision value, as its bit pattern.
#[derive(Clone, Copy, Debug, PartialEq, Eq, Structural)]
pub struct Scalar {
    pub bits: u32,
}

impl Scalar {
    /// Whether the sign bit is set.
    pub open spec fn negative(self) -> bool {
        self.bits >= SIGN_BIT
    }

    /// The bit pattern without its sign bit.
    pub open spec fn magnitude(self) -> int {
        if self.bits >= SIGN_BIT {
            self.bits - SIGN_BIT
        } else {
            self.bits as int
        }
    }

    /// Whether the pattern encodes a NaN.
    pub open spec fn is_nan(self) -> bool {
        self.magnitude() > INFINITY_MAGNITUDE
    }

    /// The place of the value on the number line of bit patterns: the signed
    /// magnitude. Both zeros stand at 0, and for patterns that are not NaN a
    /// smaller ordinal is a smaller number.
    pub open spec fn ordinal(self) -> int {
        if self.negative() {
            -self.magnitude()
        } else {
            self.magnitude()
        }
    }

    /// The value with its sign bit flipped: the negative of the number.
    pub open spec fn flipped(self) -> Scalar {
        if self.bits >= SIGN_BIT {
            Scalar { bits: (self.bits - SIGN_BIT) as u32 }
        } else {
            Scalar { bits: (self.bits + SIGN_BIT) as u32 }
        }
    }

    /// The comparison `self < other`: false as soon as either side is a NaN.
    pub open spec fn lt(self, other: Scalar) -> bool {
        !self.is_nan() && !other.is_nan() && self.ordinal() < other.ordinal()
    }

    /// The comparison `self <= other`: false as soon as either side is a NaN.
    pub open spec fn le(self, other: Scalar) -> bool {
        !self.is_nan() && !other.is_nan() && self.ordinal() <= other.ordinal()
    }

    /// The smaller of two values, where a NaN loses to anything else and a
    /// tie keeps `self`.
    pub open spec fn min_of(self, other: Scalar) -> Scalar {
        if self.is_nan() || other.lt(self) {
            other
        } else {
            self
        }
    }

    /// The larger of two values, where a NaN loses to anything else and a
    /// tie keeps `self`.
    pub open spec fn max_of(self, other: Scalar) -> Scalar {
        if self.is_nan() || self.lt(other) {
            other
        } else {
            self
        }
    }

    /// The value with the given bit pattern.
    pub fn from_bits(bits: u32) -> (r: Scalar)
        ensures
            r.bits == bits,
    {
        Scalar { bits }
    }

    /// The bit pattern of the value.
    pub fn to_bits(self) -> (r: u32)
        ensures
            r == self.bits,
    {
        self.bits
    }

    /// Signed magnitude of the bit pattern.
    pub fn rank(self) -> (r: i64)
        ensures
            r == self.ordinal(),
    {
        if self.bits >= SIGN_BIT {
            let m: u32 = self.bits - SIGN_BIT;
            -(m as i64)
        } else {
            self.bits as i64
        }
    }

    /// Whether the value is a NaN.
    pub fn nan(self) -> (r: bool)
        ensures
            r == self.is_nan(),
    {
        let m: u32 = if self.bits >= SIGN_BIT {
            self.bits - SIGN_BIT
        } else {
            self.bits
        };
        m > INFINITY_MAGNITUDE
    }

    /// `self < other` as the encoded numbers compare.
    pub fn less_than(self, other: Scalar) -> (r: bool)
        ensures
            r == self.lt(other),
    {
        !self.nan() && !other.nan() && self.rank() < other.rank()
    }

    /// `self <= other` as the encoded numbers compare.
    pub fn at_most(self, other: Scalar) -> (r: bool)
        ensures
            r == self.le(other),
    {
        !self.nan() && !other.nan() && self.rank() <= other.rank()
    }

    /// The smaller of two values; see [`Scalar::min_of`].
    pub fn min(self, other: Scalar) -> (r: Scalar)
        ensures
            r == self.min_of(other),
    {
        if self.nan() || other.less_than(self) {
            other
        } else {
            self
        }
    }

    /// The larger of two values; see [`Scalar::max_of`].
    pub fn max(self, other: Scalar) -> (r: Scalar)
        ensures
            r == self.max_of(other),
    {
        if self.nan() || self.less_than(other) {
            other
        } else {
            self
        }
    }

    /// The value with its sign bit cleared.
    pub fn abs(self) -> (r: Scalar)
        ensures
            !r.negative(),
            r.magnitude() == self.magnitude(),
    {
        if self.bits >= SIGN_BIT {
            Scalar { bits: self.bits - SIGN_BIT }
        } else {
            self
        }
    }

    /// The value with its sign bit flipped.
    pub fn reversed(self) -> (r: Scalar)
        ensures
            r == self.flipped(),
            r.negative() == !self.negative(),
            r.magnitude() == self.magnitude(),
    {
        if self.bits >= SIGN_BIT {
            Scalar { bits: self.bits - SIGN_BIT }
        } else {
            Scalar { bits: self.bits + SIGN_BIT }
        }
    }
}

/// `lt` is a strict order: nothing is below itself, and it is transitive.
pub proof fn law_order_is_strict(a: Scalar, b: Scalar, c: Scalar)
    ensures
        !a.lt(a),
        a.lt(b) && b.lt(c) ==> a.lt(c),
        a.lt(b) ==> !b.lt(a),
{
}

/// Among values that are not NaN the order is total: of two such values one
/// is below the other, or they stand at the same ordinal.
pub proof fn law_order_is_total(a: Scalar, b: Scalar)
    requires
        !a.is_nan(),
        !b.is_nan(),
    ensures
        a.lt(b) || b.lt(a) || a.ordinal() == b.ordinal(),
        a.le(b) <==> !b.lt(a),
        a.ordinal() == b.ordinal() <==> (a.bits == b.bits || (a.magnitude() == 0 && b.magnitude()
            == 0)),
{
}

/// `min_of` and `max_of` return one of their arguments, never a NaN unless
/// both are, and bound both arguments that are not NaN.
pub proof fn law_min_max_bound(a: Scalar, b: Scalar)
    ensures
        a.min_of(b) == a || a.min_of(b) == b,
        a.max_of(b) == a || a.max_of(b) == b,
        a.min_of(b).is_nan() ==> a.is_nan() && b.is_nan(),
        a.max_of(b).is_nan() ==> a.is_nan() && b.is_nan(),
        !a.is_nan() ==> a.min_of(b).ordinal() <= a.ordinal() <= a.max_of(b).ordinal(),
        !b.is_nan() ==> a.min_of(b).ordinal() <= b.ordinal() <= a.max_of(b).ordinal(),
{
}

} // verus!

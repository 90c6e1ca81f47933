//! Numbers, held by their encoding: what can be said of one without rounding.
use vstd::prelude::*;

verus! {

/// Two to the power 63: the weight of the sign bit of a binary64 encoding.
pub const SIGN_BIT: u64 = 0x8000_0000_0000_0000;

/// The magnitude of an infinity; every larger magnitude encodes a NaN.
pub const INFINITY_MAGNITUDE: u64 = 0x7ff0_0000_0000_0000;

/// A Lox number: an IEEE-754 binary64 value, held by its 64-bit encoding.
///
/// The library never rounds. It reads a number's sign and magnitude, which is
/// enough to negate, to order and to compare; sums, differences, products and
/// quotients are asked of the host (see `interpreter`).
#[derive(Debug, Clone, Copy)]
pub struct Number {
    /// One sign bit, eleven exponent bits, fifty-two fraction bits.
    pub bits: u64,
}

impl Number {
    /// Whether the sign bit is set.
    pub open spec fn is_negative(self) -> bool {
        self.bits >= SIGN_BIT
    }

    /// The encoding without its sign bit.
    pub open spec fn magnitude(self) -> int {
        if self.is_negative() {
            self.bits - SIGN_BIT
        } else {
            self.bits as int
        }
    }

    /// Not-a-number: an all-ones exponent with a non-zero fraction.
    pub open spec fn is_nan(self) -> bool {
        self.magnitude() > INFINITY_MAGNITUDE
    }

    /// The place of a number that is not a NaN on the number line: encodings
    /// of one sign grow with the value they stand for, and both zeros sit at 0.
    pub open spec fn rank(self) -> int {
        if self.is_negative() {
            -self.magnitude()
        } else {
            self.magnitude()
        }
    }

    /// IEEE-754 `<`: false whenever a NaN is involved.
    pub open spec fn spec_less(self, other: Number) -> bool {
        !self.is_nan() && !other.is_nan() && self.rank() < other.rank()
    }

    /// IEEE-754 `==`: a NaN equals nothing, and the two zeros equal each other.
    pub open spec fn spec_equals(self, other: Number) -> bool {
        !self.is_nan() && !other.is_nan() && self.rank() == other.rank()
    }

    /// The number with the other sign.
    pub open spec fn spec_negate(self) -> Number {
        if self.is_negative() {
            Number { bits: (self.bits - SIGN_BIT) as u64 }
        } else {
            Number { bits: (self.bits + SIGN_BIT) as u64 }
        }
    }

    /// The number with the given encoding.
    pub fn from_bits(bits: u64) -> (r: Number)
        ensures
            r.bits == bits,
    {
        Number { bits }
    }

    /// The encoding of this number.
    pub fn to_bits(self) -> (r: u64)
        ensures
            r == self.bits,
    {
        self.bits
    }

    fn sign_and_magnitude(self) -> (r: (bool, u64))
        ensures
            r.0 == self.is_negative(),
            r.1 == self.magnitude(),
            r.1 < SIGN_BIT,
    {
        if self.bits >= SIGN_BIT {
            (true, self.bits - SIGN_BIT)
        } else {
            (false, self.bits)
        }
    }

    /// Whether this is a NaN.
    pub fn nan(self) -> (r: bool)
        ensures
            r == self.is_nan(),
    {
        let (_, magnitude) = self.sign_and_magnitude();
        magnitude > INFINITY_MAGNITUDE
    }

    /// Unary minus: flips the sign bit, also of a zero, an infinity or a NaN.
    pub fn negate(self) -> (r: Number)
        ensures
            r == self.spec_negate(),
            r.magnitude() == self.magnitude(),
            r.is_negative() == !self.is_negative(),
    {
        if self.bits >= SIGN_BIT {
            Number { bits: self.bits - SIGN_BIT }
        } else {
            Number { bits: self.bits + SIGN_BIT }
        }
    }

    /// `self < other`.
    pub fn less(self, other: Number) -> (r: bool)
        ensures
            r == self.spec_less(other),
    {
        let (a_negative, a) = self.sign_and_magnitude();
        let (b_negative, b) = other.sign_and_magnitude();
        if a > INFINITY_MAGNITUDE || b > INFINITY_MAGNITUDE {
            false
        } else if a_negative {
            if b_negative {
                b < a
            } else {
                a > 0 || b > 0
            }
        } else {
            !b_negative && a < b
        }
    }

    /// `self == other`.
    pub fn equals(self, other: Number) -> (r: bool)
        ensures
            r == self.spec_equals(other),
    {
        let (a_negative, a) = self.sign_and_magnitude();
        let (b_negative, b) = other.sign_and_magnitude();
        if a > INFINITY_MAGNITUDE || b > INFINITY_MAGNITUDE {
            false
        } else if a_negative == b_negative {
            a == b
        } else {
            a == 0 && b == 0
        }
    }

    /// `self <= other`.
    pub fn less_equal(self, other: Number) -> (r: bool)
        ensures
            r == (self.spec_less(other) || self.spec_equals(other)),
    {
        self.less(other) || self.equals(other)
    }

    /// `self > other`.
    pub fn greater(self, other: Number) -> (r: bool)
        ensures
            r == other.spec_less(self),
    {
        other.less(self)
    }

    /// `self >= other`.
    pub fn greater_equal(self, other: Number) -> (r: bool)
        ensures
            r == (other.spec_less(self) || other.spec_equals(self)),
    {
        other.less(self) || other.equals(self)
    }
}

} // verus!

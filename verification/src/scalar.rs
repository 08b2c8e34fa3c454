use vstd::prelude::*;

verus! {

/// Bit pattern whose only set bit is the sign.
pub const SIGN_BIT: u32 = 0x8000_0000;

/// Bit pattern of positive infinity; every larger magnitude is not a number.
pub const INFINITY_BITS: u32 = 0x7f80_0000;

/// Bit pattern of the number one.
pub const ONE_BITS: u32 = 0x3f80_0000;

/// An IEEE 754 binary32 datum, held as its bit pattern.
///
/// The library never does arithmetic on such a value: it carries it, and it
/// orders it. Ordering needs no more than the sign bit and the magnitude,
/// which is why the bits are kept as an integer.
///
/// `==` on this type compares bit patterns: it tells the two zeros apart and
/// finds a datum that is not a number equal to itself. The comparisons of
/// numbers are `lt`, `le`, `gt` and `ge`.
#[derive(Clone, Copy, Debug, PartialEq, Eq, Structural)]
pub struct Scalar {
    pub bits: u32,
}

impl Scalar {
    /// Whether the sign bit is set.
    pub open spec fn negative(self) -> bool {
        self.bits >= SIGN_BIT
    }

    /// The bit pattern without its sign bit.
    pub open spec fn magnitude(self) -> int {
        if self.bits >= SIGN_BIT {
            self.bits - SIGN_BIT
        } else {
            self.bits as int
        }
    }

    /// Whether the datum is not a number.
    pub open spec fn spec_is_nan(self) -> bool {
        self.magnitude() > INFINITY_BITS
    }

    /// Where the datum stands on the number line. Both zeros stand at 0, and
    /// of two numbers the one with the smaller rank is the smaller number.
    pub open spec fn rank(self) -> int {
        if self.negative() {
            -self.magnitude()
        } else {
            self.magnitude()
        }
    }

    /// Where the datum stands in the total order of all bit patterns, in
    /// which negative zero comes before positive zero and every datum that is
    /// not a number lies beyond the infinity of its sign.
    pub open spec fn total_key(self) -> int {
        if self.negative() {
            -self.magnitude() - 1
        } else {
            self.magnitude()
        }
    }

    /// `self < other` as IEEE 754 defines it: false if either is not a number.
    pub open spec fn spec_lt(self, other: Scalar) -> bool {
        !self.is_nan() && !other.is_nan() && self.rank() < other.rank()
    }

    /// `self <= other` as IEEE 754 defines it: false if either is not a number.
    pub open spec fn spec_le(self, other: Scalar) -> bool {
        !self.is_nan() && !other.is_nan() && self.rank() <= other.rank()
    }

    /// `self > other` as IEEE 754 defines it.
    pub open spec fn spec_gt(self, other: Scalar) -> bool {
        other.spec_lt(self)
    }

    /// `self >= other` as IEEE 754 defines it.
    pub open spec fn spec_ge(self, other: Scalar) -> bool {
        other.spec_le(self)
    }

    /// The lesser of two data. If one is not a number the other is the
    /// result; of two that stand at the same place, `self` is.
    pub open spec fn spec_min(self, other: Scalar) -> Scalar {
        if self.is_nan() {
            other
        } else if other.spec_lt(self) {
            other
        } else {
            self
        }
    }

    /// The greater of two data. If one is not a number the other is the
    /// result; of two that stand at the same place, `self` is.
    pub open spec fn spec_max(self, other: Scalar) -> Scalar {
        if self.is_nan() {
            other
        } else if self.spec_lt(other) {
            other
        } else {
            self
        }
    }

    /// The datum with the given bit pattern.
    pub fn from_bits(bits: u32) -> (s: Scalar)
        ensures
            s.bits == bits,
    {
        Scalar { bits }
    }

    /// The bit pattern of the datum.
    pub fn to_bits(self) -> (bits: u32)
        ensures
            bits == self.bits,
    {
        self.bits
    }

    /// Positive zero.
    pub open spec fn spec_zero() -> Scalar {
        Scalar { bits: 0 }
    }

    /// The number one.
    pub open spec fn spec_one() -> Scalar {
        Scalar { bits: ONE_BITS }
    }

    /// Positive zero.
    #[verifier::when_used_as_spec(spec_zero)]
    pub fn zero() -> (s: Scalar)
        ensures
            s == Self::spec_zero(),
            s.rank() == 0,
            !s.is_nan(),
    {
        Scalar { bits: 0 }
    }

    /// The number one.
    #[verifier::when_used_as_spec(spec_one)]
    pub fn one() -> (s: Scalar)
        ensures
            s == Self::spec_one(),
            s.rank() == ONE_BITS,
            !s.is_nan(),
    {
        Scalar { bits: ONE_BITS }
    }

    /// Positive infinity, above every number.
    pub fn infinity() -> (s: Scalar)
        ensures
            s.bits == INFINITY_BITS,
            !s.is_nan(),
            forall|x: Scalar| !x.is_nan() ==> x.spec_le(s),
    {
        Scalar { bits: INFINITY_BITS }
    }

    /// Negative infinity, below every number.
    pub fn neg_infinity() -> (s: Scalar)
        ensures
            s.bits == SIGN_BIT + INFINITY_BITS,
            !s.is_nan(),
            forall|x: Scalar| !x.is_nan() ==> s.spec_le(x),
    {
        Scalar { bits: 0xff80_0000 }
    }

    fn sign_and_magnitude(self) -> (pair: (bool, u32))
        ensures
            pair.0 == self.negative(),
            pair.1 == self.magnitude(),
            pair.1 < SIGN_BIT,
    {
        if self.bits >= SIGN_BIT {
            (true, self.bits - SIGN_BIT)
        } else {
            (false, self.bits)
        }
    }

    /// Whether the datum is not a number.
    #[verifier::when_used_as_spec(spec_is_nan)]
    pub fn is_nan(self) -> (b: bool)
        ensures
            b == self.spec_is_nan(),
    {
        self.sign_and_magnitude().1 > INFINITY_BITS
    }

    /// The place on the number line, as a machine integer.
    pub fn position(self) -> (r: i64)
        ensures
            r == self.rank(),
            -(SIGN_BIT as int) < r < SIGN_BIT,
    {
        let (negative, magnitude) = self.sign_and_magnitude();
        if negative {
            -(magnitude as i64)
        } else {
            magnitude as i64
        }
    }

    /// The place in the total order of bit patterns, as a machine integer.
    pub fn total_order_key(self) -> (k: i32)
        ensures
            k == self.total_key(),
    {
        let (negative, magnitude) = self.sign_and_magnitude();
        if negative {
            -(magnitude as i32) - 1
        } else {
            magnitude as i32
        }
    }

    /// `self < other`, as the machine compares the two numbers.
    pub fn lt(self, other: Scalar) -> (b: bool)
        ensures
            b == self.spec_lt(other),
    {
        !self.is_nan() && !other.is_nan() && self.position() < other.position()
    }

    /// `self <= other`, as the machine compares the two numbers.
    pub fn le(self, other: Scalar) -> (b: bool)
        ensures
            b == self.spec_le(other),
    {
        !self.is_nan() && !other.is_nan() && self.position() <= other.position()
    }

    /// `self > other`, as the machine compares the two numbers.
    pub fn gt(self, other: Scalar) -> (b: bool)
        ensures
            b == self.spec_gt(other),
    {
        other.lt(self)
    }

    /// `self >= other`, as the machine compares the two numbers.
    pub fn ge(self, other: Scalar) -> (b: bool)
        ensures
            b == self.spec_ge(other),
    {
        other.le(self)
    }

    /// The lesser of the two; the other one where one is not a number.
    pub fn min(self, other: Scalar) -> (m: Scalar)
        ensures
            m == self.spec_min(other),
    {
        if self.is_nan() {
            other
        } else if other.lt(self) {
            other
        } else {
            self
        }
    }

    /// The greater of the two; the other one where one is not a number.
    pub fn max(self, other: Scalar) -> (m: Scalar)
        ensures
            m == self.spec_max(other),
    {
        if self.is_nan() {
            other
        } else if self.lt(other) {
            other
        } else {
            self
        }
    }
}

/// Two bit patterns have the same total-order key only if they are the same
/// pattern, so the total order never ties two different data.
pub proof fn lemma_total_key_injective(a: Scalar, b: Scalar)
    requires
        a.total_key() == b.total_key(),
    ensures
        a == b,
{
}

/// Among numbers, the total order agrees with `<`: a smaller number has a
/// smaller key, and a smaller key belongs to a number that is not greater.
pub proof fn lemma_total_key_refines_order(a: Scalar, b: Scalar)
    requires
        !a.is_nan(),
        !b.is_nan(),
    ensures
        a.spec_lt(b) ==> a.total_key() < b.total_key(),
        a.total_key() <= b.total_key() ==> a.spec_le(b),
{
}

} // verus!

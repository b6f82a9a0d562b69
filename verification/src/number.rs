//! Numbers as the library sees them.

use vstd::prelude::*;

verus! {

/// A double-precision number: `bits` is its IEEE-754 binary64 encoding and
/// `text` the shortest decimal rendering of that value, as the host writes it.
#[derive(Debug, PartialEq)]
pub struct Number {
    pub bits: u64,
    pub text: String,
}

/// The mathematical twin of [`Number`].
pub struct SpecNumber {
    pub bits: u64,
    pub text: Seq<char>,
}

impl View for Number {
    type V = SpecNumber;

    open spec fn view(&self) -> SpecNumber {
        SpecNumber { bits: self.bits, text: self.text@ }
    }
}

pub open spec fn numbers_view(numbers: Seq<Number>) -> Seq<SpecNumber> {
    numbers.map_values(|n: Number| n@)
}

/// The sign bit of a binary64 encoding.
pub const SIGN_BIT: u64 = 0x8000_0000_0000_0000;

/// The encoding of positive infinity: every encoding of larger magnitude is a NaN.
pub const INFINITY_BITS: u64 = 0x7FF0_0000_0000_0000;

/// The magnitude of an encoding: all bits but the sign.
pub open spec fn magnitude(bits: u64) -> int {
    if bits >= SIGN_BIT { bits - SIGN_BIT } else { bits as int }
}

pub open spec fn is_negative_encoding(bits: u64) -> bool {
    bits >= SIGN_BIT
}

/// An encoding is a NaN when its exponent is all ones and its fraction is not zero.
pub open spec fn is_nan(bits: u64) -> bool {
    magnitude(bits) > INFINITY_BITS
}

/// Positive and negative zero.
pub open spec fn is_zero(bits: u64) -> bool {
    magnitude(bits) == 0
}

/// A key that orders encodings that are not NaN as their values are ordered.
pub open spec fn order_key(bits: u64) -> int {
    if is_negative_encoding(bits) { -magnitude(bits) } else { magnitude(bits) }
}

/// IEEE-754 equality: NaN equals nothing, and the two zeros are equal.
pub open spec fn spec_equal(a: u64, b: u64) -> bool {
    !is_nan(a) && !is_nan(b) && order_key(a) == order_key(b)
}

/// IEEE-754 `<`: false as soon as one operand is NaN.
pub open spec fn spec_less(a: u64, b: u64) -> bool {
    !is_nan(a) && !is_nan(b) && order_key(a) < order_key(b)
}

/// IEEE-754 `<=`.
pub open spec fn spec_less_equal(a: u64, b: u64) -> bool {
    !is_nan(a) && !is_nan(b) && order_key(a) <= order_key(b)
}

fn magnitude_of(bits: u64) -> (m: u64)
    ensures
        m == magnitude(bits),
{
    if bits >= SIGN_BIT { bits - SIGN_BIT } else { bits }
}

impl Number {
    pub fn is_nan(&self) -> (b: bool)
        ensures
            b == is_nan(self.bits),
    {
        magnitude_of(self.bits) > INFINITY_BITS
    }

    pub fn is_zero(&self) -> (b: bool)
        ensures
            b == is_zero(self.bits),
    {
        magnitude_of(self.bits) == 0
    }

    /// Compares the values of two numbers. `None` when one of them is NaN;
    /// otherwise `Some(-1)`, `Some(0)` or `Some(1)` as `self` is less than,
    /// equal to or greater than `other`.
    fn compare(&self, other: &Number) -> (c: Option<i8>)
        ensures
            c is None <==> (is_nan(self.bits) || is_nan(other.bits)),
            c == Some(-1i8) <==> spec_less(self.bits, other.bits),
            c == Some(0i8) <==> spec_equal(self.bits, other.bits),
            c == Some(1i8) <==> spec_less(other.bits, self.bits),
    {
        if self.is_nan() || other.is_nan() {
            return None;
        }
        let a = magnitude_of(self.bits);
        let b = magnitude_of(other.bits);
        let a_neg = self.bits >= SIGN_BIT;
        let b_neg = other.bits >= SIGN_BIT;
        if a == 0 && b == 0 {
            Some(0)
        } else if !a_neg && !b_neg {
            if a < b { Some(-1) } else if a == b { Some(0) } else { Some(1) }
        } else if a_neg && b_neg {
            if a > b { Some(-1) } else if a == b { Some(0) } else { Some(1) }
        } else if a_neg {
            Some(-1)
        } else {
            Some(1)
        }
    }

    /// `self == other` on the values, as IEEE-754 defines it.
    pub fn equals(&self, other: &Number) -> (b: bool)
        ensures
            b == spec_equal(self.bits, other.bits),
    {
        self.compare(other) == Some(0i8)
    }

    /// `self < other`.
    pub fn less(&self, other: &Number) -> (b: bool)
        ensures
            b == spec_less(self.bits, other.bits),
    {
        self.compare(other) == Some(-1i8)
    }

    /// `self <= other`.
    pub fn less_equal(&self, other: &Number) -> (b: bool)
        ensures
            b == spec_less_equal(self.bits, other.bits),
    {
        let c = self.compare(other);
        c == Some(-1i8) || c == Some(0i8)
    }

    /// A copy of the number.
    pub fn duplicate(&self) -> (r: Number)
        ensures
            r == *self,
    {
        Number { bits: self.bits, text: self.text.clone() }
    }
}

} // verus!

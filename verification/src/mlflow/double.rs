//! Double-precision numbers, by their bits.

use vstd::prelude::*;

verus! {

/// A double-precision number, as its IEEE 754 bits.
#[derive(Clone, Copy, Debug, PartialEq, Eq, Structural)]
pub struct Double {
    pub bits: u64,
}

/// The bits without the sign.
pub open spec fn magnitude(x: Double) -> int {
    if x.bits >= 0x8000_0000_0000_0000 {
        x.bits - 0x8000_0000_0000_0000
    } else {
        x.bits as int
    }
}

/// The number is not a number.
pub open spec fn is_nan(x: Double) -> bool {
    magnitude(x) > 0x7FF0_0000_0000_0000
}

pub open spec fn is_infinite(x: Double) -> bool {
    magnitude(x) == 0x7FF0_0000_0000_0000
}

pub open spec fn is_negative(x: Double) -> bool {
    x.bits >= 0x8000_0000_0000_0000
}

/// The place of a number in the order of the numbers. Both zeros have the same.
pub open spec fn rank(x: Double) -> int {
    if is_negative(x) {
        -magnitude(x)
    } else {
        magnitude(x)
    }
}

/// `a < b`.
pub open spec fn double_less(a: Double, b: Double) -> bool {
    !is_nan(a) && !is_nan(b) && rank(a) < rank(b)
}

/// `a == b`.
pub open spec fn double_same(a: Double, b: Double) -> bool {
    !is_nan(a) && !is_nan(b) && rank(a) == rank(b)
}

#[derive(Clone, Copy, Debug, PartialEq, Eq, Structural)]
pub enum Comparison {
    Less,
    LessOrEqual,
    Greater,
    GreaterOrEqual,
    Equal,
    NotEqual,
}

/// What a comparison operator says of two numbers. Of a number that is none
/// every comparison but `!=` is false.
pub open spec fn compares(op: Comparison, a: Double, b: Double) -> bool {
    match op {
        Comparison::Less => double_less(a, b),
        Comparison::LessOrEqual => double_less(a, b) || double_same(a, b),
        Comparison::Greater => double_less(b, a),
        Comparison::GreaterOrEqual => double_less(b, a) || double_same(a, b),
        Comparison::Equal => double_same(a, b),
        Comparison::NotEqual => !double_same(a, b),
    }
}

impl Double {
    fn magnitude_bits(self) -> (r: u64)
        ensures
            r == magnitude(self),
    {
        if self.bits >= 0x8000_0000_0000_0000 {
            self.bits - 0x8000_0000_0000_0000
        } else {
            self.bits
        }
    }

    /// Whether this is not a number.
    pub fn nan(self) -> (r: bool)
        ensures
            r == is_nan(self),
    {
        self.magnitude_bits() > 0x7FF0_0000_0000_0000
    }

    /// Whether this is an infinity.
    pub fn infinite(self) -> (r: bool)
        ensures
            r == is_infinite(self),
    {
        self.magnitude_bits() == 0x7FF0_0000_0000_0000
    }

    /// Whether the sign is set.
    pub fn negative(self) -> (r: bool)
        ensures
            r == is_negative(self),
    {
        self.bits >= 0x8000_0000_0000_0000
    }

    fn place(self) -> (r: i128)
        ensures
            r == rank(self),
    {
        if self.bits >= 0x8000_0000_0000_0000 {
            -(self.magnitude_bits() as i128)
        } else {
            self.magnitude_bits() as i128
        }
    }

    /// `self < other`.
    pub fn less(self, other: Double) -> (r: bool)
        ensures
            r == double_less(self, other),
    {
        !self.nan() && !other.nan() && self.place() < other.place()
    }

    /// `self == other`.
    pub fn same(self, other: Double) -> (r: bool)
        ensures
            r == double_same(self, other),
    {
        !self.nan() && !other.nan() && self.place() == other.place()
    }
}

/// Compares two numbers.
pub fn holds(op: Comparison, a: Double, b: Double) -> (r: bool)
    ensures
        r == compares(op, a, b),
{
    match op {
        Comparison::Less => a.less(b),
        Comparison::LessOrEqual => a.less(b) || a.same(b),
        Comparison::Greater => b.less(a),
        Comparison::GreaterOrEqual => b.less(a) || a.same(b),
        Comparison::Equal => a.same(b),
        Comparison::NotEqual => !a.same(b),
    }
}

} // verus!

//! Values of positions and moves, as the engines report them: numbers of the
//! 64-bit IEEE 754 format, held by their bit patterns.
use vstd::prelude::*;

verus! {

/// The sign bit.
pub const SIGN: u64 = 0x8000_0000_0000_0000;

/// The bit pattern of one.
pub const ONE: u64 = 0x3ff0_0000_0000_0000;

/// The bit pattern of infinity. Greater magnitudes are not numbers.
pub const INFINITY: u64 = 0x7ff0_0000_0000_0000;

/// A 64-bit IEEE 754 number.
#[derive(Clone, Copy, Debug, PartialEq, Eq, Structural)]
pub struct Value {
    pub bits: u64,
}

impl Value {
    /// The number with the given bit pattern.
    pub fn new(bits: u64) -> (value: Value)
        ensures
            value == (Value { bits }),
    {
        Value { bits }
    }

    /// Whether the sign bit is set.
    pub open spec fn negative(self) -> bool {
        self.bits >= SIGN
    }

    /// The bits without the sign. Magnitudes order as the absolute values do.
    pub open spec fn magnitude(self) -> int {
        if self.negative() {
            self.bits - SIGN
        } else {
            self.bits as int
        }
    }

    /// Where the number stands in the total order of IEEE 754: negative numbers
    /// by descending magnitude, then the others by ascending magnitude. Minus
    /// zero comes before zero.
    pub open spec fn rank(self) -> int {
        if self.negative() {
            -1 - self.magnitude()
        } else {
            self.magnitude()
        }
    }

    /// Exactly one or minus one.
    pub open spec fn proven(self) -> bool {
        self.magnitude() == ONE
    }

    /// Whether the two are equal as numbers. Zero and minus zero are.
    pub open spec fn same_number(self, other: Value) -> bool {
        self == other || self.magnitude() == 0 && other.magnitude() == 0
    }

    /// The number with the other sign.
    pub open spec fn opposite(self) -> Value {
        Value {
            bits: if self.negative() {
                (self.bits - SIGN) as u64
            } else {
                (self.bits + SIGN) as u64
            },
        }
    }

    /// The nearest number between minus one and one. What is not a number stays
    /// as it is.
    pub open spec fn limited(self) -> Value {
        if ONE < self.magnitude() <= INFINITY {
            Value { bits: if self.negative() { (SIGN + ONE) as u64 } else { ONE } }
        } else {
            self
        }
    }

    /// The number with the other sign.
    pub fn negated(self) -> (res: Value)
        ensures
            res == self.opposite(),
    {
        Value { bits: if self.bits >= SIGN { self.bits - SIGN } else { self.bits + SIGN } }
    }

    /// The nearest number between minus one and one.
    pub fn clamped(self) -> (res: Value)
        ensures
            res == self.limited(),
    {
        let magnitude: u64 = if self.bits >= SIGN { self.bits - SIGN } else { self.bits };
        if magnitude > ONE && magnitude <= INFINITY {
            Value { bits: if self.bits >= SIGN { SIGN + ONE } else { ONE } }
        } else {
            self
        }
    }

    /// Whether this number comes after the other in the total order.
    pub fn above(self, other: Value) -> (res: bool)
        ensures
            res == (self.rank() > other.rank()),
    {
        if self.bits >= SIGN {
            other.bits >= SIGN && self.bits < other.bits
        } else {
            other.bits >= SIGN || self.bits > other.bits
        }
    }
}

/// Whether a value is proven: exactly one or minus one, seen from the side to
/// move, which the engines keep for results that end the game. Estimates stay
/// inside.
pub fn is_proven(value: Value) -> (res: bool)
    ensures
        res == value.proven(),
{
    value.bits == ONE || value.bits == SIGN + ONE
}

/// Distinct numbers stand at distinct places of the order.
pub proof fn rank_tells_values_apart(a: Value, b: Value)
    ensures
        a.rank() == b.rank() <==> a == b,
{
}

/// Taking the other side's view twice is taking one's own, and it turns the
/// order round.
pub proof fn opposite_turns_the_order_round(a: Value, b: Value)
    ensures
        a.opposite().opposite() == a,
        a.opposite().rank() < b.opposite().rank() <==> b.rank() < a.rank(),
        a.opposite().proven() == a.proven(),
{
}

/// A limited value lies between minus one and one unless it is not a number,
/// limiting keeps the order, and it changes nothing that lies there already.
pub proof fn limiting_is_monotone(a: Value, b: Value)
    ensures
        a.magnitude() <= INFINITY ==> a.limited().magnitude() <= ONE,
        a.magnitude() <= ONE ==> a.limited() == a,
        a.limited().limited() == a.limited(),
        a.rank() <= b.rank() && a.magnitude() <= INFINITY && b.magnitude() <= INFINITY
            ==> a.limited().rank() <= b.limited().rank(),
{
}

/// A number is proven where its bits are those of one or of minus one, and taking
/// the other sign changes the sign bit alone.
pub proof fn signs_and_proofs_are_in_the_bits(a: Value)
    ensures
        a.negative() <==> a.bits >= 0x8000_0000_0000_0000,
        a.proven() <==> a.bits == 0x3ff0_0000_0000_0000 || a.bits == 0xbff0_0000_0000_0000,
        a.bits < 0x8000_0000_0000_0000 ==> a.opposite().bits == a.bits + 0x8000_0000_0000_0000,
        a.bits >= 0x8000_0000_0000_0000 ==> a.opposite().bits == a.bits - 0x8000_0000_0000_0000,
{
}

/// Numbers below zero come before the others, farther ones first; the others come
/// nearer ones first.
pub proof fn the_order_is_in_the_bits(a: Value, b: Value)
    ensures
        a.bits < 0x8000_0000_0000_0000 && b.bits < 0x8000_0000_0000_0000 ==> (a.rank() < b.rank()
            <==> a.bits < b.bits),
        a.bits >= 0x8000_0000_0000_0000 && b.bits >= 0x8000_0000_0000_0000 ==> (a.rank() < b.rank()
            <==> a.bits > b.bits),
        a.bits >= 0x8000_0000_0000_0000 && b.bits < 0x8000_0000_0000_0000 ==> a.rank() < b.rank(),
{
}

/// A number above one becomes one, a number below minus one becomes minus one,
/// and everything else stays as it is.
pub proof fn limiting_is_to_one_and_minus_one(a: Value)
    ensures
        0x3ff0_0000_0000_0000 < a.bits <= 0x7ff0_0000_0000_0000 ==> a.limited().bits
            == 0x3ff0_0000_0000_0000,
        0xbff0_0000_0000_0000 < a.bits <= 0xfff0_0000_0000_0000 ==> a.limited().bits
            == 0xbff0_0000_0000_0000,
        a.bits <= 0x3ff0_0000_0000_0000 ==> a.limited() == a,
        0x7ff0_0000_0000_0000 < a.bits <= 0xbff0_0000_0000_0000 ==> a.limited() == a,
        a.bits > 0xfff0_0000_0000_0000 ==> a.limited() == a,
{
}

} // verus!

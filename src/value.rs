//! Values of the stack machine.
use vstd::prelude::*;

verus! {

/// The sign bit of a binary64 floating-point number.
pub const SIGN_BIT: u64 = 0x8000_0000_0000_0000;

/// A value of the stack machine: a binary64 floating-point number, held as
/// its bit pattern.
#[derive(Clone, Copy, Debug, PartialEq, Eq, Structural)]
pub enum Value {
    FloatingPoint(u64),
}

impl Value {
    /// The number with the same magnitude and the opposite sign: the bit
    /// pattern with its sign bit flipped, which is how binary64 negation is
    /// defined (for every number, infinities and NaNs included).
    pub open spec fn negated(self) -> Value {
        match self {
            Value::FloatingPoint(bits) => Value::FloatingPoint(bits ^ SIGN_BIT),
        }
    }

    pub fn neg(self) -> (r: Value)
        ensures
            r == self.negated(),
    {
        match self {
            Value::FloatingPoint(bits) => Value::FloatingPoint(bits ^ SIGN_BIT),
        }
    }
}

} // verus!

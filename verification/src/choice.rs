//! An oblivious boolean: the result of a constant-time test, kept as a
//! distinct type so that secret-dependent conditions are not branched on
//! by accident.

use vstd::prelude::*;

verus! {

/// Relies on `subtle`'s `BitAnd` for `Choice`: the conjunction of two
/// choice bytes, computed without short-circuiting.
#[verifier::external_body]
fn ct_and_byte(a: u8, b: u8) -> (r: u8)
    requires
        a == 0 || a == 1,
        b == 0 || b == 1,
    ensures
        r == (if a == 1 && b == 1 { 1u8 } else { 0u8 }),
{
    (subtle::Choice::from(a) & subtle::Choice::from(b)).unwrap_u8()
}

/// A boolean produced by a constant-time test.
///
/// The wrapped byte is 1 (set) or 0 (clear). It is deliberately not a
/// native `bool`: callers combine choices with [`Choice::and`] and only
/// convert at the very end of a computation with [`Choice::to_bool`].
#[derive(Clone, Copy, Debug)]
pub struct Choice {
    byte: u8,
}

impl Choice {
    #[verifier::type_invariant]
    spec fn inv(self) -> bool {
        self.byte == 0 || self.byte == 1
    }

    /// True when this choice is set.
    pub closed spec fn is_set(self) -> bool {
        self.byte == 1
    }

    /// The set choice.
    pub fn set() -> (r: Choice)
        ensures
            r.is_set(),
    {
        Choice { byte: 1 }
    }

    /// The clear choice.
    pub fn clear() -> (r: Choice)
        ensures
            !r.is_set(),
    {
        Choice { byte: 0 }
    }

    /// The choice that is set exactly when `b` is true.
    pub fn from_bool(b: bool) -> (r: Choice)
        ensures
            r.is_set() == b,
    {
        Choice { byte: if b { 1 } else { 0 } }
    }

    /// Adopt the byte a constant-time primitive produced (0 or 1).
    pub(crate) fn from_mask_byte(byte: u8) -> (r: Choice)
        requires
            byte == 0 || byte == 1,
        ensures
            r.is_set() == (byte == 1),
    {
        Choice { byte }
    }

    /// The wrapped byte: 1 when set, 0 when clear.
    pub fn to_byte(&self) -> (r: u8)
        ensures
            r == (if self.is_set() { 1u8 } else { 0u8 }),
    {
        proof {
            use_type_invariant(self);
        }
        self.byte
    }

    /// Conjunction of two choices, without short-circuiting.
    pub fn and(self, rhs: Choice) -> (r: Choice)
        ensures
            r.is_set() == (self.is_set() && rhs.is_set()),
    {
        proof {
            use_type_invariant(self);
            use_type_invariant(rhs);
        }
        Choice { byte: ct_and_byte(self.byte, rhs.byte) }
    }

    /// Reveal the choice as a native boolean.
    ///
    /// Meant for the end of a computation, where branching no longer
    /// leaks anything worth protecting.
    pub fn to_bool(&self) -> (r: bool)
        ensures
            r == self.is_set(),
    {
        proof {
            use_type_invariant(self);
        }
        self.byte == 1
    }
}

} // verus!

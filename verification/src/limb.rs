//! The atomic unit of big-integer storage: a fixed-width machine word
//! with constant-time primitives.

use vstd::prelude::*;
use vstd::arithmetic::div_mod::lemma_fundamental_div_mod;
use crate::choice::Choice;

verus! {

/// Number of bits in a limb.
pub const LIMB_BITS: usize = 32;

/// Number of bytes in a limb.
pub const LIMB_BYTES: usize = 4;

/// A fixed-width unsigned machine word, the atomic unit of big-integer
/// storage.
#[derive(Clone, Copy, Debug, PartialEq, Eq, Structural)]
pub struct Limb(pub u32);

/// Relies on `subtle`'s `ConditionallySelectable` for `u32`:
/// `conditional_select(a, b, choice)` returns `a` when the choice byte is
/// 0 and `b` when it is 1, without branching on the choice.
#[verifier::external_body]
fn ct_select_word(a: u32, b: u32, choice: u8) -> (r: u32)
    requires
        choice == 0 || choice == 1,
    ensures
        r == (if choice == 1 { b } else { a }),
{
    subtle::ConditionallySelectable::conditional_select(&a, &b, subtle::Choice::from(choice))
}

/// Relies on `subtle`'s `ConstantTimeEq` for `u32`: `ct_eq` returns a
/// choice whose byte is 1 exactly when the two words are equal, computed
/// without data-dependent branches.
#[verifier::external_body]
fn ct_word_eq_zero(w: u32) -> (r: u8)
    ensures
        r == (if w == 0 { 1u8 } else { 0u8 }),
{
    subtle::ConstantTimeEq::ct_eq(&w, &0u32).unwrap_u8()
}

/// Relies on `zeroize`'s `Zeroize` for `u32`: `zeroize` overwrites the
/// word with zero through a volatile write the compiler may not elide.
#[verifier::external_body]
fn zeroize_word(w: &mut u32)
    ensures
        *final(w) == 0u32,
{
    zeroize::Zeroize::zeroize(w)
}

/// The value of the all-ones word, the largest a limb can hold.
pub const LIMB_MAX_WORD: u32 = 0xffff_ffff;

impl Limb {
    /// Constant-time test whether this limb is the zero word.
    pub fn is_zero(&self) -> (r: Choice)
        ensures
            r.is_set() == (self.0 == 0),
    {
        Choice::from_mask_byte(ct_word_eq_zero(self.0))
    }

    /// Constant-time choice between two limbs: `a` when the choice is
    /// clear, `b` when it is set.
    pub fn conditional_select(a: &Limb, b: &Limb, choice: Choice) -> (r: Limb)
        ensures
            r == (if choice.is_set() { *b } else { *a }),
    {
        Limb(ct_select_word(a.0, b.0, choice.to_byte()))
    }

    /// Overwrite this limb with the zero word.
    pub fn zeroize(&mut self)
        ensures
            *final(self) == Limb(0u32),
    {
        zeroize_word(&mut self.0);
    }

    /// Add with carry: the low word of `self + rhs + carry` together with
    /// the carry word, so that no part of the sum is ever lost.
    pub fn adc(self, rhs: Limb, carry: Limb) -> (r: (Limb, Limb))
        ensures
            r.0.0 + r.1.0 * 0x1_0000_0000 == self.0 + rhs.0 + carry.0,
            r.0.0 == (self.0 + rhs.0 + carry.0) % 0x1_0000_0000,
            r.1.0 == (self.0 + rhs.0 + carry.0) / 0x1_0000_0000,
    {
        let sum: u64 = self.0 as u64 + rhs.0 as u64 + carry.0 as u64;
        let low: u32 = (sum % 0x1_0000_0000) as u32;
        let hi: u32 = (sum / 0x1_0000_0000) as u32;
        proof {
            lemma_fundamental_div_mod(sum as int, 0x1_0000_0000);
            assert(sum / 0x1_0000_0000 < 0x1_0000_0000) by (nonlinear_arith)
                requires
                    sum <= 0x2_ffff_fffdu64,
            ;
        }
        (Limb(low), Limb(hi))
    }

    /// Subtract with borrow: the low word of `self - rhs - borrow_in` and
    /// the outgoing borrow, where the incoming borrow counts as 1 when the
    /// top bit of `borrow` is set and the outgoing borrow is the all-ones
    /// mask when the subtraction wrapped, the zero word otherwise.
    pub fn sbb(self, rhs: Limb, borrow: Limb) -> (r: (Limb, Limb))
        ensures
            ({
                let d = self.0 - rhs.0 - (if borrow.0 >= 0x8000_0000 { 1int } else { 0int });
                &&& (d >= 0 ==> r.0.0 == d && r.1.0 == 0)
                &&& (d < 0 ==> r.0.0 == d + 0x1_0000_0000 && r.1.0 == LIMB_MAX_WORD)
            }),
    {
        let b0: u32 = borrow.0;
        let bin: u32 = b0 >> 31;
        proof {
            assert(b0 >> 31u32 == (if b0 >= 0x8000_0000 { 1u32 } else { 0u32 })) by (bit_vector);
        }
        // shift the subtraction into [1, 2^33) so it cannot wrap
        let diff: u64 = self.0 as u64 + 0x1_0000_0000 - (rhs.0 as u64 + bin as u64);
        let low: u32 = (diff % 0x1_0000_0000) as u32;
        let hi: u32 = ((diff / 0x1_0000_0000) as u32).wrapping_sub(1);
        proof {
            lemma_fundamental_div_mod(diff as int, 0x1_0000_0000);
            assert(diff / 0x1_0000_0000 <= 1) by (nonlinear_arith)
                requires
                    diff < 0x2_0000_0000u64,
            ;
        }
        (Limb(low), Limb(hi))
    }

    /// Decode one limb from a big-endian chunk of exactly the limb's width.
    pub fn from_be_slice(chunk: &[u8]) -> (r: Limb)
        requires
            chunk@.len() == LIMB_BYTES,
        ensures
            r.0 == be_chunk_word(chunk@),
    {
        Limb(
            (chunk[0] as u32) * 0x100_0000 + (chunk[1] as u32) * 0x1_0000
                + (chunk[2] as u32) * 0x100 + (chunk[3] as u32),
        )
    }

    /// Decode one limb from a little-endian chunk of exactly the limb's width.
    pub fn from_le_slice(chunk: &[u8]) -> (r: Limb)
        requires
            chunk@.len() == LIMB_BYTES,
        ensures
            r.0 == le_chunk_word(chunk@),
    {
        Limb(
            (chunk[0] as u32) + (chunk[1] as u32) * 0x100 + (chunk[2] as u32) * 0x1_0000
                + (chunk[3] as u32) * 0x100_0000,
        )
    }
}

/// The word a big-endian limb-width chunk of bytes stands for.
pub open spec fn be_chunk_word(s: Seq<u8>) -> u32
    recommends
        s.len() == LIMB_BYTES,
{
    (s[0] * 0x100_0000 + s[1] * 0x1_0000 + s[2] * 0x100 + s[3]) as u32
}

/// The word a little-endian limb-width chunk of bytes stands for.
pub open spec fn le_chunk_word(s: Seq<u8>) -> u32
    recommends
        s.len() == LIMB_BYTES,
{
    (s[0] + s[1] * 0x100 + s[2] * 0x1_0000 + s[3] * 0x100_0000) as u32
}

} // verus!

//! The fixed-precision heap-allocated big unsigned integer.

use vstd::prelude::*;
use crate::choice::Choice;
use crate::limb::{Limb, LIMB_BITS, LIMB_MAX_WORD};

verus! {

/// All-zero limb sequence of the given length.
pub open spec fn zero_limbs(n: nat) -> Seq<Limb> {
    Seq::new(n, |i: int| Limb(0u32))
}

/// Every limb of the sequence is the zero word.
pub open spec fn all_zero(s: Seq<Limb>) -> bool {
    forall|i: int| 0 <= i < s.len() ==> (#[trigger] s[i]).0 == 0
}

/// Fixed-precision heap-allocated big unsigned integer.
///
/// The limbs are stored least significant first; the precision is
/// `nlimbs() * LIMB_BITS` bits, fixed for the value's lifetime. The type
/// wraps at its precision rather than growing.
#[derive(Debug)]
pub struct BoxedUint {
    limbs: Vec<Limb>,
}

impl View for BoxedUint {
    type V = Seq<Limb>;

    closed spec fn view(&self) -> Seq<Limb> {
        self.limbs@
    }
}

/// An all-zero limb buffer of the given length, built one limb at a time.
fn zero_limb_vec(n: usize) -> (v: Vec<Limb>)
    ensures
        v@ == zero_limbs(n as nat),
{
    let mut v: Vec<Limb> = Vec::new();
    let mut i: usize = 0;
    while i < n
        invariant
            i <= n,
            v@.len() == i,
            forall|j: int| 0 <= j < i ==> (#[trigger] v@[j]) == Limb(0u32),
        decreases n - i,
    {
        v.push(Limb(0));
        i = i + 1;
    }
    proof {
        assert(v@ =~= zero_limbs(n as nat));
    }
    v
}

impl BoxedUint {
    /// The value `0` represented as succinctly as possible: no limbs at
    /// all, the canonical zero-precision zero.
    pub fn zero() -> (r: Self)
        ensures
            r@ == Seq::<Limb>::empty(),
    {
        let r = BoxedUint { limbs: Vec::new() };
        proof {
            assert(r@ =~= Seq::<Limb>::empty());
        }
        r
    }

    /// The value `0` with the given number of bits of precision.
    ///
    /// The precision is caller-controlled and must be a multiple of the
    /// limb width; the library's functions never panic, so the demand is
    /// stated up front instead of aborting.
    pub fn zero_with_precision(bits_precision: usize) -> (r: Self)
        requires
            bits_precision % LIMB_BITS == 0,
        ensures
            r@ == zero_limbs((bits_precision / LIMB_BITS) as nat),
    {
        BoxedUint { limbs: zero_limb_vec(bits_precision / LIMB_BITS) }
    }

    /// The value `1` represented as succinctly as possible: one limb.
    pub fn one() -> (r: Self)
        ensures
            r@ == seq![Limb(1u32)],
    {
        let mut limbs: Vec<Limb> = Vec::new();
        limbs.push(Limb(1));
        let r = BoxedUint { limbs };
        proof {
            assert(r@ =~= seq![Limb(1u32)]);
        }
        r
    }

    /// The value `1` with the given number of bits of precision: lowest
    /// limb one, all higher limbs zero.
    pub fn one_with_precision(bits_precision: usize) -> (r: Self)
        requires
            bits_precision >= LIMB_BITS,
            bits_precision % LIMB_BITS == 0,
        ensures
            r@ == zero_limbs((bits_precision / LIMB_BITS) as nat).update(0, Limb(1u32)),
    {
        let mut limbs = zero_limb_vec(bits_precision / LIMB_BITS);
        limbs[0] = Limb(1);
        let r = BoxedUint { limbs };
        proof {
            assert(r@ =~= zero_limbs((bits_precision / LIMB_BITS) as nat).update(0, Limb(1u32)));
        }
        r
    }

    /// The maximum value for the given number of bits of precision: every
    /// limb the all-ones word, so the value is `2^bits_precision - 1`.
    pub fn max(bits_precision: usize) -> (r: Self)
        requires
            bits_precision % LIMB_BITS == 0,
        ensures
            r@.len() == bits_precision / LIMB_BITS,
            forall|i: int| 0 <= i < r@.len() ==> (#[trigger] r@[i]) == Limb(LIMB_MAX_WORD),
    {
        let n = bits_precision / LIMB_BITS;
        let mut limbs: Vec<Limb> = Vec::new();
        let mut i: usize = 0;
        while i < n
            invariant
                i <= n,
                limbs@.len() == i,
                forall|j: int| 0 <= j < i ==> (#[trigger] limbs@[j]) == Limb(LIMB_MAX_WORD),
            decreases n - i,
        {
            limbs.push(Limb(LIMB_MAX_WORD));
            i = i + 1;
        }
        BoxedUint { limbs }
    }

    /// Adopt a sequence of raw words directly, one limb per word.
    pub fn from_words(words: Vec<u32>) -> (r: Self)
        ensures
            r@.len() == words@.len(),
            forall|i: int| 0 <= i < words@.len() ==> (#[trigger] r@[i]) == Limb(words@[i]),
    {
        let n = words.len();
        let mut limbs: Vec<Limb> = Vec::new();
        let mut i: usize = 0;
        while i < n
            invariant
                i <= n,
                n == words@.len(),
                limbs@.len() == i,
                forall|j: int| 0 <= j < i ==> (#[trigger] limbs@[j]) == Limb(words@[j]),
            decreases n - i,
        {
            limbs.push(Limb(words[i]));
            i = i + 1;
        }
        BoxedUint { limbs }
    }

    /// Copy the limbs out as raw words.
    pub fn to_words(&self) -> (r: Vec<u32>)
        ensures
            r@.len() == self@.len(),
            forall|i: int| 0 <= i < self@.len() ==> (#[trigger] r@[i]) == self@[i].0,
    {
        let n = self.limbs.len();
        let mut words: Vec<u32> = Vec::new();
        let mut i: usize = 0;
        while i < n
            invariant
                i <= n,
                n == self@.len(),
                words@.len() == i,
                forall|j: int| 0 <= j < i ==> (#[trigger] words@[j]) == self@[j].0,
            decreases n - i,
        {
            words.push(self.limbs[i].0);
            i = i + 1;
        }
        words
    }

    /// Adopt an owned limb buffer without copying.
    pub fn from_limbs(limbs: Vec<Limb>) -> (r: Self)
        ensures
            r@ == limbs@,
    {
        BoxedUint { limbs }
    }

    /// Borrow the limbs.
    pub fn as_limbs(&self) -> (r: &[Limb])
        ensures
            r@ == self@,
    {
        self.limbs.as_slice()
    }

    /// Borrow the limb buffer mutably.
    pub fn as_limbs_mut(&mut self) -> (r: &mut Vec<Limb>)
        ensures
            (*r)@ == old(self)@,
            final(self)@ == (*final(r))@,
    {
        &mut self.limbs
    }

    /// Copy the limbs out as an owned buffer.
    pub fn to_limbs(&self) -> (r: Vec<Limb>)
        ensures
            r@ == self@,
    {
        let n = self.limbs.len();
        let mut limbs: Vec<Limb> = Vec::new();
        let mut i: usize = 0;
        while i < n
            invariant
                i <= n,
                n == self@.len(),
                limbs@.len() == i,
                forall|j: int| 0 <= j < i ==> (#[trigger] limbs@[j]) == self@[j],
            decreases n - i,
        {
            limbs.push(self.limbs[i]);
            i = i + 1;
        }
        proof {
            assert(limbs@ =~= self@);
        }
        limbs
    }

    /// Turn this value into its limb buffer, transferring ownership.
    pub fn into_limbs(self) -> (r: Vec<Limb>)
        ensures
            r@ == self@,
    {
        self.limbs
    }

    /// The number of limbs, so that the precision is `nlimbs() * LIMB_BITS`.
    pub fn nlimbs(&self) -> (r: usize)
        ensures
            r == self@.len(),
    {
        self.limbs.len()
    }

    /// Constant-time test whether this value is zero: the zero tests of
    /// all limbs are combined without short-circuiting, so the path taken
    /// never depends on limb contents. The empty limb sequence counts as
    /// zero.
    pub fn is_zero(&self) -> (r: Choice)
        ensures
            r.is_set() == all_zero(self@),
    {
        let n = self.limbs.len();
        let mut acc = Choice::set();
        let mut i: usize = 0;
        while i < n
            invariant
                i <= n,
                n == self@.len(),
                acc.is_set() == (forall|j: int| 0 <= j < i ==> (#[trigger] self@[j]).0 == 0),
            decreases n - i,
        {
            acc = acc.and(self.limbs[i].is_zero());
            i = i + 1;
        }
        acc
    }

    /// Constant-time choice between two values of equal precision: every
    /// limb position is selected independently, and every position is
    /// touched whatever the choice. Returns `a` limb for limb when the
    /// choice is clear, `b` when it is set.
    ///
    /// Operands of unequal limb count are a caller error; the demand is
    /// stated up front, as the library's functions never panic.
    pub fn conditional_select(a: &Self, b: &Self, choice: Choice) -> (r: Self)
        requires
            a@.len() == b@.len(),
        ensures
            r@.len() == a@.len(),
            forall|i: int|
                0 <= i < a@.len() ==> (#[trigger] r@[i]) == (if choice.is_set() {
                    b@[i]
                } else {
                    a@[i]
                }),
    {
        let n = a.limbs.len();
        let mut limbs: Vec<Limb> = Vec::new();
        let mut i: usize = 0;
        while i < n
            invariant
                i <= n,
                n == a@.len(),
                n == b@.len(),
                limbs@.len() == i,
                forall|j: int|
                    0 <= j < i ==> (#[trigger] limbs@[j]) == (if choice.is_set() {
                        b@[j]
                    } else {
                        a@[j]
                    }),
            decreases n - i,
        {
            limbs.push(Limb::conditional_select(&a.limbs[i], &b.limbs[i], choice));
            i = i + 1;
        }
        BoxedUint { limbs }
    }

    /// Carry chain: fold a per-limb combining function over the limbs of
    /// both operands, threading the carry through every position.
    ///
    /// The fold runs exactly `max(lhs.nlimbs(), rhs.nlimbs())` steps — a
    /// count that depends only on the operands' public lengths — and a
    /// position beyond an operand's own length contributes the zero word,
    /// so the shorter operand is zero-extended, never the longer one
    /// truncated. The final carry is always handed back to the caller,
    /// never dropped.
    pub fn chain<F: Fn(Limb, Limb, Limb) -> (Limb, Limb)>(
        lhs: &Self,
        rhs: &Self,
        carry: Limb,
        f: F,
    ) -> ((out, carry_out): (Self, Limb))
        requires
            forall|a: Limb, b: Limb, c: Limb| #[trigger] f.requires((a, b, c)),
        ensures
            out@.len() == max_len(lhs@.len(), rhs@.len()),
            carry_chain_result(f, lhs@, rhs@, carry, out@, carry_out),
    {
        let n_l = lhs.limbs.len();
        let n_r = rhs.limbs.len();
        let nlimbs = if n_l >= n_r {
            n_l
        } else {
            n_r
        };
        let mut limbs: Vec<Limb> = Vec::new();
        let mut cur = carry;
        let ghost mut carries: Seq<Limb> = seq![carry];
        let mut i: usize = 0;
        while i < nlimbs
            invariant
                i <= nlimbs,
                n_l == lhs@.len(),
                n_r == rhs@.len(),
                nlimbs == max_len(lhs@.len(), rhs@.len()),
                limbs@.len() == i,
                carries.len() == i + 1,
                carries[0] == carry,
                carries[i as int] == cur,
                forall|a: Limb, b: Limb, c: Limb| #[trigger] f.requires((a, b, c)),
                forall|j: int|
                    0 <= j < i ==> f.ensures(
                        (limb_at(lhs@, j), limb_at(rhs@, j), carries[j]),
                        ((#[trigger] limbs@[j]), carries[j + 1]),
                    ),
            decreases nlimbs - i,
        {
            let a = if i < n_l {
                lhs.limbs[i]
            } else {
                Limb(0)
            };
            let b = if i < n_r {
                rhs.limbs[i]
            } else {
                Limb(0)
            };
            let (limb, c) = f(a, b, cur);
            limbs.push(limb);
            cur = c;
            proof {
                carries = carries.push(c);
            }
            i = i + 1;
        }
        let result = BoxedUint { limbs };
        proof {
            assert(is_carry_chain(f, lhs@, rhs@, carry, result@, carries, cur));
        }
        (result, cur)
    }

    /// Wipe the value: every limb is overwritten with the zero word, on
    /// the buffer in place, keeping the precision.
    pub fn zeroize(&mut self)
        ensures
            final(self)@ == zero_limbs(old(self)@.len()),
    {
        let n = self.limbs.len();
        let mut i: usize = 0;
        while i < n
            invariant
                i <= n,
                self@.len() == n,
                forall|j: int| 0 <= j < i ==> (#[trigger] self@[j]) == Limb(0u32),
            decreases n - i,
        {
            let elem = &mut self.limbs[i];
            elem.zeroize();
            i = i + 1;
        }
        proof {
            assert(self@ =~= zero_limbs(old(self)@.len()));
        }
    }
}

impl BoxedUint {
    /// A primitive no wider than one limb, wrapped as a single limb.
    pub fn from_u8(n: u8) -> (r: Self)
        ensures
            r@ == seq![Limb(n as u32)],
    {
        let mut limbs: Vec<Limb> = Vec::new();
        limbs.push(Limb(n as u32));
        let r = BoxedUint { limbs };
        proof {
            assert(r@ =~= seq![Limb(n as u32)]);
        }
        r
    }

    /// A primitive no wider than one limb, wrapped as a single limb.
    pub fn from_u16(n: u16) -> (r: Self)
        ensures
            r@ == seq![Limb(n as u32)],
    {
        let mut limbs: Vec<Limb> = Vec::new();
        limbs.push(Limb(n as u32));
        let r = BoxedUint { limbs };
        proof {
            assert(r@ =~= seq![Limb(n as u32)]);
        }
        r
    }

    /// A primitive of exactly one limb's width, wrapped as a single limb.
    pub fn from_u32(n: u32) -> (r: Self)
        ensures
            r@ == seq![Limb(n)],
    {
        let mut limbs: Vec<Limb> = Vec::new();
        limbs.push(Limb(n));
        let r = BoxedUint { limbs };
        proof {
            assert(r@ =~= seq![Limb(n)]);
        }
        r
    }

    /// A two-limb-wide primitive, decomposed least significant limb first.
    pub fn from_u64(n: u64) -> (r: Self)
        ensures
            r@ == seq![Limb((n % 0x1_0000_0000) as u32), Limb((n / 0x1_0000_0000) as u32)],
    {
        proof {
            assert(n / 0x1_0000_0000 < 0x1_0000_0000) by (nonlinear_arith)
                requires
                    n <= 0xffff_ffff_ffff_ffffu64,
            ;
        }
        let mut limbs: Vec<Limb> = Vec::new();
        limbs.push(Limb((n % 0x1_0000_0000) as u32));
        limbs.push(Limb((n / 0x1_0000_0000) as u32));
        let r = BoxedUint { limbs };
        proof {
            assert(r@ =~= seq![
                Limb((n % 0x1_0000_0000) as u32),
                Limb((n / 0x1_0000_0000) as u32),
            ]);
        }
        r
    }

    /// A four-limb-wide primitive, decomposed least significant limb first.
    pub fn from_u128(n: u128) -> (r: Self)
        ensures
            r@ == seq![
                Limb((n % 0x1_0000_0000) as u32),
                Limb(((n / 0x1_0000_0000) % 0x1_0000_0000) as u32),
                Limb(((n / 0x1_0000_0000_0000_0000) % 0x1_0000_0000) as u32),
                Limb((n / 0x1_0000_0000_0000_0000_0000_0000) as u32),
            ],
    {
        proof {
            assert(n / 0x1_0000_0000_0000_0000_0000_0000 < 0x1_0000_0000) by (nonlinear_arith)
                requires
                    n <= 0xffff_ffff_ffff_ffff_ffff_ffff_ffff_ffffu128,
            ;
        }
        let mut limbs: Vec<Limb> = Vec::new();
        limbs.push(Limb((n % 0x1_0000_0000) as u32));
        limbs.push(Limb(((n / 0x1_0000_0000) % 0x1_0000_0000) as u32));
        limbs.push(Limb(((n / 0x1_0000_0000_0000_0000) % 0x1_0000_0000) as u32));
        limbs.push(Limb((n / 0x1_0000_0000_0000_0000_0000_0000) as u32));
        let r = BoxedUint { limbs };
        proof {
            assert(r@ =~= seq![
                Limb((n % 0x1_0000_0000) as u32),
                Limb(((n / 0x1_0000_0000) % 0x1_0000_0000) as u32),
                Limb(((n / 0x1_0000_0000_0000_0000) % 0x1_0000_0000) as u32),
                Limb((n / 0x1_0000_0000_0000_0000_0000_0000) as u32),
            ]);
        }
        r
    }
}

impl Clone for BoxedUint {
    /// Deep copy: the clone owns a fresh buffer with the same limbs.
    fn clone(&self) -> (r: Self)
        ensures
            r@ == self@,
    {
        BoxedUint { limbs: self.to_limbs() }
    }
}

impl Default for BoxedUint {
    /// The canonical zero-precision zero value.
    fn default() -> (r: Self)
        ensures
            r@ == Seq::<Limb>::empty(),
    {
        BoxedUint::zero()
    }
}

impl PartialEq for BoxedUint {
    /// Structural equality of the limb buffers, length included.
    ///
    /// This comparison is variable-time and meant for callers outside the
    /// constant-time discipline, such as tests; it is not a constant-time
    /// primitive.
    fn eq(&self, other: &Self) -> (r: bool) {
        let n = self.limbs.len();
        if n != other.limbs.len() {
            return false;
        }
        let mut i: usize = 0;
        while i < n
            invariant
                i <= n,
                n == self@.len(),
                n == other@.len(),
                forall|j: int| 0 <= j < i ==> self@[j] == other@[j],
            decreases n - i,
        {
            if self.limbs[i].0 != other.limbs[i].0 {
                return false;
            }
            i = i + 1;
        }
        proof {
            assert(self.limbs@ =~= other.limbs@);
        }
        true
    }
}

impl Eq for BoxedUint {

}

impl vstd::std_specs::cmp::PartialEqSpecImpl for BoxedUint {
    open spec fn obeys_eq_spec() -> bool {
        true
    }

    closed spec fn eq_spec(&self, other: &Self) -> bool {
        self.limbs@ == other.limbs@
    }
}

/// The zero predicate holds of every all-zero construction: the canonical
/// zero-precision zero and the all-zero value of any precision satisfy
/// `all_zero`, so `is_zero` is set on them.
pub proof fn lemma_zero_values_are_zero(n: nat)
    ensures
        all_zero(zero_limbs(n)),
        all_zero(Seq::<Limb>::empty()),
{
}

/// The larger of two lengths: the limb count of a carry chain's result.
pub open spec fn max_len(a: nat, b: nat) -> nat {
    if a >= b {
        a
    } else {
        b
    }
}

/// The limb at position `i`, zero-extending past the end of the sequence.
pub open spec fn limb_at(s: Seq<Limb>, i: int) -> Limb {
    if 0 <= i < s.len() {
        s[i]
    } else {
        Limb(0u32)
    }
}

/// `out` and `carry_out` are a possible result of folding `f` over the
/// zero-extended limbs of `lhs` and `rhs` starting from `carry_in`: some
/// sequence of step carries ties every output limb to `f`'s contract.
pub open spec fn carry_chain_result<F: Fn(Limb, Limb, Limb) -> (Limb, Limb)>(
    f: F,
    lhs: Seq<Limb>,
    rhs: Seq<Limb>,
    carry_in: Limb,
    out: Seq<Limb>,
    carry_out: Limb,
) -> bool {
    exists|carries: Seq<Limb>|
        #[trigger] is_carry_chain(f, lhs, rhs, carry_in, out, carries, carry_out)
}

/// What it means for `out` and `carry_out` to be the result of folding
/// `f` over the zero-extended limbs of `lhs` and `rhs` starting from
/// `carry_in`, with `carries` the carry at each step.
pub open spec fn is_carry_chain<F: Fn(Limb, Limb, Limb) -> (Limb, Limb)>(
    f: F,
    lhs: Seq<Limb>,
    rhs: Seq<Limb>,
    carry_in: Limb,
    out: Seq<Limb>,
    carries: Seq<Limb>,
    carry_out: Limb,
) -> bool {
    &&& carries.len() == out.len() + 1
    &&& carries[0] == carry_in
    &&& carries[out.len() as int] == carry_out
    &&& forall|i: int|
        0 <= i < out.len() ==> f.ensures(
            (limb_at(lhs, i), limb_at(rhs, i), carries[i]),
            ((#[trigger] out[i]), carries[i + 1]),
        )
}

} // verus!

//! Hex textual rendering: limbs most significant first, each limb as
//! eight fixed-width hex digits, with no digits elided inside a value.

use vstd::prelude::*;
use crate::boxed::BoxedUint;
use crate::limb::Limb;

verus! {

/// The ASCII hex digit for a value below 16.
pub open spec fn hex_digit(v: int, upper: bool) -> u8
    recommends
        0 <= v < 16,
{
    if v < 10 {
        (0x30 + v) as u8
    } else if upper {
        (0x41 + v - 10) as u8
    } else {
        (0x61 + v - 10) as u8
    }
}

/// The eight hex digits of one limb word, most significant first.
pub open spec fn word_hex(w: u32, upper: bool) -> Seq<u8> {
    seq![
        hex_digit(w as int / 0x1000_0000, upper),
        hex_digit((w as int / 0x100_0000) % 16, upper),
        hex_digit((w as int / 0x10_0000) % 16, upper),
        hex_digit((w as int / 0x1_0000) % 16, upper),
        hex_digit((w as int / 0x1000) % 16, upper),
        hex_digit((w as int / 0x100) % 16, upper),
        hex_digit((w as int / 0x10) % 16, upper),
        hex_digit(w as int % 16, upper),
    ]
}

/// The hex rendering of a limb sequence: limbs most significant first,
/// eight digits each. Only the fully empty sequence falls back to one
/// zero limb, so zero-precision zero and one-limb zero read the same.
pub open spec fn hex_bytes(limbs: Seq<Limb>, upper: bool) -> Seq<u8> {
    if limbs.len() == 0 {
        word_hex(0, upper)
    } else {
        Seq::new(
            limbs.len() * 8,
            |j: int| word_hex(limbs[limbs.len() - 1 - j / 8].0, upper)[j % 8],
        )
    }
}

/// The characters a byte sequence of ASCII codes reads as.
pub open spec fn ascii_chars(bytes: Seq<u8>) -> Seq<char> {
    Seq::new(bytes.len(), |i: int| bytes[i] as char)
}

/// Relies on `String::from_utf8`: a buffer of bytes below 0x80 is valid
/// UTF-8 and comes back as the string of exactly those characters.
#[verifier::external_body]
fn ascii_string(bytes: Vec<u8>) -> (r: String)
    requires
        forall|i: int| 0 <= i < bytes@.len() ==> bytes@[i] < 0x80,
    ensures
        r@ == ascii_chars(bytes@),
{
    match String::from_utf8(bytes) {
        Ok(s) => s,
        Err(_) => String::new(),
    }
}

/// The ASCII hex digit for a nibble.
fn digit(v: u32, upper: bool) -> (r: u8)
    requires
        v < 16,
    ensures
        r == hex_digit(v as int, upper),
        r < 0x80,
{
    if v < 10 {
        0x30 + (v as u8)
    } else if upper {
        0x41 + (v as u8) - 10
    } else {
        0x61 + (v as u8) - 10
    }
}

/// The eight hex digits of one word, most significant first, appended to
/// `out`.
fn push_word_hex(out: &mut Vec<u8>, w: u32, upper: bool)
    ensures
        final(out)@ == old(out)@ + word_hex(w, upper),
{
    out.push(digit(w / 0x1000_0000, upper));
    out.push(digit((w / 0x100_0000) % 16, upper));
    out.push(digit((w / 0x10_0000) % 16, upper));
    out.push(digit((w / 0x1_0000) % 16, upper));
    out.push(digit((w / 0x1000) % 16, upper));
    out.push(digit((w / 0x100) % 16, upper));
    out.push(digit((w / 0x10) % 16, upper));
    out.push(digit(w % 16, upper));
    proof {
        assert(w / 0x1000_0000 < 16) by (nonlinear_arith)
            requires
                w <= 0xffff_ffffu32,
        ;
        assert(final(out)@ =~= old(out)@ + word_hex(w, upper));
    }
}

impl BoxedUint {
    /// The hex digits of this value as ASCII bytes.
    fn hex_ascii(&self, upper: bool) -> (r: Vec<u8>)
        ensures
            r@ == hex_bytes(self@, upper),
            forall|i: int| 0 <= i < r@.len() ==> (#[trigger] r@[i]) < 0x80,
    {
        let limbs = self.as_limbs();
        let n = limbs.len();
        let mut out: Vec<u8> = Vec::new();
        if n == 0 {
            push_word_hex(&mut out, 0, upper);
            proof {
                assert(out@ =~= hex_bytes(self@, upper));
            }
            return out;
        }
        let mut k: usize = 0;
        while k < n
            invariant
                k <= n,
                n >= 1,
                limbs@ == self@,
                n == self@.len(),
                out@.len() == 8 * k,
                forall|j: int| 0 <= j < 8 * k ==> (#[trigger] out@[j]) == hex_bytes(self@, upper)[j],
            decreases n - k,
        {
            let w = limbs[n - 1 - k].0;
            push_word_hex(&mut out, w, upper);
            proof {
                let j0 = 8 * (k as int);
                vstd::arithmetic::div_mod::lemma_fundamental_div_mod_converse(j0, 8, k as int, 0);
                vstd::arithmetic::div_mod::lemma_fundamental_div_mod_converse(
                    j0 + 1,
                    8,
                    k as int,
                    1,
                );
                vstd::arithmetic::div_mod::lemma_fundamental_div_mod_converse(
                    j0 + 2,
                    8,
                    k as int,
                    2,
                );
                vstd::arithmetic::div_mod::lemma_fundamental_div_mod_converse(
                    j0 + 3,
                    8,
                    k as int,
                    3,
                );
                vstd::arithmetic::div_mod::lemma_fundamental_div_mod_converse(
                    j0 + 4,
                    8,
                    k as int,
                    4,
                );
                vstd::arithmetic::div_mod::lemma_fundamental_div_mod_converse(
                    j0 + 5,
                    8,
                    k as int,
                    5,
                );
                vstd::arithmetic::div_mod::lemma_fundamental_div_mod_converse(
                    j0 + 6,
                    8,
                    k as int,
                    6,
                );
                vstd::arithmetic::div_mod::lemma_fundamental_div_mod_converse(
                    j0 + 7,
                    8,
                    k as int,
                    7,
                );
                assert(out@[j0] == hex_bytes(self@, upper)[j0]);
                assert(out@[j0 + 1] == hex_bytes(self@, upper)[j0 + 1]);
                assert(out@[j0 + 2] == hex_bytes(self@, upper)[j0 + 2]);
                assert(out@[j0 + 3] == hex_bytes(self@, upper)[j0 + 3]);
                assert(out@[j0 + 4] == hex_bytes(self@, upper)[j0 + 4]);
                assert(out@[j0 + 5] == hex_bytes(self@, upper)[j0 + 5]);
                assert(out@[j0 + 6] == hex_bytes(self@, upper)[j0 + 6]);
                assert(out@[j0 + 7] == hex_bytes(self@, upper)[j0 + 7]);
            }
            k = k + 1;
        }
        proof {
            assert(out@ =~= hex_bytes(self@, upper));
        }
        out
    }

    /// Render as lower-case hex.
    pub fn to_lower_hex(&self) -> (r: String)
        ensures
            r@ == ascii_chars(hex_bytes(self@, false)),
    {
        ascii_string(self.hex_ascii(false))
    }

    /// Render as upper-case hex.
    ///
    /// This is also the value's generic textual form: default rendering
    /// is hex, not decimal.
    pub fn to_upper_hex(&self) -> (r: String)
        ensures
            r@ == ascii_chars(hex_bytes(self@, true)),
    {
        ascii_string(self.hex_ascii(true))
    }
}

} // verus!

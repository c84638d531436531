//! Strict decoding of big- and little-endian byte buffers into
//! [`BoxedUint`] values at an explicit precision, and re-encoding.

use vstd::prelude::*;
use vstd::arithmetic::div_mod::{lemma_fundamental_div_mod, lemma_fundamental_div_mod_converse};
use crate::boxed::BoxedUint;
use crate::limb::{Limb, LIMB_BITS, LIMB_BYTES, be_chunk_word, le_chunk_word};

verus! {

/// Decoding errors: the only recoverable failure surface of this core.
#[derive(Clone, Copy, Debug, PartialEq, Eq, Structural)]
pub enum DecodeError {
    /// Input byte length is not a multiple of the limb byte width, or
    /// holds more bits than the requested precision.
    InputSize,
    /// Requested precision is not a positive multiple of the limb bit
    /// width.
    Precision,
}

/// The limbs a big-endian byte buffer decodes to at `nlimbs` limbs of
/// precision: the chunk nearest the end of the buffer is limb 0, and
/// positions past the supplied bytes are zero.
pub open spec fn be_limbs(bytes: Seq<u8>, nlimbs: nat) -> Seq<Limb>
    recommends
        bytes.len() % (LIMB_BYTES as nat) == 0,
{
    Seq::new(
        nlimbs,
        |i: int|
            if i < bytes.len() as int / (LIMB_BYTES as int) {
                Limb(
                    be_chunk_word(
                        bytes.subrange(
                            bytes.len() - (LIMB_BYTES as int) * i - (LIMB_BYTES as int),
                            bytes.len() - (LIMB_BYTES as int) * i,
                        ),
                    ),
                )
            } else {
                Limb(0u32)
            },
    )
}

/// The limbs a little-endian byte buffer decodes to at `nlimbs` limbs of
/// precision: the chunk at the start of the buffer is limb 0, and
/// positions past the supplied bytes are zero.
pub open spec fn le_limbs(bytes: Seq<u8>, nlimbs: nat) -> Seq<Limb>
    recommends
        bytes.len() % (LIMB_BYTES as nat) == 0,
{
    Seq::new(
        nlimbs,
        |i: int|
            if i < bytes.len() as int / (LIMB_BYTES as int) {
                Limb(
                    le_chunk_word(
                        bytes.subrange(
                            (LIMB_BYTES as int) * i,
                            (LIMB_BYTES as int) * i + (LIMB_BYTES as int),
                        ),
                    ),
                )
            } else {
                Limb(0u32)
            },
    )
}

/// Both validation rules of the decoding subsystem hold: the precision is
/// a positive multiple of the limb bit width, the byte length is a whole
/// number of limbs, and the bytes hold no more bits than the precision.
pub open spec fn decode_ok(bytes: Seq<u8>, bits_precision: usize) -> bool {
    &&& bits_precision > 0
    &&& bits_precision % LIMB_BITS == 0
    &&& bytes.len() % (LIMB_BYTES as nat) == 0
    &&& bytes.len() * 8 <= bits_precision
}

impl BoxedUint {
    /// Decode a big-endian byte buffer at the given precision in bits.
    ///
    /// The precision must be a positive multiple of the limb bit width,
    /// or `DecodeError::Precision` comes back; the byte length must be a
    /// whole number of limbs holding no more bits than the precision, or
    /// `DecodeError::InputSize` comes back. Fewer bytes than the
    /// precision implies are zero-extended: the missing high-order limbs
    /// are zero. Validation runs before anything is allocated.
    pub fn from_be_slice(bytes: &[u8], bits_precision: usize) -> (r: Result<Self, DecodeError>)
        ensures
            (bits_precision == 0 || bits_precision % LIMB_BITS != 0) <==> r == Err::<
                BoxedUint,
                DecodeError,
            >(DecodeError::Precision),
            (bits_precision > 0 && bits_precision % LIMB_BITS == 0 && (bytes@.len() % (
            LIMB_BYTES as nat) != 0 || bytes@.len() * 8 > bits_precision)) <==> r == Err::<
                BoxedUint,
                DecodeError,
            >(DecodeError::InputSize),
            decode_ok(bytes@, bits_precision) <==> r is Ok,
            r is Ok ==> r->Ok_0@ == be_limbs(bytes@, (bits_precision / LIMB_BITS) as nat),
    {
        if bits_precision == 0 || bits_precision % LIMB_BITS != 0 {
            return Err(DecodeError::Precision);
        }
        if bytes.len() % LIMB_BYTES != 0 || bytes.len() > bits_precision / 8 {
            return Err(DecodeError::InputSize);
        }
        let len = bytes.len();
        let nlimbs = bits_precision / LIMB_BITS;
        let in_limbs = len / LIMB_BYTES;
        proof {
            lemma_decode_sizes(len, bits_precision);
        }
        let mut limbs: Vec<Limb> = Vec::new();
        let mut i: usize = 0;
        while i < nlimbs
            invariant
                i <= nlimbs,
                len == bytes@.len(),
                in_limbs == len / LIMB_BYTES,
                (LIMB_BYTES as int) * (in_limbs as int) == len,
                in_limbs <= nlimbs,
                limbs@.len() == i,
                forall|j: int|
                    0 <= j < i ==> (#[trigger] limbs@[j]) == be_limbs(bytes@, nlimbs as nat)[j],
            decreases nlimbs - i,
        {
            if i < in_limbs {
                let start = len - LIMB_BYTES * (i + 1);
                let chunk = &bytes[start..start + LIMB_BYTES];
                limbs.push(Limb::from_be_slice(chunk));
            } else {
                limbs.push(Limb(0));
            }
            i = i + 1;
        }
        let ret = BoxedUint::from_limbs(limbs);
        proof {
            assert(ret@ =~= be_limbs(bytes@, nlimbs as nat));
        }
        Ok(ret)
    }

    /// Decode a little-endian byte buffer at the given precision in bits.
    ///
    /// Validation is the same as for the big-endian decode; here the
    /// chunk at the start of the buffer is limb 0 and each chunk is read
    /// little-endian.
    pub fn from_le_slice(bytes: &[u8], bits_precision: usize) -> (r: Result<Self, DecodeError>)
        ensures
            (bits_precision == 0 || bits_precision % LIMB_BITS != 0) <==> r == Err::<
                BoxedUint,
                DecodeError,
            >(DecodeError::Precision),
            (bits_precision > 0 && bits_precision % LIMB_BITS == 0 && (bytes@.len() % (
            LIMB_BYTES as nat) != 0 || bytes@.len() * 8 > bits_precision)) <==> r == Err::<
                BoxedUint,
                DecodeError,
            >(DecodeError::InputSize),
            decode_ok(bytes@, bits_precision) <==> r is Ok,
            r is Ok ==> r->Ok_0@ == le_limbs(bytes@, (bits_precision / LIMB_BITS) as nat),
    {
        if bits_precision == 0 || bits_precision % LIMB_BITS != 0 {
            return Err(DecodeError::Precision);
        }
        if bytes.len() % LIMB_BYTES != 0 || bytes.len() > bits_precision / 8 {
            return Err(DecodeError::InputSize);
        }
        let len = bytes.len();
        let nlimbs = bits_precision / LIMB_BITS;
        let in_limbs = len / LIMB_BYTES;
        proof {
            lemma_decode_sizes(len, bits_precision);
        }
        let mut limbs: Vec<Limb> = Vec::new();
        let mut i: usize = 0;
        while i < nlimbs
            invariant
                i <= nlimbs,
                len == bytes@.len(),
                in_limbs == len / LIMB_BYTES,
                (LIMB_BYTES as int) * (in_limbs as int) == len,
                in_limbs <= nlimbs,
                limbs@.len() == i,
                forall|j: int|
                    0 <= j < i ==> (#[trigger] limbs@[j]) == le_limbs(bytes@, nlimbs as nat)[j],
            decreases nlimbs - i,
        {
            if i < in_limbs {
                let start = LIMB_BYTES * i;
                let chunk = &bytes[start..start + LIMB_BYTES];
                limbs.push(Limb::from_le_slice(chunk));
            } else {
                limbs.push(Limb(0));
            }
            i = i + 1;
        }
        let ret = BoxedUint::from_limbs(limbs);
        proof {
            assert(ret@ =~= le_limbs(bytes@, nlimbs as nat));
        }
        Ok(ret)
    }
}

/// The big-endian bytes of one limb word, most significant first.
pub open spec fn be_word_bytes(w: u32) -> Seq<u8> {
    seq![
        (w / 0x100_0000) as u8,
        ((w / 0x1_0000) % 0x100) as u8,
        ((w / 0x100) % 0x100) as u8,
        (w % 0x100) as u8,
    ]
}

/// The big-endian encoding of a limb sequence: limbs emitted most
/// significant first, each as its big-endian bytes.
pub open spec fn be_encoded(limbs: Seq<Limb>) -> Seq<u8> {
    Seq::new(
        limbs.len() * (LIMB_BYTES as nat),
        |j: int| be_word_bytes(limbs[limbs.len() - 1 - j / 4].0)[j % 4],
    )
}

/// `bytes` grown to `total` bytes by zeros at the front, where a
/// big-endian encoding keeps its high-order digits.
pub open spec fn zero_pad_be(bytes: Seq<u8>, total: nat) -> Seq<u8>
    recommends
        bytes.len() <= total,
{
    Seq::new(
        total,
        |j: int|
            if j < total - bytes.len() {
                0u8
            } else {
                bytes[j - (total - bytes.len())]
            },
    )
}

impl BoxedUint {
    /// Encode this value as big-endian bytes: limbs most significant
    /// first, each limb as its big-endian bytes, `nlimbs() * LIMB_BYTES`
    /// bytes in all.
    pub fn to_be_bytes(&self) -> (r: Vec<u8>)
        ensures
            r@ == be_encoded(self@),
    {
        let limbs = self.as_limbs();
        let n = limbs.len();
        let mut out: Vec<u8> = Vec::new();
        let mut k: usize = 0;
        while k < n
            invariant
                k <= n,
                limbs@ == self@,
                n == self@.len(),
                out@.len() == 4 * k,
                forall|j: int| 0 <= j < 4 * k ==> (#[trigger] out@[j]) == be_encoded(self@)[j],
            decreases n - k,
        {
            let w = limbs[n - 1 - k].0;
            out.push((w / 0x100_0000) as u8);
            out.push(((w / 0x1_0000) % 0x100) as u8);
            out.push(((w / 0x100) % 0x100) as u8);
            out.push((w % 0x100) as u8);
            proof {
                let j0 = 4 * (k as int);
                lemma_fundamental_div_mod_converse(j0, 4, k as int, 0);
                lemma_fundamental_div_mod_converse(j0 + 1, 4, k as int, 1);
                lemma_fundamental_div_mod_converse(j0 + 2, 4, k as int, 2);
                lemma_fundamental_div_mod_converse(j0 + 3, 4, k as int, 3);
                assert(out@[j0] == be_encoded(self@)[j0]);
                assert(out@[j0 + 1] == be_encoded(self@)[j0 + 1]);
                assert(out@[j0 + 2] == be_encoded(self@)[j0 + 2]);
                assert(out@[j0 + 3] == be_encoded(self@)[j0 + 3]);
            }
            k = k + 1;
        }
        proof {
            assert(out@ =~= be_encoded(self@));
        }
        out
    }
}

/// Reading a big-endian chunk as a word and writing the word back out as
/// bytes gives the chunk again.
pub proof fn lemma_be_chunk_bytes(s: Seq<u8>)
    requires
        s.len() == LIMB_BYTES,
    ensures
        be_word_bytes(be_chunk_word(s)) == s,
{
    let w = be_chunk_word(s) as int;
    assert(w == s[0] * 0x100_0000 + s[1] * 0x1_0000 + s[2] * 0x100 + s[3]);
    lemma_fundamental_div_mod_converse(
        w,
        0x100_0000,
        s[0] as int,
        s[1] * 0x1_0000 + s[2] * 0x100 + s[3],
    );
    lemma_fundamental_div_mod_converse(
        w,
        0x1_0000,
        s[0] * 0x100 + s[1],
        s[2] * 0x100 + s[3],
    );
    lemma_fundamental_div_mod_converse(s[0] * 0x100 + s[1], 0x100, s[0] as int, s[1] as int);
    lemma_fundamental_div_mod_converse(
        w,
        0x100,
        s[0] * 0x1_0000 + s[1] * 0x100 + s[2],
        s[3] as int,
    );
    lemma_fundamental_div_mod_converse(
        s[0] * 0x1_0000 + s[1] * 0x100 + s[2],
        0x100,
        s[0] * 0x100 + s[1],
        s[2] as int,
    );
    assert(be_word_bytes(be_chunk_word(s)) =~= s);
}

/// Round trip: the big-endian encoding of what a whole-limb big-endian
/// buffer decodes to, at any precision that holds it, is the buffer
/// itself zero-padded at the front to the full width.
pub proof fn lemma_be_round_trip(bytes: Seq<u8>, nlimbs: nat)
    requires
        bytes.len() % (LIMB_BYTES as nat) == 0,
        bytes.len() <= nlimbs * (LIMB_BYTES as nat),
    ensures
        be_encoded(be_limbs(bytes, nlimbs)) == zero_pad_be(bytes, nlimbs * (LIMB_BYTES as nat)),
{
    let len = bytes.len() as int;
    let n = nlimbs as int;
    let m = len / 4;
    lemma_fundamental_div_mod(len, 4);
    let enc = be_encoded(be_limbs(bytes, nlimbs));
    let pad = zero_pad_be(bytes, nlimbs * (LIMB_BYTES as nat));
    assert forall|j: int| 0 <= j < 4 * n implies enc[j] == pad[j] by {
        let q = j / 4;
        let t = j % 4;
        lemma_fundamental_div_mod(j, 4);
        let i = n - 1 - q;
        if i < m {
            let chunk = bytes.subrange(len - 4 * i - 4, len - 4 * i);
            lemma_be_chunk_bytes(chunk);
            assert(enc[j] == chunk[t]);
            assert(chunk[t] == bytes[len - 4 * i - 4 + t]);
            assert(j - (4 * n - len) == len - 4 * i - 4 + t);
        } else {
            assert(be_limbs(bytes, nlimbs)[i] == Limb(0u32));
            assert(be_word_bytes(0)[t] == 0);
            assert(j < 4 * n - len);
        }
    }
    assert(enc =~= pad);
}

/// Endianness symmetry: a reversed buffer decoded little-endian gives the
/// same limbs as the original buffer decoded big-endian.
pub proof fn lemma_endian_symmetry(bytes: Seq<u8>, nlimbs: nat)
    requires
        bytes.len() % (LIMB_BYTES as nat) == 0,
    ensures
        le_limbs(bytes.reverse(), nlimbs) == be_limbs(bytes, nlimbs),
{
    let len = bytes.len() as int;
    let rev = bytes.reverse();
    let ls = le_limbs(rev, nlimbs);
    let bs = be_limbs(bytes, nlimbs);
    lemma_fundamental_div_mod(len, 4);
    assert forall|i: int| 0 <= i < nlimbs implies ls[i] == bs[i] by {
        if i < len / 4 {
            let c_le = rev.subrange(4 * i, 4 * i + 4);
            let c_be = bytes.subrange(len - 4 * i - 4, len - 4 * i);
            assert(c_le[0] == bytes[len - 1 - 4 * i]);
            assert(c_le[1] == bytes[len - 2 - 4 * i]);
            assert(c_le[2] == bytes[len - 3 - 4 * i]);
            assert(c_le[3] == bytes[len - 4 - 4 * i]);
            assert(le_chunk_word(c_le) == be_chunk_word(c_be));
        }
    }
    assert(ls =~= bs);
}

/// Short-input zero-extension: every limb position past the supplied
/// bytes decodes to the zero word, in either byte order.
pub proof fn lemma_short_input_zero_extension(bytes: Seq<u8>, nlimbs: nat, i: int)
    requires
        bytes.len() % (LIMB_BYTES as nat) == 0,
        bytes.len() as int / (LIMB_BYTES as int) <= i < nlimbs,
    ensures
        be_limbs(bytes, nlimbs)[i] == Limb(0u32),
        le_limbs(bytes, nlimbs)[i] == Limb(0u32),
{
}

/// Size bookkeeping shared by both decodes: a byte length that is a whole
/// number of limbs and holds no more bits than the precision gives a limb
/// count within the allocated buffer.
proof fn lemma_decode_sizes(len: usize, bits_precision: usize)
    requires
        len % LIMB_BYTES == 0,
        bits_precision % LIMB_BITS == 0,
        len <= bits_precision / 8,
    ensures
        (LIMB_BYTES as int) * ((len / LIMB_BYTES) as int) == len,
        len / LIMB_BYTES <= bits_precision / LIMB_BITS,
        len * 8 <= bits_precision,
{
    lemma_fundamental_div_mod(len as int, LIMB_BYTES as int);
    lemma_fundamental_div_mod(bits_precision as int, LIMB_BITS as int);
    lemma_fundamental_div_mod(bits_precision as int, 8);
    let nl = bits_precision as int / (LIMB_BITS as int);
    lemma_fundamental_div_mod_converse(bits_precision as int, 8, 4 * nl, 0);
}

} // verus!

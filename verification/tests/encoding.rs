//! Decoding, re-encoding and hex rendering.

use boxed_bigint::{BoxedUint, DecodeError, Limb};

#[test]
fn from_be_slice_eq() {
    let bytes = [0x00u8, 0x11, 0x22, 0x33, 0x44, 0x55, 0x66, 0x77];
    let n = BoxedUint::from_be_slice(&bytes, 64).unwrap();
    assert_eq!(n.as_limbs(), &[Limb(0x44556677), Limb(0x00112233)]);
}

#[test]
fn from_be_slice_short() {
    let bytes = [0x00u8, 0x11, 0x22, 0x33, 0x44, 0x55, 0x66, 0x77];
    let n = BoxedUint::from_be_slice(&bytes, 128).unwrap();
    assert_eq!(
        n.as_limbs(),
        &[Limb(0x44556677), Limb(0x00112233), Limb(0), Limb(0)]
    );
}

#[test]
fn from_be_slice_too_long() {
    let bytes = [
        0x00u8, 0x11, 0x22, 0x33, 0x44, 0x55, 0x66, 0x77, 0x88, 0x99, 0xaa, 0xbb, 0xcc, 0xdd,
        0xee, 0xff,
    ];
    assert_eq!(
        BoxedUint::from_be_slice(&bytes, 64),
        Err(DecodeError::InputSize)
    );
}

#[test]
fn from_be_slice_not_word_sized() {
    let bytes = [
        0x00u8, 0x11, 0x22, 0x33, 0x44, 0x55, 0x66, 0x77, 0x88, 0x99, 0xaa, 0xbb, 0xcc, 0xdd,
        0xee,
    ];
    assert_eq!(
        BoxedUint::from_be_slice(&bytes, 128),
        Err(DecodeError::InputSize)
    );
}

#[test]
fn from_be_slice_bad_precision() {
    let bytes = [
        0x00u8, 0x11, 0x22, 0x33, 0x44, 0x55, 0x66, 0x77, 0x88, 0x99, 0xaa, 0xbb, 0xcc, 0xdd,
        0xee, 0xff,
    ];
    assert_eq!(
        BoxedUint::from_be_slice(&bytes, 127),
        Err(DecodeError::Precision)
    );
}

#[test]
fn from_le_slice_eq() {
    let bytes = [0x77u8, 0x66, 0x55, 0x44, 0x33, 0x22, 0x11, 0x00];
    let n = BoxedUint::from_le_slice(&bytes, 64).unwrap();
    assert_eq!(n.as_limbs(), &[Limb(0x44556677), Limb(0x00112233)]);
}

#[test]
fn from_le_slice_short() {
    let bytes = [0x77u8, 0x66, 0x55, 0x44, 0x33, 0x22, 0x11, 0x00];
    let n = BoxedUint::from_le_slice(&bytes, 128).unwrap();
    assert_eq!(
        n.as_limbs(),
        &[Limb(0x44556677), Limb(0x00112233), Limb(0), Limb(0)]
    );
}

#[test]
fn from_le_slice_too_long() {
    let bytes = [
        0xffu8, 0xee, 0xdd, 0xcc, 0xbb, 0xaa, 0x99, 0x88, 0x77, 0x66, 0x55, 0x44, 0x33, 0x22,
        0x11, 0x00,
    ];
    assert_eq!(
        BoxedUint::from_be_slice(&bytes, 64),
        Err(DecodeError::InputSize)
    );
}

#[test]
fn from_le_slice_not_word_sized() {
    let bytes = [
        0xffu8, 0xee, 0xdd, 0xcc, 0xbb, 0xaa, 0x99, 0x88, 0x77, 0x66, 0x55, 0x44, 0x33, 0x22,
        0x11,
    ];
    assert_eq!(
        BoxedUint::from_be_slice(&bytes, 128),
        Err(DecodeError::InputSize)
    );
}

#[test]
fn from_le_slice_bad_precision() {
    let bytes = [
        0xffu8, 0xee, 0xdd, 0xcc, 0xbb, 0xaa, 0x99, 0x88, 0x77, 0x66, 0x55, 0x44, 0x33, 0x22,
        0x11, 0x00,
    ];
    assert_eq!(
        BoxedUint::from_le_slice(&bytes, 127),
        Err(DecodeError::Precision)
    );
}

#[test]
fn be_round_trip_exact() {
    let bytes = [0x00u8, 0x11, 0x22, 0x33, 0x44, 0x55, 0x66, 0x77];
    let n = BoxedUint::from_be_slice(&bytes, 64).unwrap();
    assert_eq!(n.to_be_bytes(), bytes.to_vec());
}

#[test]
fn be_round_trip_zero_padded() {
    let bytes = [0xdeu8, 0xad, 0xbe, 0xef];
    let n = BoxedUint::from_be_slice(&bytes, 128).unwrap();
    let mut expected = vec![0u8; 12];
    expected.extend_from_slice(&bytes);
    assert_eq!(n.to_be_bytes(), expected);
}

#[test]
fn endian_symmetry() {
    let bytes = [0x01u8, 0x02, 0x03, 0x04, 0x05, 0x06, 0x07, 0x08];
    let mut reversed = bytes;
    reversed.reverse();
    let be = BoxedUint::from_be_slice(&bytes, 96).unwrap();
    let le = BoxedUint::from_le_slice(&reversed, 96).unwrap();
    assert_eq!(be, le);
}

#[test]
fn precision_zero_is_rejected() {
    let empty: [u8; 0] = [];
    assert_eq!(
        BoxedUint::from_be_slice(&empty, 0),
        Err(DecodeError::Precision)
    );
    assert_eq!(
        BoxedUint::from_le_slice(&empty, 0),
        Err(DecodeError::Precision)
    );
}

#[test]
fn precision_checked_before_size() {
    // a buffer that is also not word-sized still reports Precision first
    let bytes = [0x01u8, 0x02, 0x03];
    assert_eq!(
        BoxedUint::from_be_slice(&bytes, 33),
        Err(DecodeError::Precision)
    );
    assert_eq!(
        BoxedUint::from_le_slice(&bytes, 31),
        Err(DecodeError::Precision)
    );
}

#[test]
fn seventeen_bytes_at_64_bits() {
    let bytes = [0xa5u8; 17];
    assert_eq!(
        BoxedUint::from_be_slice(&bytes, 64),
        Err(DecodeError::InputSize)
    );
}

#[test]
fn le_size_validation() {
    let bytes = [0x01u8, 0x02, 0x03, 0x04, 0x05, 0x06, 0x07, 0x08];
    assert_eq!(
        BoxedUint::from_le_slice(&bytes, 32),
        Err(DecodeError::InputSize)
    );
    let odd = [0x01u8, 0x02, 0x03, 0x04, 0x05];
    assert_eq!(
        BoxedUint::from_le_slice(&odd, 64),
        Err(DecodeError::InputSize)
    );
}

#[test]
fn hex_rendering() {
    let bytes = [0x00u8, 0x11, 0x22, 0x33, 0xaa, 0xbb, 0xcc, 0xdd];
    let n = BoxedUint::from_be_slice(&bytes, 64).unwrap();
    assert_eq!(n.to_lower_hex(), "00112233aabbccdd");
    assert_eq!(n.to_upper_hex(), "00112233AABBCCDD");
}

#[test]
fn hex_keeps_leading_zero_limbs() {
    let bytes = [0x00u8, 0x00, 0x00, 0x01];
    let n = BoxedUint::from_be_slice(&bytes, 96).unwrap();
    assert_eq!(n.to_upper_hex(), "000000000000000000000001");
}

#[test]
fn hex_of_empty_value_is_one_zero_limb() {
    assert_eq!(BoxedUint::zero().to_lower_hex(), "00000000");
    assert_eq!(BoxedUint::zero().to_upper_hex(), "00000000");
    assert_eq!(
        BoxedUint::zero_with_precision(32).to_upper_hex(),
        "00000000"
    );
}

#[test]
fn limb_chunk_decoding() {
    assert_eq!(Limb::from_be_slice(&[0x12, 0x34, 0x56, 0x78]), Limb(0x12345678));
    assert_eq!(Limb::from_le_slice(&[0x12, 0x34, 0x56, 0x78]), Limb(0x78563412));
}

//! Constructors, accessors, constant-time primitives and the carry chain.

use boxed_bigint::{BoxedUint, Choice, Limb};

#[test]
fn conditional_select() {
    let a = BoxedUint::zero_with_precision(128);
    let b = BoxedUint::max(128);

    assert_eq!(a, BoxedUint::conditional_select(&a, &b, Choice::from_bool(false)));
    assert_eq!(b, BoxedUint::conditional_select(&a, &b, Choice::from_bool(true)));
}

#[test]
fn conditional_select_mixed_limbs() {
    let a = BoxedUint::from_words(vec![1, 2, 3]);
    let b = BoxedUint::from_words(vec![9, 8, 7]);
    let sel = BoxedUint::conditional_select(&a, &b, Choice::from_bool(true));
    assert_eq!(sel.as_limbs(), &[Limb(9), Limb(8), Limb(7)]);
    let sel = BoxedUint::conditional_select(&a, &b, Choice::from_bool(false));
    assert_eq!(sel.as_limbs(), &[Limb(1), Limb(2), Limb(3)]);
}

#[test]
fn zero_constructors() {
    assert_eq!(BoxedUint::zero().nlimbs(), 0);
    let z = BoxedUint::zero_with_precision(96);
    assert_eq!(z.nlimbs(), 3);
    assert_eq!(z.as_limbs(), &[Limb(0), Limb(0), Limb(0)]);
    assert_eq!(BoxedUint::default(), BoxedUint::zero());
}

#[test]
fn one_constructors() {
    assert_eq!(BoxedUint::one().as_limbs(), &[Limb(1)]);
    let o = BoxedUint::one_with_precision(96);
    assert_eq!(o.as_limbs(), &[Limb(1), Limb(0), Limb(0)]);
}

#[test]
fn max_constructor() {
    let m = BoxedUint::max(64);
    assert_eq!(m.as_limbs(), &[Limb(0xffff_ffff), Limb(0xffff_ffff)]);
    assert_eq!(BoxedUint::max(0).nlimbs(), 0);
}

#[test]
fn is_zero_predicate() {
    assert!(BoxedUint::zero().is_zero().to_bool());
    assert!(BoxedUint::zero_with_precision(128).is_zero().to_bool());
    assert!(!BoxedUint::one().is_zero().to_bool());
    assert!(!BoxedUint::from_words(vec![0, 0, 1]).is_zero().to_bool());
    assert!(BoxedUint::from_words(vec![0, 0, 0]).is_zero().to_bool());
}

#[test]
fn words_round_trip() {
    let n = BoxedUint::from_words(vec![0xdead, 0xbeef]);
    assert_eq!(n.as_limbs(), &[Limb(0xdead), Limb(0xbeef)]);
    assert_eq!(n.to_words(), vec![0xdead, 0xbeef]);
    assert_eq!(n.nlimbs(), 2);
}

#[test]
fn limb_accessors() {
    let n = BoxedUint::from_words(vec![5, 6]);
    assert_eq!(n.to_limbs(), vec![Limb(5), Limb(6)]);
    assert_eq!(n.clone().into_limbs(), vec![Limb(5), Limb(6)]);
    let m = BoxedUint::from_limbs(vec![Limb(7), Limb(8)]);
    assert_eq!(m.as_limbs(), &[Limb(7), Limb(8)]);
}

#[test]
fn mutable_limb_access() {
    let mut n = BoxedUint::zero_with_precision(64);
    n.as_limbs_mut()[0] = Limb(0x123);
    assert_eq!(n.as_limbs(), &[Limb(0x123), Limb(0)]);
}

#[test]
fn clone_is_deep_equal() {
    let n = BoxedUint::from_words(vec![1, 2, 3]);
    let c = n.clone();
    assert_eq!(n, c);
}

#[test]
fn zeroize_wipes_in_place() {
    let mut n = BoxedUint::max(96);
    n.zeroize();
    assert_eq!(n.nlimbs(), 3);
    assert!(n.is_zero().to_bool());
}

#[test]
fn chain_zero_extends_shorter_operand() {
    let lhs = BoxedUint::from_words(vec![0xffff_ffff]);
    let rhs = BoxedUint::from_words(vec![1, 0, 5]);
    let (sum, carry) = BoxedUint::chain(&lhs, &rhs, Limb(0), |a, b, c| a.adc(b, c));
    assert_eq!(sum.nlimbs(), 3);
    assert_eq!(sum.as_limbs(), &[Limb(0), Limb(1), Limb(5)]);
    assert_eq!(carry, Limb(0));
}

#[test]
fn chain_returns_final_carry() {
    let lhs = BoxedUint::max(32);
    let rhs = BoxedUint::one();
    let (sum, carry) = BoxedUint::chain(&lhs, &rhs, Limb(0), |a, b, c| a.adc(b, c));
    assert_eq!(sum.as_limbs(), &[Limb(0)]);
    assert_eq!(carry, Limb(1));
}

#[test]
fn chain_subtract_with_borrow() {
    let lhs = BoxedUint::from_words(vec![3]);
    let rhs = BoxedUint::from_words(vec![5, 0]);
    let (diff, borrow) = BoxedUint::chain(&lhs, &rhs, Limb(0), |a, b, c| a.sbb(b, c));
    assert_eq!(diff.as_limbs(), &[Limb(0xffff_fffe), Limb(0xffff_ffff)]);
    assert_eq!(borrow, Limb(0xffff_ffff));
}

#[test]
fn limb_adc_cases() {
    assert_eq!(Limb(2).adc(Limb(3), Limb(1)), (Limb(6), Limb(0)));
    assert_eq!(
        Limb(0xffff_ffff).adc(Limb(0xffff_ffff), Limb(0xffff_ffff)),
        (Limb(0xffff_fffd), Limb(2))
    );
    assert_eq!(Limb(0xffff_ffff).adc(Limb(1), Limb(0)), (Limb(0), Limb(1)));
}

#[test]
fn limb_sbb_cases() {
    assert_eq!(Limb(5).sbb(Limb(3), Limb(0)), (Limb(2), Limb(0)));
    assert_eq!(
        Limb(3).sbb(Limb(5), Limb(0)),
        (Limb(0xffff_fffe), Limb(0xffff_ffff))
    );
    assert_eq!(
        Limb(0).sbb(Limb(0), Limb(0xffff_ffff)),
        (Limb(0xffff_ffff), Limb(0xffff_ffff))
    );
}

#[test]
fn limb_constant_time_primitives() {
    assert!(Limb(0).is_zero().to_bool());
    assert!(!Limb(7).is_zero().to_bool());
    assert_eq!(
        Limb::conditional_select(&Limb(1), &Limb(2), Choice::from_bool(false)),
        Limb(1)
    );
    assert_eq!(
        Limb::conditional_select(&Limb(1), &Limb(2), Choice::from_bool(true)),
        Limb(2)
    );
}

#[test]
fn choice_combinators() {
    assert!(Choice::set().to_bool());
    assert!(!Choice::clear().to_bool());
    assert!(Choice::set().and(Choice::set()).to_bool());
    assert!(!Choice::set().and(Choice::clear()).to_bool());
    assert!(!Choice::clear().and(Choice::set()).to_bool());
    assert_eq!(Choice::from_bool(true).to_byte(), 1);
    assert_eq!(Choice::from_bool(false).to_byte(), 0);
}

#[test]
fn primitive_conversions() {
    assert_eq!(BoxedUint::from_u8(0xab).as_limbs(), &[Limb(0xab)]);
    assert_eq!(BoxedUint::from_u16(0xabcd).as_limbs(), &[Limb(0xabcd)]);
    assert_eq!(BoxedUint::from_u32(0xdead_beef).as_limbs(), &[Limb(0xdead_beef)]);
    assert_eq!(
        BoxedUint::from_u64(0x0011_2233_4455_6677).as_limbs(),
        &[Limb(0x4455_6677), Limb(0x0011_2233)]
    );
    assert_eq!(
        BoxedUint::from_u128(0x0011_2233_4455_6677_8899_aabb_ccdd_eeff).as_limbs(),
        &[
            Limb(0xccdd_eeff),
            Limb(0x8899_aabb),
            Limb(0x4455_6677),
            Limb(0x0011_2233)
        ]
    );
}

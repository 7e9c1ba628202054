use ec_math::error::EcError;
use ec_math::field::FieldElement;
use ec_math::scalar::Scalar;

fn fe(n: u64) -> FieldElement {
    let mut b = [0u8; 32];
    b[..8].copy_from_slice(&n.to_le_bytes());
    FieldElement::from_bytes(&b).unwrap()
}

fn p_minus(k: u8) -> [u8; 32] {
    let mut b = [0xffu8; 32];
    b[0] = 0xed - k;
    b[31] = 0x7f;
    b
}

#[test]
fn minus_one_plus_minus_one_is_minus_two() {
    let m1 = FieldElement::minus_one();
    assert_eq!(m1.to_bytes(), p_minus(1));
    assert_eq!(m1.add(&m1).to_bytes(), p_minus(2));
}

#[test]
fn two_times_minus_one_is_minus_two() {
    let two = FieldElement::one().add(&FieldElement::one());
    assert_eq!(two.mul(&FieldElement::minus_one()).to_bytes(), p_minus(2));
}

#[test]
fn add_zero_and_sub_self() {
    let a = fe(123456789);
    assert_eq!(a.add(&FieldElement::zero()), a);
    assert_eq!(a.sub(&a), FieldElement::zero());
    let m = FieldElement::minus_one();
    assert_eq!(m.add(&FieldElement::zero()), m);
    assert_eq!(m.sub(&m), FieldElement::zero());
}

#[test]
fn sub_wraps_below_zero() {
    assert_eq!(fe(3).sub(&fe(5)).to_bytes(), p_minus(2));
    assert_eq!(fe(5).negate().add(&fe(5)), FieldElement::zero());
}

#[test]
fn mul_small_values() {
    assert_eq!(fe(6).mul(&fe(7)), fe(42));
    assert_eq!(fe(0xffff_ffff).square(), fe(0xffff_fffe_0000_0001));
}

#[test]
fn invert_gives_multiplicative_inverse() {
    for n in [1u64, 2, 3, 121666, 0xdead_beef] {
        let a = fe(n);
        let inv = a.invert().unwrap();
        assert_eq!(a.mul(&inv), FieldElement::one());
    }
    let m = FieldElement::minus_one();
    assert_eq!(m.mul(&m.invert().unwrap()), FieldElement::one());
}

#[test]
fn invert_zero_is_undefined() {
    assert_eq!(FieldElement::zero().invert(), Err(EcError::UndefinedInverse));
}

#[test]
fn sqrt_minus_one_squares_to_minus_one() {
    let i = FieldElement::sqrt_minus_one();
    assert_eq!(i.square(), FieldElement::minus_one());
}

#[test]
fn inverse_square_root_of_squares() {
    for n in [1u64, 4, 9, 5, 0x1234_5678] {
        let a = fe(n).square();
        let (ok, r) = a.inverse_square_root();
        assert_eq!(ok, 1);
        assert_eq!(r.square().mul(&a), FieldElement::one());
    }
    let (ok, r) = FieldElement::minus_one().inverse_square_root();
    assert_eq!(ok, 1);
    assert_eq!(r.square().mul(&FieldElement::minus_one()), FieldElement::one());
}

#[test]
fn inverse_square_root_fails_on_non_squares_and_zero() {
    let (ok, _) = fe(2).inverse_square_root();
    assert_eq!(ok, 0);
    let (ok, _) = FieldElement::zero().inverse_square_root();
    assert_eq!(ok, 0);
}

#[test]
fn field_from_bytes_rejects_non_canonical() {
    assert_eq!(FieldElement::from_bytes(&p_minus(0)), Err(EcError::NonCanonicalEncoding));
    assert_eq!(FieldElement::from_bytes(&[0xff; 32]), Err(EcError::NonCanonicalEncoding));
    assert_eq!(FieldElement::from_bytes(&p_minus(1)), Ok(FieldElement::minus_one()));
}

#[test]
fn conditional_select_picks_by_bit() {
    let a = fe(1);
    let b = fe(2);
    assert_eq!(FieldElement::conditional_select(&a, &b, 0), a);
    assert_eq!(FieldElement::conditional_select(&a, &b, 1), b);
}

#[test]
fn is_negative_is_low_bit() {
    assert_eq!(fe(3).is_negative(), 1);
    assert_eq!(fe(4).is_negative(), 0);
    assert_eq!(FieldElement::minus_one().is_negative(), 0);
}

fn l_bytes() -> [u8; 32] {
    let mut b = [0u8; 32];
    b[..8].copy_from_slice(&0x5812631a5cf5d3edu64.to_le_bytes());
    b[8..16].copy_from_slice(&0x14def9dea2f79cd6u64.to_le_bytes());
    b[24..].copy_from_slice(&0x1000000000000000u64.to_le_bytes());
    b
}

#[test]
fn scalar_zero_plus_one_and_times_one() {
    let zero = Scalar::default();
    let one = Scalar::one();
    assert_eq!(zero.add(&one), one);
    assert_eq!(zero.mul(&one), zero);
}

#[test]
fn scalar_wraps_at_group_order() {
    let mut b = l_bytes();
    b[0] -= 1;
    let l_minus_one = Scalar::from_bytes(&b).unwrap();
    assert_eq!(l_minus_one.add(&Scalar::one()), Scalar::zero());
    assert_eq!(l_minus_one.mul(&l_minus_one), Scalar::one());
    assert_eq!(Scalar::from_u64(6).mul(&Scalar::from_u64(7)), Scalar::from_u64(42));
}

#[test]
fn scalar_from_bytes_rejects_non_canonical() {
    assert_eq!(Scalar::from_bytes(&l_bytes()), Err(EcError::NonCanonicalEncoding));
    assert_eq!(Scalar::from_bytes(&[0xff; 32]), Err(EcError::NonCanonicalEncoding));
    assert_eq!(Scalar::from_u64(9).to_bytes()[0], 9);
}

#[test]
fn field_bytes_round_trip() {
    let a = fe(0x0102_0304_0506_0708).mul(&FieldElement::sqrt_minus_one());
    assert_eq!(FieldElement::from_bytes(&a.to_bytes()), Ok(a));
    assert!(a.to_bytes()[31] < 0x80);
}

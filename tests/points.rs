use ec_math::compressed::CompressedPoint;
use ec_math::edwards::EdwardsPoint;
use ec_math::error::EcError;
use ec_math::field::FieldElement;
use ec_math::multiscalar::multiscalar_mul;
use ec_math::scalar::Scalar;

fn base_bytes() -> [u8; 32] {
    let mut b = [0x66u8; 32];
    b[0] = 0x58;
    b
}

fn base() -> EdwardsPoint {
    CompressedPoint::from_bytes(base_bytes()).decompress().unwrap()
}

fn multiples(n: usize) -> Vec<EdwardsPoint> {
    let b = base();
    let mut out = vec![b];
    for _ in 1..n {
        let next = out[out.len() - 1].add(&b);
        out.push(next);
    }
    out
}

#[test]
fn base_point_round_trips() {
    let b = base();
    assert_eq!(b.compress().to_bytes(), base_bytes());
    assert_eq!(b.z, FieldElement::one());
}

#[test]
fn all_zero_encoding_decodes_to_low_order_point() {
    let c = CompressedPoint::from_bytes([0u8; 32]);
    let pt = c.decompress().unwrap();
    assert!(!pt.equals(&EdwardsPoint::identity()));
    assert_eq!(pt.y, FieldElement::zero());
    assert_eq!(pt.x.square(), FieldElement::minus_one());
    assert_eq!(pt.compress().to_bytes(), [0u8; 32]);
    // It has order four.
    let twice = pt.double();
    assert!(!twice.equals(&EdwardsPoint::identity()));
    assert!(twice.double().equals(&EdwardsPoint::identity()));
}

#[test]
fn y_at_or_above_p_is_non_canonical() {
    let mut b = [0xffu8; 32];
    b[0] = 0xed;
    b[31] = 0x7f;
    assert_eq!(CompressedPoint::from_bytes(b).decompress(), Err(EcError::NonCanonicalEncoding));
    b[31] = 0xff;
    assert_eq!(CompressedPoint::from_bytes(b).decompress(), Err(EcError::NonCanonicalEncoding));
    assert_eq!(CompressedPoint::from_bytes([0xff; 32]).decompress(), Err(EcError::NonCanonicalEncoding));
}

#[test]
fn y_off_the_curve_fails_to_decode() {
    let mut b = [0u8; 32];
    b[0] = 2;
    assert_eq!(CompressedPoint::from_bytes(b).decompress(), Err(EcError::PointDecompressionFailure));
}

#[test]
fn negative_zero_x_is_refused() {
    // y = 1 gives x = 0, which has no negative form.
    let mut b = [0u8; 32];
    b[0] = 1;
    let pt = CompressedPoint::from_bytes(b).decompress().unwrap();
    assert!(pt.equals(&EdwardsPoint::identity()));
    b[31] = 0x80;
    assert_eq!(CompressedPoint::from_bytes(b).decompress(), Err(EcError::PointDecompressionFailure));
}

#[test]
fn round_trip_of_several_points() {
    for pt in multiples(5) {
        let c = pt.compress();
        let back = c.decompress().unwrap();
        assert!(back.equals(&pt));
        assert_eq!(back.compress(), c);
    }
}

#[test]
fn addition_is_commutative_and_associative() {
    let m = multiples(3);
    let (p, q, r) = (m[0], m[1], m[2]);
    assert_eq!(p.add(&q), q.add(&p));
    assert!(p.add(&q).add(&r).equals(&p.add(&q.add(&r))));
    assert!(p.add(&q).equals(&r));
}

#[test]
fn identity_and_negation() {
    let p = multiples(2)[1];
    assert!(p.add(&EdwardsPoint::identity()).equals(&p));
    assert!(EdwardsPoint::identity().add(&p).equals(&p));
    assert!(p.add(&p.negate()).equals(&EdwardsPoint::identity()));
    assert!(p.double().equals(&p.add(&p)));
}

#[test]
fn scalar_mul_by_one_and_zero() {
    let p = base();
    assert!(p.scalar_mul(&Scalar::one()).equals(&p));
    assert!(p.scalar_mul(&Scalar::zero()).equals(&EdwardsPoint::identity()));
}

#[test]
fn scalar_mul_matches_repeated_addition() {
    let m = multiples(5);
    assert!(m[0].scalar_mul(&Scalar::from_u64(5)).equals(&m[4]));
}

#[test]
fn base_point_has_order_l() {
    let mut b = [0u8; 32];
    b[..8].copy_from_slice(&0x5812631a5cf5d3ecu64.to_le_bytes());
    b[8..16].copy_from_slice(&0x14def9dea2f79cd6u64.to_le_bytes());
    b[24..].copy_from_slice(&0x1000000000000000u64.to_le_bytes());
    let l_minus_one = Scalar::from_bytes(&b).unwrap();
    let p = base();
    assert!(p.scalar_mul(&l_minus_one).equals(&p.negate()));
}

#[test]
fn multiscalar_of_one_pair_is_scalar_mul() {
    let p = base();
    let s = Scalar::from_u64(0x1234_5678_9abc);
    let batched = multiscalar_mul(&vec![s], &vec![p]).unwrap();
    assert_eq!(batched, p.scalar_mul(&s));
}

#[test]
fn multiscalar_of_ones_is_sum() {
    let pts = multiples(8);
    let ones = vec![Scalar::one(); 8];
    let batched = multiscalar_mul(&ones, &pts).unwrap();
    let mut sum = EdwardsPoint::identity();
    for p in &pts {
        sum = sum.add(p);
    }
    assert!(batched.equals(&sum));
}

#[test]
fn multiscalar_matches_separate_products() {
    let pts = multiples(3);
    let scalars = vec![Scalar::from_u64(0xdead_beef), Scalar::from_u64(7), Scalar::from_u64(0x0123_4567_89ab_cdef)];
    let batched = multiscalar_mul(&scalars, &pts).unwrap();
    let mut sum = EdwardsPoint::identity();
    for (s, p) in scalars.iter().zip(pts.iter()) {
        sum = sum.add(&p.scalar_mul(s));
    }
    assert!(batched.equals(&sum));
}

#[test]
fn multiscalar_rejects_unequal_lengths() {
    let pts = multiples(2);
    assert_eq!(multiscalar_mul(&vec![Scalar::one()], &pts), Err(EcError::LengthMismatch));
    assert_eq!(multiscalar_mul(&vec![], &vec![]).map(|p| p.equals(&EdwardsPoint::identity())), Ok(true));
}

#[test]
fn decoded_points_satisfy_the_curve_equation() {
    for pt in [base(), CompressedPoint::from_bytes([0u8; 32]).decompress().unwrap()] {
        let lhs = pt.y.square().sub(&pt.x.square());
        let rhs = pt.z.square().add(&FieldElement::edwards_d().mul(&pt.t.square()));
        assert_eq!(lhs, rhs);
    }
}

use ec_math::compressed::CompressedPoint;
use ec_math::error::EcError;
use ec_math::field::FieldElement;
use ec_math::instruction::{execute, EcInstruction, Outcome};
use ec_math::scalar::Scalar;

fn base_bytes() -> [u8; 32] {
    let mut b = [0x66u8; 32];
    b[0] = 0x58;
    b
}

#[test]
fn field_add_request() {
    let m1 = FieldElement::minus_one();
    let ins = EcInstruction::FieldAdd { element1: m1, element2: m1 };
    assert!(ins.is_canonical());
    let two = FieldElement::one().add(&FieldElement::one());
    assert_eq!(execute(&ins), Ok(Outcome::Field(FieldElement::zero().sub(&two))));
}

#[test]
fn field_mul_and_invsqrt_requests() {
    let two = FieldElement::one().add(&FieldElement::one());
    let ins = EcInstruction::FieldMul { element1: two, element2: FieldElement::minus_one() };
    assert_eq!(execute(&ins), Ok(Outcome::Field(two.negate())));
    let four = two.square();
    match execute(&EcInstruction::FieldInvSqrt { element: four }) {
        Ok(Outcome::InvSqrt(1, r)) => assert_eq!(r.square().mul(&four), FieldElement::one()),
        other => panic!("unexpected {:?}", other),
    }
}

#[test]
fn scalar_requests() {
    let ins = EcInstruction::ScalarAdd { scalar1: Scalar::zero(), scalar2: Scalar::one() };
    assert_eq!(execute(&ins), Ok(Outcome::Scalar(Scalar::one())));
    let ins = EcInstruction::ScalarMul { scalar1: Scalar::zero(), scalar2: Scalar::one() };
    assert_eq!(execute(&ins), Ok(Outcome::Scalar(Scalar::zero())));
}

#[test]
fn point_requests() {
    let b = CompressedPoint::from_bytes(base_bytes());
    let bp = b.decompress().unwrap();
    assert_eq!(execute(&EcInstruction::EdwardsDecompress { element: b }), Ok(Outcome::Point(bp)));
    match execute(&EcInstruction::EdwardsAdd { element1: b, element2: b }) {
        Ok(Outcome::Point(q)) => assert!(q.equals(&bp.double())),
        other => panic!("unexpected {:?}", other),
    }
    match execute(&EcInstruction::EdwardsMul { element: b, scalar: Scalar::from_u64(2) }) {
        Ok(Outcome::Point(q)) => assert!(q.equals(&bp.double())),
        other => panic!("unexpected {:?}", other),
    }
    let ins = EcInstruction::EdwardsMultiScalarMul { elements: vec![b, b], scalars: vec![Scalar::one(), Scalar::one()] };
    match execute(&ins) {
        Ok(Outcome::Point(q)) => assert!(q.equals(&bp.double())),
        other => panic!("unexpected {:?}", other),
    }
}

#[test]
fn point_request_errors() {
    let mut bad = [0u8; 32];
    bad[0] = 2;
    let bad = CompressedPoint::from_bytes(bad);
    let good = CompressedPoint::from_bytes(base_bytes());
    assert_eq!(execute(&EcInstruction::EdwardsDecompress { element: bad }), Err(EcError::PointDecompressionFailure));
    assert_eq!(
        execute(&EcInstruction::EdwardsAdd { element1: good, element2: bad }),
        Err(EcError::PointDecompressionFailure)
    );
    let ins = EcInstruction::EdwardsMultiScalarMul { elements: vec![good, good], scalars: vec![Scalar::one()] };
    assert_eq!(execute(&ins), Err(EcError::LengthMismatch));
    let ins = EcInstruction::EdwardsMultiScalarMul { elements: vec![good, bad], scalars: vec![Scalar::one(), Scalar::one()] };
    assert_eq!(execute(&ins), Err(EcError::PointDecompressionFailure));
}

#[test]
fn non_canonical_operands_are_detected() {
    let mut limbs = FieldElement::minus_one().limbs;
    limbs.l0 += 1;
    let p_itself = FieldElement { limbs };
    let ins = EcInstruction::FieldAdd { element1: p_itself, element2: FieldElement::one() };
    assert!(!ins.is_canonical());
}

//! The closed set of operations a caller can request, each with its typed
//! operands, and their evaluation by the engine.

use vstd::prelude::*;
use crate::compressed::{CompressedPoint, decoded_coords};
use crate::edwards::{Coords, EdwardsPoint, add_coords, scalar_mul_coords};
use crate::error::EcError;
use crate::field::{FieldElement, fadd, fmul, invsqrt_value};
use crate::multiscalar::{multiscalar_coords, multiscalar_mul, scalar_values};
use crate::scalar::{Scalar, group_order};

verus! {

/// One requested operation.
#[allow(inconsistent_fields)]
#[derive(Clone, Debug, PartialEq, Eq)]
pub enum EcInstruction {
    FieldAdd { element1: FieldElement, element2: FieldElement },
    FieldMul { element1: FieldElement, element2: FieldElement },
    FieldInvSqrt { element: FieldElement },
    ScalarAdd { scalar1: Scalar, scalar2: Scalar },
    ScalarMul { scalar1: Scalar, scalar2: Scalar },
    EdwardsDecompress { element: CompressedPoint },
    EdwardsAdd { element1: CompressedPoint, element2: CompressedPoint },
    EdwardsMul { element: CompressedPoint, scalar: Scalar },
    EdwardsMultiScalarMul { elements: Vec<CompressedPoint>, scalars: Vec<Scalar> },
}

/// The value an operation produces.
#[derive(Clone, Copy, Debug, PartialEq, Eq)]
pub enum Outcome {
    Field(FieldElement),
    InvSqrt(u8, FieldElement),
    Scalar(Scalar),
    Point(EdwardsPoint),
}

impl EcInstruction {
    /// Every field and scalar operand is fully reduced.
    pub open spec fn wf(&self) -> bool {
        match *self {
            EcInstruction::FieldAdd { element1, element2 } => element1.wf() && element2.wf(),
            EcInstruction::FieldMul { element1, element2 } => element1.wf() && element2.wf(),
            EcInstruction::FieldInvSqrt { element } => element.wf(),
            EcInstruction::ScalarAdd { scalar1, scalar2 } => scalar1.wf() && scalar2.wf(),
            EcInstruction::ScalarMul { scalar1, scalar2 } => scalar1.wf() && scalar2.wf(),
            _ => true,
        }
    }

    /// Whether every field and scalar operand is fully reduced.
    pub fn is_canonical(&self) -> (r: bool)
        ensures
            r == self.wf(),
    {
        match self {
            EcInstruction::FieldAdd { element1, element2 } => element1.is_canonical() && element2.is_canonical(),
            EcInstruction::FieldMul { element1, element2 } => element1.is_canonical() && element2.is_canonical(),
            EcInstruction::FieldInvSqrt { element } => element.is_canonical(),
            EcInstruction::ScalarAdd { scalar1, scalar2 } => scalar1.is_canonical() && scalar2.is_canonical(),
            EcInstruction::ScalarMul { scalar1, scalar2 } => scalar1.is_canonical() && scalar2.is_canonical(),
            _ => true,
        }
    }
}

/// The decoded forms of a sequence of encodings, where all of them decode.
pub open spec fn decoded_models(cs: Seq<CompressedPoint>) -> Seq<Coords> {
    cs.map_values(|c: CompressedPoint| decoded_coords(c.bytes@)->Ok_0)
}

/// Every encoding of the sequence decodes.
pub open spec fn all_decode(cs: Seq<CompressedPoint>) -> bool {
    forall|i: int| 0 <= i < cs.len() ==> (#[trigger] decoded_coords(cs[i].bytes@)) is Ok
}

/// What the operation returns: the engine's result for its operands, or the
/// first error met.
pub open spec fn execute_ok(ins: &EcInstruction, out: Outcome) -> bool {
    match *ins {
        EcInstruction::FieldAdd { element1, element2 } => out matches Outcome::Field(f) && f.wf()
            && f.val() == fadd(element1.val(), element2.val()),
        EcInstruction::FieldMul { element1, element2 } => out matches Outcome::Field(f) && f.wf()
            && f.val() == fmul(element1.val(), element2.val()),
        EcInstruction::FieldInvSqrt { element } => out matches Outcome::InvSqrt(ok, f) && f.wf()
            && f.val() == invsqrt_value(element.val()) && (ok == 1 <==> fmul(fmul(f.val(), f.val()), element.val()) == 1),
        EcInstruction::ScalarAdd { scalar1, scalar2 } => out matches Outcome::Scalar(s) && s.wf()
            && s.val() == (scalar1.val() + scalar2.val()) % group_order(),
        EcInstruction::ScalarMul { scalar1, scalar2 } => out matches Outcome::Scalar(s) && s.wf()
            && s.val() == (scalar1.val() * scalar2.val()) % group_order(),
        EcInstruction::EdwardsDecompress { element } => out matches Outcome::Point(q) && q.wf()
            && decoded_coords(element.bytes@) == Ok::<Coords, EcError>(q.model()),
        EcInstruction::EdwardsAdd { element1, element2 } => out matches Outcome::Point(q) && q.wf()
            && q.model() == add_coords(
                decoded_coords(element1.bytes@)->Ok_0,
                decoded_coords(element2.bytes@)->Ok_0,
            ),
        EcInstruction::EdwardsMul { element, scalar } => out matches Outcome::Point(q) && q.wf()
            && q.model() == scalar_mul_coords(scalar.val(), decoded_coords(element.bytes@)->Ok_0),
        EcInstruction::EdwardsMultiScalarMul { elements, scalars } => out matches Outcome::Point(q)
            && q.wf() && q.model() == multiscalar_coords(scalar_values(scalars@), decoded_models(elements@)),
    }
}

/// Whether the operation succeeds: every encoding decodes, and batched
/// multiplication gets as many scalars as points.
pub open spec fn execute_succeeds(ins: &EcInstruction) -> bool {
    match *ins {
        EcInstruction::EdwardsDecompress { element } => decoded_coords(element.bytes@) is Ok,
        EcInstruction::EdwardsAdd { element1, element2 } => decoded_coords(element1.bytes@) is Ok
            && decoded_coords(element2.bytes@) is Ok,
        EcInstruction::EdwardsMul { element, scalar } => decoded_coords(element.bytes@) is Ok,
        EcInstruction::EdwardsMultiScalarMul { elements, scalars } => scalars@.len() == elements@.len()
            && all_decode(elements@),
        _ => true,
    }
}

/// The errors an operation can end with.
pub open spec fn execute_err(ins: &EcInstruction, e: EcError) -> bool {
    match *ins {
        EcInstruction::EdwardsDecompress { element } => decoded_coords(element.bytes@) == Err::<Coords, EcError>(e),
        EcInstruction::EdwardsAdd { element1, element2 } => decoded_coords(element1.bytes@) == Err::<Coords, EcError>(e)
            || decoded_coords(element2.bytes@) == Err::<Coords, EcError>(e),
        EcInstruction::EdwardsMul { element, scalar } => decoded_coords(element.bytes@) == Err::<Coords, EcError>(e),
        EcInstruction::EdwardsMultiScalarMul { elements, scalars } => if scalars@.len() != elements@.len() {
            e == EcError::LengthMismatch
        } else {
            exists|i: int| 0 <= i < elements@.len() && decoded_coords(elements@[i].bytes@) == Err::<Coords, EcError>(e)
        },
        _ => false,
    }
}

/// Decodes every encoding, stopping at the first that names no point.
fn decompress_all(cs: &Vec<CompressedPoint>) -> (r: Result<Vec<EdwardsPoint>, EcError>)
    ensures
        r is Ok <==> all_decode(cs@),
        r is Ok ==> r->Ok_0@.len() == cs@.len() && forall|i: int| 0 <= i < cs@.len() ==> (#[trigger] r->Ok_0@[i]).wf()
            && Ok::<Coords, EcError>(r->Ok_0@[i].model()) == decoded_coords(cs@[i].bytes@),
        r is Err ==> exists|i: int| 0 <= i < cs@.len() && decoded_coords(cs@[i].bytes@) == Err::<Coords, EcError>(r->Err_0),
{
    let mut out: Vec<EdwardsPoint> = Vec::new();
    let mut i: usize = 0;
    while i < cs.len()
        invariant
            i <= cs@.len(),
            out@.len() == i,
            forall|k: int| 0 <= k < i ==> (#[trigger] out@[k]).wf() && Ok::<Coords, EcError>(out@[k].model())
                == decoded_coords(cs@[k].bytes@),
        decreases cs.len() - i,
    {
        match cs[i].decompress() {
            Ok(pt) => out.push(pt),
            Err(e) => {
                proof {
                    assert(decoded_coords(cs@[i as int].bytes@) == Err::<Coords, EcError>(e));
                    assert(!(decoded_coords(cs@[i as int].bytes@) is Ok));
                }
                return Err(e);
            },
        }
        i = i + 1;
    }
    proof {
        assert forall|k: int| 0 <= k < cs@.len() implies (#[trigger] decoded_coords(cs@[k].bytes@)) is Ok by {
            assert(Ok::<Coords, EcError>(out@[k].model()) == decoded_coords(cs@[k].bytes@));
        }
    }
    Ok(out)
}

/// Decodes two encodings and adds the points.
fn add_encoded(c1: &CompressedPoint, c2: &CompressedPoint) -> (r: Result<EdwardsPoint, EcError>)
    ensures
        r is Ok <==> (decoded_coords(c1.bytes@) is Ok && decoded_coords(c2.bytes@) is Ok),
        r is Ok ==> r->Ok_0.wf() && r->Ok_0.model() == add_coords(
            decoded_coords(c1.bytes@)->Ok_0,
            decoded_coords(c2.bytes@)->Ok_0,
        ),
        r is Err ==> (decoded_coords(c1.bytes@) == Err::<Coords, EcError>(r->Err_0) || decoded_coords(
            c2.bytes@,
        ) == Err::<Coords, EcError>(r->Err_0)),
{
    let p1 = match c1.decompress() {
        Ok(q) => q,
        Err(e) => {
            return Err(e);
        },
    };
    let p2 = match c2.decompress() {
        Ok(q) => q,
        Err(e) => {
            return Err(e);
        },
    };
    Ok(p1.add(&p2))
}

/// Decodes an encoding and multiplies the point by a scalar.
fn mul_encoded(c: &CompressedPoint, s: &Scalar) -> (r: Result<EdwardsPoint, EcError>)
    ensures
        r is Ok <==> decoded_coords(c.bytes@) is Ok,
        r is Ok ==> r->Ok_0.wf() && r->Ok_0.model() == scalar_mul_coords(s.val(), decoded_coords(c.bytes@)->Ok_0),
        r is Err ==> decoded_coords(c.bytes@) == Err::<Coords, EcError>(r->Err_0),
{
    match c.decompress() {
        Ok(q) => Ok(q.scalar_mul(s)),
        Err(e) => Err(e),
    }
}

/// Decodes the encodings and computes the batched product.
fn multiscalar_encoded(elements: &Vec<CompressedPoint>, scalars: &Vec<Scalar>) -> (r: Result<EdwardsPoint, EcError>)
    ensures
        r is Ok <==> (scalars@.len() == elements@.len() && all_decode(elements@)),
        r is Ok ==> r->Ok_0.wf() && r->Ok_0.model() == multiscalar_coords(
            scalar_values(scalars@),
            decoded_models(elements@),
        ),
        r is Err ==> (if scalars@.len() != elements@.len() {
            r->Err_0 == EcError::LengthMismatch
        } else {
            exists|i: int| 0 <= i < elements@.len() && decoded_coords(elements@[i].bytes@) == Err::<Coords, EcError>(r->Err_0)
        }),
{
    if scalars.len() != elements.len() {
        return Err(EcError::LengthMismatch);
    }
    let points = match decompress_all(elements) {
        Ok(ps) => ps,
        Err(e) => {
            return Err(e);
        },
    };
    proof {
        assert forall|i: int| 0 <= i < points@.len() implies #[trigger] crate::multiscalar::point_models(points@)[i]
            == decoded_models(elements@)[i] by {
            assert(Ok::<Coords, EcError>(points@[i].model()) == decoded_coords(elements@[i].bytes@));
        }
        assert(crate::multiscalar::point_models(points@) =~= decoded_models(elements@));
    }
    multiscalar_mul(scalars, &points)
}

/// Evaluates one operation.
pub fn execute(ins: &EcInstruction) -> (r: Result<Outcome, EcError>)
    requires
        ins.wf(),
    ensures
        r is Ok <==> execute_succeeds(ins),
        r is Ok ==> execute_ok(ins, r->Ok_0),
        r is Err ==> execute_err(ins, r->Err_0),
{
    match ins {
        EcInstruction::FieldAdd { element1, element2 } => Ok(Outcome::Field(element1.add(element2))),
        EcInstruction::FieldMul { element1, element2 } => Ok(Outcome::Field(element1.mul(element2))),
        EcInstruction::FieldInvSqrt { element } => {
            let (ok, r) = element.inverse_square_root();
            Ok(Outcome::InvSqrt(ok, r))
        },
        EcInstruction::ScalarAdd { scalar1, scalar2 } => Ok(Outcome::Scalar(scalar1.add(scalar2))),
        EcInstruction::ScalarMul { scalar1, scalar2 } => Ok(Outcome::Scalar(scalar1.mul(scalar2))),
        EcInstruction::EdwardsDecompress { element } => match element.decompress() {
            Ok(q) => Ok(Outcome::Point(q)),
            Err(e) => Err(e),
        },
        EcInstruction::EdwardsAdd { element1, element2 } => match add_encoded(element1, element2) {
            Ok(q) => Ok(Outcome::Point(q)),
            Err(e) => Err(e),
        },
        EcInstruction::EdwardsMul { element, scalar } => match mul_encoded(element, scalar) {
            Ok(q) => Ok(Outcome::Point(q)),
            Err(e) => Err(e),
        },
        EcInstruction::EdwardsMultiScalarMul { elements, scalars } => match multiscalar_encoded(elements, scalars) {
            Ok(q) => Ok(Outcome::Point(q)),
            Err(e) => Err(e),
        },
    }
}

} // verus!

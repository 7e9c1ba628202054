//! Scalars: integers modulo the prime order `L = 2^252 + 27742317777372353535851937790883648493`
//! of the curve's main subgroup.

use vstd::prelude::*;
use crate::bytes::{le_bytes, limbs_from_bytes, limbs_to_bytes};
use crate::error::EcError;
use crate::limbs::{Limbs, mod_add, modulus_ok, sub_limbs};
use crate::serial::{all_bits, bits_value, mod_mul, to_bits};

verus! {

/// The group order `L`.
pub open spec fn group_order() -> int {
    (0x1000_0000_0000_0000 * 0x1_0000_0000_0000_0000 * 0x1_0000_0000_0000_0000 * 0x1_0000_0000_0000_0000
        + 0x14def9dea2f79cd6 * 0x1_0000_0000_0000_0000 + 0x5812631a5cf5d3ed) as int
}

/// The limbs of `L`.
pub fn order() -> (r: Limbs)
    ensures
        r.value() == group_order(),
        modulus_ok(r),
{
    Limbs { l0: 0x5812631a5cf5d3ed, l1: 0x14def9dea2f79cd6, l2: 0, l3: 0x1000_0000_0000_0000 }
}

/// A scalar, held fully reduced modulo `L`.
#[derive(Clone, Copy, Debug, PartialEq, Eq, Structural)]
pub struct Scalar {
    pub limbs: Limbs,
}

impl Scalar {
    /// The scalar as an integer.
    pub open spec fn val(self) -> int {
        self.limbs.value()
    }

    /// The scalar is fully reduced.
    pub open spec fn wf(self) -> bool {
        self.val() < group_order()
    }

    pub fn zero() -> (r: Scalar)
        ensures
            r.wf(),
            r.val() == 0,
    {
        Scalar { limbs: Limbs::zero() }
    }

    pub fn one() -> (r: Scalar)
        ensures
            r.wf(),
            r.val() == 1,
    {
        Scalar { limbs: Limbs { l0: 1, l1: 0, l2: 0, l3: 0 } }
    }

    /// A scalar from a small integer.
    pub fn from_u64(n: u64) -> (r: Scalar)
        ensures
            r.wf(),
            r.val() == n,
    {
        Scalar { limbs: Limbs { l0: n, l1: 0, l2: 0, l3: 0 } }
    }

    /// Whether the scalar is fully reduced.
    pub fn is_canonical(&self) -> (r: bool)
        ensures
            r == self.wf(),
    {
        let (_d, borrow) = sub_limbs(&self.limbs, &order());
        borrow == 1
    }

    /// `(self + other) mod L`.
    pub fn add(&self, other: &Scalar) -> (r: Scalar)
        requires
            self.wf(),
            other.wf(),
        ensures
            r.wf(),
            r.val() == (self.val() + other.val()) % group_order(),
    {
        Scalar { limbs: mod_add(&self.limbs, &other.limbs, &order()) }
    }

    /// `(self * other) mod L`.
    pub fn mul(&self, other: &Scalar) -> (r: Scalar)
        requires
            self.wf(),
            other.wf(),
        ensures
            r.wf(),
            r.val() == (self.val() * other.val()) % group_order(),
    {
        Scalar { limbs: mod_mul(&self.limbs, &other.limbs, &order()) }
    }

    /// The 256 bits of the scalar, most significant first.
    pub fn bits(&self) -> (r: Vec<u8>)
        ensures
            r@.len() == 256,
            all_bits(r@),
            bits_value(r@) == self.val(),
    {
        to_bits(&self.limbs)
    }

    /// Reads a little-endian integer, which must be below `L`.
    pub fn from_bytes(bytes: &[u8; 32]) -> (r: Result<Scalar, EcError>)
        ensures
            le_bytes(bytes@) >= group_order() <==> r == Err::<Scalar, EcError>(EcError::NonCanonicalEncoding),
            r is Ok <==> le_bytes(bytes@) < group_order(),
            r is Ok ==> r->Ok_0.wf() && r->Ok_0.val() == le_bytes(bytes@),
    {
        let limbs = limbs_from_bytes(bytes);
        let (_d, borrow) = sub_limbs(&limbs, &order());
        if borrow == 1 {
            Ok(Scalar { limbs })
        } else {
            Err(EcError::NonCanonicalEncoding)
        }
    }

    /// The 32 little-endian bytes of the scalar.
    pub fn to_bytes(&self) -> (r: [u8; 32])
        ensures
            le_bytes(r@) == self.val(),
    {
        limbs_to_bytes(&self.limbs)
    }
}

impl Default for Scalar {
    fn default() -> (r: Scalar)
        ensures
            r.val() == 0,
    {
        Scalar::zero()
    }
}

} // verus!

//! Elements of the prime field of order `p = 2^255 - 19`.

use vstd::prelude::*;
use vstd::arithmetic::power::pow;
use crate::bytes::{le_bytes, limbs_from_bytes, limbs_to_bytes};
use crate::error::EcError;
use crate::limbs::{Limbs, eq_limbs, lemma_value_bound, mod_add, mod_sub, select_limbs, sub_limbs};
use crate::serial::{bits_value, mod_mul, pow_bits, to_bits};

verus! {

/// The field's prime, `2^255 - 19`.
pub open spec fn p() -> int {
    (0x8000_0000_0000_0000 * 0x1_0000_0000_0000_0000 * 0x1_0000_0000_0000_0000
        * 0x1_0000_0000_0000_0000) as int - 19
}

/// Field addition on representatives in `[0, p)`.
pub open spec fn fadd(a: int, b: int) -> int {
    (a + b) % p()
}

/// Field subtraction.
pub open spec fn fsub(a: int, b: int) -> int {
    (a - b) % p()
}

/// Field negation.
pub open spec fn fneg(a: int) -> int {
    (0 - a) % p()
}

/// Field multiplication.
pub open spec fn fmul(a: int, b: int) -> int {
    (a * b) % p()
}

/// `a^(p - 2)`, the inverse of a nonzero `a` by Fermat's little theorem.
pub open spec fn finv(a: int) -> int {
    pow(a, (p() - 2) as nat) % p()
}

/// The exponent `(3p - 7) / 8` used for inverse square roots.
pub open spec fn invsqrt_exponent() -> int {
    (3 * p() - 7) / 8
}

/// A fixed square root of -1 in the field.
pub open spec fn sqrt_m1() -> int {
    (0x2b8324804fc1df0b * 0x1_0000_0000_0000_0000 * 0x1_0000_0000_0000_0000 * 0x1_0000_0000_0000_0000
        + 0x2b4d00993dfbd7a7 * 0x1_0000_0000_0000_0000 * 0x1_0000_0000_0000_0000
        + 0x2f431806ad2fe478 * 0x1_0000_0000_0000_0000 + 0xc4ee1b274a0ea0b0) as int
}

/// The curve constant `d = -121665 / 121666`.
pub open spec fn edwards_d() -> int {
    (0x52036cee2b6ffe73 * 0x1_0000_0000_0000_0000 * 0x1_0000_0000_0000_0000 * 0x1_0000_0000_0000_0000
        + 0x8cc740797779e898 * 0x1_0000_0000_0000_0000 * 0x1_0000_0000_0000_0000
        + 0x00700a4d4141d8ab * 0x1_0000_0000_0000_0000 + 0x75eb4dca135978a3) as int
}

/// The candidate inverse square root of `a` before the correction by the
/// square root of -1.
pub open spec fn invsqrt_candidate(a: int) -> int {
    pow(a, invsqrt_exponent() as nat) % p()
}

/// What `inverse_square_root` returns for `a`: the candidate, or the
/// candidate times the square root of -1 when the candidate's square misses.
pub open spec fn invsqrt_value(a: int) -> int {
    let c = invsqrt_candidate(a);
    if fmul(fmul(c, c), a) == 1 {
        c
    } else {
        fmul(c, sqrt_m1())
    }
}

/// The limbs of `p`.
pub fn modulus() -> (r: Limbs)
    ensures
        r.value() == p(),
        crate::limbs::modulus_ok(r),
        1 < r.value(),
{
    Limbs { l0: 0xffff_ffff_ffff_ffed, l1: 0xffff_ffff_ffff_ffff, l2: 0xffff_ffff_ffff_ffff, l3: 0x7fff_ffff_ffff_ffff }
}

proof fn lemma_low_bit(w: u64)
    by (bit_vector)
    ensures
        w & 1 == w % 2,
        w & 1 <= 1,
{
}

/// A field element, held fully reduced.
#[derive(Clone, Copy, Debug, PartialEq, Eq, Structural)]
pub struct FieldElement {
    pub limbs: Limbs,
}

impl FieldElement {
    /// The element as an integer.
    pub open spec fn val(self) -> int {
        self.limbs.value()
    }

    /// The element is fully reduced.
    pub open spec fn wf(self) -> bool {
        self.val() < p()
    }

    pub fn zero() -> (r: FieldElement)
        ensures
            r.wf(),
            r.val() == 0,
    {
        FieldElement { limbs: Limbs { l0: 0, l1: 0, l2: 0, l3: 0 } }
    }

    pub fn one() -> (r: FieldElement)
        ensures
            r.wf(),
            r.val() == 1,
    {
        FieldElement { limbs: Limbs { l0: 1, l1: 0, l2: 0, l3: 0 } }
    }

    /// `p - 1`.
    pub fn minus_one() -> (r: FieldElement)
        ensures
            r.wf(),
            r.val() == p() - 1,
    {
        FieldElement { limbs: Limbs { l0: 0xffff_ffff_ffff_ffec, l1: 0xffff_ffff_ffff_ffff, l2: 0xffff_ffff_ffff_ffff, l3: 0x7fff_ffff_ffff_ffff } }
    }

    /// The fixed square root of -1.
    pub fn sqrt_minus_one() -> (r: FieldElement)
        ensures
            r.wf(),
            r.val() == sqrt_m1(),
    {
        FieldElement { limbs: Limbs { l0: 0xc4ee1b274a0ea0b0, l1: 0x2f431806ad2fe478, l2: 0x2b4d00993dfbd7a7, l3: 0x2b8324804fc1df0b } }
    }

    /// The curve constant `d`.
    pub fn edwards_d() -> (r: FieldElement)
        ensures
            r.wf(),
            r.val() == edwards_d(),
    {
        FieldElement { limbs: Limbs { l0: 0x75eb4dca135978a3, l1: 0x00700a4d4141d8ab, l2: 0x8cc740797779e898, l3: 0x52036cee2b6ffe73 } }
    }

    pub fn add(&self, other: &FieldElement) -> (r: FieldElement)
        requires
            self.wf(),
            other.wf(),
        ensures
            r.wf(),
            r.val() == fadd(self.val(), other.val()),
    {
        FieldElement { limbs: mod_add(&self.limbs, &other.limbs, &modulus()) }
    }

    pub fn sub(&self, other: &FieldElement) -> (r: FieldElement)
        requires
            self.wf(),
            other.wf(),
        ensures
            r.wf(),
            r.val() == fsub(self.val(), other.val()),
    {
        FieldElement { limbs: mod_sub(&self.limbs, &other.limbs, &modulus()) }
    }

    pub fn negate(&self) -> (r: FieldElement)
        requires
            self.wf(),
        ensures
            r.wf(),
            r.val() == fneg(self.val()),
    {
        FieldElement::zero().sub(self)
    }

    pub fn mul(&self, other: &FieldElement) -> (r: FieldElement)
        requires
            self.wf(),
            other.wf(),
        ensures
            r.wf(),
            r.val() == fmul(self.val(), other.val()),
    {
        FieldElement { limbs: mod_mul(&self.limbs, &other.limbs, &modulus()) }
    }

    pub fn square(&self) -> (r: FieldElement)
        requires
            self.wf(),
        ensures
            r.wf(),
            r.val() == fmul(self.val(), self.val()),
    {
        self.mul(self)
    }

    /// `self^e mod p` for an exponent given as limbs.
    fn pow_limbs(&self, e: &Limbs) -> (r: FieldElement)
        requires
            self.wf(),
        ensures
            r.wf(),
            r.val() == pow(self.val(), e.value() as nat) % p(),
    {
        let bits = to_bits(e);
        FieldElement { limbs: pow_bits(&self.limbs, &bits, &modulus()) }
    }

    /// The multiplicative inverse, computed as `self^(p - 2)`; zero has none.
    pub fn invert(&self) -> (r: Result<FieldElement, EcError>)
        requires
            self.wf(),
        ensures
            self.val() == 0 ==> r == Err::<FieldElement, EcError>(EcError::UndefinedInverse),
            self.val() != 0 ==> r is Ok && r->Ok_0.wf() && r->Ok_0.val() == finv(self.val()),
    {
        if self.is_zero() == 1 {
            return Err(EcError::UndefinedInverse);
        }
        let e = Limbs { l0: 0xffff_ffff_ffff_ffeb, l1: 0xffff_ffff_ffff_ffff, l2: 0xffff_ffff_ffff_ffff, l3: 0x7fff_ffff_ffff_ffff };
        Ok(self.pow_limbs(&e))
    }

    /// An `r` with `r * r * self == 1` when `self` is a nonzero square.
    /// The candidate `self^((3p - 7) / 8)` is multiplied by the square root
    /// of -1 when its square misses; the flag is 1 exactly when the value
    /// returned passes the check.
    pub fn inverse_square_root(&self) -> (r: (u8, FieldElement))
        requires
            self.wf(),
        ensures
            r.0 <= 1,
            r.1.wf(),
            r.1.val() == invsqrt_value(self.val()),
            r.0 == 1 <==> fmul(fmul(r.1.val(), r.1.val()), self.val()) == 1,
    {
        let e = Limbs { l0: 0xffff_ffff_ffff_fff8, l1: 0xffff_ffff_ffff_ffff, l2: 0xffff_ffff_ffff_ffff, l3: 0x2fff_ffff_ffff_ffff };
        let c = self.pow_limbs(&e);
        let one = FieldElement::one();
        let first = c.square().mul(self).ct_eq(&one);
        let corrected = c.mul(&FieldElement::sqrt_minus_one());
        let r = FieldElement::conditional_select(&corrected, &c, first);
        let ok = r.square().mul(self).ct_eq(&one);
        (ok, r)
    }

    /// `b` when `choice` is 1, `a` when it is 0, without branching on it.
    pub fn conditional_select(a: &FieldElement, b: &FieldElement, choice: u8) -> (r: FieldElement)
        requires
            choice <= 1,
        ensures
            r == (if choice == 1 { *b } else { *a }),
    {
        FieldElement { limbs: select_limbs(&a.limbs, &b.limbs, choice as u64) }
    }

    /// Whether the element is fully reduced.
    pub fn is_canonical(&self) -> (r: bool)
        ensures
            r == self.wf(),
    {
        let (_d, borrow) = sub_limbs(&self.limbs, &modulus());
        borrow == 1
    }

    /// 1 when the two elements are equal, else 0.
    pub fn ct_eq(&self, other: &FieldElement) -> (r: u8)
        ensures
            r <= 1,
            r == 1 <==> self.val() == other.val(),
    {
        eq_limbs(&self.limbs, &other.limbs) as u8
    }

    /// 1 when the element is zero, else 0.
    pub fn is_zero(&self) -> (r: u8)
        ensures
            r <= 1,
            r == 1 <==> self.val() == 0,
    {
        self.ct_eq(&FieldElement::zero())
    }

    /// The low bit of the element: 1 when it is odd.
    pub fn is_negative(&self) -> (r: u8)
        ensures
            r == self.val() % 2,
    {
        let w = self.limbs.l0;
        proof {
            lemma_low_bit(w);
            let q = self.limbs.l1 + 0x1_0000_0000_0000_0000 * (self.limbs.l2 + 0x1_0000_0000_0000_0000
                * self.limbs.l3);
            vstd::arithmetic::div_mod::lemma_fundamental_div_mod(w as int, 2);
            vstd::arithmetic::div_mod::lemma_fundamental_div_mod_converse(
                self.val(),
                2,
                (w as int) / 2 + 0x8000_0000_0000_0000 * q,
                (w as int) % 2,
            );
        }
        (w & 1) as u8
    }

    /// Reads a little-endian integer, which must be below `p`.
    pub fn from_bytes(bytes: &[u8; 32]) -> (r: Result<FieldElement, EcError>)
        ensures
            le_bytes(bytes@) >= p() <==> r == Err::<FieldElement, EcError>(EcError::NonCanonicalEncoding),
            r is Ok <==> le_bytes(bytes@) < p(),
            r is Ok ==> r->Ok_0.wf() && r->Ok_0.val() == le_bytes(bytes@),
    {
        let limbs = limbs_from_bytes(bytes);
        let (_d, borrow) = sub_limbs(&limbs, &modulus());
        if borrow == 1 {
            Ok(FieldElement { limbs })
        } else {
            Err(EcError::NonCanonicalEncoding)
        }
    }

    /// The 32 little-endian bytes of the element; the top bit is clear.
    pub fn to_bytes(&self) -> (r: [u8; 32])
        requires
            self.wf(),
        ensures
            le_bytes(r@) == self.val(),
            r@[31] < 0x80,
    {
        limbs_to_bytes(&self.limbs)
    }
}

} // verus!

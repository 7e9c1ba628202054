//! The 32-byte point encoding: the low 255 bits hold `y`, the top bit holds
//! the parity of `x`.

use vstd::prelude::*;
use crate::bytes::{le_bytes, lemma_le_bytes_injective};
use crate::edwards::{Coords, EdwardsPoint};
use crate::error::EcError;
use crate::field::{FieldElement, edwards_d, fadd, finv, fmul, fneg, fsub, invsqrt_value, p};
use crate::laws::{lemma_decoded_on_curve, on_curve};
use crate::limbs::lemma_reduce_once;
use vstd::arithmetic::div_mod::{lemma_mod_bound, lemma_small_mod};
use vstd::arithmetic::power::lemma1_pow;

verus! {

/// The encoding with its sign bit cleared: the bytes of `y`.
pub open spec fn clear_top(s: Seq<u8>) -> Seq<u8> {
    s.update(31, s[31] & 0x7f)
}

/// The sign bit: the top bit of the last byte.
pub open spec fn sign_bit(s: Seq<u8>) -> int {
    (s[31] >> 7) as int
}

/// What decoding `c` gives: `y` from the low 255 bits, which must be below
/// `p`; `x` from `x^2 = u / v` with `u = y^2 - 1`, `v = d y^2 + 1`, which
/// must hold exactly; `x` negated when its parity differs from the sign bit;
/// and a sign bit of 1 on `x = 0` refused.
pub open spec fn decoded_coords(c: Seq<u8>) -> Result<Coords, EcError> {
    let y = le_bytes(clear_top(c));
    if y >= p() {
        Err(EcError::NonCanonicalEncoding)
    } else {
        let yy = fmul(y, y);
        let u = fsub(yy, 1);
        let v = fadd(fmul(edwards_d(), yy), 1);
        let x0 = fmul(u, invsqrt_value(fmul(u, v)));
        if fmul(v, fmul(x0, x0)) != u {
            Err(EcError::PointDecompressionFailure)
        } else {
            let x = if x0 % 2 == sign_bit(c) {
                x0
            } else {
                fneg(x0)
            };
            if x == 0 && sign_bit(c) == 1 {
                Err(EcError::PointDecompressionFailure)
            } else {
                Ok((x, y, 1, fmul(x, y)))
            }
        }
    }
}

/// `z^-1`, taken as 0 for `z = 0`.
pub open spec fn z_inverse(z: int) -> int {
    if z == 0 {
        0
    } else {
        finv(z)
    }
}

/// `r` is an encoding of the affine form of `pt`: its low 255 bits hold
/// `Y / Z` and its top bit the parity of `X / Z`.
pub open spec fn encodes(pt: Coords, r: Seq<u8>) -> bool {
    &&& r.len() == 32
    &&& le_bytes(clear_top(r)) == fmul(pt.1, z_inverse(pt.2))
    &&& sign_bit(r) == fmul(pt.0, z_inverse(pt.2)) % 2
}

/// A 32-byte point encoding; not every one names a point.
#[derive(Clone, Copy, Debug, PartialEq, Eq)]
pub struct CompressedPoint {
    pub bytes: [u8; 32],
}

proof fn lemma_top_bit(b: u8, s: u8)
    by (bit_vector)
    requires
        b < 0x80,
        s <= 1,
    ensures
        (b | (s << 7u8)) & 0x7f == b,
        (b | (s << 7u8)) >> 7u8 == s,
{
}

proof fn lemma_byte_parts(a: u8, b: u8)
    by (bit_vector)
    requires
        a & 0x7f == b & 0x7f,
        a >> 7u8 == b >> 7u8,
    ensures
        a == b,
{
}

proof fn lemma_sign_bound(a: u8)
    by (bit_vector)
    ensures
        a >> 7u8 <= 1,
        (a >> 7u8) ^ 1 <= 1,
{
}

impl CompressedPoint {
    pub fn from_bytes(bytes: [u8; 32]) -> (r: CompressedPoint)
        ensures
            r.bytes == bytes,
    {
        CompressedPoint { bytes }
    }

    pub fn to_bytes(&self) -> (r: [u8; 32])
        ensures
            r == self.bytes,
    {
        self.bytes
    }

    /// Decodes the point, or says why the bytes name none.
    pub fn decompress(&self) -> (r: Result<EdwardsPoint, EcError>)
        ensures
            match r {
                Ok(pt) => pt.wf() && decoded_coords(self.bytes@) == Ok::<Coords, EcError>(pt.model())
                    && on_curve(pt.model()),
                Err(e) => decoded_coords(self.bytes@) == Err::<Coords, EcError>(e),
            },
    {
        let mut yb = self.bytes;
        let top = yb[31];
        yb[31] = top & 0x7f;
        let sign = top >> 7u8;
        proof {
            assert(yb@ =~= clear_top(self.bytes@));
            lemma_sign_bound(top);
        }
        let y = match FieldElement::from_bytes(&yb) {
            Ok(y) => y,
            Err(e) => {
                return Err(e);
            },
        };
        let one = FieldElement::one();
        let yy = y.square();
        let u = yy.sub(&one);
        let v = FieldElement::edwards_d().mul(&yy).add(&one);
        let (_found, r) = u.mul(&v).inverse_square_root();
        let x0 = u.mul(&r);
        if v.mul(&x0.square()).ct_eq(&u) == 0 {
            return Err(EcError::PointDecompressionFailure);
        }
        let parity = x0.is_negative();
        let flip = parity ^ sign;
        proof {
            lemma_parity_xor(parity, sign);
        }
        let x = FieldElement::conditional_select(&x0, &x0.negate(), flip);
        let zero = x.is_zero();
        proof {
            lemma_and_one(zero, sign);
        }
        if (zero & sign) == 1 {
            return Err(EcError::PointDecompressionFailure);
        }
        let pt = EdwardsPoint { x, y, z: one, t: x.mul(&y) };
        proof {
            assert(decoded_coords(self.bytes@) == Ok::<Coords, EcError>(pt.model()));
            lemma_decoded_on_curve(self.bytes@);
        }
        Ok(pt)
    }
}

proof fn lemma_parity_xor(a: u8, b: u8)
    by (bit_vector)
    requires
        a <= 1,
        b <= 1,
    ensures
        (a ^ b) <= 1,
        (a ^ b) == 0 <==> a == b,
{
}

proof fn lemma_and_one(a: u8, b: u8)
    by (bit_vector)
    requires
        a <= 1,
        b <= 1,
    ensures
        (a & b) == 1 <==> (a == 1 && b == 1),
{
}

impl EdwardsPoint {
    /// Encodes the point: `Y / Z` in the low 255 bits, the parity of `X / Z`
    /// in the top bit.
    pub fn compress(&self) -> (r: CompressedPoint)
        requires
            self.wf(),
        ensures
            encodes(self.model(), r.bytes@),
    {
        let zinv = match self.z.invert() {
            Ok(i) => i,
            Err(_) => FieldElement::zero(),
        };
        let x = self.x.mul(&zinv);
        let y = self.y.mul(&zinv);
        let mut bytes = y.to_bytes();
        let last = bytes[31];
        let sign = x.is_negative();
        let ghost plain = bytes@;
        proof {
            lemma_top_bit(last, sign);
        }
        bytes[31] = last | (sign << 7u8);
        proof {
            assert(clear_top(bytes@) =~= plain);
        }
        CompressedPoint { bytes }
    }
}

/// Encoding a decoded point gives back the bytes it was decoded from: every
/// encoding that `compress` may return for the point `decompress` produced
/// from `c` is `c` itself.
pub proof fn lemma_round_trip(c: Seq<u8>, r: Seq<u8>)
    requires
        c.len() == 32,
        decoded_coords(c) is Ok,
        encodes(decoded_coords(c)->Ok_0, r),
    ensures
        r == c,
{
    let pt = decoded_coords(c)->Ok_0;
    let y = le_bytes(clear_top(c));
    lemma1_pow((p() - 2) as nat);
    lemma_small_mod(1, p() as nat);
    assert(z_inverse(pt.2) == 1);
    let yy = fmul(y, y);
    let u = fsub(yy, 1);
    let v = fadd(fmul(edwards_d(), yy), 1);
    let x0 = fmul(u, invsqrt_value(fmul(u, v)));
    lemma_mod_bound(u * invsqrt_value(fmul(u, v)), p());
    lemma_mod_bound(0 - x0, p());
    lemma_small_mod(y as nat, p() as nat);
    lemma_small_mod(pt.0 as nat, p() as nat);
    assert(fmul(pt.1, 1) == pt.1);
    assert(fmul(pt.0, 1) == pt.0);
    lemma_sign_bound(c[31]);
    if x0 % 2 != sign_bit(c) && x0 != 0 {
        lemma_reduce_once(0 - x0, p());
        let k = (p() - 1) / 2;
        assert(p() == 2 * k + 1);
        vstd::arithmetic::div_mod::lemma_fundamental_div_mod(x0, 2);
        let q = x0 / 2;
        let b = x0 % 2;
        if b == 0 {
            vstd::arithmetic::div_mod::lemma_fundamental_div_mod_converse(p() - x0, 2, k - q, 1);
        } else {
            vstd::arithmetic::div_mod::lemma_fundamental_div_mod_converse(p() - x0, 2, k - q, 0);
        }
    }
    let x = if x0 % 2 == sign_bit(c) {
        x0
    } else {
        fneg(x0)
    };
    assert(pt.0 == x);
    if x0 % 2 != sign_bit(c) {
        if x0 == 0 {
            lemma_small_mod(0, p() as nat);
            assert(x == 0);
            assert(sign_bit(c) == 1);
        } else {
            assert(x == p() - x0);
        }
    }
    assert(pt.0 % 2 == sign_bit(c));
    lemma_le_bytes_injective(clear_top(r), clear_top(c));
    assert(clear_top(r)[31] == clear_top(c)[31]);
    lemma_byte_parts(r[31], c[31]);
    assert forall|i: int| 0 <= i < 32 implies r[i] == c[i] by {
        if i != 31 {
            assert(clear_top(r)[i] == clear_top(c)[i]);
        }
    }
    assert(r =~= c);
}

} // verus!

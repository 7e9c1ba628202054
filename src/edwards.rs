//! Points of the twisted Edwards curve `-x^2 + y^2 = 1 + d x^2 y^2` in
//! extended coordinates `(X : Y : Z : T)` with `x = X/Z`, `y = Y/Z` and
//! `x y = T/Z`.

use vstd::prelude::*;
use crate::field::{FieldElement, edwards_d, fadd, fmul, fneg, fsub};
use crate::scalar::Scalar;
use crate::serial::{all_bits, bits_value};

verus! {

/// Extended coordinates as integers, in the order `(X, Y, Z, T)`.
pub type Coords = (int, int, int, int);

/// `2d`, the constant of the addition formula.
pub open spec fn d2() -> int {
    fadd(edwards_d(), edwards_d())
}

/// The neutral element `(0 : 1 : 1 : 0)`.
pub open spec fn identity_coords() -> Coords {
    (0, 1, 1, 0)
}

/// The complete addition formula for extended coordinates on a curve with
/// `a = -1`; it has no exceptional inputs, doubling included.
pub open spec fn add_coords(p: Coords, q: Coords) -> Coords {
    let a = fmul(fsub(p.1, p.0), fsub(q.1, q.0));
    let b = fmul(fadd(p.1, p.0), fadd(q.1, q.0));
    let c = fmul(fmul(p.3, q.3), d2());
    let zz = fmul(p.2, q.2);
    let d = fadd(zz, zz);
    let e = fsub(b, a);
    let f = fsub(d, c);
    let g = fadd(d, c);
    let h = fadd(b, a);
    (fmul(e, f), fmul(g, h), fmul(f, g), fmul(e, h))
}

/// Doubling is addition of a point to itself.
pub open spec fn double_coords(p: Coords) -> Coords {
    add_coords(p, p)
}

/// The inverse of a point: `(-X : Y : Z : -T)`.
pub open spec fn negate_coords(p: Coords) -> Coords {
    (fneg(p.0), p.1, p.2, fneg(p.3))
}

/// Two coordinate tuples name the same affine point: `X1 Z2 = X2 Z1` and
/// `Y1 Z2 = Y2 Z1`.
pub open spec fn proj_eq(p: Coords, q: Coords) -> bool {
    fmul(p.0, q.2) == fmul(q.0, p.2) && fmul(p.1, q.2) == fmul(q.1, p.2)
}

/// Double-and-add over bits, most significant first: for each bit the
/// accumulator is doubled, and `p` is added when the bit is 1.
pub open spec fn mul_bits_coords(bits: Seq<u8>, p: Coords) -> Coords
    decreases bits.len(),
{
    if bits.len() == 0 {
        identity_coords()
    } else {
        let acc = double_coords(mul_bits_coords(bits.drop_last(), p));
        if bits.last() == 1 {
            add_coords(acc, p)
        } else {
            acc
        }
    }
}

/// The `n` low bits of `v`, most significant first.
pub open spec fn msb_bits(v: int, n: nat) -> Seq<u8>
    decreases n,
{
    if n == 0 {
        Seq::empty()
    } else {
        msb_bits(v / 2, (n - 1) as nat).push((v % 2) as u8)
    }
}

/// A bit sequence is the binary form of its value.
pub proof fn lemma_bits_are_msb_bits(s: Seq<u8>)
    requires
        all_bits(s),
    ensures
        s == msb_bits(bits_value(s), s.len()),
    decreases s.len(),
{
    if s.len() > 0 {
        let t = s.drop_last();
        assert(all_bits(t)) by {
            assert forall|k: int| 0 <= k < t.len() implies #[trigger] t[k] <= 1 by {
                assert(t[k] == s[k]);
            }
        }
        lemma_bits_are_msb_bits(t);
        let v = bits_value(s);
        assert(s[s.len() - 1] <= 1);
        vstd::arithmetic::div_mod::lemma_fundamental_div_mod_converse(v, 2, bits_value(t), s.last() as int);
        assert(s =~= t.push(s.last()));
    }
}

/// `s * p`: the 256-bit double-and-add over the scalar's bits.
pub open spec fn scalar_mul_coords(s: int, p: Coords) -> Coords {
    mul_bits_coords(msb_bits(s, 256), p)
}

proof fn lemma_and_bits(a: u8, b: u8)
    by (bit_vector)
    requires
        a <= 1,
        b <= 1,
    ensures
        (a & b) == 1 <==> (a == 1 && b == 1),
{
}

/// A curve point in extended coordinates.
#[derive(Clone, Copy, Debug, PartialEq, Eq, Structural)]
pub struct EdwardsPoint {
    pub x: FieldElement,
    pub y: FieldElement,
    pub z: FieldElement,
    pub t: FieldElement,
}

impl EdwardsPoint {
    /// The coordinates as integers.
    pub open spec fn model(self) -> Coords {
        (self.x.val(), self.y.val(), self.z.val(), self.t.val())
    }

    /// Every coordinate is a reduced field element.
    pub open spec fn wf(self) -> bool {
        self.x.wf() && self.y.wf() && self.z.wf() && self.t.wf()
    }

    pub fn identity() -> (r: EdwardsPoint)
        ensures
            r.wf(),
            r.model() == identity_coords(),
    {
        EdwardsPoint {
            x: FieldElement::zero(),
            y: FieldElement::one(),
            z: FieldElement::one(),
            t: FieldElement::zero(),
        }
    }

    /// The sum of two points by the complete extended-coordinate formula.
    pub fn add(&self, other: &EdwardsPoint) -> (r: EdwardsPoint)
        requires
            self.wf(),
            other.wf(),
        ensures
            r.wf(),
            r.model() == add_coords(self.model(), other.model()),
    {
        let d = FieldElement::edwards_d();
        let d2 = d.add(&d);
        let a = self.y.sub(&self.x).mul(&other.y.sub(&other.x));
        let b = self.y.add(&self.x).mul(&other.y.add(&other.x));
        let c = self.t.mul(&other.t).mul(&d2);
        let zz = self.z.mul(&other.z);
        let dd = zz.add(&zz);
        let e = b.sub(&a);
        let f = dd.sub(&c);
        let g = dd.add(&c);
        let h = b.add(&a);
        EdwardsPoint { x: e.mul(&f), y: g.mul(&h), z: f.mul(&g), t: e.mul(&h) }
    }

    pub fn double(&self) -> (r: EdwardsPoint)
        requires
            self.wf(),
        ensures
            r.wf(),
            r.model() == double_coords(self.model()),
    {
        self.add(self)
    }

    pub fn negate(&self) -> (r: EdwardsPoint)
        requires
            self.wf(),
        ensures
            r.wf(),
            r.model() == negate_coords(self.model()),
    {
        EdwardsPoint { x: self.x.negate(), y: self.y, z: self.z, t: self.t.negate() }
    }

    /// Whether the two points are the same, by cross-multiplication.
    pub fn equals(&self, other: &EdwardsPoint) -> (r: bool)
        requires
            self.wf(),
            other.wf(),
        ensures
            r == proj_eq(self.model(), other.model()),
    {
        let ex = self.x.mul(&other.z).ct_eq(&other.x.mul(&self.z));
        let ey = self.y.mul(&other.z).ct_eq(&other.y.mul(&self.z));
        proof {
            lemma_and_bits(ex, ey);
        }
        (ex & ey) == 1
    }

    /// `b` when `choice` is 1, `a` when it is 0, without branching on it.
    pub fn conditional_select(a: &EdwardsPoint, b: &EdwardsPoint, choice: u8) -> (r: EdwardsPoint)
        requires
            choice <= 1,
        ensures
            r == (if choice == 1 { *b } else { *a }),
    {
        EdwardsPoint {
            x: FieldElement::conditional_select(&a.x, &b.x, choice),
            y: FieldElement::conditional_select(&a.y, &b.y, choice),
            z: FieldElement::conditional_select(&a.z, &b.z, choice),
            t: FieldElement::conditional_select(&a.t, &b.t, choice),
        }
    }

    /// `s * self` by double-and-add over all 256 bits of `s`, the same
    /// sequence of operations for every scalar.
    pub fn scalar_mul(&self, s: &Scalar) -> (r: EdwardsPoint)
        requires
            self.wf(),
        ensures
            r.wf(),
            r.model() == scalar_mul_coords(s.val(), self.model()),
    {
        let bits = s.bits();
        let mut acc = EdwardsPoint::identity();
        let mut i: usize = 0;
        proof {
            assert(bits@.take(0) =~= Seq::<u8>::empty());
        }
        while i < bits.len()
            invariant
                self.wf(),
                acc.wf(),
                all_bits(bits@),
                i <= bits@.len(),
                acc.model() == mul_bits_coords(bits@.take(i as int), self.model()),
            decreases bits.len() - i,
        {
            let doubled = acc.double();
            let sum = doubled.add(self);
            acc = EdwardsPoint::conditional_select(&doubled, &sum, bits[i]);
            proof {
                assert(bits@.take(i + 1).drop_last() =~= bits@.take(i as int));
            }
            i = i + 1;
        }
        proof {
            assert(bits@.take(bits@.len() as int) =~= bits@);
            lemma_bits_are_msb_bits(bits@);
        }
        acc
    }
}

} // verus!

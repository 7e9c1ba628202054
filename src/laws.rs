//! Algebraic facts about the field, the point formulas and batched
//! multiplication, stated over the same spec functions as the operations'
//! contracts.

use vstd::prelude::*;
use vstd::arithmetic::div_mod::{
    lemma_add_mod_noop, lemma_mod_bound, lemma_mod_twice, lemma_mul_mod_noop, lemma_small_mod,
    lemma_sub_mod_noop,
};
use vstd::arithmetic::power::{pow, lemma_pow1, lemma_pow_adds};
use crate::edwards::{
    Coords, add_coords, d2, double_coords, negate_coords, identity_coords, lemma_bits_are_msb_bits, msb_bits,
    mul_bits_coords, proj_eq, scalar_mul_coords,
};
use crate::field::{edwards_d, fadd, finv, fmul, fneg, fsub, p};
use crate::compressed::decoded_coords;
use crate::multiscalar::{bit_table, column_coords, multiscalar_coords, prefix_coords, lemma_msb_bits_are_bits};

verus! {

/// Adding zero leaves a field element unchanged.
pub proof fn lemma_add_zero(a: int)
    requires
        0 <= a < p(),
    ensures
        fadd(a, 0) == a,
{
    lemma_small_mod(a as nat, p() as nat);
}

/// An element minus itself is zero.
pub proof fn lemma_sub_self(a: int)
    ensures
        fsub(a, a) == 0,
{
    lemma_small_mod(0, p() as nat);
}

/// An element times its computed inverse is the element raised to `p - 1`,
/// reduced modulo `p`.
pub proof fn lemma_mul_inverse_is_power(a: int)
    requires
        0 <= a < p(),
    ensures
        fmul(a, finv(a)) == pow(a, (p() - 1) as nat) % p(),
{
    let e = (p() - 2) as nat;
    lemma_small_mod(a as nat, p() as nat);
    vstd::arithmetic::div_mod::lemma_mul_mod_noop(a, pow(a, e), p());
    lemma_pow1(a);
    lemma_pow_adds(a, 1, e);
    assert(a * pow(a, e) == pow(a, 1) * pow(a, e));
}

/// Point addition is commutative, down to the coordinates it produces.
pub proof fn lemma_add_commutative(p1: Coords, p2: Coords)
    ensures
        add_coords(p1, p2) == add_coords(p2, p1),
{
    assert(fmul(fsub(p1.1, p1.0), fsub(p2.1, p2.0)) == fmul(fsub(p2.1, p2.0), fsub(p1.1, p1.0)));
    assert(fmul(fadd(p1.1, p1.0), fadd(p2.1, p2.0)) == fmul(fadd(p2.1, p2.0), fadd(p1.1, p1.0)));
    assert(fmul(p1.3, p2.3) == fmul(p2.3, p1.3));
    assert(fmul(p1.2, p2.2) == fmul(p2.2, p1.2));
}

/// The bits of zero are all zero.
proof fn lemma_msb_bits_zero(n: nat)
    ensures
        forall|k: int| 0 <= k < n ==> #[trigger] msb_bits(0, n)[k] == 0,
        msb_bits(0, n).len() == n,
    decreases n,
{
    lemma_msb_bits_are_bits(0, n);
    if n > 0 {
        lemma_msb_bits_zero((n - 1) as nat);
        assert forall|k: int| 0 <= k < n implies #[trigger] msb_bits(0, n)[k] == 0 by {
            if k < n - 1 {
                assert(msb_bits(0, n)[k] == msb_bits(0, (n - 1) as nat)[k]);
            }
        }
    }
}

/// Doubling a point of the form `(0 : y : y : 0)` gives another of that form.
proof fn lemma_double_neutral_form(y: int)
    requires
        0 <= y < p(),
    ensures
        double_coords((0, y, y, 0)).0 == 0,
        double_coords((0, y, y, 0)).3 == 0,
        double_coords((0, y, y, 0)).1 == double_coords((0, y, y, 0)).2,
        0 <= double_coords((0, y, y, 0)).1 < p(),
{
    lemma_small_mod(y as nat, p() as nat);
    lemma_small_mod(0, p() as nat);
    let zz = fmul(y, y);
    lemma_mod_bound(y * y, p());
    let d = fadd(zz, zz);
    lemma_mod_bound(zz + zz, p());
    lemma_small_mod(d as nat, p() as nat);
    assert(fsub(y, 0) == y);
    assert(fadd(y, 0) == y);
    assert(fmul(0, 0) == 0);
    assert(0 * crate::edwards::d2() == 0);
    assert(fmul(fmul(0, 0), crate::edwards::d2()) == 0);
    let a = fmul(fsub(y, 0), fsub(y, 0));
    let b = fmul(fadd(y, 0), fadd(y, 0));
    assert(a == b);
    assert(fsub(b, a) == 0);
    assert(0 * fsub(d, 0) == 0);
    assert(0 * fadd(b, a) == 0);
    assert(fsub(d, 0) == d);
    assert(fadd(d, 0) == d);
    lemma_mod_bound(d * d, p());
}

/// Double-and-add over all-zero bits stays of the form `(0 : y : y : 0)`.
proof fn lemma_zero_bits_neutral(bits: Seq<u8>, pt: Coords)
    requires
        forall|k: int| 0 <= k < bits.len() ==> #[trigger] bits[k] == 0,
    ensures
        mul_bits_coords(bits, pt).0 == 0,
        mul_bits_coords(bits, pt).3 == 0,
        mul_bits_coords(bits, pt).1 == mul_bits_coords(bits, pt).2,
        0 <= mul_bits_coords(bits, pt).1 < p(),
    decreases bits.len(),
{
    if bits.len() > 0 {
        let t = bits.drop_last();
        assert forall|k: int| 0 <= k < t.len() implies #[trigger] t[k] == 0 by {
            assert(t[k] == bits[k]);
        }
        lemma_zero_bits_neutral(t, pt);
        let r = mul_bits_coords(t, pt);
        assert(r == (0int, r.1, r.1, 0int));
        lemma_double_neutral_form(r.1);
        assert(bits.last() == bits[bits.len() - 1]);
    }
}

/// Zero times any point is the neutral element.
pub proof fn lemma_scalar_mul_zero(pt: Coords)
    ensures
        proj_eq(scalar_mul_coords(0, pt), identity_coords()),
{
    lemma_msb_bits_zero(256);
    lemma_zero_bits_neutral(msb_bits(0, 256), pt);
    let r = scalar_mul_coords(0, pt);
    lemma_small_mod(r.1 as nat, p() as nat);
    lemma_small_mod(0, p() as nat);
    assert(fmul(r.1, 1) == fmul(1, r.2));
}

proof fn lemma_single_prefix(s: int, pt: Coords, k: nat)
    requires
        k <= 256,
    ensures
        prefix_coords(bit_table(seq![s]), seq![pt], k) == mul_bits_coords(msb_bits(s, 256).take(k as int), pt),
    decreases k,
{
    lemma_msb_bits_are_bits(s, 256);
    if k > 0 {
        lemma_single_prefix(s, pt, (k - 1) as nat);
        let bits = msb_bits(s, 256);
        assert(bits.take(k as int).drop_last() =~= bits.take(k - 1));
        let table = bit_table(seq![s]);
        assert(table[0] == bits);
        let acc = double_coords(prefix_coords(table, seq![pt], (k - 1) as nat));
        assert(column_coords(acc, table, seq![pt], k - 1, 0) == acc);
    }
}

/// Batched multiplication of a single pair is plain scalar multiplication,
/// down to the coordinates it produces.
pub proof fn lemma_single_pair(s: int, pt: Coords)
    ensures
        multiscalar_coords(seq![s], seq![pt]) == scalar_mul_coords(s, pt),
{
    lemma_single_prefix(s, pt, 256);
    lemma_msb_bits_are_bits(s, 256);
    assert(msb_bits(s, 256).take(256) =~= msb_bits(s, 256));
}

/// `a` and `b` agree modulo `p`.
pub open spec fn cong(a: int, b: int) -> bool {
    a % p() == b % p()
}

proof fn lemma_cong_mul(a: int, b: int, x: int, y: int)
    requires
        cong(a, x),
        cong(b, y),
    ensures
        cong(fmul(a, b), x * y),
{
    lemma_mul_mod_noop(a, b, p());
    lemma_mul_mod_noop(x, y, p());
    lemma_mod_twice(a * b, p());
}

proof fn lemma_cong_add(a: int, b: int, x: int, y: int)
    requires
        cong(a, x),
        cong(b, y),
    ensures
        cong(fadd(a, b), x + y),
{
    lemma_add_mod_noop(a, b, p());
    lemma_add_mod_noop(x, y, p());
    lemma_mod_twice(a + b, p());
}

proof fn lemma_cong_sub(a: int, b: int, x: int, y: int)
    requires
        cong(a, x),
        cong(b, y),
    ensures
        cong(fsub(a, b), x - y),
{
    lemma_sub_mod_noop(a, b, p());
    lemma_sub_mod_noop(x, y, p());
    lemma_mod_twice(a - b, p());
}

/// Adding a point `(X : Y : Z : T)` to one of the form `(0 : w : w : 0)`
/// gives a point equal to `(X : Y : Z : T)`.
proof fn lemma_add_neutral_form(w: int, q: Coords)
    requires
        0 <= w < p(),
        0 <= q.0 < p(),
        0 <= q.1 < p(),
        0 <= q.2 < p(),
    ensures
        proj_eq(add_coords((0, w, w, 0), q), q),
{
    let (x, y, z, t) = q;
    lemma_small_mod(w as nat, p() as nat);
    lemma_small_mod(x as nat, p() as nat);
    lemma_small_mod(y as nat, p() as nat);
    lemma_small_mod(z as nat, p() as nat);
    lemma_small_mod(0, p() as nat);
    assert(cong(w, w) && cong(x, x) && cong(y, y) && cong(z, z) && cong(0, 0));
    lemma_cong_sub(w, 0, w, 0);
    lemma_cong_sub(y, x, y, x);
    lemma_cong_add(w, 0, w, 0);
    lemma_cong_add(y, x, y, x);
    let a = fmul(fsub(w, 0), fsub(y, x));
    let b = fmul(fadd(w, 0), fadd(y, x));
    lemma_cong_mul(fsub(w, 0), fsub(y, x), w - 0, y - x);
    lemma_cong_mul(fadd(w, 0), fadd(y, x), w + 0, y + x);
    assert(0 * t == 0);
    assert(fmul(0, t) == 0);
    assert(0 * crate::edwards::d2() == 0);
    let c = fmul(fmul(0, t), crate::edwards::d2());
    assert(c == 0);
    let zz = fmul(w, z);
    lemma_cong_mul(w, z, w, z);
    let d = fadd(zz, zz);
    lemma_cong_add(zz, zz, w * z, w * z);
    lemma_mod_bound(zz + zz, p());
    lemma_small_mod(d as nat, p() as nat);
    assert(fsub(d, c) == d);
    assert(fadd(d, c) == d);
    let e = fsub(b, a);
    lemma_cong_sub(b, a, (w + 0) * (y + x), (w - 0) * (y - x));
    let h = fadd(b, a);
    lemma_cong_add(b, a, (w + 0) * (y + x), (w - 0) * (y - x));
    let ex = (w + 0) * (y + x) - (w - 0) * (y - x);
    let hx = (w + 0) * (y + x) + (w - 0) * (y - x);
    let dx = w * z + w * z;
    let r = add_coords((0, w, w, 0), q);
    assert(r == (fmul(e, d), fmul(d, h), fmul(d, d), fmul(e, h)));
    lemma_cong_mul(e, d, ex, dx);
    lemma_cong_mul(d, h, dx, hx);
    lemma_cong_mul(d, d, dx, dx);
    lemma_cong_mul(r.0, z, ex * dx, z);
    lemma_cong_mul(x, r.2, x, dx * dx);
    lemma_cong_mul(r.1, z, dx * hx, z);
    lemma_cong_mul(y, r.2, y, dx * dx);
    assert(ex * dx * z == x * (dx * dx)) by (nonlinear_arith)
        requires
            ex == (w + 0) * (y + x) - (w - 0) * (y - x),
            dx == w * z + w * z,
    ;
    assert(dx * hx * z == y * (dx * dx)) by (nonlinear_arith)
        requires
            hx == (w + 0) * (y + x) + (w - 0) * (y - x),
            dx == w * z + w * z,
    ;
    lemma_mod_bound(r.0 * z, p());
    lemma_mod_bound(x * r.2, p());
    lemma_mod_bound(r.1 * z, p());
    lemma_mod_bound(y * r.2, p());
    lemma_mod_twice(r.0 * z, p());
    lemma_mod_twice(x * r.2, p());
    lemma_mod_twice(r.1 * z, p());
    lemma_mod_twice(y * r.2, p());
}

/// Adding the neutral element to a point with reduced coordinates gives a
/// point equal to it.
pub proof fn lemma_add_identity(q: Coords)
    requires
        0 <= q.0 < p(),
        0 <= q.1 < p(),
        0 <= q.2 < p(),
    ensures
        proj_eq(add_coords(q, identity_coords()), q),
        proj_eq(add_coords(identity_coords(), q), q),
{
    lemma_add_commutative(q, identity_coords());
    lemma_add_neutral_form(1, q);
}

/// One times a point with reduced coordinates is a point equal to it.
pub proof fn lemma_scalar_mul_one(q: Coords)
    requires
        0 <= q.0 < p(),
        0 <= q.1 < p(),
        0 <= q.2 < p(),
    ensures
        proj_eq(scalar_mul_coords(1, q), q),
{
    let bits = msb_bits(1, 256);
    assert(bits == msb_bits(0, 255).push(1u8));
    assert(bits.drop_last() =~= msb_bits(0, 255));
    lemma_msb_bits_zero(255);
    lemma_zero_bits_neutral(msb_bits(0, 255), q);
    let acc = mul_bits_coords(msb_bits(0, 255), q);
    lemma_double_neutral_form(acc.1);
    let dbl = double_coords(acc);
    assert(acc == (0int, acc.1, acc.1, 0int));
    assert(dbl == (0int, dbl.1, dbl.1, 0int));
    lemma_add_neutral_form(dbl.1, q);
}

/// The curve equation in extended coordinates: `Y^2 - X^2 = Z^2 + d T^2`.
pub open spec fn on_curve(q: Coords) -> bool {
    fsub(fmul(q.1, q.1), fmul(q.0, q.0)) == fadd(fmul(q.2, q.2), fmul(edwards_d(), fmul(q.3, q.3)))
}

proof fn lemma_cong_reduced(a: int)
    ensures
        cong(a % p(), a),
{
    lemma_mod_twice(a, p());
}

/// A point on the curve plus its negation is the neutral element.
pub proof fn lemma_add_negation(q: Coords)
    requires
        0 <= q.0 < p(),
        0 <= q.1 < p(),
        0 <= q.2 < p(),
        0 <= q.3 < p(),
        on_curve(q),
    ensures
        proj_eq(add_coords(q, negate_coords(q)), identity_coords()),
{
    let (x, y, z, t) = q;
    let dc = edwards_d();
    lemma_cong_reduced(x);
    lemma_cong_reduced(y);
    lemma_cong_reduced(z);
    lemma_cong_reduced(t);
    lemma_small_mod(x as nat, p() as nat);
    lemma_small_mod(y as nat, p() as nat);
    lemma_small_mod(z as nat, p() as nat);
    lemma_small_mod(t as nat, p() as nat);
    lemma_cong_reduced(0 - x);
    lemma_cong_reduced(0 - t);
    lemma_cong_reduced(dc);
    let nx = fneg(x);
    let nt = fneg(t);
    lemma_cong_sub(y, x, y, x);
    lemma_cong_sub(y, nx, y, 0 - x);
    lemma_cong_add(y, x, y, x);
    lemma_cong_add(y, nx, y, 0 - x);
    let a = fmul(fsub(y, x), fsub(y, nx));
    let b = fmul(fadd(y, x), fadd(y, nx));
    lemma_cong_mul(fsub(y, x), fsub(y, nx), y - x, y - (0 - x));
    lemma_cong_mul(fadd(y, x), fadd(y, nx), y + x, y + (0 - x));
    lemma_cong_mul(t, nt, t, 0 - t);
    lemma_cong_add(dc, dc, dc, dc);
    let c = fmul(fmul(t, nt), d2());
    lemma_cong_mul(fmul(t, nt), d2(), t * (0 - t), dc + dc);
    let zz = fmul(z, z);
    lemma_cong_mul(z, z, z, z);
    let dd = fadd(zz, zz);
    lemma_cong_add(zz, zz, z * z, z * z);
    let e = fsub(b, a);
    let f = fsub(dd, c);
    let g = fadd(dd, c);
    let h = fadd(b, a);
    let ax = (y - x) * (y - (0 - x));
    let bx = (y + x) * (y + (0 - x));
    let cx = t * (0 - t) * (dc + dc);
    let dx = z * z + z * z;
    lemma_cong_sub(b, a, bx, ax);
    lemma_cong_sub(dd, c, dx, cx);
    lemma_cong_add(dd, c, dx, cx);
    lemma_cong_add(b, a, bx, ax);
    let r = add_coords(q, negate_coords(q));
    assert(r == (fmul(e, f), fmul(g, h), fmul(f, g), fmul(e, h)));
    assert(bx - ax == 0) by (nonlinear_arith)
        requires
            ax == (y - x) * (y - (0 - x)),
            bx == (y + x) * (y + (0 - x)),
    ;
    lemma_cong_mul(e, f, 0, dx - cx);
    assert(0 * (dx - cx) == 0);
    lemma_small_mod(0, p() as nat);
    lemma_mod_bound(e * f, p());
    lemma_small_mod(r.0 as nat, p() as nat);
    assert(r.0 == 0);
    // The curve equation turns `h` into `f`.
    lemma_cong_mul(y, y, y, y);
    lemma_cong_mul(x, x, x, x);
    lemma_cong_mul(t, t, t, t);
    lemma_cong_sub(fmul(y, y), fmul(x, x), y * y, x * x);
    lemma_cong_mul(dc, fmul(t, t), dc, t * t);
    lemma_cong_add(fmul(z, z), fmul(dc, fmul(t, t)), z * z, dc * (t * t));
    let lhs = y * y - x * x;
    let rhs = z * z + dc * (t * t);
    assert(cong(lhs, rhs));
    assert(bx + ax == 2 * lhs) by (nonlinear_arith)
        requires
            ax == (y - x) * (y - (0 - x)),
            bx == (y + x) * (y + (0 - x)),
            lhs == y * y - x * x,
    ;
    assert(dx - cx == 2 * rhs) by (nonlinear_arith)
        requires
            cx == t * (0 - t) * (dc + dc),
            dx == z * z + z * z,
            rhs == z * z + dc * (t * t),
    ;
    lemma_cong_mul(2, lhs, 2, rhs);
    lemma_cong_reduced(2 * lhs);
    assert(cong(h, dx - cx));
    lemma_cong_mul(g, h, dx + cx, dx - cx);
    lemma_cong_mul(f, g, dx - cx, dx + cx);
    assert((dx + cx) * (dx - cx) == (dx - cx) * (dx + cx)) by (nonlinear_arith);
    lemma_mod_bound(g * h, p());
    lemma_mod_bound(f * g, p());
    lemma_small_mod(r.1 as nat, p() as nat);
    lemma_small_mod(r.2 as nat, p() as nat);
    assert(r.1 == r.2);
    assert(fmul(r.1, 1) == fmul(1, r.2));
    assert(fmul(r.0, 1) == fmul(0, r.2));
}

proof fn lemma_cong_from_diff(a: int, b: int)
    requires
        (a - b) % p() == 0,
    ensures
        cong(a, b),
{
    lemma_add_mod_noop(b, a - b, p());
    lemma_mod_twice(b, p());
    lemma_mod_bound(b, p());
    lemma_small_mod((b % p()) as nat, p() as nat);
}

/// Every point that `decompress` produces satisfies the curve equation.
pub proof fn lemma_decoded_on_curve(c: Seq<u8>)
    requires
        decoded_coords(c) is Ok,
    ensures
        on_curve(decoded_coords(c)->Ok_0),
{
    let q = decoded_coords(c)->Ok_0;
    let (x, y, z, t) = q;
    let dc = edwards_d();
    let yy = fmul(y, y);
    let u = fsub(yy, 1);
    let v = fadd(fmul(dc, yy), 1);
    let x0 = fmul(u, crate::field::invsqrt_value(fmul(u, v)));
    let x0sq = x0 * x0;
    let vi = dc * (y * y) + 1;
    assert(z == 1);
    assert(t == fmul(x, y));
    assert(fmul(v, fmul(x0, x0)) == u);
    // The check that decoding passed: `v x0^2 = u`.
    lemma_cong_reduced(y);
    lemma_cong_reduced(dc);
    lemma_cong_reduced(1);
    lemma_cong_reduced(x0);
    lemma_cong_mul(y, y, y, y);
    lemma_cong_mul(dc, yy, dc, y * y);
    lemma_cong_add(fmul(dc, yy), 1, dc * (y * y), 1);
    lemma_cong_sub(yy, 1, y * y, 1);
    lemma_cong_mul(x0, x0, x0, x0);
    lemma_cong_mul(v, fmul(x0, x0), vi, x0sq);
    assert(cong(vi * x0sq, y * y - 1));
    lemma_cong_sub(y * y - 1, vi * x0sq, y * y - 1, y * y - 1);
    lemma_small_mod(0, p() as nat);
    lemma_mod_twice((y * y - 1) - vi * x0sq, p());
    assert(((y * y - 1) - vi * x0sq) % p() == 0);
    // `x^2` agrees with `x0^2`, whichever sign was chosen.
    lemma_cong_reduced(0 - x0);
    if x == x0 {
        lemma_cong_mul(x, x, x0, x0);
    } else {
        lemma_cong_mul(x, x, 0 - x0, 0 - x0);
        assert((0 - x0) * (0 - x0) == x0sq) by (nonlinear_arith)
            requires
                x0sq == x0 * x0,
        ;
    }
    assert(cong(fmul(x, x), x0sq));
    lemma_cong_reduced(x * x);
    assert(cong(x * x, x0sq));
    // The two sides of the curve equation.
    lemma_cong_sub(yy, fmul(x, x), y * y, x0sq);
    lemma_cong_reduced(x * y);
    lemma_cong_mul(t, t, x * y, x * y);
    assert((x * y) * (x * y) == (x * x) * (y * y)) by (nonlinear_arith);
    lemma_cong_mul(x * x, y * y, x0sq, y * y);
    lemma_cong_reduced((x * x) * (y * y));
    assert(cong(fmul(t, t), x0sq * (y * y)));
    lemma_cong_mul(dc, fmul(t, t), dc, x0sq * (y * y));
    lemma_cong_mul(1, 1, 1, 1);
    lemma_cong_add(fmul(1, 1), fmul(dc, fmul(t, t)), 1, dc * (x0sq * (y * y)));
    let lhs = y * y - x0sq;
    let rhs = 1 + dc * (x0sq * (y * y));
    assert(lhs - rhs == (y * y - 1) - vi * x0sq) by (nonlinear_arith)
        requires
            vi == dc * (y * y) + 1,
            lhs == y * y - x0sq,
            rhs == 1 + dc * (x0sq * (y * y)),
    ;
    lemma_cong_from_diff(lhs, rhs);
    let l = fsub(fmul(y, y), fmul(x, x));
    let r = fadd(fmul(z, z), fmul(dc, fmul(t, t)));
    lemma_mod_twice(y * y - fmul(x, x), p());
    lemma_mod_twice(fmul(1, 1) + fmul(dc, fmul(t, t)), p());
    lemma_mod_bound(y * y - fmul(x, x), p());
    lemma_mod_bound(fmul(1, 1) + fmul(dc, fmul(t, t)), p());
    lemma_small_mod(l as nat, p() as nat);
    lemma_small_mod(r as nat, p() as nat);
    assert(l == r);
}

} // verus!

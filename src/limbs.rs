//! 256-bit unsigned integers held as four 64-bit limbs, and modular
//! addition, subtraction and multiplication over them for any modulus that
//! fits.

use vstd::prelude::*;
use vstd::arithmetic::div_mod::{lemma_add_mod_noop, lemma_fundamental_div_mod_converse, lemma_small_mod};

verus! {

/// 2^256 as a mathematical integer.
pub open spec fn wide() -> int {
    (0x1_0000_0000_0000_0000 * 0x1_0000_0000_0000_0000 * 0x1_0000_0000_0000_0000 * 0x1_0000_0000_0000_0000) as int
}

/// A 256-bit unsigned integer, least significant limb first.
#[derive(Clone, Copy, Debug, PartialEq, Eq, Structural)]
pub struct Limbs {
    pub l0: u64,
    pub l1: u64,
    pub l2: u64,
    pub l3: u64,
}

impl Limbs {
    /// The integer that the four limbs stand for.
    pub open spec fn value(self) -> int {
        self.l0 + 0x1_0000_0000_0000_0000 * (self.l1 + 0x1_0000_0000_0000_0000 * (self.l2
            + 0x1_0000_0000_0000_0000 * self.l3))
    }

    pub fn zero() -> (r: Limbs)
        ensures
            r.value() == 0,
    {
        Limbs { l0: 0, l1: 0, l2: 0, l3: 0 }
    }
}

/// Two limb sequences with the same value are the same limbs.
pub proof fn lemma_value_injective(a: Limbs, b: Limbs)
    requires
        a.value() == b.value(),
    ensures
        a == b,
{
    assert(a.l3 == b.l3);
    assert(a.l2 == b.l2);
    assert(a.l1 == b.l1);
}

pub proof fn lemma_value_bound(a: Limbs)
    ensures
        a.value() < wide(),
{
}

proof fn lemma_split_u128(t: u128)
    by (bit_vector)
    ensures
        t == (t >> 64u128) * 0x1_0000_0000_0000_0000u128 + (t & 0xffff_ffff_ffff_ffffu128),
        (t & 0xffff_ffff_ffff_ffffu128) <= 0xffff_ffff_ffff_ffffu128,
        (t >> 64u128) <= 0xffff_ffff_ffff_ffffu128,
{
}

/// One limb of an addition: `a + b + c` as a low limb and a carry.
fn add_carry(a: u64, b: u64, c: u64) -> (r: (u64, u64))
    requires
        c <= 1,
    ensures
        r.0 + r.1 * 0x1_0000_0000_0000_0000 == a + b + c,
        r.1 <= 1,
{
    let t: u128 = a as u128 + b as u128 + c as u128;
    proof {
        lemma_split_u128(t);
    }
    ((t & 0xffff_ffff_ffff_ffffu128) as u64, (t >> 64u128) as u64)
}

/// One limb of a subtraction: `a - b - c` as a low limb and a borrow.
fn sub_borrow(a: u64, b: u64, c: u64) -> (r: (u64, u64))
    requires
        c <= 1,
    ensures
        r.0 - r.1 * 0x1_0000_0000_0000_0000 == a - b - c,
        r.1 <= 1,
{
    let t: u128 = a as u128 + 0x1_0000_0000_0000_0000u128 - b as u128 - c as u128;
    proof {
        lemma_split_u128(t);
    }
    let hi: u64 = (t >> 64u128) as u64;
    ((t & 0xffff_ffff_ffff_ffffu128) as u64, 1 - hi)
}

/// The sum of two 256-bit integers, with the carry out of the top limb.
pub fn add_limbs(a: &Limbs, b: &Limbs) -> (r: (Limbs, u64))
    ensures
        r.0.value() + r.1 * 0x1_0000_0000_0000_0000 * 0x1_0000_0000_0000_0000 * 0x1_0000_0000_0000_0000 * 0x1_0000_0000_0000_0000 == a.value() + b.value(),
        r.1 <= 1,
{
    let (s0, c0) = add_carry(a.l0, b.l0, 0);
    let (s1, c1) = add_carry(a.l1, b.l1, c0);
    let (s2, c2) = add_carry(a.l2, b.l2, c1);
    let (s3, c3) = add_carry(a.l3, b.l3, c2);
    (Limbs { l0: s0, l1: s1, l2: s2, l3: s3 }, c3)
}

/// The difference of two 256-bit integers, with the borrow out of the top
/// limb.
pub fn sub_limbs(a: &Limbs, b: &Limbs) -> (r: (Limbs, u64))
    ensures
        r.0.value() - r.1 * 0x1_0000_0000_0000_0000 * 0x1_0000_0000_0000_0000 * 0x1_0000_0000_0000_0000 * 0x1_0000_0000_0000_0000 == a.value() - b.value(),
        r.1 <= 1,
        r.1 == 1 <==> a.value() < b.value(),
{
    let (s0, c0) = sub_borrow(a.l0, b.l0, 0);
    let (s1, c1) = sub_borrow(a.l1, b.l1, c0);
    let (s2, c2) = sub_borrow(a.l2, b.l2, c1);
    let (s3, c3) = sub_borrow(a.l3, b.l3, c2);
    let r = Limbs { l0: s0, l1: s1, l2: s2, l3: s3 };
    proof {
        lemma_value_bound(r);
    }
    (r, c3)
}

proof fn lemma_select_word(x: u64, y: u64, mask: u64)
    by (bit_vector)
    requires
        mask == 0 || mask == 0xffff_ffff_ffff_ffffu64,
    ensures
        mask == 0 ==> x ^ (mask & (x ^ y)) == x,
        mask == 0xffff_ffff_ffff_ffffu64 ==> x ^ (mask & (x ^ y)) == y,
{
}

/// Picks `b` when `choice` is 1 and `a` when it is 0, by masking rather than
/// by branching on `choice`.
pub fn select_limbs(a: &Limbs, b: &Limbs, choice: u64) -> (r: Limbs)
    requires
        choice <= 1,
    ensures
        r == (if choice == 1 { *b } else { *a }),
{
    let mask: u64 = choice * 0xffff_ffff_ffff_ffffu64;
    proof {
        lemma_select_word(a.l0, b.l0, mask);
        lemma_select_word(a.l1, b.l1, mask);
        lemma_select_word(a.l2, b.l2, mask);
        lemma_select_word(a.l3, b.l3, mask);
    }
    Limbs {
        l0: a.l0 ^ (mask & (a.l0 ^ b.l0)),
        l1: a.l1 ^ (mask & (a.l1 ^ b.l1)),
        l2: a.l2 ^ (mask & (a.l2 ^ b.l2)),
        l3: a.l3 ^ (mask & (a.l3 ^ b.l3)),
    }
}

/// 1 when `a` and `b` hold the same integer, else 0.
pub fn eq_limbs(a: &Limbs, b: &Limbs) -> (r: u64)
    ensures
        r <= 1,
        r == 1 <==> a.value() == b.value(),
{
    let x: u64 = (a.l0 ^ b.l0) | (a.l1 ^ b.l1) | (a.l2 ^ b.l2) | (a.l3 ^ b.l3);
    proof {
        lemma_or_zero(a.l0, b.l0, a.l1, b.l1, a.l2, b.l2, a.l3, b.l3);
        if a.value() == b.value() {
            lemma_value_injective(*a, *b);
        }
    }
    if x == 0 {
        1
    } else {
        0
    }
}

proof fn lemma_or_zero(a0: u64, b0: u64, a1: u64, b1: u64, a2: u64, b2: u64, a3: u64, b3: u64)
    by (bit_vector)
    ensures
        ((a0 ^ b0) | (a1 ^ b1) | (a2 ^ b2) | (a3 ^ b3)) == 0 <==> (a0 == b0 && a1 == b1 && a2 == b2
            && a3 == b3),
{
}

/// Bringing `x` from `[-m, 2m)` into `[0, m)` by adding or subtracting `m`
/// at most once gives `x mod m`.
pub proof fn lemma_reduce_once(x: int, m: int)
    requires
        0 < m,
        -m <= x < 2 * m,
    ensures
        0 <= x < m ==> x % m == x,
        m <= x ==> x % m == x - m,
        x < 0 ==> x % m == x + m,
{
    if 0 <= x < m {
        lemma_fundamental_div_mod_converse(x, m, 0, x);
    } else if m <= x {
        lemma_fundamental_div_mod_converse(x, m, 1, x - m);
    } else {
        lemma_fundamental_div_mod_converse(x, m, -1, x + m);
    }
}

/// A modulus for which the sum of two reduced values never leaves 256 bits.
pub open spec fn modulus_ok(m: Limbs) -> bool {
    0 < m.value() && m.l3 < 0x8000_0000_0000_0000
}

/// `(a + b) mod m` for `a` and `b` already below `m`.
pub fn mod_add(a: &Limbs, b: &Limbs, m: &Limbs) -> (r: Limbs)
    requires
        modulus_ok(*m),
        a.value() < m.value(),
        b.value() < m.value(),
    ensures
        r.value() == (a.value() + b.value()) % m.value(),
        r.value() < m.value(),
{
    let (s, c) = add_limbs(a, b);
    proof {
        lemma_value_bound(s);
        assert(c == 0);
    }
    let (d, borrow) = sub_limbs(&s, m);
    let r = select_limbs(&d, &s, borrow);
    proof {
        lemma_reduce_once(a.value() + b.value(), m.value());
    }
    r
}

/// `(a - b) mod m` for `a` and `b` already below `m`.
pub fn mod_sub(a: &Limbs, b: &Limbs, m: &Limbs) -> (r: Limbs)
    requires
        modulus_ok(*m),
        a.value() < m.value(),
        b.value() < m.value(),
    ensures
        r.value() == (a.value() - b.value()) % m.value(),
        r.value() < m.value(),
{
    let (d, borrow) = sub_limbs(a, b);
    let (e, _c) = add_limbs(&d, m);
    let r = select_limbs(&d, &e, borrow);
    proof {
        lemma_value_bound(e);
        lemma_value_bound(d);
        lemma_reduce_once(a.value() - b.value(), m.value());
    }
    r
}

} // verus!

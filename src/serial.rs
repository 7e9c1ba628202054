//! Bit-serial modular multiplication and exponentiation over 256-bit
//! integers: both walk the bits of one operand from the most significant
//! end and do the same work for a 0 bit as for a 1 bit.

use vstd::prelude::*;
use vstd::arithmetic::div_mod::{lemma_add_mod_noop, lemma_mul_mod_noop, lemma_small_mod};
use vstd::arithmetic::power::{pow, lemma_pow_adds, lemma_pow1};
use vstd::arithmetic::power2::{pow2, lemma_pow2_unfold, lemma2_to64, lemma2_to64_rest};
use crate::limbs::{Limbs, modulus_ok, mod_add, select_limbs};

verus! {

/// The integer that a sequence of bits stands for, most significant first.
pub open spec fn bits_value(s: Seq<u8>) -> int
    decreases s.len(),
{
    if s.len() == 0 {
        0
    } else {
        2 * bits_value(s.drop_last()) + s.last()
    }
}

/// Every entry is 0 or 1.
pub open spec fn all_bits(s: Seq<u8>) -> bool {
    forall|k: int| 0 <= k < s.len() ==> #[trigger] s[k] <= 1
}

proof fn lemma_bits_take_step(s: Seq<u8>, i: int)
    requires
        0 <= i < s.len(),
    ensures
        bits_value(s.take(i + 1)) == 2 * bits_value(s.take(i)) + s[i],
{
    assert(s.take(i + 1).drop_last() =~= s.take(i));
}

/// The value of the limbs of `x` from limb `4 - j` up, for `j` in `0..=4`.
pub open spec fn top_limbs(x: Limbs, j: int) -> int {
    if j <= 0 {
        0
    } else if j == 1 {
        x.l3 as int
    } else if j == 2 {
        x.l3 * 0x1_0000_0000_0000_0000 + x.l2
    } else if j == 3 {
        (x.l3 * 0x1_0000_0000_0000_0000 + x.l2) * 0x1_0000_0000_0000_0000 + x.l1
    } else {
        x.value()
    }
}

/// The `i` most significant bits of a 64-bit word.
pub open spec fn high_bits(w: u64, i: int) -> int {
    if i <= 0 {
        0
    } else {
        (w >> ((64 - i) as u64)) as int
    }
}

proof fn lemma_shift_step(w: u64, s: u64, t: u64)
    by (bit_vector)
    requires
        t < 64,
        s == t + 1,
    ensures
        w >> t == 2 * (w >> s) + ((w >> t) & 1),
        (w >> t) & 1 <= 1,
{
}

proof fn lemma_top_bit(w: u64)
    by (bit_vector)
    ensures
        (w >> 63u64) & 1 == w >> 63u64,
        w >> 63u64 <= 1,
        w >> 0u64 == w,
{
}

proof fn lemma_high_bits_step(w: u64, i: int)
    requires
        0 <= i < 64,
    ensures
        high_bits(w, i + 1) == 2 * high_bits(w, i) + ((w >> ((63 - i) as u64)) & 1),
        (w >> ((63 - i) as u64)) & 1 <= 1,
{
    lemma_top_bit(w);
    if i > 0 {
        lemma_shift_step(w, (64 - i) as u64, (63 - i) as u64);
    }
}

/// The 256 bits of `x`, most significant first.
pub fn to_bits(x: &Limbs) -> (r: Vec<u8>)
    ensures
        r@.len() == 256,
        all_bits(r@),
        bits_value(r@) == x.value(),
{
    let mut v: Vec<u8> = Vec::new();
    let mut j: usize = 0;
    while j < 4
        invariant
            j <= 4,
            v@.len() == 64 * j,
            all_bits(v@),
            bits_value(v@) == top_limbs(*x, j as int),
        decreases 4 - j,
    {
        let w: u64 = if j == 0 {
            x.l3
        } else if j == 1 {
            x.l2
        } else if j == 2 {
            x.l1
        } else {
            x.l0
        };
        let ghost hi = top_limbs(*x, j as int);
        proof {
            lemma2_to64();
        }
        let mut i: usize = 0;
        while i < 64
            invariant
                j < 4,
                i <= 64,
                v@.len() == 64 * j + i,
                all_bits(v@),
                bits_value(v@) == hi * pow2(i as nat) + high_bits(w, i as int),
            decreases 64 - i,
        {
            let bit: u64 = (w >> (63 - i) as u64) & 1;
            proof {
                lemma_high_bits_step(w, i as int);
                lemma_pow2_unfold((i + 1) as nat);
                assert(hi * pow2((i + 1) as nat) == 2 * (hi * pow2(i as nat))) by (nonlinear_arith)
                    requires
                        pow2((i + 1) as nat) == 2 * pow2(i as nat),
                ;
            }
            let ghost old_v = v@;
            v.push(bit as u8);
            proof {
                assert(v@.drop_last() =~= old_v);
            }
            i = i + 1;
        }
        proof {
            lemma2_to64_rest();
            lemma_top_bit(w);
            assert(high_bits(w, 64) == w);
            assert(bits_value(v@) == hi * 0x1_0000_0000_0000_0000 + w);
        }
        j = j + 1;
    }
    v
}

proof fn lemma_mul_step(a: int, e: int, m: int, acc: int, bit: int)
    requires
        0 < m,
        0 <= a < m,
        acc == (a * e) % m,
        bit == 0 || bit == 1,
    ensures
        (acc + acc) % m == (a * (2 * e)) % m,
        (((acc + acc) % m) + a) % m == (a * (2 * e + 1)) % m,
{
    lemma_add_mod_noop(a * e, a * e, m);
    assert(a * e + a * e == a * (2 * e)) by (nonlinear_arith);
    lemma_small_mod(a as nat, m as nat);
    lemma_add_mod_noop(a * (2 * e), a, m);
    assert(a * (2 * e) + a == a * (2 * e + 1)) by (nonlinear_arith);
}

/// `(a * b) mod m` where `b` is given by its bits, most significant first.
pub fn mul_bits(a: &Limbs, bits: &Vec<u8>, m: &Limbs) -> (r: Limbs)
    requires
        modulus_ok(*m),
        a.value() < m.value(),
        all_bits(bits@),
    ensures
        r.value() == (a.value() * bits_value(bits@)) % m.value(),
        r.value() < m.value(),
{
    let mut acc = Limbs::zero();
    let mut i: usize = 0;
    proof {
        assert(bits@.take(0) =~= Seq::<u8>::empty());
        lemma_small_mod(0, m.value() as nat);
    }
    while i < bits.len()
        invariant
            modulus_ok(*m),
            a.value() < m.value(),
            all_bits(bits@),
            i <= bits@.len(),
            acc.value() < m.value(),
            acc.value() == (a.value() * bits_value(bits@.take(i as int))) % m.value(),
        decreases bits.len() - i,
    {
        let bit = bits[i];
        let ghost before = acc.value();
        let doubled = mod_add(&acc, &acc, m);
        let plus = mod_add(&doubled, a, m);
        acc = select_limbs(&doubled, &plus, bit as u64);
        proof {
            lemma_bits_take_step(bits@, i as int);
            lemma_mul_step(a.value(), bits_value(bits@.take(i as int)), m.value(), before, bit as int);
        }
        i = i + 1;
    }
    proof {
        assert(bits@.take(bits@.len() as int) =~= bits@);
    }
    acc
}

/// `(a * b) mod m`.
pub fn mod_mul(a: &Limbs, b: &Limbs, m: &Limbs) -> (r: Limbs)
    requires
        modulus_ok(*m),
        a.value() < m.value(),
    ensures
        r.value() == (a.value() * b.value()) % m.value(),
        r.value() < m.value(),
{
    let bits = to_bits(b);
    mul_bits(a, &bits, m)
}

proof fn lemma_pow_step(a: int, e: nat, m: int, acc: int)
    requires
        1 < m,
        0 <= a < m,
        acc == pow(a, e) % m,
    ensures
        (acc * acc) % m == pow(a, 2 * e) % m,
        (((acc * acc) % m) * a) % m == pow(a, 2 * e + 1) % m,
{
    lemma_mul_mod_noop(pow(a, e), pow(a, e), m);
    lemma_pow_adds(a, e, e);
    lemma_small_mod(a as nat, m as nat);
    lemma_mul_mod_noop(pow(a, 2 * e), a, m);
    lemma_pow1(a);
    lemma_pow_adds(a, 2 * e, 1);
}

/// `a^e mod m` where `e` is given by its bits, most significant first.
pub fn pow_bits(a: &Limbs, bits: &Vec<u8>, m: &Limbs) -> (r: Limbs)
    requires
        modulus_ok(*m),
        1 < m.value(),
        a.value() < m.value(),
        all_bits(bits@),
    ensures
        bits_value(bits@) >= 0,
        r.value() == pow(a.value(), bits_value(bits@) as nat) % m.value(),
        r.value() < m.value(),
{
    let mut acc = Limbs { l0: 1, l1: 0, l2: 0, l3: 0 };
    let mut i: usize = 0;
    proof {
        assert(bits@.take(0) =~= Seq::<u8>::empty());
        lemma_small_mod(1, m.value() as nat);
        vstd::arithmetic::power::lemma_pow0(a.value());
    }
    while i < bits.len()
        invariant
            modulus_ok(*m),
            1 < m.value(),
            a.value() < m.value(),
            all_bits(bits@),
            i <= bits@.len(),
            acc.value() < m.value(),
            bits_value(bits@.take(i as int)) >= 0,
            acc.value() == pow(a.value(), bits_value(bits@.take(i as int)) as nat) % m.value(),
        decreases bits.len() - i,
    {
        let bit = bits[i];
        let ghost before = acc.value();
        let squared = mod_mul(&acc, &acc, m);
        let times = mod_mul(&squared, a, m);
        acc = select_limbs(&squared, &times, bit as u64);
        proof {
            let e = bits_value(bits@.take(i as int));
            lemma_bits_take_step(bits@, i as int);
            lemma_pow_step(a.value(), e as nat, m.value(), before);
        }
        i = i + 1;
    }
    proof {
        assert(bits@.take(bits@.len() as int) =~= bits@);
    }
    acc
}

} // verus!

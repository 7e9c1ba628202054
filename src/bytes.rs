//! Little-endian conversion between 32 bytes and four 64-bit limbs.

use vstd::prelude::*;
use crate::limbs::Limbs;

verus! {

/// The integer held by the eight bytes of `s` from index `k`, little-endian.
pub open spec fn le8(s: Seq<u8>, k: int) -> int {
    s[k] + 0x100 * (s[k + 1] + 0x100 * (s[k + 2] + 0x100 * (s[k + 3] + 0x100 * (s[k + 4] + 0x100 * (
    s[k + 5] + 0x100 * (s[k + 6] + 0x100 * s[k + 7]))))))
}

/// The integer held by 32 bytes, little-endian.
pub open spec fn le_bytes(s: Seq<u8>) -> int {
    le8(s, 0) + 0x1_0000_0000_0000_0000 * (le8(s, 8) + 0x1_0000_0000_0000_0000 * (le8(s, 16)
        + 0x1_0000_0000_0000_0000 * le8(s, 24)))
}

proof fn lemma_pack(b0: u8, b1: u8, b2: u8, b3: u8, b4: u8, b5: u8, b6: u8, b7: u8)
    by (bit_vector)
    ensures
        (b0 as u64) | ((b1 as u64) << 8u64) | ((b2 as u64) << 16u64) | ((b3 as u64) << 24u64) | ((
        b4 as u64) << 32u64) | ((b5 as u64) << 40u64) | ((b6 as u64) << 48u64) | ((b7 as u64)
            << 56u64) == (b0 as u64) + 0x100 * ((b1 as u64) + 0x100 * ((b2 as u64) + 0x100 * ((
        b3 as u64) + 0x100 * ((b4 as u64) + 0x100 * ((b5 as u64) + 0x100 * ((b6 as u64) + 0x100
            * (b7 as u64))))))),
{
}

proof fn lemma_unpack(w: u64)
    by (bit_vector)
    ensures
        w == (w & 0xff) + 0x100 * (((w >> 8u64) & 0xff) + 0x100 * (((w >> 16u64) & 0xff) + 0x100
            * (((w >> 24u64) & 0xff) + 0x100 * (((w >> 32u64) & 0xff) + 0x100 * (((w >> 40u64)
            & 0xff) + 0x100 * (((w >> 48u64) & 0xff) + 0x100 * ((w >> 56u64) & 0xff))))))),
        w >> 56u64 <= 0xff,
        (w >> 56u64) & 0xff == w >> 56u64,
        w & 0xff <= 0xff,
        (w >> 8u64) & 0xff <= 0xff,
        (w >> 16u64) & 0xff <= 0xff,
        (w >> 24u64) & 0xff <= 0xff,
        (w >> 32u64) & 0xff <= 0xff,
        (w >> 40u64) & 0xff <= 0xff,
        (w >> 48u64) & 0xff <= 0xff,
        w < 0x8000_0000_0000_0000 ==> (w >> 56u64) < 0x80,
{
}

proof fn lemma_le8_bound(s: Seq<u8>, k: int)
    requires
        0 <= k,
        k + 8 <= s.len(),
    ensures
        0 <= le8(s, k) < 0x1_0000_0000_0000_0000,
{
}

proof fn lemma_le8_injective(s: Seq<u8>, t: Seq<u8>, k: int)
    requires
        0 <= k,
        k + 8 <= s.len(),
        k + 8 <= t.len(),
        le8(s, k) == le8(t, k),
    ensures
        forall|i: int| k <= i < k + 8 ==> s[i] == t[i],
{
    assert(s[k] == t[k]);
    assert(s[k + 1] == t[k + 1]);
    assert(s[k + 2] == t[k + 2]);
    assert(s[k + 3] == t[k + 3]);
    assert(s[k + 4] == t[k + 4]);
    assert(s[k + 5] == t[k + 5]);
    assert(s[k + 6] == t[k + 6]);
}

/// Two 32-byte strings with the same little-endian value are equal.
pub proof fn lemma_le_bytes_injective(s: Seq<u8>, t: Seq<u8>)
    requires
        s.len() == 32,
        t.len() == 32,
        le_bytes(s) == le_bytes(t),
    ensures
        s == t,
{
    lemma_le8_bound(s, 0);
    lemma_le8_bound(s, 8);
    lemma_le8_bound(s, 16);
    lemma_le8_bound(s, 24);
    lemma_le8_bound(t, 0);
    lemma_le8_bound(t, 8);
    lemma_le8_bound(t, 16);
    lemma_le8_bound(t, 24);
    assert(le8(s, 24) == le8(t, 24));
    assert(le8(s, 16) == le8(t, 16));
    assert(le8(s, 8) == le8(t, 8));
    lemma_le8_injective(s, t, 0);
    lemma_le8_injective(s, t, 8);
    lemma_le8_injective(s, t, 16);
    lemma_le8_injective(s, t, 24);
    assert(s =~= t);
}

/// The limb held by `b[k..k + 8]`.
fn load8(b: &[u8; 32], k: usize) -> (w: u64)
    requires
        k + 8 <= 32,
    ensures
        w == le8(b@, k as int),
{
    proof {
        lemma_pack(b[k as int], b[k + 1], b[k + 2], b[k + 3], b[k + 4], b[k + 5], b[k + 6], b[k + 7]);
    }
    (b[k] as u64) | ((b[k + 1] as u64) << 8u64) | ((b[k + 2] as u64) << 16u64) | ((b[k + 3] as u64)
        << 24u64) | ((b[k + 4] as u64) << 32u64) | ((b[k + 5] as u64) << 40u64) | ((b[k + 6] as u64)
        << 48u64) | ((b[k + 7] as u64) << 56u64)
}

/// The four limbs held by 32 little-endian bytes.
pub fn limbs_from_bytes(b: &[u8; 32]) -> (r: Limbs)
    ensures
        r.value() == le_bytes(b@),
{
    Limbs { l0: load8(b, 0), l1: load8(b, 8), l2: load8(b, 16), l3: load8(b, 24) }
}

/// Writes limb `w` into `out[k..k + 8]`, leaving the other bytes.
fn store8(out: &mut [u8; 32], k: usize, w: u64)
    requires
        k + 8 <= 32,
    ensures
        le8(final(out)@, k as int) == w,
        forall|i: int| 0 <= i < 32 && !(k <= i < k + 8) ==> final(out)@[i] == old(out)@[i],
        w < 0x8000_0000_0000_0000 ==> final(out)@[k + 7] < 0x80,
{
    proof {
        lemma_unpack(w);
    }
    let b0 = (w & 0xff) as u8;
    let b1 = ((w >> 8u64) & 0xff) as u8;
    let b2 = ((w >> 16u64) & 0xff) as u8;
    let b3 = ((w >> 24u64) & 0xff) as u8;
    let b4 = ((w >> 32u64) & 0xff) as u8;
    let b5 = ((w >> 40u64) & 0xff) as u8;
    let b6 = ((w >> 48u64) & 0xff) as u8;
    let b7 = (w >> 56u64) as u8;
    assert(w == b0 + 0x100 * (b1 + 0x100 * (b2 + 0x100 * (b3 + 0x100 * (b4 + 0x100 * (b5 + 0x100 * (b6
        + 0x100 * b7)))))));
    out[k] = b0;
    out[k + 1] = b1;
    out[k + 2] = b2;
    out[k + 3] = b3;
    out[k + 4] = b4;
    out[k + 5] = b5;
    out[k + 6] = b6;
    out[k + 7] = b7;
    assert(out@[k as int] == b0 && out@[k + 1] == b1 && out@[k + 2] == b2 && out@[k + 3] == b3);
    assert(out@[k + 4] == b4 && out@[k + 5] == b5 && out@[k + 6] == b6 && out@[k + 7] == b7);
}

/// The 32 little-endian bytes of the four limbs.
pub fn limbs_to_bytes(x: &Limbs) -> (r: [u8; 32])
    ensures
        le_bytes(r@) == x.value(),
        x.l3 < 0x8000_0000_0000_0000 ==> r@[31] < 0x80,
{
    let mut out = [0u8; 32];
    store8(&mut out, 0, x.l0);
    store8(&mut out, 8, x.l1);
    store8(&mut out, 16, x.l2);
    store8(&mut out, 24, x.l3);
    out
}

} // verus!

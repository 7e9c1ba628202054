//! `sum s_i * P_i` in one pass: the accumulator is doubled once per bit
//! position, and each point whose scalar has that bit set is added in, so
//! the doublings are shared by all pairs (Straus's interleaving with a
//! window of one bit).

use vstd::prelude::*;
use crate::edwards::{
    Coords, EdwardsPoint, add_coords, double_coords, identity_coords, lemma_bits_are_msb_bits,
    msb_bits, mul_bits_coords, scalar_mul_coords,
};
use crate::error::EcError;
use crate::scalar::Scalar;

verus! {

/// The bits of each scalar, most significant first.
pub open spec fn bit_table(scalars: Seq<int>) -> Seq<Seq<u8>> {
    scalars.map_values(|s: int| msb_bits(s, 256))
}

/// One bit position: starting from `acc`, the first `n` points whose bit at
/// `col` is set are added in order.
pub open spec fn column_coords(acc: Coords, bits: Seq<Seq<u8>>, points: Seq<Coords>, col: int, n: nat) -> Coords
    decreases n,
{
    if n == 0 {
        acc
    } else {
        let a = column_coords(acc, bits, points, col, (n - 1) as nat);
        if bits[n - 1][col] == 1 {
            add_coords(a, points[n - 1])
        } else {
            a
        }
    }
}

/// The accumulator after the first `k` bit positions.
pub open spec fn prefix_coords(bits: Seq<Seq<u8>>, points: Seq<Coords>, k: nat) -> Coords
    decreases k,
{
    if k == 0 {
        identity_coords()
    } else {
        column_coords(
            double_coords(prefix_coords(bits, points, (k - 1) as nat)),
            bits,
            points,
            k - 1,
            points.len(),
        )
    }
}

/// What `multiscalar_mul` computes for the given scalars and points.
pub open spec fn multiscalar_coords(scalars: Seq<int>, points: Seq<Coords>) -> Coords {
    prefix_coords(bit_table(scalars), points, 256)
}

/// The scalars as integers.
pub open spec fn scalar_values(s: Seq<Scalar>) -> Seq<int> {
    s.map_values(|x: Scalar| x.val())
}

/// The points as coordinate tuples.
pub open spec fn point_models(p: Seq<EdwardsPoint>) -> Seq<Coords> {
    p.map_values(|x: EdwardsPoint| x.model())
}

/// `sum scalars[i] * points[i]`; the two must be equally long.
pub fn multiscalar_mul(scalars: &Vec<Scalar>, points: &Vec<EdwardsPoint>) -> (r: Result<EdwardsPoint, EcError>)
    requires
        forall|i: int| 0 <= i < points@.len() ==> (#[trigger] points@[i]).wf(),
    ensures
        scalars@.len() != points@.len() <==> r == Err::<EdwardsPoint, EcError>(EcError::LengthMismatch),
        r is Ok <==> scalars@.len() == points@.len(),
        r is Ok ==> r->Ok_0.wf() && r->Ok_0.model() == multiscalar_coords(
            scalar_values(scalars@),
            point_models(points@),
        ),
{
    if scalars.len() != points.len() {
        return Err(EcError::LengthMismatch);
    }
    let n = points.len();
    let ghost table = bit_table(scalar_values(scalars@));
    let ghost models = point_models(points@);
    let mut bits: Vec<Vec<u8>> = Vec::new();
    let mut j: usize = 0;
    while j < n
        invariant
            n == scalars@.len(),
            table == bit_table(scalar_values(scalars@)),
            j <= n,
            bits@.len() == j,
            forall|k: int| 0 <= k < j ==> (#[trigger] bits@[k])@ == table[k],
        decreases n - j,
    {
        let b = scalars[j].bits();
        proof {
            lemma_bits_are_msb_bits(b@);
        }
        bits.push(b);
        j = j + 1;
    }
    let mut acc = EdwardsPoint::identity();
    let mut col: usize = 0;
    while col < 256
        invariant
            n == points@.len(),
            n == scalars@.len(),
            forall|i: int| 0 <= i < points@.len() ==> (#[trigger] points@[i]).wf(),
            table == bit_table(scalar_values(scalars@)),
            models == point_models(points@),
            bits@.len() == n,
            forall|k: int| 0 <= k < n ==> (#[trigger] bits@[k])@ == table[k],
            col <= 256,
            acc.wf(),
            acc.model() == prefix_coords(table, models, col as nat),
        decreases 256 - col,
    {
        acc = acc.double();
        let ghost start = acc.model();
        let mut i: usize = 0;
        while i < n
            invariant
                n == points@.len(),
                n == scalars@.len(),
                forall|i: int| 0 <= i < points@.len() ==> (#[trigger] points@[i]).wf(),
                table == bit_table(scalar_values(scalars@)),
                models == point_models(points@),
                bits@.len() == n,
                forall|k: int| 0 <= k < n ==> (#[trigger] bits@[k])@ == table[k],
                col < 256,
                i <= n,
                acc.wf(),
                acc.model() == column_coords(start, table, models, col as int, i as nat),
            decreases n - i,
        {
            proof {
                assert(table[i as int] == msb_bits(scalar_values(scalars@)[i as int], 256));
                lemma_msb_bits_are_bits(scalar_values(scalars@)[i as int], 256);
                assert(bits@[i as int]@ == table[i as int]);
            }
            let bit = bits[i][col];
            let sum = acc.add(&points[i]);
            acc = EdwardsPoint::conditional_select(&acc, &sum, bit);
            i = i + 1;
        }
        col = col + 1;
    }
    Ok(acc)
}

/// `msb_bits` has the length asked for and holds only 0 and 1.
pub proof fn lemma_msb_bits_are_bits(v: int, n: nat)
    ensures
        msb_bits(v, n).len() == n,
        forall|k: int| 0 <= k < n ==> #[trigger] msb_bits(v, n)[k] <= 1,
    decreases n,
{
    if n > 0 {
        lemma_msb_bits_are_bits(v / 2, (n - 1) as nat);
        assert forall|k: int| 0 <= k < n implies #[trigger] msb_bits(v, n)[k] <= 1 by {
            if k < n - 1 {
                assert(msb_bits(v, n)[k] == msb_bits(v / 2, (n - 1) as nat)[k]);
            }
        }
    }
}

} // verus!

//! The distance metric: bit-level Hamming distance between two equal-length
//! byte buffers, the total count of differing bits across all byte pairs.

use vstd::prelude::*;
use vstd::arithmetic::power2::{pow2, lemma_pow2_unfold, lemma2_to64};

verus! {

/// Error returned when the Hamming distance is invoked on buffers of
/// unequal length.
#[derive(Clone, Copy, Debug, PartialEq, Eq, Structural)]
pub struct LengthMismatchError;

/// The number of set bits in the binary representation of `n`.
pub open spec fn bit_count(n: nat) -> nat
    decreases n,
{
    if n == 0 {
        0
    } else {
        n % 2 + bit_count(n / 2)
    }
}

/// The Hamming distance between two equal-length byte sequences: the sum
/// over all positions of the number of bits on which the two bytes differ.
pub open spec fn hamming(a: Seq<u8>, b: Seq<u8>) -> nat
    recommends
        a.len() == b.len(),
    decreases a.len(),
{
    if a.len() == 0 {
        0
    } else {
        hamming(a.drop_last(), b.drop_last()) + bit_count((a.last() ^ b.last()) as nat)
    }
}

proof fn lemma_bit_count_le(n: nat, k: nat)
    requires
        n < pow2(k),
    ensures
        bit_count(n) <= k,
    decreases k,
{
    if k == 0 {
        assert(pow2(0) == 1) by {
            lemma2_to64();
        }
    } else {
        lemma_pow2_unfold(k);
        lemma_bit_count_le(n / 2, (k - 1) as nat);
    }
}

proof fn lemma_bit_count_le_eight(n: nat)
    requires
        n < 256,
    ensures
        bit_count(n) <= 8,
{
    assert(pow2(8) == 256) by {
        lemma2_to64();
    }
    lemma_bit_count_le(n, 8);
}

proof fn lemma_bit_count_zero(n: nat)
    ensures
        bit_count(n) == 0 <==> n == 0,
    decreases n,
{
    if n > 0 {
        lemma_bit_count_zero(n / 2);
    }
}

/// The number of set bits of a byte, counted by repeated halving.
fn byte_bit_count(x: u8) -> (count: u8)
    ensures
        count as nat == bit_count(x as nat),
        count <= 8,
{
    proof {
        lemma_bit_count_le_eight(x as nat);
    }
    let mut v: u8 = x;
    let mut count: u8 = 0;
    while v > 0
        invariant
            count as nat + bit_count(v as nat) == bit_count(x as nat),
            bit_count(x as nat) <= 8,
        decreases v,
    {
        count = count + v % 2;
        v = v / 2;
    }
    count
}

/// The bit-level Hamming distance between `a` and `b`. Rejects buffers of
/// unequal length; otherwise returns the total count of differing bits.
pub fn hamming_distance(a: &[u8], b: &[u8]) -> (result: Result<usize, LengthMismatchError>)
    requires
        8 * a@.len() <= usize::MAX,
    ensures
        result is Err <==> a@.len() != b@.len(),
        result matches Ok(distance) ==> distance as nat == hamming(a@, b@),
{
    if a.len() != b.len() {
        return Err(LengthMismatchError);
    }
    let mut distance: usize = 0;
    let mut i: usize = 0;
    while i < a.len()
        invariant
            a@.len() == b@.len(),
            8 * a@.len() <= usize::MAX,
            i <= a@.len(),
            distance as nat == hamming(a@.take(i as int), b@.take(i as int)),
            distance <= 8 * i,
        decreases a@.len() - i,
    {
        let c = byte_bit_count(a[i] ^ b[i]);
        proof {
            assert(a@.take(i + 1).drop_last() =~= a@.take(i as int));
            assert(b@.take(i + 1).drop_last() =~= b@.take(i as int));
        }
        distance = distance + c as usize;
        i = i + 1;
    }
    proof {
        assert(a@.take(a@.len() as int) =~= a@);
        assert(b@.take(b@.len() as int) =~= b@);
    }
    Ok(distance)
}

/// Law: the Hamming distance of equal-length buffers never exceeds eight
/// bits per byte. (It is a `nat`, so it is at least zero by type.)
pub proof fn lemma_hamming_bounds(a: Seq<u8>, b: Seq<u8>)
    requires
        a.len() == b.len(),
    ensures
        hamming(a, b) <= 8 * a.len(),
    decreases a.len(),
{
    if a.len() > 0 {
        lemma_hamming_bounds(a.drop_last(), b.drop_last());
        lemma_bit_count_le_eight((a.last() ^ b.last()) as nat);
    }
}

/// Law: the Hamming distance is symmetric in its two arguments.
pub proof fn lemma_hamming_symmetric(a: Seq<u8>, b: Seq<u8>)
    requires
        a.len() == b.len(),
    ensures
        hamming(a, b) == hamming(b, a),
    decreases a.len(),
{
    if a.len() > 0 {
        lemma_hamming_symmetric(a.drop_last(), b.drop_last());
        let x = a.last();
        let y = b.last();
        assert(x ^ y == y ^ x) by (bit_vector);
    }
}

/// Law: the Hamming distance of equal-length buffers is zero exactly when
/// the buffers are equal.
pub proof fn lemma_hamming_zero_iff_equal(a: Seq<u8>, b: Seq<u8>)
    requires
        a.len() == b.len(),
    ensures
        hamming(a, b) == 0 <==> a == b,
    decreases a.len(),
{
    if a.len() == 0 {
        assert(a =~= b);
    } else {
        lemma_hamming_zero_iff_equal(a.drop_last(), b.drop_last());
        let x = a.last();
        let y = b.last();
        lemma_bit_count_zero((x ^ y) as nat);
        assert(x ^ y == 0 <==> x == y) by (bit_vector);
        if hamming(a, b) == 0 {
            assert forall|i: int| 0 <= i < a.len() implies a[i] == b[i] by {
                if i < a.len() - 1 {
                    assert(a[i] == a.drop_last()[i]);
                    assert(b[i] == b.drop_last()[i]);
                }
            }
            assert(a =~= b);
        } else if a == b {
            assert(a.drop_last() =~= b.drop_last());
        }
    }
}

} // verus!

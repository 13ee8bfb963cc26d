//! The crackers: single-byte key search driven by the language scorer,
//! batch detection of a single-byte-XOR ciphertext, key-size inference
//! driven by normalized Hamming distance, and full repeating-key recovery.

use vstd::prelude::*;
use vstd::pervasive::unreached;
use vstd::slice::slice_subrange;
use crate::bitflips::{xor_single, xor_with_key};
use crate::english::{english_score, english_score_of};
use crate::hamming::{hamming, hamming_distance, lemma_hamming_bounds};

verus! {

/// Error returned when batch detection is invoked on an empty list.
#[derive(Clone, Copy, Debug, PartialEq, Eq, Structural)]
pub struct EmptyArrayError;

/// Error returned when a ciphertext is too short for every key-size
/// candidate to be sampled.
#[derive(Clone, Copy, Debug, PartialEq, Eq, Structural)]
pub struct InsufficientDataError;

/// The smallest key size considered when cracking a repeating-key cipher.
pub const MIN_KEYSIZE: usize = 2;

/// The largest key size considered when cracking a repeating-key cipher.
pub const MAX_KEYSIZE: usize = 40;

/// The number of adjacent block pairs compared when scoring a key-size
/// candidate by average Hamming distance.
pub const NUM_BLOCKS_AVG_DIST: usize = 10;

/// The score of the plaintext obtained by XOR-ing `c` with the single
/// byte `key`.
pub open spec fn single_key_score(c: Seq<u8>, key: u8) -> int {
    english_score_of(xor_single(c, key))
}

/// The best single-byte key among the candidates `0..n`: the one whose
/// decryption scores highest, the smallest such candidate winning ties.
pub open spec fn best_key_upto(c: Seq<u8>, n: int) -> u8
    recommends
        1 <= n <= 256,
    decreases n,
{
    if n <= 1 {
        0u8
    } else {
        let prev = best_key_upto(c, n - 1);
        let cand = (n - 1) as u8;
        if single_key_score(c, cand) > single_key_score(c, prev) {
            cand
        } else {
            prev
        }
    }
}

/// The best single-byte key over the full candidate space `0..=255`.
pub open spec fn best_single_byte_key(c: Seq<u8>) -> u8 {
    best_key_upto(c, 256)
}

/// XOR of a buffer against one byte, as an executable step.
fn xor_single_byte(data: &[u8], key: u8) -> (out: Vec<u8>)
    ensures
        out@ == xor_single(data@, key),
{
    let mut key_buf: Vec<u8> = Vec::new();
    key_buf.push(key);
    proof {
        assert(key_buf@ =~= seq![key]);
    }
    xor_with_key(data, key_buf.as_slice())
}

/// Searches the full single-byte key space and returns the candidate whose
/// decryption of `ciphertext` scores highest under the language scorer;
/// ties go to the smallest candidate. On an empty ciphertext every
/// candidate scores equally and the tie-break yields `0`.
pub fn find_key_single_byte_xor_cipher(ciphertext: &[u8]) -> (key: u8)
    ensures
        key == best_single_byte_key(ciphertext@),
        forall|b: u8| single_key_score(ciphertext@, b) <= single_key_score(ciphertext@, key),
        forall|b: u8| b < key ==> single_key_score(ciphertext@, b) < single_key_score(
            ciphertext@,
            key,
        ),
{
    let first_plain = xor_single_byte(ciphertext, 0);
    let mut best_key: u8 = 0;
    let mut best_score: i128 = english_score(first_plain.as_slice());
    let mut k: usize = 1;
    while k < 256
        invariant
            1 <= k <= 256,
            (best_key as int) < k,
            best_key == best_key_upto(ciphertext@, k as int),
            best_score == single_key_score(ciphertext@, best_key),
            forall|b: u8| (b as int) < k ==> single_key_score(ciphertext@, b) <= best_score,
            forall|b: u8| b < best_key ==> single_key_score(ciphertext@, b) < best_score,
        decreases 256 - k,
    {
        let cand: u8 = k as u8;
        let plain = xor_single_byte(ciphertext, cand);
        let score = english_score(plain.as_slice());
        if score > best_score {
            best_key = cand;
            best_score = score;
        }
        k = k + 1;
    }
    best_key
}

/// The plaintext this library recovers from a single-byte-XOR ciphertext:
/// the decryption under the best single-byte key.
pub open spec fn cracked_plaintext(c: Seq<u8>) -> Seq<u8> {
    xor_single(c, best_single_byte_key(c))
}

/// The language score of the recovered plaintext of `c`.
pub open spec fn cracked_score(c: Seq<u8>) -> int {
    english_score_of(cracked_plaintext(c))
}

/// The views of a list of byte slices, as a sequence of byte sequences.
pub open spec fn views_of(ciphertexts: Seq<&[u8]>) -> Seq<Seq<u8>> {
    Seq::new(ciphertexts.len(), |i: int| ciphertexts[i]@)
}

/// Whether `plaintext` is what batch detection owes for the batch `cs`:
/// the recovered plaintext of some entry whose cracked score is maximal,
/// earlier entries losing ties.
pub open spec fn detected_plaintext_of(cs: Seq<Seq<u8>>, plaintext: Seq<u8>) -> bool {
    exists|chosen: int| is_detected_plaintext(cs, chosen, plaintext)
}

/// What batch detection returns: the recovered plaintext of the entry at
/// `chosen`, whose cracked score is maximal over the whole batch, earlier
/// entries losing ties.
pub open spec fn is_detected_plaintext(cs: Seq<Seq<u8>>, chosen: int, plaintext: Seq<u8>) -> bool {
    &&& 0 <= chosen < cs.len()
    &&& plaintext == cracked_plaintext(cs[chosen])
    &&& forall|i: int|
        0 <= i < cs.len() ==> cracked_score(#[trigger] cs[i]) <= cracked_score(cs[chosen])
    &&& forall|i: int| 0 <= i < chosen ==> cracked_score(#[trigger] cs[i]) < cracked_score(cs[chosen])
}

/// Cracks every candidate ciphertext with the best single-byte key and
/// returns the decryption with the highest language score across the
/// batch; the earliest entry wins ties. Rejects an empty batch.
pub fn detect_and_crack_single_byte_xor_cipher(possible_ciphertexts: &[&[u8]]) -> (result: Result<
    Vec<u8>,
    EmptyArrayError,
>)
    ensures
        possible_ciphertexts@.len() == 0 <==> result is Err,
        result is Ok ==> detected_plaintext_of(views_of(possible_ciphertexts@), result->Ok_0@),
{
    if possible_ciphertexts.len() == 0 {
        return Err(EmptyArrayError);
    }
    let ghost cs = views_of(possible_ciphertexts@);
    let first_key = find_key_single_byte_xor_cipher(possible_ciphertexts[0]);
    let mut best_plain = xor_single_byte(possible_ciphertexts[0], first_key);
    let mut best_score: i128 = english_score(best_plain.as_slice());
    let ghost mut best_at: int = 0;
    let mut idx: usize = 1;
    while idx < possible_ciphertexts.len()
        invariant
            cs == views_of(possible_ciphertexts@),
            cs.len() == possible_ciphertexts@.len(),
            1 <= idx <= cs.len(),
            0 <= best_at < idx,
            best_plain@ == cracked_plaintext(cs[best_at]),
            best_score == cracked_score(cs[best_at]),
            forall|i: int| 0 <= i < idx ==> cracked_score(#[trigger] cs[i]) <= best_score,
            forall|i: int| 0 <= i < best_at ==> cracked_score(#[trigger] cs[i]) < best_score,
        decreases cs.len() - idx,
    {
        let key = find_key_single_byte_xor_cipher(possible_ciphertexts[idx]);
        let plain = xor_single_byte(possible_ciphertexts[idx], key);
        let score = english_score(plain.as_slice());
        if score > best_score {
            best_plain = plain;
            best_score = score;
            proof {
                best_at = idx as int;
            }
        }
        idx = idx + 1;
    }
    proof {
        assert(detected_plaintext_of(views_of(possible_ciphertexts@), best_plain@)) by {
            assert(is_detected_plaintext(views_of(possible_ciphertexts@), best_at, best_plain@));
        }
    }
    Ok(best_plain)
}

/// The Hamming distance between the adjacent blocks `i` and `i + 1` of
/// `c`, each of length `size`.
pub open spec fn block_pair_distance(c: Seq<u8>, size: int, i: int) -> nat {
    hamming(c.subrange(size * i, size * (i + 1)), c.subrange(size * (i + 1), size * (i + 2)))
}

/// The sum of the Hamming distances of the first `n` adjacent block pairs
/// of `c` at block length `size`.
pub open spec fn total_block_distance_upto(c: Seq<u8>, size: int, n: int) -> nat
    decreases n,
{
    if n <= 0 {
        0
    } else {
        total_block_distance_upto(c, size, n - 1) + block_pair_distance(c, size, n - 1)
    }
}

/// The total Hamming distance over the sampled adjacent block pairs of `c`
/// at block length `size`.
pub open spec fn total_block_distance(c: Seq<u8>, size: int) -> nat {
    total_block_distance_upto(c, size, NUM_BLOCKS_AVG_DIST as int)
}

/// Whether `size` is a key-size candidate: a size in the inclusive range
/// `MIN_KEYSIZE..=MAX_KEYSIZE`, every one of which key-size inference
/// evaluates.
pub open spec fn valid_key_size(size: int) -> bool {
    MIN_KEYSIZE <= size <= MAX_KEYSIZE
}

/// Whether candidate `s` has a strictly lower average normalized block
/// distance than candidate `t`. The normalized distance of `s` is its
/// total block distance divided by `NUM_BLOCKS_AVG_DIST * s`; the two
/// fractions are compared exactly by cross-multiplication.
pub open spec fn lower_normalized_distance(c: Seq<u8>, s: int, t: int) -> bool {
    total_block_distance(c, s) * t < total_block_distance(c, t) * s
}

/// Whether `size` is the key size this library infers for `c`: a
/// candidate whose normalized block distance no candidate beats, and that
/// itself beats every smaller candidate (so the smallest candidate wins
/// ties). Meaningful only for a ciphertext long enough to sample every
/// candidate.
pub open spec fn is_best_key_size(c: Seq<u8>, size: int) -> bool
    recommends
        (NUM_BLOCKS_AVG_DIST + 1) * MAX_KEYSIZE <= c.len(),
{
    &&& valid_key_size(size)
    &&& forall|t: int| #[trigger] valid_key_size(t) ==> !lower_normalized_distance(c, t, size)
    &&& forall|t: int|
        #[trigger] valid_key_size(t) && t < size ==> lower_normalized_distance(c, size, t)
}

/// The total Hamming distance over the sampled adjacent block pairs, as an
/// executable sum.
fn total_block_distance_of(text: &[u8], block_size: usize) -> (distance: usize)
    requires
        MIN_KEYSIZE <= block_size <= MAX_KEYSIZE,
        (NUM_BLOCKS_AVG_DIST + 1) * block_size <= text@.len(),
    ensures
        distance as nat == total_block_distance(text@, block_size as int),
        distance <= 8 * NUM_BLOCKS_AVG_DIST * MAX_KEYSIZE,
{
    let mut distance: usize = 0;
    let mut i: usize = 0;
    while i < NUM_BLOCKS_AVG_DIST
        invariant
            MIN_KEYSIZE <= block_size <= MAX_KEYSIZE,
            (NUM_BLOCKS_AVG_DIST + 1) * block_size <= text@.len(),
            i <= NUM_BLOCKS_AVG_DIST,
            distance as nat == total_block_distance_upto(text@, block_size as int, i as int),
            distance <= 8 * MAX_KEYSIZE * i,
        decreases NUM_BLOCKS_AVG_DIST - i,
    {
        proof {
            assert(block_size * i <= block_size * (i + 1) <= block_size * (i + 2) <= (
            NUM_BLOCKS_AVG_DIST + 1) * block_size && block_size * (i + 2) <= 440
                && block_size * (i + 1) - block_size * i == block_size
                && block_size * (i + 2) - block_size * (i + 1) == block_size) by (nonlinear_arith)
                requires
                    0 <= block_size <= 40,
                    0 <= i,
                    i + 2 <= NUM_BLOCKS_AVG_DIST + 1,
                    NUM_BLOCKS_AVG_DIST == 10,
            ;
        }
        let lo = block_size * i;
        let mid = block_size * (i + 1);
        let hi = block_size * (i + 2);
        let first = slice_subrange(text, lo, mid);
        let second = slice_subrange(text, mid, hi);
        proof {
            lemma_hamming_bounds(first@, second@);
        }
        let pair = match hamming_distance(first, second) {
            Ok(d) => d,
            Err(_) => unreached(),
        };
        proof {
            assert(first@.len() == block_size);
            assert(pair as nat <= 8 * block_size);
            assert(pair <= 320);
            assert(distance <= 320 * i);
            assert(distance + pair <= 320 * (i + 1));
        }
        distance = distance + pair;
        i = i + 1;
    }
    distance
}

/// Step from "s beats o" and "o is not beaten by t" to "s beats t", for
/// the cross-multiplied comparison of normalized distances.
proof fn lemma_lower_normalized_trans(dt: nat, ds: nat, db: nat, t: int, s: int, b: int)
    by (nonlinear_arith)
    requires
        t >= 1,
        s >= 1,
        b >= 1,
        dt * b >= db * t,
        ds * b < db * s,
    ensures
        ds * t < dt * s,
{
}

/// Infers the key size of a repeating-key XOR ciphertext: evaluates every
/// candidate size from `MIN_KEYSIZE` to `MAX_KEYSIZE` and returns the one
/// whose average normalized Hamming distance across adjacent blocks is
/// smallest, the smallest candidate winning ties. Rejects a ciphertext too
/// short to sample the blocks of the largest candidate.
pub fn find_key_size_repeating_xor_cipher(ciphertext: &[u8]) -> (result: Result<
    usize,
    InsufficientDataError,
>)
    ensures
        result is Err <==> ciphertext@.len() < (NUM_BLOCKS_AVG_DIST + 1) * MAX_KEYSIZE,
        result matches Ok(size) ==> is_best_key_size(ciphertext@, size as int),
{
    if ciphertext.len() < (NUM_BLOCKS_AVG_DIST + 1) * MAX_KEYSIZE {
        return Err(InsufficientDataError);
    }
    let mut best_size: usize = MIN_KEYSIZE;
    let mut best_dist: usize = total_block_distance_of(ciphertext, MIN_KEYSIZE);
    let mut s: usize = MIN_KEYSIZE + 1;
    while s <= MAX_KEYSIZE
        invariant
            (NUM_BLOCKS_AVG_DIST + 1) * MAX_KEYSIZE <= ciphertext@.len(),
            MIN_KEYSIZE + 1 <= s <= MAX_KEYSIZE + 1,
            MIN_KEYSIZE <= best_size < s,
            best_dist as nat == total_block_distance(ciphertext@, best_size as int),
            best_dist <= 8 * NUM_BLOCKS_AVG_DIST * MAX_KEYSIZE,
            forall|t: int|
                MIN_KEYSIZE <= t < s ==> !lower_normalized_distance(
                    ciphertext@,
                    t,
                    best_size as int,
                ),
            forall|t: int|
                MIN_KEYSIZE <= t < best_size ==> lower_normalized_distance(
                    ciphertext@,
                    best_size as int,
                    t,
                ),
        decreases MAX_KEYSIZE + 1 - s,
    {
        proof {
            assert((NUM_BLOCKS_AVG_DIST + 1) * s <= (NUM_BLOCKS_AVG_DIST + 1) * MAX_KEYSIZE)
                by (nonlinear_arith)
                requires
                    s <= MAX_KEYSIZE,
                    NUM_BLOCKS_AVG_DIST == 10,
            ;
        }
        let dist = total_block_distance_of(ciphertext, s);
        proof {
            assert(dist * best_size <= 128000 && best_dist * s <= 128000) by (nonlinear_arith)
                requires
                    0 <= dist <= 3200,
                    0 <= best_dist <= 3200,
                    0 <= best_size <= 40,
                    0 <= s <= 40,
            ;
        }
        if dist * best_size < best_dist * s {
            proof {
                let c = ciphertext@;
                let new_best = s as int;
                let old_best = best_size as int;
                assert forall|t: int| MIN_KEYSIZE <= t < s + 1 implies !lower_normalized_distance(
                    c,
                    t,
                    new_best,
                ) && (t < new_best ==> lower_normalized_distance(c, new_best, t)) by {
                    if t < s {
                        assert(!lower_normalized_distance(c, t, old_best));
                        lemma_lower_normalized_trans(
                            total_block_distance(c, t),
                            total_block_distance(c, new_best),
                            total_block_distance(c, old_best),
                            t,
                            new_best,
                            old_best,
                        );
                    }
                }
            }
            best_size = s;
            best_dist = dist;
        }
        s = s + 1;
    }
    Ok(best_size)
}

/// The bytes of `c` at position `pos` of every full block of length
/// `size`: the transposed buffer on which one key byte is recovered.
pub open spec fn transposed_block_bytes(c: Seq<u8>, size: int, pos: int) -> Seq<u8>
    recommends
        size >= 1,
        0 <= pos < size,
{
    Seq::new((c.len() / size as nat), |j: int| c[j * size + pos])
}

/// Whether `key` is the repeating key this library recovers from `c`:
/// its length is the inferred best key size, and each of its bytes is the
/// best single-byte key of the corresponding transposed buffer.
pub open spec fn is_recovered_repeating_key(c: Seq<u8>, key: Seq<u8>) -> bool {
    exists|size: int|
        {
            &&& #[trigger] is_best_key_size(c, size)
            &&& key.len() == size
            &&& forall|pos: int|
                0 <= pos < size ==> key[pos] == best_single_byte_key(
                    transposed_block_bytes(c, size, pos),
                )
        }
}

/// Recovers the full key of a repeating-key XOR ciphertext: infers the
/// key size, partitions the ciphertext into full blocks of that size
/// (discarding a final partial block), gathers the bytes at each position
/// into a transposed buffer, cracks every transposed buffer as a
/// single-byte cipher, and concatenates the recovered bytes in position
/// order. Rejects a ciphertext too short for key-size inference to sample
/// the blocks of its largest candidate.
pub fn crack_repeating_key_xor(ciphertext: &[u8]) -> (result: Result<Vec<u8>, InsufficientDataError>)
    ensures
        result is Err <==> ciphertext@.len() < (NUM_BLOCKS_AVG_DIST + 1) * MAX_KEYSIZE,
        result matches Ok(key) ==> is_recovered_repeating_key(ciphertext@, key@),
{
    let size = match find_key_size_repeating_xor_cipher(ciphertext) {
        Ok(s) => s,
        Err(e) => {
            return Err(e);
        },
    };
    let num_blocks = ciphertext.len() / size;
    proof {
        vstd::arithmetic::div_mod::lemma_fundamental_div_mod(
            ciphertext@.len() as int,
            size as int,
        );
    }
    let mut key: Vec<u8> = Vec::new();
    let mut pos: usize = 0;
    while pos < size
        invariant
            is_best_key_size(ciphertext@, size as int),
            MIN_KEYSIZE <= size,
            ciphertext@.len() <= usize::MAX,
            num_blocks == ciphertext@.len() as int / size as int,
            (size * num_blocks) <= ciphertext@.len(),
            pos <= size,
            key@.len() == pos,
            forall|p: int|
                0 <= p < pos ==> key@[p] == best_single_byte_key(
                    transposed_block_bytes(ciphertext@, size as int, p),
                ),
        decreases size - pos,
    {
        let mut column: Vec<u8> = Vec::new();
        let mut j: usize = 0;
        while j < num_blocks
            invariant
                MIN_KEYSIZE <= size,
                pos < size,
                ciphertext@.len() <= usize::MAX,
                num_blocks == ciphertext@.len() as int / size as int,
                (size * num_blocks) <= ciphertext@.len(),
                j <= num_blocks,
                column@.len() == j,
                forall|q: int| 0 <= q < j ==> column@[q] == ciphertext@[q * (size as int) + pos],
            decreases num_blocks - j,
        {
            proof {
                assert(j * size + pos < size * num_blocks) by (nonlinear_arith)
                    requires
                        0 <= j < num_blocks,
                        0 <= pos < size,
                ;
            }
            let index = j * size + pos;
            column.push(ciphertext[index]);
            j = j + 1;
        }
        proof {
            assert(column@ =~= transposed_block_bytes(ciphertext@, size as int, pos as int));
        }
        let key_byte = find_key_single_byte_xor_cipher(column.as_slice());
        key.push(key_byte);
        pos = pos + 1;
    }
    proof {
        assert(is_recovered_repeating_key(ciphertext@, key@)) by {
            assert(is_best_key_size(ciphertext@, size as int));
        }
    }
    Ok(key)
}

} // verus!

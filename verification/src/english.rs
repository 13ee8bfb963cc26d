//! The language scorer: an integer "English-likeness" fitness value for a
//! byte buffer. Letters are weighted by their relative frequency in English
//! prose (counted case-insensitively), the space gets the largest reward,
//! other printable bytes a small one, and control or non-ASCII bytes a
//! penalty. Scores only matter in relative comparison.

use vstd::prelude::*;

verus! {

/// The weight of a lower-case letter: its approximate frequency in English
/// prose, in letters per thousand.
pub open spec fn letter_weight(c: u8) -> int
    recommends
        97 <= c <= 122,
{
    if c == 101 { 127 }       // e
    else if c == 116 { 91 }   // t
    else if c == 97 { 82 }    // a
    else if c == 111 { 75 }   // o
    else if c == 105 { 70 }   // i
    else if c == 110 { 67 }   // n
    else if c == 115 { 63 }   // s
    else if c == 104 { 61 }   // h
    else if c == 114 { 60 }   // r
    else if c == 100 { 43 }   // d
    else if c == 108 { 40 }   // l
    else if c == 99 { 28 }    // c
    else if c == 117 { 28 }   // u
    else if c == 109 { 24 }   // m
    else if c == 119 { 24 }   // w
    else if c == 102 { 22 }   // f
    else if c == 103 { 20 }   // g
    else if c == 121 { 20 }   // y
    else if c == 112 { 19 }   // p
    else if c == 98 { 15 }    // b
    else if c == 118 { 10 }   // v
    else if c == 107 { 8 }    // k
    else if c == 106 { 2 }    // j
    else if c == 120 { 2 }    // x
    else { 1 }                // q, z
}

/// The weight a single byte contributes to the score: a large reward for
/// the space, the frequency weight for a letter of either case, a mild
/// reward for the common whitespace controls, a small one for any other
/// printable ASCII byte, and a penalty for everything else.
pub open spec fn byte_weight(b: u8) -> int {
    if b == 32 {
        150
    } else if 97 <= b <= 122 {
        letter_weight(b)
    } else if 65 <= b <= 90 {
        letter_weight((b + 32) as u8)
    } else if b == 9 || b == 10 || b == 13 {
        15
    } else if 33 <= b <= 126 {
        5
    } else {
        -400
    }
}

/// The English-likeness score of a byte sequence: the sum of the weights
/// of its bytes.
pub open spec fn english_score_of(s: Seq<u8>) -> int
    decreases s.len(),
{
    if s.len() == 0 {
        0
    } else {
        english_score_of(s.drop_last()) + byte_weight(s.last())
    }
}

fn letter_weight_of(c: u8) -> (weight: i32)
    requires
        97 <= c <= 122,
    ensures
        weight as int == letter_weight(c),
{
    if c == 101 { 127 }
    else if c == 116 { 91 }
    else if c == 97 { 82 }
    else if c == 111 { 75 }
    else if c == 105 { 70 }
    else if c == 110 { 67 }
    else if c == 115 { 63 }
    else if c == 104 { 61 }
    else if c == 114 { 60 }
    else if c == 100 { 43 }
    else if c == 108 { 40 }
    else if c == 99 { 28 }
    else if c == 117 { 28 }
    else if c == 109 { 24 }
    else if c == 119 { 24 }
    else if c == 102 { 22 }
    else if c == 103 { 20 }
    else if c == 121 { 20 }
    else if c == 112 { 19 }
    else if c == 98 { 15 }
    else if c == 118 { 10 }
    else if c == 107 { 8 }
    else if c == 106 { 2 }
    else if c == 120 { 2 }
    else { 1 }
}

fn weight_of(b: u8) -> (weight: i32)
    ensures
        weight as int == byte_weight(b),
{
    if b == 32 {
        150
    } else if 97 <= b && b <= 122 {
        letter_weight_of(b)
    } else if 65 <= b && b <= 90 {
        letter_weight_of(b + 32)
    } else if b == 9 || b == 10 || b == 13 {
        15
    } else if 33 <= b && b <= 126 {
        5
    } else {
        -400
    }
}

/// Scores a byte buffer by its resemblance to English text. Deterministic:
/// the result is exactly the sum of the per-byte weights, so the same
/// buffer always gets the same score.
pub fn english_score(data: &[u8]) -> (score: i128)
    ensures
        score == english_score_of(data@),
{
    let mut score: i128 = 0;
    let mut i: usize = 0;
    while i < data.len()
        invariant
            i <= data@.len(),
            score == english_score_of(data@.take(i as int)),
            -400 * (i as int) <= score <= 150 * (i as int),
        decreases data@.len() - i,
    {
        let w = weight_of(data[i]);
        proof {
            assert(data@.take(i + 1).drop_last() =~= data@.take(i as int));
            assert(-400 <= byte_weight(data@[i as int]) <= 150);
        }
        score = score + w as i128;
        i = i + 1;
    }
    proof {
        assert(data@.take(data@.len() as int) =~= data@);
    }
    score
}

/// A byte of plain English text in the narrow sense: an ASCII letter of
/// either case, or the space.
pub open spec fn is_english_text_byte(b: u8) -> bool {
    b == 32 || (65 <= b <= 90) || (97 <= b <= 122)
}

proof fn lemma_score_at_least_len(s: Seq<u8>)
    requires
        forall|i: int| 0 <= i < s.len() ==> is_english_text_byte(s[i]),
    ensures
        english_score_of(s) >= s.len(),
    decreases s.len(),
{
    if s.len() > 0 {
        assert(forall|i: int| 0 <= i < s.drop_last().len() ==> is_english_text_byte(
            #[trigger] s.drop_last()[i],
        ));
        lemma_score_at_least_len(s.drop_last());
        assert(byte_weight(s.last()) >= 1);
    }
}

proof fn lemma_score_all_zero_bytes(s: Seq<u8>)
    requires
        forall|i: int| 0 <= i < s.len() ==> s[i] == 0,
    ensures
        english_score_of(s) == -400 * s.len(),
    decreases s.len(),
{
    if s.len() > 0 {
        assert(forall|i: int| 0 <= i < s.drop_last().len() ==> #[trigger] s.drop_last()[i] == 0);
        lemma_score_all_zero_bytes(s.drop_last());
        assert(byte_weight(s.last()) == -400);
    }
}

/// Law: a non-empty buffer made only of ASCII letters and spaces scores
/// strictly higher than an all-zero buffer of the same length.
pub proof fn lemma_score_prefers_text(text: Seq<u8>, zeros: Seq<u8>)
    requires
        text.len() == zeros.len(),
        text.len() > 0,
        forall|i: int| 0 <= i < text.len() ==> is_english_text_byte(text[i]),
        forall|i: int| 0 <= i < zeros.len() ==> zeros[i] == 0,
    ensures
        english_score_of(text) > english_score_of(zeros),
{
    lemma_score_at_least_len(text);
    lemma_score_all_zero_bytes(zeros);
}

} // verus!

use xor_cracker::bitflips::{xor, InvalidKeyError};
use xor_cracker::crackers::{
    crack_repeating_key_xor, detect_and_crack_single_byte_xor_cipher,
    find_key_single_byte_xor_cipher, find_key_size_repeating_xor_cipher, EmptyArrayError,
    InsufficientDataError,
};
use xor_cracker::english::english_score;
use xor_cracker::hamming::{hamming_distance, LengthMismatchError};

fn hex_decode(text: &str) -> Vec<u8> {
    let digits: Vec<u8> = text
        .bytes()
        .map(|b| match b {
            b'0'..=b'9' => b - b'0',
            b'a'..=b'f' => b - b'a' + 10,
            b'A'..=b'F' => b - b'A' + 10,
            _ => panic!("could not convert hex to bytes"),
        })
        .collect();
    assert!(digits.len() % 2 == 0, "could not convert hex to bytes");
    digits.chunks(2).map(|pair| (pair[0] << 4) | pair[1]).collect()
}

fn xor_of(data: &[u8], key: &[u8]) -> Vec<u8> {
    xor(data, key).expect("key must not be empty")
}

/// Deterministic pseudo-random bytes standing in for noise buffers.
fn noise_bytes(seed: u64, len: usize) -> Vec<u8> {
    let mut state = seed;
    let mut out = Vec::with_capacity(len);
    for _ in 0..len {
        state = (state.wrapping_mul(1103515245).wrapping_add(12345)) % (1 << 31);
        out.push((state >> 16) as u8);
    }
    out
}

fn long_english_text() -> String {
    let paragraph = "It was a bright cold morning in the middle of spring, and the clocks in the old town \
         were striking the hour one after another as if they could not agree on the time. \
         Down by the harbour the fishermen were hauling in their nets, heavy with the catch of \
         the night, and the gulls wheeled and cried above the masts in great hungry circles. \
         A young woman walked along the quay with a basket of bread under her arm, stopping now \
         and then to watch the boats come in, and the smell of salt and tar and fresh loaves \
         mixed together in the cool air of the new day. In the square behind the customs house \
         the market was already busy, with farmers setting out their vegetables in neat rows, \
         and the first customers moving slowly from stall to stall, weighing apples in their \
         hands and asking after the price of butter and eggs and honest wool. An old man sat on \
         the steps of the church and watched it all with quiet pleasure, for he had seen sixty \
         such springs come and go, and the ordinary business of the town still seemed to him \
         the finest show in the world. The schoolmaster hurried past with his books under his \
         arm and his hat pulled low against the wind, nodding to the baker and the smith and \
         the keeper of the small hotel by the bridge, each of whom wished him a good morning in \
         turn. Later, when the sun had climbed above the roofs and the shadows had grown short, \
         the children came running out of the school and down to the water, laughing and calling \
         to one another, and their voices carried far across the bay to where the white sails \
         of the fishing boats leaned together against the horizon like a flock of patient birds. ";
    paragraph.repeat(3)
}

#[test]
fn can_crack_single_byte_xor_cipher() {
    let ciphertext = "1b37373331363f78151b7f2b783431333d78397828372d363c78373e783a393b3736";
    let expected_plaintext = "Cooking MC's like a pound of bacon".as_bytes();

    let ciphertext_bytes = hex_decode(ciphertext);
    let key = find_key_single_byte_xor_cipher(&ciphertext_bytes);
    let plaintext = xor_of(&ciphertext_bytes, &[key]);
    assert_eq!(plaintext, expected_plaintext);
}

#[test]
fn xor_round_trip_restores_data() {
    let data: Vec<u8> = vec![0, 1, 2, 3, 250, 251, 252, 253, 254, 255, 77];
    let key: Vec<u8> = vec![0x1f, 0xa0, 0x33];
    let once = xor_of(&data, &key);
    let twice = xor_of(&once, &key);
    assert_eq!(twice, data);
}

#[test]
fn xor_repeats_key_across_data() {
    let out = xor_of(b"hello", b"ab");
    assert_eq!(out, vec![0x09, 0x07, 0x0d, 0x0e, 0x0e]);
}

#[test]
fn xor_rejects_empty_key() {
    let result = xor(b"some data", &[]);
    assert!(matches!(result, Err(InvalidKeyError)));
}

#[test]
fn hamming_distance_known_value() {
    let distance = hamming_distance(b"this is a test", b"wokka wokka!!!");
    assert_eq!(distance, Ok(37));
}

#[test]
fn hamming_distance_bounds_symmetry_and_zero() {
    let a = b"byte buffer one";
    let b = b"byte buffer two";
    let d_ab = hamming_distance(a, b).expect("equal lengths");
    let d_ba = hamming_distance(b, a).expect("equal lengths");
    assert!(d_ab <= 8 * a.len());
    assert_eq!(d_ab, d_ba);
    assert!(d_ab > 0);
    assert_eq!(hamming_distance(a, a), Ok(0));
}

#[test]
fn hamming_distance_rejects_length_mismatch() {
    let result = hamming_distance(b"short", b"rather longer");
    assert!(matches!(result, Err(LengthMismatchError)));
}

#[test]
fn english_score_exact_value() {
    // 'a' weighs 82, 'b' weighs 15, the space weighs 150.
    assert_eq!(english_score(b"ab "), 82 + 15 + 150);
}

#[test]
fn english_score_deterministic_and_prefers_text() {
    let text = b"The quick brown fox jumps over the lazy dog";
    assert_eq!(english_score(text), english_score(text));
    let zeros = vec![0u8; text.len()];
    assert!(english_score(text) > english_score(&zeros));
}

#[test]
fn recovers_single_byte_key() {
    let plaintext = b"The quick brown fox jumps over the lazy dog and then takes a nap.";
    let ciphertext = xor_of(plaintext, &[0x5a]);
    assert_eq!(find_key_single_byte_xor_cipher(&ciphertext), 0x5a);
}

#[test]
fn find_key_returns_zero_on_empty_ciphertext() {
    // Every candidate scores the empty buffer equally; the ascending
    // tie-break picks 0.
    assert_eq!(find_key_single_byte_xor_cipher(&[]), 0);
}

#[test]
fn detects_encrypted_buffer_in_batch() {
    let expected_plaintext = "Now that the party is jumping\n".as_bytes();
    let real_ciphertext = xor_of(expected_plaintext, &[0x35]);
    let noise: Vec<Vec<u8>> = (1..=6).map(|s| noise_bytes(s, real_ciphertext.len())).collect();
    let batch: Vec<&[u8]> = vec![
        &noise[0],
        &noise[1],
        &noise[2],
        &real_ciphertext,
        &noise[3],
        &noise[4],
        &noise[5],
    ];
    let plaintext = detect_and_crack_single_byte_xor_cipher(&batch).expect("non-empty batch");
    assert_eq!(plaintext, expected_plaintext);
}

#[test]
fn detect_rejects_empty_batch() {
    let batch: Vec<&[u8]> = Vec::new();
    let result = detect_and_crack_single_byte_xor_cipher(&batch);
    assert!(matches!(result, Err(EmptyArrayError)));
}

#[test]
fn infers_key_size_of_long_ciphertext() {
    let plaintext = long_english_text();
    let ciphertext = xor_of(plaintext.as_bytes(), b"BRICK");
    assert_eq!(find_key_size_repeating_xor_cipher(&ciphertext), Ok(5));
}

#[test]
fn key_size_rejects_short_ciphertext() {
    // Every candidate size up to 40 needs 11 consecutive blocks, so any
    // ciphertext shorter than 440 bytes is rejected.
    let short = vec![0x41u8; 21];
    let result = find_key_size_repeating_xor_cipher(&short);
    assert!(matches!(result, Err(InsufficientDataError)));
    let below_window = vec![0x41u8; 439];
    let result = find_key_size_repeating_xor_cipher(&below_window);
    assert!(matches!(result, Err(InsufficientDataError)));
    let just_enough = vec![0x41u8; 440];
    assert!(find_key_size_repeating_xor_cipher(&just_enough).is_ok());
}

#[test]
fn recovers_repeating_key_end_to_end() {
    let plaintext = long_english_text();
    let ciphertext = xor_of(plaintext.as_bytes(), b"BRICK");
    let key = crack_repeating_key_xor(&ciphertext).expect("long enough ciphertext");
    assert_eq!(key, b"BRICK");
    let recovered = xor_of(&ciphertext, &key);
    assert_eq!(recovered, plaintext.as_bytes());
}

#[test]
fn crack_repeating_key_rejects_short_ciphertext() {
    let result = crack_repeating_key_xor(b"too short");
    assert!(matches!(result, Err(InsufficientDataError)));
    let below_window = vec![0x41u8; 439];
    let result = crack_repeating_key_xor(&below_window);
    assert!(matches!(result, Err(InsufficientDataError)));
}

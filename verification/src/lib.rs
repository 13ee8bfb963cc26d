//! A classical-cryptanalysis toolkit for breaking XOR-based stream ciphers
//! without prior knowledge of the key: a single-byte key search driven by a
//! language-likeness scorer, key-size inference driven by normalized Hamming
//! distance across ciphertext blocks, and the orchestration that combines
//! both into full repeating-key recovery.

pub mod bitflips;
pub mod crackers;
pub mod english;
pub mod hamming;

//! The XOR engine: applies a repeating-key exclusive-or transform to a byte
//! buffer. The transform is an involution: applying it twice with the same
//! key returns the original buffer.

use vstd::prelude::*;

verus! {

/// Error returned when the XOR engine is invoked with an empty key.
#[derive(Clone, Copy, Debug, PartialEq, Eq, Structural)]
pub struct InvalidKeyError;

/// The byte sequence produced by XOR-ing `data` against `key` repeated
/// cyclically: byte `i` of the result is `data[i] ^ key[i % key.len()]`.
pub open spec fn xor_bytes(data: Seq<u8>, key: Seq<u8>) -> Seq<u8>
    recommends
        key.len() > 0,
{
    Seq::new(data.len(), |i: int| data[i] ^ key[i % key.len() as int])
}

/// The byte sequence produced by XOR-ing every byte of `data` with the
/// single byte `key`.
pub open spec fn xor_single(data: Seq<u8>, key: u8) -> Seq<u8> {
    xor_bytes(data, seq![key])
}

/// Applies the repeating-key XOR transform. Rejects an empty key; otherwise
/// returns a buffer of the same length as `data` whose byte `i` is
/// `data[i] ^ key[i % key.len()]`.
pub fn xor(data: &[u8], key: &[u8]) -> (result: Result<Vec<u8>, InvalidKeyError>)
    ensures
        key@.len() == 0 <==> result is Err,
        result matches Ok(out) ==> out@ == xor_bytes(data@, key@) && out@.len() == data@.len(),
{
    if key.len() == 0 {
        Err(InvalidKeyError)
    } else {
        Ok(xor_with_key(data, key))
    }
}

/// The XOR transform for a key already known to be non-empty.
pub(crate) fn xor_with_key(data: &[u8], key: &[u8]) -> (out: Vec<u8>)
    requires
        key@.len() > 0,
    ensures
        out@ == xor_bytes(data@, key@),
{
    let mut out: Vec<u8> = Vec::new();
    let mut i: usize = 0;
    while i < data.len()
        invariant
            key@.len() > 0,
            i <= data@.len(),
            out@.len() == i,
            forall|j: int| 0 <= j < i ==> out@[j] == data@[j] ^ key@[j % key@.len() as int],
        decreases data@.len() - i,
    {
        let b = data[i] ^ key[i % key.len()];
        out.push(b);
        i = i + 1;
    }
    proof {
        assert(out@ =~= xor_bytes(data@, key@));
    }
    out
}

/// Law: repeating-key XOR is an involution. For every buffer and every
/// non-empty key, transforming twice with the same key gives back the
/// original buffer.
pub proof fn lemma_xor_involution(data: Seq<u8>, key: Seq<u8>)
    requires
        key.len() > 0,
    ensures
        xor_bytes(xor_bytes(data, key), key) == data,
{
    let twice = xor_bytes(xor_bytes(data, key), key);
    assert forall|i: int| 0 <= i < data.len() implies twice[i] == data[i] by {
        let k = key[i % key.len() as int];
        let d = data[i];
        assert((d ^ k) ^ k == d) by (bit_vector);
    }
    assert(twice =~= data);
}

} // verus!

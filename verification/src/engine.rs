//! The XOR engine: byte-wise exclusive-or of an input sequence against a
//! key sequence, the key repeated cyclically to cover the whole input.

use vstd::prelude::*;
use crate::XorError;

verus! {

/// The combined sequence: position `i` of the result is `input[i]`
/// XORed with the key byte at `i` modulo the key length.
pub open spec fn xor_with_key(input: Seq<u8>, key: Seq<u8>) -> Seq<u8>
    recommends
        key.len() > 0,
{
    Seq::new(input.len(), |i: int| input[i] ^ key[i % (key.len() as int)])
}

/// The transform keeps the input's length.
pub proof fn lemma_xor_len(input: Seq<u8>, key: Seq<u8>)
    requires
        key.len() > 0,
    ensures
        xor_with_key(input, key).len() == input.len(),
{
}

/// Applying the transform twice with the same key restores the input.
pub proof fn lemma_xor_involution(input: Seq<u8>, key: Seq<u8>)
    requires
        key.len() > 0,
    ensures
        xor_with_key(xor_with_key(input, key), key) == input,
{
    let once = xor_with_key(input, key);
    let twice = xor_with_key(once, key);
    assert forall|i: int| 0 <= i < input.len() implies twice[i] == input[i] by {
        assert(forall|x: u8, y: u8| (x ^ y) ^ y == x) by (bit_vector);
    }
    assert(twice =~= input);
}

/// With a single-byte key, every output byte is the input byte XORed
/// with that one key byte.
pub proof fn lemma_xor_single_byte_key(input: Seq<u8>, key: Seq<u8>, i: int)
    requires
        key.len() == 1,
        0 <= i < input.len(),
    ensures
        xor_with_key(input, key)[i] == input[i] ^ key[0],
{
    assert(i % 1int == 0);
}

/// An empty input combines to an empty output, whatever the key.
pub proof fn lemma_xor_empty_input(key: Seq<u8>)
    requires
        key.len() > 0,
    ensures
        xor_with_key(Seq::<u8>::empty(), key) == Seq::<u8>::empty(),
{
    assert(xor_with_key(Seq::<u8>::empty(), key) =~= Seq::<u8>::empty());
}

/// Combines `input` against the non-empty `key`, wrapping the key.
pub fn xor_bytes(input: &Vec<u8>, key: &Vec<u8>) -> (r: Vec<u8>)
    requires
        key@.len() > 0,
    ensures
        r@ == xor_with_key(input@, key@),
        r@.len() == input@.len(),
{
    let mut out: Vec<u8> = Vec::new();
    let mut i: usize = 0;
    while i < input.len()
        invariant
            i <= input@.len(),
            key@.len() > 0,
            out@.len() == i,
            forall|j: int| 0 <= j < i ==> out@[j] == xor_with_key(input@, key@)[j],
        decreases input@.len() - i,
    {
        let b = input[i] ^ key[i % key.len()];
        out.push(b);
        i = i + 1;
    }
    assert(out@ =~= xor_with_key(input@, key@));
    out
}

/// Combines fully-read input bytes against the key and hands the encoded
/// bytes back for the caller's sink; an empty key is refused.
pub fn encrypt_reader(input: &Vec<u8>, key: &Vec<u8>) -> (r: Result<Vec<u8>, XorError>)
    ensures
        key@.len() > 0 ==> r is Ok && r->Ok_0@ == xor_with_key(input@, key@),
        key@.len() == 0 ==> r is Err && r->Err_0 == XorError::EmptyKey,
{
    if key.len() == 0 {
        Err(XorError::EmptyKey)
    } else {
        Ok(xor_bytes(input, key))
    }
}

} // verus!

use crate::metadata::{IVSIZE, KEYSIZE, SECRET_SIZE};
use crate::primitives::{random_iv, sha3_512, sha3_512_digest};
use vstd::prelude::*;

verus! {

/// The symmetric key that belongs to a shared secret: the first half of
/// its SHA3-512 digest.
pub open spec fn derived_skey(secret: Seq<u8>) -> Seq<u8> {
    sha3_512(secret)@.take(KEYSIZE as int)
}

/// The MAC key that belongs to a shared secret: the second half of its
/// SHA3-512 digest.
pub open spec fn derived_mackey(secret: Seq<u8>) -> Seq<u8> {
    sha3_512(secret)@.skip(KEYSIZE as int)
}

/// Splits the digest of the shared secret into the symmetric key and the
/// MAC key.
pub fn derive_keys(secret: &[u8; SECRET_SIZE]) -> (keys: ([u8; KEYSIZE], [u8; KEYSIZE]))
    ensures
        keys.0@ == derived_skey(secret@),
        keys.1@ == derived_mackey(secret@),
{
    let digest = sha3_512_digest(secret.as_slice());
    let mut skey = [0u8; KEYSIZE];
    let mut mackey = [0u8; KEYSIZE];
    let mut i: usize = 0;
    while i < KEYSIZE
        invariant
            i <= KEYSIZE,
            digest == sha3_512(secret@),
            forall|j: int| 0 <= j < i ==> skey@[j] == digest@[j],
            forall|j: int| 0 <= j < i ==> mackey@[j] == digest@[j + KEYSIZE],
        decreases KEYSIZE - i,
    {
        skey[i] = digest[i];
        mackey[i] = digest[i + KEYSIZE];
        i += 1;
    }
    assert(skey@ =~= derived_skey(secret@));
    assert(mackey@ =~= derived_mackey(secret@));
    (skey, mackey)
}

/// Draws a fresh initialisation vector.
pub fn generate_iv(rng: &mut rand::rngs::ThreadRng) -> (iv: [u8; IVSIZE]) {
    random_iv(rng)
}

} // verus!

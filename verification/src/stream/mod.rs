//! The stream format: symmetric encryption of the payload, and the state
//! machines that seal and open a stream chunk by chunk.

use crate::bytes::be16;
use crate::metadata::{IVSIZE, KEYSIZE, MACSIZE};
use crate::primitives::{aes256_ctr_apply, aes256_ctr_keystream, hmac_sha3_256};
use vstd::prelude::*;

pub mod opener;
pub mod sealer;
pub mod util;

verus! {

/// The tag with which all sealed bytestreams start.
pub const PRELUDE: [u8; 4] = [0x14, 0x8A, 0x8E, 0xA7];

/// The size of the chunks in which plaintext and ciphertext are handled.
pub const BLOCKSIZE: usize = 512;

/// Upper bound on the length of the encoded metadata.
pub const MAX_METADATA_SIZE: usize = 8192;

/// `data` with the keystream of `key` and `iv`, from byte `start` on, XORed
/// into it. Encryption and decryption are both this function.
pub open spec fn keystream_xor(key: Seq<u8>, iv: Seq<u8>, start: nat, data: Seq<u8>) -> Seq<u8> {
    Seq::new(data.len(), |i: int| data[i] ^ aes256_ctr_keystream(key, iv, (start + i) as nat))
}

/// Applying the keystream twice at the same position gives the data back.
pub proof fn lemma_keystream_xor_involution(key: Seq<u8>, iv: Seq<u8>, start: nat, data: Seq<u8>)
    ensures
        keystream_xor(key, iv, start, keystream_xor(key, iv, start, data)) == data,
{
    let once = keystream_xor(key, iv, start, data);
    let twice = keystream_xor(key, iv, start, once);
    assert forall|i: int| 0 <= i < data.len() implies twice[i] == data[i] by {
        let d = data[i];
        let k = aes256_ctr_keystream(key, iv, (start + i) as nat);
        assert((d ^ k) ^ k == d) by (bit_vector);
    }
    assert(twice =~= data);
}

/// The keystream may be applied to a stream piece by piece.
pub proof fn lemma_keystream_xor_concat(
    key: Seq<u8>,
    iv: Seq<u8>,
    start: nat,
    a: Seq<u8>,
    b: Seq<u8>,
)
    ensures
        keystream_xor(key, iv, start, a + b) == keystream_xor(key, iv, start, a) + keystream_xor(
            key,
            iv,
            start + a.len(),
            b,
        ),
{
    assert(keystream_xor(key, iv, start, a + b) =~= keystream_xor(key, iv, start, a)
        + keystream_xor(key, iv, start + a.len(), b));
}

/// The head of a sealed stream: the prelude, the length of the encoded
/// metadata in two bytes, most significant first, and the encoded metadata.
pub open spec fn header_wire(metadata: Seq<u8>) -> Seq<u8> {
    PRELUDE@ + be16(metadata.len() as u16) + metadata
}

/// What follows the head of a sealed stream: the ciphertext of `plaintext`,
/// and the MAC tag of head and ciphertext.
pub open spec fn sealed_body(
    skey: Seq<u8>,
    iv: Seq<u8>,
    mackey: Seq<u8>,
    header: Seq<u8>,
    plaintext: Seq<u8>,
) -> Seq<u8> {
    let ciphertext = keystream_xor(skey, iv, 0, plaintext);
    ciphertext + hmac_sha3_256(mackey, header + ciphertext)@
}

/// The ciphertext in the body of a sealed stream: all but its last
/// `MACSIZE` bytes.
pub open spec fn body_ciphertext(body: Seq<u8>) -> Seq<u8> {
    body.take(body.len() - MACSIZE)
}

/// The MAC tag that a body carries: its last `MACSIZE` bytes.
pub open spec fn body_tag(body: Seq<u8>) -> Seq<u8> {
    body.skip(body.len() - MACSIZE)
}

/// The plaintext that opening recovers from a body.
pub open spec fn opened_payload(skey: Seq<u8>, iv: Seq<u8>, body: Seq<u8>) -> Seq<u8> {
    keystream_xor(skey, iv, 0, body_ciphertext(body))
}

/// Whether the tag that a body carries is the MAC tag of the head and of
/// the ciphertext in the body.
pub open spec fn opened_verdict(mackey: Seq<u8>, header: Seq<u8>, body: Seq<u8>) -> bool {
    body_tag(body) == hmac_sha3_256(mackey, header + body_ciphertext(body))@
}

/// Opening what was sealed under the same keys and the same head yields
/// the plaintext, and the verdict is `true`.
pub proof fn lemma_seal_open_roundtrip(
    skey: Seq<u8>,
    iv: Seq<u8>,
    mackey: Seq<u8>,
    header: Seq<u8>,
    plaintext: Seq<u8>,
)
    ensures
        sealed_body(skey, iv, mackey, header, plaintext).len() == plaintext.len() + MACSIZE,
        opened_payload(skey, iv, sealed_body(skey, iv, mackey, header, plaintext)) == plaintext,
        opened_verdict(mackey, header, sealed_body(skey, iv, mackey, header, plaintext)),
{
    let ciphertext = keystream_xor(skey, iv, 0, plaintext);
    let tag = hmac_sha3_256(mackey, header + ciphertext)@;
    let body = sealed_body(skey, iv, mackey, header, plaintext);
    assert(body_ciphertext(body) =~= ciphertext);
    assert(body_tag(body) =~= tag);
    lemma_keystream_xor_involution(skey, iv, 0, plaintext);
}

/// A body whose tag was altered, and nothing else, is never accepted:
/// where two bodies carry the same ciphertext and the first is accepted,
/// the second is accepted only if its tag is the same.
pub proof fn lemma_altered_tag_rejected(
    mackey: Seq<u8>,
    header: Seq<u8>,
    body: Seq<u8>,
    altered: Seq<u8>,
)
    requires
        body.len() >= MACSIZE,
        altered.len() == body.len(),
        body_ciphertext(altered) == body_ciphertext(body),
        altered != body,
        opened_verdict(mackey, header, body),
    ensures
        !opened_verdict(mackey, header, altered),
{
    if opened_verdict(mackey, header, altered) {
        assert(body_tag(altered) == body_tag(body));
        assert(altered =~= body_ciphertext(altered) + body_tag(altered));
        assert(body =~= body_ciphertext(body) + body_tag(body));
    }
}

/// AES-256 in counter mode, as a position in the keystream of one key and
/// one initialisation vector.
pub struct SymCrypt {
    key: [u8; KEYSIZE],
    iv: [u8; IVSIZE],
    offset: u64,
}

impl SymCrypt {
    /// The symmetric key.
    pub closed spec fn key(&self) -> Seq<u8> {
        self.key@
    }

    /// The initialisation vector.
    pub closed spec fn iv(&self) -> Seq<u8> {
        self.iv@
    }

    /// How many bytes of keystream have been used.
    pub closed spec fn position(&self) -> nat {
        self.offset as nat
    }

    pub fn new(key: &[u8; KEYSIZE], nonce: &[u8; IVSIZE]) -> (s: Self)
        ensures
            s.key() == key@,
            s.iv() == nonce@,
            s.position() == 0,
    {
        SymCrypt { key: *key, iv: *nonce, offset: 0 }
    }

    /// Encrypts `data` in place with the next bytes of the keystream.
    pub fn encrypt(&mut self, data: &mut [u8])
        requires
            old(self).position() + old(data)@.len() <= u64::MAX,
        ensures
            final(data)@ == keystream_xor(
                old(self).key(),
                old(self).iv(),
                old(self).position(),
                old(data)@,
            ),
            final(self).key() == old(self).key(),
            final(self).iv() == old(self).iv(),
            final(self).position() == old(self).position() + old(data)@.len(),
    {
        let n = data.len();
        aes256_ctr_apply(&self.key, &self.iv, self.offset, data);
        assert(data@ =~= keystream_xor(self.key@, self.iv@, self.offset as nat, old(data)@));
        self.offset = self.offset + n as u64;
    }

    /// Decrypts `data` in place with the next bytes of the keystream.
    pub fn decrypt(&mut self, data: &mut [u8])
        requires
            old(self).position() + old(data)@.len() <= u64::MAX,
        ensures
            final(data)@ == keystream_xor(
                old(self).key(),
                old(self).iv(),
                old(self).position(),
                old(data)@,
            ),
            final(self).key() == old(self).key(),
            final(self).iv() == old(self).iv(),
            final(self).position() == old(self).position() + old(data)@.len(),
    {
        self.encrypt(data)
    }
}

} // verus!

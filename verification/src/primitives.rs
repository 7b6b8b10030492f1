//! Trusted bindings to the cryptographic primitives.
//!
//! Nothing in this module is proved. Each item either makes an outside type
//! known to Verus, names the result of an outside function, or wraps one
//! outside call and states what that call is documented to do. All other
//! modules are verified against these contracts.

use ctr::cipher::{KeyIvInit, StreamCipher, StreamCipherSeek};
use hmac::Mac;
use vstd::prelude::*;
use vstd::string::StringSliceAdditionalSpecFns;

verus! {

/// The MAC of a sealed stream: a running HMAC-SHA3-256. Holds a
/// `hmac::Hmac<sha3::Sha3_256>`; Verus sees nothing inside it.
#[verifier::external_body]
pub struct Verifier {
    mac: hmac::Hmac<sha3::Sha3_256>,
}

#[verifier::external_type_specification]
#[verifier::external_body]
pub struct ExPublicKey(ibe::kiltz_vahlis_one::PublicKey);

#[verifier::external_type_specification]
#[verifier::external_body]
pub struct ExUserSecretKey(ibe::kiltz_vahlis_one::UserSecretKey);

#[verifier::external_type_specification]
#[verifier::external_body]
pub struct ExCipherText(ibe::kiltz_vahlis_one::CipherText);

#[verifier::external_type_specification]
#[verifier::external_body]
#[verifier::reject_recursive_types(T)]
pub struct ExCtOption<T>(subtle::CtOption<T>);

#[verifier::external_type_specification]
#[verifier::external_body]
pub struct ExThreadRng(rand::rngs::ThreadRng);

#[verifier::external_type_specification]
#[verifier::external_body]
pub struct ExUtf8Error(core::str::Utf8Error);

/// `core::str::from_utf8` accepts exactly the byte strings that are valid
/// UTF-8, and the string it returns has those bytes.
pub assume_specification<'a>[ core::str::from_utf8 ](v: &'a [u8]) -> (r: Result<
    &'a str,
    core::str::Utf8Error,
>)
    ensures
        r is Ok <==> vstd::utf8::valid_utf8(v@),
        r matches Ok(s) ==> s.spec_bytes() == v@,
;

/// An identity hashed into the domain of the IBE scheme. Holds the value
/// that `ibe::kiltz_vahlis_one::Identity::derive` returns; Verus sees
/// nothing inside it.
#[verifier::external_body]
pub struct IdentityPoint(pub ibe::kiltz_vahlis_one::Identity);

/// The byte at position `pos` of the AES-256 keystream in counter mode
/// (128-bit big-endian counter) for a 32-byte `key` and a 16-byte `iv`.
pub uninterp spec fn aes256_ctr_keystream(key: Seq<u8>, iv: Seq<u8>, pos: nat) -> u8;

/// The SHA3-512 digest of `msg`.
pub uninterp spec fn sha3_512(msg: Seq<u8>) -> [u8; 64];

/// The HMAC-SHA3-256 tag of `msg` under `key`.
pub uninterp spec fn hmac_sha3_256(key: Seq<u8>, msg: Seq<u8>) -> [u8; 32];

/// The key that a MAC state was made with.
pub uninterp spec fn mac_key(m: Verifier) -> Seq<u8>;

/// All bytes that a MAC state has absorbed, in order.
pub uninterp spec fn mac_absorbed(m: Verifier) -> Seq<u8>;

/// What `CipherText::from_bytes` makes of 144 bytes: the ciphertext they
/// encode, or `None` where they encode none.
pub uninterp spec fn ciphertext_of(bytes: Seq<u8>) -> Option<ibe::kiltz_vahlis_one::CipherText>;

/// What a constant-time optional ciphertext holds.
pub uninterp spec fn ct_contents(
    x: subtle::CtOption<ibe::kiltz_vahlis_one::CipherText>,
) -> Option<ibe::kiltz_vahlis_one::CipherText>;

/// The byte form of the shared secret that Kiltz-Vahlis-1 decryption
/// recovers from ciphertext `c` with user secret key `usk`.
pub uninterp spec fn kv1_shared_secret(
    usk: ibe::kiltz_vahlis_one::UserSecretKey,
    c: ibe::kiltz_vahlis_one::CipherText,
) -> [u8; 288];

/// The IBE identity that `bytes` hash to.
pub uninterp spec fn ibe_identity(bytes: Seq<u8>) -> IdentityPoint;

/// Wraps `new`, `seek` and `apply_keystream` of `ctr::Ctr128BE<aes::Aes256>`:
/// a cipher is made from `key` and `iv`, moved to byte `offset` of its
/// keystream, and the keystream from there on is XORed into `data`. The
/// length of `data` does not change. The cipher counts blocks in 128 bits,
/// so no `offset` of 64 bits reaches the end of the keystream.
#[verifier::external_body]
pub(crate) fn aes256_ctr_apply(key: &[u8; 32], iv: &[u8; 16], offset: u64, data: &mut [u8])
    ensures
        final(data)@.len() == old(data)@.len(),
        forall|i: int|
            0 <= i < old(data)@.len() ==> #[trigger] final(data)@[i] == old(data)@[i]
                ^ aes256_ctr_keystream(key@, iv@, (offset + i) as nat),
{
    let mut cipher = ctr::Ctr128BE::<aes::Aes256>::new(key.into(), iv.into());
    cipher.seek(offset);
    cipher.apply_keystream(data);
}

/// Wraps `sha3::Sha3_512::digest`.
#[verifier::external_body]
pub(crate) fn sha3_512_digest(msg: &[u8]) -> (d: [u8; 64])
    ensures
        d == sha3_512(msg@),
{
    <sha3::Sha3_512 as sha3::Digest>::digest(msg).into()
}

/// Wraps `Mac::new_from_slice` of `hmac::Hmac<sha3::Sha3_256>`, which
/// accepts a key of any length: a fresh MAC state under `key` that has
/// absorbed nothing.
#[verifier::external_body]
pub(crate) fn mac_new(key: &[u8; 32]) -> (m: Verifier)
    ensures
        mac_key(m) == key@,
        mac_absorbed(m) == Seq::<u8>::empty(),
{
    Verifier { mac: hmac::Hmac::<sha3::Sha3_256>::new_from_slice(key).unwrap() }
}

/// Wraps `Mac::update`: the state absorbs `data` after what it has
/// absorbed before; its key stays.
#[verifier::external_body]
pub(crate) fn mac_update(m: &mut Verifier, data: &[u8])
    ensures
        mac_key(*final(m)) == mac_key(*old(m)),
        mac_absorbed(*final(m)) == mac_absorbed(*old(m)) + data@,
{
    m.mac.update(data)
}

/// Wraps `Mac::finalize`: the tag of everything absorbed.
#[verifier::external_body]
pub(crate) fn mac_finalize(m: Verifier) -> (tag: [u8; 32])
    ensures
        tag == hmac_sha3_256(mac_key(m), mac_absorbed(m)),
{
    m.mac.finalize().into_bytes().into()
}

/// Wraps `Mac::verify_slice`, which compares in constant time: `true`
/// exactly when `tag` is the tag of everything absorbed. A `tag` that is
/// not 32 bytes long is never accepted.
#[verifier::external_body]
pub(crate) fn mac_verify(m: Verifier, tag: &[u8]) -> (ok: bool)
    ensures
        ok == (tag@ == hmac_sha3_256(mac_key(m), mac_absorbed(m))@),
{
    m.mac.verify_slice(tag).is_ok()
}

/// Wraps `RngCore::fill_bytes` of `rand::rngs::ThreadRng`: 16 fresh random
/// bytes. Nothing is known of their values.
#[verifier::external_body]
pub(crate) fn random_iv(rng: &mut rand::rngs::ThreadRng) -> (iv: [u8; 16]) {
    let mut iv = [0u8; 16];
    rand::RngCore::fill_bytes(rng, &mut iv);
    iv
}

/// Wraps `ibe::kiltz_vahlis_one::Identity::derive`.
#[verifier::external_body]
pub(crate) fn ibe_derive(bytes: &[u8]) -> (p: IdentityPoint)
    ensures
        p == ibe_identity(bytes@),
{
    IdentityPoint(ibe::kiltz_vahlis_one::Identity::derive(bytes))
}

/// Wraps `ibe::kiltz_vahlis_one::encrypt`: a fresh shared secret and the
/// ciphertext that encapsulates it for `id`, each in its byte form. Both
/// depend on the random numbers drawn, so nothing is stated of them.
#[verifier::external_body]
pub(crate) fn kv1_encrypt(
    pk: &ibe::kiltz_vahlis_one::PublicKey,
    id: &IdentityPoint,
    rng: &mut rand::rngs::ThreadRng,
) -> (r: ([u8; 144], [u8; 288])) {
    let (c, k) = ibe::kiltz_vahlis_one::encrypt(pk, &id.0, rng);
    (c.to_bytes(), k.to_bytes())
}

/// Wraps `ibe::kiltz_vahlis_one::CipherText::from_bytes`.
#[verifier::external_body]
pub(crate) fn ciphertext_from_bytes(bytes: &[u8; 144]) -> (x: subtle::CtOption<
    ibe::kiltz_vahlis_one::CipherText,
>)
    ensures
        ct_contents(x) == ciphertext_of(bytes@),
{
    ibe::kiltz_vahlis_one::CipherText::from_bytes(bytes)
}

/// Wraps `CtOption::is_some` and the conversion of its `Choice` to `bool`.
#[verifier::external_body]
pub(crate) fn ct_is_some(x: &subtle::CtOption<ibe::kiltz_vahlis_one::CipherText>) -> (b: bool)
    ensures
        b == ct_contents(*x) is Some,
{
    bool::from(x.is_some())
}

/// Wraps `CtOption::unwrap`, which panics on an empty option.
#[verifier::external_body]
pub(crate) fn ct_unwrap(x: subtle::CtOption<ibe::kiltz_vahlis_one::CipherText>) -> (c:
    ibe::kiltz_vahlis_one::CipherText)
    requires
        ct_contents(x) is Some,
    ensures
        ct_contents(x) == Some(c),
{
    x.unwrap()
}

/// Wraps `ibe::kiltz_vahlis_one::decrypt`, with the recovered secret in its
/// byte form.
#[verifier::external_body]
pub(crate) fn kv1_decrypt(
    usk: &ibe::kiltz_vahlis_one::UserSecretKey,
    c: &ibe::kiltz_vahlis_one::CipherText,
) -> (k: [u8; 288])
    ensures
        k == kv1_shared_secret(*usk, *c),
{
    ibe::kiltz_vahlis_one::decrypt(usk, c).to_bytes()
}

} // verus!

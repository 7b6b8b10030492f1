//! The metadata record at the head of a sealed stream, and its encoding.

use crate::bytes::append;
use crate::identity::{
    identity_valid, identity_wire, lemma_identity_wire_injective,
    lemma_identity_wire_shape, Identity, IdentityView,
};
use crate::Error;
use vstd::prelude::*;
use vstd::slice::slice_subrange;

verus! {

/// Size of the symmetric key and of the MAC key, in bytes.
pub const KEYSIZE: usize = 32;

/// Size of the initialisation vector, in bytes.
pub const IVSIZE: usize = 16;

/// Size of the MAC tag that ends a sealed stream, in bytes.
pub const MACSIZE: usize = 32;

/// Size of a Kiltz-Vahlis-1 ciphertext, in bytes.
pub const CIPHERTEXT_SIZE: usize = 144;

/// Size of the byte form of a Kiltz-Vahlis-1 shared secret.
pub const SECRET_SIZE: usize = 288;

/// The largest encoding that a metadata record can have.
pub const MAX_ENCODED_SIZE: usize = 682;

/// The version of the stream format.
#[derive(Debug, Clone, Copy, PartialEq, Eq, Structural)]
pub enum Version {
    V1_0,
}

/// The byte that stands for a version on the wire.
pub open spec fn version_tag(version: Version) -> u8 {
    match version {
        Version::V1_0 => 0u8,
    }
}

/// What a [`Metadata`] record is.
pub struct MetadataView {
    pub version: Version,
    pub ciphertext: Seq<u8>,
    pub iv: Seq<u8>,
    pub identity: IdentityView,
}

/// Whether the fields of a record have their fixed sizes and its identity
/// is within bounds.
pub open spec fn metadata_valid(v: MetadataView) -> bool {
    &&& v.ciphertext.len() == CIPHERTEXT_SIZE
    &&& v.iv.len() == IVSIZE
    &&& identity_valid(v.identity)
}

/// The encoding of a record: the version tag, the IBE ciphertext, the
/// initialisation vector, and the canonical encoding of the identity.
pub open spec fn metadata_wire(v: MetadataView) -> Seq<u8> {
    seq![version_tag(v.version)] + v.ciphertext + v.iv + identity_wire(v.identity)
}

/// The record that `bytes` encode, if they encode one.
pub open spec fn metadata_unwire(bytes: Seq<u8>) -> Option<MetadataView> {
    if exists|v: MetadataView| metadata_valid(v) && metadata_wire(v) == bytes {
        Some(choose|v: MetadataView| metadata_valid(v) && metadata_wire(v) == bytes)
    } else {
        None
    }
}

/// Where each field of a record lies in its encoding.
pub proof fn lemma_metadata_wire_shape(v: MetadataView)
    requires
        metadata_valid(v),
    ensures
        ({
            let w = metadata_wire(v);
            &&& 171 <= w.len() <= MAX_ENCODED_SIZE
            &&& w.len() == 161 + identity_wire(v.identity).len()
            &&& w[0] == version_tag(v.version)
            &&& w.subrange(1, 145) == v.ciphertext
            &&& w.subrange(145, 161) == v.iv
            &&& w.subrange(161, w.len() as int) == identity_wire(v.identity)
        }),
{
    let w = metadata_wire(v);
    lemma_identity_wire_shape(v.identity);
    assert(w.subrange(1, 145) =~= v.ciphertext);
    assert(w.subrange(145, 161) =~= v.iv);
    assert(w.subrange(161, w.len() as int) =~= identity_wire(v.identity));
}

/// Two records with the same encoding are the same record.
pub proof fn lemma_metadata_wire_injective(a: MetadataView, b: MetadataView)
    requires
        metadata_valid(a),
        metadata_valid(b),
        metadata_wire(a) == metadata_wire(b),
    ensures
        a == b,
{
    lemma_metadata_wire_shape(a);
    lemma_metadata_wire_shape(b);
    lemma_identity_wire_injective(a.identity, b.identity);
}

/// Decoding undoes encoding: the encoding of a record decodes to that
/// record.
pub proof fn lemma_metadata_unwire_wire(v: MetadataView)
    requires
        metadata_valid(v),
    ensures
        metadata_unwire(metadata_wire(v)) == Some(v),
{
    let u = metadata_unwire(metadata_wire(v))->Some_0;
    lemma_metadata_wire_injective(u, v);
}

/// Encoding undoes decoding: bytes that decode to a record are the
/// encoding of that record.
pub proof fn lemma_metadata_wire_unwire(bytes: Seq<u8>)
    requires
        metadata_unwire(bytes) is Some,
    ensures
        metadata_valid(metadata_unwire(bytes)->Some_0),
        metadata_wire(metadata_unwire(bytes)->Some_0) == bytes,
{
}

/// The metadata of a sealed stream: what the recipient needs in order to
/// recover the keys.
#[derive(Debug, Clone, PartialEq, Eq)]
pub struct Metadata {
    pub version: Version,
    /// The IBE ciphertext that encapsulates the shared secret.
    pub ciphertext: [u8; CIPHERTEXT_SIZE],
    /// The initialisation vector of the symmetric cipher.
    pub iv: [u8; IVSIZE],
    /// The identity for which the stream is sealed.
    pub identity: Identity,
}

impl View for Metadata {
    type V = MetadataView;

    open spec fn view(&self) -> MetadataView {
        MetadataView {
            version: self.version,
            ciphertext: self.ciphertext@,
            iv: self.iv@,
            identity: self.identity@,
        }
    }
}

/// Copies `N` bytes of `bytes`, from `at` on, into an array.
pub fn array_from<const N: usize>(bytes: &[u8], at: usize) -> (a: [u8; N])
    requires
        at + N <= bytes@.len(),
    ensures
        a@ == bytes@.subrange(at as int, at + N),
{
    let n = bytes.len();
    let mut a = [0u8; N];
    let mut i: usize = 0;
    while i < N
        invariant
            i <= N,
            at + N <= n == bytes@.len(),
            forall|j: int| 0 <= j < i ==> a@[j] == bytes@[at + j],
        decreases N - i,
    {
        a[i] = bytes[at + i];
        i += 1;
    }
    assert(a@ =~= bytes@.subrange(at as int, at + N));
    a
}

impl Metadata {
    pub fn new(
        version: Version,
        ciphertext: &[u8; CIPHERTEXT_SIZE],
        iv: &[u8; IVSIZE],
        identity: &Identity,
    ) -> (m: Metadata)
        ensures
            metadata_valid(m@),
            m@ == (MetadataView {
                version,
                ciphertext: ciphertext@,
                iv: iv@,
                identity: identity@,
            }),
    {
        proof {
            use_type_invariant(identity);
        }
        Metadata { version, ciphertext: *ciphertext, iv: *iv, identity: identity.clone() }
    }

    /// The encoding of this record. It is always shorter than
    /// `MAX_METADATA_SIZE`.
    pub fn encode(&self) -> (bytes: Vec<u8>)
        ensures
            metadata_valid(self@),
            bytes@ == metadata_wire(self@),
            bytes@.len() <= MAX_ENCODED_SIZE,
    {
        proof {
            use_type_invariant(&self.identity);
            lemma_metadata_wire_shape(self@);
        }
        let mut bytes = Vec::new();
        match self.version {
            Version::V1_0 => bytes.push(0u8),
        }
        append(&mut bytes, self.ciphertext.as_slice());
        append(&mut bytes, self.iv.as_slice());
        self.identity.encode_into(&mut bytes);
        assert(bytes@ =~= metadata_wire(self@));
        bytes
    }

    /// Reads a record from its encoding. Fails with `FormatViolation`
    /// exactly when `bytes` are the encoding of no record: when a field is
    /// cut short or out of range, or when bytes follow the record.
    pub fn decode(bytes: &[u8]) -> (r: Result<Metadata, Error>)
        ensures
            match r {
                Ok(m) => metadata_unwire(bytes@) == Some(m@),
                Err(e) => metadata_unwire(bytes@) is None && e == Error::FormatViolation,
            },
    {
        let n = bytes.len();
        if n < 161 || bytes[0] != 0 {
            assert forall|v: MetadataView| metadata_valid(v) implies metadata_wire(v)
                != bytes@ by {
                lemma_metadata_wire_shape(v);
            }
            return Err(Error::FormatViolation);
        }
        let identity = match Identity::decode(slice_subrange(bytes, 161, n)) {
            Ok(identity) => identity,
            Err(_) => {
                assert forall|v: MetadataView| metadata_valid(v) implies metadata_wire(v)
                    != bytes@ by {
                    lemma_metadata_wire_shape(v);
                    if metadata_wire(v) == bytes@ {
                        assert(identity_valid(v.identity) && identity_wire(v.identity)
                            == bytes@.subrange(161, n as int));
                    }
                }
                return Err(Error::FormatViolation);
            },
        };
        let m = Metadata {
            version: Version::V1_0,
            ciphertext: array_from::<CIPHERTEXT_SIZE>(bytes, 1),
            iv: array_from::<IVSIZE>(bytes, 145),
            identity,
        };
        proof {
            use_type_invariant(&m.identity);
            assert(metadata_wire(m@) =~= bytes@);
            lemma_metadata_unwire_wire(m@);
        }
        Ok(m)
    }
}

} // verus!

//! The recipient of a sealed stream, and its canonical byte encoding.

use crate::bytes::{
    append, be64, lemma_be64_roundtrip, lemma_from_be64_roundtrip, push_be64, read_be64,
};
use crate::primitives::{ibe_derive, ibe_identity, IdentityPoint};
use crate::Error;
use vstd::prelude::*;
use vstd::slice::slice_subrange;
use vstd::utf8::{decode_utf8, encode_utf8};

verus! {

/// The largest number of bytes that an attribute type or an attribute
/// value may take in UTF-8. Its length travels in one byte.
pub const MAX_ATTRIBUTE_SIZE: usize = 255;

/// What an [`Identity`] is: a moment in time and an attribute.
pub struct IdentityView {
    pub timestamp: u64,
    pub attribute_type: Seq<char>,
    pub attribute_value: Option<Seq<char>>,
}

/// Whether both strings of an identity fit their length bytes.
pub open spec fn identity_valid(v: IdentityView) -> bool {
    &&& encode_utf8(v.attribute_type).len() <= MAX_ATTRIBUTE_SIZE
    &&& v.attribute_value matches Some(value) ==> encode_utf8(value).len() <= MAX_ATTRIBUTE_SIZE
}

/// The encoding of the attribute value: a flag, and behind a set flag the
/// length of the value and its UTF-8 bytes.
pub open spec fn value_wire(value: Option<Seq<char>>) -> Seq<u8> {
    match value {
        None => seq![0u8],
        Some(value) => seq![1u8, encode_utf8(value).len() as u8] + encode_utf8(value),
    }
}

/// The canonical encoding of an identity: the timestamp in eight bytes,
/// most significant first; the length of the attribute type and its UTF-8
/// bytes; the encoding of the attribute value.
pub open spec fn identity_wire(v: IdentityView) -> Seq<u8> {
    be64(v.timestamp) + seq![encode_utf8(v.attribute_type).len() as u8] + encode_utf8(
        v.attribute_type,
    ) + value_wire(v.attribute_value)
}

/// The identity that `bytes` encode, if they encode one.
pub open spec fn identity_unwire(bytes: Seq<u8>) -> Option<IdentityView> {
    if exists|v: IdentityView| identity_valid(v) && identity_wire(v) == bytes {
        Some(choose|v: IdentityView| identity_valid(v) && identity_wire(v) == bytes)
    } else {
        None
    }
}

/// Where each field of an identity lies in its encoding.
pub proof fn lemma_identity_wire_shape(v: IdentityView)
    requires
        identity_valid(v),
    ensures
        ({
            let w = identity_wire(v);
            let t = encode_utf8(v.attribute_type);
            let tl = t.len() as int;
            &&& w.len() == 10 + tl + match v.attribute_value {
                None => 0,
                Some(value) => 1 + encode_utf8(value).len(),
            }
            &&& w.subrange(0, 8) == be64(v.timestamp)
            &&& w[8] == tl
            &&& w.subrange(9, 9 + tl) == t
            &&& w[9 + tl] == match v.attribute_value {
                None => 0u8,
                Some(_) => 1u8,
            }
            &&& v.attribute_value matches Some(value) ==> {
                &&& w[10 + tl] == encode_utf8(value).len()
                &&& w.subrange(11 + tl, 11 + tl + encode_utf8(value).len()) == encode_utf8(
                    value,
                )
            }
        }),
{
    let w = identity_wire(v);
    let t = encode_utf8(v.attribute_type);
    let tl = t.len() as int;
    lemma_be64_roundtrip(v.timestamp);
    assert(w.subrange(0, 8) =~= be64(v.timestamp));
    assert(w.subrange(9, 9 + tl) =~= t);
    match v.attribute_value {
        None => {},
        Some(value) => {
            let e = encode_utf8(value);
            assert(w.subrange(11 + tl, 11 + tl + e.len()) =~= e);
        },
    }
}

/// Two identities with the same encoding are the same identity.
pub proof fn lemma_identity_wire_injective(a: IdentityView, b: IdentityView)
    requires
        identity_valid(a),
        identity_valid(b),
        identity_wire(a) == identity_wire(b),
    ensures
        a == b,
{
    broadcast use vstd::utf8::encode_utf8_decode_utf8;

    lemma_identity_wire_shape(a);
    lemma_identity_wire_shape(b);
    lemma_be64_roundtrip(a.timestamp);
    lemma_be64_roundtrip(b.timestamp);
    let w = identity_wire(a);
    let ta = encode_utf8(a.attribute_type);
    let tb = encode_utf8(b.attribute_type);
    assert(ta.len() == tb.len());
    assert(ta == tb);
    assert(decode_utf8(ta) == a.attribute_type);
    assert(decode_utf8(tb) == b.attribute_type);
    match (a.attribute_value, b.attribute_value) {
        (Some(x), Some(y)) => {
            let ex = encode_utf8(x);
            let ey = encode_utf8(y);
            assert(ex.len() == ey.len());
            assert(ex == ey);
            assert(decode_utf8(ex) == x);
            assert(decode_utf8(ey) == y);
        },
        _ => {},
    }
}

/// Decoding undoes encoding.
pub proof fn lemma_identity_unwire_wire(v: IdentityView)
    requires
        identity_valid(v),
    ensures
        identity_unwire(identity_wire(v)) == Some(v),
{
    let u = identity_unwire(identity_wire(v))->Some_0;
    lemma_identity_wire_injective(u, v);
}

/// Encoding undoes decoding.
pub proof fn lemma_identity_wire_unwire(bytes: Seq<u8>)
    requires
        identity_unwire(bytes) is Some,
    ensures
        identity_valid(identity_unwire(bytes)->Some_0),
        identity_wire(identity_unwire(bytes)->Some_0) == bytes,
{
}

/// An identity: a timestamp, the type of an attribute, and optionally the
/// value that the attribute must have.
#[derive(Debug, PartialEq, Eq)]
pub struct Identity {
    timestamp: u64,
    attribute_type: String,
    attribute_value: Option<String>,
}

impl View for Identity {
    type V = IdentityView;

    closed spec fn view(&self) -> IdentityView {
        IdentityView {
            timestamp: self.timestamp,
            attribute_type: self.attribute_type@,
            attribute_value: match self.attribute_value {
                Some(value) => Some(value@),
                None => None,
            },
        }
    }
}

impl Clone for Identity {
    fn clone(&self) -> (r: Self)
        ensures
            r@ == self@,
    {
        proof {
            use_type_invariant(self);
        }
        Identity {
            timestamp: self.timestamp,
            attribute_type: self.attribute_type.clone(),
            attribute_value: match &self.attribute_value {
                Some(value) => Some(value.clone()),
                None => None,
            },
        }
    }
}

impl Identity {
    /// Every identity meets the length bounds.
    #[verifier::type_invariant]
    pub open spec fn inv(&self) -> bool {
        identity_valid(self@)
    }

    /// Makes an identity. Fails with `ConstraintViolation` exactly when the
    /// attribute type or the attribute value takes more than
    /// [`MAX_ATTRIBUTE_SIZE`] bytes.
    pub fn new(timestamp: u64, attribute_type: &str, attribute_value: Option<&str>) -> (r: Result<
        Identity,
        Error,
    >)
        ensures
            ({
                let v = IdentityView {
                    timestamp,
                    attribute_type: attribute_type@,
                    attribute_value: match attribute_value {
                        Some(value) => Some(value@),
                        None => None,
                    },
                };
                match r {
                    Ok(id) => identity_valid(v) && id@ == v,
                    Err(e) => !identity_valid(v) && e == Error::ConstraintViolation,
                }
            }),
    {
        if attribute_type.as_bytes().len() > MAX_ATTRIBUTE_SIZE {
            return Err(Error::ConstraintViolation);
        }
        let value = match attribute_value {
            Some(value) => {
                if value.as_bytes().len() > MAX_ATTRIBUTE_SIZE {
                    return Err(Error::ConstraintViolation);
                }
                Some(value.to_owned())
            },
            None => None,
        };
        Ok(Identity { timestamp, attribute_type: attribute_type.to_owned(), attribute_value: value })
    }

    pub fn timestamp(&self) -> (t: u64)
        ensures
            t == self@.timestamp,
    {
        self.timestamp
    }

    pub fn attribute_type(&self) -> (s: &str)
        ensures
            s@ == self@.attribute_type,
    {
        self.attribute_type.as_str()
    }

    pub fn attribute_value(&self) -> (s: Option<&str>)
        ensures
            match s {
                Some(value) => self@.attribute_value == Some(value@),
                None => self@.attribute_value is None,
            },
    {
        match &self.attribute_value {
            Some(value) => Some(value.as_str()),
            None => None,
        }
    }

    /// Appends the canonical encoding of this identity to `out`.
    pub fn encode_into(&self, out: &mut Vec<u8>)
        ensures
            final(out)@ == old(out)@ + identity_wire(self@),
    {
        proof {
            use_type_invariant(self);
        }
        push_be64(out, self.timestamp);
        let t = self.attribute_type.as_str().as_bytes();
        out.push(t.len() as u8);
        append(out, t);
        match &self.attribute_value {
            None => {
                out.push(0u8);
            },
            Some(value) => {
                let value = value.as_str().as_bytes();
                out.push(1u8);
                out.push(value.len() as u8);
                append(out, value);
            },
        }
        assert(out@ =~= old(out)@ + identity_wire(self@));
    }

    /// The canonical encoding of this identity.
    pub fn canonical_bytes(&self) -> (bytes: Vec<u8>)
        ensures
            bytes@ == identity_wire(self@),
    {
        let mut bytes = Vec::new();
        self.encode_into(&mut bytes);
        bytes
    }

    /// Reads an identity from its canonical encoding. Fails with
    /// `FormatViolation` exactly when `bytes` are the encoding of no
    /// identity; bytes that follow an encoding make it fail.
    pub fn decode(bytes: &[u8]) -> (r: Result<Identity, Error>)
        ensures
            match r {
                Ok(id) => identity_unwire(bytes@) == Some(id@),
                Err(e) => identity_unwire(bytes@) is None && e == Error::FormatViolation,
            },
    {
        broadcast use vstd::utf8::encode_utf8_valid_utf8;

        let n = bytes.len();
        if n < 10 {
            assert forall|v: IdentityView| identity_valid(v) implies identity_wire(v)
                != bytes@ by {
                lemma_identity_wire_shape(v);
            }
            return Err(Error::FormatViolation);
        }
        let timestamp = read_be64(bytes, 0);
        let tl = bytes[8] as usize;
        if n < 10 + tl {
            assert forall|v: IdentityView| identity_valid(v) implies identity_wire(v)
                != bytes@ by {
                lemma_identity_wire_shape(v);
            }
            return Err(Error::FormatViolation);
        }
        let attribute_type = match core::str::from_utf8(slice_subrange(bytes, 9, 9 + tl)) {
            Ok(s) => s,
            Err(_) => {
                assert forall|v: IdentityView| identity_valid(v) implies identity_wire(v)
                    != bytes@ by {
                    lemma_identity_wire_shape(v);
                }
                return Err(Error::FormatViolation);
            },
        };
        let flag = bytes[9 + tl];
        let attribute_value = if flag == 0 {
            if n != 10 + tl {
                assert forall|v: IdentityView| identity_valid(v) implies identity_wire(v)
                    != bytes@ by {
                    lemma_identity_wire_shape(v);
                }
                return Err(Error::FormatViolation);
            }
            None
        } else if flag == 1 {
            if n < 11 + tl {
                assert forall|v: IdentityView| identity_valid(v) implies identity_wire(v)
                    != bytes@ by {
                    lemma_identity_wire_shape(v);
                }
                return Err(Error::FormatViolation);
            }
            let vl = bytes[10 + tl] as usize;
            if n != 11 + tl + vl {
                assert forall|v: IdentityView| identity_valid(v) implies identity_wire(v)
                    != bytes@ by {
                    lemma_identity_wire_shape(v);
                }
                return Err(Error::FormatViolation);
            }
            match core::str::from_utf8(slice_subrange(bytes, 11 + tl, 11 + tl + vl)) {
                Ok(s) => Some(s.to_owned()),
                Err(_) => {
                    assert forall|v: IdentityView| identity_valid(v) implies identity_wire(v)
                        != bytes@ by {
                        lemma_identity_wire_shape(v);
                    }
                    return Err(Error::FormatViolation);
                },
            }
        } else {
            assert forall|v: IdentityView| identity_valid(v) implies identity_wire(v)
                != bytes@ by {
                lemma_identity_wire_shape(v);
            }
            return Err(Error::FormatViolation);
        };
        let id = Identity { timestamp, attribute_type: attribute_type.to_owned(), attribute_value };
        proof {
            lemma_from_be64_roundtrip(bytes@.subrange(0, 8));
            assert(identity_valid(id@));
            assert(identity_wire(id@) =~= bytes@);
            lemma_identity_unwire_wire(id@);
        }
        Ok(id)
    }

    /// Hashes the canonical encoding of this identity into the domain of
    /// the IBE scheme.
    pub fn derive(&self) -> (p: IdentityPoint)
        ensures
            p == ibe_identity(identity_wire(self@)),
    {
        let bytes = self.canonical_bytes();
        ibe_derive(bytes.as_slice())
    }
}

} // verus!

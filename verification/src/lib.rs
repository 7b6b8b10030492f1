//! Core of IRMAseal: identity-based, streaming, authenticated encryption of
//! bytestreams.
//!
//! A sealed stream is `PRELUDE ‖ META_LEN ‖ METADATA ‖ CIPHERTEXT ‖ MAC`.
//! Everything in this crate is verified with Verus, except for the trusted
//! bindings to the cryptographic primitives, which are collected in
//! `primitives` and in the fixed-capacity buffer of `util`.

use vstd::prelude::*;

pub mod bytes;
pub mod identity;
pub mod metadata;
pub mod primitives;
pub mod stream;
pub mod util;

verus! {

/// Failures of the byte-stream traits [`Readable`] and [`Writable`].
#[derive(Debug, Clone, Copy, PartialEq, Eq, Structural)]
pub enum LegacyError {
    NotIRMASEAL,
    IncorrectVersion,
    ConstraintViolation,
    FormatViolation,
    UpstreamWritableError,
    EndOfStream,
    PrematureEndError,
}

/// The categorized failure surface shared by sealing and opening.
///
/// A MAC mismatch is not an error: it is the `false` verdict of opening.
#[derive(Debug, Clone, Copy, PartialEq, Eq, Structural)]
pub enum Error {
    /// The stream does not start with the prelude.
    NotIRMASEAL,
    /// Reserved for version skew.
    IncorrectVersion,
    /// An identity attribute is longer than allowed.
    ConstraintViolation,
    /// A length bound is violated, the metadata does not decode, the IBE
    /// ciphertext is rejected, or the stream ends before the MAC.
    FormatViolation,
    /// The underlying source failed; its error is carried as it was.
    ReadError(LegacyError),
    /// The underlying sink failed; its error is carried as it was.
    WriteError(LegacyError),
}

/// A writable resource that accepts chunks of a bytestream.
///
/// The model of a sink is the sequence of bytes it has accepted so far and
/// the number of bytes it can still take.
pub trait Writable {
    /// All bytes accepted so far, in order.
    spec fn written(&self) -> Seq<u8>;

    /// How many more bytes the resource accepts.
    spec fn room(&self) -> nat;

    /// Write the argument slice to the underlying resource. The slice is
    /// consumed entirely or not at all.
    fn write(&mut self, buf: &[u8]) -> (r: Result<(), LegacyError>)
        ensures
            match r {
                Ok(_) => {
                    &&& buf@.len() <= old(self).room()
                    &&& final(self).written() == old(self).written() + buf@
                    &&& final(self).room() == old(self).room() - buf@.len()
                },
                Err(e) => {
                    &&& e == LegacyError::UpstreamWritableError
                    &&& buf@.len() > old(self).room()
                    &&& final(self).written() == old(self).written()
                    &&& final(self).room() == old(self).room()
                },
            },
    ;
}

/// A readable resource that yields chunks of a bytestream.
///
/// The model of a source is the sequence of bytes it has yet to yield. A
/// source fails only when it has no bytes left.
pub trait Readable {
    /// The bytes that have not been read yet, in order.
    spec fn remaining(&self) -> Seq<u8>;

    /// Read exactly one byte. Fails with `EndOfStream` if that byte is not
    /// available.
    fn read_byte(&mut self) -> (r: Result<u8, LegacyError>)
        ensures
            match r {
                Ok(b) => {
                    &&& old(self).remaining().len() > 0
                    &&& b == old(self).remaining()[0]
                    &&& final(self).remaining() == old(self).remaining().skip(1)
                },
                Err(e) => {
                    &&& e == LegacyError::EndOfStream
                    &&& old(self).remaining().len() == 0
                    &&& final(self).remaining() == old(self).remaining()
                },
            },
    ;

    /// Read **up to** `n` bytes. May yield a slice with a lower number of
    /// bytes, but never an empty one when `n` is positive. Fails with
    /// `EndOfStream` if no byte is left.
    fn read_bytes(&mut self, n: usize) -> (r: Result<&[u8], LegacyError>)
        ensures
            match r {
                Ok(chunk) => {
                    &&& old(self).remaining().len() > 0
                    &&& chunk@.len() <= n
                    &&& n > 0 ==> chunk@.len() > 0
                    &&& chunk@.len() <= old(self).remaining().len()
                    &&& chunk@ == old(self).remaining().take(chunk@.len() as int)
                    &&& final(self).remaining() == old(self).remaining().skip(chunk@.len() as int)
                },
                Err(e) => {
                    &&& e == LegacyError::EndOfStream
                    &&& old(self).remaining().len() == 0
                    &&& final(self).remaining() == old(self).remaining()
                },
            },
    ;

    /// Read **exactly** `n` bytes in one chunk. A chunk that comes out
    /// shorter is consumed and reported as `PrematureEndError`; the
    /// `EndOfStream` of a source with no byte left is handed on.
    fn read_bytes_strict(&mut self, n: usize) -> (r: Result<&[u8], LegacyError>)
        ensures
            match r {
                Ok(chunk) => {
                    &&& chunk@.len() == n
                    &&& 0 < old(self).remaining().len()
                    &&& n <= old(self).remaining().len()
                    &&& chunk@ == old(self).remaining().take(n as int)
                    &&& final(self).remaining() == old(self).remaining().skip(n as int)
                },
                Err(e) => {
                    &&& e == LegacyError::EndOfStream || e == LegacyError::PrematureEndError
                    &&& e == LegacyError::EndOfStream <==> old(self).remaining().len() == 0
                    &&& e == LegacyError::EndOfStream ==> final(self).remaining() == old(
                        self,
                    ).remaining()
                    &&& e == LegacyError::PrematureEndError ==> exists|k: int|
                        0 <= k < n && k <= old(self).remaining().len() && final(self).remaining()
                            == #[trigger] old(self).remaining().skip(k)
                },
            },
    {
        let res = self.read_bytes(n)?;
        if res.len() < n {
            Err(LegacyError::PrematureEndError)
        } else {
            Ok(res)
        }
    }
}

} // verus!

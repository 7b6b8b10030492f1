use crate::bytes::append;
use crate::primitives::{ct_contents, ct_is_some, ct_unwrap};
use crate::{LegacyError, Readable, Writable};
use vstd::prelude::*;

verus! {

/// A source that reads from a borrowed slice.
pub struct SliceReader<'a, T> {
    buf: &'a [T],
    i: usize,
}

impl<'a, T> SliceReader<'a, T> {
    /// The items that have not been read yet.
    pub closed spec fn unread(&self) -> Seq<T> {
        if self.i <= self.buf@.len() {
            self.buf@.skip(self.i as int)
        } else {
            Seq::empty()
        }
    }

    pub fn new(buf: &'a [T]) -> (r: SliceReader<'a, T>)
        ensures
            r.unread() == buf@,
    {
        SliceReader { buf, i: 0 }
    }
}

impl<'a> Readable for SliceReader<'a, u8> {
    open spec fn remaining(&self) -> Seq<u8> {
        self.unread()
    }

    fn read_byte(&mut self) -> (r: Result<u8, LegacyError>) {
        if self.buf.len() <= self.i {
            return Err(LegacyError::EndOfStream);
        }
        let res = self.buf[self.i];
        self.i += 1;
        Ok(res)
    }

    fn read_bytes(&mut self, n: usize) -> (r: Result<&[u8], LegacyError>)
        ensures
            r is Ok ==> r->Ok_0@.len() == if n <= old(self).remaining().len() {
                n as int
            } else {
                old(self).remaining().len() as int
            },
    {
        if self.i >= self.buf.len() {
            return Err(LegacyError::EndOfStream);
        }
        let end = if n < self.buf.len() - self.i {
            self.i + n
        } else {
            self.buf.len()
        };
        let res = vstd::slice::slice_subrange(self.buf, self.i, end);
        self.i = end;
        Ok(res)
    }

    /// Succeeds exactly when a byte is left and at least `n` are: a slice
    /// hands out as many bytes as are asked for while it has them.
    fn read_bytes_strict(&mut self, n: usize) -> (r: Result<&[u8], LegacyError>)
        ensures
            r is Ok <==> 0 < old(self).remaining().len() && n <= old(self).remaining().len(),
            r is Err ==> final(self).remaining().len() == 0,
    {
        let res = self.read_bytes(n)?;
        if res.len() < n {
            Err(LegacyError::PrematureEndError)
        } else {
            Ok(res)
        }
    }
}

/// Reads exactly `n` bytes from `r` and appends them to `out`, however the
/// source cuts them into chunks. Returns `false` exactly when the source
/// has fewer than `n` bytes left; it is then read to its end.
pub fn read_exact<R: Readable>(r: &mut R, n: usize, out: &mut Vec<u8>) -> (ok: bool)
    ensures
        ok == (n <= old(r).remaining().len()),
        ok ==> final(out)@ == old(out)@ + old(r).remaining().take(n as int),
        ok ==> final(r).remaining() == old(r).remaining().skip(n as int),
        !ok ==> final(out)@ == old(out)@ + old(r).remaining(),
        !ok ==> final(r).remaining().len() == 0,
{
    let ghost all = r.remaining();
    let mut got: usize = 0;
    assert(out@ =~= old(out)@ + all.take(0));
    assert(r.remaining() =~= all.skip(0));
    while got < n
        invariant
            all == old(r).remaining(),
            got <= n,
            got <= all.len(),
            out@ == old(out)@ + all.take(got as int),
            r.remaining() == all.skip(got as int),
        decreases n - got,
    {
        match r.read_bytes(n - got) {
            Ok(chunk) => {
                append(out, chunk);
                assert(all.take(got as int) + chunk@ =~= all.take(got + chunk@.len()));
                assert(all.skip(got as int).skip(chunk@.len() as int) =~= all.skip(
                    got + chunk@.len(),
                ));
                got = got + chunk.len();
            },
            Err(_) => {
                assert(all.take(got as int) =~= all);
                return false;
            },
        }
    }
    true
}

/// The number of bytes that a [`BigBuf`] holds at most.
pub const BIGBUF_CAPACITY: usize = 65536;

/// A byte buffer of fixed capacity. Holds an
/// `arrayvec::ArrayVec<[u8; 65536]>`; Verus sees nothing inside it.
#[verifier::external_body]
pub struct BigBuf {
    inner: arrayvec::ArrayVec<[u8; 65536]>,
}

/// The bytes that a buffer holds, in order.
pub uninterp spec fn bigbuf_contents(b: BigBuf) -> Seq<u8>;

/// Wraps `ArrayVec::new`: an empty buffer.
#[verifier::external_body]
fn bigbuf_new() -> (b: BigBuf)
    ensures
        bigbuf_contents(b) == Seq::<u8>::empty(),
{
    BigBuf { inner: arrayvec::ArrayVec::new() }
}

/// Wraps `ArrayVec::len`: the number of bytes held, which never exceeds
/// the capacity.
#[verifier::external_body]
fn bigbuf_len(b: &BigBuf) -> (n: usize)
    ensures
        n == bigbuf_contents(*b).len(),
        n <= BIGBUF_CAPACITY,
{
    b.inner.len()
}

/// Wraps `ArrayVec::as_slice`: the bytes held.
#[verifier::external_body]
fn bigbuf_as_slice(b: &BigBuf) -> (s: &[u8])
    ensures
        s@ == bigbuf_contents(*b),
{
    b.inner.as_slice()
}

/// Wraps `ArrayVec::try_extend_from_slice`, which appends `data` where the
/// capacity left is at least its length, and else leaves the buffer as it
/// is.
#[verifier::external_body]
fn bigbuf_extend(b: &mut BigBuf, data: &[u8]) -> (ok: bool)
    ensures
        ok == (bigbuf_contents(*old(b)).len() + data@.len() <= BIGBUF_CAPACITY),
        ok ==> bigbuf_contents(*final(b)) == bigbuf_contents(*old(b)) + data@,
        !ok ==> bigbuf_contents(*final(b)) == bigbuf_contents(*old(b)),
{
    b.inner.try_extend_from_slice(data).is_ok()
}

impl BigBuf {
    /// An empty buffer.
    pub fn new() -> (b: BigBuf)
        ensures
            b.written() == Seq::<u8>::empty(),
            b.room() == BIGBUF_CAPACITY,
    {
        bigbuf_new()
    }

    /// The number of bytes in the buffer.
    pub fn len(&self) -> (n: usize)
        ensures
            n == self.written().len(),
            n <= BIGBUF_CAPACITY,
    {
        bigbuf_len(self)
    }

    /// The bytes in the buffer.
    pub fn as_slice(&self) -> (s: &[u8])
        ensures
            s@ == self.written(),
    {
        bigbuf_as_slice(self)
    }
}

impl Writable for BigBuf {
    open spec fn written(&self) -> Seq<u8> {
        bigbuf_contents(*self)
    }

    open spec fn room(&self) -> nat {
        if bigbuf_contents(*self).len() <= BIGBUF_CAPACITY {
            (BIGBUF_CAPACITY - bigbuf_contents(*self).len()) as nat
        } else {
            0
        }
    }

    fn write(&mut self, data: &[u8]) -> (r: Result<(), LegacyError>) {
        let len = bigbuf_len(self);
        if data.len() > BIGBUF_CAPACITY - len {
            return Err(LegacyError::UpstreamWritableError);
        }
        bigbuf_extend(self, data);
        Ok(())
    }
}

/// Turns a constant-time optional ciphertext into an ordinary `Option`.
pub fn open_ct(x: subtle::CtOption<ibe::kiltz_vahlis_one::CipherText>) -> (r: Option<
    ibe::kiltz_vahlis_one::CipherText,
>)
    ensures
        r == ct_contents(x),
{
    if ct_is_some(&x) {
        Some(ct_unwrap(x))
    } else {
        None
    }
}

} // verus!

use crate::bytes::{append, from_be16, lemma_be16_roundtrip, same_bytes};
use crate::metadata::{
    array_from, lemma_metadata_unwire_wire, lemma_metadata_wire_shape, metadata_unwire,
    metadata_valid, metadata_wire, Metadata, MetadataView, CIPHERTEXT_SIZE, IVSIZE, MACSIZE,
    SECRET_SIZE,
};
use crate::primitives::{
    ciphertext_from_bytes, ciphertext_of, kv1_decrypt, kv1_shared_secret, mac_absorbed, mac_key,
    mac_new, mac_update, mac_verify, Verifier,
};
use crate::stream::util::{derive_keys, derived_mackey, derived_skey};
use crate::stream::{
    body_ciphertext, body_tag, header_wire, keystream_xor, lemma_keystream_xor_concat,
    opened_payload, opened_verdict, SymCrypt, BLOCKSIZE, MAX_METADATA_SIZE, PRELUDE,
};
use crate::util::{open_ct, read_exact};
use crate::{Error, LegacyError, Readable, Writable};
use vstd::prelude::*;
use vstd::slice::slice_subrange;

verus! {

/// The read side of a sealed stream, as a state machine that is fed the
/// body of the stream chunk by chunk and hands out plaintext. It holds no
/// source and no sink.
///
/// The stream does not say where its ciphertext ends, so the machine holds
/// back the last `MACSIZE` bytes it was given: when the stream ends, they
/// are the tag.
pub struct ChunkOpener {
    aes: SymCrypt,
    hmac: Verifier,
    buffer: Vec<u8>,
    header: Ghost<Seq<u8>>,
    received: Ghost<Seq<u8>>,
}

impl ChunkOpener {
    /// The buffer holds the last bytes received, at least `MACSIZE` and
    /// fewer than twice as many; all bytes before them have been absorbed
    /// by the MAC and decrypted.
    pub closed spec fn wf(&self) -> bool {
        &&& MACSIZE <= self.buffer@.len() < 2 * MACSIZE
        &&& self.buffer@.len() <= self.received@.len()
        &&& self.buffer@ == self.received@.skip(self.received@.len() - self.buffer@.len())
        &&& self.aes.position() == self.received@.len() - self.buffer@.len()
        &&& mac_absorbed(self.hmac) == self.header@ + self.received@.take(
            self.received@.len() - self.buffer@.len(),
        )
    }

    /// The symmetric key.
    pub closed spec fn skey(&self) -> Seq<u8> {
        self.aes.key()
    }

    /// The initialisation vector.
    pub closed spec fn iv(&self) -> Seq<u8> {
        self.aes.iv()
    }

    /// The MAC key.
    pub closed spec fn mackey(&self) -> Seq<u8> {
        mac_key(self.hmac)
    }

    /// The head of the stream.
    pub closed spec fn header(&self) -> Seq<u8> {
        self.header@
    }

    /// All bytes of the body received so far.
    pub closed spec fn received(&self) -> Seq<u8> {
        self.received@
    }

    /// How many of the bytes received are held back.
    pub closed spec fn pending(&self) -> nat {
        self.buffer@.len()
    }

    /// All plaintext handed out so far: the bytes received that are not
    /// held back, decrypted.
    pub open spec fn released(&self) -> Seq<u8> {
        keystream_xor(
            self.skey(),
            self.iv(),
            0,
            self.received().take(self.received().len() - self.pending()),
        )
    }

    /// Starts opening a body under the keys that belong to `secret`. The
    /// MAC absorbs `header`; `first` are the first `MACSIZE` bytes of the
    /// body.
    pub fn start(
        header: &[u8],
        secret: &[u8; SECRET_SIZE],
        iv: &[u8; IVSIZE],
        first: &[u8; MACSIZE],
    ) -> (o: ChunkOpener)
        ensures
            o.wf(),
            o.skey() == derived_skey(secret@),
            o.mackey() == derived_mackey(secret@),
            o.iv() == iv@,
            o.header() == header@,
            o.received() == first@,
            o.pending() == MACSIZE,
    {
        let (skey, mackey) = derive_keys(secret);
        let aes = SymCrypt::new(&skey, iv);
        let mut hmac = mac_new(&mackey);
        mac_update(&mut hmac, header);
        let mut buffer: Vec<u8> = Vec::with_capacity(BLOCKSIZE + MACSIZE);
        append(&mut buffer, first.as_slice());
        let o = ChunkOpener { aes, hmac, buffer, header: Ghost(header@), received: Ghost(first@) };
        assert(o.buffer@ =~= o.received@.skip(0));
        assert(mac_absorbed(o.hmac) =~= o.header@ + o.received@.take(0));
        o
    }

    /// At least `MACSIZE` bytes and fewer than twice as many are held
    /// back, and no more than were received.
    pub proof fn lemma_pending_bounds(&self)
        requires
            self.wf(),
        ensures
            MACSIZE <= self.pending() < 2 * MACSIZE,
            self.pending() <= self.received().len(),
    {
    }

    /// How many bytes the next call of [`ChunkOpener::push`] takes at most.
    pub fn room(&self) -> (n: usize)
        requires
            self.wf(),
        ensures
            n == BLOCKSIZE + MACSIZE - self.pending(),
            BLOCKSIZE - MACSIZE < n <= BLOCKSIZE,
    {
        BLOCKSIZE + MACSIZE - self.buffer.len()
    }

    /// Decrypts all of the buffer but its last `MACSIZE` bytes, after the
    /// MAC has absorbed them, appends the plaintext to `output`, and moves
    /// the last `MACSIZE` bytes to the front.
    fn release(&mut self, output: &mut Vec<u8>)
        requires
            MACSIZE <= old(self).buffer@.len() <= BLOCKSIZE + MACSIZE,
            old(self).buffer@.len() <= old(self).received@.len() <= u64::MAX,
            old(self).buffer@ == old(self).received@.skip(
                old(self).received@.len() - old(self).buffer@.len(),
            ),
            old(self).aes.position() == old(self).received@.len() - old(self).buffer@.len(),
            mac_absorbed(old(self).hmac) == old(self).header@ + old(self).received@.take(
                old(self).received@.len() - old(self).buffer@.len(),
            ),
        ensures
            final(self).wf(),
            final(self).pending() == MACSIZE,
            final(self).skey() == old(self).skey(),
            final(self).iv() == old(self).iv(),
            final(self).mackey() == old(self).mackey(),
            final(self).header() == old(self).header(),
            final(self).received() == old(self).received(),
            final(output)@ == old(output)@ + final(self).released().skip(
                old(self).received@.len() - old(self).buffer@.len(),
            ),
    {
        let ghost settled = self.received@.len() - self.buffer@.len();
        let ghost ready = self.received@.len() - MACSIZE;
        let k = self.buffer.len() - MACSIZE;
        let keep = self.buffer.split_off(k);
        assert(self.buffer@ =~= self.received@.subrange(settled, ready));
        assert(keep@ =~= self.received@.skip(ready));
        mac_update(&mut self.hmac, self.buffer.as_slice());
        proof {
            lemma_keystream_xor_concat(
                self.aes.key(),
                self.aes.iv(),
                0,
                self.received@.take(settled),
                self.buffer@,
            );
            assert(self.received@.take(settled) + self.buffer@ =~= self.received@.take(ready));
            assert(mac_absorbed(self.hmac) =~= self.header@ + self.received@.take(ready));
        }
        self.aes.decrypt(self.buffer.as_mut_slice());
        append(output, self.buffer.as_slice());
        self.buffer = keep;
        assert(self.released().skip(settled) =~= keystream_xor(
            self.aes.key(),
            self.aes.iv(),
            settled as nat,
            self.received@.subrange(settled, ready),
        ));
    }

    /// Takes the next bytes of the body. Once twice `MACSIZE` bytes or
    /// more are held, all but the last `MACSIZE` of them are decrypted and
    /// appended to `output`.
    pub fn push(&mut self, input: &[u8], output: &mut Vec<u8>)
        requires
            old(self).wf(),
            input@.len() <= BLOCKSIZE + MACSIZE - old(self).pending(),
            old(self).received().len() + input@.len() <= u64::MAX,
        ensures
            final(self).wf(),
            final(self).skey() == old(self).skey(),
            final(self).iv() == old(self).iv(),
            final(self).mackey() == old(self).mackey(),
            final(self).header() == old(self).header(),
            final(self).received() == old(self).received() + input@,
            final(self).pending() == if old(self).pending() + input@.len() >= 2 * MACSIZE {
                MACSIZE as nat
            } else {
                old(self).pending() + input@.len()
            },
            final(output)@ == old(output)@ + final(self).released().skip(
                old(self).released().len() as int,
            ),
    {
        let ghost settled = self.received@.len() - self.buffer@.len();
        append(&mut self.buffer, input);
        self.received = Ghost(self.received@ + input@);
        assert(self.buffer@ =~= self.received@.skip(self.received@.len() - self.buffer@.len()));
        assert(self.received@.take(settled) =~= old(self).received@.take(settled));
        if self.buffer.len() >= 2 * MACSIZE {
            self.release(output);
        } else {
            assert(self.released().skip(old(self).released().len() as int) =~= Seq::<u8>::empty());
        }
    }

    /// Ends the body. The bytes held back beyond the last `MACSIZE` are
    /// decrypted and appended to `output`; the last `MACSIZE` bytes are the
    /// tag, and the verdict is whether the MAC accepts it.
    pub fn finish(self, output: &mut Vec<u8>) -> (verdict: bool)
        requires
            self.wf(),
            self.received().len() <= u64::MAX,
        ensures
            verdict == opened_verdict(self.mackey(), self.header(), self.received()),
            final(output)@ == old(output)@ + opened_payload(
                self.skey(),
                self.iv(),
                self.received(),
            ).skip(self.released().len() as int),
    {
        let mut this = self;
        this.release(output);
        assert(this.buffer@ =~= body_tag(this.received@));
        assert(this.received@.take(this.received@.len() - MACSIZE) =~= body_ciphertext(
            this.received@,
        ));
        let verdict = mac_verify(this.hmac, this.buffer.as_slice());
        verdict
    }
}

/// Whether one of the first four bytes of a stream is not the byte that
/// the prelude has in its place. A stream of fewer than four bytes that
/// agrees with the prelude as far as it goes mismatches nothing.
pub open spec fn prelude_mismatch(s: Seq<u8>) -> bool {
    if s.len() >= 4 {
        s.take(4) != PRELUDE@
    } else {
        s != PRELUDE@.take(s.len() as int)
    }
}

/// What the start of a stream says: the metadata it carries and the length
/// of its head, or the failure that it deserves.
///
/// A stream in which one of the first four bytes differs from the prelude
/// is `NotIRMASEAL`. One that ends before its head does, that announces
/// more metadata than `MAX_METADATA_SIZE`, or whose metadata does not
/// decode, is a `FormatViolation`.
pub open spec fn stream_head(s: Seq<u8>) -> Result<(MetadataView, nat), Error> {
    if prelude_mismatch(s) {
        Err(Error::NotIRMASEAL)
    } else if s.len() < 6 {
        Err(Error::FormatViolation)
    } else {
        let n = from_be16(s.subrange(4, 6)) as int;
        if n > MAX_METADATA_SIZE || s.len() < 6 + n {
            Err(Error::FormatViolation)
        } else {
            match metadata_unwire(s.subrange(6, 6 + n)) {
                None => Err(Error::FormatViolation),
                Some(v) => Ok((v, (6 + n) as nat)),
            }
        }
    }
}

/// A stream that begins with the head of a record carries that record,
/// whatever follows the head.
pub proof fn lemma_stream_head_of_header(v: MetadataView, body: Seq<u8>)
    requires
        metadata_valid(v),
    ensures
        stream_head(header_wire(metadata_wire(v)) + body) == Ok::<(MetadataView, nat), Error>(
            (v, header_wire(metadata_wire(v)).len()),
        ),
{
    let m = metadata_wire(v);
    let h = header_wire(m);
    let s = h + body;
    lemma_metadata_wire_shape(v);
    lemma_be16_roundtrip(m.len() as u16);
    lemma_metadata_unwire_wire(v);
    assert(s.take(4) =~= PRELUDE@);
    assert(s.subrange(4, 6) =~= crate::bytes::be16(m.len() as u16));
    assert(s.subrange(6, 6 + m.len() as int) =~= m);
}

/// A stream in which one of the first four bytes differs from the prelude
/// is never opened: it is `NotIRMASEAL`, whatever follows.
pub proof fn lemma_header_rejection(s: Seq<u8>)
    requires
        prelude_mismatch(s),
    ensures
        stream_head(s) == Err::<(MetadataView, nat), Error>(Error::NotIRMASEAL),
{
}

/// A stream that announces more metadata than `MAX_METADATA_SIZE` is a
/// `FormatViolation`, whatever its metadata are.
pub proof fn lemma_length_bound(s: Seq<u8>)
    requires
        s.len() >= 6,
        s.take(4) == PRELUDE@,
        from_be16(s.subrange(4, 6)) > MAX_METADATA_SIZE,
    ensures
        stream_head(s) == Err::<(MetadataView, nat), Error>(Error::FormatViolation),
{
}

/// A stream that is cut off inside its head is never opened: it is a
/// `FormatViolation`, wherever the cut falls.
pub proof fn lemma_truncated_head(v: MetadataView, body: Seq<u8>, k: int)
    requires
        metadata_valid(v),
        0 <= k < header_wire(metadata_wire(v)).len(),
    ensures
        stream_head((header_wire(metadata_wire(v)) + body).take(k)) == Err::<
            (MetadataView, nat),
            Error,
        >(Error::FormatViolation),
{
    let m = metadata_wire(v);
    let h = header_wire(m);
    let t = (h + body).take(k);
    lemma_metadata_wire_shape(v);
    lemma_be16_roundtrip(m.len() as u16);
    if k >= 4 {
        assert(t.take(4) =~= PRELUDE@);
    } else {
        assert(t =~= PRELUDE@.take(k));
    }
    if k >= 6 {
        assert(t.subrange(4, 6) =~= crate::bytes::be16(m.len() as u16));
    }
}

/// What was sealed opens again: a stream made of the head of a record and
/// of the sealed body of a plaintext carries that record, and its body
/// opens to that plaintext with a `true` verdict, where both sides use the
/// same keys.
pub proof fn lemma_sealed_stream_roundtrip(
    v: MetadataView,
    skey: Seq<u8>,
    mackey: Seq<u8>,
    plaintext: Seq<u8>,
)
    requires
        metadata_valid(v),
    ensures
        ({
            let header = header_wire(metadata_wire(v));
            let stream = header + crate::stream::sealed_body(
                skey,
                v.iv,
                mackey,
                header,
                plaintext,
            );
            let body = stream.skip(header.len() as int);
            &&& stream_head(stream) == Ok::<(MetadataView, nat), Error>((v, header.len()))
            &&& body.len() == plaintext.len() + MACSIZE
            &&& opened_payload(skey, v.iv, body) == plaintext
            &&& opened_verdict(mackey, header, body)
        }),
{
    let header = header_wire(metadata_wire(v));
    let sealed = crate::stream::sealed_body(skey, v.iv, mackey, header, plaintext);
    lemma_stream_head_of_header(v, sealed);
    crate::stream::lemma_seal_open_roundtrip(skey, v.iv, mackey, header, plaintext);
    assert((header + sealed).skip(header.len() as int) =~= sealed);
}

/// What the first bytes of a stream say of its prelude. `first` holds the
/// first four bytes, or all bytes of a stream that has fewer.
///
/// The result is `NotIRMASEAL` exactly when one of these bytes differs from
/// the prelude, and `FormatViolation` exactly when they agree with it but
/// are fewer than four.
pub fn check_prelude(first: &[u8]) -> (r: Result<(), Error>)
    ensures
        r == (if prelude_mismatch(first@) {
            Err::<(), Error>(Error::NotIRMASEAL)
        } else if first@.len() < 4 {
            Err::<(), Error>(Error::FormatViolation)
        } else {
            Ok::<(), Error>(())
        }),
{
    let n = if first.len() < 4 {
        first.len()
    } else {
        4
    };
    let present = slice_subrange(first, 0, n);
    let expected = slice_subrange(PRELUDE.as_slice(), 0, n);
    proof {
        if n < 4 {
            assert(present@ =~= first@);
            assert(expected@ =~= PRELUDE@.take(first@.len() as int));
        } else {
            assert(present@ =~= first@.take(4));
            assert(expected@ =~= PRELUDE@);
        }
    }
    if !same_bytes(present, expected) {
        Err(Error::NotIRMASEAL)
    } else if n < 4 {
        Err(Error::FormatViolation)
    } else {
        Ok(())
    }
}

/// The length of the metadata that the two bytes behind the prelude
/// announce. Fails with `FormatViolation` exactly when it is more than
/// `MAX_METADATA_SIZE`.
pub fn metadata_length(announced: &[u8; 2]) -> (r: Result<usize, Error>)
    ensures
        match r {
            Ok(n) => n == from_be16(announced@) && n <= MAX_METADATA_SIZE,
            Err(e) => from_be16(announced@) > MAX_METADATA_SIZE && e == Error::FormatViolation,
        },
{
    let n = (((announced[0] as u16) << 8) | (announced[1] as u16)) as usize;
    if n > MAX_METADATA_SIZE {
        Err(Error::FormatViolation)
    } else {
        Ok(n)
    }
}

/// Recovers the shared secret that the IBE ciphertext of a stream
/// encapsulates. The ciphertext is parsed in constant time; `None` is
/// returned exactly when the bytes encode no ciphertext.
pub fn recover_secret(
    usk: &ibe::kiltz_vahlis_one::UserSecretKey,
    ciphertext: &[u8; CIPHERTEXT_SIZE],
) -> (r: Option<[u8; SECRET_SIZE]>)
    ensures
        match ciphertext_of(ciphertext@) {
            None => r is None,
            Some(c) => r == Some(kv1_shared_secret(*usk, c)),
        },
{
    match open_ct(ciphertext_from_bytes(ciphertext)) {
        Some(c) => Some(kv1_decrypt(usk, &c)),
        None => None,
    }
}

/// Opener of a sealed bytestream. It has read the head of the stream and
/// knows the identity for which the stream is sealed, so that the user
/// secret key of that identity can be looked up before the body is opened.
pub struct OpenerSealed<R: Readable> {
    input_reader: R,
    metadata_buf: Vec<u8>,
    ciphertext: [u8; CIPHERTEXT_SIZE],
    iv: [u8; IVSIZE],
}

impl<R: Readable> OpenerSealed<R> {
    /// The head of the stream, as it was read.
    pub closed spec fn header(&self) -> Seq<u8> {
        self.metadata_buf@
    }

    /// The body of the stream, which is still to be read.
    pub closed spec fn body(&self) -> Seq<u8> {
        self.input_reader.remaining()
    }

    /// The IBE ciphertext from the metadata.
    pub closed spec fn ciphertext(&self) -> Seq<u8> {
        self.ciphertext@
    }

    /// The initialisation vector from the metadata.
    pub closed spec fn iv(&self) -> Seq<u8> {
        self.iv@
    }

    /// Starts interpreting a bytestream as a sealed stream: reads its head
    /// and yields the metadata, with the identity for which the stream is
    /// sealed, and the opener of the body.
    pub fn new(r: R) -> (res: Result<(Metadata, Self), Error>)
        ensures
            match stream_head(r.remaining()) {
                Ok((v, n)) => {
                    &&& res matches Ok((m, o))
                    &&& m@ == v
                    &&& o.header() == r.remaining().take(n as int)
                    &&& o.body() == r.remaining().skip(n as int)
                    &&& o.ciphertext() == v.ciphertext
                    &&& o.iv() == v.iv
                },
                Err(e) => res matches Err(f) && f == e,
            },
    {
        let mut reader = r;
        let ghost s = r.remaining();
        let mut header: Vec<u8> = Vec::new();
        let whole = read_exact(&mut reader, 4, &mut header);
        proof {
            if whole {
                assert(header@ =~= s.take(4));
                assert(header@.take(4) =~= s.take(4));
            } else {
                assert(header@ =~= s);
            }
        }
        match check_prelude(header.as_slice()) {
            Ok(_) => {},
            Err(e) => {
                return Err(e);
            },
        }
        assert(header@ =~= s.take(4));
        if !read_exact(&mut reader, 2, &mut header) {
            return Err(Error::FormatViolation);
        }
        assert(header@ =~= s.take(6));
        assert(s.subrange(4, 6) =~= header@.subrange(4, 6));
        let meta_len = match metadata_length(&array_from::<2>(header.as_slice(), 4)) {
            Ok(n) => n,
            Err(e) => {
                return Err(e);
            },
        };
        assert(reader.remaining() =~= s.skip(6));
        if !read_exact(&mut reader, meta_len, &mut header) {
            return Err(Error::FormatViolation);
        }
        assert(header@ =~= s.take(6 + meta_len));
        assert(reader.remaining() =~= s.skip(6 + meta_len));
        assert(header@.subrange(6, 6 + meta_len) =~= s.subrange(6, 6 + meta_len));
        let metadata = match Metadata::decode(slice_subrange(header.as_slice(), 6, 6 + meta_len)) {
            Ok(metadata) => metadata,
            Err(e) => {
                return Err(e);
            },
        };
        let opener = OpenerSealed {
            input_reader: reader,
            metadata_buf: header,
            ciphertext: metadata.ciphertext,
            iv: metadata.iv,
        };
        Ok((metadata, opener))
    }

    /// Unseals the body of the stream and writes the plaintext to `output`.
    ///
    /// Fails with `FormatViolation` when the IBE ciphertext in the metadata
    /// is rejected, or when the body is shorter than a MAC tag, and nothing
    /// has then been written to `output`; fails with
    /// `WriteError` when `output` has no room for the plaintext. Otherwise
    /// the result is the verdict of the MAC: a `false` verdict is no
    /// error, and the plaintext is then not to be trusted.
    pub fn unseal<W: Writable>(
        self,
        usk: &ibe::kiltz_vahlis_one::UserSecretKey,
        output: &mut W,
    ) -> (res: Result<bool, Error>)
        requires
            self.body().len() <= u64::MAX,
        ensures
            match ciphertext_of(self.ciphertext()) {
                None => {
                    &&& res == Err::<bool, Error>(Error::FormatViolation)
                    &&& final(output).written() == old(output).written()
                    &&& final(output).room() == old(output).room()
                },
                Some(c) => {
                    let secret = kv1_shared_secret(*usk, c)@;
                    if self.body().len() < MACSIZE {
                        &&& res == Err::<bool, Error>(Error::FormatViolation)
                        &&& final(output).written() == old(output).written()
                        &&& final(output).room() == old(output).room()
                    } else if self.body().len() - MACSIZE > old(output).room() {
                        res == Err::<bool, Error>(
                            Error::WriteError(LegacyError::UpstreamWritableError),
                        )
                    } else {
                        &&& res == Ok::<bool, Error>(
                            opened_verdict(derived_mackey(secret), self.header(), self.body()),
                        )
                        &&& final(output).written() == old(output).written() + opened_payload(
                            derived_skey(secret),
                            self.iv(),
                            self.body(),
                        )
                        &&& final(output).room() == old(output).room() - (self.body().len()
                            - MACSIZE)
                    }
                },
            },
    {
        let secret = match recover_secret(usk, &self.ciphertext) {
            Some(secret) => secret,
            None => {
                return Err(Error::FormatViolation);
            },
        };
        let ghost c = ciphertext_of(self.ciphertext@)->Some_0;
        let ghost body = self.body();
        let ghost skey = derived_skey(secret@);
        let ghost iv = self.iv@;
        let mut reader = self.input_reader;
        let mut first: Vec<u8> = Vec::new();
        if !read_exact(&mut reader, MACSIZE, &mut first) {
            return Err(Error::FormatViolation);
        }
        assert(first@ =~= body.take(MACSIZE as int));
        let first = array_from::<MACSIZE>(first.as_slice(), 0);
        let mut opener = ChunkOpener::start(self.metadata_buf.as_slice(), &secret, &self.iv, &first);
        let mut plain: Vec<u8> = Vec::with_capacity(BLOCKSIZE + MACSIZE);
        let mut done = false;
        proof {
            assert(opener.received() + reader.remaining() =~= body);
            assert(opener.released() =~= Seq::<u8>::empty());
            assert(output.written() + opener.released() =~= output.written());
        }
        while !done
            invariant
                ciphertext_of(self.ciphertext()) == Some(c),
                secret == kv1_shared_secret(*usk, c),
                body == self.body(),
                MACSIZE <= body.len() <= u64::MAX,
                opener.wf(),
                opener.skey() == skey,
                opener.iv() == iv,
                opener.mackey() == derived_mackey(secret@),
                opener.header() == self.header(),
                opener.received() + reader.remaining() == body,
                done ==> reader.remaining().len() == 0,
                output.written() == old(output).written() + opener.released(),
                output.room() == old(output).room() - opener.released().len(),
                opener.released().len() <= old(output).room(),
            decreases reader.remaining().len(), (if done { 0int } else { 1int }),
        {
            let ghost released = opener.released();
            let ghost received = opener.received();
            proof {
                opener.lemma_pending_bounds();
            }
            let n = opener.room();
            match reader.read_bytes(n) {
                Err(_) => {
                    done = true;
                },
                Ok(chunk) => {
                    plain.clear();
                    opener.push(chunk, &mut plain);
                    proof {
                        opener.lemma_pending_bounds();
                        assert(opener.released().take(released.len() as int) =~= released);
                        assert(released + opener.released().skip(released.len() as int)
                            =~= opener.released());
                        assert(received + chunk@ + reader.remaining() =~= body);
                    }
                    match output.write(plain.as_slice()) {
                        Ok(_) => {},
                        Err(e) => {
                            proof {
                                assert(opener.released().len() == opener.received().len()
                                    - opener.pending());
                                assert((opener.received() + reader.remaining()).len()
                                    == body.len());
                                assert(plain@.len() == opener.released().len() - released.len());
                            }
                            return Err(Error::WriteError(e));
                        },
                    }
                },
            }
        }
        let ghost released = opener.released();
        proof {
            opener.lemma_pending_bounds();
            assert(opener.received() =~= body);
            let payload = opened_payload(skey, iv, body);
            assert(payload.take(released.len() as int) =~= released);
            assert(released + payload.skip(released.len() as int) =~= payload);
        }
        plain.clear();
        let verdict = opener.finish(&mut plain);
        match output.write(plain.as_slice()) {
            Ok(_) => Ok(verdict),
            Err(e) => Err(Error::WriteError(e)),
        }
    }
}

} // verus!

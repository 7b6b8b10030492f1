use crate::identity::Identity;
use crate::metadata::{
    metadata_wire, Metadata, MetadataView, Version, CIPHERTEXT_SIZE, IVSIZE, MACSIZE,
    SECRET_SIZE,
};
use crate::primitives::{hmac_sha3_256, mac_absorbed, mac_finalize, mac_key, mac_new, mac_update, Verifier};
use crate::stream::util::{derive_keys, derived_mackey, derived_skey};
use crate::stream::{header_wire, keystream_xor, lemma_keystream_xor_concat, SymCrypt, PRELUDE};
use crate::bytes::append;
use crate::primitives::kv1_encrypt;
use crate::stream::util::generate_iv;
use crate::stream::BLOCKSIZE;
use crate::{Error, LegacyError, Readable, Writable};
use vstd::prelude::*;

verus! {

/// The write side of a sealed stream, as a state machine that is fed the
/// plaintext block by block. It holds no sink: the caller sends what the
/// machine hands out.
pub struct ChunkSealer {
    aes: SymCrypt,
    hmac: Verifier,
    header: Ghost<Seq<u8>>,
    plaintext: Ghost<Seq<u8>>,
}

impl ChunkSealer {
    /// The cipher has used as much keystream as there is plaintext, and the
    /// MAC has absorbed the head and all ciphertext.
    pub closed spec fn wf(&self) -> bool {
        &&& self.aes.position() == self.plaintext@.len()
        &&& mac_absorbed(self.hmac) == self.header@ + self.sealed()
    }

    /// The symmetric key.
    pub closed spec fn skey(&self) -> Seq<u8> {
        self.aes.key()
    }

    /// The initialisation vector.
    pub closed spec fn iv(&self) -> Seq<u8> {
        self.aes.iv()
    }

    /// The MAC key.
    pub closed spec fn mackey(&self) -> Seq<u8> {
        mac_key(self.hmac)
    }

    /// The head of the stream.
    pub closed spec fn header(&self) -> Seq<u8> {
        self.header@
    }

    /// All plaintext sealed so far.
    pub closed spec fn plaintext(&self) -> Seq<u8> {
        self.plaintext@
    }

    /// All ciphertext handed out so far.
    pub open spec fn sealed(&self) -> Seq<u8> {
        keystream_xor(self.skey(), self.iv(), 0, self.plaintext())
    }

    /// Starts a stream for `identity` from an encapsulated shared secret and
    /// an initialisation vector. Returns the machine and the head of the
    /// stream, which the MAC has absorbed.
    pub fn start(
        identity: &Identity,
        ciphertext: &[u8; CIPHERTEXT_SIZE],
        secret: &[u8; SECRET_SIZE],
        iv: &[u8; IVSIZE],
    ) -> (r: (ChunkSealer, Vec<u8>))
        ensures
            r.0.wf(),
            r.0.skey() == derived_skey(secret@),
            r.0.mackey() == derived_mackey(secret@),
            r.0.iv() == iv@,
            r.0.plaintext() == Seq::<u8>::empty(),
            r.0.header() == r.1@,
            r.1@ == header_wire(
                metadata_wire(
                    MetadataView {
                        version: Version::V1_0,
                        ciphertext: ciphertext@,
                        iv: iv@,
                        identity: identity@,
                    },
                ),
            ),
    {
        let (skey, mackey) = derive_keys(secret);
        let aes = SymCrypt::new(&skey, iv);
        let mut hmac = mac_new(&mackey);
        let metadata = Metadata::new(Version::V1_0, ciphertext, iv, identity);
        let meta_bytes = metadata.encode();
        let meta_len = meta_bytes.len() as u16;
        let mut header: Vec<u8> = Vec::new();
        append(&mut header, PRELUDE.as_slice());
        header.push((meta_len >> 8) as u8);
        header.push((meta_len & 0xff) as u8);
        append(&mut header, meta_bytes.as_slice());
        assert(header@ =~= header_wire(meta_bytes@));
        mac_update(&mut hmac, header.as_slice());
        let sealer = ChunkSealer {
            aes,
            hmac,
            header: Ghost(header@),
            plaintext: Ghost(Seq::empty()),
        };
        assert(sealer.sealed() =~= Seq::<u8>::empty());
        assert(mac_absorbed(sealer.hmac) =~= sealer.header@ + sealer.sealed());
        (sealer, header)
    }

    /// Encrypts `block` in place and lets the MAC absorb the ciphertext.
    pub fn seal_block(&mut self, block: &mut [u8])
        requires
            old(self).wf(),
            old(self).plaintext().len() + old(block)@.len() <= u64::MAX,
        ensures
            final(self).wf(),
            final(self).skey() == old(self).skey(),
            final(self).iv() == old(self).iv(),
            final(self).mackey() == old(self).mackey(),
            final(self).header() == old(self).header(),
            final(self).plaintext() == old(self).plaintext() + old(block)@,
            final(block)@ == keystream_xor(
                old(self).skey(),
                old(self).iv(),
                old(self).plaintext().len(),
                old(block)@,
            ),
            final(self).sealed() == old(self).sealed() + final(block)@,
    {
        proof {
            lemma_keystream_xor_concat(
                self.skey(),
                self.iv(),
                0,
                self.plaintext@,
                block@,
            );
        }
        self.aes.encrypt(block);
        mac_update(&mut self.hmac, block);
        self.plaintext = Ghost(self.plaintext@ + old(block)@);
        assert(mac_absorbed(self.hmac) =~= self.header@ + self.sealed());
    }

    /// Ends the stream: the MAC tag of the head and of all ciphertext.
    pub fn finish(self) -> (tag: [u8; MACSIZE])
        requires
            self.wf(),
        ensures
            tag == hmac_sha3_256(self.mackey(), self.header() + self.sealed()),
    {
        mac_finalize(self.hmac)
    }
}

/// The head that a stream for `identity` gets from an encapsulated secret
/// and an initialisation vector.
pub open spec fn stream_header(identity: crate::identity::IdentityView, ciphertext: Seq<u8>, iv: Seq<u8>) -> Seq<
    u8,
> {
    header_wire(
        metadata_wire(MetadataView { version: Version::V1_0, ciphertext, iv, identity }),
    )
}

/// The number of bytes in the head of a stream for `identity`.
pub open spec fn stream_header_len(identity: crate::identity::IdentityView) -> nat {
    (167 + crate::identity::identity_wire(identity).len()) as nat
}

/// Sealer for a bytestream, which converts it into a sealed bytestream and
/// writes that to a sink.
pub struct Sealer<W: Writable> {
    core: ChunkSealer,
    output_writer: W,
}

impl<W: Writable> Sealer<W> {
    /// The state machine inside is well formed.
    pub closed spec fn wf(&self) -> bool {
        self.core.wf()
    }

    /// The state of the stream: its keys, its head and the plaintext
    /// sealed so far.
    pub closed spec fn state(&self) -> ChunkSealer {
        self.core
    }

    /// The sink.
    pub closed spec fn writer(&self) -> W {
        self.output_writer
    }

    /// Whether `self` is a sealer that has just written, to the sink `w`,
    /// the head of a stream for `identity` under the keys of `secret`.
    pub open spec fn started(
        &self,
        w: W,
        identity: crate::identity::IdentityView,
        ciphertext: Seq<u8>,
        secret: Seq<u8>,
        iv: Seq<u8>,
    ) -> bool {
        &&& self.wf()
        &&& self.state().skey() == derived_skey(secret)
        &&& self.state().mackey() == derived_mackey(secret)
        &&& self.state().iv() == iv
        &&& self.state().header() == stream_header(identity, ciphertext, iv)
        &&& self.state().plaintext() == Seq::<u8>::empty()
        &&& self.writer().written() == w.written() + stream_header(identity, ciphertext, iv)
        &&& self.writer().room() == w.room() - stream_header_len(identity)
    }

    /// Starts a stream for `identity` from an encapsulated shared secret and
    /// an initialisation vector, and writes its head to `w`. Fails exactly
    /// when `w` has no room for the head.
    pub fn with_encapsulation(
        identity: &Identity,
        ciphertext: &[u8; CIPHERTEXT_SIZE],
        secret: &[u8; SECRET_SIZE],
        iv: &[u8; IVSIZE],
        w: W,
    ) -> (r: Result<Sealer<W>, Error>)
        ensures
            match r {
                Ok(s) => stream_header_len(identity@) <= w.room() && s.started(
                    w,
                    identity@,
                    ciphertext@,
                    secret@,
                    iv@,
                ),
                Err(e) => stream_header_len(identity@) > w.room() && e == Error::WriteError(
                    LegacyError::UpstreamWritableError,
                ),
            },
    {
        let mut w = w;
        let (core, header) = ChunkSealer::start(identity, ciphertext, secret, iv);
        proof {
            use_type_invariant(identity);
            crate::bytes::lemma_be16_roundtrip(0);
            assert(header@.len() == stream_header_len(identity@));
        }
        match w.write(header.as_slice()) {
            Ok(_) => Ok(Sealer { core, output_writer: w }),
            Err(e) => Err(Error::WriteError(e)),
        }
    }

    /// Starts a stream for `identity` under the public key `pk`: draws a
    /// fresh shared secret and a fresh initialisation vector, and writes
    /// the head of the stream to `w`. Fails exactly when `w` has no room
    /// for the head.
    pub fn new(
        identity: &Identity,
        pk: &ibe::kiltz_vahlis_one::PublicKey,
        rng: &mut rand::rngs::ThreadRng,
        w: W,
    ) -> (r: Result<Sealer<W>, Error>)
        ensures
            match r {
                Ok(s) => stream_header_len(identity@) <= w.room() && exists|
                    ciphertext: Seq<u8>,
                    secret: Seq<u8>,
                    iv: Seq<u8>,
                |
                    ciphertext.len() == CIPHERTEXT_SIZE && secret.len() == SECRET_SIZE && iv.len()
                        == IVSIZE && #[trigger] s.started(w, identity@, ciphertext, secret, iv),
                Err(e) => stream_header_len(identity@) > w.room() && e == Error::WriteError(
                    LegacyError::UpstreamWritableError,
                ),
            },
    {
        let derived = identity.derive();
        let (ciphertext, secret) = kv1_encrypt(pk, &derived, rng);
        let iv = generate_iv(rng);
        let r = Self::with_encapsulation(identity, &ciphertext, &secret, &iv, w);
        proof {
            if r is Ok {
                assert(r->Ok_0.started(w, identity@, ciphertext@, secret@, iv@));
            }
        }
        r
    }

    /// Seals all bytes of `r`: reads them in chunks of at most `BLOCKSIZE`
    /// bytes, encrypts each chunk and writes the ciphertext to the sink.
    /// Fails exactly when the sink has no room for the ciphertext; the
    /// sealer has then taken a part of `r`, and the stream is to be
    /// discarded.
    pub fn seal<R: Readable>(&mut self, r: R) -> (res: Result<(), Error>)
        requires
            old(self).wf(),
            old(self).state().plaintext().len() + r.remaining().len() <= u64::MAX,
        ensures
            final(self).wf(),
            final(self).state().skey() == old(self).state().skey(),
            final(self).state().iv() == old(self).state().iv(),
            final(self).state().mackey() == old(self).state().mackey(),
            final(self).state().header() == old(self).state().header(),
            match res {
                Ok(_) => {
                    &&& r.remaining().len() <= old(self).writer().room()
                    &&& final(self).state().plaintext() == old(self).state().plaintext()
                        + r.remaining()
                    &&& final(self).writer().written() == old(self).writer().written()
                        + final(self).state().sealed().skip(
                        old(self).state().plaintext().len() as int,
                    )
                    &&& final(self).writer().room() == old(self).writer().room()
                        - r.remaining().len()
                },
                Err(e) => {
                    &&& r.remaining().len() > old(self).writer().room()
                    &&& e == Error::WriteError(LegacyError::UpstreamWritableError)
                    &&& exists|n: int|
                        0 <= n <= r.remaining().len() && final(self).state().plaintext() == old(
                            self,
                        ).state().plaintext() + #[trigger] r.remaining().take(n)
                },
            },
    {
        let mut reader = r;
        let ghost all = r.remaining();
        let ghost before = self.core.plaintext().len() as int;
        let mut tmp: Vec<u8> = Vec::with_capacity(BLOCKSIZE);
        let mut done = false;
        assert(all.take(0) =~= Seq::<u8>::empty());
        assert(self.core.plaintext() + Seq::<u8>::empty() =~= self.core.plaintext());
        assert(self.core.sealed().skip(before) =~= Seq::<u8>::empty());
        assert(all.skip(0) =~= all);
        while !done
            invariant
                all == r.remaining(),
                self.core.wf(),
                self.core.skey() == old(self).core.skey(),
                self.core.iv() == old(self).core.iv(),
                self.core.mackey() == old(self).core.mackey(),
                self.core.header() == old(self).core.header(),
                before == old(self).core.plaintext().len(),
                before + all.len() <= u64::MAX,
                0 <= self.core.plaintext().len() - before <= all.len(),
                self.core.plaintext() == old(self).core.plaintext() + all.take(
                    self.core.plaintext().len() - before,
                ),
                reader.remaining() == all.skip(self.core.plaintext().len() - before),
                done ==> reader.remaining().len() == 0,
                self.output_writer.written() == old(self).output_writer.written()
                    + self.core.sealed().skip(before),
                self.output_writer.room() == old(self).output_writer.room() - (
                self.core.plaintext().len() - before),
                self.core.plaintext().len() - before <= old(self).output_writer.room(),
            decreases reader.remaining().len(), (if done { 0int } else { 1int }),
        {
            let ghost sofar = self.core.plaintext().len() - before;
            let ghost sealed_before = self.core.sealed();
            match reader.read_bytes(BLOCKSIZE) {
                Err(_) => {
                    done = true;
                },
                Ok(chunk) => {
                    tmp.clear();
                    append(&mut tmp, chunk);
                    self.core.seal_block(tmp.as_mut_slice());
                    assert(all.take(sofar) + chunk@ =~= all.take(sofar + chunk@.len()));
                    assert(old(self).core.plaintext() + all.take(sofar) + chunk@ =~= old(
                        self,
                    ).core.plaintext() + all.take(sofar + chunk@.len()));
                    assert(all.skip(sofar).skip(chunk@.len() as int) =~= all.skip(
                        sofar + chunk@.len(),
                    ));
                    match self.output_writer.write(tmp.as_slice()) {
                        Ok(_) => {
                            assert(sealed_before.skip(before) + tmp@ =~= self.core.sealed().skip(
                                before,
                            ));
                        },
                        Err(e) => {
                            return Err(Error::WriteError(e));
                        },
                    }
                },
            }
        }
        assert(all.take(all.len() as int) =~= all);
        Ok(())
    }

    /// Ends the stream: writes the MAC tag to the sink and hands the sink
    /// back. The sink then holds, behind what it held before the stream was
    /// started, the head of the stream and its body. Fails exactly when the
    /// sink has no room for the tag.
    pub fn finish(self) -> (r: Result<W, Error>)
        requires
            self.wf(),
        ensures
            match r {
                Ok(w) => {
                    &&& MACSIZE <= self.writer().room()
                    &&& w.written() == self.writer().written() + hmac_sha3_256(
                        self.state().mackey(),
                        self.state().header() + self.state().sealed(),
                    )@
                    &&& w.room() == self.writer().room() - MACSIZE
                },
                Err(e) => MACSIZE > self.writer().room() && e == Error::WriteError(
                    LegacyError::UpstreamWritableError,
                ),
            },
    {
        let mut w = self.output_writer;
        let tag = self.core.finish();
        match w.write(tag.as_slice()) {
            Ok(_) => Ok(w),
            Err(e) => Err(Error::WriteError(e)),
        }
    }
}

} // verus!

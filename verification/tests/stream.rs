use hmac::Mac;
use ibe::kiltz_vahlis_one::{extract_usk, setup, PublicKey, SecretKey};
use irmaseal_core::identity::Identity;
use irmaseal_core::metadata::{Metadata, Version};
use irmaseal_core::stream::opener::{check_prelude, metadata_length, ChunkOpener, OpenerSealed};
use irmaseal_core::stream::sealer::{ChunkSealer, Sealer};
use irmaseal_core::util::{BigBuf, SliceReader};
use irmaseal_core::{Error, LegacyError};
use rand::RngCore;
use sha3::Digest;

struct DefaultProps {
    pub i: Identity,
    pub pk: PublicKey,
    pub sk: SecretKey,
}

fn default_props() -> DefaultProps {
    let mut rng = rand::thread_rng();
    let i = Identity::new(
        1566722350,
        "pbdf.pbdf.email.email",
        Some("w.geraedts@sarif.nl"),
    )
    .unwrap();

    let (pk, sk) = setup(&mut rng);

    DefaultProps { i, pk, sk }
}

fn seal(props: &DefaultProps, content: &[u8]) -> BigBuf {
    let mut rng = rand::thread_rng();
    let DefaultProps { i, pk, sk: _ } = props;

    let mut s = Sealer::new(i, pk, &mut rng, BigBuf::new()).unwrap();
    s.seal(SliceReader::new(content)).unwrap();
    s.finish().unwrap()
}

fn try_unseal(props: &DefaultProps, buf: &[u8]) -> Result<(BigBuf, bool), Error> {
    let mut rng = rand::thread_rng();
    let DefaultProps { i, pk, sk } = props;

    let (m, o) = OpenerSealed::new(SliceReader::new(buf))?;
    let i2 = &m.identity;

    assert_eq!(&i, &i2);

    let usk = extract_usk(pk, sk, &i2.derive().0, &mut rng);
    let mut dst = BigBuf::new();
    let validated = o.unseal(&usk, &mut dst)?;

    Ok((dst, validated))
}

fn unseal(props: &DefaultProps, buf: &[u8]) -> (BigBuf, bool) {
    try_unseal(props, buf).unwrap()
}

fn seal_and_unseal(props: &DefaultProps, content: &[u8]) -> (BigBuf, bool) {
    let buf = seal(props, content);
    unseal(props, buf.as_slice())
}

fn do_test(props: &DefaultProps, content: &mut [u8]) {
    rand::thread_rng().fill_bytes(content);
    let (dst, valid) = seal_and_unseal(props, content);

    assert_eq!(&content.as_ref(), &dst.as_slice());
    assert!(valid);
}

#[test]
fn reflection_sealer_opener() {
    let props = default_props();

    do_test(&props, &mut [0u8; 0]);
    do_test(&props, &mut [0u8; 1]);
    do_test(&props, &mut [0u8; 511]);
    do_test(&props, &mut [0u8; 512]);
    do_test(&props, &mut [0u8; 1008]);
    do_test(&props, &mut [0u8; 1023]);
    do_test(&props, &mut [0u8; 60000]);
}

#[test]
fn corrupt_body() {
    let props = default_props();

    let mut content = [0u8; 60000];
    rand::thread_rng().fill_bytes(&mut content);

    let mut buf = seal(&props, &content).as_slice().to_vec();
    buf[1000] ^= 0x02;
    let (dst, valid) = unseal(&props, &buf);

    assert_ne!(&content.as_ref(), &dst.as_slice());
    assert!(!valid);
}

#[test]
fn corrupt_hmac() {
    let props = default_props();

    let mut content = [0u8; 60000];
    rand::thread_rng().fill_bytes(&mut content);

    let mut buf = seal(&props, &content).as_slice().to_vec();
    let mutation_point = buf.len() - 5;
    buf[mutation_point] ^= 0x02;
    let (dst, valid) = unseal(&props, &buf);

    assert_eq!(&content.as_ref(), &dst.as_slice());
    assert!(!valid);
}

#[test]
fn empty_payload_has_head_and_tag_only() {
    let props = default_props();
    let buf = seal(&props, &[]);
    let bytes = buf.as_slice();

    assert_eq!(&bytes[..4], &[0x14, 0x8A, 0x8E, 0xA7]);
    let meta_len = usize::from(bytes[4]) * 256 + usize::from(bytes[5]);
    // version, IBE ciphertext, IV, then timestamp, two lengths, a flag and
    // the two strings of the identity
    assert_eq!(meta_len, 1 + 144 + 16 + 8 + 1 + 21 + 1 + 1 + 19);
    assert_eq!(bytes.len(), 6 + meta_len + 32);

    let (dst, valid) = unseal(&props, bytes);
    assert_eq!(dst.len(), 0);
    assert!(valid);
}

#[test]
fn two_seals_of_one_plaintext_differ() {
    let props = default_props();
    let content = [7u8; 100];
    let a = seal(&props, &content);
    let b = seal(&props, &content);
    assert_eq!(a.len(), b.len());
    assert_ne!(a.as_slice(), b.as_slice());
    // the initialisation vectors differ, and so do the ciphertexts
    assert_ne!(&a.as_slice()[151..167], &b.as_slice()[151..167]);
    assert_ne!(&a.as_slice()[218..318], &b.as_slice()[218..318]);
}

#[test]
fn altered_iv_is_detected() {
    let props = default_props();
    let content = [3u8; 700];
    let mut buf = seal(&props, &content).as_slice().to_vec();
    buf[6 + 1 + 144 + 3] ^= 0x80;
    let (dst, valid) = unseal(&props, &buf);
    assert!(!valid);
    assert_ne!(&content[..], dst.as_slice());
}

#[test]
fn every_altered_tag_bit_is_detected() {
    let props = default_props();
    let content = [5u8; 40];
    let sealed = seal(&props, &content).as_slice().to_vec();
    for bit in 0..8 {
        let mut buf = sealed.clone();
        let at = buf.len() - 1 - bit;
        buf[at] ^= 1 << bit;
        let (dst, valid) = unseal(&props, &buf);
        assert!(!valid);
        assert_eq!(&content[..], dst.as_slice());
    }
}

#[test]
fn stream_without_prelude_is_not_irmaseal() {
    let props = default_props();
    let mut buf = seal(&props, &[1, 2, 3]).as_slice().to_vec();
    buf[2] ^= 0x01;
    assert!(matches!(
        OpenerSealed::new(SliceReader::new(&buf)),
        Err(Error::NotIRMASEAL)
    ));
    // a short stream with a byte that is not the prelude's
    assert!(matches!(
        OpenerSealed::new(SliceReader::new(&[0x14u8, 0x8A, 0x8F][..])),
        Err(Error::NotIRMASEAL)
    ));
    assert!(matches!(
        OpenerSealed::new(SliceReader::new(&[0x15u8][..])),
        Err(Error::NotIRMASEAL)
    ));
    // a mismatch decides, whatever follows
    let mut long = vec![0x14u8, 0x8A, 0x8E, 0xA6];
    long.extend_from_slice(&[0u8; 300]);
    assert!(matches!(
        OpenerSealed::new(SliceReader::new(&long)),
        Err(Error::NotIRMASEAL)
    ));
}

#[test]
fn prelude_is_judged_by_the_bytes_present() {
    assert_eq!(check_prelude(&[0x14, 0x8A, 0x8E, 0xA7]), Ok(()));
    assert_eq!(check_prelude(&[0x14, 0x8A, 0x8E, 0xA7, 0x00]), Ok(()));
    assert_eq!(check_prelude(&[0x14, 0x8A, 0x8E, 0xA8]), Err(Error::NotIRMASEAL));
    assert_eq!(check_prelude(&[0x14, 0x8A, 0x8E, 0xA8, 0xA7]), Err(Error::NotIRMASEAL));
    assert_eq!(check_prelude(&[0x14, 0x8B]), Err(Error::NotIRMASEAL));
    assert_eq!(check_prelude(&[0x00]), Err(Error::NotIRMASEAL));
    assert_eq!(check_prelude(&[0x14, 0x8A, 0x8E]), Err(Error::FormatViolation));
    assert_eq!(check_prelude(&[0x14]), Err(Error::FormatViolation));
    assert_eq!(check_prelude(&[]), Err(Error::FormatViolation));
    assert_eq!(metadata_length(&[0x20, 0x00]), Ok(8192));
    assert_eq!(metadata_length(&[0x20, 0x01]), Err(Error::FormatViolation));
    assert_eq!(metadata_length(&[0x00, 0xD4]), Ok(212));
}

#[test]
fn oversized_metadata_length_is_a_format_violation() {
    // 8193 bytes of metadata are announced
    let mut buf = vec![0x14u8, 0x8A, 0x8E, 0xA7, 0x20, 0x01];
    buf.extend_from_slice(&[0u8; 9000]);
    assert!(matches!(
        OpenerSealed::new(SliceReader::new(&buf)),
        Err(Error::FormatViolation)
    ));
    // no metadata at all
    let buf = [0x14u8, 0x8A, 0x8E, 0xA7, 0x00, 0x00, 1, 2, 3];
    assert!(matches!(
        OpenerSealed::new(SliceReader::new(&buf[..])),
        Err(Error::FormatViolation)
    ));
}

#[test]
fn truncated_head_is_a_format_violation() {
    let props = default_props();
    let buf = seal(&props, &[9u8; 10]);
    let bytes = buf.as_slice();
    // a cut inside the prelude mismatches nothing
    for k in 0..4 {
        assert!(matches!(
            OpenerSealed::new(SliceReader::new(&bytes[..k])),
            Err(Error::FormatViolation)
        ));
    }
    assert!(matches!(
        OpenerSealed::new(SliceReader::new(&bytes[..4])),
        Err(Error::FormatViolation)
    ));
    assert!(matches!(
        OpenerSealed::new(SliceReader::new(&bytes[..5])),
        Err(Error::FormatViolation)
    ));
    assert!(matches!(
        OpenerSealed::new(SliceReader::new(&bytes[..100])),
        Err(Error::FormatViolation)
    ));
    assert!(matches!(
        OpenerSealed::new(SliceReader::new(&bytes[..217])),
        Err(Error::FormatViolation)
    ));
    assert!(OpenerSealed::new(SliceReader::new(&bytes[..218])).is_ok());
}

#[test]
fn truncated_body_is_rejected() {
    let props = default_props();
    let content = [9u8; 100];
    let buf = seal(&props, &content);
    let bytes = buf.as_slice();
    assert_eq!(bytes.len(), 218 + 100 + 32);

    // fewer than a tag's worth of bytes behind the head
    assert!(matches!(
        try_unseal(&props, &bytes[..218]),
        Err(Error::FormatViolation)
    ));
    // and nothing reaches the sink
    let mut rng = rand::thread_rng();
    let (m, o) = OpenerSealed::new(SliceReader::new(&bytes[..218 + 31])).unwrap();
    let usk = extract_usk(&props.pk, &props.sk, &m.identity.derive().0, &mut rng);
    let mut dst = BigBuf::new();
    irmaseal_core::Writable::write(&mut dst, &[1, 2, 3]).unwrap();
    assert_eq!(o.unseal(&usk, &mut dst), Err(Error::FormatViolation));
    assert_eq!(dst.as_slice(), &[1u8, 2, 3][..]);
    assert!(matches!(
        try_unseal(&props, &bytes[..218 + 31]),
        Err(Error::FormatViolation)
    ));
    // enough bytes for a tag, but the tag is not theirs
    let (dst, valid) = unseal(&props, &bytes[..218 + 32]);
    assert_eq!(dst.len(), 0);
    assert!(!valid);
    let (dst, valid) = unseal(&props, &bytes[..bytes.len() - 1]);
    assert_eq!(dst.as_slice(), &content[..99]);
    assert!(!valid);
}

#[test]
fn rejected_ibe_ciphertext_is_a_format_violation() {
    let props = default_props();
    let mut rng = rand::thread_rng();
    let mut s = Sealer::with_encapsulation(
        &props.i,
        &[0xffu8; 144],
        &[1u8; 288],
        &[2u8; 16],
        BigBuf::new(),
    )
    .unwrap();
    s.seal(SliceReader::new(&[1u8, 2, 3][..])).unwrap();
    let buf = s.finish().unwrap();

    let (m, o) = OpenerSealed::new(SliceReader::new(buf.as_slice())).unwrap();
    assert_eq!(m.version, Version::V1_0);
    assert_eq!(m.ciphertext, [0xffu8; 144]);
    assert_eq!(m.iv, [2u8; 16]);
    let usk = extract_usk(&props.pk, &props.sk, &m.identity.derive().0, &mut rng);
    let mut dst = BigBuf::new();
    assert!(matches!(
        o.unseal(&usk, &mut dst),
        Err(Error::FormatViolation)
    ));
    assert_eq!(dst.len(), 0);
}

#[test]
fn full_sink_is_a_write_error() {
    let props = default_props();
    let mut rng = rand::thread_rng();

    // the head fits, the payload does not
    let mut s = Sealer::new(&props.i, &props.pk, &mut rng, BigBuf::new()).unwrap();
    let content = vec![0u8; 65536];
    assert_eq!(
        s.seal(SliceReader::new(&content)),
        Err(Error::WriteError(LegacyError::UpstreamWritableError))
    );

    // the payload fits exactly, the tag does not
    let mut s = Sealer::new(&props.i, &props.pk, &mut rng, BigBuf::new()).unwrap();
    let content = vec![0u8; 65536 - 218];
    assert_eq!(s.seal(SliceReader::new(&content)), Ok(()));
    assert!(matches!(
        s.finish(),
        Err(Error::WriteError(LegacyError::UpstreamWritableError))
    ));

    // a sink that is full already takes no head
    let mut full = BigBuf::new();
    irmaseal_core::Writable::write(&mut full, &vec![0u8; 65536 - 217]).unwrap();
    assert!(matches!(
        Sealer::new(&props.i, &props.pk, &mut rng, full),
        Err(Error::WriteError(LegacyError::UpstreamWritableError))
    ));
}

#[test]
fn opening_into_a_full_sink_is_a_write_error() {
    let props = default_props();
    let mut rng = rand::thread_rng();
    let content = [1u8; 2000];
    let buf = seal(&props, &content);

    let (m, o) = OpenerSealed::new(SliceReader::new(buf.as_slice())).unwrap();
    let usk = extract_usk(&props.pk, &props.sk, &m.identity.derive().0, &mut rng);
    let mut dst = BigBuf::new();
    irmaseal_core::Writable::write(&mut dst, &vec![0u8; 65536 - 1999]).unwrap();
    assert_eq!(
        o.unseal(&usk, &mut dst),
        Err(Error::WriteError(LegacyError::UpstreamWritableError))
    );

    let (m, o) = OpenerSealed::new(SliceReader::new(buf.as_slice())).unwrap();
    let usk = extract_usk(&props.pk, &props.sk, &m.identity.derive().0, &mut rng);
    let mut dst = BigBuf::new();
    irmaseal_core::Writable::write(&mut dst, &vec![0u8; 65536 - 2000]).unwrap();
    assert_eq!(o.unseal(&usk, &mut dst), Ok(true));
    assert_eq!(&dst.as_slice()[65536 - 2000..], &content[..]);
}

#[test]
fn chunk_machines_agree_with_the_primitives() {
    let identity = Identity::new(7, "t", None).unwrap();
    let c = [0x11u8; 144];
    let secret = [0x22u8; 288];
    let iv = [0x33u8; 16];

    let (mut sealer, header) = ChunkSealer::start(&identity, &c, &secret, &iv);
    let metadata = Metadata::new(Version::V1_0, &c, &iv, &identity).encode();
    assert_eq!(metadata.len(), 161 + 8 + 1 + 1 + 1);
    let mut expected_header = vec![0x14u8, 0x8A, 0x8E, 0xA7, 0x00, 172];
    expected_header.extend_from_slice(&metadata);
    assert_eq!(header, expected_header);

    let plaintext: Vec<u8> = (0..1500u32).map(|x| (x % 251) as u8).collect();
    let mut ciphertext = plaintext.clone();
    let (a, b) = ciphertext.split_at_mut(700);
    sealer.seal_block(a);
    sealer.seal_block(b);
    assert_ne!(ciphertext, plaintext);
    let tag = sealer.finish();

    // the keys are the halves of the digest of the secret
    let digest = sha3::Sha3_512::digest(&secret[..]);
    let mut mac = hmac::Hmac::<sha3::Sha3_256>::new_from_slice(&digest[32..]).unwrap();
    mac.update(&header);
    mac.update(&ciphertext);
    let expected_tag: [u8; 32] = mac.finalize().into_bytes().into();
    assert_eq!(tag, expected_tag);

    let mut one_shot = plaintext.clone();
    let key: [u8; 32] = digest[..32].try_into().unwrap();
    irmaseal_core::stream::SymCrypt::new(&key, &iv).encrypt(&mut one_shot);
    assert_eq!(one_shot, ciphertext);

    // open it again, in chunks of uneven sizes
    let mut body = ciphertext.clone();
    body.extend_from_slice(&tag);
    let first: [u8; 32] = body[..32].try_into().unwrap();
    let mut opener = ChunkOpener::start(&header, &secret, &iv, &first);
    let mut out = Vec::new();
    let mut at = 32;
    for size in [1usize, 30, 1, 31, 32, 33, 400, 512, 7] {
        assert!(size <= opener.room());
        opener.push(&body[at..at + size], &mut out);
        at += size;
    }
    while at < body.len() {
        let size = std::cmp::min(opener.room(), body.len() - at);
        opener.push(&body[at..at + size], &mut out);
        at += size;
    }
    assert_eq!(&out[..], &plaintext[..out.len()]);
    assert!(opener.finish(&mut out));
    assert_eq!(out, plaintext);
}

use irmaseal_core::bytes::{append, push_be64, read_be64, same_bytes};
use irmaseal_core::identity::{Identity, MAX_ATTRIBUTE_SIZE};
use irmaseal_core::metadata::{
    Metadata, Version, CIPHERTEXT_SIZE, IVSIZE, KEYSIZE, MACSIZE, MAX_ENCODED_SIZE,
};
use irmaseal_core::stream::util::derive_keys;
use irmaseal_core::stream::{SymCrypt, BLOCKSIZE, MAX_METADATA_SIZE, PRELUDE};
use irmaseal_core::util::{BigBuf, SliceReader, BIGBUF_CAPACITY};
use irmaseal_core::{Error, LegacyError, Readable, Writable};
use sha3::Digest;

fn reference_identity() -> Identity {
    Identity::new(
        1566722350,
        "pbdf.pbdf.email.email",
        Some("w.geraedts@sarif.nl"),
    )
    .unwrap()
}

#[test]
fn constants_have_their_values() {
    assert_eq!(BLOCKSIZE, 512);
    assert_eq!(MACSIZE, 32);
    assert_eq!(KEYSIZE, 32);
    assert_eq!(IVSIZE, 16);
    assert_eq!(CIPHERTEXT_SIZE, 144);
    assert_eq!(MAX_METADATA_SIZE, 8192);
    assert_eq!(PRELUDE, [0x14, 0x8A, 0x8E, 0xA7]);
    assert!(MAX_ENCODED_SIZE < MAX_METADATA_SIZE);
}

#[test]
fn slice_reader_yields_bytes_then_end() {
    let data = [1u8, 2, 3, 4, 5];
    let mut r = SliceReader::new(&data[..]);
    assert_eq!(r.read_byte().unwrap(), 1);
    assert_eq!(r.read_bytes(2).unwrap(), &[2u8, 3][..]);
    assert_eq!(r.read_bytes(0).unwrap(), &[0u8; 0][..]);
    assert_eq!(r.read_bytes(10).unwrap(), &[4u8, 5][..]);
    assert_eq!(r.read_bytes(1), Err(LegacyError::EndOfStream));
    assert_eq!(r.read_bytes(0), Err(LegacyError::EndOfStream));
    assert_eq!(r.read_byte(), Err(LegacyError::EndOfStream));
}

#[test]
fn strict_read_reports_a_short_chunk() {
    let data = [9u8, 8, 7];
    let mut r = SliceReader::new(&data[..]);
    assert_eq!(r.read_bytes_strict(2).unwrap(), &[9u8, 8][..]);
    assert_eq!(r.read_bytes_strict(2), Err(LegacyError::PrematureEndError));
    assert_eq!(r.read_bytes_strict(1), Err(LegacyError::EndOfStream));
    assert_eq!(r.read_bytes_strict(0), Err(LegacyError::EndOfStream));
}

#[test]
fn strict_read_hands_out_what_is_there() {
    let data = [1u8, 2, 3];
    let mut r = SliceReader::new(&data[..]);
    assert_eq!(r.read_bytes_strict(3), Ok(&[1u8, 2, 3][..]));
    assert_eq!(r.read_bytes_strict(1), Err(LegacyError::EndOfStream));

    let mut r = SliceReader::new(&data[..]);
    assert_eq!(r.read_bytes_strict(0), Ok(&[0u8; 0][..]));
    assert_eq!(r.read_bytes_strict(4), Err(LegacyError::PrematureEndError));
    assert_eq!(r.read_byte(), Err(LegacyError::EndOfStream));
}

#[test]
fn read_exact_gathers_or_drains() {
    let data = [1u8, 2, 3, 4, 5];
    let mut r = SliceReader::new(&data[..]);
    let mut out = vec![0u8];
    assert!(irmaseal_core::util::read_exact(&mut r, 3, &mut out));
    assert_eq!(out, [0, 1, 2, 3]);
    assert!(!irmaseal_core::util::read_exact(&mut r, 3, &mut out));
    assert_eq!(out, [0, 1, 2, 3, 4, 5]);
    assert_eq!(r.read_byte(), Err(LegacyError::EndOfStream));
}

#[test]
fn bigbuf_takes_bytes_up_to_its_capacity() {
    let mut b = BigBuf::new();
    assert_eq!(b.len(), 0);
    assert_eq!(b.write(&[1, 2, 3]), Ok(()));
    assert_eq!(b.write(&[]), Ok(()));
    assert_eq!(b.write(&[4]), Ok(()));
    assert_eq!(b.as_slice(), &[1u8, 2, 3, 4][..]);
    assert_eq!(
        b.write(&vec![0u8; BIGBUF_CAPACITY - 3]),
        Err(LegacyError::UpstreamWritableError)
    );
    assert_eq!(b.as_slice(), &[1u8, 2, 3, 4][..]);
    assert_eq!(b.write(&vec![9u8; BIGBUF_CAPACITY - 4]), Ok(()));
    assert_eq!(b.len(), BIGBUF_CAPACITY);
    assert_eq!(b.write(&[0]), Err(LegacyError::UpstreamWritableError));
    assert_eq!(b.write(&[]), Ok(()));
}

#[test]
fn byte_helpers() {
    let mut out = vec![0xAAu8];
    push_be64(&mut out, 0x0102030405060708);
    append(&mut out, &[0xBB, 0xCC]);
    assert_eq!(out, [0xAA, 1, 2, 3, 4, 5, 6, 7, 8, 0xBB, 0xCC]);
    assert_eq!(read_be64(&out, 1), 0x0102030405060708);
    assert_eq!(read_be64(&out, 3), 0x030405060708BBCC);
    assert!(same_bytes(&[1, 2], &[1, 2]));
    assert!(!same_bytes(&[1, 2], &[1, 3]));
    assert!(!same_bytes(&[1, 2], &[1, 2, 3]));
    assert!(same_bytes(&[], &[]));
}

#[test]
fn identity_has_its_canonical_encoding() {
    let id = Identity::new(0x0102030405060708, "ab", Some("xyz")).unwrap();
    assert_eq!(
        id.canonical_bytes(),
        [1, 2, 3, 4, 5, 6, 7, 8, 2, b'a', b'b', 1, 3, b'x', b'y', b'z']
    );
    let id = Identity::new(1, "", None).unwrap();
    assert_eq!(id.canonical_bytes(), [0, 0, 0, 0, 0, 0, 0, 1, 0, 0]);
    let id = Identity::new(u64::MAX, "é", Some("")).unwrap();
    assert_eq!(
        id.canonical_bytes(),
        [255, 255, 255, 255, 255, 255, 255, 255, 2, 0xC3, 0xA9, 1, 0]
    );

    let id = reference_identity();
    assert_eq!(id.timestamp(), 1566722350);
    assert_eq!(id.attribute_type(), "pbdf.pbdf.email.email");
    assert_eq!(id.attribute_value(), Some("w.geraedts@sarif.nl"));
    let bytes = id.canonical_bytes();
    assert_eq!(bytes.len(), 51);
    assert_eq!(&bytes[..8], &1566722350u64.to_be_bytes());
    assert_eq!(id.clone(), id);
}

#[test]
fn identity_decodes_what_it_encodes() {
    for id in [
        reference_identity(),
        Identity::new(0, "", None).unwrap(),
        Identity::new(5, "type", Some("")).unwrap(),
        Identity::new(u64::MAX, &"x".repeat(255), Some(&"y".repeat(255))).unwrap(),
    ] {
        let bytes = id.canonical_bytes();
        let back = Identity::decode(&bytes).unwrap();
        assert_eq!(back, id);
        assert_eq!(back.canonical_bytes(), bytes);
    }
}

#[test]
fn identity_attributes_are_bounded() {
    assert_eq!(MAX_ATTRIBUTE_SIZE, 255);
    assert!(Identity::new(0, &"x".repeat(255), None).is_ok());
    assert_eq!(
        Identity::new(0, &"x".repeat(256), None),
        Err(Error::ConstraintViolation)
    );
    assert_eq!(
        Identity::new(0, "t", Some(&"x".repeat(256))),
        Err(Error::ConstraintViolation)
    );
    // the bound counts bytes, not characters
    assert_eq!(
        Identity::new(0, &"é".repeat(128), None),
        Err(Error::ConstraintViolation)
    );
}

#[test]
fn malformed_identities_are_format_violations() {
    let good = [1u8, 2, 3, 4, 5, 6, 7, 8, 2, b'a', b'b', 1, 3, b'x', b'y', b'z'];
    assert!(Identity::decode(&good).is_ok());
    // cut short at every length
    for n in 0..good.len() {
        assert_eq!(Identity::decode(&good[..n]), Err(Error::FormatViolation));
    }
    // bytes behind the encoding
    let mut long = good.to_vec();
    long.push(0);
    assert_eq!(Identity::decode(&long), Err(Error::FormatViolation));
    // a flag that is neither 0 nor 1
    let mut bad = good;
    bad[11] = 2;
    assert_eq!(Identity::decode(&bad), Err(Error::FormatViolation));
    // a clear flag with a value behind it
    let mut bad = good;
    bad[11] = 0;
    assert_eq!(Identity::decode(&bad), Err(Error::FormatViolation));
    // strings that are not UTF-8
    let mut bad = good;
    bad[9] = 0xFF;
    assert_eq!(Identity::decode(&bad), Err(Error::FormatViolation));
    let mut bad = good;
    bad[15] = 0xC3;
    assert_eq!(Identity::decode(&bad), Err(Error::FormatViolation));
}

#[test]
fn metadata_has_its_encoding() {
    let id = Identity::new(0x0102030405060708, "ab", Some("xyz")).unwrap();
    let m = Metadata::new(Version::V1_0, &[0xC0; 144], &[0x1F; 16], &id);
    let bytes = m.encode();
    assert_eq!(bytes.len(), 1 + 144 + 16 + 16);
    assert_eq!(bytes[0], 0);
    assert_eq!(&bytes[1..145], &[0xC0u8; 144][..]);
    assert_eq!(&bytes[145..161], &[0x1Fu8; 16][..]);
    assert_eq!(&bytes[161..], &id.canonical_bytes()[..]);

    let widest = Identity::new(0, &"x".repeat(255), Some(&"y".repeat(255))).unwrap();
    let m = Metadata::new(Version::V1_0, &[0; 144], &[0; 16], &widest);
    assert_eq!(m.encode().len(), MAX_ENCODED_SIZE);
}

#[test]
fn metadata_decodes_what_it_encodes() {
    let m = Metadata::new(Version::V1_0, &[0xC0; 144], &[0x1F; 16], &reference_identity());
    let bytes = m.encode();
    let back = Metadata::decode(&bytes).unwrap();
    assert_eq!(back, m);
    assert_eq!(back.identity, reference_identity());
    assert_eq!(back.encode(), bytes);
}

#[test]
fn malformed_metadata_are_format_violations() {
    let m = Metadata::new(Version::V1_0, &[0xC0; 144], &[0x1F; 16], &reference_identity());
    let good = m.encode();
    for n in [0, 1, 100, 160, 161, 170, good.len() - 1] {
        assert_eq!(Metadata::decode(&good[..n]), Err(Error::FormatViolation));
    }
    let mut long = good.clone();
    long.push(0);
    assert_eq!(Metadata::decode(&long), Err(Error::FormatViolation));
    let mut bad = good.clone();
    bad[0] = 1;
    assert_eq!(Metadata::decode(&bad), Err(Error::FormatViolation));
    assert_eq!(Metadata::decode(&vec![0u8; 9000]), Err(Error::FormatViolation));
}

#[test]
fn aes256_ctr_known_answer() {
    // NIST SP 800-38A, F.5.5
    let key = [
        0x60, 0x3d, 0xeb, 0x10, 0x15, 0xca, 0x71, 0xbe, 0x2b, 0x73, 0xae, 0xf0, 0x85, 0x7d, 0x77,
        0x81, 0x1f, 0x35, 0x2c, 0x07, 0x3b, 0x61, 0x08, 0xd7, 0x2d, 0x98, 0x10, 0xa3, 0x09, 0x14,
        0xdf, 0xf4,
    ];
    let iv = [
        0xf0, 0xf1, 0xf2, 0xf3, 0xf4, 0xf5, 0xf6, 0xf7, 0xf8, 0xf9, 0xfa, 0xfb, 0xfc, 0xfd, 0xfe,
        0xff,
    ];
    let plaintext = [
        0x6b, 0xc1, 0xbe, 0xe2, 0x2e, 0x40, 0x9f, 0x96, 0xe9, 0x3d, 0x7e, 0x11, 0x73, 0x93, 0x17,
        0x2a, 0xae, 0x2d, 0x8a, 0x57, 0x1e, 0x03, 0xac, 0x9c, 0x9e, 0xb7, 0x6f, 0xac, 0x45, 0xaf,
        0x8e, 0x51,
    ];
    let ciphertext = [
        0x60, 0x1e, 0xc3, 0x13, 0x77, 0x57, 0x89, 0xa5, 0xb7, 0xa7, 0xf5, 0x04, 0xbb, 0xf3, 0xd2,
        0x28, 0xf4, 0x43, 0xe3, 0xca, 0x4d, 0x62, 0xb5, 0x9a, 0xca, 0x84, 0xe9, 0x90, 0xca, 0xca,
        0xf5, 0xc5,
    ];

    let mut data = plaintext;
    SymCrypt::new(&key, &iv).encrypt(&mut data);
    assert_eq!(data, ciphertext);
    SymCrypt::new(&key, &iv).decrypt(&mut data);
    assert_eq!(data, plaintext);

    // piece by piece, across block boundaries
    let mut cipher = SymCrypt::new(&key, &iv);
    let mut data = plaintext;
    let (a, rest) = data.split_at_mut(5);
    let (b, c) = rest.split_at_mut(14);
    cipher.encrypt(a);
    cipher.encrypt(b);
    cipher.encrypt(&mut []);
    cipher.encrypt(c);
    assert_eq!(data, ciphertext);
}

#[test]
fn keys_are_the_halves_of_the_digest() {
    let secret = [0x42u8; 288];
    let (skey, mackey) = derive_keys(&secret);
    let digest = sha3::Sha3_512::digest(&secret[..]);
    assert_eq!(&skey[..], &digest[..32]);
    assert_eq!(&mackey[..], &digest[32..]);
    assert_ne!(skey, mackey);
    assert_eq!(derive_keys(&secret), (skey, mackey));
    assert_ne!(derive_keys(&[0x43u8; 288]).0, skey);
}

#[test]
fn fresh_ivs_differ() {
    let mut rng = rand::thread_rng();
    let a = irmaseal_core::stream::util::generate_iv(&mut rng);
    let b = irmaseal_core::stream::util::generate_iv(&mut rng);
    assert_ne!(a, b);
}

#[test]
fn constant_time_option_opens() {
    let mut rng = rand::thread_rng();
    let (pk, _) = ibe::kiltz_vahlis_one::setup(&mut rng);
    let id = reference_identity().derive();
    let (c, _) = ibe::kiltz_vahlis_one::encrypt(&pk, &id.0, &mut rng);
    let bytes = c.to_bytes();
    let opened =
        irmaseal_core::util::open_ct(ibe::kiltz_vahlis_one::CipherText::from_bytes(&bytes));
    assert_eq!(opened, Some(c));
    let opened = irmaseal_core::util::open_ct(ibe::kiltz_vahlis_one::CipherText::from_bytes(
        &[0xffu8; 144],
    ));
    assert_eq!(opened, None);
}

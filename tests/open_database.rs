use crypto::buffer::{ReadBuffer, WriteBuffer};
use crypto::digest::Digest;
use crypto::symmetriccipher::BlockEncryptor;
use rustpass::header::FIELDS_START;
use rustpass::kdf::composite_key;
use rustpass::payload::{constant_time_eq, strip_padding};
use rustpass::{
    decrypt, derive_master_key, maybe_inflate, verify, CompressionAlgorithm, CryptoError,
    Database, DatabaseError, FormatError, Header, HeaderTypes, IntegrityError,
};
use std::io::Write;

const AES_ID: [u8; 16] = [
    0x31, 0xC1, 0xF2, 0xE6, 0xBF, 0x71, 0x43, 0x50, 0xBE, 0x58, 0x05, 0x21, 0x6A, 0xFC, 0x5A, 0xFF,
];

fn field(code: u8, value: &[u8]) -> Vec<u8> {
    let mut out = vec![code, (value.len() % 256) as u8, (value.len() / 256) as u8];
    out.extend_from_slice(value);
    out
}

fn file_with_fields(fields: &[(u8, Vec<u8>)], major: u16) -> Vec<u8> {
    let mut out = Vec::new();
    out.extend_from_slice(&0x9AA2D903u32.to_le_bytes());
    out.extend_from_slice(&0xB54BFB67u32.to_le_bytes());
    out.extend_from_slice(&1u16.to_le_bytes());
    out.extend_from_slice(&major.to_le_bytes());
    for (code, value) in fields {
        out.extend(field(*code, value));
    }
    out.extend(field(0, &[0x0d, 0x0a, 0x0d, 0x0a]));
    out
}

fn marker() -> Vec<u8> {
    (0..32u8).map(|i| i.wrapping_mul(7).wrapping_add(3)).collect()
}

fn standard_fields(compression: u32, rounds: u64) -> Vec<(u8, Vec<u8>)> {
    vec![
        (1, b"made by hand".to_vec()),
        (2, AES_ID.to_vec()),
        (3, compression.to_le_bytes().to_vec()),
        (4, vec![0u8; 32]),
        (5, vec![1u8; 32]),
        (6, rounds.to_le_bytes().to_vec()),
        (7, vec![0x42u8; 16]),
        (8, vec![0x55u8; 32]),
        (9, marker()),
        (10, 2u32.to_le_bytes().to_vec()),
    ]
}

fn sha256(data: &[u8]) -> Vec<u8> {
    let mut hasher = crypto::sha2::Sha256::new();
    hasher.input(data);
    let mut out = [0u8; 32];
    hasher.result(&mut out);
    out.to_vec()
}

fn master_key(password: &str, master_seed: &[u8], transform_seed: &[u8], rounds: u64) -> Vec<u8> {
    let mut key = sha256(password.as_bytes());
    let aes = crypto::aessafe::AesSafe256Encryptor::new(transform_seed);
    for _ in 0..rounds {
        let mut next = [0u8; 32];
        aes.encrypt_block(&key[0..16], &mut next[0..16]);
        aes.encrypt_block(&key[16..32], &mut next[16..32]);
        key = next.to_vec();
    }
    let mut material = master_seed.to_vec();
    material.extend(key);
    sha256(&material)
}

fn cbc_encrypt(key: &[u8], iv: &[u8], plain: &[u8]) -> Vec<u8> {
    let mut enc = crypto::aes::cbc_encryptor(
        crypto::aes::KeySize::KeySize256,
        key,
        iv,
        crypto::blockmodes::PkcsPadding,
    );
    let mut out = vec![0u8; plain.len() + 32];
    let mut input = crypto::buffer::RefReadBuffer::new(plain);
    let mut output = crypto::buffer::RefWriteBuffer::new(&mut out);
    enc.encrypt(&mut input, &mut output, true).unwrap();
    output.take_read_buffer().take_remaining().to_vec()
}

fn cbc_encrypt_raw(key: &[u8], iv: &[u8], plain: &[u8]) -> Vec<u8> {
    let mut enc = crypto::aes::cbc_encryptor(
        crypto::aes::KeySize::KeySize256,
        key,
        iv,
        crypto::blockmodes::NoPadding,
    );
    let mut out = vec![0u8; plain.len()];
    let mut input = crypto::buffer::RefReadBuffer::new(plain);
    let mut output = crypto::buffer::RefWriteBuffer::new(&mut out);
    enc.encrypt(&mut input, &mut output, true).unwrap();
    output.take_read_buffer().take_remaining().to_vec()
}

fn gzip(data: &[u8]) -> Vec<u8> {
    let mut enc = flate2::write::GzEncoder::new(Vec::new(), flate2::Compression::default());
    enc.write_all(data).unwrap();
    enc.finish().unwrap()
}

/// A whole file whose payload, under `password`, is the marker and `body`.
fn fixture(password: &str, body: &[u8], compression: u32, rounds: u64) -> Vec<u8> {
    let mut data = file_with_fields(&standard_fields(compression, rounds), 3);
    let key = master_key(password, &[0u8; 32], &[1u8; 32], rounds);
    let mut plain = marker();
    if compression == 1 {
        plain.extend(gzip(body));
    } else {
        plain.extend_from_slice(body);
    }
    data.extend(cbc_encrypt(&key, &[0x42u8; 16], &plain));
    data
}

#[test]
fn end_to_end_open_with_known_parameters() {
    let data = fixture("test", b"<KeePassFile/>", 0, 1);
    let db = Database::open(&data, "test").unwrap();
    assert_eq!(db.header().transform_rounds(), Some(1));
    assert_eq!(db.payload().as_slice(), b"<KeePassFile/>");
    let wrong = Database::open(&data, "wrong").unwrap_err();
    assert!(
        wrong == DatabaseError::Crypto(CryptoError::DecryptionFailed)
            || wrong == DatabaseError::Integrity(IntegrityError::AuthenticationFailed)
    );
}

#[test]
fn gzip_payload_is_inflated() {
    let body = b"<KeePassFile><Meta/></KeePassFile>".repeat(20);
    let data = fixture("pass", &body, 1, 3);
    let db = Database::open(&data, "pass").unwrap();
    assert_eq!(db.payload(), &body);
    assert_eq!(db.header().compression(), Some(CompressionAlgorithm::Gzip));
}

#[test]
fn wrong_passwords_never_open() {
    let data = fixture("correct horse", b"secret", 0, 2);
    for p in ["", "Correct horse", "correct horse ", "wrong"] {
        let err = Database::open(&data, p).unwrap_err();
        assert!(
            err == DatabaseError::Crypto(CryptoError::DecryptionFailed)
                || err == DatabaseError::Integrity(IntegrityError::AuthenticationFailed)
        );
    }
}

#[test]
fn header_round_trip_in_any_order() {
    let fields = standard_fields(1, 6000);
    let mut reversed = fields.clone();
    reversed.reverse();
    for order in [fields, reversed] {
        let data = file_with_fields(&order, 3);
        let (h, end) = Header::parse(&data).unwrap();
        assert_eq!(end, data.len());
        assert_eq!(h.comment().unwrap().as_slice(), b"made by hand");
        assert_eq!(h.cipher_id().unwrap().as_slice(), &AES_ID);
        assert_eq!(h.compression(), Some(CompressionAlgorithm::Gzip));
        assert_eq!(h.master_seed().unwrap(), &vec![0u8; 32]);
        assert_eq!(h.transform_seed().unwrap(), &vec![1u8; 32]);
        assert_eq!(h.transform_rounds(), Some(6000));
        assert_eq!(h.encryption_iv().unwrap(), &vec![0x42u8; 16]);
        assert_eq!(h.protected_stream_key().unwrap(), &vec![0x55u8; 32]);
        assert_eq!(h.stream_start_bytes().unwrap(), &marker());
        assert_eq!(h.inner_random_stream_id(), Some(2));
        assert_eq!(h.file_version_minor(), 1);
        assert_eq!(h.file_version_major(), 3);
    }
}

#[test]
fn truncation_at_every_offset_is_an_error() {
    let data = file_with_fields(&standard_fields(0, 10), 3);
    for k in 0..data.len() {
        assert!(Header::parse(&data[..k]).is_err(), "offset {}", k);
    }
    assert_eq!(Header::parse(&data[..5]).unwrap_err(), FormatError::Truncated);
    assert_eq!(Header::parse(&data[..FIELDS_START + 1]).unwrap_err(), FormatError::Truncated);
}

#[test]
fn unknown_field_is_rejected() {
    let mut fields = standard_fields(0, 10);
    fields.insert(3, (42, vec![1, 2, 3]));
    let data = file_with_fields(&fields, 3);
    assert_eq!(Header::parse(&data).unwrap_err(), FormatError::UnknownField(42));
    assert_eq!(HeaderTypes::from_code(11), Err(FormatError::UnknownField(11)));
    assert_eq!(HeaderTypes::from_code(6), Ok(HeaderTypes::TransformRounds));
    assert_eq!(HeaderTypes::from_code(0), Ok(HeaderTypes::End));
}

#[test]
fn bad_signature_and_version() {
    let mut data = file_with_fields(&standard_fields(0, 10), 3);
    data[0] ^= 1;
    assert_eq!(Header::parse(&data).unwrap_err(), FormatError::InvalidSignature);
    let data = file_with_fields(&standard_fields(0, 10), 4);
    assert_eq!(Header::parse(&data).unwrap_err(), FormatError::UnsupportedVersion);
    let err = Database::open(&data, "x").unwrap_err();
    assert_eq!(err, DatabaseError::Format(FormatError::UnsupportedVersion));
}

#[test]
fn field_length_and_value_errors() {
    let mut fields = standard_fields(0, 10);
    fields[4] = (5, vec![1u8; 31]);
    let data = file_with_fields(&fields, 3);
    assert_eq!(Header::parse(&data).unwrap_err(), FormatError::InvalidFieldLength(5));

    let data = file_with_fields(&standard_fields(7, 10), 3);
    assert_eq!(Header::parse(&data).unwrap_err(), FormatError::InvalidFieldValue(3));

    let data = file_with_fields(&standard_fields(0, 0), 3);
    assert_eq!(Header::parse(&data).unwrap_err(), FormatError::InvalidFieldValue(6));

    let mut fields = standard_fields(0, 10);
    fields[0] = (1, Vec::new());
    let data = file_with_fields(&fields, 3);
    assert!(Header::parse(&data).unwrap().0.comment().unwrap().is_empty());
}

#[test]
fn missing_required_field() {
    let mut fields = standard_fields(0, 10);
    fields.retain(|(code, _)| *code != 7);
    let data = file_with_fields(&fields, 3);
    assert_eq!(
        Header::parse(&data).unwrap_err(),
        FormatError::MissingField(HeaderTypes::EncryptionIv)
    );
    let data = file_with_fields(&[], 3);
    assert_eq!(
        Header::parse(&data).unwrap_err(),
        FormatError::MissingField(HeaderTypes::CipherId)
    );
}

#[test]
fn kdf_is_deterministic() {
    let data = file_with_fields(&standard_fields(0, 5), 3);
    let (h, _) = Header::parse(&data).unwrap();
    let a = derive_master_key("pw", &h, 100).unwrap();
    let b = derive_master_key("pw", &h, 100).unwrap();
    assert_eq!(a, b);
    assert_eq!(a, master_key("pw", &[0u8; 32], &[1u8; 32], 5));
}

#[test]
fn kdf_round_count_changes_key() {
    let mut keys = Vec::new();
    for rounds in 1..6u64 {
        let data = file_with_fields(&standard_fields(0, rounds), 3);
        let (h, _) = Header::parse(&data).unwrap();
        keys.push(derive_master_key("pw", &h, 100).unwrap());
    }
    for i in 0..keys.len() {
        for j in (i + 1)..keys.len() {
            assert_ne!(keys[i], keys[j]);
        }
    }
}

#[test]
fn rounds_above_ceiling_are_refused() {
    let data = file_with_fields(&standard_fields(0, 1000), 3);
    let (h, _) = Header::parse(&data).unwrap();
    assert_eq!(derive_master_key("pw", &h, 999), Err(CryptoError::RoundsTooLarge));
    assert!(derive_master_key("pw", &h, 1000).is_ok());
    let err = Database::open_with_max_rounds(&data, "pw", 10).unwrap_err();
    assert_eq!(err, DatabaseError::Crypto(CryptoError::RoundsTooLarge));
}

#[test]
fn composite_key_is_sha256_of_passphrase() {
    let k = composite_key("abc");
    let expected: Vec<u8> = vec![
        0xba, 0x78, 0x16, 0xbf, 0x8f, 0x01, 0xcf, 0xea, 0x41, 0x41, 0x40, 0xde, 0x5d, 0xae, 0x22,
        0x23, 0xb0, 0x03, 0x61, 0xa3, 0x96, 0x17, 0x7a, 0x9c, 0xb4, 0x10, 0xff, 0x61, 0xf2, 0x00,
        0x15, 0xad,
    ];
    assert_eq!(k, expected);
}

#[test]
fn transform_round_is_aes256_on_each_half() {
    let mut fields = standard_fields(0, 1);
    fields[4] = (5, (0..32u8).collect());
    let data = file_with_fields(&fields, 3);
    let (h, _) = Header::parse(&data).unwrap();
    let block: Vec<u8> = vec![
        0x00, 0x11, 0x22, 0x33, 0x44, 0x55, 0x66, 0x77, 0x88, 0x99, 0xaa, 0xbb, 0xcc, 0xdd, 0xee,
        0xff,
    ];
    let expected: Vec<u8> = vec![
        0x8e, 0xa2, 0xb7, 0xca, 0x51, 0x67, 0x45, 0xbf, 0xea, 0xfc, 0x49, 0x90, 0x4b, 0x49, 0x60,
        0x89,
    ];
    let mut composite = [0u8; 32];
    composite[..16].copy_from_slice(&block);
    composite[16..].copy_from_slice(&block);
    let out = h.transformed_key(composite);
    assert_eq!(&out[..16], expected.as_slice());
    assert_eq!(&out[16..], expected.as_slice());
}

#[test]
fn decrypt_errors() {
    let key = vec![9u8; 32];
    let iv = vec![0u8; 16];
    let ct = cbc_encrypt(&key, &iv, b"hello");
    assert_eq!(decrypt(&key, &iv, &ct, &AES_ID).unwrap(), b"hello".to_vec());
    assert_eq!(decrypt(&key, &iv, &ct, &[0u8; 16]), Err(CryptoError::UnsupportedCipher));
    assert_eq!(decrypt(&key, &iv, &ct[..15], &AES_ID), Err(CryptoError::DecryptionFailed));
    let other = vec![8u8; 32];
    let r = decrypt(&other, &iv, &ct, &AES_ID);
    assert!(r.is_err() || r.unwrap() != b"hello".to_vec());
}

#[test]
fn unsupported_cipher_in_header() {
    let mut fields = standard_fields(0, 1);
    fields[1] = (2, vec![0xAAu8; 16]);
    let data = file_with_fields(&fields, 3);
    let err = Database::open(&data, "test").unwrap_err();
    assert_eq!(err, DatabaseError::Crypto(CryptoError::UnsupportedCipher));
}

#[test]
fn payload_of_partial_block_fails_decryption() {
    let mut data = fixture("test", b"abc", 0, 1);
    data.pop();
    let err = Database::open(&data, "test").unwrap_err();
    assert_eq!(err, DatabaseError::Crypto(CryptoError::DecryptionFailed));
}

#[test]
fn corrupt_gzip_payload_fails_decompression() {
    let mut data = file_with_fields(&standard_fields(1, 1), 3);
    let key = master_key("test", &[0u8; 32], &[1u8; 32], 1);
    let mut plain = marker();
    plain.extend_from_slice(b"definitely not gzip");
    data.extend(cbc_encrypt(&key, &[0x42u8; 16], &plain));
    let err = Database::open(&data, "test").unwrap_err();
    assert_eq!(err, DatabaseError::Format(FormatError::DecompressionFailed));
}

#[test]
fn compression_none_passes_bytes_through() {
    let bytes = vec![0x1fu8, 0x8b, 0, 1, 2, 255];
    assert_eq!(
        maybe_inflate(bytes.clone(), CompressionAlgorithm::Uncompressed),
        Ok(bytes)
    );
    assert_eq!(maybe_inflate(Vec::new(), CompressionAlgorithm::Uncompressed), Ok(Vec::new()));
    let packed = gzip(b"abcabcabc");
    assert_eq!(
        maybe_inflate(packed, CompressionAlgorithm::Gzip),
        Ok(b"abcabcabc".to_vec())
    );
    assert_eq!(
        maybe_inflate(vec![1, 2, 3], CompressionAlgorithm::Gzip),
        Err(FormatError::DecompressionFailed)
    );
}

#[test]
fn marker_check() {
    assert_eq!(verify(b"abcdef", b"abc"), Ok(()));
    assert_eq!(verify(b"abcdef", b"abd"), Err(IntegrityError::AuthenticationFailed));
    assert_eq!(verify(b"ab", b"abc"), Err(IntegrityError::AuthenticationFailed));
    assert_eq!(verify(b"ab", b""), Ok(()));
    assert!(constant_time_eq(b"same", b"same"));
    assert!(!constant_time_eq(b"same", b"sane"));
    assert!(!constant_time_eq(b"same", b"sam"));
}

#[test]
fn round_ceiling_is_checked_before_cipher() {
    let mut fields = standard_fields(0, 1000);
    fields[1] = (2, vec![0xAAu8; 16]);
    let data = file_with_fields(&fields, 3);
    let err = Database::open_with_max_rounds(&data, "test", 10).unwrap_err();
    assert_eq!(err, DatabaseError::Crypto(CryptoError::RoundsTooLarge));
    let err = Database::open_with_max_rounds(&data, "test", 1000).unwrap_err();
    assert_eq!(err, DatabaseError::Crypto(CryptoError::UnsupportedCipher));
}

#[test]
fn malformed_padding_is_a_decryption_failure() {
    let key = vec![9u8; 32];
    let iv = vec![0u8; 16];
    for last in [0u8, 17, 32, 255] {
        let mut plain = vec![0x41u8; 16];
        plain.extend(vec![last; 16]);
        let ct = cbc_encrypt_raw(&key, &iv, &plain);
        assert_eq!(decrypt(&key, &iv, &ct, &AES_ID), Err(CryptoError::DecryptionFailed));
    }
    let mut plain = vec![0x41u8; 13];
    plain.extend([3u8, 2, 3]);
    let ct = cbc_encrypt_raw(&key, &iv, &plain);
    assert_eq!(decrypt(&key, &iv, &ct, &AES_ID), Err(CryptoError::DecryptionFailed));
    assert_eq!(decrypt(&key, &iv, &[], &AES_ID), Err(CryptoError::DecryptionFailed));
    let mut plain = vec![0x41u8; 12];
    plain.extend([4u8; 4]);
    let ct = cbc_encrypt_raw(&key, &iv, &plain);
    assert_eq!(decrypt(&key, &iv, &ct, &AES_ID), Ok(vec![0x41u8; 12]));
}

#[test]
fn padding_removal() {
    assert_eq!(strip_padding(vec![7, 7, 1]), Ok(vec![7, 7]));
    assert_eq!(strip_padding(vec![16u8; 16]), Ok(Vec::new()));
    assert_eq!(strip_padding(vec![1, 2, 2]), Ok(vec![1]));
    assert_eq!(strip_padding(vec![1, 3, 2]), Err(CryptoError::DecryptionFailed));
    assert_eq!(strip_padding(vec![5, 0]), Err(CryptoError::DecryptionFailed));
    assert_eq!(strip_padding(vec![3, 3]), Err(CryptoError::DecryptionFailed));
    assert_eq!(strip_padding(vec![17u8; 17]), Err(CryptoError::DecryptionFailed));
    assert_eq!(strip_padding(Vec::new()), Err(CryptoError::DecryptionFailed));
}

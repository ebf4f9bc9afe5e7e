use vstd::prelude::*;
use vstd::slice::{slice_subrange, slice_to_vec};
use crate::error::{CryptoError, FormatError, IntegrityError};
use crate::header::CompressionAlgorithm;
use crate::primitives::{aes256_cbc_decrypt, aes256_cbc_decrypt_of, gunzip, gunzip_of};

verus! {

/// Block size of AES, in bytes.
pub const AES_BLOCK_SIZE: usize = 16;

/// The cipher identifier of AES-256 in CBC mode.
pub open spec fn aes256_cipher_id() -> Seq<u8> {
    seq![
        0x31u8, 0xC1u8, 0xF2u8, 0xE6u8, 0xBFu8, 0x71u8, 0x43u8, 0x50u8,
        0xBEu8, 0x58u8, 0x05u8, 0x21u8, 0x6Au8, 0xFCu8, 0x5Au8, 0xFFu8,
    ]
}

/// The PKCS#7 padding of a decrypted byte string removed: its last byte `n`
/// lies in `1..=16` and the last `n` bytes all equal `n`; `None` otherwise.
pub open spec fn pkcs7_unpad(s: Seq<u8>) -> Option<Seq<u8>> {
    if s.len() == 0 {
        None
    } else {
        let n = s.last() as int;
        if 1 <= n <= 16 && n <= s.len() && (forall|i: int|
            s.len() - n <= i < s.len() ==> #[trigger] s[i] == n) {
            Some(s.subrange(0, s.len() - n))
        } else {
            None
        }
    }
}

/// What decrypting a payload gives: the cipher must be AES-256, the
/// ciphertext a whole number of blocks, and the padding valid.
pub open spec fn decrypt_spec(key: Seq<u8>, iv: Seq<u8>, ciphertext: Seq<u8>, cipher_id: Seq<u8>) -> Result<Seq<u8>, CryptoError> {
    if cipher_id != aes256_cipher_id() {
        Err(CryptoError::UnsupportedCipher)
    } else if ciphertext.len() % 16 != 0 {
        Err(CryptoError::DecryptionFailed)
    } else {
        match aes256_cbc_decrypt_of(key, iv, ciphertext) {
            Some(p) => match pkcs7_unpad(p) {
                Some(q) => Ok(q),
                None => Err(CryptoError::DecryptionFailed),
            },
            None => Err(CryptoError::DecryptionFailed),
        }
    }
}

/// `data` begins with `prefix`.
pub open spec fn starts_with(data: Seq<u8>, prefix: Seq<u8>) -> bool {
    prefix.len() <= data.len() && data.subrange(0, prefix.len() as int) == prefix
}

/// What unpacking a payload gives under a compression flag.
pub open spec fn inflate_spec(data: Seq<u8>, flag: CompressionAlgorithm) -> Result<Seq<u8>, FormatError> {
    match flag {
        CompressionAlgorithm::Uncompressed => Ok(data),
        CompressionAlgorithm::Gzip => match gunzip_of(data) {
            Some(p) => Ok(p),
            None => Err(FormatError::DecompressionFailed),
        },
    }
}

/// Compares two byte strings, looking at every byte whatever the others hold.
pub fn constant_time_eq(a: &[u8], b: &[u8]) -> (r: bool)
    ensures
        r == (a@ == b@),
{
    if a.len() != b.len() {
        return false;
    }
    let mut same: bool = true;
    let mut i: usize = 0;
    while i < a.len()
        invariant
            a@.len() == b@.len(),
            i <= a@.len(),
            same == (forall|j: int| 0 <= j < i ==> a@[j] == b@[j]),
        decreases a@.len() - i,
    {
        let eq = a[i] == b[i];
        same = same && eq;
        i = i + 1;
    }
    if same {
        assert(a@ =~= b@);
    }
    same
}

/// Removes PKCS#7 padding; any malformed padding is a decryption failure.
pub fn strip_padding(plain: Vec<u8>) -> (r: Result<Vec<u8>, CryptoError>)
    ensures
        match pkcs7_unpad(plain@) {
            Some(q) => (r matches Ok(v) && v@ == q),
            None => r == Err::<Vec<u8>, CryptoError>(CryptoError::DecryptionFailed),
        },
{
    let len = plain.len();
    if len == 0 {
        return Err(CryptoError::DecryptionFailed);
    }
    let n = plain[len - 1] as usize;
    if n < 1 || n > 16 || n > len {
        return Err(CryptoError::DecryptionFailed);
    }
    let mut good: bool = true;
    let mut i: usize = len - n;
    while i < len
        invariant
            len == plain@.len(),
            1 <= n <= 16,
            n <= len,
            len - n <= i <= len,
            n == plain@.last() as int,
            good == (forall|j: int| len - n <= j < i ==> plain@[j] == n),
        decreases len - i,
    {
        let same = plain[i] as usize == n;
        good = good && same;
        i = i + 1;
    }
    if !good {
        return Err(CryptoError::DecryptionFailed);
    }
    Ok(slice_to_vec(slice_subrange(plain.as_slice(), 0, len - n)))
}

/// Whether `cipher_id` names the one cipher implemented, AES-256.
pub fn is_supported_cipher(cipher_id: &[u8]) -> (r: bool)
    ensures
        r == (cipher_id@ == aes256_cipher_id()),
{
    let aes_id: Vec<u8> = vec![
        0x31u8, 0xC1u8, 0xF2u8, 0xE6u8, 0xBFu8, 0x71u8, 0x43u8, 0x50u8,
        0xBEu8, 0x58u8, 0x05u8, 0x21u8, 0x6Au8, 0xFCu8, 0x5Au8, 0xFFu8,
    ];
    assert(aes_id@ == aes256_cipher_id());
    constant_time_eq(cipher_id, aes_id.as_slice())
}

/// Decrypts a payload with the cipher that `cipher_id` names.
pub fn decrypt(master_key: &[u8], iv: &[u8], ciphertext: &[u8], cipher_id: &[u8]) -> (r: Result<Vec<u8>, CryptoError>)
    requires
        master_key@.len() == 32,
        iv@.len() == 16,
    ensures
        match decrypt_spec(master_key@, iv@, ciphertext@, cipher_id@) {
            Ok(p) => (r matches Ok(v) && v@ == p),
            Err(e) => r == Err::<Vec<u8>, CryptoError>(e),
        },
{
    if !is_supported_cipher(cipher_id) {
        return Err(CryptoError::UnsupportedCipher);
    }
    if ciphertext.len() % AES_BLOCK_SIZE != 0 {
        return Err(CryptoError::DecryptionFailed);
    }
    match aes256_cbc_decrypt(master_key, iv, ciphertext) {
        Some(p) => strip_padding(p),
        None => Err(CryptoError::DecryptionFailed),
    }
}

/// Checks that the plaintext begins with the expected marker bytes.
pub fn verify(plaintext: &[u8], expected: &[u8]) -> (r: Result<(), IntegrityError>)
    ensures
        r is Ok <==> starts_with(plaintext@, expected@),
        r is Err ==> r == Err::<(), IntegrityError>(IntegrityError::AuthenticationFailed),
{
    if plaintext.len() < expected.len() {
        return Err(IntegrityError::AuthenticationFailed);
    }
    let prefix = slice_subrange(plaintext, 0, expected.len());
    if constant_time_eq(prefix, expected) {
        Ok(())
    } else {
        Err(IntegrityError::AuthenticationFailed)
    }
}

/// Inflates the bytes when the flag says they are compressed; otherwise
/// hands them back unchanged.
pub fn maybe_inflate(bytes: Vec<u8>, flag: CompressionAlgorithm) -> (r: Result<Vec<u8>, FormatError>)
    ensures
        flag == CompressionAlgorithm::Uncompressed ==> r == Ok::<Vec<u8>, FormatError>(bytes),
        match inflate_spec(bytes@, flag) {
            Ok(p) => (r matches Ok(v) && v@ == p),
            Err(e) => r == Err::<Vec<u8>, FormatError>(e),
        },
{
    match flag {
        CompressionAlgorithm::Uncompressed => Ok(bytes),
        CompressionAlgorithm::Gzip => match gunzip(bytes.as_slice()) {
            Some(p) => Ok(p),
            None => Err(FormatError::DecompressionFailed),
        },
    }
}

} // verus!

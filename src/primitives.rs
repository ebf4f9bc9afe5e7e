use vstd::prelude::*;
use crypto::buffer::{ReadBuffer, WriteBuffer};
use crypto::digest::Digest;
use crypto::symmetriccipher::BlockEncryptor;
use std::io::Read;

verus! {

/// The SHA-256 digest of a byte string.
pub uninterp spec fn sha256_of(data: Seq<u8>) -> Seq<u8>;

/// AES-256 encryption of one 16-byte block under a 32-byte key.
pub uninterp spec fn aes256_block_of(key: Seq<u8>, block: Seq<u8>) -> Seq<u8>;

/// AES-256-CBC decryption of whole blocks, with nothing stripped; `None`
/// where the decryptor reports an error.
pub uninterp spec fn aes256_cbc_decrypt_of(key: Seq<u8>, iv: Seq<u8>, ciphertext: Seq<u8>) -> Option<Seq<u8>>;

/// The bytes that a gzip stream inflates to; `None` where the stream is
/// invalid or truncated.
pub uninterp spec fn gunzip_of(data: Seq<u8>) -> Option<Seq<u8>>;

/// Relies on rust-crypto's `sha2::Sha256` (`input`, then `result`): a 32-byte
/// digest that depends on the input bytes alone.
#[verifier::external_body]
pub(crate) fn sha256(data: &[u8]) -> (r: Vec<u8>)
    ensures
        r@ == sha256_of(data@),
        r@.len() == 32,
{
    let mut hasher = crypto::sha2::Sha256::new();
    hasher.input(data);
    let mut out = [0u8; 32];
    hasher.result(&mut out);
    out.to_vec()
}

/// Relies on rust-crypto's `aessafe::AesSafe256Encryptor` (`new`, then
/// `encrypt_block`): one 16-byte block out, depending on key and block alone.
/// `new` panics unless the key has 32 bytes; the block must have 16.
#[verifier::external_body]
pub(crate) fn aes256_encrypt_block(key: &[u8], block: &[u8]) -> (r: Vec<u8>)
    requires
        key@.len() == 32,
        block@.len() == 16,
    ensures
        r@ == aes256_block_of(key@, block@),
        r@.len() == 16,
{
    let encryptor = crypto::aessafe::AesSafe256Encryptor::new(key);
    let mut out = [0u8; 16];
    encryptor.encrypt_block(block, &mut out);
    out.to_vec()
}

/// Relies on rust-crypto's `aes::cbc_decryptor` with `NoPadding`, run once
/// over the whole ciphertext with `eof` set: one plaintext block for each
/// ciphertext block, depending on key, IV and ciphertext alone. The key must
/// have 32 bytes, the IV 16, and the ciphertext a whole number of blocks.
#[verifier::external_body]
pub(crate) fn aes256_cbc_decrypt(key: &[u8], iv: &[u8], ciphertext: &[u8]) -> (r: Option<Vec<u8>>)
    requires
        key@.len() == 32,
        iv@.len() == 16,
        ciphertext@.len() % 16 == 0,
    ensures
        match r {
            Some(p) => aes256_cbc_decrypt_of(key@, iv@, ciphertext@) == Some(p@),
            None => aes256_cbc_decrypt_of(key@, iv@, ciphertext@) is None,
        },
        r matches Some(p) ==> p@.len() == ciphertext@.len(),
{
    let mut decryptor = crypto::aes::cbc_decryptor(
        crypto::aes::KeySize::KeySize256, key, iv, crypto::blockmodes::NoPadding);
    let mut out = vec![0u8; ciphertext.len()];
    let mut input = crypto::buffer::RefReadBuffer::new(ciphertext);
    let mut output = crypto::buffer::RefWriteBuffer::new(&mut out);
    match decryptor.decrypt(&mut input, &mut output, true) {
        Ok(crypto::buffer::BufferResult::BufferUnderflow) => {},
        Ok(crypto::buffer::BufferResult::BufferOverflow) => return None,
        Err(_) => return None,
    }
    let plain = output.take_read_buffer().take_remaining().to_vec();
    Some(plain)
}

/// Relies on flate2's `read::GzDecoder` read to its end: the inflated bytes,
/// or an error on invalid or truncated data, depending on the input alone.
#[verifier::external_body]
pub(crate) fn gunzip(data: &[u8]) -> (r: Option<Vec<u8>>)
    ensures
        match r {
            Some(p) => gunzip_of(data@) == Some(p@),
            None => gunzip_of(data@) is None,
        },
{
    let mut out = Vec::new();
    match flate2::read::GzDecoder::new(data).read_to_end(&mut out) {
        Ok(_) => Some(out),
        Err(_) => None,
    }
}

} // verus!

use vstd::prelude::*;
use crate::header::HeaderTypes;

verus! {

/// Ways in which the file's layout can be wrong.
#[derive(Debug, Clone, Copy, PartialEq, Eq, Structural)]
pub enum FormatError {
    /// A read needed more bytes than the buffer holds.
    Truncated,
    /// The two magic numbers at the start of the file are not the KDBX ones.
    InvalidSignature,
    /// The major version is newer than this reader understands.
    UnsupportedVersion,
    /// A header field carries a type code outside the known table.
    UnknownField(u8),
    /// A fixed-size header field has a value of the wrong length.
    InvalidFieldLength(u8),
    /// A header field decodes to a value outside its allowed set.
    InvalidFieldValue(u8),
    /// A required header field is absent; the first one missing.
    MissingField(HeaderTypes),
    /// The payload declared as compressed could not be inflated.
    DecompressionFailed,
}

/// Failures of key derivation and decryption.
#[derive(Debug, Clone, Copy, PartialEq, Eq, Structural)]
pub enum CryptoError {
    /// The header names a cipher this reader does not implement.
    UnsupportedCipher,
    /// The header asks for more key-transform rounds than allowed.
    RoundsTooLarge,
    /// The ciphertext could not be decrypted (bad length or padding).
    DecryptionFailed,
}

/// Failure of the check that the plaintext starts with the expected marker.
#[derive(Debug, Clone, Copy, PartialEq, Eq, Structural)]
pub enum IntegrityError {
    /// Wrong password, or a corrupted or forged file.
    AuthenticationFailed,
}

/// Everything that can go wrong while opening a database.
#[derive(Debug, PartialEq, Eq)]
pub enum DatabaseError {
    CantOpenFile(String),
    CantReadFile(String),
    Format(FormatError),
    Crypto(CryptoError),
    Integrity(IntegrityError),
}

} // verus!

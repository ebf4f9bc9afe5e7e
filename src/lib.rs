//! Opening of KDBX password databases: header parsing, key derivation,
//! payload decryption, integrity verification and decompression.
pub mod bytes;
pub mod database;
pub mod error;
pub mod header;
pub mod kdf;
pub mod laws;
pub mod payload;
pub mod primitives;

pub use database::Database;
pub use error::{CryptoError, DatabaseError, FormatError, IntegrityError};
pub use header::{CompressionAlgorithm, Header, HeaderTypes};
pub use kdf::{derive_master_key, DEFAULT_MAX_ROUNDS};
pub use payload::{decrypt, maybe_inflate, verify};

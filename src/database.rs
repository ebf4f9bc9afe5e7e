use vstd::prelude::*;
use vstd::slice::{slice_subrange, slice_to_vec};
use vstd::string::StringSliceAdditionalSpecFns;
use crate::error::{CryptoError, DatabaseError, IntegrityError};
use crate::header::{is_complete, parse_header, Header, HeaderModel};
use crate::kdf::{derive_master_key, header_master_key, DEFAULT_MAX_ROUNDS};
use crate::payload::{decrypt, decrypt_spec, inflate_spec, maybe_inflate, starts_with, verify};

verus! {

/// What follows the header in a file: the round count checked against the
/// ceiling, then the payload decrypted with the master key of the passphrase,
/// checked against the marker bytes, stripped of them, and inflated where the
/// header says so.
pub open spec fn payload_spec(ciphertext: Seq<u8>, h: HeaderModel, password: Seq<u8>, max_rounds: u64) -> Result<Seq<u8>, DatabaseError> {
    if h.transform_rounds->0 > max_rounds {
        Err(DatabaseError::Crypto(CryptoError::RoundsTooLarge))
    } else {
        match decrypt_spec(header_master_key(password, h), h.encryption_iv->0, ciphertext, h.cipher_id->0) {
            Err(e) => Err(DatabaseError::Crypto(e)),
            Ok(plain) => {
                let marker = h.stream_start_bytes->0;
                if !starts_with(plain, marker) {
                    Err(DatabaseError::Integrity(IntegrityError::AuthenticationFailed))
                } else {
                    match inflate_spec(plain.subrange(marker.len() as int, plain.len() as int), h.compression->0) {
                        Err(e) => Err(DatabaseError::Format(e)),
                        Ok(p) => Ok(p),
                    }
                }
            },
        }
    }
}

/// What opening a whole file gives: its header and its payload.
pub open spec fn open_spec(data: Seq<u8>, password: Seq<u8>, max_rounds: u64) -> Result<(HeaderModel, Seq<u8>), DatabaseError> {
    match parse_header(data) {
        Err(e) => Err(DatabaseError::Format(e)),
        Ok((h, end)) => match payload_spec(data.subrange(end, data.len() as int), h, password, max_rounds) {
            Err(e) => Err(e),
            Ok(p) => Ok((h, p)),
        },
    }
}

/// An opened database: its header and its decrypted, unpacked payload.
#[derive(Debug)]
pub struct Database {
    header: Header,
    payload: Vec<u8>,
}

impl View for Database {
    type V = (HeaderModel, Seq<u8>);

    closed spec fn view(&self) -> (HeaderModel, Seq<u8>) {
        (self.header@, self.payload@)
    }
}

impl Database {
    /// Opens a database held in memory, with the default ceiling on
    /// key-transform rounds.
    pub fn open(data: &[u8], password: &str) -> (r: Result<Database, DatabaseError>)
        ensures
            match open_spec(data@, password.spec_bytes(), DEFAULT_MAX_ROUNDS) {
                Ok(m) => (r matches Ok(db) && db@ == m),
                Err(e) => r == Err::<Database, DatabaseError>(e),
            },
    {
        Database::open_with_max_rounds(data, password, DEFAULT_MAX_ROUNDS)
    }

    /// Opens a database held in memory, refusing a header that asks for more
    /// than `max_rounds` key-transform rounds.
    pub fn open_with_max_rounds(data: &[u8], password: &str, max_rounds: u64) -> (r: Result<Database, DatabaseError>)
        ensures
            match open_spec(data@, password.spec_bytes(), max_rounds) {
                Ok(m) => (r matches Ok(db) && db@ == m),
                Err(e) => r == Err::<Database, DatabaseError>(e),
            },
    {
        let (header, position) = match Header::parse(data) {
            Ok(x) => x,
            Err(e) => return Err(DatabaseError::Format(e)),
        };
        let payload = match Database::get_payload(slice_subrange(data, position, data.len()), &header, password, max_rounds) {
            Ok(p) => p,
            Err(e) => return Err(e),
        };
        Ok(Database { header, payload })
    }

    /// Decrypts, checks and unpacks what follows a complete header.
    fn get_payload(encrypted_payload: &[u8], header: &Header, password: &str, max_rounds: u64) -> (r: Result<Vec<u8>, DatabaseError>)
        requires
            is_complete(header@),
        ensures
            match payload_spec(encrypted_payload@, header@, password.spec_bytes(), max_rounds) {
                Ok(p) => (r matches Ok(v) && v@ == p),
                Err(e) => r == Err::<Vec<u8>, DatabaseError>(e),
            },
    {
        let cipher_id = header.cipher_id().unwrap();
        let master_key = match derive_master_key(password, header, max_rounds) {
            Ok(k) => k,
            Err(e) => return Err(DatabaseError::Crypto(e)),
        };
        let iv = header.encryption_iv().unwrap();
        let plain = match decrypt(master_key.as_slice(), iv.as_slice(), encrypted_payload, cipher_id.as_slice()) {
            Ok(p) => p,
            Err(e) => return Err(DatabaseError::Crypto(e)),
        };
        let marker = header.stream_start_bytes().unwrap();
        match verify(plain.as_slice(), marker.as_slice()) {
            Ok(()) => {},
            Err(e) => return Err(DatabaseError::Integrity(e)),
        }
        let body = slice_to_vec(slice_subrange(plain.as_slice(), marker.len(), plain.len()));
        match maybe_inflate(body, header.compression().unwrap()) {
            Ok(p) => Ok(p),
            Err(e) => Err(DatabaseError::Format(e)),
        }
    }

    /// The parsed header.
    pub fn header(&self) -> (r: &Header)
        ensures
            r@ == self@.0,
    {
        &self.header
    }

    /// The decrypted, unpacked payload.
    pub fn payload(&self) -> (r: &Vec<u8>)
        ensures
            r@ == self@.1,
    {
        &self.payload
    }
}

} // verus!

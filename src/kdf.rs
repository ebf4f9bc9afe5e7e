use vstd::prelude::*;
use vstd::array::array_as_slice;
use vstd::slice::{slice_subrange, slice_to_vec};
use vstd::string::StringSliceAdditionalSpecFns;
use crate::error::CryptoError;
use crate::header::{is_complete, Header, HeaderModel};
use crate::primitives::{aes256_block_of, aes256_encrypt_block, sha256, sha256_of};

verus! {

/// The default ceiling on key-transform rounds accepted from a file.
pub const DEFAULT_MAX_ROUNDS: u64 = 100_000_000;

/// The composite key: the SHA-256 digest of the passphrase bytes.
pub open spec fn composite_key_of(password: Seq<u8>) -> Seq<u8> {
    sha256_of(password)
}

/// One round of the key transform: both 16-byte halves of the key encrypted
/// under the transform seed.
pub open spec fn transform_round(seed: Seq<u8>, key: Seq<u8>) -> Seq<u8> {
    aes256_block_of(seed, key.subrange(0, 16)) + aes256_block_of(seed, key.subrange(16, 32))
}

/// The key after `rounds` rounds of the transform, each fed the previous output.
pub open spec fn transform_key(seed: Seq<u8>, key: Seq<u8>, rounds: nat) -> Seq<u8>
    decreases rounds,
{
    if rounds == 0 {
        key
    } else {
        transform_round(seed, transform_key(seed, key, (rounds - 1) as nat))
    }
}

/// The master key: SHA-256 of the master seed followed by the transformed key.
pub open spec fn master_key_of(
    password: Seq<u8>,
    master_seed: Seq<u8>,
    transform_seed: Seq<u8>,
    rounds: nat,
) -> Seq<u8> {
    sha256_of(master_seed + transform_key(transform_seed, composite_key_of(password), rounds))
}

/// The master key that a header's parameters give for a passphrase.
pub open spec fn header_master_key(password: Seq<u8>, h: HeaderModel) -> Seq<u8> {
    master_key_of(
        password,
        h.master_seed->0,
        h.transform_seed->0,
        h.transform_rounds->0 as nat,
    )
}

/// The composite key of a passphrase.
pub fn composite_key(password: &str) -> (r: Vec<u8>)
    ensures
        r@ == composite_key_of(password.spec_bytes()),
        r@.len() == 32,
{
    sha256(password.as_bytes())
}

/// The 32 bytes of a slice as an array.
fn to_array(v: &[u8]) -> (r: [u8; 32])
    requires
        v@.len() == 32,
    ensures
        r@ == v@,
{
    let mut out: [u8; 32] = [0u8; 32];
    let mut j: usize = 0;
    while j < 32
        invariant
            j <= 32,
            v@.len() == 32,
            forall|k: int| 0 <= k < j ==> out@[k] == v@[k],
        decreases 32 - j,
    {
        out[j] = v[j];
        j = j + 1;
    }
    assert(out@ =~= v@);
    out
}

/// One transform round applied to a 32-byte key.
fn transform_once(seed: &[u8], key: &[u8]) -> (r: Vec<u8>)
    requires
        seed@.len() == 32,
        key@.len() == 32,
    ensures
        r@ == transform_round(seed@, key@),
        r@.len() == 32,
{
    let mut low = aes256_encrypt_block(seed, slice_subrange(key, 0, 16));
    let mut high = aes256_encrypt_block(seed, slice_subrange(key, 16, 32));
    low.append(&mut high);
    low
}

impl Header {
    /// The composite key after the number of transform rounds that the header
    /// declares, each round keyed by the header's transform seed.
    pub fn transformed_key(&self, composite_key: [u8; 32]) -> (r: [u8; 32])
        requires
            is_complete(self@),
        ensures
            r@ == transform_key(
                self@.transform_seed->0,
                composite_key@,
                self@.transform_rounds->0 as nat,
            ),
    {
        let seed = self.transform_seed().unwrap();
        let rounds = self.transform_rounds().unwrap();
        let mut key: Vec<u8> = slice_to_vec(array_as_slice(&composite_key));
        let mut i: u64 = 0;
        while i < rounds
            invariant
                i <= rounds,
                seed@ == self@.transform_seed->0,
                seed@.len() == 32,
                rounds == self@.transform_rounds->0,
                key@ == transform_key(seed@, composite_key@, i as nat),
                key@.len() == 32,
            decreases rounds - i,
        {
            key = transform_once(seed.as_slice(), key.as_slice());
            i = i + 1;
        }
        to_array(key.as_slice())
    }
}

/// The master key for a passphrase and a complete header, unless the header
/// asks for more transform rounds than `max_rounds`.
pub fn derive_master_key(password: &str, header: &Header, max_rounds: u64) -> (r: Result<
    Vec<u8>,
    CryptoError,
>)
    requires
        is_complete(header@),
    ensures
        header@.transform_rounds->0 > max_rounds ==> r == Err::<Vec<u8>, CryptoError>(
            CryptoError::RoundsTooLarge,
        ),
        header@.transform_rounds->0 <= max_rounds ==> (r matches Ok(k) && k@ == header_master_key(
            password.spec_bytes(),
            header@,
        )),
        r matches Ok(k) ==> k@.len() == 32,
{
    let rounds = header.transform_rounds().unwrap();
    if rounds > max_rounds {
        return Err(CryptoError::RoundsTooLarge);
    }
    let composite = composite_key(password);
    let transformed = header.transformed_key(to_array(composite.as_slice()));
    let mut material: Vec<u8> = header.master_seed().unwrap().clone();
    let mut tail = slice_to_vec(array_as_slice(&transformed));
    material.append(&mut tail);
    Ok(sha256(material.as_slice()))
}

} // verus!

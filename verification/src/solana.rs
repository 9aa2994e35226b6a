//! Wrappers around the chain-specific outside calls: SHA-256 hashing for
//! implicit discriminators, and the base58 text form of 32-byte public keys.
use vstd::prelude::*;

verus! {

/// The SHA-256 digest of a byte sequence; a function of the bytes alone.
pub uninterp spec fn sha256_of(data: Seq<u8>) -> Seq<u8>;

/// The base58 text form of a 32-byte public key; a function of the bytes
/// alone.
pub uninterp spec fn base58_of(data: Seq<u8>) -> Seq<char>;

/// Relies on solana_program::hash::hash, the SHA-256 hash of the input, and
/// on solana_program::hash::Hash::to_bytes: the digest is a pure function of
/// the input bytes and is 32 bytes long.
#[verifier::external_body]
pub fn hash_bytes(data: &[u8]) -> (r: Vec<u8>)
    ensures
        r@ == sha256_of(data@),
        r@.len() == 32,
{
    solana_program::hash::hash(data).to_bytes().to_vec()
}

/// Relies on the Display impl of solana_program::pubkey::Pubkey, which
/// renders the 32 key bytes in base58; a pure function of the bytes alone.
#[verifier::external_body]
pub fn pubkey_to_base58(data: &[u8]) -> (r: String)
    requires
        data@.len() == 32,
    ensures
        r@ == base58_of(data@),
{
    let mut arr = [0u8; 32];
    arr.copy_from_slice(data);
    solana_program::pubkey::Pubkey::new_from_array(arr).to_string()
}

} // verus!

use vstd::prelude::*;

verus! {

/// The SHA-256 digest of the bytes (`sha2::Sha256`).
pub uninterp spec fn sha256_of(data: Seq<u8>) -> Seq<u8>;

/// One AES-128 block encryption under the key (`aes::Aes128`).
pub uninterp spec fn aes128_block(key: Seq<u8>, block: Seq<u8>) -> Seq<u8>;

/// One AES-128 block decryption under the key (`BlockDecrypt::decrypt_block`
/// of `aes::Aes128`).
pub uninterp spec fn aes128_unblock(key: Seq<u8>, block: Seq<u8>) -> Seq<u8>;

/// The Ed25519 public key of a secret key (`SigningKey::verifying_key`).
pub uninterp spec fn ed25519_public_of(secret: Seq<u8>) -> Seq<u8>;

/// The Ed25519 signature of a message under a secret key (RFC 8032
/// signatures are deterministic: `SigningKey::sign`).
pub uninterp spec fn ed25519_signature_of(secret: Seq<u8>, msg: Seq<u8>) -> Seq<u8>;

/// `sha2::Sha256::digest`: the 32-byte digest.
#[verifier::external_body]
pub(crate) fn sha256(data: &[u8]) -> (r: Vec<u8>)
    ensures
        r@ == sha256_of(data@),
        r@.len() == 32,
{
    <sha2::Sha256 as sha2::Digest>::digest(data).to_vec()
}

/// `Aes128::new(key)` then `encrypt_block` on one 16-byte block; AES is a
/// permutation of blocks for each key, so `decrypt_block` under the same
/// key gives the block back.
#[verifier::external_body]
pub(crate) fn aes128_encrypt_block(key: &[u8; 16], block: &[u8]) -> (r: Vec<u8>)
    requires
        block@.len() == 16,
    ensures
        r@ == aes128_block(key@, block@),
        r@.len() == 16,
        aes128_unblock(key@, r@) == block@,
{
    let cipher = <aes::Aes128 as aes::cipher::KeyInit>::new(aes::cipher::generic_array::GenericArray::from_slice(key));
    let mut b = aes::cipher::generic_array::GenericArray::clone_from_slice(block);
    aes::cipher::BlockEncrypt::encrypt_block(&cipher, &mut b);
    b.to_vec()
}

/// `SigningKey::from_bytes(secret).verifying_key().to_bytes()`.
#[verifier::external_body]
pub(crate) fn ed25519_public(secret: &[u8; 32]) -> (r: [u8; 32])
    ensures
        r@ == ed25519_public_of(secret@),
{
    ed25519_dalek::SigningKey::from_bytes(secret).verifying_key().to_bytes()
}

/// `SigningKey::from_bytes(secret).sign(msg).to_bytes()`: the 64-byte signature.
#[verifier::external_body]
pub(crate) fn ed25519_sign(secret: &[u8; 32], msg: &[u8]) -> (r: Vec<u8>)
    ensures
        r@ == ed25519_signature_of(secret@, msg@),
        r@.len() == 64,
{
    let key = ed25519_dalek::SigningKey::from_bytes(secret);
    ed25519_dalek::Signer::sign(&key, msg).to_bytes().to_vec()
}

} // verus!

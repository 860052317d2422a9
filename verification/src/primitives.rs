//! The block cipher and the AEAD that the library calls, with what their
//! sources show of them.
use vstd::prelude::*;
use chacha20poly1305::aead::Aead;
use chacha20poly1305::KeyInit;
use chacha20poly1305::XChaCha20Poly1305;
use des::cipher::BlockDecrypt;
use des::cipher::BlockEncrypt;
use des::Des;
use generic_array::GenericArray;

verus! {

/// The error of the `aead` crate; it carries no data.
#[verifier::external_type_specification]
#[verifier::external_body]
pub struct ExAeadError(chacha20poly1305::aead::Error);

/// What XChaCha20-Poly1305 makes of `plaintext` under `key` and `nonce`
/// (no associated data): the encrypted text followed by the 16-byte tag.
pub uninterp spec fn xchacha_seal(key: Seq<u8>, nonce: Seq<u8>, plaintext: Seq<u8>) -> Seq<u8>;

/// What XChaCha20-Poly1305 decryption gives for `ciphertext` under `key` and
/// `nonce` (no associated data): the plaintext, or `None` where the tag does not
/// authenticate it.
pub uninterp spec fn xchacha_open(key: Seq<u8>, nonce: Seq<u8>, ciphertext: Seq<u8>) -> Option<Seq<u8>>;

/// DES encryption of one 8-byte block under an 8-byte key.
pub uninterp spec fn des_encrypt_spec(key: Seq<u8>, block: Seq<u8>) -> Seq<u8>;

/// DES decryption of one 8-byte block under an 8-byte key.
pub uninterp spec fn des_decrypt_spec(key: Seq<u8>, block: Seq<u8>) -> Seq<u8>;

/// The largest plaintext length, in 64-byte ChaCha20 blocks (exclusive), that
/// the cipher accepts before its block counter would overflow.
pub open spec fn chacha_max_blocks() -> int {
    0xFFFF_FFFF
}

/// Whether a message body of `len` bytes would run the ChaCha20 block counter
/// past its end although the length check let it through: from the block
/// after the one that keys Poly1305, `u32::MAX - 1` blocks remain, so a body
/// longer than that many 64-byte blocks but shorter than `u32::MAX` blocks
/// makes the keystream panic.
pub open spec fn chacha_counter_overflow(len: int) -> bool {
    64 * (chacha_max_blocks() - 1) < len < 64 * chacha_max_blocks()
}

/// Calls `Aead::encrypt` of `chacha20poly1305::XChaCha20Poly1305`, keyed with
/// `key`, on `plaintext` with `nonce` and no associated data.
/// Claimed, as its source shows: it fails exactly when the plaintext holds
/// `u32::MAX` or more 64-byte blocks; otherwise the ciphertext is the plaintext's
/// length plus the 16-byte tag, and decrypting it under the same key and nonce
/// gives the plaintext back.
#[verifier::external_body]
pub(crate) fn xchacha_encrypt(key: &[u8; 32], nonce: &[u8; 24], plaintext: &[u8]) -> (r: Result<Vec<u8>, chacha20poly1305::aead::Error>)
    requires
        !chacha_counter_overflow(plaintext@.len() as int),
    ensures
        (r is Ok) == (plaintext@.len() / 64 < chacha_max_blocks()),
        r matches Ok(c) ==> {
            &&& c@ == xchacha_seal(key@, nonce@, plaintext@)
            &&& c@.len() == plaintext@.len() + 16
            &&& xchacha_open(key@, nonce@, c@) == Some(plaintext@)
        },
{
    XChaCha20Poly1305::new(key.into()).encrypt(nonce.into(), plaintext)
}

/// Calls `Aead::decrypt` of `chacha20poly1305::XChaCha20Poly1305`, keyed with
/// `key`, on `ciphertext` with `nonce` and no associated data.
/// Claimed, as its source shows: the result is what `xchacha_open` names; input
/// shorter than the 16-byte tag is refused; a plaintext that comes back is 16
/// bytes shorter than the ciphertext, holds fewer than `u32::MAX` 64-byte blocks
/// (longer input is refused), and encrypting it again under the same key
/// and nonce gives the ciphertext back (the tag was verified against it).
#[verifier::external_body]
pub(crate) fn xchacha_decrypt(key: &[u8; 32], nonce: &[u8; 24], ciphertext: &[u8]) -> (r: Result<Vec<u8>, chacha20poly1305::aead::Error>)
    requires
        !chacha_counter_overflow(ciphertext@.len() - 16),
    ensures
        (r is Ok) == (xchacha_open(key@, nonce@, ciphertext@) is Some),
        r matches Ok(p) ==> {
            &&& xchacha_open(key@, nonce@, ciphertext@) == Some(p@)
            &&& p@.len() + 16 == ciphertext@.len()
            &&& p@.len() / 64 < chacha_max_blocks()
            &&& xchacha_seal(key@, nonce@, p@) == ciphertext@
        },
        ciphertext@.len() < 16 ==> r is Err,
{
    XChaCha20Poly1305::new(key.into()).decrypt(nonce.into(), ciphertext)
}

/// Calls `BlockEncrypt::encrypt_block` of `des::Des`, keyed with `key`, on one
/// 8-byte block.
/// Claimed: the result is the 8-byte block that `des_encrypt_spec` names, and DES
/// decryption under the same key turns it back into `block` (the rounds of
/// `decrypt` are those of `encrypt` in reverse order).
#[verifier::external_body]
pub(crate) fn des_encrypt_block(key: &[u8], block: &[u8]) -> (r: Vec<u8>)
    requires
        key@.len() == 8,
        block@.len() == 8,
    ensures
        r@ == des_encrypt_spec(key@, block@),
        r@.len() == 8,
        des_decrypt_spec(key@, r@) == block@,
{
    let mut b = GenericArray::clone_from_slice(block);
    Des::new(GenericArray::from_slice(key)).encrypt_block(&mut b);
    b.to_vec()
}

/// Calls `BlockDecrypt::decrypt_block` of `des::Des`, keyed with `key`, on one
/// 8-byte block.
/// Claimed: the result is the 8-byte block that `des_decrypt_spec` names, and DES
/// encryption under the same key turns it back into `block`.
#[verifier::external_body]
pub(crate) fn des_decrypt_block(key: &[u8], block: &[u8]) -> (r: Vec<u8>)
    requires
        key@.len() == 8,
        block@.len() == 8,
    ensures
        r@ == des_decrypt_spec(key@, block@),
        r@.len() == 8,
        des_encrypt_spec(key@, r@) == block@,
{
    let mut b = GenericArray::clone_from_slice(block);
    Des::new(GenericArray::from_slice(key)).decrypt_block(&mut b);
    b.to_vec()
}

} // verus!

//! The single-block cipher behind the chunk codec. The cipher itself is the
//! outside `aes` crate; its two block operations are named here and everything
//! above this module is proved against those names.
use vstd::prelude::*;

verus! {

/// AES-128 encryption of one 16-byte block under a 16-byte key, as the
/// outside cipher computes it: a function of the key and block bytes alone.
pub uninterp spec fn aes128_enc(key: Seq<u8>, block: Seq<u8>) -> Seq<u8>;

/// AES-128 decryption of one 16-byte block under a 16-byte key; the inverse
/// of `aes128_enc`.
pub uninterp spec fn aes128_dec(key: Seq<u8>, block: Seq<u8>) -> Seq<u8>;

/// Relies on `aes::Aes128`: `KeyInit::new_from_slice` accepts a 16-byte key,
/// and `BlockCipherEncrypt::encrypt_block` encrypts one 16-byte block in
/// place, a pure function of key and block which `decrypt_block` inverts.
#[verifier::external_body]
pub(crate) fn aes128_encrypt_block(key: &Vec<u8>, block: &Vec<u8>) -> (r: Vec<u8>)
    requires
        key@.len() == crate::KEY_LEN,
        block@.len() == crate::BLOCK_LEN,
    ensures
        r@.len() == crate::BLOCK_LEN,
        r@ == aes128_enc(key@, block@),
        aes128_dec(key@, r@) == block@,
{
    let cipher = <aes::Aes128 as aes::cipher::KeyInit>::new_from_slice(key.as_slice()).unwrap();
    let mut b = aes::Block::try_from(block.as_slice()).unwrap();
    aes::cipher::BlockCipherEncrypt::encrypt_block(&cipher, &mut b);
    b.as_slice().to_vec()
}

/// Relies on `aes::Aes128`: `BlockCipherDecrypt::decrypt_block` decrypts one
/// 16-byte block in place, a pure function of key and block which
/// `encrypt_block` inverts.
#[verifier::external_body]
pub(crate) fn aes128_decrypt_block(key: &Vec<u8>, block: &Vec<u8>) -> (r: Vec<u8>)
    requires
        key@.len() == crate::KEY_LEN,
        block@.len() == crate::BLOCK_LEN,
    ensures
        r@.len() == crate::BLOCK_LEN,
        r@ == aes128_dec(key@, block@),
        aes128_enc(key@, r@) == block@,
{
    let cipher = <aes::Aes128 as aes::cipher::KeyInit>::new_from_slice(key.as_slice()).unwrap();
    let mut b = aes::Block::try_from(block.as_slice()).unwrap();
    aes::cipher::BlockCipherDecrypt::decrypt_block(&cipher, &mut b);
    b.as_slice().to_vec()
}

} // verus!

//! Single-block AES-128 encryption in ECB mode, the one cryptographic
//! primitive every other component builds on.

use aes::cipher::BlockCipherEncrypt;
use aes::cipher::KeyInit;
use vstd::prelude::*;

verus! {

/// The AES-128 block function: what encrypting one 16-byte block under a
/// 16-byte key yields. The value depends on the key and block alone; it is
/// far too long to state, so it is left as a name that contracts share.
pub uninterp spec fn aes128_enc(key: Seq<u8>, block: Seq<u8>) -> Seq<u8>;

/// Encrypt a single 16-byte block with AES-128 (ECB, no padding).
///
/// Relies on the `aes` crate: `Aes128::encrypt_block` computes the AES-128
/// block function of the key and block, 16 bytes in and 16 bytes out.
#[verifier::external_body]
pub fn encrypt(key: &[u8], data: &[u8]) -> (r: [u8; 16])
    requires
        key@.len() == 16,
        data@.len() == 16,
    ensures
        r@ == aes128_enc(key@, data@),
{
    let cipher = aes::Aes128::new_from_slice(key).unwrap();
    let mut block = [0u8; 16];
    block.copy_from_slice(data);
    let mut arr = aes::cipher::Array(block);
    cipher.encrypt_block(&mut arr);
    arr.0
}

} // verus!

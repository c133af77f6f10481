use stoken::crypto::{cbc_hash, decrypt};
use stoken::encrypt;

// FIPS-197 appendix C.1: AES-128 single-block vector.
const FIPS_KEY: [u8; 16] = [
    0x00, 0x01, 0x02, 0x03, 0x04, 0x05, 0x06, 0x07, 0x08, 0x09, 0x0a, 0x0b, 0x0c, 0x0d, 0x0e,
    0x0f,
];
const FIPS_PLAIN: [u8; 16] = [
    0x00, 0x11, 0x22, 0x33, 0x44, 0x55, 0x66, 0x77, 0x88, 0x99, 0xaa, 0xbb, 0xcc, 0xdd, 0xee,
    0xff,
];
const FIPS_CIPHER: [u8; 16] = [
    0x69, 0xc4, 0xe0, 0xd8, 0x6a, 0x7b, 0x04, 0x30, 0xd8, 0xcd, 0xb7, 0x80, 0x70, 0xb4, 0xc5,
    0x5a,
];

#[test]
fn aes_known_vector() {
    let out = encrypt(&FIPS_KEY, &FIPS_PLAIN);
    assert_eq!(out, FIPS_CIPHER);
}

#[test]
fn cbc_hash_empty_data_is_iv() {
    let key = [7u8; 16];
    let iv = [0x5au8; 16];
    let out = cbc_hash(&key, &iv, &[]);
    assert_eq!(out, iv);
}

#[test]
fn cbc_hash_single_block_is_encrypted_xor() {
    let iv = [0u8; 16];
    let out = cbc_hash(&FIPS_KEY, &iv, &FIPS_PLAIN);
    // With a zero IV the single chained block is just the encrypted block.
    assert_eq!(out, FIPS_CIPHER);
}

#[test]
fn cbc_hash_append_law() {
    let key = [3u8; 16];
    let iv = [0x11u8; 16];
    let a: Vec<u8> = (0..32u8).collect();
    let b: Vec<u8> = (100..116u8).collect();
    let mut ab = a.clone();
    ab.extend_from_slice(&b);

    let prefix = cbc_hash(&key, &iv, &a);
    let mut xored = [0u8; 16];
    for i in 0..16usize {
        xored[i] = prefix[i] ^ b[i];
    }
    let expected = encrypt(&key, &xored);
    assert_eq!(cbc_hash(&key, &iv, &ab), expected);
}

#[test]
fn xor_decrypt_involution() {
    let key = [9u8; 16];
    let data = [0x42u8; 16];
    let x: Vec<u8> = (0..16u8).collect();
    let d = decrypt(&x, &data, &key);
    let e = encrypt(&key, &data);
    for i in 0..16usize {
        assert_eq!(d[i] ^ e[i], x[i]);
    }
}

#[test]
fn base64_decode_zeroes() {
    let v = stoken::b64::decode_base64("AAAA").unwrap();
    assert_eq!(v, vec![0u8, 0, 0]);
    assert!(stoken::b64::decode_base64("!!not base64!!").is_none());
}

//! Key derivation for SDTID tokens: a CBC-MAC-like chained hash built from
//! AES-ECB, the thousand-round secret hash over the header's origin, dest and
//! name fields, and the decryption steps that recover the token seed.

use vstd::prelude::*;

use crate::aes::aes128_enc;
use crate::aes::encrypt;
use crate::b64::b64_decode;
use crate::b64::decode_base64;
use crate::token::TokenError;
use crate::xml::TKNBatch;

verus! {

pub const KEY_SIZE: usize = 16;

pub const BLOCK_SIZE: usize = 16;

/// XOR `b` into `a` pointwise; where `b` is shorter, `a` is kept as it is.
pub open spec fn spec_xor(a: Seq<u8>, b: Seq<u8>) -> Seq<u8> {
    Seq::new(a.len(), |i: int| if i < b.len() { a[i] ^ b[i] } else { a[i] })
}

/// A 16-byte block of zeroes.
pub open spec fn zeros16() -> Seq<u8> {
    Seq::new(16, |i: int| 0u8)
}

/// The chained hash: starting from `iv`, XOR in each 16-byte block of `data`
/// and encrypt under `key`; the last cipher block is the hash.
pub open spec fn spec_cbc_hash(key: Seq<u8>, iv: Seq<u8>, data: Seq<u8>) -> Seq<u8>
    decreases data.len(),
{
    if data.len() < 16 {
        iv
    } else {
        spec_cbc_hash(
            key,
            aes128_enc(key, spec_xor(iv, data.subrange(0, 16))),
            data.subrange(16, data.len() as int),
        )
    }
}

/// An initialization vector for the chained hash.
pub struct IV([u8; 16]);

impl View for IV {
    type V = Seq<u8>;

    closed spec fn view(&self) -> Seq<u8> {
        self.0@
    }
}

impl IV {
    pub fn bytes(&self) -> (r: &[u8; 16])
        ensures
            r@ == self@,
    {
        &self.0
    }
}

/// The fixed IV under which the seed-decryption key is derived.
pub open spec fn spec_seed_iv() -> Seq<u8> {
    seq![
        0x16u8,
        0xa0u8,
        0x9eu8,
        0x66u8,
        0x7fu8,
        0x3bu8,
        0xccu8,
        0x90u8,
        0x8bu8,
        0x2fu8,
        0xb1u8,
        0x36u8,
        0x6eu8,
        0xa9u8,
        0x57u8,
        0xd3u8,
    ]
}

pub fn seed_iv() -> (r: IV)
    ensures
        r@ == spec_seed_iv(),
{
    let r = IV(
        [
            0x16u8,
            0xa0u8,
            0x9eu8,
            0x66u8,
            0x7fu8,
            0x3bu8,
            0xccu8,
            0x90u8,
            0x8bu8,
            0x2fu8,
            0xb1u8,
            0x36u8,
            0x6eu8,
            0xa9u8,
            0x57u8,
            0xd3u8,
        ],
    );
    assert(r@ =~= spec_seed_iv());
    r
}

/// XOR `second` into `first` in place, over the shorter of the two lengths.
pub fn xor_block(first: &mut [u8; 16], second: &[u8])
    ensures
        final(first)@ == spec_xor(old(first)@, second@),
{
    let n: usize = if second.len() < 16 {
        second.len()
    } else {
        16
    };
    let mut i: usize = 0;
    while i < n
        invariant
            n <= 16,
            n <= second@.len(),
            i <= n,
            first@.len() == 16,
            forall|j: int| 0 <= j < i ==> first@[j] == (old(first)@[j] ^ second@[j]),
            forall|j: int| i <= j < 16 ==> first@[j] == old(first)@[j],
        decreases n - i,
    {
        first[i] = first[i] ^ second[i];
        i += 1;
    }
    assert(first@ =~= spec_xor(old(first)@, second@));
}

/// Chain-encrypt `data` (a whole number of 16-byte blocks) under `key`,
/// starting from `iv`, and return the final cipher block.
pub fn cbc_hash(key: &[u8], iv: &[u8], data: &[u8]) -> (r: [u8; 16])
    requires
        key@.len() == 16,
        iv@.len() == 16,
        data@.len() % 16 == 0,
    ensures
        r@ == spec_cbc_hash(key@, iv@, data@),
{
    let mut output = [0u8; 16];
    let mut idx: usize = 0;
    while idx < 16
        invariant
            idx <= 16,
            iv@.len() == 16,
            output@.len() == 16,
            forall|j: int| 0 <= j < idx ==> output@[j] == iv@[j],
        decreases 16 - idx,
    {
        output[idx] = iv[idx];
        idx += 1;
    }
    assert(output@ =~= iv@);

    let len = data.len();
    assert(data@.subrange(0, len as int) =~= data@);
    let mut i: usize = 0;
    while i < len
        invariant
            len == data@.len(),
            i <= len,
            i % 16 == 0,
            len % 16 == 0,
            key@.len() == 16,
            output@.len() == 16,
            spec_cbc_hash(key@, output@, data@.subrange(i as int, len as int)) == spec_cbc_hash(
                key@,
                iv@,
                data@,
            ),
        decreases len - i,
    {
        let block = vstd::slice::slice_subrange(data, i, i + 16);
        let ghost pre = output@;
        xor_block(&mut output, block);
        let result = encrypt(key, vstd::array::array_as_slice(&output));
        proof {
            let rest = data@.subrange(i as int, len as int);
            assert(rest.subrange(0, 16) =~= data@.subrange(i as int, i + 16));
            assert(rest.subrange(16, rest.len() as int) =~= data@.subrange(i + 16, len as int));
            assert(spec_cbc_hash(key@, pre, rest) == spec_cbc_hash(
                key@,
                aes128_enc(key@, spec_xor(pre, rest.subrange(0, 16))),
                rest.subrange(16, rest.len() as int),
            ));
        }
        let mut j: usize = 0;
        while j < 16
            invariant
                j <= 16,
                output@.len() == 16,
                result@.len() == 16,
                forall|k: int| 0 <= k < j ==> output@[k] == result@[k],
            decreases 16 - j,
        {
            output[j] = result[j];
            j += 1;
        }
        assert(output@ =~= result@);
        i += 16;
    }
    assert(data@.subrange(len as int, len as int) =~= Seq::<u8>::empty());
    output
}

/// The first slot of the secret-hash data: either a password or the header's
/// origin; the derivation treats both the same way.
pub enum PasswordOrOriginParam {
    Password(String),
    Origin(String),
}

impl PasswordOrOriginParam {
    /// The carried string, whichever variant holds it.
    pub open spec fn spec_value(&self) -> Seq<char> {
        match self {
            PasswordOrOriginParam::Password(val) => val@,
            PasswordOrOriginParam::Origin(val) => val@,
        }
    }

    pub fn value(&self) -> (r: &String)
        ensures
            r@ == self.spec_value(),
    {
        match self {
            PasswordOrOriginParam::Password(val) => val,
            PasswordOrOriginParam::Origin(val) => val,
        }
    }
}

/// The header fields the thousand-round secret hash consumes.
pub struct SecretHashParams {
    pub password_or_origin: PasswordOrOriginParam,
    pub destination: String,
    pub name: String,
}

/// The secret hash inputs together with the base64-decoded header secret.
pub struct SecretCryptoParams {
    pub hash_params: SecretHashParams,
    pub secret: Vec<u8>,
}

/// `src` truncated or zero-padded to exactly `n` bytes.
pub open spec fn fit(src: Seq<u8>, n: int) -> Seq<u8> {
    Seq::new(n as nat, |i: int| if i < src.len() { src[i] } else { 0u8 })
}

/// The UTF-8 bytes of a string value.
pub open spec fn utf8_bytes(s: Seq<char>) -> Seq<u8> {
    vstd::utf8::encode_utf8(s)
}

/// The 0x50-byte data block of one secret-hash round: the password-or-origin
/// slot at 0x00, the destination slot at 0x20, and the round counter in the
/// last two bytes (high byte at 0x4E, low byte at 0x4F).
pub open spec fn spec_hash_data(pass: Seq<u8>, dest: Seq<u8>, iter: int) -> Seq<u8> {
    Seq::new(
        0x50,
        |i: int|
            if i < 0x20 {
                if i < pass.len() {
                    pass[i]
                } else {
                    0u8
                }
            } else if i < 0x40 {
                if i - 0x20 < dest.len() {
                    dest[i - 0x20]
                } else {
                    0u8
                }
            } else if i == 0x4E {
                ((iter / 256) % 256) as u8
            } else if i == 0x4F {
                (iter % 256) as u8
            } else {
                0u8
            },
    )
}

/// The XOR of the first `n` rounds of the secret hash.
pub open spec fn spec_hash_rounds(key: Seq<u8>, pass: Seq<u8>, dest: Seq<u8>, n: int) -> Seq<u8>
    decreases n,
{
    if n <= 0 {
        zeros16()
    } else {
        spec_xor(
            spec_hash_rounds(key, pass, dest, n - 1),
            spec_cbc_hash(key, zeros16(), spec_hash_data(pass, dest, n - 1)),
        )
    }
}

/// The thousand-round secret hash over the header's name, password-or-origin
/// and destination, keyed by the name truncated or padded to 16 bytes.
pub open spec fn spec_secret_hash(name: Seq<u8>, pass: Seq<u8>, dest: Seq<u8>) -> Seq<u8> {
    spec_hash_rounds(fit(name, 16), pass, dest, 1000)
}

/// Compute the thousand-round secret hash of the header fields.
pub fn hash(params: &SecretHashParams) -> (r: [u8; 16])
    ensures
        r@ == spec_secret_hash(
            utf8_bytes(params.name@),
            utf8_bytes(params.password_or_origin.spec_value()),
            utf8_bytes(params.destination@),
        ),
{
    let ghost name_b = utf8_bytes(params.name@);
    let ghost pass_b = utf8_bytes(params.password_or_origin.spec_value());
    let ghost dest_b = utf8_bytes(params.destination@);

    let mut data = [0u8; 0x50];
    let mut result = [0u8; 16];
    let iv = [0u8; 16];
    let mut key = [0u8; 16];

    let name_bytes = params.name.as_str().as_bytes();
    let name_n: usize = if name_bytes.len() < 16 {
        name_bytes.len()
    } else {
        16
    };
    let mut idx: usize = 0;
    while idx < name_n
        invariant
            name_n <= 16,
            name_n <= name_bytes@.len(),
            name_bytes@ == name_b,
            idx <= name_n,
            forall|j: int| 0 <= j < idx ==> key@[j] == name_b[j],
            forall|j: int| idx <= j < 16 ==> key@[j] == 0u8,
            name_n == 16 || name_n == name_b.len(),
        decreases name_n - idx,
    {
        key[idx] = name_bytes[idx];
        idx += 1;
    }
    assert(key@ =~= fit(name_b, 16));

    let pass_string = params.password_or_origin.value();
    let pass_bytes = pass_string.as_str().as_bytes();
    let pass_n: usize = if pass_bytes.len() < 0x20 {
        pass_bytes.len()
    } else {
        0x20
    };
    let mut idx: usize = 0;
    while idx < pass_n
        invariant
            pass_n <= 0x20,
            pass_n <= pass_bytes@.len(),
            pass_bytes@ == pass_b,
            idx <= pass_n,
            forall|j: int| 0 <= j < idx ==> data@[j] == pass_b[j],
            forall|j: int| idx <= j < 0x50 ==> data@[j] == 0u8,
        decreases pass_n - idx,
    {
        data[idx] = pass_bytes[idx];
        idx += 1;
    }

    let dest_bytes = params.destination.as_str().as_bytes();
    let dest_n: usize = if dest_bytes.len() < 0x20 {
        dest_bytes.len()
    } else {
        0x20
    };
    let mut idx: usize = 0;
    while idx < dest_n
        invariant
            dest_n <= 0x20,
            dest_n <= dest_bytes@.len(),
            dest_bytes@ == dest_b,
            pass_n <= 0x20,
            pass_n == 0x20 || pass_n == pass_b.len(),
            idx <= dest_n,
            forall|j: int| 0 <= j < pass_n ==> data@[j] == pass_b[j],
            forall|j: int| pass_n <= j < 0x20 ==> data@[j] == 0u8,
            forall|j: int| 0x20 <= j < 0x20 + idx ==> data@[j] == dest_b[j - 0x20],
            forall|j: int| 0x20 + idx <= j < 0x50 ==> data@[j] == 0u8,
        decreases dest_n - idx,
    {
        data[0x20 + idx] = dest_bytes[idx];
        idx += 1;
    }
    assert(data@ =~= spec_hash_data(pass_b, dest_b, 0)) by {
        assert(pass_n == 0x20 || pass_n == pass_b.len());
        assert(dest_n == 0x20 || dest_n == dest_b.len());
    }

    let mut iteration: u32 = 0;
    while iteration < 1000
        invariant
            iteration <= 1000,
            key@ == fit(name_b, 16),
            iv@ == zeros16(),
            result@ == spec_hash_rounds(fit(name_b, 16), pass_b, dest_b, iteration as int),
            forall|j: int|
                0 <= j < 0x50 && j != 0x4E && j != 0x4F ==> data@[j] == spec_hash_data(
                    pass_b,
                    dest_b,
                    0,
                )[j],
        decreases 1000 - iteration,
    {
        data[0x4F] = (iteration % 256) as u8;
        data[0x4E] = ((iteration / 256) % 256) as u8;
        assert(data@ =~= spec_hash_data(pass_b, dest_b, iteration as int));
        let tmp = cbc_hash(
            vstd::array::array_as_slice(&key),
            vstd::array::array_as_slice(&iv),
            vstd::array::array_as_slice(&data),
        );
        xor_block(&mut result, vstd::array::array_as_slice(&tmp));
        iteration += 1;
    }
    assert(iv@ =~= zeros16());
    result
}

/// XOR-decrypt: encrypt `data` under `key` and XOR `xor_bytes` into the
/// cipher block.
pub open spec fn spec_decrypt(xor_bytes: Seq<u8>, data: Seq<u8>, key: Seq<u8>) -> Seq<u8> {
    spec_xor(aes128_enc(key, data), xor_bytes)
}

/// Encrypt `data` under `key` and XOR `xor_bytes` into the result.
pub fn decrypt(xor_bytes: &[u8], data: &[u8], key: &[u8]) -> (r: [u8; 16])
    requires
        data@.len() == 16,
        key@.len() == 16,
    ensures
        r@ == spec_decrypt(xor_bytes@, data@, key@),
{
    let mut result = encrypt(key, data);
    xor_block(&mut result, xor_bytes);
    result
}

/// The 16-byte plaintext of the secret-decryption step: `"Secret"`, two zero
/// bytes, then the name truncated to 8 bytes and zero-padded.
pub open spec fn spec_secret_block(name: Seq<u8>) -> Seq<u8> {
    Seq::new(
        16,
        |i: int|
            if i == 0 {
                83u8
            } else if i == 1 {
                101u8
            } else if i == 2 {
                99u8
            } else if i == 3 {
                114u8
            } else if i == 4 {
                101u8
            } else if i == 5 {
                116u8
            } else if i < 8 {
                0u8
            } else if i - 8 < name.len() {
                name[i - 8]
            } else {
                0u8
            },
    )
}

/// The intermediate secret: the secret hash of the header fields, applied to
/// the `"Secret"`/name block, XORed with the decoded header secret.
pub open spec fn spec_decrypt_secret(
    name: Seq<u8>,
    pass: Seq<u8>,
    dest: Seq<u8>,
    secret: Seq<u8>,
) -> Seq<u8> {
    spec_decrypt(secret, spec_secret_block(name), spec_secret_hash(name, pass, dest))
}

/// Recover the 16-byte intermediate secret from the header fields and the
/// decoded header secret.
pub fn decrypt_secret(secret_params: &SecretCryptoParams) -> (r: [u8; 16])
    ensures
        r@ == spec_decrypt_secret(
            utf8_bytes(secret_params.hash_params.name@),
            utf8_bytes(secret_params.hash_params.password_or_origin.spec_value()),
            utf8_bytes(secret_params.hash_params.destination@),
            secret_params.secret@,
        ),
{
    let ghost name_b = utf8_bytes(secret_params.hash_params.name@);
    let hash_key = hash(&secret_params.hash_params);

    let mut data = [0u8; 16];
    data[0] = 0x53u8;
    data[1] = 0x65u8;
    data[2] = 0x63u8;
    data[3] = 0x72u8;
    data[4] = 0x65u8;
    data[5] = 0x74u8;

    let name_bytes = secret_params.hash_params.name.as_str().as_bytes();
    let name_n: usize = if name_bytes.len() < 8 {
        name_bytes.len()
    } else {
        8
    };
    let mut idx: usize = 0;
    while idx < name_n
        invariant
            name_n <= 8,
            name_n <= name_bytes@.len(),
            name_bytes@ == name_b,
            idx <= name_n,
            data@.len() == 16,
            data@[0] == 83u8,
            data@[1] == 101u8,
            data@[2] == 99u8,
            data@[3] == 114u8,
            data@[4] == 101u8,
            data@[5] == 116u8,
            data@[6] == 0u8,
            data@[7] == 0u8,
            forall|j: int| 0 <= j < idx ==> data@[8 + j] == name_b[j],
            forall|j: int| 8 + idx <= j < 16 ==> data@[j] == 0u8,
        decreases name_n - idx,
    {
        data[8 + idx] = name_bytes[idx];
        idx += 1;
    }
    assert(data@ =~= spec_secret_block(name_b)) by {
        assert(name_n == 8 || name_n == name_b.len());
    }

    decrypt(
        secret_params.secret.as_slice(),
        vstd::array::array_as_slice(&data),
        vstd::array::array_as_slice(&hash_key),
    )
}

/// The 0x40-byte data block keyed into `compute_key`: the field literal in
/// the first 0x20-byte slot, the serial in the second, both zero-padded.
pub open spec fn spec_compute_key_data(field: Seq<u8>, serial: Seq<u8>) -> Seq<u8> {
    Seq::new(
        0x40,
        |i: int|
            if i < 0x20 {
                if i < field.len() {
                    field[i]
                } else {
                    0u8
                }
            } else {
                if i - 0x20 < serial.len() {
                    serial[i - 0x20]
                } else {
                    0u8
                }
            },
    )
}

/// Derive a key by chain-hashing a field literal and the token serial under
/// `key`, starting from `iv`.
pub fn compute_key(field: &[u8], serial: &str, key: &[u8], iv: IV) -> (r: [u8; 16])
    requires
        key@.len() == 16,
    ensures
        r@ == spec_cbc_hash(
            key@,
            iv@,
            spec_compute_key_data(field@, utf8_bytes(serial@)),
        ),
{
    let ghost serial_b = utf8_bytes(serial@);
    let mut data = [0u8; 0x40];

    let field_n: usize = if field.len() < 0x20 {
        field.len()
    } else {
        0x20
    };
    let mut idx: usize = 0;
    while idx < field_n
        invariant
            field_n <= 0x20,
            field_n <= field@.len(),
            idx <= field_n,
            forall|j: int| 0 <= j < idx ==> data@[j] == field@[j],
            forall|j: int| idx <= j < 0x40 ==> data@[j] == 0u8,
        decreases field_n - idx,
    {
        data[idx] = field[idx];
        idx += 1;
    }

    let serial_bytes = serial.as_bytes();
    let serial_n: usize = if serial_bytes.len() < 0x20 {
        serial_bytes.len()
    } else {
        0x20
    };
    let mut idx: usize = 0;
    while idx < serial_n
        invariant
            serial_n <= 0x20,
            serial_n <= serial_bytes@.len(),
            serial_bytes@ == serial_b,
            field_n <= 0x20,
            field_n == 0x20 || field_n == field@.len(),
            idx <= serial_n,
            forall|j: int| 0 <= j < field_n ==> data@[j] == field@[j],
            forall|j: int| field_n <= j < 0x20 ==> data@[j] == 0u8,
            forall|j: int| 0x20 <= j < 0x20 + idx ==> data@[j] == serial_b[j - 0x20],
            forall|j: int| 0x20 + idx <= j < 0x40 ==> data@[j] == 0u8,
        decreases serial_n - idx,
    {
        data[0x20 + idx] = serial_bytes[idx];
        idx += 1;
    }
    assert(data@ =~= spec_compute_key_data(field@, serial_b)) by {
        assert(field_n == 0x20 || field_n == field@.len());
        assert(serial_n == 0x20 || serial_n == serial_b.len());
    }

    cbc_hash(key, iv.bytes(), vstd::array::array_as_slice(&data))
}

/// The inputs of the final seed-decryption step.
pub struct SeedCryptoParams {
    pub encrypted_seed: Vec<u8>,
    pub serial: String,
    pub encryption_key: [u8; 16],
}

/// The 16-byte plaintext of the seed-decryption step: the serial truncated
/// to 8 bytes and zero-padded, then `"Seed"`, then four zero bytes.
pub open spec fn spec_seed_block(serial: Seq<u8>) -> Seq<u8> {
    Seq::new(
        16,
        |i: int|
            if i < 8 {
                if i < serial.len() {
                    serial[i]
                } else {
                    0u8
                }
            } else if i == 8 {
                83u8
            } else if i == 9 {
                101u8
            } else if i == 10 {
                101u8
            } else if i == 11 {
                100u8
            } else {
                0u8
            },
    )
}

/// The plaintext token seed: the serial/`"Seed"` block encrypted under the
/// derived key, XORed with the seed ciphertext.
pub open spec fn spec_decrypt_seed(
    encrypted_seed: Seq<u8>,
    serial: Seq<u8>,
    key: Seq<u8>,
) -> Seq<u8> {
    spec_decrypt(encrypted_seed, spec_seed_block(serial), key)
}

/// Recover the 16-byte plaintext seed from the seed ciphertext, the serial
/// and the derived encryption key.
pub fn decrypt_seed(seed_params: &SeedCryptoParams) -> (r: [u8; 16])
    ensures
        r@ == spec_decrypt_seed(
            seed_params.encrypted_seed@,
            utf8_bytes(seed_params.serial@),
            seed_params.encryption_key@,
        ),
{
    let ghost serial_b = utf8_bytes(seed_params.serial@);
    let mut data = [0u8; 16];

    let serial_bytes = seed_params.serial.as_str().as_bytes();
    let serial_n: usize = if serial_bytes.len() < 8 {
        serial_bytes.len()
    } else {
        8
    };
    let mut idx: usize = 0;
    while idx < serial_n
        invariant
            serial_n <= 8,
            serial_n <= serial_bytes@.len(),
            serial_bytes@ == serial_b,
            idx <= serial_n,
            forall|j: int| 0 <= j < idx ==> data@[j] == serial_b[j],
            forall|j: int| idx <= j < 16 ==> data@[j] == 0u8,
        decreases serial_n - idx,
    {
        data[idx] = serial_bytes[idx];
        idx += 1;
    }
    data[8] = 0x53u8;
    data[9] = 0x65u8;
    data[10] = 0x65u8;
    data[11] = 0x64u8;
    assert(data@ =~= spec_seed_block(serial_b)) by {
        assert(serial_n == 8 || serial_n == serial_b.len());
    }

    decrypt(
        seed_params.encrypted_seed.as_slice(),
        vstd::array::array_as_slice(&data),
        vstd::array::array_as_slice(&seed_params.encryption_key),
    )
}

/// The `"TokenEncrypt"` field literal of the key-derivation step.
pub open spec fn spec_token_encrypt_field() -> Seq<u8> {
    seq![0x54u8, 0x6fu8, 0x6bu8, 0x65u8, 0x6eu8, 0x45u8, 0x6eu8, 0x63u8, 0x72u8, 0x79u8, 0x70u8,
        0x74u8]
}

/// The seed element's text after its leading marker character; the marker
/// is a version tag, not part of the base64 ciphertext.
pub open spec fn seed_tail(seed: Seq<char>) -> Seq<char> {
    seed.subrange(1, seed.len() as int)
}

/// The plaintext token seed of a batch: derive the intermediate secret from
/// the header, derive the seed-decryption key under the fixed IV and the
/// `"TokenEncrypt"` literal, and decrypt the first 16 bytes of the decoded
/// seed ciphertext.
pub open spec fn spec_extract_seed(
    name: Seq<char>,
    origin: Seq<char>,
    dest: Seq<char>,
    secret: Seq<u8>,
    serial: Seq<char>,
    seed_ct: Seq<u8>,
) -> Seq<u8> {
    let key = spec_decrypt_secret(utf8_bytes(name), utf8_bytes(origin), utf8_bytes(dest), secret);
    let enc_key = spec_cbc_hash(
        key,
        spec_seed_iv(),
        spec_compute_key_data(spec_token_encrypt_field(), utf8_bytes(serial)),
    );
    spec_decrypt_seed(seed_ct.subrange(0, 16), utf8_bytes(serial), enc_key)
}

/// Recover the 16-byte plaintext seed of a parsed batch. The seed element's
/// first character is a version marker and is skipped; the rest is the
/// base64 ciphertext. Fails exactly when the header secret is not valid
/// base64, or the seed is empty, or its tail after the marker is not valid
/// base64, or that tail decodes to fewer than the 16 bytes the cipher
/// consumes. The result does not depend on the marker character.
pub fn extract_seed(token: &TKNBatch) -> (r: Result<[u8; 16], TokenError>)
    ensures
        r is Ok <==> (b64_decode(token.header.secret@) is Some && token.token.seed@.len() >= 1
            && b64_decode(seed_tail(token.token.seed@)) is Some && b64_decode(
            seed_tail(token.token.seed@),
        ).unwrap().len() >= 16),
        r is Ok ==> r.unwrap()@ == spec_extract_seed(
            token.header.name@,
            token.header.origin@,
            token.header.dest@,
            b64_decode(token.header.secret@).unwrap(),
            token.token.serial_number@,
            b64_decode(seed_tail(token.token.seed@)).unwrap(),
        ),
        r is Err ==> r.unwrap_err() == TokenError::Base64Error,
{
    let secret = match decode_base64(token.header.secret.as_str()) {
        Some(v) => v,
        None => {
            return Err(TokenError::Base64Error);
        },
    };
    let seed_str = token.token.seed.as_str();
    let seed_len = seed_str.unicode_len();
    if seed_len == 0 {
        return Err(TokenError::Base64Error);
    }
    let tail = seed_str.substring_char(1, seed_len);
    assert(tail@ == seed_tail(token.token.seed@));
    let decoded = match decode_base64(tail) {
        Some(v) => v,
        None => {
            return Err(TokenError::Base64Error);
        },
    };
    if decoded.len() < 16 {
        return Err(TokenError::Base64Error);
    }

    let params = SecretCryptoParams {
        hash_params: SecretHashParams {
            password_or_origin: PasswordOrOriginParam::Origin(token.header.origin.clone()),
            destination: token.header.dest.clone(),
            name: token.header.name.clone(),
        },
        secret,
    };
    let key = decrypt_secret(&params);

    let field: [u8; 12] = [0x54, 0x6f, 0x6b, 0x65, 0x6e, 0x45, 0x6e, 0x63, 0x72, 0x79, 0x70, 0x74];
    assert(field@ =~= spec_token_encrypt_field());
    let encryption_key = compute_key(
        vstd::array::array_as_slice(&field),
        token.token.serial_number.as_str(),
        vstd::array::array_as_slice(&key),
        seed_iv(),
    );

    let ct = vstd::slice::slice_to_vec(vstd::slice::slice_subrange(decoded.as_slice(), 0, 16));
    let seed_params = SeedCryptoParams {
        encrypted_seed: ct,
        serial: token.token.serial_number.clone(),
        encryption_key,
    };
    Ok(decrypt_seed(&seed_params))
}

} // verus!\n
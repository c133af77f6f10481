//! General properties of the library, stated and proved over the same spec
//! functions the executable contracts use.

use vstd::prelude::*;

use crate::aes::aes128_enc;
use crate::crypto::spec_cbc_hash;
use crate::crypto::spec_decrypt;
use crate::crypto::spec_xor;
use crate::generate::digit_char;
use crate::generate::pin_digit;
use crate::generate::pow10;
use crate::generate::spec_bcd_time;
use crate::generate::spec_code_char;
use crate::generate::spec_generate;
use crate::generate::spec_passcode;
use crate::token::all_digits;
use crate::token::digit_val;
use crate::token::is_digit_char;
use crate::token::spec_adjust_for_hash;
use crate::token::spec_time_index;
use crate::token::RSATokenView;
use crate::token::TokenDuration;
use crate::token::TokenTime;

verus! {

/// The chained hash of empty data is the IV itself.
pub proof fn lemma_cbc_hash_empty(key: Seq<u8>, iv: Seq<u8>)
    ensures
        spec_cbc_hash(key, iv, Seq::<u8>::empty()) == iv,
{
}

/// Extending the hashed data by one 16-byte block encrypts the XOR of the
/// previous hash with that block.
pub proof fn lemma_cbc_hash_append(key: Seq<u8>, iv: Seq<u8>, a: Seq<u8>, b: Seq<u8>)
    requires
        a.len() % 16 == 0,
        b.len() == 16,
    ensures
        spec_cbc_hash(key, iv, a + b) == aes128_enc(key, spec_xor(spec_cbc_hash(key, iv, a), b)),
    decreases a.len(),
{
    if a.len() == 0 {
        let ab = a + b;
        assert(ab.subrange(0, 16) =~= b);
        assert(spec_cbc_hash(key, iv, ab) == spec_cbc_hash(
            key,
            aes128_enc(key, spec_xor(iv, ab.subrange(0, 16))),
            ab.subrange(16, 16),
        ));
        assert(ab.subrange(16, 16).len() == 0);
        assert(spec_cbc_hash(key, iv, a) == iv);
    } else {
        let ab = a + b;
        assert(a.len() >= 16);
        assert(ab.subrange(0, 16) =~= a.subrange(0, 16));
        assert(ab.subrange(16, ab.len() as int) =~= a.subrange(16, a.len() as int) + b);
        let iv2 = aes128_enc(key, spec_xor(iv, a.subrange(0, 16)));
        assert(spec_cbc_hash(key, iv, ab) == spec_cbc_hash(
            key,
            aes128_enc(key, spec_xor(iv, ab.subrange(0, 16))),
            ab.subrange(16, ab.len() as int),
        ));
        assert(spec_cbc_hash(key, iv, a) == spec_cbc_hash(
            key,
            iv2,
            a.subrange(16, a.len() as int),
        ));
        lemma_cbc_hash_append(key, iv2, a.subrange(16, a.len() as int), b);
    }
}

/// XORing the encryption of the block back into the decryption result
/// recovers the ciphertext input, byte for byte.
pub proof fn lemma_xor_decrypt_involution(x: Seq<u8>, d: Seq<u8>, k: Seq<u8>)
    requires
        x.len() == aes128_enc(k, d).len(),
    ensures
        spec_xor(spec_decrypt(x, d, k), aes128_enc(k, d)) == x,
{
    let e = aes128_enc(k, d);
    let lhs = spec_xor(spec_xor(e, x), e);
    assert forall|i: int| 0 <= i < x.len() implies lhs[i] == x[i] by {
        let a = e[i];
        let b = x[i];
        assert(((a ^ b) ^ a) == b) by (bit_vector);
    }
    assert(lhs =~= x);
}

/// A sixty-second token shows one code for the whole minute: two times that
/// agree on everything but the second produce the same passcode.
pub proof fn lemma_sixty_second_code_ignores_seconds(
    t: RSATokenView,
    t1: TokenTime,
    t2: TokenTime,
)
    requires
        t.duration == TokenDuration::SixtySecond,
        t1.year == t2.year,
        t1.month == t2.month,
        t1.day == t2.day,
        t1.hour == t2.hour,
        t1.minute == t2.minute,
    ensures
        spec_generate(t, t1) == spec_generate(t, t2),
{
    assert(spec_bcd_time(t1, t.duration) =~= spec_bcd_time(t2, t.duration));
}

/// The masked minute is the start of the token's window: the minute rounded
/// down to a multiple of two (thirty-second tokens) or four (sixty-second
/// tokens).
pub proof fn lemma_adjust_is_window_start(minute: u32)
    ensures
        spec_adjust_for_hash(TokenDuration::ThirtySecond, minute) == 2 * (minute / 2),
        spec_adjust_for_hash(TokenDuration::SixtySecond, minute) == 4 * (minute / 4),
{
    assert((minute & !1u32) == 2 * (minute / 2) && (minute & !3u32) == 4 * (minute / 4))
        by (bit_vector);
}

/// The selected byte offset walks the four 4-byte words: for sixty-second
/// tokens it is four times the minute's position in its four-minute cycle.
pub proof fn lemma_sixty_index_cycles(minute: u32, second: u32)
    ensures
        spec_time_index(TokenDuration::SixtySecond, minute, second) == 4 * (minute % 4),
{
    assert((minute & 3) * 4 == 4 * (minute % 4)) by (bit_vector);
}

/// The seed's leading marker character does not matter: two batches equal
/// except in that character are accepted alike, and yield the same
/// extracted seed.
pub proof fn lemma_seed_marker_ignored(b1: crate::xml::TKNBatch, b2: crate::xml::TKNBatch)
    requires
        b1.header == b2.header,
        b1.token.serial_number@ == b2.token.serial_number@,
        b1.token.seed@.len() >= 1,
        b2.token.seed@.len() >= 1,
        crate::crypto::seed_tail(b1.token.seed@) == crate::crypto::seed_tail(b2.token.seed@),
    ensures
        crate::token::spec_seed_material_ok(b1) == crate::token::spec_seed_material_ok(b2),
        crate::token::spec_seed_material_ok(b1) ==> crate::crypto::spec_extract_seed(
            b1.header.name@,
            b1.header.origin@,
            b1.header.dest@,
            crate::b64::b64_decode(b1.header.secret@).unwrap(),
            b1.token.serial_number@,
            crate::b64::b64_decode(crate::crypto::seed_tail(b1.token.seed@)).unwrap(),
        ) == crate::crypto::spec_extract_seed(
            b2.header.name@,
            b2.header.origin@,
            b2.header.dest@,
            crate::b64::b64_decode(b2.header.secret@).unwrap(),
            b2.token.serial_number@,
            crate::b64::b64_decode(crate::crypto::seed_tail(b2.token.seed@)).unwrap(),
        ),
{
}

/// The passcode is a function of the token's content and the time alone:
/// any two results of the pipeline on equal inputs are equal. Together with
/// `generate`'s postcondition this says that repeated calls agree.
pub proof fn lemma_generate_deterministic(
    t: RSATokenView,
    time: TokenTime,
    c1: Seq<char>,
    c2: Seq<char>,
)
    requires
        c1 == spec_generate(t, time),
        c2 == spec_generate(t, time),
    ensures
        c1 == c2,
{
}

/// A digit's character carries exactly that digit.
pub proof fn lemma_digit_char_val(d: int)
    requires
        0 <= d < 10,
    ensures
        digit_val(digit_char(d)) == d,
        is_digit_char(digit_char(d)),
{
}

/// Each output digit is the tokencode's digit at that position plus the
/// matching PIN digit, reduced mod 10: the passcode with a PIN relates digit
/// by digit to the passcode of the same tokencode without one.
pub proof fn lemma_pin_fold(tc: int, pin: Seq<char>, digits: int, k: int)
    requires
        tc >= 0,
        0 <= k < digits,
    ensures
        digit_val(spec_passcode(tc, pin, digits)[digits - 1 - k]) == (digit_val(
            spec_passcode(tc, Seq::<char>::empty(), digits)[digits - 1 - k],
        ) + pin_digit(pin, k)) % 10,
{
    crate::generate::lemma_pow10_pos(k);
    vstd::arithmetic::div_mod::lemma_div_pos_is_pos(tc, pow10(k));
    let v = tc / pow10(k) % 10;
    assert(0 <= v < 10);
    assert(spec_passcode(tc, pin, digits)[digits - 1 - k] == spec_code_char(tc, pin, k));
    assert(spec_passcode(tc, Seq::<char>::empty(), digits)[digits - 1 - k] == spec_code_char(
        tc,
        Seq::<char>::empty(),
        k,
    ));
    assert(pin_digit(Seq::<char>::empty(), k) == 0);
    lemma_digit_char_val((v + pin_digit(pin, k)) % 10);
    lemma_digit_char_val(v % 10);
    assert(v % 10 == v);
}

/// Two PINs of digits whose last digits differ give different passcodes for
/// the same tokencode: the least significant output digit already differs.
pub proof fn lemma_pin_changes_code(tc: int, p1: Seq<char>, p2: Seq<char>, digits: int)
    requires
        tc >= 0,
        digits >= 1,
        p1.len() >= 1,
        p2.len() >= 1,
        all_digits(p1),
        all_digits(p2),
        digit_val(p1.last()) != digit_val(p2.last()),
    ensures
        spec_passcode(tc, p1, digits) != spec_passcode(tc, p2, digits),
{
    crate::generate::lemma_pow10_pos(0);
    let v = tc / pow10(0) % 10;
    assert(0 <= v < 10);
    let d1 = digit_val(p1.last());
    let d2 = digit_val(p2.last());
    assert(is_digit_char(p1[p1.len() - 1]));
    assert(is_digit_char(p2[p2.len() - 1]));
    assert(0 <= d1 < 10);
    assert(0 <= d2 < 10);
    assert(pin_digit(p1, 0) == d1);
    assert(pin_digit(p2, 0) == d2);
    assert((v + d1) % 10 != (v + d2) % 10) by {
        if v + d1 < 10 && v + d2 < 10 {
        } else if v + d1 >= 10 && v + d2 >= 10 {
            assert((v + d1) % 10 == v + d1 - 10);
            assert((v + d2) % 10 == v + d2 - 10);
        } else if v + d1 < 10 {
            assert((v + d2) % 10 == v + d2 - 10);
        } else {
            assert((v + d1) % 10 == v + d1 - 10);
        }
    }
    let c1 = spec_passcode(tc, p1, digits);
    let c2 = spec_passcode(tc, p2, digits);
    lemma_digit_char_val((v + d1) % 10);
    lemma_digit_char_val((v + d2) % 10);
    assert(c1[digits - 1] == spec_code_char(tc, p1, 0));
    assert(c2[digits - 1] == spec_code_char(tc, p2, 0));
    assert(digit_val(c1[digits - 1]) != digit_val(c2[digits - 1]));
}

} // verus!

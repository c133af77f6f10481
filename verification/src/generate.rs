//! The passcode engine: a five-round AES chain whose running state keys
//! each round over blocks built from progressively longer BCD time
//! prefixes, a windowed 32-bit tokencode extraction, and the PIN-folded
//! digit output.

use vstd::prelude::*;

use crate::aes::aes128_enc;
use crate::aes::encrypt;
use crate::bcd::bcd2;
use crate::bcd::bcd4;
use crate::bcd::spec_bcd2;
use crate::token::all_digits;
use crate::token::digit_val;
use crate::token::is_digit_char;
use crate::token::spec_adjust_for_hash;
use crate::token::spec_time_index;
use crate::token::RSAToken;
use crate::token::RSATokenView;
use crate::token::TokenDuration;
use crate::token::TokenTime;

verus! {

/// Ten to the `k`.
pub open spec fn pow10(k: int) -> int
    decreases k,
{
    if k <= 0 {
        1
    } else {
        10 * pow10(k - 1)
    }
}

/// Powers of ten are positive.
pub proof fn lemma_pow10_pos(k: int)
    ensures
        pow10(k) >= 1,
    decreases k,
{
    if k > 0 {
        lemma_pow10_pos(k - 1);
    }
}

/// The 8-byte BCD time array: year (two bytes), month, day, hour, the
/// duration-masked minute, and two zero bytes.
pub open spec fn spec_bcd_time(time: TokenTime, d: TokenDuration) -> Seq<u8> {
    seq![
        spec_bcd2(time.year as int / 100) as u8,
        spec_bcd2(time.year as int % 100) as u8,
        spec_bcd2(time.month as int) as u8,
        spec_bcd2(time.day as int) as u8,
        spec_bcd2(time.hour as int) as u8,
        spec_bcd2(spec_adjust_for_hash(d, time.minute)) as u8,
        0u8,
        0u8,
    ]
}

/// The nibble-packed pair of serial digits at positions `i` and `i + 1`.
pub open spec fn spec_serial_byte(serial: Seq<char>, i: int) -> u8 {
    (digit_val(serial[i]) * 16 + digit_val(serial[i + 1])) as u8
}

/// The per-round AES key: the BCD time prefix over a 0xAA fill in the low
/// eight bytes, serial digit pairs 4..11 nibble-packed into bytes 8..12, and
/// 0xBB in the high four bytes.
pub open spec fn spec_key_from_time(bcd: Seq<u8>, serial: Seq<char>) -> Seq<u8> {
    Seq::new(
        16,
        |i: int|
            if i < bcd.len() {
                bcd[i]
            } else if i < 8 {
                0xAAu8
            } else if i < 12 {
                spec_serial_byte(serial, 4 + (i - 8) * 2)
            } else {
                0xBBu8
            },
    )
}

/// The five-round chain: starting from the seed, each round uses the
/// running state as the AES key and encrypts the block built from the next
/// BCD time prefix (lengths 2, 3, 4, 5, 8).
pub open spec fn spec_chain(seed: Seq<u8>, bcd: Seq<u8>, serial: Seq<char>) -> Seq<u8> {
    let s1 = aes128_enc(seed, spec_key_from_time(bcd.subrange(0, 2), serial));
    let s2 = aes128_enc(s1, spec_key_from_time(bcd.subrange(0, 3), serial));
    let s3 = aes128_enc(s2, spec_key_from_time(bcd.subrange(0, 4), serial));
    let s4 = aes128_enc(s3, spec_key_from_time(bcd.subrange(0, 5), serial));
    aes128_enc(s4, spec_key_from_time(bcd.subrange(0, 8), serial))
}

/// The four bytes at `idx` read as a big-endian 32-bit integer.
pub open spec fn spec_tokencode(s: Seq<u8>, idx: int) -> int {
    s[idx] * 0x1000000 + s[idx + 1] * 0x10000 + s[idx + 2] * 0x100 + s[idx + 3]
}

/// The PIN digit folded into output position `k` (counted from the least
/// significant end); zero beyond the PIN's length.
pub open spec fn pin_digit(pin: Seq<char>, k: int) -> int {
    if 0 <= k < pin.len() {
        digit_val(pin[pin.len() - 1 - k])
    } else {
        0
    }
}

/// The decimal digit character of a value in 0..9.
pub open spec fn digit_char(d: int) -> char {
    if d == 0 {
        '0'
    } else if d == 1 {
        '1'
    } else if d == 2 {
        '2'
    } else if d == 3 {
        '3'
    } else if d == 4 {
        '4'
    } else if d == 5 {
        '5'
    } else if d == 6 {
        '6'
    } else if d == 7 {
        '7'
    } else if d == 8 {
        '8'
    } else {
        '9'
    }
}

/// Output digit `k` (from the least significant end): the tokencode's `k`-th
/// decimal digit plus the matching PIN digit, reduced mod 10.
pub open spec fn spec_code_char(tc: int, pin: Seq<char>, k: int) -> char {
    digit_char((tc / pow10(k) % 10 + pin_digit(pin, k)) % 10)
}

/// The whole passcode, most significant digit first.
pub open spec fn spec_passcode(tc: int, pin: Seq<char>, digits: int) -> Seq<char> {
    Seq::new(digits as nat, |i: int| spec_code_char(tc, pin, digits - 1 - i))
}

/// The passcode a token shows at a given time.
pub open spec fn spec_generate(t: RSATokenView, time: TokenTime) -> Seq<char> {
    let bcd = spec_bcd_time(time, t.duration);
    let last = spec_chain(t.seed, bcd, t.serial);
    let idx = spec_time_index(t.duration, time.minute, time.second);
    spec_passcode(spec_tokencode(last, idx), t.pin, t.digits)
}

/// Build the per-round AES key from a BCD time prefix and the serial.
pub fn key_from_time(bcd_time: &[u8], serial: &str) -> (r: [u8; 16])
    requires
        bcd_time@.len() <= 8,
        serial@.len() >= 12,
        all_digits(serial@),
    ensures
        r@ == spec_key_from_time(bcd_time@, serial@),
{
    proof {
        assert(vstd::string::is_ascii(serial)) by {
            assert(forall|i: int|
                0 <= i < serial@.len() ==> '\0' <= #[trigger] serial@[i] <= '\u{7f}');
        }
    }
    let mut buf = [0u8; 16];
    let mut i: usize = 0;
    while i < 8
        invariant
            i <= 8,
            forall|j: int| 0 <= j < i ==> buf@[j] == 0xAAu8,
            forall|j: int| 8 <= j < 16 ==> buf@[j] == 0u8,
        decreases 8 - i,
    {
        buf[i] = 0xAA;
        i += 1;
    }
    let n = bcd_time.len();
    let mut i: usize = 0;
    while i < n
        invariant
            n == bcd_time@.len() <= 8,
            i <= n,
            forall|j: int| 0 <= j < i ==> buf@[j] == bcd_time@[j],
            forall|j: int| i <= j < 8 ==> buf@[j] == 0xAAu8,
            forall|j: int| 8 <= j < 16 ==> buf@[j] == 0u8,
        decreases n - i,
    {
        buf[i] = bcd_time[i];
        i += 1;
    }
    let mut i: usize = 12;
    while i < 16
        invariant
            12 <= i <= 16,
            n == bcd_time@.len() <= 8,
            forall|j: int| 0 <= j < n ==> buf@[j] == bcd_time@[j],
            forall|j: int| n <= j < 8 ==> buf@[j] == 0xAAu8,
            forall|j: int| 8 <= j < 12 ==> buf@[j] == 0u8,
            forall|j: int| 12 <= j < i ==> buf@[j] == 0xBBu8,
        decreases 16 - i,
    {
        buf[i] = 0xBB;
        i += 1;
    }

    let mut k: usize = 0;
    while k < 4
        invariant
            k <= 4,
            serial@.len() >= 12,
            all_digits(serial@),
            vstd::string::is_ascii(serial),
            n == bcd_time@.len() <= 8,
            forall|j: int| 0 <= j < n ==> buf@[j] == bcd_time@[j],
            forall|j: int| n <= j < 8 ==> buf@[j] == 0xAAu8,
            forall|j: int| 8 <= j < 8 + k ==> buf@[j] == spec_serial_byte(serial@, 4 + (j - 8) * 2),
            forall|j: int| 8 + k <= j < 12 ==> buf@[j] == 0u8,
            forall|j: int| 12 <= j < 16 ==> buf@[j] == 0xBBu8,
        decreases 4 - k,
    {
        let hi_b = serial.get_ascii(4 + 2 * k);
        let lo_b = serial.get_ascii(4 + 2 * k + 1);
        proof {
            assert(is_digit_char(serial@[4 + 2 * k as int]));
            assert(is_digit_char(serial@[4 + 2 * k as int + 1]));
        }
        let hi = hi_b - 48;
        let lo = lo_b - 48;
        assert(hi < 10 && lo < 10 ==> (hi << 4 | lo) == hi * 16 + lo) by (bit_vector);
        buf[8 + k] = hi << 4 | lo;
        k += 1;
    }
    assert(buf@ =~= spec_key_from_time(bcd_time@, serial@));
    buf
}

/// A one-character string for a decimal digit value.
fn digit_str(d: u8) -> (r: &'static str)
    requires
        d < 10,
    ensures
        r@ =~= seq![digit_char(d as int)],
{
    let r = match d {
        0 => "0",
        1 => "1",
        2 => "2",
        3 => "3",
        4 => "4",
        5 => "5",
        6 => "6",
        7 => "7",
        8 => "8",
        _ => "9",
    };
    proof {
        reveal_strlit("0");
        reveal_strlit("1");
        reveal_strlit("2");
        reveal_strlit("3");
        reveal_strlit("4");
        reveal_strlit("5");
        reveal_strlit("6");
        reveal_strlit("7");
        reveal_strlit("8");
        reveal_strlit("9");
    }
    r
}

/// Compute the passcode a token shows at `time`: the five-round AES chain
/// over the seed, the window selection, and the PIN-folded digits. The
/// result has exactly `digits` characters, all decimal digits.
pub fn generate(token: RSAToken, time: TokenTime) -> (r: String)
    requires
        token@.wf(),
        time.wf(),
    ensures
        r@ == spec_generate(token@, time),
        r@.len() == token@.digits,
        all_digits(r@),
{
    let duration = token.duration();
    let (year_first, year_second) = bcd4(time.year);
    let month = bcd2(time.month as i32);
    let day = bcd2(time.day as i32);
    let hour = bcd2(time.hour as i32);
    let minute = bcd2(duration.adjust_for_hash(time));

    let bcd_time: [u8; 8] = [year_first, year_second, month, day, hour, minute, 0, 0];
    assert(bcd_time@ =~= spec_bcd_time(time, token@.duration));

    let serial = token.serial_number();
    let bcd_slice = vstd::array::array_as_slice(&bcd_time);
    let ghost bcd = bcd_time@;

    proof {
        assert(bcd.subrange(0, 2) =~= bcd_time@.subrange(0, 2));
    }
    let first_key = key_from_time(vstd::slice::slice_subrange(bcd_slice, 0, 2), serial);
    let first_pass = encrypt(
        token.seed_slice(),
        vstd::array::array_as_slice(&first_key),
    );
    let second_key = key_from_time(vstd::slice::slice_subrange(bcd_slice, 0, 3), serial);
    let second_pass = encrypt(
        vstd::array::array_as_slice(&first_pass),
        vstd::array::array_as_slice(&second_key),
    );
    let third_key = key_from_time(vstd::slice::slice_subrange(bcd_slice, 0, 4), serial);
    let third_pass = encrypt(
        vstd::array::array_as_slice(&second_pass),
        vstd::array::array_as_slice(&third_key),
    );
    let fourth_key = key_from_time(vstd::slice::slice_subrange(bcd_slice, 0, 5), serial);
    let fourth_pass = encrypt(
        vstd::array::array_as_slice(&third_pass),
        vstd::array::array_as_slice(&fourth_key),
    );
    let fifth_key = key_from_time(vstd::slice::slice_subrange(bcd_slice, 0, 8), serial);
    let fifth_pass = encrypt(
        vstd::array::array_as_slice(&fourth_pass),
        vstd::array::array_as_slice(&fifth_key),
    );
    proof {
        assert(bcd.subrange(0, 8) =~= bcd);
        assert(fifth_pass@ == spec_chain(token@.seed, spec_bcd_time(time, token@.duration),
            token@.serial));
    }

    let index = duration.time_index(time);

    let mut token_code: u32 = 0;
    let b0 = fifth_pass[index];
    let b1 = fifth_pass[index + 1];
    let b2 = fifth_pass[index + 2];
    let b3 = fifth_pass[index + 3];
    proof {
        let bb0 = b0;
        let bb1 = b1;
        let bb2 = b2;
        let bb3 = b3;
        assert((((((bb0 as u32) << 8 | bb1 as u32) << 8) | bb2 as u32) << 8 | bb3 as u32) == (
        bb0 as u32) * 0x1000000 + (bb1 as u32) * 0x10000 + (bb2 as u32) * 0x100 + (bb3 as u32))
            by (bit_vector);
    }
    token_code = (token_code << 8) | b0 as u32;
    token_code = (token_code << 8) | b1 as u32;
    token_code = (token_code << 8) | b2 as u32;
    token_code = (token_code << 8) | b3 as u32;
    proof {
        let bb0 = b0;
        assert((0u32 << 8 | bb0 as u32) == bb0 as u32) by (bit_vector);
    }
    let ghost tc0 = spec_tokencode(fifth_pass@, index as int);
    assert(token_code == tc0);

    // PIN digit values, in PIN order.
    let pin_s = token.pin_str();
    proof {
        assert(vstd::string::is_ascii(pin_s)) by {
            assert(forall|i: int|
                0 <= i < pin_s@.len() ==> '\0' <= #[trigger] pin_s@[i] <= '\u{7f}');
        }
    }
    let pin_len = pin_s.unicode_len();
    let mut pin_digits: Vec<u8> = Vec::new();
    let mut i: usize = 0;
    while i < pin_len
        invariant
            pin_len == token@.pin.len(),
            i <= pin_len,
            all_digits(token@.pin),
            vstd::string::is_ascii(pin_s),
            pin_s@ == token@.pin,
            pin_digits@.len() == i,
            forall|j: int| 0 <= j < i ==> pin_digits@[j] == digit_val(token@.pin[j]),
        decreases pin_len - i,
    {
        let b = pin_s.get_ascii(i);
        proof {
            assert(is_digit_char(token@.pin[i as int]));
        }
        pin_digits.push(b - 48);
        i += 1;
    }

    // Digit values, least significant first.
    let digits = token.num_digits();
    let mut rev: Vec<u8> = Vec::new();
    let mut tc = token_code;
    let mut k: usize = 0;
    while k < digits
        invariant
            k <= digits,
            tc == tc0 / pow10(k as int),
            0 <= tc0 < 0x100000000,
            pin_len == token@.pin.len(),
            pin_digits@.len() == token@.pin.len(),
            forall|j: int| 0 <= j < pin_digits@.len() ==> pin_digits@[j] == digit_val(
                token@.pin[j]),
            all_digits(token@.pin),
            rev@.len() == k,
            forall|j: int|
                0 <= j < k ==> rev@[j] as int == (tc0 / pow10(j) % 10 + pin_digit(token@.pin, j))
                    % 10,
        decreases digits - k,
    {
        let mut dig: u32 = tc % 10;
        proof {
            lemma_pow10_pos(k as int);
            vstd::arithmetic::div_mod::lemma_div_pos_is_pos(tc0, pow10(k as int));
            vstd::arithmetic::div_mod::lemma_div_denominator(tc0, pow10(k as int), 10);
            assert(10 * pow10(k as int) == pow10(k as int + 1));
        }
        tc = tc / 10;
        if k < pin_len {
            let pd = pin_digits[pin_len - 1 - k];
            proof {
                assert(is_digit_char(token@.pin[pin_len - 1 - k as int]));
            }
            dig = dig + pd as u32;
            assert(pin_digit(token@.pin, k as int) == pd as int);
        } else {
            assert(pin_digit(token@.pin, k as int) == 0);
        }
        rev.push((dig % 10) as u8);
        k += 1;
    }

    // Assemble the output, most significant digit first.
    let ghost code = spec_passcode(tc0, token@.pin, digits as int);
    let mut code_out = String::new();
    let mut i: usize = 0;
    while i < digits
        invariant
            i <= digits,
            digits == token@.digits,
            rev@.len() == digits,
            forall|j: int|
                0 <= j < digits ==> rev@[j] as int == (tc0 / pow10(j) % 10 + pin_digit(
                    token@.pin,
                    j,
                )) % 10,
            code == spec_passcode(tc0, token@.pin, digits as int),
            code_out@ =~= code.take(i as int),
        decreases digits - i,
    {
        let d = rev[digits - 1 - i];
        assert(d < 10);
        let s = digit_str(d);
        code_out.append(s);
        proof {
            assert(code[i as int] == spec_code_char(tc0, token@.pin, digits - 1 - i as int));
            assert(code_out@ =~= code.take(i as int + 1));
        }
        i += 1;
    }
    proof {
        assert(code.take(digits as int) =~= code);
        assert(forall|j: int| 0 <= j < code.len() ==> is_digit_char(#[trigger] code[j]));
    }
    code_out
}

} // verus!

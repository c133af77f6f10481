//! The runtime token record and its duration policy: the serial, digit
//! count, PIN and plaintext seed that the passcode engine consumes, and the
//! 30/60-second window arithmetic.

use vstd::prelude::*;

use crate::b64::b64_decode;
use crate::crypto::extract_seed;
use crate::crypto::seed_tail;
use crate::crypto::spec_extract_seed;
use crate::xml::TKNBatch;

verus! {

/// The failures the library distinguishes when building a token from an
/// SDTID batch.
#[derive(Clone, Copy, Debug, PartialEq, Eq, Structural)]
pub enum TokenError {
    /// XML malformed or a required field missing or non-numeric.
    ParseError,
    /// The header secret is not valid base64, or the seed lacks its marker
    /// character, or the seed's tail after the marker is not valid base64 or
    /// decodes to fewer bytes than the cipher consumes.
    Base64Error,
    /// The header interval is neither 30 nor 60.
    UnsupportedInterval,
    /// The digit count lies outside 6 to 8.
    UnsupportedDigits,
    /// The PIN contains a non-digit character.
    InvalidPin,
    /// The serial contains a non-digit character or is shorter than 12.
    InvalidSerial,
}

/// A wall-clock UTC time, split into the fields the passcode engine reads.
#[derive(Clone, Copy, Debug, PartialEq, Eq, Structural)]
pub struct TokenTime {
    pub year: i32,
    pub month: u32,
    pub day: u32,
    pub hour: u32,
    pub minute: u32,
    pub second: u32,
}

impl TokenTime {
    /// A calendar-plausible time whose fields fit the BCD encodings.
    pub open spec fn wf(&self) -> bool {
        &&& 0 <= self.year <= 9999
        &&& 1 <= self.month <= 12
        &&& 1 <= self.day <= 31
        &&& self.hour < 24
        &&& self.minute < 60
        &&& self.second < 60
    }
}

/// Whether `c` is a decimal digit character.
pub open spec fn is_digit_char(c: char) -> bool {
    '0' <= c <= '9'
}

/// The numeric value of a decimal digit character.
pub open spec fn digit_val(c: char) -> int {
    c as int - 48
}

/// Whether every character of `s` is a decimal digit.
pub open spec fn all_digits(s: Seq<char>) -> bool {
    forall|i: int| 0 <= i < s.len() ==> is_digit_char(#[trigger] s[i])
}

/// How long one passcode stays valid.
#[derive(Clone, Copy, Debug, PartialEq, Eq, Structural)]
pub enum TokenDuration {
    ThirtySecond,
    SixtySecond,
}

/// The byte offset of the selected tokencode inside the final cipher block:
/// thirty-second tokens split each minute by its low bit and the half-minute,
/// sixty-second tokens cycle through the minute's low two bits.
pub open spec fn spec_time_index(d: TokenDuration, minute: u32, second: u32) -> int {
    match d {
        TokenDuration::ThirtySecond => (minute & 1) * 8 + if second >= 30 {
            4int
        } else {
            0int
        },
        TokenDuration::SixtySecond => (minute & 3) * 4,
    }
}

/// The minute masked down to the start of the token's window: the low bit
/// cleared for thirty-second tokens, the low two bits for sixty-second ones.
pub open spec fn spec_adjust_for_hash(d: TokenDuration, minute: u32) -> int {
    match d {
        TokenDuration::ThirtySecond => (minute & !1u32) as int,
        TokenDuration::SixtySecond => (minute & !3u32) as int,
    }
}

impl TokenDuration {
    /// Select which of the four 4-byte words of the final cipher block is
    /// the current tokencode. The result always lies in {0, 4, 8, 12}.
    pub fn time_index(&self, time: TokenTime) -> (r: usize)
        ensures
            r == spec_time_index(*self, time.minute, time.second),
            r == 0 || r == 4 || r == 8 || r == 12,
    {
        match self {
            TokenDuration::ThirtySecond => {
                let minute_part: u32 = (time.minute & 0b01) << 3;
                let second_half: u32 = if time.second >= 30 {
                    0b100
                } else {
                    0b000
                };
                let r: u32 = minute_part | second_half;
                proof {
                    let m = time.minute;
                    if time.second >= 30 {
                        assert(((m & 1) << 3 | 4u32) == (m & 1) * 8 + 4 && (m & 1) <= 1)
                            by (bit_vector);
                    } else {
                        assert(((m & 1) << 3 | 0u32) == (m & 1) * 8 && (m & 1) <= 1)
                            by (bit_vector);
                    }
                }
                r as usize
            },
            TokenDuration::SixtySecond => {
                let r: u32 = (time.minute & 0b11) << 2;
                proof {
                    let m = time.minute;
                    assert(((m & 3) << 2) == (m & 3) * 4 && (m & 3) <= 3) by (bit_vector);
                }
                r as usize
            },
        }
    }

    /// Mask the minute down to the start of the token's window. The result
    /// never exceeds the minute itself.
    pub fn adjust_for_hash(&self, time: TokenTime) -> (r: i32)
        requires
            time.minute < 60,
        ensures
            r == spec_adjust_for_hash(*self, time.minute),
            0 <= r <= time.minute,
    {
        match self {
            TokenDuration::ThirtySecond => {
                let m: u32 = time.minute & !0b01;
                proof {
                    let v = time.minute;
                    assert((v & !1u32) <= v && (v & !1u32) <= 0xffff_ffffu32) by (bit_vector);
                }
                m as i32
            },
            TokenDuration::SixtySecond => {
                let m: u32 = time.minute & !0b11;
                proof {
                    let v = time.minute;
                    assert((v & !3u32) <= v && (v & !3u32) <= 0xffff_ffffu32) by (bit_vector);
                }
                m as i32
            },
        }
    }
}

/// The derived runtime token: serial, duration policy, digit count,
/// plaintext seed and PIN. Immutable once built.
#[derive(Debug)]
pub struct RSAToken {
    serial_number: String,
    pub token_duration: TokenDuration,
    pub digits: usize,
    pub dec_seed: Vec<u8>,
    pub pin: String,
}

/// The mathematical content of a token: what the contracts speak of.
pub ghost struct RSATokenView {
    pub serial: Seq<char>,
    pub duration: TokenDuration,
    pub digits: int,
    pub seed: Seq<u8>,
    pub pin: Seq<char>,
}

impl RSATokenView {
    /// A validly constructed token: a serial of at least 12 decimal digits,
    /// a 16-byte seed, and a PIN made of digits.
    pub open spec fn wf(&self) -> bool {
        &&& self.serial.len() >= 12
        &&& all_digits(self.serial)
        &&& self.seed.len() == 16
        &&& all_digits(self.pin)
    }
}

impl View for RSAToken {
    type V = RSATokenView;

    closed spec fn view(&self) -> RSATokenView {
        RSATokenView {
            serial: self.serial_number@,
            duration: self.token_duration,
            digits: self.digits as int,
            seed: self.dec_seed@,
            pin: self.pin@,
        }
    }
}

impl RSAToken {
    /// Bundle the parts of a token. Nothing is validated here; the checks
    /// live where an SDTID batch is turned into a token.
    pub fn new(
        serial_number: String,
        token_duration: TokenDuration,
        num_digits: usize,
        seed: Vec<u8>,
        pin: String,
    ) -> (r: RSAToken)
        ensures
            r@ == (RSATokenView {
                serial: serial_number@,
                duration: token_duration,
                digits: num_digits as int,
                seed: seed@,
                pin: pin@,
            }),
    {
        RSAToken { serial_number, token_duration, digits: num_digits, dec_seed: seed, pin }
    }

    pub fn serial_number(&self) -> (r: &str)
        ensures
            r@ == self@.serial,
    {
        self.serial_number.as_str()
    }

    /// The duration policy, readable without consuming the token.
    pub fn duration(&self) -> (r: TokenDuration)
        ensures
            r == self@.duration,
    {
        self.token_duration
    }

    /// The digit count, readable without consuming the token.
    pub fn num_digits(&self) -> (r: usize)
        ensures
            r == self@.digits,
    {
        self.digits
    }

    /// The plaintext seed bytes.
    pub fn seed_slice(&self) -> (r: &[u8])
        ensures
            r@ == self@.seed,
    {
        self.dec_seed.as_slice()
    }

    /// The PIN as a string slice.
    pub fn pin_str(&self) -> (r: &str)
        ensures
            r@ == self@.pin,
    {
        self.pin.as_str()
    }
}

/// Whether every character of a string is a decimal digit.
pub fn check_all_digits(s: &str) -> (r: bool)
    ensures
        r == all_digits(s@),
{
    if !s.is_ascii() {
        proof {
            assert(exists|i: int| 0 <= i < s@.len() && !('\0' <= #[trigger] s@[i] <= '\u{7f}'))
                by {
                if forall|i: int| 0 <= i < s@.len() ==> '\0' <= #[trigger] s@[i] <= '\u{7f}' {
                    assert(vstd::utf8::is_ascii_chars(s@));
                }
            }
            let i = choose|i: int|
                0 <= i < s@.len() && !('\0' <= #[trigger] s@[i] <= '\u{7f}');
            assert(!is_digit_char(s@[i]));
        }
        return false;
    }
    let len = s.unicode_len();
    let mut i: usize = 0;
    while i < len
        invariant
            vstd::string::is_ascii(s),
            len == s@.len(),
            i <= len,
            forall|j: int| 0 <= j < i ==> is_digit_char(#[trigger] s@[j]),
        decreases len - i,
    {
        let b = s.get_ascii(i);
        proof {
            assert('\0' <= s@[i as int] <= '\u{7f}');
        }
        if b < 48 || b > 57 {
            proof {
                assert(!is_digit_char(s@[i as int]));
            }
            return false;
        }
        proof {
            assert(is_digit_char(s@[i as int]));
        }
        i += 1;
    }
    true
}

/// The duration that a header interval stands for, when supported.
pub open spec fn spec_duration_of(interval: int) -> Option<TokenDuration> {
    if interval == 60 {
        Some(TokenDuration::SixtySecond)
    } else if interval == 30 {
        Some(TokenDuration::ThirtySecond)
    } else {
        None
    }
}

/// A serial of at least 12 decimal digits.
pub open spec fn spec_serial_ok(s: Seq<char>) -> bool {
    s.len() >= 12 && all_digits(s)
}

/// Whether the batch's seed material decodes: the header secret is valid
/// base64, and the seed, after its leading marker character, decodes to at
/// least the 16 ciphertext bytes the cipher consumes.
pub open spec fn spec_seed_material_ok(b: TKNBatch) -> bool {
    &&& b64_decode(b.header.secret@) is Some
    &&& b.token.seed@.len() >= 1
    &&& b64_decode(seed_tail(b.token.seed@)) is Some
    &&& b64_decode(seed_tail(b.token.seed@)).unwrap().len() >= 16
}

impl RSAToken {
    /// Build a token from a parsed batch and a PIN: map the interval to a
    /// duration, check the digit count, serial and PIN, and derive the
    /// plaintext seed. Each check failing yields its own error, tested in
    /// this order: interval, digits, serial, PIN, seed material.
    pub fn from_xml(token: TKNBatch, pin: &str) -> (r: Result<RSAToken, TokenError>)
        ensures
            r is Ok <==> (spec_duration_of(token.header.interval as int) is Some && 6
                <= token.header.number_of_digits <= 8 && spec_serial_ok(
                token.token.serial_number@,
            ) && all_digits(pin@) && spec_seed_material_ok(token)),
            r is Ok ==> r.unwrap()@ == (RSATokenView {
                serial: token.token.serial_number@,
                duration: spec_duration_of(token.header.interval as int).unwrap(),
                digits: token.header.number_of_digits as int,
                seed: spec_extract_seed(
                    token.header.name@,
                    token.header.origin@,
                    token.header.dest@,
                    b64_decode(token.header.secret@).unwrap(),
                    token.token.serial_number@,
                    b64_decode(seed_tail(token.token.seed@)).unwrap(),
                ),
                pin: pin@,
            }),
            r is Ok ==> r.unwrap()@.wf(),
            spec_duration_of(token.header.interval as int) is None ==> r == Err::<
                RSAToken,
                TokenError,
            >(TokenError::UnsupportedInterval),
            spec_duration_of(token.header.interval as int) is Some && !(6
                <= token.header.number_of_digits <= 8) ==> r == Err::<RSAToken, TokenError>(
                TokenError::UnsupportedDigits,
            ),
            spec_duration_of(token.header.interval as int) is Some && 6
                <= token.header.number_of_digits <= 8 && !spec_serial_ok(
                token.token.serial_number@,
            ) ==> r == Err::<RSAToken, TokenError>(TokenError::InvalidSerial),
            spec_duration_of(token.header.interval as int) is Some && 6
                <= token.header.number_of_digits <= 8 && spec_serial_ok(
                token.token.serial_number@,
            ) && !all_digits(pin@) ==> r == Err::<RSAToken, TokenError>(TokenError::InvalidPin),
            spec_duration_of(token.header.interval as int) is Some && 6
                <= token.header.number_of_digits <= 8 && spec_serial_ok(
                token.token.serial_number@,
            ) && all_digits(pin@) && !spec_seed_material_ok(token) ==> r == Err::<
                RSAToken,
                TokenError,
            >(TokenError::Base64Error),
    {
        let duration = if token.header.interval == 60 {
            TokenDuration::SixtySecond
        } else if token.header.interval == 30 {
            TokenDuration::ThirtySecond
        } else {
            return Err(TokenError::UnsupportedInterval);
        };
        if token.header.number_of_digits < 6 || token.header.number_of_digits > 8 {
            return Err(TokenError::UnsupportedDigits);
        }
        if token.token.serial_number.as_str().unicode_len() < 12 || !check_all_digits(
            token.token.serial_number.as_str(),
        ) {
            return Err(TokenError::InvalidSerial);
        }
        if !check_all_digits(pin) {
            return Err(TokenError::InvalidPin);
        }
        let seed = match extract_seed(&token) {
            Ok(s) => s,
            Err(_) => {
                return Err(TokenError::Base64Error);
            },
        };
        let seed_vec = vstd::slice::slice_to_vec(vstd::array::array_as_slice(&seed));
        Ok(
            RSAToken::new(
                token.token.serial_number,
                duration,
                token.header.number_of_digits,
                seed_vec,
                pin.to_owned(),
            ),
        )
    }
}

} // verus!\n
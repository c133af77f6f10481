use stoken::{encrypt, generate, key_from_time, RSAToken, TokenDuration, TokenTime};

// Recompute the passcode step by step through the public primitives and
// compare with what `generate` returns.
#[test]
fn generate_matches_manual_pipeline() {
    let serial = "000123456789";
    let seed: Vec<u8> = (10..26u8).collect();
    let pin = "12345";
    let time = TokenTime { year: 2019, month: 1, day: 13, hour: 21, minute: 19, second: 34 };

    // BCD time with the minute masked for a sixty-second token: 19 & !3 = 16.
    let bcd_time: [u8; 8] = [0x20, 0x19, 0x01, 0x13, 0x21, 0x16, 0, 0];

    let mut state = [0u8; 16];
    state.copy_from_slice(&seed);
    for len in [2usize, 3, 4, 5, 8] {
        let key = key_from_time(&bcd_time[..len], serial);
        state = encrypt(&state, &key);
    }

    // Sixty-second index: (19 & 3) << 2 = 12.
    let idx = 12;
    let tokencode = ((state[idx] as u32) << 24)
        | ((state[idx + 1] as u32) << 16)
        | ((state[idx + 2] as u32) << 8)
        | (state[idx + 3] as u32);

    let pin_digits: Vec<u32> = pin.bytes().map(|b| (b - b'0') as u32).collect();
    let mut tc = tokencode;
    let mut expected = String::new();
    for k in 0..8usize {
        let mut d = tc % 10;
        tc /= 10;
        if k < pin_digits.len() {
            d += pin_digits[pin_digits.len() - 1 - k];
        }
        expected.insert(0, (((d % 10) as u8) + b'0') as char);
    }

    let token = RSAToken::new(
        serial.to_owned(),
        TokenDuration::SixtySecond,
        8,
        seed,
        pin.to_owned(),
    );
    assert_eq!(generate(token, time), expected);
}

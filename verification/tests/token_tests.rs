use stoken::{generate, RSAToken, TokenDuration, TokenError, TokenTime};

fn sample_xml() -> String {
    let mut s = String::new();
    s.push_str("<?xml version=\"1.0\" encoding=\"UTF-8\"?>\n");
    s.push_str("<TKNBatch>\n<TKNHeader>\n");
    s.push_str("<Version>0</Version>\n");
    s.push_str("<Secret>3q2+796tvu/erb7v3q2+7w==</Secret>\n");
    s.push_str("<Origin>test-origin</Origin>\n");
    s.push_str("<Dest>test-dest</Dest>\n");
    s.push_str("<Name>campus</Name>\n");
    s.push_str("<HeaderMAC>abcd</HeaderMAC>\n");
    s.push_str("<DefInterval>60</DefInterval>\n");
    s.push_str("<DefBirth>2019/01/01</DefBirth>\n");
    s.push_str("<DefDeath>2022/01/01</DefDeath>\n");
    s.push_str("<DefAlg>1</DefAlg>\n");
    s.push_str("<DefDigits>8</DefDigits>\n");
    s.push_str("<DefMode>0</DefMode>\n");
    s.push_str("<DefAddPIN>1</DefAddPIN>\n");
    s.push_str("<DefLocalPIN>0</DefLocalPIN>\n");
    s.push_str("</TKNHeader>\n<TKN>\n");
    s.push_str("<SN>000123456789</SN>\n");
    s.push_str("<Seed>=AAECAwQFBgcICQoLDA0ODw==</Seed>\n");
    s.push_str("<UserFirstName>Jake</UserFirstName>\n");
    s.push_str("<UserLastName>Smith</UserLastName>\n");
    s.push_str("<UserLogin>jake</UserLogin>\n");
    s.push_str("<TokenMAC>efgh</TokenMAC>\n");
    s.push_str("</TKN>\n<TKNTrailer>\n");
    s.push_str("<BatchSignature>sig</BatchSignature>\n");
    s.push_str("<BatchCertificate>cert</BatchCertificate>\n");
    s.push_str("</TKNTrailer>\n</TKNBatch>\n");
    s
}

fn sample_token(pin: &str) -> RSAToken {
    let batch = stoken::read_xml_string(&sample_xml()).unwrap();
    RSAToken::from_xml(batch, pin).unwrap()
}

fn at(hour: u32, minute: u32, second: u32) -> TokenTime {
    TokenTime { year: 2019, month: 1, day: 13, hour, minute, second }
}

#[test]
fn parse_yields_login_and_interval() {
    let batch = stoken::read_xml_string(&sample_xml()).unwrap();
    assert_eq!(batch.token.user_login, "jake");
    assert_eq!(batch.header.interval, 60);
    assert_eq!(batch.header.number_of_digits, 8);
    assert_eq!(batch.token.serial_number, "000123456789");
    assert_eq!(batch.header.name, "campus");
    assert_eq!(batch.trailer.signature, "sig");
}

#[test]
fn sixty_second_interval_masks_seconds() {
    let a = generate(sample_token("12345"), at(21, 19, 0));
    let b = generate(sample_token("12345"), at(21, 19, 59));
    assert_eq!(a, b);
    assert_eq!(a.len(), 8);
}

#[test]
fn minute_boundary_changes_code() {
    let a = generate(sample_token("12345"), at(21, 19, 34));
    let b = generate(sample_token("12345"), at(21, 20, 0));
    assert_ne!(a, b);
}

#[test]
fn pin_change_changes_code() {
    let with_pin = generate(sample_token("12345"), at(21, 19, 34));
    let zero_pin = generate(sample_token("00000"), at(21, 19, 34));
    assert_ne!(with_pin, zero_pin);

    // Each output digit is the no-PIN digit plus the matching PIN digit,
    // mod 10, with the PIN right-aligned.
    let bare = generate(sample_token(""), at(21, 19, 34));
    let pin = "12345".as_bytes();
    let with: Vec<u8> = with_pin.bytes().map(|b| b - b'0').collect();
    let base: Vec<u8> = bare.bytes().map(|b| b - b'0').collect();
    assert_eq!(with.len(), 8);
    assert_eq!(base.len(), 8);
    for k in 0..8usize {
        let pos = 7 - k;
        let pd = if k < 5 { pin[5 - 1 - k] - b'0' } else { 0 };
        assert_eq!(with[pos], (base[pos] + pd) % 10);
    }
}

#[test]
fn generate_is_deterministic_with_expected_shape() {
    let a = generate(sample_token("12345"), at(21, 19, 34));
    let b = generate(sample_token("12345"), at(21, 19, 34));
    assert_eq!(a, b);
    assert_eq!(a.len(), 8);
    assert!(a.bytes().all(|c| c.is_ascii_digit()));
}

#[test]
fn thirty_second_token_splits_minute() {
    let batch = stoken::read_xml_string(&sample_xml()).unwrap();
    let serial = batch.token.serial_number.clone();
    let seed = vec![1u8; 16];
    let t1 = RSAToken::new(
        serial.clone(),
        TokenDuration::ThirtySecond,
        6,
        seed.clone(),
        String::new(),
    );
    let t2 = RSAToken::new(serial, TokenDuration::ThirtySecond, 6, seed, String::new());
    let a = generate(t1, at(10, 7, 0));
    let b = generate(t2, at(10, 7, 31));
    // Same minute, different half-minute window: the index moves.
    assert_eq!(a.len(), 6);
    assert_eq!(b.len(), 6);
    assert_ne!(a, b);
}

#[test]
fn unsupported_interval_is_rejected() {
    let xml = sample_xml().replace("<DefInterval>60<", "<DefInterval>45<");
    let batch = stoken::read_xml_string(&xml).unwrap();
    assert_eq!(
        RSAToken::from_xml(batch, "12345").unwrap_err(),
        TokenError::UnsupportedInterval
    );
}

#[test]
fn unsupported_digits_is_rejected() {
    let xml = sample_xml().replace("<DefDigits>8<", "<DefDigits>9<");
    let batch = stoken::read_xml_string(&xml).unwrap();
    assert_eq!(
        RSAToken::from_xml(batch, "12345").unwrap_err(),
        TokenError::UnsupportedDigits
    );
}

#[test]
fn invalid_serial_is_rejected() {
    let xml = sample_xml().replace("<SN>000123456789<", "<SN>00012345678<");
    let batch = stoken::read_xml_string(&xml).unwrap();
    assert_eq!(
        RSAToken::from_xml(batch, "12345").unwrap_err(),
        TokenError::InvalidSerial
    );
    let xml = sample_xml().replace("<SN>000123456789<", "<SN>00012345678X<");
    let batch = stoken::read_xml_string(&xml).unwrap();
    assert_eq!(
        RSAToken::from_xml(batch, "12345").unwrap_err(),
        TokenError::InvalidSerial
    );
}

#[test]
fn invalid_pin_is_rejected() {
    let batch = stoken::read_xml_string(&sample_xml()).unwrap();
    assert_eq!(
        RSAToken::from_xml(batch, "12a45").unwrap_err(),
        TokenError::InvalidPin
    );
}

#[test]
fn bad_base64_secret_is_rejected() {
    let xml = sample_xml().replace("3q2+796tvu/erb7v3q2+7w==", "!!not base64!!");
    let batch = stoken::read_xml_string(&xml).unwrap();
    assert_eq!(
        RSAToken::from_xml(batch, "12345").unwrap_err(),
        TokenError::Base64Error
    );
}

#[test]
fn short_seed_is_rejected() {
    // After the leading marker character, "AAAA" decodes to only 3 bytes:
    // fewer than the 16 ciphertext bytes the cipher consumes.
    let xml = sample_xml().replace("=AAECAwQFBgcICQoLDA0ODw==", "=AAAA");
    let batch = stoken::read_xml_string(&xml).unwrap();
    assert_eq!(
        RSAToken::from_xml(batch, "12345").unwrap_err(),
        TokenError::Base64Error
    );
}

#[test]
fn bad_seed_tail_is_rejected() {
    let xml = sample_xml().replace("=AAECAwQFBgcICQoLDA0ODw==", "=!!not base64!!");
    let batch = stoken::read_xml_string(&xml).unwrap();
    assert_eq!(
        RSAToken::from_xml(batch, "12345").unwrap_err(),
        TokenError::Base64Error
    );
}

#[test]
fn seed_marker_character_is_ignored() {
    // The first character of the seed element is a version marker; only the
    // tail after it feeds the cipher.
    let a = generate(sample_token("12345"), at(21, 19, 34));
    let xml = sample_xml().replace("=AAECAwQFBgcICQoLDA0ODw==", "XAAECAwQFBgcICQoLDA0ODw==");
    let batch = stoken::read_xml_string(&xml).unwrap();
    let token = RSAToken::from_xml(batch, "12345").unwrap();
    assert_eq!(generate(token, at(21, 19, 34)), a);
}

#[test]
fn end_to_end_expected_codes() {
    // Expected values computed independently of this library from the
    // derivation in its documentation: the thousand-round hash over
    // origin/dest keyed by the name, the "Secret" and "TokenEncrypt"
    // stages, the seed decryption, and the five-round chain in which the
    // running state keys each round.
    assert_eq!(generate(sample_token("12345"), at(21, 19, 34)), "68061232");
    assert_eq!(generate(sample_token("00000"), at(21, 19, 34)), "68059997");
    assert_eq!(generate(sample_token(""), at(21, 19, 34)), "68059997");
}

#[test]
fn non_ascii_text_is_parsed() {
    let xml = sample_xml().replace(
        "<UserFirstName>Jake</UserFirstName>",
        "<UserFirstName>J\u{e2}ke</UserFirstName>",
    );
    let batch = stoken::read_xml_string(&xml).unwrap();
    assert_eq!(batch.token.user_first_name, "J\u{e2}ke");
    assert_eq!(batch.token.user_login, "jake");
}

#[test]
fn missing_field_is_parse_error() {
    let xml = sample_xml().replace("<Origin>test-origin</Origin>\n", "");
    assert_eq!(
        stoken::read_xml_string(&xml).unwrap_err(),
        TokenError::ParseError
    );
    let xml = sample_xml().replace("<Version>0<", "<Version>zero<");
    assert_eq!(
        stoken::read_xml_string(&xml).unwrap_err(),
        TokenError::ParseError
    );
}

#[test]
fn serial_number_getter_round_trips() {
    let token = sample_token("12345");
    assert_eq!(token.serial_number(), "000123456789");
}

#[test]
fn time_index_stays_in_window() {
    for minute in 0..60u32 {
        for second in [0u32, 15, 29, 30, 31, 59] {
            let t = TokenTime { year: 2020, month: 6, day: 1, hour: 12, minute, second };
            let thirty = TokenDuration::ThirtySecond.time_index(t);
            let sixty = TokenDuration::SixtySecond.time_index(t);
            assert!(matches!(thirty, 0 | 4 | 8 | 12));
            assert!(matches!(sixty, 0 | 4 | 8 | 12));
            assert_eq!(sixty, ((minute & 3) << 2) as usize);
        }
    }
}

#[test]
fn adjust_for_hash_masks_low_bits() {
    for minute in 0..60u32 {
        let t = TokenTime { year: 2020, month: 6, day: 1, hour: 12, minute, second: 0 };
        assert_eq!(
            TokenDuration::ThirtySecond.adjust_for_hash(t),
            (minute & !0b01) as i32
        );
        assert_eq!(
            TokenDuration::SixtySecond.adjust_for_hash(t),
            (minute & !0b11) as i32
        );
    }
}

//! The SDTID batch format: a small XML subset with `TKNBatch`, `TKNHeader`,
//! `TKN` and `TKNTrailer` elements whose children are simple tagged values.
//! The parser extracts each field as the text between the first matching
//! open tag and the first close tag after it.

use vstd::prelude::*;

use crate::token::all_digits;
use crate::token::digit_val;
use crate::token::is_digit_char;
use crate::token::TokenError;

verus! {

/// Whether `n` occurs in `h` starting exactly at `i`.
pub open spec fn occurs_at(h: Seq<char>, n: Seq<char>, i: int) -> bool {
    0 <= i && i + n.len() <= h.len() && h.subrange(i, i + n.len()) == n
}

/// Whether `n` occurs in `h` at or after `from`.
pub open spec fn occurs_from(h: Seq<char>, n: Seq<char>, from: int) -> bool {
    exists|i: int| from <= i && occurs_at(h, n, i)
}

/// The first position at or after `from` where `n` occurs in `h`.
pub open spec fn first_occ(h: Seq<char>, n: Seq<char>, from: int) -> int {
    choose|i: int|
        from <= i && occurs_at(h, n, i) && forall|j: int| from <= j < i ==> !occurs_at(h, n, j)
}

/// A found position below every other occurrence is the first occurrence.
pub proof fn lemma_first_occ_is(h: Seq<char>, n: Seq<char>, from: int, i: int)
    requires
        from <= i,
        occurs_at(h, n, i),
        forall|j: int| from <= j < i ==> !occurs_at(h, n, j),
    ensures
        occurs_from(h, n, from),
        first_occ(h, n, from) == i,
{
    assert(occurs_from(h, n, from));
    let c = first_occ(h, n, from);
    assert(from <= c && occurs_at(h, n, c) && forall|j: int|
        from <= j < c ==> !occurs_at(h, n, j)) by {
        assert(from <= i && occurs_at(h, n, i) && forall|j: int|
            from <= j < i ==> !occurs_at(h, n, j));
    }
    if c < i {
        assert(!occurs_at(h, n, c));
    }
    if i < c {
        assert(!occurs_at(h, n, i));
    }
}

/// Find the first occurrence of `needle` in `hay` at or after `from`.
/// Returns the least such position, or `None` when there is none.
pub fn find_from(hay: &str, needle: &str, from: usize) -> (r: Option<usize>)
    ensures
        match r {
            Some(i) => {
                &&& from <= i
                &&& occurs_at(hay@, needle@, i as int)
                &&& forall|j: int| from <= j < i ==> !occurs_at(hay@, needle@, j)
                &&& occurs_from(hay@, needle@, from as int)
                &&& first_occ(hay@, needle@, from as int) == i
            },
            None => !occurs_from(hay@, needle@, from as int),
        },
{
    let hl = hay.unicode_len();
    let nl = needle.unicode_len();
    if nl > hl || from > hl - nl {
        proof {
            assert(forall|j: int| from <= j ==> !occurs_at(hay@, needle@, j));
        }
        return None;
    }
    let mut i: usize = from;
    while i <= hl - nl
        invariant
            nl == needle@.len(),
            hl == hay@.len(),
            nl <= hl,
            from <= i <= hl - nl + 1,
            forall|j: int| from <= j < i ==> !occurs_at(hay@, needle@, j),
        decreases hl - nl - i + 1,
    {
        let mut m: usize = 0;
        let mut matched = true;
        while m < nl
            invariant
                nl == needle@.len(),
                hl == hay@.len(),
                i + nl <= hl,
                m <= nl,
                matched ==> forall|t: int| 0 <= t < m ==> hay@[i + t] == needle@[t],
                !matched ==> exists|t: int| 0 <= t < nl && hay@[i + t] != needle@[t],
            decreases nl - m,
        {
            let hc = hay.get_char(i + m);
            let nc = needle.get_char(m);
            if hc != nc {
                matched = false;
            }
            m += 1;
        }
        if matched {
            proof {
                assert(hay@.subrange(i as int, i + nl as int) =~= needle@);
                lemma_first_occ_is(hay@, needle@, from as int, i as int);
            }
            return Some(i);
        }
        proof {
            assert(!occurs_at(hay@, needle@, i as int)) by {
                let t = choose|t: int| 0 <= t < nl && hay@[i + t] != needle@[t];
                if occurs_at(hay@, needle@, i as int) {
                    assert(hay@.subrange(i as int, i + nl as int)[t] == needle@[t]);
                }
            }
        }
        i += 1;
    }
    proof {
        assert(forall|j: int| from <= j ==> !occurs_at(hay@, needle@, j));
    }
    None
}

/// The opening tag of an element name.
pub open spec fn tag_open(name: Seq<char>) -> Seq<char> {
    seq!['<'] + name + seq!['>']
}

/// The closing tag of an element name.
pub open spec fn tag_close(name: Seq<char>) -> Seq<char> {
    seq!['<', '/'] + name + seq!['>']
}

/// The text of the named element: everything between the first opening tag
/// and the first closing tag after it; `None` when either tag is missing.
#[verifier::opaque]
pub open spec fn spec_content(s: Seq<char>, name: Seq<char>) -> Option<Seq<char>> {
    let open = tag_open(name);
    let close = tag_close(name);
    if !occurs_from(s, open, 0) {
        None
    } else {
        let start = first_occ(s, open, 0) + open.len();
        if !occurs_from(s, close, start) {
            None
        } else {
            Some(s.subrange(start, first_occ(s, close, start)))
        }
    }
}

/// Extract the text of the named element, per `spec_content`.
pub fn content_of<'a>(s: &'a str, name: &str) -> (r: Option<&'a str>)
    ensures
        match r {
            Some(c) => spec_content(s@, name@) == Some(c@),
            None => spec_content(s@, name@) is None,
        },
{
    let open = String::from_str("<").concat(name).concat(">");
    let close = String::from_str("</").concat(name).concat(">");
    proof {
        reveal(spec_content);
        reveal_strlit("<");
        reveal_strlit("</");
        reveal_strlit(">");
        assert(open@ =~= tag_open(name@));
        assert(close@ =~= tag_close(name@));
    }
    let slen = s.unicode_len();
    let open_at = match find_from(s, open.as_str(), 0) {
        Some(i) => i,
        None => {
            return None;
        },
    };
    let start = open_at + open.as_str().unicode_len();
    let close_at = match find_from(s, close.as_str(), start) {
        Some(i) => i,
        None => {
            return None;
        },
    };
    let c = s.substring_char(start, close_at);
    Some(c)
}

/// The number written by a digit string, most significant digit first.
pub open spec fn spec_digits_val(s: Seq<char>) -> int
    decreases s.len(),
{
    if s.len() == 0 {
        0
    } else {
        spec_digits_val(s.drop_last()) * 10 + digit_val(s.last())
    }
}

/// A field parses as an integer when it is a non-empty digit string whose
/// value fits an `i32`.
pub open spec fn spec_parse_int(s: Seq<char>) -> Option<int> {
    if s.len() > 0 && all_digits(s) && spec_digits_val(s) <= 0x7fffffff {
        Some(spec_digits_val(s))
    } else {
        None
    }
}

/// A digit string's value is non-negative.
pub proof fn lemma_digits_val_nonneg(s: Seq<char>)
    requires
        all_digits(s),
    ensures
        spec_digits_val(s) >= 0,
    decreases s.len(),
{
    if s.len() > 0 {
        assert(all_digits(s.drop_last())) by {
            assert(forall|i: int|
                0 <= i < s.len() - 1 ==> #[trigger] s.drop_last()[i] == s[i]);
        }
        lemma_digits_val_nonneg(s.drop_last());
        assert(is_digit_char(s.last()));
    }
}

/// A digit string's value bounds the value of each of its prefixes.
pub proof fn lemma_digits_val_prefix(s: Seq<char>, k: int)
    requires
        all_digits(s),
        0 <= k <= s.len(),
    ensures
        spec_digits_val(s.take(k)) <= spec_digits_val(s),
    decreases s.len() - k,
{
    if k < s.len() {
        lemma_digits_val_prefix(s, k + 1);
        let t1 = s.take(k + 1);
        assert(t1.drop_last() =~= s.take(k));
        assert(t1.last() == s[k]);
        assert(all_digits(s.take(k))) by {
            assert(forall|i: int| 0 <= i < k ==> #[trigger] s.take(k)[i] == s[i]);
        }
        lemma_digits_val_nonneg(s.take(k));
        assert(is_digit_char(s[k]));
    } else {
        assert(s.take(k) =~= s);
    }
}

/// Parse a non-empty decimal digit string whose value fits an `i32`.
pub fn parse_int(s: &str) -> (r: Option<i32>)
    ensures
        match r {
            Some(v) => spec_parse_int(s@) == Some(v as int) && v >= 0,
            None => spec_parse_int(s@) is None,
        },
{
    if !s.is_ascii() {
        proof {
            assert(exists|i: int| 0 <= i < s@.len() && !('\0' <= #[trigger] s@[i] <= '\u{7f}'))
                by {
                if forall|i: int| 0 <= i < s@.len() ==> '\0' <= #[trigger] s@[i] <= '\u{7f}' {
                    assert(vstd::utf8::is_ascii_chars(s@));
                }
            }
            let i = choose|i: int|
                0 <= i < s@.len() && !('\0' <= #[trigger] s@[i] <= '\u{7f}');
            assert(!is_digit_char(s@[i]));
        }
        return None;
    }
    let len = s.unicode_len();
    if len == 0 {
        return None;
    }
    let mut acc: u64 = 0;
    let mut i: usize = 0;
    while i < len
        invariant
            vstd::string::is_ascii(s),
            len == s@.len(),
            0 < len,
            i <= len,
            acc <= 0x7fffffff,
            acc == spec_digits_val(s@.take(i as int)),
            forall|j: int| 0 <= j < i ==> is_digit_char(#[trigger] s@[j]),
        decreases len - i,
    {
        let b = s.get_ascii(i);
        proof {
            assert('\0' <= s@[i as int] <= '\u{7f}');
        }
        if b < 48 || b > 57 {
            proof {
                assert(!is_digit_char(s@[i as int]));
            }
            return None;
        }
        proof {
            assert(is_digit_char(s@[i as int]));
            assert(s@.take(i + 1).drop_last() =~= s@.take(i as int));
            assert(s@.take(i + 1).last() == s@[i as int]);
        }
        acc = acc * 10 + ((b - 48) as u64);
        i += 1;
        if acc > 0x7fffffff {
            proof {
                if all_digits(s@) {
                    lemma_digits_val_prefix(s@, i as int);
                }
            }
            return None;
        }
    }
    proof {
        assert(s@.take(len as int) =~= s@);
    }
    Some(acc as i32)
}

/// The header element of an SDTID batch.
#[derive(Debug, Clone, PartialEq)]
pub struct TKNHeader {
    pub version: i32,
    pub secret: String,
    pub origin: String,
    pub dest: String,
    pub name: String,
    pub mac: String,
    pub interval: i32,
    pub start: String,
    pub end: String,
    pub alg: i32,
    pub number_of_digits: usize,
    pub mode: i32,
    pub add_pin: i32,
    pub local_pin: i32,
}

/// The token element of an SDTID batch.
#[derive(Debug, Clone, PartialEq)]
pub struct TKN {
    pub serial_number: String,
    pub seed: String,
    pub user_first_name: String,
    pub user_last_name: String,
    pub user_login: String,
    pub pin_type: Option<i32>,
    pub mac: String,
}

/// The trailer element of an SDTID batch.
#[derive(Debug, Clone, PartialEq)]
pub struct TKNTrailer {
    pub signature: String,
    pub certificate: String,
}

/// A parsed SDTID batch: header, token and trailer.
#[derive(Debug, Clone, PartialEq)]
pub struct TKNBatch {
    pub header: TKNHeader,
    pub token: TKN,
    pub trailer: TKNTrailer,
}
/// Whether the named field exists and reads as an integer.
pub open spec fn int_ok(h: Seq<char>, name: Seq<char>) -> bool {
    &&& spec_content(h, name) is Some
    &&& spec_parse_int(spec_content(h, name).unwrap()) is Some
}

/// The named field reads as the integer `v`.
pub open spec fn int_is(h: Seq<char>, name: Seq<char>, v: int) -> bool {
    &&& spec_content(h, name) is Some
    &&& spec_parse_int(spec_content(h, name).unwrap()) == Some(v)
}

/// The named field's text is `v`.
pub open spec fn str_is(h: Seq<char>, name: Seq<char>, v: Seq<char>) -> bool {
    spec_content(h, name) == Some(v)
}

/// Every required header field is present, integers in range.
pub open spec fn spec_header_ok(h: Seq<char>) -> bool {
    &&& int_ok(h, "Version"@)
    &&& spec_content(h, "Secret"@) is Some
    &&& spec_content(h, "Origin"@) is Some
    &&& spec_content(h, "Dest"@) is Some
    &&& spec_content(h, "Name"@) is Some
    &&& spec_content(h, "HeaderMAC"@) is Some
    &&& int_ok(h, "DefInterval"@)
    &&& spec_content(h, "DefBirth"@) is Some
    &&& spec_content(h, "DefDeath"@) is Some
    &&& int_ok(h, "DefAlg"@)
    &&& int_ok(h, "DefDigits"@)
    &&& int_ok(h, "DefMode"@)
    &&& int_ok(h, "DefAddPIN"@)
    &&& int_ok(h, "DefLocalPIN"@)
}

/// The parsed header matches the header element text field for field.
pub open spec fn spec_header_matches(h: Seq<char>, hdr: TKNHeader) -> bool {
    &&& int_is(h, "Version"@, hdr.version as int)
    &&& str_is(h, "Secret"@, hdr.secret@)
    &&& str_is(h, "Origin"@, hdr.origin@)
    &&& str_is(h, "Dest"@, hdr.dest@)
    &&& str_is(h, "Name"@, hdr.name@)
    &&& str_is(h, "HeaderMAC"@, hdr.mac@)
    &&& int_is(h, "DefInterval"@, hdr.interval as int)
    &&& str_is(h, "DefBirth"@, hdr.start@)
    &&& str_is(h, "DefDeath"@, hdr.end@)
    &&& int_is(h, "DefAlg"@, hdr.alg as int)
    &&& int_is(h, "DefDigits"@, hdr.number_of_digits as int)
    &&& int_is(h, "DefMode"@, hdr.mode as int)
    &&& int_is(h, "DefAddPIN"@, hdr.add_pin as int)
    &&& int_is(h, "DefLocalPIN"@, hdr.local_pin as int)
}

/// Every required token field is present; `PinType`, when present, reads as
/// an integer.
pub open spec fn spec_tkn_ok(h: Seq<char>) -> bool {
    &&& spec_content(h, "SN"@) is Some
    &&& spec_content(h, "Seed"@) is Some
    &&& spec_content(h, "UserFirstName"@) is Some
    &&& spec_content(h, "UserLastName"@) is Some
    &&& spec_content(h, "UserLogin"@) is Some
    &&& match spec_content(h, "PinType"@) {
        Option::None => true,
        Option::Some(c) => spec_parse_int(c) is Some,
    }
    &&& spec_content(h, "TokenMAC"@) is Some
}

/// The parsed token matches the token element text field for field.
pub open spec fn spec_tkn_matches(h: Seq<char>, t: TKN) -> bool {
    &&& str_is(h, "SN"@, t.serial_number@)
    &&& str_is(h, "Seed"@, t.seed@)
    &&& str_is(h, "UserFirstName"@, t.user_first_name@)
    &&& str_is(h, "UserLastName"@, t.user_last_name@)
    &&& str_is(h, "UserLogin"@, t.user_login@)
    &&& match spec_content(h, "PinType"@) {
        Option::None => t.pin_type is None,
        Option::Some(c) => t.pin_type is Some && spec_parse_int(c) == Some(
            t.pin_type.unwrap() as int,
        ),
    }
    &&& str_is(h, "TokenMAC"@, t.mac@)
}

/// Both trailer fields are present.
pub open spec fn spec_trailer_ok(h: Seq<char>) -> bool {
    &&& spec_content(h, "BatchSignature"@) is Some
    &&& spec_content(h, "BatchCertificate"@) is Some
}

/// The parsed trailer matches the trailer element text field for field.
pub open spec fn spec_trailer_matches(h: Seq<char>, t: TKNTrailer) -> bool {
    &&& str_is(h, "BatchSignature"@, t.signature@)
    &&& str_is(h, "BatchCertificate"@, t.certificate@)
}

/// The document holds the three sections and every required field.
pub open spec fn spec_batch_ok(s: Seq<char>) -> bool {
    &&& spec_content(s, "TKNHeader"@) is Some
    &&& spec_header_ok(spec_content(s, "TKNHeader"@).unwrap())
    &&& spec_content(s, "TKN"@) is Some
    &&& spec_tkn_ok(spec_content(s, "TKN"@).unwrap())
    &&& spec_content(s, "TKNTrailer"@) is Some
    &&& spec_trailer_ok(spec_content(s, "TKNTrailer"@).unwrap())
}

/// The parsed batch matches the document section for section.
pub open spec fn spec_batch_matches(s: Seq<char>, b: TKNBatch) -> bool {
    &&& spec_content(s, "TKNHeader"@) is Some
    &&& spec_header_matches(spec_content(s, "TKNHeader"@).unwrap(), b.header)
    &&& spec_content(s, "TKN"@) is Some
    &&& spec_tkn_matches(spec_content(s, "TKN"@).unwrap(), b.token)
    &&& spec_content(s, "TKNTrailer"@) is Some
    &&& spec_trailer_matches(spec_content(s, "TKNTrailer"@).unwrap(), b.trailer)
}

/// The named field of a section, copied out as a `String`.
fn field_string(sect: &str, name: &str) -> (r: Option<String>)
    ensures
        match r {
            Some(v) => spec_content(sect@, name@) == Some(v@),
            None => spec_content(sect@, name@) is None,
        },
{
    match content_of(sect, name) {
        Some(c) => Some(c.to_owned()),
        None => None,
    }
}

/// The named field of a section, read as an integer.
fn field_i32(sect: &str, name: &str) -> (r: Option<i32>)
    ensures
        r is Some <==> int_ok(sect@, name@),
        r is Some ==> int_is(sect@, name@, r.unwrap() as int) && r.unwrap() >= 0,
{
    match content_of(sect, name) {
        Some(c) => parse_int(c),
        None => None,
    }
}

/// Parse the header element's fields.
#[verifier::rlimit(60)]
fn parse_header(sect: &str) -> (r: Option<TKNHeader>)
    ensures
        r is Some <==> spec_header_ok(sect@),
        r is Some ==> spec_header_matches(sect@, r.unwrap()),
{
    proof {
        reveal_strlit("Version");
        reveal_strlit("Secret");
        reveal_strlit("Origin");
        reveal_strlit("Dest");
        reveal_strlit("Name");
        reveal_strlit("HeaderMAC");
        reveal_strlit("DefInterval");
        reveal_strlit("DefBirth");
        reveal_strlit("DefDeath");
        reveal_strlit("DefAlg");
        reveal_strlit("DefDigits");
        reveal_strlit("DefMode");
        reveal_strlit("DefAddPIN");
        reveal_strlit("DefLocalPIN");
    }
    let version = match field_i32(sect, "Version") {
        Some(v) => v,
        None => {
            return None;
        },
    };
    let secret = match field_string(sect, "Secret") {
        Some(v) => v,
        None => {
            return None;
        },
    };
    let origin = match field_string(sect, "Origin") {
        Some(v) => v,
        None => {
            return None;
        },
    };
    let dest = match field_string(sect, "Dest") {
        Some(v) => v,
        None => {
            return None;
        },
    };
    let name = match field_string(sect, "Name") {
        Some(v) => v,
        None => {
            return None;
        },
    };
    let mac = match field_string(sect, "HeaderMAC") {
        Some(v) => v,
        None => {
            return None;
        },
    };
    let interval = match field_i32(sect, "DefInterval") {
        Some(v) => v,
        None => {
            return None;
        },
    };
    let start = match field_string(sect, "DefBirth") {
        Some(v) => v,
        None => {
            return None;
        },
    };
    let end = match field_string(sect, "DefDeath") {
        Some(v) => v,
        None => {
            return None;
        },
    };
    let alg = match field_i32(sect, "DefAlg") {
        Some(v) => v,
        None => {
            return None;
        },
    };
    let number_of_digits = match field_i32(sect, "DefDigits") {
        Some(v) => v as usize,
        None => {
            return None;
        },
    };
    let mode = match field_i32(sect, "DefMode") {
        Some(v) => v,
        None => {
            return None;
        },
    };
    let add_pin = match field_i32(sect, "DefAddPIN") {
        Some(v) => v,
        None => {
            return None;
        },
    };
    let local_pin = match field_i32(sect, "DefLocalPIN") {
        Some(v) => v,
        None => {
            return None;
        },
    };
    Some(
        TKNHeader {
            version,
            secret,
            origin,
            dest,
            name,
            mac,
            interval,
            start,
            end,
            alg,
            number_of_digits,
            mode,
            add_pin,
            local_pin,
        },
    )
}

/// Parse the token element's fields.
#[verifier::rlimit(60)]
fn parse_tkn(sect: &str) -> (r: Option<TKN>)
    ensures
        r is Some <==> spec_tkn_ok(sect@),
        r is Some ==> spec_tkn_matches(sect@, r.unwrap()),
{
    proof {
        reveal_strlit("SN");
        reveal_strlit("Seed");
        reveal_strlit("UserFirstName");
        reveal_strlit("UserLastName");
        reveal_strlit("UserLogin");
        reveal_strlit("PinType");
        reveal_strlit("TokenMAC");
    }
    let serial_number = match field_string(sect, "SN") {
        Some(v) => v,
        None => {
            return None;
        },
    };
    let seed = match field_string(sect, "Seed") {
        Some(v) => v,
        None => {
            return None;
        },
    };
    let user_first_name = match field_string(sect, "UserFirstName") {
        Some(v) => v,
        None => {
            return None;
        },
    };
    let user_last_name = match field_string(sect, "UserLastName") {
        Some(v) => v,
        None => {
            return None;
        },
    };
    let user_login = match field_string(sect, "UserLogin") {
        Some(v) => v,
        None => {
            return None;
        },
    };
    let pin_type = match content_of(sect, "PinType") {
        None => None,
        Some(c) => match parse_int(c) {
            Some(v) => Some(v),
            None => {
                return None;
            },
        },
    };
    let mac = match field_string(sect, "TokenMAC") {
        Some(v) => v,
        None => {
            return None;
        },
    };
    Some(
        TKN {
            serial_number,
            seed,
            user_first_name,
            user_last_name,
            user_login,
            pin_type,
            mac,
        },
    )
}

/// Parse the trailer element's fields.
fn parse_trailer(sect: &str) -> (r: Option<TKNTrailer>)
    ensures
        r is Some <==> spec_trailer_ok(sect@),
        r is Some ==> spec_trailer_matches(sect@, r.unwrap()),
{
    proof {
        reveal_strlit("BatchSignature");
        reveal_strlit("BatchCertificate");
    }
    let signature = match field_string(sect, "BatchSignature") {
        Some(v) => v,
        None => {
            return None;
        },
    };
    let certificate = match field_string(sect, "BatchCertificate") {
        Some(v) => v,
        None => {
            return None;
        },
    };
    Some(TKNTrailer { signature, certificate })
}

/// Parse an SDTID document. Returns the batch exactly when every required
/// field is present and well formed; every failure is `ParseError`.
pub fn read_string(contents: &str) -> (r: Result<TKNBatch, TokenError>)
    ensures
        r is Ok <==> spec_batch_ok(contents@),
        r is Ok ==> spec_batch_matches(contents@, r.unwrap()),
        r is Err ==> r.unwrap_err() == TokenError::ParseError,
{
    proof {
        reveal_strlit("TKNHeader");
        reveal_strlit("TKN");
        reveal_strlit("TKNTrailer");
    }
    let header_c = match content_of(contents, "TKNHeader") {
        Some(c) => c,
        None => {
            return Err(TokenError::ParseError);
        },
    };
    let token_c = match content_of(contents, "TKN") {
        Some(c) => c,
        None => {
            return Err(TokenError::ParseError);
        },
    };
    let trailer_c = match content_of(contents, "TKNTrailer") {
        Some(c) => c,
        None => {
            return Err(TokenError::ParseError);
        },
    };
    let header = match parse_header(header_c) {
        Some(h) => h,
        None => {
            return Err(TokenError::ParseError);
        },
    };
    let token = match parse_tkn(token_c) {
        Some(t) => t,
        None => {
            return Err(TokenError::ParseError);
        },
    };
    let trailer = match parse_trailer(trailer_c) {
        Some(t) => t,
        None => {
            return Err(TokenError::ParseError);
        },
    };
    Ok(TKNBatch { header, token, trailer })
}

} // verus!

//! The hand-rolled JSON reader for the OAuth token response.
//!
//! The response is a small, well-known object with at most five fields.
//! The reader keeps only those fields, skips any other value (strings,
//! numbers, literals, nested objects and arrays), and reports every
//! malformation as [`SpotifyApiError::Malformed`] with a static tag.
//!
//! The `spec_*` functions below are the grammar the reader implements,
//! written over the body's bytes and a position in them.

use vstd::prelude::*;
use vstd::string::StringSliceAdditionalSpecFns;
use vstd::utf8::decode_utf8;
use vstd::utf8::encode_scalar;
use vstd::utf8::encode_utf8;
use vstd::utf8::encode_utf8_decode_utf8;
use vstd::utf8::valid_utf8;

use crate::spotify::client::SpotifyApiError;
use crate::spotify::types::Timestamp;
use crate::spotify::types::TokenSet;

verus! {

broadcast use vstd::string::group_string_axioms;

// ---------------------------------------------------------------------------
// The grammar
// ---------------------------------------------------------------------------

/// A malformation tag, or a value read and the position after it.
pub type Step<T> = Result<(T, int), &'static str>;

/// `u8::is_ascii_whitespace`: space, tab, line feed, form feed, carriage return.
pub open spec fn is_ws(b: u8) -> bool {
    b == 0x20 || b == 0x09 || b == 0x0a || b == 0x0c || b == 0x0d
}

/// `u8::is_ascii_digit`.
pub open spec fn is_digit(b: u8) -> bool {
    48 <= b <= 57
}

/// The byte at `p`, if any.
pub open spec fn peek(s: Seq<u8>, p: int) -> Option<u8> {
    if 0 <= p < s.len() {
        Some(s[p])
    } else {
        None
    }
}

/// The first position at or after `p` that does not hold whitespace.
pub open spec fn skip_ws(s: Seq<u8>, p: int) -> int
    decreases s.len() - p,
{
    if 0 <= p < s.len() && is_ws(s[p]) {
        skip_ws(s, p + 1)
    } else {
        p
    }
}

/// After whitespace, the byte `b`; the position after it.
pub open spec fn spec_expect(s: Seq<u8>, p: int, b: u8) -> Result<int, &'static str> {
    let q = skip_ws(s, p);
    if peek(s, q) == Some(b) {
        Ok(q + 1)
    } else {
        Err("expected_byte")
    }
}

/// The value of an ASCII hex digit (`char::to_digit(16)`).
pub open spec fn hex_value(b: u8) -> Option<u32> {
    if 48 <= b <= 57 {
        Some((b - 48) as u32)
    } else if 97 <= b <= 102 {
        Some((b - 87) as u32)
    } else if 65 <= b <= 70 {
        Some((b - 55) as u32)
    } else {
        None
    }
}

/// The code unit of `n` more hex digits from `p`, accumulated onto `acc`.
pub open spec fn spec_hex_digits(s: Seq<u8>, p: int, n: nat, acc: u32) -> Result<u32, &'static str>
    decreases n,
{
    if n == 0 {
        Ok(acc)
    } else {
        match peek(s, p) {
            None => Err("eof_in_unicode_escape"),
            Some(b) => match hex_value(b) {
                None => Err("invalid_unicode_escape"),
                Some(d) => spec_hex_digits(s, p + 1, (n - 1) as nat, (acc * 16 + d) as u32),
            },
        }
    }
}

/// A UTF-16 surrogate, which no `char` holds.
pub open spec fn is_surrogate(code: u32) -> bool {
    0xD800 <= code <= 0xDFFF
}

/// The byte an escape `\b` stands for, for the single-byte escapes.
pub open spec fn simple_escape(b: u8) -> Option<u8> {
    if b == 0x22 {
        Some(0x22u8)
    } else if b == 0x5c {
        Some(0x5cu8)
    } else if b == 0x2f {
        Some(0x2fu8)
    } else if b == 0x6e {
        Some(0x0au8)
    } else if b == 0x74 {
        Some(0x09u8)
    } else if b == 0x72 {
        Some(0x0du8)
    } else if b == 0x62 {
        Some(0x08u8)
    } else if b == 0x66 {
        Some(0x0cu8)
    } else {
        None
    }
}

/// The bytes of a string's contents from `p` (just after the opening
/// quote or a previous piece), appended to `acc`, and the position after
/// the closing quote.
pub open spec fn spec_string_body(s: Seq<u8>, p: int, acc: Seq<u8>) -> Step<Seq<u8>>
    decreases s.len() - p,
{
    if p < 0 || p >= s.len() {
        Err("unterminated_string")
    } else {
        let b = s[p];
        if b == 0x22 {
            Ok((acc, p + 1))
        } else if b == 0x5c {
            match peek(s, p + 1) {
                Some(e) => if e == 0x75 {
                    match spec_hex_digits(s, p + 2, 4, 0) {
                        Err(tag) => Err(tag),
                        Ok(code) => if is_surrogate(code) {
                            Err("invalid_unicode_codepoint")
                        } else {
                            proof {
                                lemma_hex_digits_in_bounds(s, p + 2, 4, 0);
                            }
                            spec_string_body(s, p + 6, acc + encode_scalar(code))
                        },
                    }
                } else {
                    match simple_escape(e) {
                        Some(out) => spec_string_body(s, p + 2, acc.push(out)),
                        None => Err("invalid_escape"),
                    }
                },
                None => Err("invalid_escape"),
            }
        } else if b < 0x20 {
            Err("control_char_in_string")
        } else {
            spec_string_body(s, p + 1, acc.push(b))
        }
    }
}

/// After whitespace, a quoted string; its decoded characters.
pub open spec fn spec_parse_string(s: Seq<u8>, p: int) -> Step<Seq<char>> {
    let q = skip_ws(s, p);
    if peek(s, q) != Some(0x22u8) {
        Err("expected_string")
    } else {
        match spec_string_body(s, q + 1, seq![]) {
            Err(tag) => Err(tag),
            Ok((raw, end)) => if valid_utf8(raw) {
                Ok((decode_utf8(raw), end))
            } else {
                Err("invalid_utf8_string")
            },
        }
    }
}

/// The first position at or after `p` that does not hold a digit.
pub open spec fn digits_end(s: Seq<u8>, p: int) -> int
    decreases s.len() - p,
{
    if 0 <= p < s.len() && is_digit(s[p]) {
        digits_end(s, p + 1)
    } else {
        p
    }
}

/// The decimal value of the digits `s[a..e]`.
pub open spec fn digits_value(s: Seq<u8>, a: int, e: int) -> nat
    decreases e - a,
{
    if e <= a {
        0
    } else {
        digits_value(s, a, e - 1) * 10 + (s[e - 1] - 48) as nat
    }
}

/// After whitespace, an unsigned decimal integer that fits in a `u64`.
pub open spec fn spec_parse_u64(s: Seq<u8>, p: int) -> Step<u64> {
    let q = skip_ws(s, p);
    let e = digits_end(s, q);
    if e == q {
        Err("expected_number")
    } else if digits_value(s, q, e) > u64::MAX {
        Err("u64_overflow")
    } else {
        Ok((digits_value(s, q, e) as u64, e))
    }
}

/// The position after the digits of a number's fraction or exponent part.
pub open spec fn spec_skip_number(s: Seq<u8>, p: int) -> int {
    let a = if peek(s, p) == Some(0x2du8) {
        p + 1
    } else {
        p
    };
    let b = digits_end(s, a);
    let c = if peek(s, b) == Some(0x2eu8) {
        digits_end(s, b + 1)
    } else {
        b
    };
    if peek(s, c) == Some(0x65u8) || peek(s, c) == Some(0x45u8) {
        let d = if peek(s, c + 1) == Some(0x2bu8) || peek(s, c + 1) == Some(0x2du8) {
            c + 2
        } else {
            c + 1
        };
        digits_end(s, d)
    } else {
        c
    }
}

/// The literal `lit` at `p`; the position after it.
pub open spec fn spec_expect_literal(s: Seq<u8>, p: int, lit: Seq<u8>) -> Result<int, &'static str> {
    if 0 <= p && p + lit.len() <= s.len() && s.subrange(p, p + lit.len()) == lit {
        Ok(p + lit.len())
    } else {
        Err("expected_literal")
    }
}

/// After whitespace, any JSON value; the position after it.
pub open spec fn spec_skip_value(s: Seq<u8>, p: int) -> Result<int, &'static str>
    decreases s.len() - p, 3int,
{
    let q = skip_ws(s, p);
    proof {
        lemma_skip_ws(s, p);
    }
    match peek(s, q) {
        Some(b) => if b == 0x22 {
            match spec_parse_string(s, q) {
                Ok((_, e)) => Ok(e),
                Err(tag) => Err(tag),
            }
        } else if b == 0x7b {
            spec_skip_object(s, q)
        } else if b == 0x5b {
            spec_skip_array(s, q)
        } else if b == 0x74 {
            spec_expect_literal(s, q, seq![0x74u8, 0x72u8, 0x75u8, 0x65u8])
        } else if b == 0x66 {
            spec_expect_literal(s, q, seq![0x66u8, 0x61u8, 0x6cu8, 0x73u8, 0x65u8])
        } else if b == 0x6e {
            spec_expect_literal(s, q, seq![0x6eu8, 0x75u8, 0x6cu8, 0x6cu8])
        } else if is_digit(b) || b == 0x2d {
            Ok(spec_skip_number(s, q))
        } else {
            Err("unexpected_value")
        },
        None => Err("unexpected_value"),
    }
}

/// An object whose members are skipped; the position after its `}`.
pub open spec fn spec_skip_object(s: Seq<u8>, p: int) -> Result<int, &'static str>
    decreases s.len() - p, 2int,
{
    match spec_expect(s, p, 0x7b) {
        Err(tag) => Err(tag),
        Ok(q) => {
            proof {
                lemma_skip_ws(s, p);
            }
            let r = skip_ws(s, q);
            proof {
                lemma_skip_ws(s, q);
            }
            if peek(s, r) == Some(0x7du8) {
                Ok(r + 1)
            } else {
                spec_skip_members(s, r)
            }
        },
    }
}

/// One member `key: value` of an object whose members are skipped; the
/// position after its value.
pub open spec fn spec_skip_member(s: Seq<u8>, p: int) -> Result<int, &'static str>
    decreases s.len() - p, 0int,
{
    match spec_parse_string(s, p) {
        Err(tag) => Err(tag),
        Ok((_, r2)) => {
            proof {
                lemma_parse_string_advances(s, p);
            }
            match spec_expect(s, skip_ws(s, r2), 0x3a) {
                Err(tag) => Err(tag),
                Ok(r4) => {
                    proof {
                        lemma_skip_ws(s, r2);
                        lemma_skip_ws(s, skip_ws(s, r2));
                    }
                    spec_skip_value(s, r4)
                },
            }
        },
    }
}

/// Members `key: value` separated by commas up to the object's `}`.
pub open spec fn spec_skip_members(s: Seq<u8>, p: int) -> Result<int, &'static str>
    decreases s.len() - p, 1int,
{
    match spec_skip_member(s, p) {
        Err(tag) => Err(tag),
        Ok(r5) => {
            let r6 = skip_ws(s, r5);
            if peek(s, r6) == Some(0x2cu8) {
                if r6 >= r5 && r5 > p {
                    spec_skip_members(s, r6 + 1)
                } else {
                    Err("expected_object_end")
                }
            } else if peek(s, r6) == Some(0x7du8) {
                Ok(r6 + 1)
            } else {
                Err("expected_object_end")
            }
        },
    }
}

/// An array whose elements are skipped; the position after its `]`.
pub open spec fn spec_skip_array(s: Seq<u8>, p: int) -> Result<int, &'static str>
    decreases s.len() - p, 2int,
{
    match spec_expect(s, p, 0x5b) {
        Err(tag) => Err(tag),
        Ok(q) => {
            proof {
                lemma_skip_ws(s, p);
            }
            let r = skip_ws(s, q);
            proof {
                lemma_skip_ws(s, q);
            }
            if peek(s, r) == Some(0x5du8) {
                Ok(r + 1)
            } else {
                spec_skip_elements(s, r)
            }
        },
    }
}

/// Values separated by commas up to the array's `]`.
pub open spec fn spec_skip_elements(s: Seq<u8>, p: int) -> Result<int, &'static str>
    decreases s.len() - p, 4int,
{
    match spec_skip_value(s, p) {
        Err(tag) => Err(tag),
        Ok(r) => {
            let r2 = skip_ws(s, r);
            if peek(s, r2) == Some(0x2cu8) {
                if r2 >= r && r >= p {
                    spec_skip_elements(s, r2 + 1)
                } else {
                    Err("expected_array_end")
                }
            } else if peek(s, r2) == Some(0x5du8) {
                Ok(r2 + 1)
            } else {
                Err("expected_array_end")
            }
        },
    }
}

pub proof fn lemma_skip_ws(s: Seq<u8>, p: int)
    ensures
        skip_ws(s, p) >= p,
        p >= 0 ==> skip_ws(s, p) <= s.len() || skip_ws(s, p) == p,
        skip_ws(s, skip_ws(s, p)) == skip_ws(s, p),
    decreases s.len() - p,
{
    if 0 <= p < s.len() && is_ws(s[p]) {
        lemma_skip_ws(s, p + 1);
    }
}

pub proof fn lemma_hex_digits_in_bounds(s: Seq<u8>, p: int, n: nat, acc: u32)
    requires
        0 <= p <= s.len(),
    ensures
        spec_hex_digits(s, p, n, acc) is Ok ==> p + n <= s.len(),
    decreases n,
{
    if n > 0 {
        match peek(s, p) {
            Some(b) => match hex_value(b) {
                Some(d) => lemma_hex_digits_in_bounds(s, p + 1, (n - 1) as nat, (acc * 16 + d) as u32),
                None => {},
            },
            None => {},
        }
    }
}

pub proof fn lemma_string_body_advances(s: Seq<u8>, p: int, acc: Seq<u8>)
    ensures
        spec_string_body(s, p, acc) matches Ok((_, e)) ==> e > p && e <= s.len(),
    decreases s.len() - p,
{
    if 0 <= p < s.len() {
        let b = s[p];
        if b == 0x5c {
            match peek(s, p + 1) {
                Some(e) => if e == 0x75 {
                    match spec_hex_digits(s, p + 2, 4, 0) {
                        Ok(code) => if !is_surrogate(code) {
                            lemma_hex_digits_in_bounds(s, p + 2, 4, 0);
                            lemma_string_body_advances(s, p + 6, acc + encode_scalar(code));
                        },
                        Err(_) => {},
                    }
                } else {
                    match simple_escape(e) {
                        Some(out) => lemma_string_body_advances(s, p + 2, acc.push(out)),
                        None => {},
                    }
                },
                None => {},
            }
        } else if b != 0x22 && b >= 0x20 {
            lemma_string_body_advances(s, p + 1, acc.push(b));
        }
    }
}

pub proof fn lemma_parse_string_advances(s: Seq<u8>, p: int)
    ensures
        spec_parse_string(s, p) matches Ok((_, e)) ==> e > p && e > skip_ws(s, p),
{
    lemma_skip_ws(s, p);
    lemma_string_body_advances(s, skip_ws(s, p) + 1, seq![]);
}


/// Every successful skip moves forward and stays inside the body.
pub proof fn lemma_skip_value_advances(s: Seq<u8>, p: int)
    requires
        0 <= p <= s.len(),
    ensures
        spec_skip_value(s, p) matches Ok(r) ==> p < r <= s.len(),
    decreases s.len() - p, 3int,
{
    lemma_skip_ws(s, p);
    let q = skip_ws(s, p);
    lemma_skip_ws_bound(s, p);
    match peek(s, q) {
        Some(b) => if b == 0x22 {
            lemma_parse_string_advances(s, q);
            lemma_parse_string_bound(s, q);
        } else if b == 0x7b {
            lemma_skip_object_advances(s, q);
        } else if b == 0x5b {
            lemma_skip_array_advances(s, q);
        } else if is_digit(b) || b == 0x2d {
            lemma_skip_number_advances(s, q);
        },
        None => {},
    }
}

pub proof fn lemma_skip_object_advances(s: Seq<u8>, p: int)
    requires
        0 <= p <= s.len(),
    ensures
        spec_skip_object(s, p) matches Ok(r) ==> p < r <= s.len(),
    decreases s.len() - p, 2int,
{
    lemma_skip_ws(s, p);
    lemma_skip_ws_bound(s, p);
    match spec_expect(s, p, 0x7b) {
        Ok(q) => {
            lemma_skip_ws(s, q);
            lemma_skip_ws_bound(s, q);
            let r = skip_ws(s, q);
            if peek(s, r) != Some(0x7du8) {
                lemma_skip_members_advances(s, r);
            }
        },
        Err(_) => {},
    }
}

pub proof fn lemma_skip_member_advances(s: Seq<u8>, p: int)
    requires
        0 <= p <= s.len(),
    ensures
        spec_skip_member(s, p) matches Ok(r) ==> p < r <= s.len(),
    decreases s.len() - p, 0int,
{
    lemma_parse_string_advances(s, p);
    lemma_parse_string_bound(s, p);
    match spec_parse_string(s, p) {
        Ok((_, r2)) => {
            lemma_skip_ws(s, r2);
            lemma_skip_ws_bound(s, r2);
            lemma_skip_ws(s, skip_ws(s, r2));
            lemma_skip_ws_bound(s, skip_ws(s, r2));
            match spec_expect(s, skip_ws(s, r2), 0x3a) {
                Ok(r4) => {
                    lemma_skip_value_advances(s, r4);
                },
                Err(_) => {},
            }
        },
        Err(_) => {},
    }
}

pub proof fn lemma_skip_members_advances(s: Seq<u8>, p: int)
    requires
        0 <= p <= s.len(),
    ensures
        spec_skip_members(s, p) matches Ok(r) ==> p < r <= s.len(),
    decreases s.len() - p, 1int,
{
    lemma_skip_member_advances(s, p);
    match spec_skip_member(s, p) {
        Ok(r5) => {
            lemma_skip_ws(s, r5);
            lemma_skip_ws_bound(s, r5);
            let r6 = skip_ws(s, r5);
            if peek(s, r6) == Some(0x2cu8) {
                lemma_skip_members_advances(s, r6 + 1);
            }
        },
        Err(_) => {},
    }
}

pub proof fn lemma_skip_array_advances(s: Seq<u8>, p: int)
    requires
        0 <= p <= s.len(),
    ensures
        spec_skip_array(s, p) matches Ok(r) ==> p < r <= s.len(),
    decreases s.len() - p, 2int,
{
    lemma_skip_ws(s, p);
    lemma_skip_ws_bound(s, p);
    match spec_expect(s, p, 0x5b) {
        Ok(q) => {
            lemma_skip_ws(s, q);
            lemma_skip_ws_bound(s, q);
            let r = skip_ws(s, q);
            if peek(s, r) != Some(0x5du8) {
                lemma_skip_elements_advances(s, r);
            }
        },
        Err(_) => {},
    }
}

pub proof fn lemma_skip_elements_advances(s: Seq<u8>, p: int)
    requires
        0 <= p <= s.len(),
    ensures
        spec_skip_elements(s, p) matches Ok(r) ==> p < r <= s.len(),
    decreases s.len() - p, 4int,
{
    lemma_skip_value_advances(s, p);
    match spec_skip_value(s, p) {
        Ok(r) => {
            lemma_skip_ws(s, r);
            lemma_skip_ws_bound(s, r);
            let r2 = skip_ws(s, r);
            if peek(s, r2) == Some(0x2cu8) {
                lemma_skip_elements_advances(s, r2 + 1);
            }
        },
        Err(_) => {},
    }
}

pub proof fn lemma_skip_ws_bound(s: Seq<u8>, p: int)
    requires
        0 <= p <= s.len(),
    ensures
        p <= skip_ws(s, p) <= s.len(),
    decreases s.len() - p,
{
    if 0 <= p < s.len() && is_ws(s[p]) {
        lemma_skip_ws_bound(s, p + 1);
    }
}

pub proof fn lemma_digits_end_bound(s: Seq<u8>, p: int)
    requires
        0 <= p <= s.len(),
    ensures
        p <= digits_end(s, p) <= s.len(),
        forall|i: int| p <= i < digits_end(s, p) ==> is_digit(#[trigger] s[i]),
    decreases s.len() - p,
{
    if 0 <= p < s.len() && is_digit(s[p]) {
        lemma_digits_end_bound(s, p + 1);
    }
}

pub proof fn lemma_skip_number_advances(s: Seq<u8>, p: int)
    requires
        0 <= p < s.len(),
        is_digit(s[p]) || s[p] == 0x2d,
    ensures
        p < spec_skip_number(s, p) <= s.len(),
{
    let a = if peek(s, p) == Some(0x2du8) {
        p + 1
    } else {
        p
    };
    lemma_digits_end_bound(s, a);
    if is_digit(s[p]) {
        lemma_digits_end_bound(s, p + 1);
    }
    let b = digits_end(s, a);
    if peek(s, b) == Some(0x2eu8) {
        lemma_digits_end_bound(s, b + 1);
    }
    let c = if peek(s, b) == Some(0x2eu8) {
        digits_end(s, b + 1)
    } else {
        b
    };
    if peek(s, c) == Some(0x65u8) || peek(s, c) == Some(0x45u8) {
        let d = if peek(s, c + 1) == Some(0x2bu8) || peek(s, c + 1) == Some(0x2du8) {
            c + 2
        } else {
            c + 1
        };
        lemma_digits_end_bound(s, d);
    }
}

pub proof fn lemma_parse_string_bound(s: Seq<u8>, p: int)
    requires
        0 <= p <= s.len(),
    ensures
        spec_parse_string(s, p) matches Ok((_, e)) ==> e <= s.len(),
{
    lemma_skip_ws(s, p);
    lemma_string_body_advances(s, skip_ws(s, p) + 1, seq![]);
}

pub proof fn lemma_parse_u64_advances(s: Seq<u8>, p: int)
    requires
        0 <= p <= s.len(),
    ensures
        spec_parse_u64(s, p) matches Ok((_, e)) ==> p < e <= s.len(),
{
    lemma_skip_ws_bound(s, p);
    lemma_digits_end_bound(s, skip_ws(s, p));
}

// ---------------------------------------------------------------------------
// The token response
// ---------------------------------------------------------------------------

/// The fields of a token response read so far.
pub struct TokenFields {
    pub access_token: Option<Seq<char>>,
    pub token_type: Option<Seq<char>>,
    pub expires_in: Option<u64>,
    pub refresh_token: Option<Seq<char>>,
    pub scope: Option<Seq<char>>,
}

/// No field read yet.
pub open spec fn no_fields() -> TokenFields {
    TokenFields {
        access_token: None,
        token_type: None,
        expires_in: None,
        refresh_token: None,
        scope: None,
    }
}

/// The value of one member whose key is `key`, read from `p` (just after
/// the colon): a known key sets its field, any other value is skipped.
pub open spec fn spec_member_value(s: Seq<u8>, p: int, key: Seq<char>, f: TokenFields) -> Step<
    TokenFields,
> {
    if key == "access_token"@ {
        match spec_parse_string(s, p) {
            Ok((v, e)) => Ok((TokenFields { access_token: Some(v), ..f }, e)),
            Err(tag) => Err(tag),
        }
    } else if key == "token_type"@ {
        match spec_parse_string(s, p) {
            Ok((v, e)) => Ok((TokenFields { token_type: Some(v), ..f }, e)),
            Err(tag) => Err(tag),
        }
    } else if key == "expires_in"@ {
        match spec_parse_u64(s, p) {
            Ok((v, e)) => Ok((TokenFields { expires_in: Some(v), ..f }, e)),
            Err(tag) => Err(tag),
        }
    } else if key == "refresh_token"@ {
        match spec_parse_string(s, p) {
            Ok((v, e)) => Ok((TokenFields { refresh_token: Some(v), ..f }, e)),
            Err(tag) => Err(tag),
        }
    } else if key == "scope"@ {
        match spec_parse_string(s, p) {
            Ok((v, e)) => Ok((TokenFields { scope: Some(v), ..f }, e)),
            Err(tag) => Err(tag),
        }
    } else {
        match spec_skip_value(s, p) {
            Ok(e) => Ok((f, e)),
            Err(tag) => Err(tag),
        }
    }
}

pub proof fn lemma_member_value_advances(s: Seq<u8>, p: int, key: Seq<char>, f: TokenFields)
    requires
        0 <= p <= s.len(),
    ensures
        spec_member_value(s, p, key, f) matches Ok((_, e)) ==> p < e <= s.len(),
{
    lemma_parse_string_advances(s, p);
    lemma_parse_string_bound(s, p);
    lemma_parse_u64_advances(s, p);
    lemma_skip_value_advances(s, p);
}

/// The members of the response object from `p` up to its `}`, later
/// members overriding earlier ones.
pub open spec fn spec_token_members(s: Seq<u8>, p: int, f: TokenFields) -> Result<
    TokenFields,
    &'static str,
>
    decreases s.len() - p,
{
    if p < 0 || p > s.len() {
        Err("expected_string")
    } else {
        match spec_parse_string(s, p) {
            Err(tag) => Err(tag),
            Ok((key, r2)) => {
                proof {
                    lemma_parse_string_advances(s, p);
                    lemma_parse_string_bound(s, p);
                    lemma_skip_ws_bound(s, r2);
                    lemma_skip_ws(s, skip_ws(s, r2));
                    lemma_skip_ws_bound(s, skip_ws(s, r2));
                }
                match spec_expect(s, skip_ws(s, r2), 0x3a) {
                    Err(tag) => Err(tag),
                    Ok(r3) => {
                        proof {
                            lemma_member_value_advances(s, r3, key, f);
                        }
                        match spec_member_value(s, r3, key, f) {
                            Err(tag) => Err(tag),
                            Ok((f2, r4)) => {
                                proof {
                                    lemma_skip_ws_bound(s, r4);
                                }
                                let r5 = skip_ws(s, r4);
                                if peek(s, r5) == Some(0x2cu8) {
                                    spec_token_members(s, r5 + 1, f2)
                                } else if peek(s, r5) == Some(0x7du8) {
                                    Ok(f2)
                                } else {
                                    Err("expected_object_end")
                                }
                            },
                        }
                    },
                }
            },
        }
    }
}

/// A token response: an object holding at least `access_token`,
/// `token_type` and `expires_in`; the fields it holds, or the
/// malformation tag.
pub open spec fn spec_token_response(s: Seq<u8>) -> Result<TokenFields, &'static str> {
    match spec_expect(s, 0, 0x7b) {
        Err(tag) => Err(tag),
        Ok(p1) => {
            let p2 = skip_ws(s, p1);
            let fields = if peek(s, p2) == Some(0x7du8) {
                Ok(no_fields())
            } else {
                spec_token_members(s, p2, no_fields())
            };
            match fields {
                Err(tag) => Err(tag),
                Ok(f) => if f.access_token is None {
                    Err("missing_access_token")
                } else if f.token_type is None {
                    Err("missing_token_type")
                } else if f.expires_in is None {
                    Err("missing_expires_in")
                } else {
                    Ok(f)
                },
            }
        },
    }
}


// ---------------------------------------------------------------------------
// Written strings read back
// ---------------------------------------------------------------------------

/// The lower-case hexadecimal digit for `v` in `0..16`, as a byte.
pub open spec fn lower_hex_byte(v: int) -> u8 {
    if v < 10 {
        (48 + v) as u8
    } else {
        (87 + v) as u8
    }
}

/// How a JSON writer writes byte `b` of a string's UTF-8 form (as
/// `serde_json` does): `"` and `\` behind a backslash, `\b \t \n \f \r`
/// for those control bytes, `\u00xx` for the other control bytes, and
/// every other byte as it is.
pub open spec fn json_escape_byte(b: u8) -> Seq<u8> {
    if b == 0x22 {
        seq![0x5cu8, 0x22u8]
    } else if b == 0x5c {
        seq![0x5cu8, 0x5cu8]
    } else if b == 0x08 {
        seq![0x5cu8, 0x62u8]
    } else if b == 0x09 {
        seq![0x5cu8, 0x74u8]
    } else if b == 0x0a {
        seq![0x5cu8, 0x6eu8]
    } else if b == 0x0c {
        seq![0x5cu8, 0x66u8]
    } else if b == 0x0d {
        seq![0x5cu8, 0x72u8]
    } else if b < 0x20 {
        seq![0x5cu8, 0x75u8, 0x30u8, 0x30u8, lower_hex_byte(b as int / 16), lower_hex_byte(b as int % 16)]
    } else {
        seq![b]
    }
}

/// The bytes `bs`, each written as [`json_escape_byte`] writes it.
pub open spec fn json_escape(bs: Seq<u8>) -> Seq<u8>
    decreases bs.len(),
{
    if bs.len() == 0 {
        seq![]
    } else {
        json_escape_byte(bs[0]) + json_escape(bs.drop_first())
    }
}

/// The JSON string literal a writer gives for the text `t`.
pub open spec fn json_string(t: Seq<char>) -> Seq<u8> {
    seq![0x22u8] + json_escape(encode_utf8(t)) + seq![0x22u8]
}

/// `s` holds `part` from `p` on.
pub open spec fn holds_at(s: Seq<u8>, p: int, part: Seq<u8>) -> bool {
    0 <= p && p + part.len() <= s.len() && s.subrange(p, p + part.len() as int) == part
}

/// What `s` holds at a position that holds `part`.
proof fn lemma_holds_at_index(s: Seq<u8>, p: int, part: Seq<u8>, k: int)
    requires
        holds_at(s, p, part),
        0 <= k < part.len(),
    ensures
        s[p + k] == part[k],
{
    assert(s.subrange(p, p + part.len() as int)[k] == s[p + k]);
}

/// A position that holds `a + b` holds `a`, and `b` right after it.
proof fn lemma_holds_at_split(s: Seq<u8>, p: int, a: Seq<u8>, b: Seq<u8>)
    requires
        holds_at(s, p, a + b),
    ensures
        holds_at(s, p, a),
        holds_at(s, p + a.len(), b),
{
    let whole = a + b;
    assert forall|k: int| 0 <= k < a.len() implies s.subrange(p, p + a.len() as int)[k] == a[k] by {
        lemma_holds_at_index(s, p, whole, k);
    }
    assert(s.subrange(p, p + a.len() as int) =~= a);
    assert forall|k: int| 0 <= k < b.len() implies s.subrange(p + a.len(), p + a.len() + b.len())[k]
        == b[k] by {
        lemma_holds_at_index(s, p, whole, a.len() + k);
    }
    assert(s.subrange(p + a.len(), p + a.len() + b.len()) =~= b);
}

/// Four hex digits `00xx` read back as the control byte `b`.
proof fn lemma_hex_control(s: Seq<u8>, p: int, b: u8)
    requires
        b < 0x20,
        holds_at(s, p, seq![0x30u8, 0x30u8, lower_hex_byte(b as int / 16), lower_hex_byte(b as int % 16)]),
    ensures
        spec_hex_digits(s, p, 4, 0) == Ok::<u32, &'static str>(b as u32),
{
    let part = seq![0x30u8, 0x30u8, lower_hex_byte(b as int / 16), lower_hex_byte(b as int % 16)];
    lemma_holds_at_index(s, p, part, 0);
    lemma_holds_at_index(s, p, part, 1);
    lemma_holds_at_index(s, p, part, 2);
    lemma_holds_at_index(s, p, part, 3);
    assert(hex_value(s[p]) == Some(0u32));
    assert(hex_value(s[p + 1]) == Some(0u32));
    assert(hex_value(s[p + 2]) == Some((b / 16) as u32));
    assert(hex_value(s[p + 3]) == Some((b % 16) as u32));
    assert(spec_hex_digits(s, p + 4, 0, b as u32) == Ok::<u32, &'static str>(b as u32));
    assert(spec_hex_digits(s, p + 3, 1, (b / 16) as u32) == Ok::<u32, &'static str>(b as u32));
    assert(spec_hex_digits(s, p + 2, 2, 0) == Ok::<u32, &'static str>(b as u32));
    assert(spec_hex_digits(s, p + 1, 3, 0) == Ok::<u32, &'static str>(b as u32));
}

/// Escaped bytes followed by a closing quote are read back as the bytes,
/// appended to what was read before, and the reader stops after the quote.
proof fn lemma_string_body_escaped(s: Seq<u8>, p: int, acc: Seq<u8>, bs: Seq<u8>)
    requires
        holds_at(s, p, json_escape(bs) + seq![0x22u8]),
    ensures
        spec_string_body(s, p, acc) == Ok::<(Seq<u8>, int), &'static str>(
            (acc + bs, p + json_escape(bs).len() + 1),
        ),
    decreases bs.len(),
{
    let whole = json_escape(bs) + seq![0x22u8];
    if bs.len() == 0 {
        lemma_holds_at_index(s, p, whole, 0);
        assert(acc + bs =~= acc);
    } else {
        let b = bs[0];
        let rest = bs.drop_first();
        let head = json_escape_byte(b);
        let tail = json_escape(rest) + seq![0x22u8];
        assert(json_escape(bs) == head + json_escape(rest));
        assert(whole =~= head + tail);
        lemma_holds_at_split(s, p, head, tail);
        let q = p + head.len();
        lemma_holds_at_index(s, p, head, 0);
        if head.len() > 1 {
            lemma_holds_at_index(s, p, head, 1);
        }
        if b == 0x22 || b == 0x5c || b == 0x08 || b == 0x09 || b == 0x0a || b == 0x0c || b == 0x0d {
            assert(s[p] == 0x5c && peek(s, p + 1) == Some(head[1]));
            assert(simple_escape(head[1]) == Some(b));
            lemma_string_body_escaped(s, q, acc.push(b), rest);
            assert(acc.push(b) + rest =~= acc + bs);
        } else if b < 0x20 {
            assert(s[p] == 0x5c && peek(s, p + 1) == Some(0x75u8));
            let digits = seq![0x30u8, 0x30u8, lower_hex_byte(b as int / 16), lower_hex_byte(b as int % 16)];
            assert(head =~= seq![0x5cu8, 0x75u8] + digits);
            lemma_holds_at_split(s, p, seq![0x5cu8, 0x75u8], digits);
            lemma_hex_control(s, p + 2, b);
            let code = b as u32;
            assert(!is_surrogate(code));
            assert((code & 0x7F) as u8 == b) by (bit_vector)
                requires
                    code == b as u32,
                    b < 0x20u8,
            ;
            assert(encode_scalar(code) =~= seq![b]);
            lemma_string_body_escaped(s, q, acc + encode_scalar(code), rest);
            assert(acc + encode_scalar(code) + rest =~= acc + bs);
        } else {
            assert(s[p] == b);
            lemma_string_body_escaped(s, q, acc.push(b), rest);
            assert(acc.push(b) + rest =~= acc + bs);
        }
    }
}

/// A string a JSON writer wrote for any text reads back as that text: at a
/// position holding [`json_string`] of `t`, the reader yields `t` and stops
/// after the closing quote.
pub proof fn law_written_string_reads_back(s: Seq<u8>, p: int, t: Seq<char>)
    requires
        holds_at(s, p, json_string(t)),
    ensures
        spec_parse_string(s, p) == Ok::<(Seq<char>, int), &'static str>(
            (t, p + json_string(t).len()),
        ),
{
    let js = json_string(t);
    let body = json_escape(encode_utf8(t)) + seq![0x22u8];
    assert(js =~= seq![0x22u8] + body);
    lemma_holds_at_split(s, p, seq![0x22u8], body);
    lemma_holds_at_index(s, p, js, 0);
    assert(skip_ws(s, p) == p);
    lemma_string_body_escaped(s, p + 1, seq![], encode_utf8(t));
    assert(seq![] + encode_utf8(t) =~= encode_utf8(t));
    vstd::utf8::encode_utf8_valid_utf8(t);
    vstd::utf8::encode_utf8_decode_utf8(t);
}


/// The decimal digits of `n`, as bytes.
pub open spec fn json_decimal(n: nat) -> Seq<u8>
    decreases n,
{
    if n < 10 {
        seq![(48 + n) as u8]
    } else {
        json_decimal(n / 10).push((48 + n % 10) as u8)
    }
}

/// An object member `"key":value` as a writer gives it.
pub open spec fn json_member(key: Seq<char>, value: Seq<u8>) -> Seq<u8> {
    json_string(key) + seq![0x3au8] + value
}

/// A member whose value is the string `v`, then a comma; nothing when
/// there is no value.
pub open spec fn optional_member(key: Seq<char>, v: Option<Seq<char>>) -> Seq<u8> {
    match v {
        Some(x) => json_member(key, json_string(x)) + seq![0x2cu8],
        None => seq![],
    }
}

/// The token response a JSON writer (`serde_json`) gives for these
/// fields: an object with its members in key order, without whitespace.
pub open spec fn written_token_body(
    access_token: Seq<char>,
    expires_in: u64,
    refresh_token: Option<Seq<char>>,
    scope: Option<Seq<char>>,
    token_type: Seq<char>,
) -> Seq<u8> {
    seq![0x7bu8] + json_member("access_token"@, json_string(access_token)) + seq![0x2cu8]
        + json_member("expires_in"@, json_decimal(expires_in as nat)) + seq![0x2cu8]
        + optional_member("refresh_token"@, refresh_token) + optional_member("scope"@, scope)
        + json_member("token_type"@, json_string(token_type)) + seq![0x7du8]
}

/// The decimal digits of `n` are digits and read back as `n`.
proof fn lemma_json_decimal(s: Seq<u8>, p: int, n: nat)
    requires
        holds_at(s, p, json_decimal(n)),
    ensures
        json_decimal(n).len() >= 1,
        forall|k: int| p <= k < p + json_decimal(n).len() ==> is_digit(#[trigger] s[k]),
        digits_value(s, p, p + json_decimal(n).len()) == n,
    decreases n,
{
    let d = json_decimal(n);
    if n < 10 {
        lemma_holds_at_index(s, p, d, 0);
        assert(digits_value(s, p, p) == 0);
        assert(digits_value(s, p, p + 1) == digits_value(s, p, p) * 10 + (s[p] - 48) as nat);
    } else {
        let h = json_decimal(n / 10);
        let last = seq![(48 + n % 10) as u8];
        assert(d =~= h + last);
        lemma_holds_at_split(s, p, h, last);
        lemma_json_decimal(s, p, n / 10);
        lemma_holds_at_index(s, p + h.len(), last, 0);
        assert(s[p + h.len()] == 48 + n % 10);
        assert(digits_value(s, p, p + d.len()) == digits_value(s, p, p + h.len()) * 10 + (s[p
            + h.len()] - 48) as nat);
        assert((n / 10) * 10 + n % 10 == n);
    }
}

/// Digits run from `i` up to `e`, where a non-digit (or the end) stands.
proof fn lemma_digits_end_at(s: Seq<u8>, i: int, e: int)
    requires
        0 <= i <= e <= s.len(),
        forall|k: int| i <= k < e ==> is_digit(#[trigger] s[k]),
        e < s.len() ==> !is_digit(s[e]),
    ensures
        digits_end(s, i) == e,
    decreases e - i,
{
    if i < e {
        lemma_digits_end_at(s, i + 1, e);
    }
}

/// A written `u64` followed by a non-digit reads back as itself.
proof fn lemma_written_u64(s: Seq<u8>, p: int, n: u64)
    requires
        holds_at(s, p, json_decimal(n as nat)),
        p + json_decimal(n as nat).len() < s.len(),
        !is_digit(s[p + json_decimal(n as nat).len()]),
    ensures
        spec_parse_u64(s, p) == Ok::<(u64, int), &'static str>(
            (n, p + json_decimal(n as nat).len()),
        ),
{
    let e = p + json_decimal(n as nat).len();
    lemma_json_decimal(s, p, n as nat);
    assert(is_digit(s[p]));
    assert(skip_ws(s, p) == p);
    lemma_digits_end_at(s, p, e);
}

/// One member followed by `sep`: after it the members go on (a comma) or
/// end (a closing brace), with the fields its value gives.
proof fn lemma_member_step(
    s: Seq<u8>,
    p: int,
    key: Seq<char>,
    value: Seq<u8>,
    sep: u8,
    f: TokenFields,
    f2: TokenFields,
)
    requires
        holds_at(s, p, json_member(key, value) + seq![sep]),
        sep == 0x2c || sep == 0x7d,
        spec_member_value(s, p + json_string(key).len() + 1, key, f) == Ok::<
            (TokenFields, int),
            &'static str,
        >((f2, p + json_member(key, value).len())),
    ensures
        sep == 0x2c ==> spec_token_members(s, p, f) == spec_token_members(
            s,
            p + json_member(key, value).len() + 1,
            f2,
        ),
        sep == 0x7d ==> spec_token_members(s, p, f) == Ok::<TokenFields, &'static str>(f2),
{
    let js = json_string(key);
    let m = json_member(key, value);
    assert(m + seq![sep] =~= js + (seq![0x3au8] + value + seq![sep]));
    lemma_holds_at_split(s, p, js, seq![0x3au8] + value + seq![sep]);
    law_written_string_reads_back(s, p, key);
    let r2 = p + js.len();
    lemma_holds_at_index(s, r2, seq![0x3au8] + value + seq![sep], 0);
    assert(skip_ws(s, r2) == r2);
    assert(spec_expect(s, r2, 0x3a) == Ok::<int, &'static str>(r2 + 1));
    let r4 = p + m.len();
    lemma_holds_at_index(s, p, m + seq![sep], m.len() as int);
    assert(s[r4] == sep);
    assert(skip_ws(s, r4) == r4);
}

/// The four token response keys whose values are strings.
pub open spec fn is_string_key(key: Seq<char>) -> bool {
    key == "access_token"@ || key == "token_type"@ || key == "refresh_token"@ || key == "scope"@
}

/// The fields `f` with the string field named `key` set to `v`.
pub open spec fn with_string_field(f: TokenFields, key: Seq<char>, v: Seq<char>) -> TokenFields {
    if key == "access_token"@ {
        TokenFields { access_token: Some(v), ..f }
    } else if key == "token_type"@ {
        TokenFields { token_type: Some(v), ..f }
    } else if key == "refresh_token"@ {
        TokenFields { refresh_token: Some(v), ..f }
    } else {
        TokenFields { scope: Some(v), ..f }
    }
}

/// A member `"key":"v"` followed by `sep`, for a string field `key`.
proof fn lemma_string_member_step(
    s: Seq<u8>,
    p: int,
    key: Seq<char>,
    v: Seq<char>,
    sep: u8,
    f: TokenFields,
)
    requires
        is_string_key(key),
        holds_at(s, p, json_member(key, json_string(v)) + seq![sep]),
        sep == 0x2c || sep == 0x7d,
    ensures
        sep == 0x2c ==> spec_token_members(s, p, f) == spec_token_members(
            s,
            p + json_member(key, json_string(v)).len() + 1,
            with_string_field(f, key, v),
        ),
        sep == 0x7d ==> spec_token_members(s, p, f) == Ok::<TokenFields, &'static str>(
            with_string_field(f, key, v),
        ),
{
    reveal_strlit("access_token");
    reveal_strlit("expires_in");
    reveal_strlit("refresh_token");
    reveal_strlit("scope");
    reveal_strlit("token_type");
    let js = json_string(key);
    let q = p + js.len() + 1;
    assert(json_member(key, json_string(v)) + seq![sep] =~= (js + seq![0x3au8]) + (json_string(
        v,
    ) + seq![sep]));
    lemma_holds_at_split(s, p, js + seq![0x3au8], json_string(v) + seq![sep]);
    lemma_holds_at_split(s, q, json_string(v), seq![sep]);
    law_written_string_reads_back(s, q, v);
    assert("expires_in"@.len() != "access_token"@.len() && "expires_in"@[0] != "token_type"@[0]);
    assert(spec_member_value(s, q, key, f) == Ok::<(TokenFields, int), &'static str>(
        (with_string_field(f, key, v), p + json_member(key, json_string(v)).len()),
    ));
    lemma_member_step(s, p, key, json_string(v), sep, f, with_string_field(f, key, v));
}

/// The member `"expires_in":n` followed by a comma.
proof fn lemma_expires_in_step(s: Seq<u8>, p: int, n: u64, f: TokenFields)
    requires
        holds_at(s, p, json_member("expires_in"@, json_decimal(n as nat)) + seq![0x2cu8]),
    ensures
        spec_token_members(s, p, f) == spec_token_members(
            s,
            p + json_member("expires_in"@, json_decimal(n as nat)).len() + 1,
            TokenFields { expires_in: Some(n), ..f },
        ),
{
    reveal_strlit("access_token");
    reveal_strlit("expires_in");
    reveal_strlit("token_type");
    let key = "expires_in"@;
    let d = json_decimal(n as nat);
    let js = json_string(key);
    let q = p + js.len() + 1;
    assert(json_member(key, d) + seq![0x2cu8] =~= (js + seq![0x3au8]) + (d + seq![0x2cu8]));
    lemma_holds_at_split(s, p, js + seq![0x3au8], d + seq![0x2cu8]);
    lemma_holds_at_split(s, q, d, seq![0x2cu8]);
    lemma_holds_at_index(s, q + d.len(), seq![0x2cu8], 0);
    lemma_written_u64(s, q, n);
    assert(key.len() != "access_token"@.len() && key[0] != "token_type"@[0]);
    lemma_member_step(s, p, key, d, 0x2c, f, TokenFields { expires_in: Some(n), ..f });
}

/// An optional string member: with a value, one member step; without,
/// nothing.
proof fn lemma_optional_step(
    s: Seq<u8>,
    p: int,
    key: Seq<char>,
    v: Option<Seq<char>>,
    f: TokenFields,
)
    requires
        is_string_key(key),
        holds_at(s, p, optional_member(key, v)),
    ensures
        spec_token_members(s, p, f) == spec_token_members(
            s,
            p + optional_member(key, v).len(),
            match v {
                Some(x) => with_string_field(f, key, x),
                None => f,
            },
        ),
{
    if let Some(x) = v {
        lemma_string_member_step(s, p, key, x, 0x2c, f);
    }
}

/// Where the pieces of a written token response stand.
proof fn lemma_token_body_layout(
    s: Seq<u8>,
    m1: Seq<u8>,
    m2: Seq<u8>,
    o3: Seq<u8>,
    o4: Seq<u8>,
    m5: Seq<u8>,
)
    requires
        s == seq![0x7bu8] + m1 + seq![0x2cu8] + m2 + seq![0x2cu8] + o3 + o4 + m5 + seq![0x7du8],
    ensures
        s[0] == 0x7b,
        holds_at(s, 1, m1 + seq![0x2cu8]),
        holds_at(s, 1int + m1.len() + 1, m2 + seq![0x2cu8]),
        holds_at(s, 1int + m1.len() + 1 + m2.len() + 1, o3),
        holds_at(s, 1int + m1.len() + 1 + m2.len() + 1 + o3.len(), o4),
        holds_at(s, 1int + m1.len() + 1 + m2.len() + 1 + o3.len() + o4.len(), m5 + seq![0x7du8]),
{
    let a = seq![0x7bu8];
    let b = m1 + seq![0x2cu8];
    let c = m2 + seq![0x2cu8];
    let e = m5 + seq![0x7du8];
    assert(s =~= a + b + c + o3 + o4 + e);
    assert(s.subrange(0, s.len() as int) =~= s);
    assert(holds_at(s, 0, s));
    lemma_holds_at_split(s, 0, a + b + c + o3 + o4, e);
    lemma_holds_at_split(s, 0, a + b + c + o3, o4);
    lemma_holds_at_split(s, 0, a + b + c, o3);
    lemma_holds_at_split(s, 0, a + b, c);
    lemma_holds_at_split(s, 0, a, b);
    lemma_holds_at_index(s, 0, a, 0);
}

/// A token response a JSON writer gave for any access token, token type,
/// lifetime and optional refresh token and scope reads back as exactly
/// those fields.
pub proof fn law_written_token_body_reads_back(
    access_token: Seq<char>,
    expires_in: u64,
    refresh_token: Option<Seq<char>>,
    scope: Option<Seq<char>>,
    token_type: Seq<char>,
)
    ensures
        spec_token_response(
            written_token_body(access_token, expires_in, refresh_token, scope, token_type),
        ) == Ok::<TokenFields, &'static str>(
            TokenFields {
                access_token: Some(access_token),
                token_type: Some(token_type),
                expires_in: Some(expires_in),
                refresh_token,
                scope,
            },
        ),
{
    reveal_strlit("access_token");
    reveal_strlit("refresh_token");
    reveal_strlit("scope");
    reveal_strlit("token_type");
    let s = written_token_body(access_token, expires_in, refresh_token, scope, token_type);
    let m1 = json_member("access_token"@, json_string(access_token));
    let m2 = json_member("expires_in"@, json_decimal(expires_in as nat));
    let o3 = optional_member("refresh_token"@, refresh_token);
    let o4 = optional_member("scope"@, scope);
    let m5 = json_member("token_type"@, json_string(token_type));
    lemma_token_body_layout(s, m1, m2, o3, o4, m5);
    let p1: int = 1;
    let p2: int = p1 + m1.len() + 1;
    let p3: int = p2 + m2.len() + 1;
    let p4: int = p3 + o3.len();
    let p5: int = p4 + o4.len();
    assert(skip_ws(s, 0) == 0);
    assert(spec_expect(s, 0, 0x7b) == Ok::<int, &'static str>(1));
    lemma_holds_at_index(s, p1, m1 + seq![0x2cu8], 0);
    assert((m1 + seq![0x2cu8])[0] == 0x22u8);
    assert(skip_ws(s, 1) == 1);
    let f0 = no_fields();
    let f1 = with_string_field(f0, "access_token"@, access_token);
    lemma_string_member_step(s, p1, "access_token"@, access_token, 0x2c, f0);
    let f2 = TokenFields { expires_in: Some(expires_in), ..f1 };
    lemma_expires_in_step(s, p2, expires_in, f1);
    let f3 = match refresh_token {
        Some(x) => with_string_field(f2, "refresh_token"@, x),
        None => f2,
    };
    lemma_optional_step(s, p3, "refresh_token"@, refresh_token, f2);
    let f4 = match scope {
        Some(x) => with_string_field(f3, "scope"@, x),
        None => f3,
    };
    lemma_optional_step(s, p4, "scope"@, scope, f3);
    lemma_string_member_step(s, p5, "token_type"@, token_type, 0x7d, f4);
    assert(spec_token_members(s, p1, f0) == Ok::<TokenFields, &'static str>(
        with_string_field(f4, "token_type"@, token_type),
    ));
}

/// Bytes that are all JSON whitespace: space, tab, line feed, carriage
/// return.
pub open spec fn json_spaces(ws: Seq<u8>) -> bool {
    forall|i: int|
        0 <= i < ws.len() ==> #[trigger] ws[i] == 0x20u8 || ws[i] == 0x09u8 || ws[i] == 0x0au8
            || ws[i] == 0x0du8
}

/// A member `"key" : value` followed by `sep`, with the whitespace `ws`
/// before the key, around the colon, and before `sep`.
pub open spec fn spaced_member(ws: Seq<u8>, key: Seq<char>, value: Seq<u8>, sep: u8) -> Seq<u8> {
    ws + json_string(key) + ws + seq![0x3au8] + ws + value + ws + seq![sep]
}

/// A spaced member whose value is the string `v`, followed by a comma;
/// nothing when there is no value.
pub open spec fn optional_spaced_member(ws: Seq<u8>, key: Seq<char>, v: Option<Seq<char>>) -> Seq<
    u8,
> {
    match v {
        Some(x) => spaced_member(ws, key, json_string(x), 0x2cu8),
        None => seq![],
    }
}

/// The token response of [`written_token_body`] with the whitespace `ws`
/// before the object and between all of its tokens (as a pretty-printing
/// writer puts line breaks and indentation there).
pub open spec fn spaced_token_body(
    ws: Seq<u8>,
    access_token: Seq<char>,
    expires_in: u64,
    refresh_token: Option<Seq<char>>,
    scope: Option<Seq<char>>,
    token_type: Seq<char>,
) -> Seq<u8> {
    ws + seq![0x7bu8] + spaced_member(ws, "access_token"@, json_string(access_token), 0x2cu8)
        + spaced_member(ws, "expires_in"@, json_decimal(expires_in as nat), 0x2cu8)
        + optional_spaced_member(ws, "refresh_token"@, refresh_token) + optional_spaced_member(
        ws,
        "scope"@,
        scope,
    ) + spaced_member(ws, "token_type"@, json_string(token_type), 0x7du8)
}

/// Whitespace is skipped up to the first byte after it.
proof fn lemma_skip_ws_over(s: Seq<u8>, p: int, ws: Seq<u8>)
    requires
        json_spaces(ws),
        holds_at(s, p, ws),
        p + ws.len() < s.len(),
        !is_ws(s[p + ws.len()]),
    ensures
        skip_ws(s, p) == p + ws.len(),
    decreases ws.len(),
{
    if ws.len() > 0 {
        lemma_holds_at_index(s, p, ws, 0);
        assert(is_ws(s[p]));
        assert(ws =~= seq![ws[0]] + ws.drop_first());
        lemma_holds_at_split(s, p, seq![ws[0]], ws.drop_first());
        assert forall|i: int| 0 <= i < ws.drop_first().len() implies #[trigger] ws.drop_first()[i]
            == 0x20u8 || ws.drop_first()[i] == 0x09u8 || ws.drop_first()[i] == 0x0au8
            || ws.drop_first()[i] == 0x0du8 by {
            assert(ws.drop_first()[i] == ws[i + 1]);
        }
        lemma_skip_ws_over(s, p + 1, ws.drop_first());
    }
}

/// Reading a string starts where the whitespace before it ends.
proof fn lemma_parse_string_skips(s: Seq<u8>, p: int)
    ensures
        spec_parse_string(s, p) == spec_parse_string(s, skip_ws(s, p)),
{
    lemma_skip_ws(s, p);
}

/// Reading a `u64` starts where the whitespace before it ends.
proof fn lemma_parse_u64_skips(s: Seq<u8>, p: int)
    ensures
        spec_parse_u64(s, p) == spec_parse_u64(s, skip_ws(s, p)),
{
    lemma_skip_ws(s, p);
}

/// One spaced member followed by `sep`: after it the members go on (a
/// comma) or end (a closing brace), with the fields its value gives.
proof fn lemma_spaced_member_step(
    s: Seq<u8>,
    p: int,
    ws: Seq<u8>,
    key: Seq<char>,
    value: Seq<u8>,
    sep: u8,
    f: TokenFields,
    f2: TokenFields,
)
    requires
        json_spaces(ws),
        holds_at(s, p, spaced_member(ws, key, value, sep)),
        sep == 0x2c || sep == 0x7d,
        value.len() > 0,
        !is_ws(value[0]),
        spec_member_value(s, p + ws.len() + json_string(key).len() + ws.len() + 1, key, f)
            == Ok::<(TokenFields, int), &'static str>(
            (f2, p + ws.len() + json_string(key).len() + ws.len() + 1 + ws.len() + value.len()),
        ),
    ensures
        sep == 0x2c ==> spec_token_members(s, p, f) == spec_token_members(
            s,
            p + spaced_member(ws, key, value, sep).len(),
            f2,
        ),
        sep == 0x7d ==> spec_token_members(s, p, f) == Ok::<TokenFields, &'static str>(f2),
{
    let js = json_string(key);
    let m = spaced_member(ws, key, value, sep);
    let k0 = p + ws.len();
    let r2 = k0 + js.len();
    let c = r2 + ws.len();
    let r3 = c + 1;
    let v0 = r3 + ws.len();
    let r4 = v0 + value.len();
    let r5 = r4 + ws.len();
    assert(m =~= ws + (js + (ws + (seq![0x3au8] + (ws + (value + (ws + seq![sep])))))));
    lemma_holds_at_split(s, p, ws, js + (ws + (seq![0x3au8] + (ws + (value + (ws + seq![sep]))))));
    lemma_holds_at_split(s, k0, js, ws + (seq![0x3au8] + (ws + (value + (ws + seq![sep])))));
    lemma_holds_at_split(s, r2, ws, seq![0x3au8] + (ws + (value + (ws + seq![sep]))));
    lemma_holds_at_split(s, c, seq![0x3au8], ws + (value + (ws + seq![sep])));
    lemma_holds_at_split(s, r3, ws, value + (ws + seq![sep]));
    lemma_holds_at_split(s, v0, value, ws + seq![sep]);
    lemma_holds_at_split(s, r4, ws, seq![sep]);
    lemma_holds_at_index(s, k0, js, 0);
    lemma_holds_at_index(s, c, seq![0x3au8], 0);
    lemma_holds_at_index(s, v0, value, 0);
    lemma_holds_at_index(s, r5, seq![sep], 0);
    assert(js[0] == 0x22u8);
    lemma_skip_ws_over(s, p, ws);
    lemma_skip_ws_over(s, r2, ws);
    lemma_skip_ws_over(s, r4, ws);
    lemma_parse_string_skips(s, p);
    law_written_string_reads_back(s, k0, key);
    assert(spec_parse_string(s, p) == Ok::<(Seq<char>, int), &'static str>((key, r2)));
    assert(skip_ws(s, c) == c);
    assert(spec_expect(s, skip_ws(s, r2), 0x3a) == Ok::<int, &'static str>(r3));
    assert(skip_ws(s, r5) == r5);
    assert(p + m.len() == r5 + 1);
}

/// A spaced member starts with whitespace, then the key's opening quote.
proof fn lemma_spaced_member_start(
    s: Seq<u8>,
    p: int,
    ws: Seq<u8>,
    key: Seq<char>,
    value: Seq<u8>,
    sep: u8,
)
    requires
        json_spaces(ws),
        holds_at(s, p, spaced_member(ws, key, value, sep)),
    ensures
        skip_ws(s, p) == p + ws.len(),
        s[p + ws.len()] == 0x22,
{
    let js = json_string(key);
    let rest = ws + seq![0x3au8] + ws + value + ws + seq![sep];
    assert(spaced_member(ws, key, value, sep) =~= ws + (js + rest));
    lemma_holds_at_split(s, p, ws, js + rest);
    lemma_holds_at_index(s, p + ws.len(), js + rest, 0);
    assert((js + rest)[0] == 0x22u8);
    lemma_skip_ws_over(s, p, ws);
}

/// The members read from a position read alike from after the
/// whitespace there.
proof fn lemma_members_skip(s: Seq<u8>, p: int, f: TokenFields)
    requires
        0 <= p <= s.len(),
    ensures
        spec_token_members(s, p, f) == spec_token_members(s, skip_ws(s, p), f),
{
    lemma_skip_ws(s, p);
    lemma_skip_ws_bound(s, p);
    lemma_parse_string_skips(s, p);
}

/// A spaced member with a string value, for a string field.
proof fn lemma_spaced_string_step(
    s: Seq<u8>,
    p: int,
    ws: Seq<u8>,
    key: Seq<char>,
    v: Seq<char>,
    sep: u8,
    f: TokenFields,
)
    requires
        json_spaces(ws),
        is_string_key(key),
        holds_at(s, p, spaced_member(ws, key, json_string(v), sep)),
        sep == 0x2c || sep == 0x7d,
    ensures
        sep == 0x2c ==> spec_token_members(s, p, f) == spec_token_members(
            s,
            p + spaced_member(ws, key, json_string(v), sep).len(),
            with_string_field(f, key, v),
        ),
        sep == 0x7d ==> spec_token_members(s, p, f) == Ok::<TokenFields, &'static str>(
            with_string_field(f, key, v),
        ),
{
    reveal_strlit("access_token");
    reveal_strlit("expires_in");
    reveal_strlit("refresh_token");
    reveal_strlit("scope");
    reveal_strlit("token_type");
    let js = json_string(key);
    let jv = json_string(v);
    let r3 = p + ws.len() + js.len() + ws.len() + 1;
    let v0 = r3 + ws.len();
    let m = spaced_member(ws, key, jv, sep);
    assert(m =~= (ws + js + ws + seq![0x3au8]) + (ws + (jv + (ws + seq![sep]))));
    lemma_holds_at_split(s, p, ws + js + ws + seq![0x3au8], ws + (jv + (ws + seq![sep])));
    lemma_holds_at_split(s, r3, ws, jv + (ws + seq![sep]));
    lemma_holds_at_split(s, v0, jv, ws + seq![sep]);
    lemma_holds_at_index(s, v0, jv, 0);
    assert(jv[0] == 0x22u8);
    lemma_skip_ws_over(s, r3, ws);
    lemma_parse_string_skips(s, r3);
    law_written_string_reads_back(s, v0, v);
    assert("expires_in"@.len() != "access_token"@.len() && "expires_in"@[0] != "token_type"@[0]);
    assert(spec_member_value(s, r3, key, f) == Ok::<(TokenFields, int), &'static str>(
        (with_string_field(f, key, v), v0 + jv.len()),
    ));
    lemma_spaced_member_step(s, p, ws, key, jv, sep, f, with_string_field(f, key, v));
}

/// The spaced member `"expires_in" : n` followed by a comma.
proof fn lemma_spaced_expires_in_step(s: Seq<u8>, p: int, ws: Seq<u8>, n: u64, f: TokenFields)
    requires
        json_spaces(ws),
        holds_at(s, p, spaced_member(ws, "expires_in"@, json_decimal(n as nat), 0x2cu8)),
    ensures
        spec_token_members(s, p, f) == spec_token_members(
            s,
            p + spaced_member(ws, "expires_in"@, json_decimal(n as nat), 0x2cu8).len(),
            TokenFields { expires_in: Some(n), ..f },
        ),
{
    reveal_strlit("access_token");
    reveal_strlit("expires_in");
    reveal_strlit("token_type");
    let key = "expires_in"@;
    let d = json_decimal(n as nat);
    let js = json_string(key);
    let r3 = p + ws.len() + js.len() + ws.len() + 1;
    let v0 = r3 + ws.len();
    let rest = ws + seq![0x2cu8];
    let m = spaced_member(ws, key, d, 0x2cu8);
    assert(m =~= (ws + js + ws + seq![0x3au8]) + (ws + (d + rest)));
    lemma_holds_at_split(s, p, ws + js + ws + seq![0x3au8], ws + (d + rest));
    lemma_holds_at_split(s, r3, ws, d + rest);
    lemma_holds_at_split(s, v0, d, rest);
    lemma_holds_at_index(s, v0 + d.len(), rest, 0);
    lemma_json_decimal(s, v0, n as nat);
    lemma_holds_at_index(s, v0, d, 0);
    assert(is_digit(s[v0]) && !is_ws(s[v0]));
    assert(!is_digit(rest[0]));
    lemma_skip_ws_over(s, r3, ws);
    lemma_written_u64(s, v0, n);
    lemma_parse_u64_skips(s, r3);
    assert(key.len() != "access_token"@.len() && key[0] != "token_type"@[0]);
    assert(spec_member_value(s, r3, key, f) == Ok::<(TokenFields, int), &'static str>(
        (TokenFields { expires_in: Some(n), ..f }, v0 + d.len()),
    ));
    lemma_spaced_member_step(s, p, ws, key, d, 0x2c, f, TokenFields { expires_in: Some(n), ..f });
}

/// An optional spaced string member: with a value, one member step;
/// without, nothing.
proof fn lemma_spaced_optional_step(
    s: Seq<u8>,
    p: int,
    ws: Seq<u8>,
    key: Seq<char>,
    v: Option<Seq<char>>,
    f: TokenFields,
)
    requires
        json_spaces(ws),
        is_string_key(key),
        holds_at(s, p, optional_spaced_member(ws, key, v)),
    ensures
        spec_token_members(s, p, f) == spec_token_members(
            s,
            p + optional_spaced_member(ws, key, v).len(),
            match v {
                Some(x) => with_string_field(f, key, x),
                None => f,
            },
        ),
{
    if let Some(x) = v {
        lemma_spaced_string_step(s, p, ws, key, x, 0x2c, f);
    }
}

/// Where the pieces of a spaced token response stand.
proof fn lemma_spaced_body_layout(
    s: Seq<u8>,
    ws: Seq<u8>,
    m1: Seq<u8>,
    m2: Seq<u8>,
    o3: Seq<u8>,
    o4: Seq<u8>,
    m5: Seq<u8>,
)
    requires
        s == ws + seq![0x7bu8] + m1 + m2 + o3 + o4 + m5,
    ensures
        holds_at(s, 0, ws),
        s[ws.len() as int] == 0x7b,
        holds_at(s, ws.len() as int + 1, m1),
        holds_at(s, ws.len() as int + 1 + m1.len(), m2),
        holds_at(s, ws.len() as int + 1 + m1.len() + m2.len(), o3),
        holds_at(s, ws.len() as int + 1 + m1.len() + m2.len() + o3.len(), o4),
        holds_at(s, ws.len() as int + 1 + m1.len() + m2.len() + o3.len() + o4.len(), m5),
{
    let a = ws + seq![0x7bu8];
    assert(s =~= a + m1 + m2 + o3 + o4 + m5);
    assert(s.subrange(0, s.len() as int) =~= s);
    assert(holds_at(s, 0, s));
    lemma_holds_at_split(s, 0, a + m1 + m2 + o3 + o4, m5);
    lemma_holds_at_split(s, 0, a + m1 + m2 + o3, o4);
    lemma_holds_at_split(s, 0, a + m1 + m2, o3);
    lemma_holds_at_split(s, 0, a + m1, m2);
    lemma_holds_at_split(s, 0, a, m1);
    lemma_holds_at_split(s, 0, ws, seq![0x7bu8]);
    lemma_holds_at_index(s, ws.len() as int, seq![0x7bu8], 0);
}

/// The members of a spaced token response, from just after its brace.
proof fn lemma_spaced_members(
    s: Seq<u8>,
    ws: Seq<u8>,
    access_token: Seq<char>,
    expires_in: u64,
    refresh_token: Option<Seq<char>>,
    scope: Option<Seq<char>>,
    token_type: Seq<char>,
)
    requires
        json_spaces(ws),
        s == spaced_token_body(ws, access_token, expires_in, refresh_token, scope, token_type),
    ensures
        spec_token_members(s, ws.len() as int + 1, no_fields()) == Ok::<TokenFields, &'static str>(
            TokenFields {
                access_token: Some(access_token),
                token_type: Some(token_type),
                expires_in: Some(expires_in),
                refresh_token,
                scope,
            },
        ),
        s[ws.len() as int] == 0x7b,
        holds_at(s, 0, ws),
        skip_ws(s, ws.len() as int + 1) == ws.len() + 1 + ws.len(),
        s[ws.len() as int + 1 + ws.len()] == 0x22,
{
    reveal_strlit("access_token");
    reveal_strlit("refresh_token");
    reveal_strlit("scope");
    reveal_strlit("token_type");
    let m1 = spaced_member(ws, "access_token"@, json_string(access_token), 0x2cu8);
    let m2 = spaced_member(ws, "expires_in"@, json_decimal(expires_in as nat), 0x2cu8);
    let o3 = optional_spaced_member(ws, "refresh_token"@, refresh_token);
    let o4 = optional_spaced_member(ws, "scope"@, scope);
    let m5 = spaced_member(ws, "token_type"@, json_string(token_type), 0x7du8);
    lemma_spaced_body_layout(s, ws, m1, m2, o3, o4, m5);
    let p1: int = ws.len() as int + 1;
    let p2: int = p1 + m1.len();
    let p3: int = p2 + m2.len();
    let p4: int = p3 + o3.len();
    let p5: int = p4 + o4.len();
    lemma_spaced_member_start(s, p1, ws, "access_token"@, json_string(access_token), 0x2c);
    let f0 = no_fields();
    let f1 = with_string_field(f0, "access_token"@, access_token);
    lemma_spaced_string_step(s, p1, ws, "access_token"@, access_token, 0x2c, f0);
    let f2 = TokenFields { expires_in: Some(expires_in), ..f1 };
    lemma_spaced_expires_in_step(s, p2, ws, expires_in, f1);
    let f3 = match refresh_token {
        Some(x) => with_string_field(f2, "refresh_token"@, x),
        None => f2,
    };
    lemma_spaced_optional_step(s, p3, ws, "refresh_token"@, refresh_token, f2);
    let f4 = match scope {
        Some(x) => with_string_field(f3, "scope"@, x),
        None => f3,
    };
    lemma_spaced_optional_step(s, p4, ws, "scope"@, scope, f3);
    lemma_spaced_string_step(s, p5, ws, "token_type"@, token_type, 0x7d, f4);
}

/// Whitespace (spaces, tabs, line feeds, carriage returns) before the
/// object and between its tokens does not change what a token response
/// reads as: a spaced body reads back as the same fields as a compact one.
pub proof fn law_whitespace_between_tokens_is_insignificant(
    ws: Seq<u8>,
    access_token: Seq<char>,
    expires_in: u64,
    refresh_token: Option<Seq<char>>,
    scope: Option<Seq<char>>,
    token_type: Seq<char>,
)
    requires
        forall|i: int|
            0 <= i < ws.len() ==> #[trigger] ws[i] == 0x20u8 || ws[i] == 0x09u8 || ws[i] == 0x0au8
                || ws[i] == 0x0du8,
    ensures
        spec_token_response(
            spaced_token_body(ws, access_token, expires_in, refresh_token, scope, token_type),
        ) == spec_token_response(
            written_token_body(access_token, expires_in, refresh_token, scope, token_type),
        ),
        spec_token_response(
            spaced_token_body(ws, access_token, expires_in, refresh_token, scope, token_type),
        ) == Ok::<TokenFields, &'static str>(
            TokenFields {
                access_token: Some(access_token),
                token_type: Some(token_type),
                expires_in: Some(expires_in),
                refresh_token,
                scope,
            },
        ),
{
    law_written_token_body_reads_back(access_token, expires_in, refresh_token, scope, token_type);
    let s = spaced_token_body(ws, access_token, expires_in, refresh_token, scope, token_type);
    lemma_spaced_members(s, ws, access_token, expires_in, refresh_token, scope, token_type);
    let p1: int = ws.len() as int + 1;
    lemma_skip_ws_over(s, 0, ws);
    assert(spec_expect(s, 0, 0x7b) == Ok::<int, &'static str>(p1));
    lemma_members_skip(s, p1, no_fields());
}

// ---------------------------------------------------------------------------
// The reader
// ---------------------------------------------------------------------------

/// `String::from_utf8`: the string when the bytes are valid UTF-8, as the
/// standard library documents.
#[verifier::external_body]
pub(crate) fn string_from_utf8(bytes: Vec<u8>) -> (r: Option<String>)
    ensures
        r is Some <==> valid_utf8(bytes@),
        r matches Some(s) ==> s@ == decode_utf8(bytes@),
{
    String::from_utf8(bytes).ok()
}

/// Byte-wise equality of two strings, which is equality of their characters.
pub fn str_eq(a: &str, b: &str) -> (r: bool)
    ensures
        r == (a@ == b@),
{
    let x = a.as_bytes();
    let y = b.as_bytes();
    proof {
        encode_utf8_decode_utf8(a@);
        encode_utf8_decode_utf8(b@);
    }
    if x.len() != y.len() {
        return false;
    }
    let mut i: usize = 0;
    while i < x.len()
        invariant
            i <= x@.len() == y@.len(),
            x@ == a.spec_bytes(),
            y@ == b.spec_bytes(),
            forall|j: int| 0 <= j < i ==> x@[j] == y@[j],
        decreases x.len() - i,
    {
        if x[i] != y[i] {
            assert(x@[i as int] != y@[i as int]);
            return false;
        }
        i = i + 1;
    }
    assert(x@ =~= y@);
    true
}

struct JsonParser<'a> {
    bytes: &'a [u8],
    pos: usize,
}

impl<'a> JsonParser<'a> {
    spec fn wf(&self) -> bool {
        self.pos <= self.bytes@.len() <= usize::MAX
    }

    fn new(s: &'a str) -> (p: Self)
        ensures
            p.bytes@ == s.spec_bytes(),
            p.pos == 0,
            p.wf(),
    {
        let bytes = s.as_bytes();
        let _n: usize = bytes.len();
        JsonParser { bytes, pos: 0 }
    }

    fn skip_ws(&mut self)
        requires
            old(self).wf(),
        ensures
            final(self).bytes == old(self).bytes,
            final(self).wf(),
            final(self).pos == skip_ws(old(self).bytes@, old(self).pos as int),
    {
        while self.pos < self.bytes.len() && is_ascii_ws(self.bytes[self.pos])
            invariant
                self.bytes == old(self).bytes,
                self.wf(),
                skip_ws(self.bytes@, self.pos as int) == skip_ws(
                    old(self).bytes@,
                    old(self).pos as int,
                ),
            decreases self.bytes@.len() - self.pos,
        {
            self.pos = self.pos + 1;
        }
    }

    fn peek(&self) -> (r: Option<u8>)
        ensures
            r == peek(self.bytes@, self.pos as int),
    {
        if self.pos < self.bytes.len() {
            Some(self.bytes[self.pos])
        } else {
            None
        }
    }

    fn bump(&mut self) -> (r: Option<u8>)
        requires
            old(self).wf(),
        ensures
            final(self).bytes == old(self).bytes,
            final(self).wf(),
            r == peek(old(self).bytes@, old(self).pos as int),
            final(self).pos == (if r is Some {
                old(self).pos + 1
            } else {
                old(self).pos as int
            }),
    {
        let b = self.peek();
        if b.is_some() {
            self.pos = self.pos + 1;
        }
        b
    }

    fn expect(&mut self, b: u8) -> (r: Result<(), SpotifyApiError>)
        requires
            old(self).wf(),
        ensures
            final(self).bytes == old(self).bytes,
            final(self).wf(),
            match spec_expect(old(self).bytes@, old(self).pos as int, b) {
                Ok(q) => r is Ok && final(self).pos == q,
                Err(tag) => r == Err::<(), _>(SpotifyApiError::Malformed(tag)),
            },
    {
        self.skip_ws();
        if self.peek() == Some(b) {
            self.pos = self.pos + 1;
            Ok(())
        } else {
            Err(SpotifyApiError::Malformed("expected_byte"))
        }
    }

    /// Reads four hex digits of a `\u` escape.
    fn parse_hex4(&mut self) -> (r: Result<u32, SpotifyApiError>)
        requires
            old(self).wf(),
        ensures
            final(self).bytes == old(self).bytes,
            final(self).wf(),
            match spec_hex_digits(old(self).bytes@, old(self).pos as int, 4, 0) {
                Ok(code) => r == Ok::<u32, SpotifyApiError>(code) && final(self).pos
                    == old(self).pos + 4 && code < 0x10000,
                Err(tag) => r == Err::<u32, _>(SpotifyApiError::Malformed(tag)),
            },
    {
        let mut code: u32 = 0;
        let mut k: usize = 0;
        while k < 4
            invariant
                self.bytes == old(self).bytes,
                self.wf(),
                k <= 4,
                self.pos == old(self).pos + k,
                (k == 0 && code == 0) || (k == 1 && code < 16) || (k == 2 && code < 256) || (k
                    == 3 && code < 4096) || (k == 4 && code < 65536),
                spec_hex_digits(old(self).bytes@, old(self).pos as int, 4, 0) == spec_hex_digits(
                    self.bytes@,
                    self.pos as int,
                    (4 - k) as nat,
                    code,
                ),
            decreases 4 - k,
        {
            let b = match self.bump() {
                Some(b) => b,
                None => {
                    return Err(SpotifyApiError::Malformed("eof_in_unicode_escape"));
                },
            };
            let d: u32 = if 48 <= b && b <= 57 {
                (b - 48) as u32
            } else if 97 <= b && b <= 102 {
                (b - 87) as u32
            } else if 65 <= b && b <= 70 {
                (b - 55) as u32
            } else {
                return Err(SpotifyApiError::Malformed("invalid_unicode_escape"));
            };
            assert(hex_value(b) == Some(d));
            code = code * 16 + d;
            k = k + 1;
        }
        Ok(code)
    }

    fn parse_string(&mut self) -> (r: Result<String, SpotifyApiError>)
        requires
            old(self).wf(),
        ensures
            final(self).bytes == old(self).bytes,
            final(self).wf(),
            match spec_parse_string(old(self).bytes@, old(self).pos as int) {
                Ok((v, e)) => r matches Ok(x) && x@ == v && final(self).pos == e,
                Err(tag) => r == Err::<String, _>(SpotifyApiError::Malformed(tag)),
            },
    {
        self.skip_ws();
        if self.bump() != Some(0x22u8) {
            return Err(SpotifyApiError::Malformed("expected_string"));
        }
        let ghost start = self.pos as int;
        let mut out: Vec<u8> = Vec::new();
        loop
            invariant
                self.bytes == old(self).bytes,
                self.wf(),
                spec_string_body(self.bytes@, start, seq![]) == spec_string_body(
                    self.bytes@,
                    self.pos as int,
                    out@,
                ),
                spec_parse_string(old(self).bytes@, old(self).pos as int) == (match spec_string_body(
                    self.bytes@,
                    start,
                    seq![],
                ) {
                    Err(tag) => Err(tag),
                    Ok((raw, end)) => if valid_utf8(raw) {
                        Ok((decode_utf8(raw), end))
                    } else {
                        Err("invalid_utf8_string")
                    },
                }),
            decreases self.bytes@.len() - self.pos,
        {
            let ghost s = self.bytes@;
            let ghost p = self.pos as int;
            match self.bump() {
                None => {
                    return Err(SpotifyApiError::Malformed("unterminated_string"));
                },
                Some(b) => {
                    if b == 0x22 {
                        let ghost raw = out@;
                        let r = string_from_utf8(out);
                        return match r {
                            Some(x) => Ok(x),
                            None => Err(SpotifyApiError::Malformed("invalid_utf8_string")),
                        };
                    } else if b == 0x5c {
                        match self.bump() {
                            None => {
                                return Err(SpotifyApiError::Malformed("invalid_escape"));
                            },
                            Some(e) => {
                                if e == 0x75 {
                                    let code: u32 = self.parse_hex4()?;
                                    if 0xD800 <= code && code <= 0xDFFF {
                                        return Err(
                                            SpotifyApiError::Malformed("invalid_unicode_codepoint"),
                                        );
                                    }
                                    let ghost before = out@;
                                    if code <= 0x7f {
                                        out.push((code & 0x7F) as u8);
                                    } else if code <= 0x7ff {
                                        out.push(0xC0 | ((code >> 6) & 0x1F) as u8);
                                        out.push(0x80 | (code & 0x3F) as u8);
                                    } else {
                                        out.push(0xE0 | ((code >> 12) & 0x0F) as u8);
                                        out.push(0x80 | ((code >> 6) & 0x3F) as u8);
                                        out.push(0x80 | (code & 0x3F) as u8);
                                    }
                                    assert(out@ =~= before + encode_scalar(code));
                                } else {
                                    let out_b: u8 = if e == 0x22 {
                                        0x22
                                    } else if e == 0x5c {
                                        0x5c
                                    } else if e == 0x2f {
                                        0x2f
                                    } else if e == 0x6e {
                                        0x0a
                                    } else if e == 0x74 {
                                        0x09
                                    } else if e == 0x72 {
                                        0x0d
                                    } else if e == 0x62 {
                                        0x08
                                    } else if e == 0x66 {
                                        0x0c
                                    } else {
                                        return Err(SpotifyApiError::Malformed("invalid_escape"));
                                    };
                                    assert(simple_escape(e) == Some(out_b));
                                    out.push(out_b);
                                }
                            },
                        }
                    } else if b < 0x20 {
                        return Err(SpotifyApiError::Malformed("control_char_in_string"));
                    } else {
                        out.push(b);
                    }
                },
            }
        }
    }

    fn parse_u64(&mut self) -> (r: Result<u64, SpotifyApiError>)
        requires
            old(self).wf(),
        ensures
            final(self).bytes == old(self).bytes,
            final(self).wf(),
            match spec_parse_u64(old(self).bytes@, old(self).pos as int) {
                Ok((v, e)) => r == Ok::<u64, SpotifyApiError>(v) && final(self).pos == e,
                Err(tag) => r == Err::<u64, _>(SpotifyApiError::Malformed(tag)),
            },
    {
        self.skip_ws();
        let start: usize = self.pos;
        while self.pos < self.bytes.len() && 48 <= self.bytes[self.pos] && self.bytes[self.pos]
            <= 57
            invariant
                self.bytes == old(self).bytes,
                self.wf(),
                start <= self.pos,
                digits_end(self.bytes@, start as int) == digits_end(self.bytes@, self.pos as int),
                forall|i: int| start <= i < self.pos ==> is_digit(#[trigger] self.bytes@[i]),
            decreases self.bytes@.len() - self.pos,
        {
            self.pos = self.pos + 1;
        }
        if self.pos == start {
            return Err(SpotifyApiError::Malformed("expected_number"));
        }
        let end: usize = self.pos;
        let mut value: u64 = 0;
        let mut overflow = false;
        let mut j: usize = start;
        while j < end
            invariant
                self.bytes == old(self).bytes,
                start <= j <= end <= self.bytes@.len(),
                forall|i: int| start <= i < end ==> is_digit(#[trigger] self.bytes@[i]),
                !overflow ==> value == digits_value(self.bytes@, start as int, j as int),
                overflow ==> digits_value(self.bytes@, start as int, j as int) > u64::MAX,
            decreases end - j,
        {
            let d: u64 = (self.bytes[j] - 48) as u64;
            assert(digits_value(self.bytes@, start as int, j + 1) == digits_value(
                self.bytes@,
                start as int,
                j as int,
            ) * 10 + d);
            if !overflow {
                match value.checked_mul(10) {
                    Some(m) => match m.checked_add(d) {
                        Some(v) => {
                            value = v;
                        },
                        None => {
                            overflow = true;
                        },
                    },
                    None => {
                        overflow = true;
                    },
                }
            }
            j = j + 1;
        }
        if overflow {
            Err(SpotifyApiError::Malformed("u64_overflow"))
        } else {
            Ok(value)
        }
    }

    fn skip_number(&mut self)
        requires
            old(self).wf(),
        ensures
            final(self).bytes == old(self).bytes,
            final(self).wf(),
            final(self).pos == spec_skip_number(old(self).bytes@, old(self).pos as int),
    {
        if self.peek() == Some(0x2du8) {
            self.pos = self.pos + 1;
        }
        self.skip_digits();
        if self.peek() == Some(0x2eu8) {
            self.pos = self.pos + 1;
            self.skip_digits();
        }
        if self.peek() == Some(0x65u8) || self.peek() == Some(0x45u8) {
            self.pos = self.pos + 1;
            if self.peek() == Some(0x2bu8) || self.peek() == Some(0x2du8) {
                self.pos = self.pos + 1;
            }
            self.skip_digits();
        }
    }

    fn skip_digits(&mut self)
        requires
            old(self).wf(),
        ensures
            final(self).bytes == old(self).bytes,
            final(self).wf(),
            final(self).pos == digits_end(old(self).bytes@, old(self).pos as int),
    {
        while self.pos < self.bytes.len() && 48 <= self.bytes[self.pos] && self.bytes[self.pos]
            <= 57
            invariant
                self.bytes == old(self).bytes,
                self.wf(),
                digits_end(self.bytes@, self.pos as int) == digits_end(
                    old(self).bytes@,
                    old(self).pos as int,
                ),
            decreases self.bytes@.len() - self.pos,
        {
            self.pos = self.pos + 1;
        }
    }

    fn expect_literal(&mut self, lit: &[u8]) -> (r: Result<(), SpotifyApiError>)
        requires
            old(self).wf(),
        ensures
            final(self).bytes == old(self).bytes,
            final(self).wf(),
            match spec_expect_literal(old(self).bytes@, old(self).pos as int, lit@) {
                Ok(q) => r is Ok && final(self).pos == q,
                Err(tag) => r == Err::<(), _>(SpotifyApiError::Malformed(tag)),
            },
    {
        if lit.len() > self.bytes.len() - self.pos {
            return Err(SpotifyApiError::Malformed("expected_literal"));
        }
        let mut i: usize = 0;
        while i < lit.len()
            invariant
                self.bytes == old(self).bytes,
                self.pos == old(self).pos,
                self.wf(),
                self.pos + lit@.len() <= self.bytes@.len(),
                i <= lit@.len(),
                forall|j: int| 0 <= j < i ==> self.bytes@[self.pos + j] == lit@[j],
            decreases lit.len() - i,
        {
            if self.bytes[self.pos + i] != lit[i] {
                assert(self.bytes@.subrange(self.pos as int, self.pos + lit@.len())[i as int]
                    != lit@[i as int]);
                return Err(SpotifyApiError::Malformed("expected_literal"));
            }
            i = i + 1;
        }
        assert(self.bytes@.subrange(self.pos as int, self.pos + lit@.len()) =~= lit@);
        self.pos = self.pos + lit.len();
        Ok(())
    }

    fn skip_value(&mut self) -> (r: Result<(), SpotifyApiError>)
        requires
            old(self).wf(),
        ensures
            final(self).bytes == old(self).bytes,
            final(self).wf(),
            match spec_skip_value(old(self).bytes@, old(self).pos as int) {
                Ok(q) => r is Ok && final(self).pos == q,
                Err(tag) => r == Err::<(), _>(SpotifyApiError::Malformed(tag)),
            },
        decreases old(self).bytes@.len() - old(self).pos, 3int,
    {
        proof {
            lemma_skip_ws(self.bytes@, self.pos as int);
            lemma_skip_ws_bound(self.bytes@, self.pos as int);
        }
        self.skip_ws();
        match self.peek() {
            Some(b) => {
                if b == 0x22 {
                    self.parse_string()?;
                    Ok(())
                } else if b == 0x7b {
                    self.skip_object()
                } else if b == 0x5b {
                    self.skip_array()
                } else if b == 0x74 {
                    self.expect_literal(&[0x74u8, 0x72u8, 0x75u8, 0x65u8])
                } else if b == 0x66 {
                    self.expect_literal(&[0x66u8, 0x61u8, 0x6cu8, 0x73u8, 0x65u8])
                } else if b == 0x6e {
                    self.expect_literal(&[0x6eu8, 0x75u8, 0x6cu8, 0x6cu8])
                } else if 48 <= b && b <= 57 || b == 0x2d {
                    self.skip_number();
                    Ok(())
                } else {
                    Err(SpotifyApiError::Malformed("unexpected_value"))
                }
            },
            None => Err(SpotifyApiError::Malformed("unexpected_value")),
        }
    }

    fn skip_object(&mut self) -> (r: Result<(), SpotifyApiError>)
        requires
            old(self).wf(),
        ensures
            final(self).bytes == old(self).bytes,
            final(self).wf(),
            match spec_skip_object(old(self).bytes@, old(self).pos as int) {
                Ok(q) => r is Ok && final(self).pos == q,
                Err(tag) => r == Err::<(), _>(SpotifyApiError::Malformed(tag)),
            },
        decreases old(self).bytes@.len() - old(self).pos, 2int,
    {
        let ghost p0 = self.pos as int;
        proof {
            lemma_skip_ws(self.bytes@, p0);
            lemma_skip_ws_bound(self.bytes@, p0);
        }
        self.expect(0x7b)?;
        let ghost q = self.pos as int;
        proof {
            lemma_skip_ws(self.bytes@, q);
        }
        self.skip_ws();
        if self.peek() == Some(0x7du8) {
            self.pos = self.pos + 1;
            return Ok(());
        }
        loop
            invariant
                self.bytes == old(self).bytes,
                self.wf(),
                self.pos > p0,
                p0 == old(self).pos,
                spec_skip_object(self.bytes@, p0) == spec_skip_members(self.bytes@, self.pos as int),
            decreases self.bytes@.len() - self.pos,
        {
            let ghost p = self.pos as int;
            proof {
                lemma_skip_member_advances(self.bytes@, p);
            }
            self.skip_member()?;
            let ghost r5 = self.pos as int;
            self.skip_ws();
            proof {
                lemma_skip_ws(self.bytes@, r5);
            }
            match self.peek() {
                Some(0x2cu8) => {
                    self.pos = self.pos + 1;
                },
                Some(0x7du8) => {
                    self.pos = self.pos + 1;
                    return Ok(());
                },
                _ => {
                    return Err(SpotifyApiError::Malformed("expected_object_end"));
                },
            }
        }
    }

    fn skip_member(&mut self) -> (r: Result<(), SpotifyApiError>)
        requires
            old(self).wf(),
        ensures
            final(self).bytes == old(self).bytes,
            final(self).wf(),
            match spec_skip_member(old(self).bytes@, old(self).pos as int) {
                Ok(q) => r is Ok && final(self).pos == q,
                Err(tag) => r == Err::<(), _>(SpotifyApiError::Malformed(tag)),
            },
        decreases old(self).bytes@.len() - old(self).pos, 0int,
    {
        let ghost p = self.pos as int;
        proof {
            lemma_parse_string_advances(self.bytes@, p);
            lemma_parse_string_bound(self.bytes@, p);
            lemma_skip_ws(self.bytes@, p);
        }
        self.skip_ws();
        self.parse_string()?;
        let ghost r2 = self.pos as int;
        self.skip_ws();
        proof {
            lemma_skip_ws_bound(self.bytes@, r2);
            lemma_skip_ws_bound(self.bytes@, skip_ws(self.bytes@, r2));
            lemma_skip_ws(self.bytes@, skip_ws(self.bytes@, r2));
        }
        self.expect(0x3a)?;
        self.skip_value()
    }

    fn skip_array(&mut self) -> (r: Result<(), SpotifyApiError>)
        requires
            old(self).wf(),
        ensures
            final(self).bytes == old(self).bytes,
            final(self).wf(),
            match spec_skip_array(old(self).bytes@, old(self).pos as int) {
                Ok(q) => r is Ok && final(self).pos == q,
                Err(tag) => r == Err::<(), _>(SpotifyApiError::Malformed(tag)),
            },
        decreases old(self).bytes@.len() - old(self).pos, 2int,
    {
        let ghost p0 = self.pos as int;
        proof {
            lemma_skip_ws(self.bytes@, p0);
            lemma_skip_ws_bound(self.bytes@, p0);
        }
        self.expect(0x5b)?;
        let ghost q = self.pos as int;
        proof {
            lemma_skip_ws(self.bytes@, q);
        }
        self.skip_ws();
        if self.peek() == Some(0x5du8) {
            self.pos = self.pos + 1;
            return Ok(());
        }
        loop
            invariant
                self.bytes == old(self).bytes,
                self.wf(),
                self.pos > p0,
                p0 == old(self).pos,
                spec_skip_array(self.bytes@, p0) == spec_skip_elements(
                    self.bytes@,
                    self.pos as int,
                ),
            decreases self.bytes@.len() - self.pos,
        {
            let ghost p = self.pos as int;
            proof {
                lemma_skip_value_advances(self.bytes@, p);
            }
            self.skip_value()?;
            let ghost r = self.pos as int;
            self.skip_ws();
            proof {
                lemma_skip_ws(self.bytes@, r);
            }
            match self.peek() {
                Some(0x2cu8) => {
                    self.pos = self.pos + 1;
                },
                Some(0x5du8) => {
                    self.pos = self.pos + 1;
                    return Ok(());
                },
                _ => {
                    return Err(SpotifyApiError::Malformed("expected_array_end"));
                },
            }
        }
    }
}

fn is_ascii_ws(b: u8) -> (r: bool)
    ensures
        r == is_ws(b),
{
    b == 0x20 || b == 0x09 || b == 0x0a || b == 0x0c || b == 0x0d
}


// ---------------------------------------------------------------------------
// Reading the token response
// ---------------------------------------------------------------------------

/// The characters of an optional string.
pub open spec fn opt_chars(o: Option<String>) -> Option<Seq<char>> {
    match o {
        Some(s) => Some(s@),
        None => None,
    }
}

/// The token set `t` holds exactly the fields `f`.
pub open spec fn holds_fields(t: TokenSet, f: TokenFields) -> bool {
    &&& f.access_token == Some(t.access_token@)
    &&& f.token_type == Some(t.token_type@)
    &&& f.expires_in == Some(t.expires_in)
    &&& f.refresh_token == opt_chars(t.refresh_token)
    &&& f.scope == opt_chars(t.scope)
}

struct FieldsRead {
    access_token: Option<String>,
    token_type: Option<String>,
    expires_in: Option<u64>,
    refresh_token: Option<String>,
    scope: Option<String>,
}

impl FieldsRead {
    spec fn fields(&self) -> TokenFields {
        TokenFields {
            access_token: opt_chars(self.access_token),
            token_type: opt_chars(self.token_type),
            expires_in: self.expires_in,
            refresh_token: opt_chars(self.refresh_token),
            scope: opt_chars(self.scope),
        }
    }
}

impl<'a> JsonParser<'a> {
    /// Reads the value of the member whose key is `key` into `f`.
    fn read_member_value(&mut self, key: &str, f: &mut FieldsRead) -> (r: Result<
        (),
        SpotifyApiError,
    >)
        requires
            old(self).wf(),
        ensures
            final(self).bytes == old(self).bytes,
            final(self).wf(),
            match spec_member_value(old(self).bytes@, old(self).pos as int, key@, old(f).fields()) {
                Ok((g, e)) => r is Ok && final(self).pos == e && final(f).fields() == g,
                Err(tag) => r == Err::<(), _>(SpotifyApiError::Malformed(tag)),
            },
    {
        if str_eq(key, "access_token") {
            let v = self.parse_string()?;
            f.access_token = Some(v);
        } else if str_eq(key, "token_type") {
            let v = self.parse_string()?;
            f.token_type = Some(v);
        } else if str_eq(key, "expires_in") {
            let v: u64 = self.parse_u64()?;
            f.expires_in = Some(v);
        } else if str_eq(key, "refresh_token") {
            let v = self.parse_string()?;
            f.refresh_token = Some(v);
        } else if str_eq(key, "scope") {
            let v = self.parse_string()?;
            f.scope = Some(v);
        } else {
            self.skip_value()?;
        }
        Ok(())
    }

    /// Reads one member `key: value` of the response object into `f`.
    fn read_member(&mut self, f: &mut FieldsRead) -> (r: Result<(), SpotifyApiError>)
        requires
            old(self).wf(),
        ensures
            final(self).bytes == old(self).bytes,
            final(self).wf(),
            match spec_parse_string(old(self).bytes@, old(self).pos as int) {
                Err(tag) => r == Err::<(), _>(SpotifyApiError::Malformed(tag)),
                Ok((key, r2)) => match spec_expect(
                    old(self).bytes@,
                    skip_ws(old(self).bytes@, r2),
                    0x3a,
                ) {
                    Err(tag) => r == Err::<(), _>(SpotifyApiError::Malformed(tag)),
                    Ok(r3) => match spec_member_value(old(self).bytes@, r3, key, old(f).fields()) {
                        Ok((g, e)) => r is Ok && final(self).pos == e && final(f).fields() == g,
                        Err(tag) => r == Err::<(), _>(SpotifyApiError::Malformed(tag)),
                    },
                },
            },
    {
        let ghost p = self.pos as int;
        proof {
            lemma_skip_ws(self.bytes@, p);
        }
        self.skip_ws();
        let key = self.parse_string()?;
        let ghost r2 = self.pos as int;
        self.skip_ws();
        proof {
            lemma_skip_ws_bound(self.bytes@, r2);
            lemma_skip_ws(self.bytes@, skip_ws(self.bytes@, r2));
        }
        self.expect(0x3a)?;
        self.read_member_value(key.as_str(), f)
    }
}

impl<'a> JsonParser<'a> {
    /// Reads one member and the `,` or `}` after it: `Ok(true)` when more
    /// members follow, `Ok(false)` at the end of the object.
    fn read_member_step(&mut self, f: &mut FieldsRead) -> (r: Result<bool, SpotifyApiError>)
        requires
            old(self).wf(),
        ensures
            final(self).bytes == old(self).bytes,
            final(self).wf(),
            match r {
                Ok(true) => final(self).pos > old(self).pos && spec_token_members(
                    old(self).bytes@,
                    old(self).pos as int,
                    old(f).fields(),
                ) == spec_token_members(old(self).bytes@, final(self).pos as int, final(f).fields()),
                Ok(false) => spec_token_members(
                    old(self).bytes@,
                    old(self).pos as int,
                    old(f).fields(),
                ) == Ok::<TokenFields, &'static str>(final(f).fields()),
                Err(e) => spec_token_members(
                    old(self).bytes@,
                    old(self).pos as int,
                    old(f).fields(),
                ) matches Err(tag) && e == SpotifyApiError::Malformed(tag),
            },
    {
        let ghost s = self.bytes@;
        let ghost q = self.pos as int;
        let ghost before = f.fields();
        proof {
            lemma_parse_string_advances(s, q);
            lemma_parse_string_bound(s, q);
            match spec_parse_string(s, q) {
                Ok((key, r2)) => {
                    lemma_skip_ws_bound(s, r2);
                    lemma_skip_ws(s, skip_ws(s, r2));
                    lemma_skip_ws_bound(s, skip_ws(s, r2));
                    match spec_expect(s, skip_ws(s, r2), 0x3a) {
                        Ok(r3) => lemma_member_value_advances(s, r3, key, before),
                        Err(_) => {},
                    }
                },
                Err(_) => {},
            }
        }
        self.read_member(f)?;
        let ghost r4 = self.pos as int;
        self.skip_ws();
        proof {
            lemma_skip_ws_bound(s, r4);
        }
        match self.peek() {
            Some(0x2cu8) => {
                self.bump();
                Ok(true)
            },
            Some(0x7du8) => {
                self.bump();
                Ok(false)
            },
            _ => Err(SpotifyApiError::Malformed("expected_object_end")),
        }
    }
}

/// Parse a Spotify token response body into a [`TokenSet`] obtained at
/// `now`.
pub fn parse_token_response_at(body: &str, now: Timestamp) -> (r: Result<
    TokenSet,
    SpotifyApiError,
>)
    ensures
        match spec_token_response(body.spec_bytes()) {
            Ok(f) => r matches Ok(t) && holds_fields(t, f) && t.obtained_at == now,
            Err(tag) => r == Err::<TokenSet, _>(SpotifyApiError::Malformed(tag)),
        },
{
    let mut p = JsonParser::new(body);
    let ghost s = p.bytes@;
    proof {
        lemma_skip_ws(s, 0);
    }
    p.skip_ws();
    p.expect(0x7b)?;
    let ghost p1 = p.pos as int;
    assert(spec_expect(s, 0, 0x7b) == Ok::<int, &'static str>(p1));
    p.skip_ws();
    let mut f = FieldsRead {
        access_token: None,
        token_type: None,
        expires_in: None,
        refresh_token: None,
        scope: None,
    };
    assert(f.fields() == no_fields());
    if p.peek() == Some(0x7du8) {
        p.bump();
    } else {
        let ghost p2 = p.pos as int;
        loop
            invariant_except_break
                spec_token_members(s, p2, no_fields()) == spec_token_members(
                    s,
                    p.pos as int,
                    f.fields(),
                ),
            invariant
                p.bytes@ == s,
                p.wf(),
                s == body.spec_bytes(),
                p2 == skip_ws(s, p1),
                spec_expect(s, 0, 0x7b) == Ok::<int, &'static str>(p1),
                peek(s, p2) != Some(0x7du8),
            ensures
                p.wf(),
                spec_token_members(s, p2, no_fields()) == Ok::<TokenFields, &'static str>(
                    f.fields(),
                ),
            decreases s.len() - p.pos,
        {
            if !p.read_member_step(&mut f)? {
                break ;
            }
        }
    }
    assert(spec_token_response(s) == (if f.fields().access_token is None {
        Err("missing_access_token")
    } else if f.fields().token_type is None {
        Err("missing_token_type")
    } else if f.fields().expires_in is None {
        Err("missing_expires_in")
    } else {
        Ok(f.fields())
    }));
    let access_token = match f.access_token {
        Some(v) => v,
        None => {
            return Err(SpotifyApiError::Malformed("missing_access_token"));
        },
    };
    let token_type = match f.token_type {
        Some(v) => v,
        None => {
            return Err(SpotifyApiError::Malformed("missing_token_type"));
        },
    };
    let expires_in = match f.expires_in {
        Some(v) => v,
        None => {
            return Err(SpotifyApiError::Malformed("missing_expires_in"));
        },
    };
    Ok(
        TokenSet {
            access_token,
            token_type,
            expires_in,
            refresh_token: f.refresh_token,
            scope: f.scope,
            obtained_at: now,
        },
    )
}

/// Parse a Spotify token response body into a [`TokenSet`] whose
/// `obtained_at` is the current wall clock.
pub fn parse_token_response(body: &str) -> (r: Result<TokenSet, SpotifyApiError>)
    ensures
        match spec_token_response(body.spec_bytes()) {
            Ok(f) => r matches Ok(t) && holds_fields(t, f),
            Err(tag) => r == Err::<TokenSet, _>(SpotifyApiError::Malformed(tag)),
        },
{
    parse_token_response_at(body, Timestamp::now())
}

} // verus!

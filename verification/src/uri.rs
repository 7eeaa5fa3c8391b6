//! Percent-decoding of the request target and its guards: every `%` in
//! the raw target must begin a well-formed `%XX` escape, the decoded
//! target must be valid UTF-8, and it must not contain `..` anywhere.

use vstd::prelude::*;
use vstd::utf8::valid_utf8;
use crate::bytes::{contains_seq, occurs_at, find_seq, DOT, PERCENT};

verus! {

/// The byte is an ASCII hexadecimal digit.
pub open spec fn is_hex_digit(b: u8) -> bool {
    (48 <= b <= 57) || (97 <= b <= 102) || (65 <= b <= 70)
}

/// Value of an ASCII hexadecimal digit.
pub open spec fn hex_val(b: u8) -> int {
    if 48 <= b <= 57 {
        b - 48
    } else if 97 <= b <= 102 {
        b - 87
    } else if 65 <= b <= 70 {
        b - 55
    } else {
        0
    }
}

/// Percent-decode a byte string: each `%` followed by two hexadecimal
/// digits becomes the byte those digits denote; any other byte is copied
/// unchanged. This mirrors the decoder itself, which never fails on a
/// malformed escape; the validator rejects such targets separately, by
/// `escapes_ok` below.
pub open spec fn percent_decoded(s: Seq<u8>) -> Seq<u8>
    decreases s.len(),
{
    if s.len() == 0 {
        Seq::empty()
    } else if s[0] == PERCENT && s.len() >= 3 && is_hex_digit(s[1]) && is_hex_digit(s[2]) {
        seq![(hex_val(s[1]) * 16 + hex_val(s[2])) as u8] + percent_decoded(s.skip(3))
    } else {
        seq![s[0]] + percent_decoded(s.skip(1))
    }
}

/// Every `%` in the raw bytes begins a well-formed escape: two
/// hexadecimal digits follow it. A `%` that a preceding escape consumed
/// as a digit cannot exist, since `%` is no hexadecimal digit.
pub open spec fn escapes_ok(s: Seq<u8>) -> bool {
    forall|i: int|
        0 <= i < s.len() && #[trigger] s[i] == PERCENT ==> i + 2 < s.len() && is_hex_digit(
            s[i + 1],
        ) && is_hex_digit(s[i + 2])
}

/// The sequence `..`, the traversal guard's needle.
pub open spec fn dot_dot() -> Seq<u8> {
    seq![DOT, DOT]
}

/// The decoded target bytes of a raw target token.
pub open spec fn decoded_target(uri: Seq<u8>) -> Seq<u8> {
    percent_decoded(uri)
}

/// A raw target token passes the decoder and the guards: every `%` in it
/// begins a well-formed escape, its percent-decoding is valid UTF-8, and
/// the decoding contains no `..`.
pub open spec fn uri_ok(uri: Seq<u8>) -> bool {
    escapes_ok(uri) && valid_utf8(percent_decoded(uri)) && !contains_seq(
        percent_decoded(uri),
        dot_dot(),
    )
}

/// Executable test for an ASCII hexadecimal digit.
fn is_hex_digit_byte(b: u8) -> (r: bool)
    ensures
        r == is_hex_digit(b),
{
    (48 <= b && b <= 57) || (97 <= b && b <= 102) || (65 <= b && b <= 70)
}

/// Check that every `%` in the raw bytes begins a well-formed escape.
fn escapes_well_formed(s: &[u8]) -> (r: bool)
    ensures
        r == escapes_ok(s@),
{
    let n = s.len();
    let mut i: usize = 0;
    while i < n
        invariant
            0 <= i <= n,
            n == s@.len(),
            forall|t: int|
                0 <= t < i && #[trigger] s@[t] == PERCENT ==> t + 2 < s@.len() && is_hex_digit(
                    s@[t + 1],
                ) && is_hex_digit(s@[t + 2]),
        decreases n - i,
    {
        if s[i] == PERCENT {
            if n - i < 3 || !is_hex_digit_byte(s[i + 1]) || !is_hex_digit_byte(s[i + 2]) {
                return false;
            }
        }
        i = i + 1;
    }
    true
}

/// Relies on `percent_encoding::percent_decode` and
/// `PercentDecode::decode_utf8`: scanning left to right, each `%` followed
/// by two hexadecimal digits is replaced by the byte they denote, any
/// other byte is passed through unchanged, and `decode_utf8` returns `Err`
/// exactly when the decoded bytes are not valid UTF-8 (otherwise the
/// decoded bytes themselves).
#[verifier::external_body]
fn percent_decode_utf8(input: &[u8]) -> (r: Option<Vec<u8>>)
    ensures
        r is Some <==> valid_utf8(percent_decoded(input@)),
        r matches Some(v) ==> v@ == percent_decoded(input@),
{
    match percent_encoding::percent_decode(input).decode_utf8() {
        Ok(s) => Some(s.into_owned().into_bytes()),
        Err(_) => None,
    }
}

/// Percent-decode a raw target token and apply the guards. Returns the
/// decoded target, or `None` when the target holds a malformed escape,
/// its decoding is not valid UTF-8, or the decoded target contains `..`.
pub fn valid_uri(uri: &[u8]) -> (r: Option<Vec<u8>>)
    ensures
        r is Some <==> uri_ok(uri@),
        r matches Some(v) ==> v@ == decoded_target(uri@),
{
    if !escapes_well_formed(uri) {
        return None;
    }
    match percent_decode_utf8(uri) {
        None => None,
        Some(decoded) => {
            let mut dots: Vec<u8> = Vec::new();
            dots.push(DOT);
            dots.push(DOT);
            proof {
                assert(dots@ =~= dot_dot());
            }
            match find_seq(decoded.as_slice(), dots.as_slice()) {
                Some(i) => {
                    proof {
                        crate::bytes::lemma_first_occurrence(decoded@, dot_dot());
                        assert(occurs_at(decoded@, dot_dot(), i as int));
                    }
                    None
                },
                None => {
                    proof {
                        crate::bytes::lemma_first_occurrence(decoded@, dot_dot());
                        if contains_seq(decoded@, dot_dot()) {
                            let w = choose|t: int| occurs_at(decoded@, dot_dot(), t);
                            assert(!occurs_at(decoded@, dot_dot(), w));
                        }
                    }
                    Some(decoded)
                },
            }
        },
    }
}

} // verus!

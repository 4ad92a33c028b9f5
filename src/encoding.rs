//! Text encodings of keys and addresses: hexadecimal and base58.
use vstd::prelude::*;

verus! {

pub open spec fn is_hex_digit(c: char) -> bool {
    ('0' <= c && c <= '9') || ('a' <= c && c <= 'f') || ('A' <= c && c <= 'F')
}

pub open spec fn hex_digit_value(c: char) -> int {
    if '0' <= c && c <= '9' {
        c as int - '0' as int
    } else if 'a' <= c && c <= 'f' {
        c as int - 'a' as int + 10
    } else {
        c as int - 'A' as int + 10
    }
}

/// A string of an even number of hexadecimal digits, either case.
pub open spec fn hex_decodable(s: Seq<char>) -> bool {
    s.len() % 2 == 0 && forall|i: int| 0 <= i < s.len() ==> is_hex_digit(#[trigger] s[i])
}

/// The bytes that a string of hexadecimal digits spells, two digits each,
/// the high digit first.
pub open spec fn hex_decoded(s: Seq<char>) -> Seq<u8> {
    Seq::new(
        s.len() / 2,
        |i: int| (16 * hex_digit_value(s[2 * i]) + hex_digit_value(s[2 * i + 1])) as u8,
    )
}

pub open spec fn lower_hex_digit(v: u8) -> char {
    if v < 10 {
        ('0' as u8 + v) as char
    } else {
        ('a' as u8 + v - 10) as char
    }
}

/// Two lower-case hexadecimal digits for each byte, the high digit first.
pub open spec fn hex_encoded(b: Seq<u8>) -> Seq<char> {
    Seq::new(
        2 * b.len(),
        |i: int|
            if i % 2 == 0 {
                lower_hex_digit(b[i / 2] / 16)
            } else {
                lower_hex_digit(b[i / 2] % 16)
            },
    )
}

/// What `bs58::decode` gives for a string: bytes, or nothing where the string
/// holds a character outside the Bitcoin base58 alphabet.
pub uninterp spec fn bs58_decoded(s: Seq<char>) -> Option<Seq<u8>>;

/// What `bs58::encode` gives for a byte string, in the Bitcoin alphabet.
pub uninterp spec fn bs58_encoded(b: Seq<u8>) -> Seq<char>;

/// Relies on `hex::decode`: succeeds exactly on an even number of hex
/// digits of either case and gives one byte for each pair.
#[verifier::external_body]
pub(crate) fn hex_decode(s: &str) -> (r: Option<Vec<u8>>)
    ensures
        r is Some <==> hex_decodable(s@),
        r is Some ==> r.unwrap()@ == hex_decoded(s@),
{
    hex::decode(s).ok()
}

/// Relies on `hex::encode`: two lower-case digits for each byte.
#[verifier::external_body]
pub(crate) fn hex_encode(b: &[u8]) -> (r: String)
    ensures
        r@ == hex_encoded(b@),
{
    hex::encode(b)
}

/// Relies on `bs58::decode(..).into_vec()` with the default alphabet.
#[verifier::external_body]
pub(crate) fn bs58_decode(s: &str) -> (r: Option<Vec<u8>>)
    ensures
        match bs58_decoded(s@) {
            Some(b) => r is Some && r.unwrap()@ == b,
            None => r is None,
        },
{
    bs58::decode(s).into_vec().ok()
}

/// Relies on `bs58::encode(..).into_string()` with the default alphabet.
#[verifier::external_body]
pub(crate) fn bs58_encode(b: &[u8]) -> (r: String)
    ensures
        r@ == bs58_encoded(b@),
{
    bs58::encode(b).into_string()
}

} // verus!

//! Recovering a previous bare name from the hexadecimal text that decryption
//! yields.
use vstd::prelude::*;
use vstd::utf8::{decode_utf8, valid_utf8};
use rustc_serialize::hex::FromHex;

verus! {

#[verifier::external_type_specification]
#[verifier::external_body]
pub struct ExFromHexError(rustc_serialize::hex::FromHexError);

#[verifier::external_type_specification]
#[verifier::external_body]
pub struct ExFromUtf8Error(std::string::FromUtf8Error);

pub open spec fn is_hex_space(c: char) -> bool {
    c == ' ' || c == '\r' || c == '\n' || c == '\t'
}

/// The value of a hexadecimal digit, or -1.
pub open spec fn hex_value(c: char) -> int {
    if '0' <= c && c <= '9' {
        c as u32 - 48
    } else if 'a' <= c && c <= 'f' {
        c as u32 - 87
    } else if 'A' <= c && c <= 'F' {
        c as u32 - 55
    } else {
        -1
    }
}

/// The digit values of `s`, skipping white space; none if another character
/// stands in it.
pub open spec fn nibbles(s: Seq<char>) -> Option<Seq<int>>
    decreases s.len(),
{
    if s.len() == 0 {
        Some(Seq::empty())
    } else {
        match nibbles(s.drop_last()) {
            Some(n) => if is_hex_space(s.last()) {
                Some(n)
            } else if hex_value(s.last()) >= 0 {
                Some(n.push(hex_value(s.last())))
            } else {
                None
            },
            None => None,
        }
    }
}

/// The bytes that hexadecimal text `s` spells, two digits each; none when a
/// character is neither a digit nor white space, or the digits are odd.
pub open spec fn hex_bytes(s: Seq<char>) -> Option<Seq<u8>> {
    match nibbles(s) {
        Some(n) => if n.len() % 2 == 0 {
            Some(Seq::new(n.len() / 2, |i: int| (16 * n[2 * i] + n[2 * i + 1]) as u8))
        } else {
            None
        },
        None => None,
    }
}

/// Relies on rustc_serialize's `FromHex::from_hex` for `str`: digits in either
/// case, white space skipped, an error on any other character or an odd
/// number of digits.
#[verifier::external_body]
fn from_hex_text(s: &str) -> (r: Result<Vec<u8>, rustc_serialize::hex::FromHexError>)
    ensures
        match r {
            Ok(b) => hex_bytes(s@) == Some(b@),
            Err(_) => hex_bytes(s@) is None,
        },
{
    s.from_hex()
}

/// Relies on String::from_utf8: the text when the bytes are valid UTF-8.
#[verifier::external_body]
fn text_from_utf8(b: Vec<u8>) -> (r: Result<String, std::string::FromUtf8Error>)
    ensures
        match r {
            Ok(s) => valid_utf8(b@) && s@ == decode_utf8(b@),
            Err(_) => !valid_utf8(b@),
        },
{
    String::from_utf8(b)
}

/// Why a stored name could not be recovered.
#[derive(Debug, PartialEq, Eq, Structural)]
pub enum NameError {
    InvalidHex,
    InvalidUtf8,
}

/// The previous bare name spelled by decrypted hexadecimal text.
pub fn previous_name(hex: &str) -> (r: Result<String, NameError>)
    ensures
        match hex_bytes(hex@) {
            None => r == Err::<String, NameError>(NameError::InvalidHex),
            Some(b) => if valid_utf8(b) {
                r is Ok && r->Ok_0@ == decode_utf8(b)
            } else {
                r == Err::<String, NameError>(NameError::InvalidUtf8)
            },
        },
{
    match from_hex_text(hex) {
        Ok(bytes) => match text_from_utf8(bytes) {
            Ok(s) => Ok(s),
            Err(_) => Err(NameError::InvalidUtf8),
        },
        Err(_) => Err(NameError::InvalidHex),
    }
}

} // verus!

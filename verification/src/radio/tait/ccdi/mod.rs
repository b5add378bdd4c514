//! The CCDI wire codec: lines of ASCII, each an identifier, a size, parameters and a
//! checksum.

use vstd::prelude::*;

use crate::numbers;
use crate::numbers::{parse_number, parse_signed};

pub mod checksum;
pub mod decoder;
pub mod frame;
pub mod message;

pub use checksum::{compute as compute_checksum, is_valid as checksum_is_valid};
pub use decoder::{CcdiEvent, LineDecoder};
pub use frame::{CcdiFrame, MAX_LINE, MAX_PARAMS};
pub use message::{CcdiMessage, CcdiProgressType};

verus! {

/// The upper-case hexadecimal digit of a number below 16.
pub open spec fn hex_digit(n: int) -> u8 {
    if n < 10 {
        (0x30 + n) as u8
    } else {
        (0x37 + n) as u8
    }
}

/// The value of a hexadecimal digit of either case.
pub open spec fn hex_value(b: u8) -> Option<nat> {
    if 0x30 <= b <= 0x39 {
        Some((b - 0x30) as nat)
    } else if 0x61 <= b <= 0x66 {
        Some((b - 0x57) as nat)
    } else if 0x41 <= b <= 0x46 {
        Some((b - 0x37) as nat)
    } else {
        None
    }
}

/// An octet in two hexadecimal digits.
pub open spec fn hex_pair(b: u8) -> Seq<u8> {
    seq![hex_digit((b / 16) as int), hex_digit((b % 16) as int)]
}

/// The number that one or two hexadecimal digits write.
pub open spec fn hex_in(s: Seq<u8>) -> Option<u8> {
    if s.len() == 1 {
        match hex_value(s[0]) {
            Some(a) => Some(a as u8),
            None => None,
        }
    } else if s.len() == 2 {
        match (hex_value(s[0]), hex_value(s[1])) {
            (Some(a), Some(b)) => Some((a * 16 + b) as u8),
            _ => None,
        }
    } else {
        None
    }
}

/// An octet is read back from its two digits.
pub proof fn law_hex_round_trip(b: u8)
    ensures
        hex_in(hex_pair(b)) == Some(b),
{
}

/// The upper-case hexadecimal digit of the low half of an octet.
pub fn hex_upper(nibble: u8) -> (r: u8)
    ensures
        r == hex_digit((nibble % 16) as int),
{
    let n: u8 = nibble % 16;
    if n < 10 {
        0x30 + n
    } else {
        0x37 + n
    }
}

/// The value of a hexadecimal digit of either case.
pub fn from_hex_nibble(b: u8) -> (r: Option<u8>)
    ensures
        match r {
            Some(v) => hex_value(b) == Some(v as nat) && v < 16,
            None => hex_value(b) is None,
        },
{
    if 0x30 <= b && b <= 0x39 {
        Some(b - 0x30)
    } else if 0x61 <= b && b <= 0x66 {
        Some(b - 0x57)
    } else if 0x41 <= b && b <= 0x46 {
        Some(b - 0x37)
    } else {
        None
    }
}

/// The number that one or two hexadecimal digits write.
pub fn parse_hex_u8(digits: &[u8]) -> (r: Option<u8>)
    ensures
        r == hex_in(digits@),
{
    if digits.len() == 1 {
        return from_hex_nibble(digits[0]);
    }
    if digits.len() != 2 {
        return None;
    }
    match (from_hex_nibble(digits[0]), from_hex_nibble(digits[1])) {
        (Some(a), Some(b)) => Some(a * 16 + b),
        _ => None,
    }
}

/// The number that decimal digits write, if it fits 16 bits.
pub fn parse_dec_u16(digits: &[u8]) -> (r: Option<u16>)
    ensures
        match r {
            Some(v) => numbers::number_in(digits@, 65535) == Some(v as nat),
            None => numbers::number_in(digits@, 65535) is None,
        },
{
    match parse_number(digits, 65535) {
        Some(v) => Some(v as u16),
        None => None,
    }
}

/// The number that a sign, where there is one, and decimal digits write, if it fits 32
/// bits.
pub fn parse_signed_i32(text: &[u8]) -> (r: Option<i32>)
    ensures
        match r {
            Some(v) => numbers::signed_in(text@) == Some(v as int),
            None => numbers::signed_in(text@) is None,
        },
{
    parse_signed(text)
}

} // verus!

//! Addresses written as text. All numbers are read as hexadecimals.

use crate::text::{parse_unsigned, unsigned_text, without_plus};
use vstd::prelude::*;
use vstd::string::*;

verus! {

/// `text` without a leading `0x`.
pub open spec fn without_hex_mark(text: Seq<char>) -> Seq<char> {
    if text.len() >= 2 && text[0] == '0' && text[1] == 'x' {
        text.skip(2)
    } else {
        text
    }
}

/// The address that `text` stands for: hexadecimal digits in either case,
/// with an optional `0x` before them, that give a number an address can
/// hold.
pub open spec fn address_text(text: Seq<char>) -> Option<nat> {
    unsigned_text(without_hex_mark(text), 16, usize::MAX as nat)
}

/// Reads an address. Gives nothing for text that is not a hexadecimal
/// number and for a number that no address can hold.
pub fn parse_address(addr: &str) -> (address: Option<usize>)
    ensures
        match address {
            Some(a) => address_text(addr@) == Some(a as nat),
            None => address_text(addr@) is None,
        },
{
    broadcast use vstd::string::is_ascii_spec_bytes;

    if !addr.is_ascii() {
        proof {
            let i = choose|i: int| 0 <= i < addr@.len() && !('\0' <= #[trigger] addr@[i] <= '\u{7f}');
            let body = without_hex_mark(addr@);
            if body.len() != addr@.len() {
                assert(body[i - 2] == addr@[i]);
            }
            let digits = without_plus(body);
            if digits.len() != body.len() {
                assert(digits[digits.len() - 1] == body[body.len() - 1]);
            }
            let k = i - (addr@.len() - digits.len());
            assert(digits[k] == addr@[i]);
        }
        return None;
    }
    let bytes = addr.as_bytes();
    let len: usize = bytes.len();
    let body: &str = if len >= 2 && bytes[0] == 48 && bytes[1] == 120 {
        assert(bytes@[0] == addr@[0] as u8);
        assert(bytes@[1] == addr@[1] as u8);
        addr.substring_ascii(2, len)
    } else {
        proof {
            if len >= 2 {
                assert(bytes@[0] == addr@[0] as u8);
                assert(bytes@[1] == addr@[1] as u8);
            }
        }
        addr
    };
    assert(body@ == without_hex_mark(addr@));
    match parse_unsigned(body, 16, usize::MAX as u64) {
        Some(value) => Some(value as usize),
        None => None,
    }
}

} // verus!

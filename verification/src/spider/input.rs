//! What the user types for a search, and how values are shown.

use crate::address::{address_text, parse_address};
use crate::field::FieldKind;
use crate::spider::{Branch, SearchOptions};
use crate::text::{
    decimal_text, digits_text, lemma_decimal_text_reads_back, parse_signed, parse_unsigned,
    push_digits, signed_text, unsigned_text,
};
use crate::value::{bits_of, Value};
use std::sync::Arc;
use vstd::prelude::*;
use vstd::string::*;

verus! {

/// Text that does not stand for a value of the kind it was read as.
#[derive(Debug, Clone, Copy, PartialEq, Eq, Structural)]
pub struct ParseError {
    /// The kind that the text was read as.
    pub kind: FieldKind,
}

/// The value of an integer kind that decimal text stands for: an optional
/// sign and digits, in the range of the kind. Unsigned kinds take no minus
/// sign.
pub open spec fn parsed(kind: FieldKind, text: Seq<char>) -> Option<Value> {
    match kind {
        FieldKind::I8 => match signed_text(text, 10, -0x80, 0x7f) {
            Some(v) => Some(Value::I8(v as i8)),
            None => None,
        },
        FieldKind::I16 => match signed_text(text, 10, -0x8000, 0x7fff) {
            Some(v) => Some(Value::I16(v as i16)),
            None => None,
        },
        FieldKind::I32 => match signed_text(text, 10, -0x8000_0000, 0x7fff_ffff) {
            Some(v) => Some(Value::I32(v as i32)),
            None => None,
        },
        FieldKind::I64 => match signed_text(
            text,
            10,
            -0x8000_0000_0000_0000,
            0x7fff_ffff_ffff_ffff,
        ) {
            Some(v) => Some(Value::I64(v as i64)),
            None => None,
        },
        FieldKind::U8 => match unsigned_text(text, 10, 0xff) {
            Some(v) => Some(Value::U8(v as u8)),
            None => None,
        },
        FieldKind::U16 => match unsigned_text(text, 10, 0xffff) {
            Some(v) => Some(Value::U16(v as u16)),
            None => None,
        },
        FieldKind::U32 => match unsigned_text(text, 10, 0xffff_ffff) {
            Some(v) => Some(Value::U32(v as u32)),
            None => None,
        },
        FieldKind::U64 => match unsigned_text(text, 10, 0xffff_ffff_ffff_ffff) {
            Some(v) => Some(Value::U64(v as u64)),
            None => None,
        },
        _ => None,
    }
}

/// Reads decimal text as a value of an integer kind.
pub fn parse_kind_to_value(kind: FieldKind, s: &str) -> (value: Result<Value, ParseError>)
    requires
        kind.is_integer(),
    ensures
        match value {
            Ok(v) => parsed(kind, s@) == Some(v) && v.spec_kind() == kind,
            Err(e) => parsed(kind, s@) is None && e.kind == kind,
        },
{
    let read: Option<Value> = match kind {
        FieldKind::I8 => match parse_signed(s, 10, -0x80, 0x7f) {
            Some(v) => Some(Value::I8(v as i8)),
            None => None,
        },
        FieldKind::I16 => match parse_signed(s, 10, -0x8000, 0x7fff) {
            Some(v) => Some(Value::I16(v as i16)),
            None => None,
        },
        FieldKind::I32 => match parse_signed(s, 10, -0x8000_0000, 0x7fff_ffff) {
            Some(v) => Some(Value::I32(v as i32)),
            None => None,
        },
        FieldKind::I64 => match parse_signed(s, 10, i64::MIN, i64::MAX) {
            Some(v) => Some(Value::I64(v)),
            None => None,
        },
        FieldKind::U8 => match parse_unsigned(s, 10, 0xff) {
            Some(v) => Some(Value::U8(v as u8)),
            None => None,
        },
        FieldKind::U16 => match parse_unsigned(s, 10, 0xffff) {
            Some(v) => Some(Value::U16(v as u16)),
            None => None,
        },
        FieldKind::U32 => match parse_unsigned(s, 10, 0xffff_ffff) {
            Some(v) => Some(Value::U32(v as u32)),
            None => None,
        },
        _ => match parse_unsigned(s, 10, u64::MAX) {
            Some(v) => Some(Value::U64(v)),
            None => None,
        },
    };
    match read {
        Some(v) => Ok(v),
        None => Err(ParseError { kind }),
    }
}

/// How a value is shown.
#[derive(Debug, Clone, Copy, PartialEq, Eq, Structural)]
pub enum DisplayMode {
    /// In decimal.
    Normal,
    /// In hexadecimal.
    Hex,
}

/// The text that an integer value is shown as.
pub open spec fn shown(mode: DisplayMode, value: Value) -> Seq<char> {
    match mode {
        DisplayMode::Normal => decimal_text(value.rank()),
        DisplayMode::Hex => digits_text(bits_of(value), 16),
    }
}

/// The number that an integer value holds, as far as 64 bits with sign hold
/// it.
fn number_of(value: Value) -> (number: i64)
    requires
        value.spec_kind().is_integer(),
    ensures
        number == value.rank() || (value.rank() > i64::MAX && number == 0),
{
    match value {
        Value::U8(v) => v as i64,
        Value::U16(v) => v as i64,
        Value::U32(v) => v as i64,
        Value::U64(v) => if v <= 0x7fff_ffff_ffff_ffff {
            v as i64
        } else {
            0
        },
        Value::I8(v) => v as i64,
        Value::I16(v) => v as i64,
        Value::I32(v) => v as i64,
        Value::I64(v) => v,
        _ => 0,
    }
}

impl DisplayMode {
    /// Writes an integer value out: in decimal with a minus sign where it is
    /// negative, or in hexadecimal with capital letters, a negative number
    /// by its bits.
    pub fn format(&self, value: Value) -> (text: String)
        requires
            value.spec_kind().is_integer(),
        ensures
            text@ == shown(*self, value),
    {
        let number = number_of(value);
        let bits = value.bits();
        let mut text = String::new();
        match self {
            DisplayMode::Normal => {
                if number < 0 {
                    proof {
                        reveal_strlit("-");
                    }
                    text.append("-");
                    assert(text@ == seq!['-']);
                    let magnitude: u64 = if number == i64::MIN {
                        0x8000_0000_0000_0000
                    } else {
                        (-number) as u64
                    };
                    push_digits(&mut text, magnitude, 10);
                } else {
                    push_digits(&mut text, bits, 10);
                    assert(Seq::<char>::empty() + digits_text(bits as nat, 10) == digits_text(
                        bits as nat,
                        10,
                    ));
                }
            },
            DisplayMode::Hex => {
                push_digits(&mut text, bits, 16);
                assert(Seq::<char>::empty() + digits_text(bits as nat, 16) == digits_text(
                    bits as nat,
                    16,
                ));
            },
        }
        text
    }
}

/// An integer value written in decimal reads back as the same value.
pub proof fn lemma_parse_reads_format_back(value: Value)
    requires
        value.spec_kind().is_integer(),
    ensures
        parsed(value.spec_kind(), shown(DisplayMode::Normal, value)) == Some(value),
{
    match value {
        Value::I8(v) => lemma_decimal_text_reads_back(v as int, -0x80, 0x7f),
        Value::I16(v) => lemma_decimal_text_reads_back(v as int, -0x8000, 0x7fff),
        Value::I32(v) => lemma_decimal_text_reads_back(v as int, -0x8000_0000, 0x7fff_ffff),
        Value::I64(v) => lemma_decimal_text_reads_back(
            v as int,
            -0x8000_0000_0000_0000,
            0x7fff_ffff_ffff_ffff,
        ),
        Value::U8(v) => lemma_decimal_text_reads_back(v as int, 0, 0xff),
        Value::U16(v) => lemma_decimal_text_reads_back(v as int, 0, 0xffff),
        Value::U32(v) => lemma_decimal_text_reads_back(v as int, 0, 0xffff_ffff),
        Value::U64(v) => lemma_decimal_text_reads_back(v as int, 0, 0xffff_ffff_ffff_ffff),
        _ => {},
    }
}

/// The fields of a search that are typed as decimal numbers.
#[derive(Debug, Clone, Copy, PartialEq, Eq, Structural)]
pub enum SearchField {
    MaxLevel,
    Alignment,
    StructSize,
}

/// Why a search could not be put together from what was typed.
#[derive(Debug, Clone, Copy, PartialEq, Eq, Structural)]
pub enum SpiderError {
    /// Nothing was typed into the field.
    Required(SearchField),
    /// What was typed into the field is no number that it can take.
    Invalid(SearchField),
    /// No base address was typed.
    AddressRequired,
    /// The base address is in an invalid format.
    InvalidAddress,
    /// The text for the value does not stand for a value of the chosen kind.
    ParseError,
}

/// What a field typed as a decimal number holds.
pub open spec fn field_text(field: SearchField, text: Seq<char>) -> Result<nat, SpiderError> {
    if text.len() == 0 {
        Err(SpiderError::Required(field))
    } else {
        match unsigned_text(text, 10, usize::MAX as nat) {
            Some(n) => if field == SearchField::Alignment && n == 0 {
                Err(SpiderError::Invalid(field))
            } else {
                Ok(n)
            },
            None => Err(SpiderError::Invalid(field)),
        }
    }
}

/// What the text for the base address holds.
pub open spec fn base_text(text: Seq<char>) -> Result<nat, SpiderError> {
    if text.len() == 0 {
        Err(SpiderError::AddressRequired)
    } else {
        match address_text(text) {
            Some(a) => Ok(a),
            None => Err(SpiderError::InvalidAddress),
        }
    }
}

/// The search that the typed fields ask for, or the first fault among
/// them: the fields are looked at in the order of the parameters.
pub open spec fn collected(
    max_levels: Seq<char>,
    alignment: Seq<char>,
    struct_size: Seq<char>,
    base_address: Seq<char>,
    value: Option<Value>,
) -> Result<Branch, SpiderError> {
    match field_text(SearchField::MaxLevel, max_levels) {
        Err(e) => Err(e),
        Ok(depth) => match field_text(SearchField::Alignment, alignment) {
            Err(e) => Err(e),
            Ok(step) => match field_text(SearchField::StructSize, struct_size) {
                Err(e) => Err(e),
                Ok(size) => match base_text(base_address) {
                    Err(e) => Err(e),
                    Ok(address) => match value {
                        None => Err(SpiderError::ParseError),
                        Some(wanted) => Ok(
                            Branch {
                                path: Seq::empty(),
                                struct_size: size as usize,
                                alignment: step as usize,
                                address: address as usize,
                                depth: depth as usize,
                                value: wanted,
                            },
                        ),
                    },
                },
            },
        }
    }
}

/// Reads a field typed as a decimal number.
fn read_field(field: SearchField, text: &str) -> (number: Result<usize, SpiderError>)
    ensures
        match number {
            Ok(n) => field_text(field, text@) == Ok::<nat, SpiderError>(n as nat),
            Err(e) => field_text(field, text@) == Err::<nat, SpiderError>(e),
        },
{
    if text.is_empty() {
        return Err(SpiderError::Required(field));
    }
    match parse_unsigned(text, 10, usize::MAX as u64) {
        Some(n) => {
            if n == 0 && field == SearchField::Alignment {
                Err(SpiderError::Invalid(field))
            } else {
                Ok(n as usize)
            }
        },
        None => Err(SpiderError::Invalid(field)),
    }
}

/// Puts the options of a first search together from what was typed: the
/// number of levels, the alignment and the structure size in decimal, the
/// base address in hexadecimal. `value` is what the text for the value was
/// read as, if it could be read. The alignment must be at least one. The
/// search starts with an empty path.
pub fn collect_options(
    max_levels: &str,
    alignment: &str,
    struct_size: &str,
    base_address: &str,
    value: Option<Value>,
) -> (options: Result<SearchOptions, SpiderError>)
    ensures
        match options {
            Ok(o) => collected(max_levels@, alignment@, struct_size@, base_address@, value) == Ok::<
                Branch,
                SpiderError,
            >(o@) && o.well_formed(),
            Err(e) => collected(max_levels@, alignment@, struct_size@, base_address@, value)
                == Err::<Branch, SpiderError>(e),
        },
{
    let depth = match read_field(SearchField::MaxLevel, max_levels) {
        Ok(n) => n,
        Err(e) => { return Err(e); },
    };
    let step = match read_field(SearchField::Alignment, alignment) {
        Ok(n) => n,
        Err(e) => { return Err(e); },
    };
    let size = match read_field(SearchField::StructSize, struct_size) {
        Ok(n) => n,
        Err(e) => { return Err(e); },
    };
    if base_address.is_empty() {
        return Err(SpiderError::AddressRequired);
    }
    let address = match parse_address(base_address) {
        Some(a) => a,
        None => { return Err(SpiderError::InvalidAddress); },
    };
    match value {
        None => Err(SpiderError::ParseError),
        Some(wanted) => Ok(
            SearchOptions {
                offsets: Arc::new(Vec::new()),
                struct_size: size,
                alignment: step,
                address,
                depth,
                value: wanted,
            },
        ),
    }
}

} // verus!

//! Numbers as the spider finds them in memory.

use crate::bytes::{
    load_u16, load_u32, load_u64, load_u8, sign_threshold, store_unsigned, ByteOrder,
};
use crate::field::FieldKind;
use std::cmp::Ordering;
use vstd::prelude::*;
use vstd::std_specs::cmp::{PartialEqSpecImpl, PartialOrdSpecImpl};

verus! {

/// A number of one of the ten numeric kinds. The two floating-point variants
/// hold the IEEE 754 bit pattern of their number.
#[derive(Debug, Clone, Copy)]
pub enum Value {
    U8(u8),
    I8(i8),
    U16(u16),
    I16(i16),
    U32(u32),
    I32(i32),
    U64(u64),
    I64(i64),
    F32(u32),
    F64(u64),
}

/// A bit pattern without its sign bit, where `sign` is the value of that bit.
pub open spec fn magnitude(bits: nat, sign: nat) -> nat {
    if bits >= sign {
        (bits - sign) as nat
    } else {
        bits
    }
}

/// Where the float with this bit pattern lies on the number line, up to a
/// scale that keeps the order: the magnitude, negated under a set sign bit.
/// Both zeros lie at 0. `sign` is the value of the sign bit.
pub open spec fn float_rank(bits: nat, sign: nat) -> int {
    if bits >= sign {
        -(magnitude(bits, sign) as int)
    } else {
        bits as int
    }
}

impl Value {
    /// The kind of this value.
    pub open spec fn spec_kind(self) -> FieldKind {
        match self {
            Value::U8(_) => FieldKind::U8,
            Value::I8(_) => FieldKind::I8,
            Value::U16(_) => FieldKind::U16,
            Value::I16(_) => FieldKind::I16,
            Value::U32(_) => FieldKind::U32,
            Value::I32(_) => FieldKind::I32,
            Value::U64(_) => FieldKind::U64,
            Value::I64(_) => FieldKind::I64,
            Value::F32(_) => FieldKind::F32,
            Value::F64(_) => FieldKind::F64,
        }
    }

    /// A float that is not a number: all exponent bits set and a fraction
    /// other than zero.
    pub open spec fn is_nan(self) -> bool {
        match self {
            Value::F32(bits) => magnitude(bits as nat, 0x8000_0000) > 0x7f80_0000,
            Value::F64(bits) => magnitude(bits as nat, 0x8000_0000_0000_0000)
                > 0x7ff0_0000_0000_0000,
            _ => false,
        }
    }

    /// The place of this value among those of its kind: the number itself for
    /// an integer, `float_rank` of the bit pattern for a float.
    pub open spec fn rank(self) -> int {
        match self {
            Value::U8(v) => v as int,
            Value::I8(v) => v as int,
            Value::U16(v) => v as int,
            Value::I16(v) => v as int,
            Value::U32(v) => v as int,
            Value::I32(v) => v as int,
            Value::U64(v) => v as int,
            Value::I64(v) => v as int,
            Value::F32(bits) => float_rank(bits as nat, 0x8000_0000),
            Value::F64(bits) => float_rank(bits as nat, 0x8000_0000_0000_0000),
        }
    }

    /// Two values that have an order: of one kind, and neither a NaN.
    pub open spec fn ordered_with(self, other: Value) -> bool {
        self.spec_kind() == other.spec_kind() && !self.is_nan() && !other.is_nan()
    }

    /// `self == other` as the numbers compare: `+0.0 == -0.0`, and a NaN
    /// equals nothing.
    pub open spec fn same_number(self, other: Value) -> bool {
        self.ordered_with(other) && self.rank() == other.rank()
    }

    /// `self < other` as the numbers compare.
    pub open spec fn below(self, other: Value) -> bool {
        self.ordered_with(other) && self.rank() < other.rank()
    }

    /// The value of `kind` that `bytes` begins with, read in `order`. For a
    /// kind that is not numeric this is the eight bytes as a number without
    /// sign.
    pub open spec fn decoded(kind: FieldKind, bytes: Seq<u8>, order: ByteOrder) -> Value {
        match kind {
            FieldKind::I8 => Value::I8(order.signed(bytes, 1) as i8),
            FieldKind::I16 => Value::I16(order.signed(bytes, 2) as i16),
            FieldKind::I32 => Value::I32(order.signed(bytes, 4) as i32),
            FieldKind::I64 => Value::I64(order.signed(bytes, 8) as i64),
            FieldKind::U8 => Value::U8(order.unsigned(bytes, 1) as u8),
            FieldKind::U16 => Value::U16(order.unsigned(bytes, 2) as u16),
            FieldKind::U32 => Value::U32(order.unsigned(bytes, 4) as u32),
            FieldKind::F32 => Value::F32(order.unsigned(bytes, 4) as u32),
            FieldKind::F64 => Value::F64(order.unsigned(bytes, 8) as u64),
            _ => Value::U64(order.unsigned(bytes, 8) as u64),
        }
    }

    pub fn kind(&self) -> (kind: FieldKind)
        ensures
            kind == self.spec_kind(),
            kind.is_numeric(),
    {
        match self {
            Value::U8(_) => FieldKind::U8,
            Value::I8(_) => FieldKind::I8,
            Value::U16(_) => FieldKind::U16,
            Value::I16(_) => FieldKind::I16,
            Value::U32(_) => FieldKind::U32,
            Value::I32(_) => FieldKind::I32,
            Value::U64(_) => FieldKind::U64,
            Value::I64(_) => FieldKind::I64,
            Value::F32(_) => FieldKind::F32,
            Value::F64(_) => FieldKind::F64,
        }
    }

    /// Whether this is a float that is not a number.
    pub fn nan(&self) -> (r: bool)
        ensures
            r == self.is_nan(),
    {
        match self {
            Value::F32(bits) => {
                let m: u32 = if *bits >= 0x8000_0000 {
                    *bits - 0x8000_0000
                } else {
                    *bits
                };
                m > 0x7f80_0000
            },
            Value::F64(bits) => {
                let m: u64 = if *bits >= 0x8000_0000_0000_0000 {
                    *bits - 0x8000_0000_0000_0000
                } else {
                    *bits
                };
                m > 0x7ff0_0000_0000_0000
            },
            _ => false,
        }
    }
}

/// `float_rank` of a 32-bit pattern.
fn rank32(bits: u32) -> (r: i64)
    ensures
        r == float_rank(bits as nat, 0x8000_0000),
{
    if bits >= 0x8000_0000 {
        -((bits - 0x8000_0000) as i64)
    } else {
        bits as i64
    }
}

/// `float_rank` of a 64-bit pattern.
fn rank64(bits: u64) -> (r: i64)
    ensures
        r == float_rank(bits as nat, 0x8000_0000_0000_0000),
{
    if bits >= 0x8000_0000_0000_0000 {
        -((bits - 0x8000_0000_0000_0000) as i64)
    } else {
        bits as i64
    }
}

fn widen8(v: u8) -> (r: u64)
    ensures
        r == v,
{
    v as u64
}

fn widen16(v: u16) -> (r: u64)
    ensures
        r == v,
{
    v as u64
}

fn widen32(v: u32) -> (r: u64)
    ensures
        r == v,
{
    v as u64
}

fn extend8(v: i8) -> (r: i64)
    ensures
        r == v,
{
    v as i64
}

fn extend16(v: i16) -> (r: i64)
    ensures
        r == v,
{
    v as i64
}

fn extend32(v: i32) -> (r: i64)
    ensures
        r == v,
{
    v as i64
}

/// Two's complement of one byte.
fn signed8(raw: u8) -> (r: i8)
    ensures
        r == if raw >= 0x80 { raw - 0x100 } else { raw as int },
{
    if raw >= 0x80 {
        ((raw - 0x80) as i8) - 0x7f - 1
    } else {
        raw as i8
    }
}

/// Two's complement of two bytes.
fn signed16(raw: u16) -> (r: i16)
    ensures
        r == if raw >= 0x8000 { raw - 0x1_0000 } else { raw as int },
{
    if raw >= 0x8000 {
        ((raw - 0x8000) as i16) - 0x7fff - 1
    } else {
        raw as i16
    }
}

/// Two's complement of four bytes.
fn signed32(raw: u32) -> (r: i32)
    ensures
        r == if raw >= 0x8000_0000 { raw - 0x1_0000_0000 } else { raw as int },
{
    if raw >= 0x8000_0000 {
        ((raw - 0x8000_0000) as i32) - 0x7fff_ffff - 1
    } else {
        raw as i32
    }
}

/// Two's complement of eight bytes.
fn signed64(raw: u64) -> (r: i64)
    ensures
        r == if raw >= 0x8000_0000_0000_0000 {
            raw - 0x1_0000_0000_0000_0000
        } else {
            raw as int
        },
{
    if raw >= 0x8000_0000_0000_0000 {
        ((raw - 0x8000_0000_0000_0000) as i64) - 0x7fff_ffff_ffff_ffff - 1
    } else {
        raw as i64
    }
}

/// The bits of a value as a number without sign: an integer in two's
/// complement at its width, a float by its bit pattern.
pub open spec fn bits_of(value: Value) -> nat {
    match value {
        Value::F32(bits) => bits as nat,
        Value::F64(bits) => bits as nat,
        _ => if value.rank() >= 0 {
            value.rank() as nat
        } else {
            (value.rank() + 2 * sign_threshold(value.spec_kind().width())) as nat
        },
    }
}

impl Value {
    /// The bits of the value.
    pub fn bits(&self) -> (bits: u64)
        ensures
            bits == bits_of(*self),
            self.spec_kind().width() < 8 ==> bits < 2 * sign_threshold(self.spec_kind().width()),
    {
        match *self {
            Value::U8(v) => v as u64,
            Value::U16(v) => v as u64,
            Value::U32(v) => v as u64,
            Value::U64(v) => v,
            Value::I8(v) => if v < 0 {
                (v as i64 + 0x100) as u64
            } else {
                v as u64
            },
            Value::I16(v) => if v < 0 {
                (v as i64 + 0x1_0000) as u64
            } else {
                v as u64
            },
            Value::I32(v) => if v < 0 {
                (v as i64 + 0x1_0000_0000) as u64
            } else {
                v as u64
            },
            Value::I64(v) => if v < 0 {
                ((v + 0x7fff_ffff_ffff_ffff + 1) as u64) + 0x8000_0000_0000_0000
            } else {
                v as u64
            },
            Value::F32(bits) => bits as u64,
            Value::F64(bits) => bits,
        }
    }

    /// The bytes that hold the value in memory, in the given byte order: as
    /// many as its kind is wide. Read back, they give the value.
    pub fn to_bytes(&self, order: ByteOrder) -> (bytes: Vec<u8>)
        ensures
            bytes@.len() == self.spec_kind().width(),
            Value::decoded(self.spec_kind(), bytes@, order) == *self,
    {
        let kind = self.kind();
        store_unsigned(self.bits(), kind.size(), order)
    }
}

/// Reads the first `kind.size()` bytes of `arr` as a value of `kind`, in the
/// given byte order. The bytes behind them are not looked at.
pub fn bytes_to_value(arr: &[u8; 8], kind: FieldKind, order: ByteOrder) -> (value: Value)
    requires
        kind.is_numeric(),
    ensures
        value == Value::decoded(kind, arr@, order),
        value.spec_kind() == kind,
{
    match kind {
        FieldKind::I8 => Value::I8(signed8(load_u8(arr, order))),
        FieldKind::I16 => Value::I16(signed16(load_u16(arr, order))),
        FieldKind::I32 => Value::I32(signed32(load_u32(arr, order))),
        FieldKind::I64 => Value::I64(signed64(load_u64(arr, order))),
        FieldKind::U8 => Value::U8(load_u8(arr, order)),
        FieldKind::U16 => Value::U16(load_u16(arr, order)),
        FieldKind::U32 => Value::U32(load_u32(arr, order)),
        FieldKind::F32 => Value::F32(load_u32(arr, order)),
        FieldKind::F64 => Value::F64(load_u64(arr, order)),
        _ => Value::U64(load_u64(arr, order)),
    }
}

} // verus!

verus! {

impl PartialEq for Value {
    fn eq(&self, other: &Value) -> (r: bool) {
        match (*self, *other) {
            (Value::U8(l), Value::U8(r)) => l == r,
            (Value::I8(l), Value::I8(r)) => l == r,
            (Value::U16(l), Value::U16(r)) => l == r,
            (Value::I16(l), Value::I16(r)) => l == r,
            (Value::U32(l), Value::U32(r)) => l == r,
            (Value::I32(l), Value::I32(r)) => l == r,
            (Value::U64(l), Value::U64(r)) => l == r,
            (Value::I64(l), Value::I64(r)) => l == r,
            (Value::F32(l), Value::F32(r)) => !self.nan() && !other.nan() && rank32(l) == rank32(
                r,
            ),
            (Value::F64(l), Value::F64(r)) => !self.nan() && !other.nan() && rank64(l) == rank64(
                r,
            ),
            _ => false,
        }
    }
}

impl PartialEqSpecImpl for Value {
    open spec fn obeys_eq_spec() -> bool {
        true
    }

    open spec fn eq_spec(&self, other: &Value) -> bool {
        self.same_number(*other)
    }
}

} // verus!

verus! {

/// The order of two ranks.
fn order_of(left: i64, right: i64) -> (r: Ordering)
    ensures
        r == Ordering::Less <==> left < right,
        r == Ordering::Equal <==> left == right,
        r == Ordering::Greater <==> left > right,
{
    if left < right {
        Ordering::Less
    } else if left == right {
        Ordering::Equal
    } else {
        Ordering::Greater
    }
}

/// The order of two unsigned numbers.
fn order_of_unsigned(left: u64, right: u64) -> (r: Ordering)
    ensures
        r == Ordering::Less <==> left < right,
        r == Ordering::Equal <==> left == right,
        r == Ordering::Greater <==> left > right,
{
    if left < right {
        Ordering::Less
    } else if left == right {
        Ordering::Equal
    } else {
        Ordering::Greater
    }
}

impl Value {
    /// How `self` stands to `other` as the numbers compare: nothing where
    /// the kinds differ or one of the two is a NaN.
    pub open spec fn ordering(self, other: Value) -> Option<Ordering> {
        if !self.ordered_with(other) {
            None
        } else if self.rank() < other.rank() {
            Some(Ordering::Less)
        } else if self.rank() == other.rank() {
            Some(Ordering::Equal)
        } else {
            Some(Ordering::Greater)
        }
    }

    /// Compares two values of one kind as their numbers compare. Integers
    /// always have an order; floats have none where one is a NaN.
    pub fn compare(&self, other: &Value) -> (r: Option<Ordering>)
        requires
            self.spec_kind() == other.spec_kind(),
        ensures
            r == self.ordering(*other),
            r is None <==> self.is_nan() || other.is_nan(),
    {
        self.partial_cmp(other)
    }
}

impl PartialOrd for Value {
    fn partial_cmp(&self, other: &Value) -> (r: Option<Ordering>) {
        match (*self, *other) {
            (Value::U8(l), Value::U8(r)) => Some(order_of_unsigned(widen8(l), widen8(r))),
            (Value::I8(l), Value::I8(r)) => Some(order_of(extend8(l), extend8(r))),
            (Value::U16(l), Value::U16(r)) => Some(order_of_unsigned(widen16(l), widen16(r))),
            (Value::I16(l), Value::I16(r)) => Some(order_of(extend16(l), extend16(r))),
            (Value::U32(l), Value::U32(r)) => Some(order_of_unsigned(widen32(l), widen32(r))),
            (Value::I32(l), Value::I32(r)) => Some(order_of(extend32(l), extend32(r))),
            (Value::U64(l), Value::U64(r)) => Some(order_of_unsigned(l, r)),
            (Value::I64(l), Value::I64(r)) => Some(order_of(l, r)),
            (Value::F32(l), Value::F32(r)) => {
                if self.nan() || other.nan() {
                    None
                } else {
                    Some(order_of(rank32(l), rank32(r)))
                }
            },
            (Value::F64(l), Value::F64(r)) => {
                if self.nan() || other.nan() {
                    None
                } else {
                    Some(order_of(rank64(l), rank64(r)))
                }
            },
            _ => None,
        }
    }
}

impl PartialOrdSpecImpl for Value {
    open spec fn obeys_partial_cmp_spec() -> bool {
        true
    }

    open spec fn partial_cmp_spec(&self, other: &Value) -> Option<Ordering> {
        self.ordering(*other)
    }
}

} // verus!

use crate::bytes::{big_endian, little_endian, ByteOrder};
use crate::field::{next_id, FieldId, IdSource};
use vstd::prelude::*;

verus! {

/// A field of `N` bytes whose meaning is not known yet. It is shown as hex
/// bytes, and has no name.
pub struct HexField<const N: usize> {
    id: FieldId,
}

impl<const N: usize> HexField<N> {
    pub closed spec fn spec_id(&self) -> FieldId {
        self.id
    }

    /// A field under the next id of the source.
    pub fn new(ids: &mut IdSource) -> (field: HexField<N>)
        ensures
            field.spec_id() == old(ids).upcoming(),
            final(ids).upcoming() == old(ids).upcoming().wrapping_add(1),
    {
        HexField { id: next_id(ids) }
    }

    pub fn id(&self) -> (id: FieldId)
        ensures
            id == self.spec_id(),
    {
        self.id
    }

    pub fn size(&self) -> (size: usize)
        ensures
            size == N,
    {
        N
    }
}

/// The bytes of one half of a field, read as a signed number.
fn half_value(bytes: &[u8], order: ByteOrder) -> (value: i64)
    requires
        bytes@.len() == 1 || bytes@.len() == 2 || bytes@.len() == 4,
    ensures
        value == order.signed(bytes@, bytes@.len()),
{
    proof {
        reveal_with_fuel(little_endian, 5);
        reveal_with_fuel(big_endian, 5);
    }
    if bytes.len() == 1 {
        let raw: i64 = bytes[0] as i64;
        if raw >= 0x80 {
            raw - 0x100
        } else {
            raw
        }
    } else if bytes.len() == 2 {
        let b0: i64 = bytes[0] as i64;
        let b1: i64 = bytes[1] as i64;
        let raw: i64 = match order {
            ByteOrder::Little => b0 + 0x100 * b1,
            ByteOrder::Big => 0x100 * b0 + b1,
        };
        if raw >= 0x8000 {
            raw - 0x1_0000
        } else {
            raw
        }
    } else {
        let b0: i64 = bytes[0] as i64;
        let b1: i64 = bytes[1] as i64;
        let b2: i64 = bytes[2] as i64;
        let b3: i64 = bytes[3] as i64;
        let raw: i64 = match order {
            ByteOrder::Little => b0 + 0x100 * b1 + 0x1_0000 * b2 + 0x100_0000 * b3,
            ByteOrder::Big => 0x100_0000 * b0 + 0x1_0000 * b1 + 0x100 * b2 + b3,
        };
        if raw >= 0x8000_0000 {
            raw - 0x1_0000_0000
        } else {
            raw
        }
    }
}

/// The two halves of a field of `N` bytes, each read as a signed number of
/// half the width.
pub fn int_high_low_from_le<const N: usize>(high: &[u8], low: &[u8], order: ByteOrder) -> (halves:
    (i64, i64))
    requires
        N == 2 || N == 4 || N == 8,
        high@.len() == N / 2,
        low@.len() == N / 2,
    ensures
        halves.0 == order.signed(high@, (N / 2) as nat),
        halves.1 == order.signed(low@, (N / 2) as nat),
{
    (half_value(high, order), half_value(low, order))
}

} // verus!

//! Integers as they lie in memory, in either byte order.

use vstd::prelude::*;

verus! {

/// The order in which the bytes of a number lie in memory.
#[derive(Debug, Clone, Copy, PartialEq, Eq, Structural)]
pub enum ByteOrder {
    /// Least significant byte first.
    Little,
    /// Most significant byte first.
    Big,
}

/// The number whose least significant byte is `bytes[from]` and whose most
/// significant is `bytes[to - 1]`.
pub open spec fn little_endian(bytes: Seq<u8>, from: int, to: int) -> nat
    decreases to - from,
{
    if from >= to {
        0
    } else {
        bytes[from] as nat + 256 * little_endian(bytes, from + 1, to)
    }
}

/// The number whose most significant byte is `bytes[0]` and whose least
/// significant is `bytes[len - 1]`.
pub open spec fn big_endian(bytes: Seq<u8>, len: int) -> nat
    decreases len,
{
    if len <= 0 {
        0
    } else {
        256 * big_endian(bytes, len - 1) + bytes[len - 1] as nat
    }
}

/// Half the number of values that `width` bytes can hold: the first value
/// that two's complement reads as negative.
pub open spec fn sign_threshold(width: nat) -> nat {
    if width == 1 {
        0x80
    } else if width == 2 {
        0x8000
    } else if width == 4 {
        0x8000_0000
    } else {
        0x8000_0000_0000_0000
    }
}

impl ByteOrder {
    /// The first `width` bytes of `bytes`, read as an unsigned number.
    pub open spec fn unsigned(self, bytes: Seq<u8>, width: nat) -> nat {
        match self {
            ByteOrder::Little => little_endian(bytes, 0, width as int),
            ByteOrder::Big => big_endian(bytes, width as int),
        }
    }

    /// The first `width` bytes of `bytes`, read in two's complement.
    pub open spec fn signed(self, bytes: Seq<u8>, width: nat) -> int {
        let raw = self.unsigned(bytes, width);
        if raw >= sign_threshold(width) {
            raw - 2 * sign_threshold(width)
        } else {
            raw as int
        }
    }

    /// The order of a machine that reads the bytes 1, 0 as `one`: least
    /// significant byte first where they read as 1, most significant first
    /// otherwise. In that order the two bytes stand for what was read.
    pub fn of_reading(one: u16) -> (order: ByteOrder)
        ensures
            order == if one == 1 {
                ByteOrder::Little
            } else {
                ByteOrder::Big
            },
            one == 1 || one == 256 ==> order.unsigned(seq![1u8, 0u8], 2) == one,
    {
        proof {
            reveal_with_fuel(little_endian, 3);
            reveal_with_fuel(big_endian, 3);
        }
        if one == 1 {
            ByteOrder::Little
        } else {
            ByteOrder::Big
        }
    }

    /// The order of the machine this runs on: that of what the machine
    /// reads the bytes 1, 0 as. Which of the two it is depends on the
    /// machine.
    pub fn host() -> ByteOrder {
        ByteOrder::of_reading(one_in_host_order())
    }
}

/// `u16::from_ne_bytes` on the bytes 1, 0: the machine reads them as 1 where
/// the least significant byte comes first and as 256 where it comes last.
#[verifier::external_body]
fn one_in_host_order() -> (r: u16)
    ensures
        r == 1 || r == 256,
{
    u16::from_ne_bytes([1, 0])
}

/// The first byte.
pub fn load_u8(bytes: &[u8; 8], order: ByteOrder) -> (r: u8)
    ensures
        r == order.unsigned(bytes@, 1),
{
    proof {
        reveal_with_fuel(little_endian, 2);
        reveal_with_fuel(big_endian, 2);
    }
    bytes[0]
}

/// The first two bytes as an unsigned number.
pub fn load_u16(bytes: &[u8; 8], order: ByteOrder) -> (r: u16)
    ensures
        r == order.unsigned(bytes@, 2),
{
    proof {
        reveal_with_fuel(little_endian, 3);
        reveal_with_fuel(big_endian, 3);
    }
    let b0: u16 = bytes[0] as u16;
    let b1: u16 = bytes[1] as u16;
    match order {
        ByteOrder::Little => b0 + 0x100 * b1,
        ByteOrder::Big => 0x100 * b0 + b1,
    }
}

/// The first four bytes as an unsigned number.
pub fn load_u32(bytes: &[u8; 8], order: ByteOrder) -> (r: u32)
    ensures
        r == order.unsigned(bytes@, 4),
{
    proof {
        reveal_with_fuel(little_endian, 5);
        reveal_with_fuel(big_endian, 5);
    }
    let b0: u32 = bytes[0] as u32;
    let b1: u32 = bytes[1] as u32;
    let b2: u32 = bytes[2] as u32;
    let b3: u32 = bytes[3] as u32;
    match order {
        ByteOrder::Little => b0 + 0x100 * b1 + 0x1_0000 * b2 + 0x100_0000 * b3,
        ByteOrder::Big => 0x100_0000 * b0 + 0x1_0000 * b1 + 0x100 * b2 + b3,
    }
}

/// All eight bytes as an unsigned number.
pub fn load_u64(bytes: &[u8; 8], order: ByteOrder) -> (r: u64)
    ensures
        r == order.unsigned(bytes@, 8),
{
    proof {
        reveal_with_fuel(little_endian, 9);
        reveal_with_fuel(big_endian, 9);
    }
    let b0: u64 = bytes[0] as u64;
    let b1: u64 = bytes[1] as u64;
    let b2: u64 = bytes[2] as u64;
    let b3: u64 = bytes[3] as u64;
    let b4: u64 = bytes[4] as u64;
    let b5: u64 = bytes[5] as u64;
    let b6: u64 = bytes[6] as u64;
    let b7: u64 = bytes[7] as u64;
    match order {
        ByteOrder::Little => b0 + 0x100 * b1 + 0x1_0000 * b2 + 0x100_0000 * b3 + 0x1_0000_0000 * b4
            + 0x100_0000_0000 * b5 + 0x1_0000_0000_0000 * b6 + 0x100_0000_0000_0000 * b7,
        ByteOrder::Big => 0x100_0000_0000_0000 * b0 + 0x1_0000_0000_0000 * b1 + 0x100_0000_0000
            * b2 + 0x1_0000_0000 * b3 + 0x100_0000 * b4 + 0x1_0000 * b5 + 0x100 * b6 + b7,
    }
}

/// The low eight bits of `bits`, and what is left above them.
fn split_low(bits: u64) -> (parts: (u8, u64))
    ensures
        bits == parts.0 + 0x100 * parts.1,
        parts.1 <= bits / 0x100,
{
    ((bits % 0x100) as u8, bits / 0x100)
}

/// The bytes that hold `bits` as a number of `width` bytes in `order`.
pub fn store_unsigned(bits: u64, width: usize, order: ByteOrder) -> (bytes: Vec<u8>)
    requires
        width == 1 || width == 2 || width == 4 || width == 8,
        width < 8 ==> bits < 2 * sign_threshold(width as nat),
    ensures
        bytes@.len() == width,
        order.unsigned(bytes@, width as nat) == bits,
{
    let (b0, r1) = split_low(bits);
    let (b1, r2) = split_low(r1);
    let (b2, r3) = split_low(r2);
    let (b3, r4) = split_low(r3);
    let (b4, r5) = split_low(r4);
    let (b5, r6) = split_low(r5);
    let (b6, r7) = split_low(r6);
    let (b7, r8) = split_low(r7);
    let mut bytes: Vec<u8> = Vec::new();
    proof {
        reveal_with_fuel(little_endian, 9);
        reveal_with_fuel(big_endian, 9);
    }
    match order {
        ByteOrder::Little => {
            bytes.push(b0);
            if width >= 2 {
                bytes.push(b1);
            }
            if width >= 4 {
                bytes.push(b2);
                bytes.push(b3);
            }
            if width == 8 {
                bytes.push(b4);
                bytes.push(b5);
                bytes.push(b6);
                bytes.push(b7);
            }
        },
        ByteOrder::Big => {
            if width == 8 {
                bytes.push(b7);
                bytes.push(b6);
                bytes.push(b5);
                bytes.push(b4);
            }
            if width >= 4 {
                bytes.push(b3);
                bytes.push(b2);
            }
            if width >= 2 {
                bytes.push(b1);
            }
            bytes.push(b0);
        },
    }
    bytes
}

} // verus!

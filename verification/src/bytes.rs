//! Primitive word readers: 16-, 32- and 64-bit integers assembled from
//! individual bytes in either byte order.

use vstd::prelude::*;

verus! {

/// The 16-bit word held by the two bytes at `i`, little- or big-endian.
pub open spec fn word16(s: Seq<u8>, i: int, le: bool) -> u16 {
    if le {
        (s[i] + s[i + 1] * 0x100) as u16
    } else {
        (s[i + 1] + s[i] * 0x100) as u16
    }
}

/// The 32-bit word held by the four bytes at `i`, little- or big-endian.
pub open spec fn word32(s: Seq<u8>, i: int, le: bool) -> u32 {
    if le {
        (s[i] + s[i + 1] * 0x100 + s[i + 2] * 0x1_0000 + s[i + 3] * 0x100_0000) as u32
    } else {
        (s[i + 3] + s[i + 2] * 0x100 + s[i + 1] * 0x1_0000 + s[i] * 0x100_0000) as u32
    }
}

/// The 64-bit word held by the eight bytes at `i`, little- or big-endian.
pub open spec fn word64(s: Seq<u8>, i: int, le: bool) -> u64 {
    if le {
        (word32(s, i, true) + word32(s, i + 4, true) * 0x1_0000_0000) as u64
    } else {
        (word32(s, i + 4, false) + word32(s, i, false) * 0x1_0000_0000) as u64
    }
}

/// Reads the 16-bit word at `pos`.
pub fn read_u16(data: &[u8], pos: usize, le: bool) -> (r: u16)
    requires
        pos + 2 <= data@.len(),
    ensures
        r == word16(data@, pos as int, le),
{
    let b0 = data[pos] as u16;
    let b1 = data[pos + 1] as u16;
    if le {
        b0 + b1 * 0x100
    } else {
        b1 + b0 * 0x100
    }
}

/// Reads the 32-bit word at `pos`.
pub fn read_u32(data: &[u8], pos: usize, le: bool) -> (r: u32)
    requires
        pos + 4 <= data@.len(),
    ensures
        r == word32(data@, pos as int, le),
{
    let b0 = data[pos] as u32;
    let b1 = data[pos + 1] as u32;
    let b2 = data[pos + 2] as u32;
    let b3 = data[pos + 3] as u32;
    if le {
        b0 + b1 * 0x100 + b2 * 0x1_0000 + b3 * 0x100_0000
    } else {
        b3 + b2 * 0x100 + b1 * 0x1_0000 + b0 * 0x100_0000
    }
}

/// Reads the 64-bit word at `pos`.
pub fn read_u64(data: &[u8], pos: usize, le: bool) -> (r: u64)
    requires
        pos + 8 <= data@.len(),
    ensures
        r == word64(data@, pos as int, le),
{
    let dlen = data.len();
    proof {
        assert(pos + 8 <= dlen);
    }
    let lo: u64;
    let hi: u64;
    if le {
        lo = read_u32(data, pos, true) as u64;
        hi = read_u32(data, pos + 4, true) as u64;
    } else {
        hi = read_u32(data, pos, false) as u64;
        lo = read_u32(data, pos + 4, false) as u64;
    }
    lo + hi * 0x1_0000_0000
}

/// The signed reading of a 16-bit word.
pub open spec fn as_signed16(x: u16) -> i16 {
    if x >= 0x8000 {
        (x - 0x1_0000) as i16
    } else {
        x as i16
    }
}

/// The signed reading of a 32-bit word.
pub open spec fn as_signed32(x: u32) -> i32 {
    if x >= 0x8000_0000 {
        (x - 0x1_0000_0000) as i32
    } else {
        x as i32
    }
}

/// The signed reading of a 64-bit word.
pub open spec fn as_signed64(x: u64) -> i64 {
    if x >= 0x8000_0000_0000_0000 {
        (x - 0x1_0000_0000_0000_0000) as i64
    } else {
        x as i64
    }
}

/// The signed reading of a byte.
pub open spec fn as_signed8(x: u8) -> i8 {
    if x >= 0x80 {
        (x - 0x100) as i8
    } else {
        x as i8
    }
}

/// Reinterprets a byte as signed.
pub fn to_i8(x: u8) -> (r: i8)
    ensures
        r == as_signed8(x),
{
    if x >= 0x80 {
        -((0xffu8 - x) as i8) - 1
    } else {
        x as i8
    }
}

/// Reinterprets a 16-bit word as signed.
pub fn to_i16(x: u16) -> (r: i16)
    ensures
        r == as_signed16(x),
{
    if x >= 0x8000 {
        -((0xffffu16 - x) as i16) - 1
    } else {
        x as i16
    }
}

/// Reinterprets a 32-bit word as signed.
pub fn to_i32(x: u32) -> (r: i32)
    ensures
        r == as_signed32(x),
{
    if x >= 0x8000_0000 {
        -((0xffff_ffffu32 - x) as i32) - 1
    } else {
        x as i32
    }
}

/// Reinterprets a 64-bit word as signed.
pub fn to_i64(x: u64) -> (r: i64)
    ensures
        r == as_signed64(x),
{
    if x >= 0x8000_0000_0000_0000 {
        -((0xffff_ffff_ffff_ffffu64 - x) as i64) - 1
    } else {
        x as i64
    }
}

/// The unsigned machine-word reading of a signed 32-bit value: non-negative
/// values carry over, negative ones are sign-extended.
pub open spec fn i32_as_usize(x: i32) -> int {
    if x >= 0 {
        x as int
    } else {
        x + usize::MAX + 1
    }
}

/// Sign-extends a signed 32-bit value into a machine word.
pub fn i32_to_usize(x: i32) -> (r: usize)
    ensures
        r == i32_as_usize(x),
{
    if x >= 0 {
        x as usize
    } else {
        usize::MAX - ((-(x + 1)) as usize)
    }
}

} // verus!

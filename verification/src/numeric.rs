//! The numeric primitive reader: given a tag carrying one of the ten numeric
//! type codes, reads a homogeneous run of primitives of the matching width,
//! honoring byte order per element, and consumes the trailing padding.

use vstd::prelude::*;
use crate::bytes::{as_signed16, as_signed32, as_signed64, as_signed8, word16, word32, word64};
use crate::tag::spec_parse_tag;
use crate::types::{DataType, ErrorKind, NumericData, NumericDataV, ParseError};

verus! {

/// The width in bytes of one stored primitive, for the ten numeric codes.
pub open spec fn numeric_width(t: DataType) -> Option<int> {
    match t {
        DataType::Int8 => Some(1),
        DataType::UInt8 => Some(1),
        DataType::Int16 => Some(2),
        DataType::UInt16 => Some(2),
        DataType::Int32 => Some(4),
        DataType::UInt32 => Some(4),
        DataType::Single => Some(4),
        DataType::Int64 => Some(8),
        DataType::UInt64 => Some(8),
        DataType::Double => Some(8),
        _ => None,
    }
}

/// The `n` primitives of kind `t` held at `p`, one per `numeric_width(t)`
/// bytes, in the given byte order. `Single` and `Double` values are the raw
/// bit patterns of their words.
pub open spec fn spec_numeric_values(s: Seq<u8>, p: int, n: int, t: DataType, le: bool) -> NumericDataV {
    match t {
        DataType::Int8 => NumericDataV::Int8(Seq::new(n as nat, |k: int| as_signed8(s[p + k]))),
        DataType::UInt8 => NumericDataV::UInt8(Seq::new(n as nat, |k: int| s[p + k])),
        DataType::Int16 => NumericDataV::Int16(
            Seq::new(n as nat, |k: int| as_signed16(word16(s, p + 2 * k, le))),
        ),
        DataType::UInt16 => NumericDataV::UInt16(
            Seq::new(n as nat, |k: int| word16(s, p + 2 * k, le)),
        ),
        DataType::Int32 => NumericDataV::Int32(
            Seq::new(n as nat, |k: int| as_signed32(word32(s, p + 4 * k, le))),
        ),
        DataType::UInt32 => NumericDataV::UInt32(
            Seq::new(n as nat, |k: int| word32(s, p + 4 * k, le)),
        ),
        DataType::Single => NumericDataV::Single(
            Seq::new(n as nat, |k: int| word32(s, p + 4 * k, le)),
        ),
        DataType::Int64 => NumericDataV::Int64(
            Seq::new(n as nat, |k: int| as_signed64(word64(s, p + 8 * k, le))),
        ),
        DataType::UInt64 => NumericDataV::UInt64(
            Seq::new(n as nat, |k: int| word64(s, p + 8 * k, le)),
        ),
        DataType::Double => NumericDataV::Double(
            Seq::new(n as nat, |k: int| word64(s, p + 8 * k, le)),
        ),
        _ => NumericDataV::UInt8(Seq::empty()),
    }
}

/// What parsing a numeric subelement at `pos` yields: a tag with one of the
/// ten numeric codes whose declared length is a whole multiple of the
/// element width, the primitives, then padding.
#[verifier::opaque]
pub open spec fn spec_parse_numeric(s: Seq<u8>, pos: int, end: int, le: bool) -> Result<
    (NumericDataV, int),
    ParseError,
> {
    match spec_parse_tag(s, pos, end, le) {
        Err(e) => Err(e),
        Ok((tag, p)) => {
            let size = tag.data_byte_size as int;
            let pad = tag.padding_byte_size as int;
            match numeric_width(tag.data_type) {
                None => Err(ParseError { kind: ErrorKind::SanityCheckFailed, pos: pos as usize }),
                Some(w) => if size % w != 0 {
                    Err(ParseError { kind: ErrorKind::SanityCheckFailed, pos: pos as usize })
                } else if p + size + pad > end {
                    Err(ParseError { kind: ErrorKind::Incomplete, pos: pos as usize })
                } else {
                    Ok((spec_numeric_values(s, p, size / w, tag.data_type, le), p + size + pad))
                },
            }
        },
    }
}

/// Whether an executable numeric-parse outcome is the one the specification
/// names.
pub open spec fn num_result_matches(
    r: Result<(NumericData, usize), ParseError>,
    g: Result<(NumericDataV, int), ParseError>,
) -> bool {
    match (r, g) {
        (Ok((v, p)), Ok((gv, gp))) => v@ == gv && p as int == gp,
        (Err(e), Err(f)) => e == f,
        _ => false,
    }
}

fn read_vec_i8(data: &[u8], p: usize, n: usize, le: bool) -> (r: Vec<i8>)
    requires
        p + n <= data@.len(),
    ensures
        r@ == Seq::new(n as nat, |k: int| as_signed8(data@[p + k])),
{
    let dlen = data.len();
    let mut v: Vec<i8> = Vec::new();
    let mut j: usize = 0;
    while j < n
        invariant
            j <= n,
            p + n <= dlen,
            dlen == data@.len(),
            v@.len() == j,
            forall|k: int| 0 <= k < j ==> v@[k] == as_signed8(data@[p + k]),
        decreases n - j,
    {
        v.push(crate::bytes::to_i8(data[p + j]));
        j += 1;
    }
    proof {
        assert(v@ =~= Seq::new(n as nat, |k: int| as_signed8(data@[p + k])));
    }
    v
}

fn read_vec_u8(data: &[u8], p: usize, n: usize, le: bool) -> (r: Vec<u8>)
    requires
        p + n <= data@.len(),
    ensures
        r@ == Seq::new(n as nat, |k: int| data@[p + k]),
{
    let dlen = data.len();
    let mut v: Vec<u8> = Vec::new();
    let mut j: usize = 0;
    while j < n
        invariant
            j <= n,
            p + n <= dlen,
            dlen == data@.len(),
            v@.len() == j,
            forall|k: int| 0 <= k < j ==> v@[k] == data@[p + k],
        decreases n - j,
    {
        v.push(data[p + j]);
        j += 1;
    }
    proof {
        assert(v@ =~= Seq::new(n as nat, |k: int| data@[p + k]));
    }
    v
}

fn read_vec_i16(data: &[u8], p: usize, n: usize, le: bool) -> (r: Vec<i16>)
    requires
        p + 2 * n <= data@.len(),
    ensures
        r@ == Seq::new(n as nat, |k: int| as_signed16(word16(data@, p + 2 * k, le))),
{
    let dlen = data.len();
    let mut v: Vec<i16> = Vec::new();
    let mut j: usize = 0;
    while j < n
        invariant
            j <= n,
            p + 2 * n <= dlen,
            dlen == data@.len(),
            v@.len() == j,
            forall|k: int| 0 <= k < j ==> v@[k] == as_signed16(word16(data@, p + 2 * k, le)),
        decreases n - j,
    {
        v.push(crate::bytes::to_i16(crate::bytes::read_u16(data, p + 2 * j, le)));
        j += 1;
    }
    proof {
        assert(v@ =~= Seq::new(n as nat, |k: int| as_signed16(word16(data@, p + 2 * k, le))));
    }
    v
}

fn read_vec_u16(data: &[u8], p: usize, n: usize, le: bool) -> (r: Vec<u16>)
    requires
        p + 2 * n <= data@.len(),
    ensures
        r@ == Seq::new(n as nat, |k: int| word16(data@, p + 2 * k, le)),
{
    let dlen = data.len();
    let mut v: Vec<u16> = Vec::new();
    let mut j: usize = 0;
    while j < n
        invariant
            j <= n,
            p + 2 * n <= dlen,
            dlen == data@.len(),
            v@.len() == j,
            forall|k: int| 0 <= k < j ==> v@[k] == word16(data@, p + 2 * k, le),
        decreases n - j,
    {
        v.push(crate::bytes::read_u16(data, p + 2 * j, le));
        j += 1;
    }
    proof {
        assert(v@ =~= Seq::new(n as nat, |k: int| word16(data@, p + 2 * k, le)));
    }
    v
}

fn read_vec_i32(data: &[u8], p: usize, n: usize, le: bool) -> (r: Vec<i32>)
    requires
        p + 4 * n <= data@.len(),
    ensures
        r@ == Seq::new(n as nat, |k: int| as_signed32(word32(data@, p + 4 * k, le))),
{
    let dlen = data.len();
    let mut v: Vec<i32> = Vec::new();
    let mut j: usize = 0;
    while j < n
        invariant
            j <= n,
            p + 4 * n <= dlen,
            dlen == data@.len(),
            v@.len() == j,
            forall|k: int| 0 <= k < j ==> v@[k] == as_signed32(word32(data@, p + 4 * k, le)),
        decreases n - j,
    {
        v.push(crate::bytes::to_i32(crate::bytes::read_u32(data, p + 4 * j, le)));
        j += 1;
    }
    proof {
        assert(v@ =~= Seq::new(n as nat, |k: int| as_signed32(word32(data@, p + 4 * k, le))));
    }
    v
}

fn read_vec_u32(data: &[u8], p: usize, n: usize, le: bool) -> (r: Vec<u32>)
    requires
        p + 4 * n <= data@.len(),
    ensures
        r@ == Seq::new(n as nat, |k: int| word32(data@, p + 4 * k, le)),
{
    let dlen = data.len();
    let mut v: Vec<u32> = Vec::new();
    let mut j: usize = 0;
    while j < n
        invariant
            j <= n,
            p + 4 * n <= dlen,
            dlen == data@.len(),
            v@.len() == j,
            forall|k: int| 0 <= k < j ==> v@[k] == word32(data@, p + 4 * k, le),
        decreases n - j,
    {
        v.push(crate::bytes::read_u32(data, p + 4 * j, le));
        j += 1;
    }
    proof {
        assert(v@ =~= Seq::new(n as nat, |k: int| word32(data@, p + 4 * k, le)));
    }
    v
}

fn read_vec_i64(data: &[u8], p: usize, n: usize, le: bool) -> (r: Vec<i64>)
    requires
        p + 8 * n <= data@.len(),
    ensures
        r@ == Seq::new(n as nat, |k: int| as_signed64(word64(data@, p + 8 * k, le))),
{
    let dlen = data.len();
    let mut v: Vec<i64> = Vec::new();
    let mut j: usize = 0;
    while j < n
        invariant
            j <= n,
            p + 8 * n <= dlen,
            dlen == data@.len(),
            v@.len() == j,
            forall|k: int| 0 <= k < j ==> v@[k] == as_signed64(word64(data@, p + 8 * k, le)),
        decreases n - j,
    {
        v.push(crate::bytes::to_i64(crate::bytes::read_u64(data, p + 8 * j, le)));
        j += 1;
    }
    proof {
        assert(v@ =~= Seq::new(n as nat, |k: int| as_signed64(word64(data@, p + 8 * k, le))));
    }
    v
}

fn read_vec_u64(data: &[u8], p: usize, n: usize, le: bool) -> (r: Vec<u64>)
    requires
        p + 8 * n <= data@.len(),
    ensures
        r@ == Seq::new(n as nat, |k: int| word64(data@, p + 8 * k, le)),
{
    let dlen = data.len();
    let mut v: Vec<u64> = Vec::new();
    let mut j: usize = 0;
    while j < n
        invariant
            j <= n,
            p + 8 * n <= dlen,
            dlen == data@.len(),
            v@.len() == j,
            forall|k: int| 0 <= k < j ==> v@[k] == word64(data@, p + 8 * k, le),
        decreases n - j,
    {
        v.push(crate::bytes::read_u64(data, p + 8 * j, le));
        j += 1;
    }
    proof {
        assert(v@ =~= Seq::new(n as nat, |k: int| word64(data@, p + 8 * k, le)));
    }
    v
}

/// Parses a numeric subelement at `pos` within `[pos, end)`: exactly one of
/// the ten primitive kinds, selected by the tag's type code.
pub fn parse_numeric_subelement(data: &[u8], pos: usize, end: usize, le: bool) -> (r: Result<
    (NumericData, usize),
    ParseError,
>)
    requires
        pos <= end,
        end <= data@.len(),
    ensures
        num_result_matches(r, spec_parse_numeric(data@, pos as int, end as int, le)),
        r matches Ok(v) ==> pos < v.1 <= end,
{
    proof {
        reveal(spec_parse_numeric);
    }
    let (tag, p) = match crate::tag::parse_data_element_tag(data, pos, end, le) {
        Ok(v) => v,
        Err(e) => {
            return Err(e);
        },
    };
    let size = tag.data_byte_size;
    let pad = tag.padding_byte_size;
    let width: u32 = match tag.data_type {
        DataType::Int8 => 1,
        DataType::UInt8 => 1,
        DataType::Int16 => 2,
        DataType::UInt16 => 2,
        DataType::Int32 => 4,
        DataType::UInt32 => 4,
        DataType::Single => 4,
        DataType::Int64 => 8,
        DataType::UInt64 => 8,
        DataType::Double => 8,
        _ => {
            return Err(ParseError { kind: ErrorKind::SanityCheckFailed, pos });
        },
    };
    if size % width != 0 {
        return Err(ParseError { kind: ErrorKind::SanityCheckFailed, pos });
    }
    let rem = end - p;
    if rem < size as usize || rem - (size as usize) < (pad as usize) {
        return Err(ParseError { kind: ErrorKind::Incomplete, pos });
    }
    let n = (size / width) as usize;
    let values = match tag.data_type {
        DataType::Int8 => NumericData::Int8(read_vec_i8(data, p, n, le)),
        DataType::UInt8 => NumericData::UInt8(read_vec_u8(data, p, n, le)),
        DataType::Int16 => NumericData::Int16(read_vec_i16(data, p, n, le)),
        DataType::UInt16 => NumericData::UInt16(read_vec_u16(data, p, n, le)),
        DataType::Int32 => NumericData::Int32(read_vec_i32(data, p, n, le)),
        DataType::UInt32 => NumericData::UInt32(read_vec_u32(data, p, n, le)),
        DataType::Single => NumericData::Single(read_vec_u32(data, p, n, le)),
        DataType::Int64 => NumericData::Int64(read_vec_i64(data, p, n, le)),
        DataType::UInt64 => NumericData::UInt64(read_vec_u64(data, p, n, le)),
        DataType::Double => NumericData::Double(read_vec_u64(data, p, n, le)),
        _ => {
            return Err(ParseError { kind: ErrorKind::SanityCheckFailed, pos });
        },
    };
    Ok((values, p + size as usize + pad as usize))
}

} // verus!

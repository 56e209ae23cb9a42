//! Subelement readers: array flags, dimensions, array name, sparse index
//! arrays, field-name length and fixed-stride field names. Each validates its
//! own tag against a fixed expectation and consumes the trailing alignment
//! padding that brings its tag-plus-content run to an 8-byte boundary.
//!
//! Failed validations are positioned at the start of the offending
//! subelement.

use vstd::prelude::*;
use crate::bytes::{as_signed32, i32_as_usize, word32};
use crate::tag::spec_parse_tag;
use crate::text::utf8_of;
use crate::types::{ArrayFlags, DataType, ErrorKind, ParseError, spec_array_type_from};

verus! {

/// What parsing the array-flags subelement at `pos` yields: it must carry a
/// long-form `UInt32` tag of length 8; its first word holds the boolean flags
/// and the class code, its second `nzmax`.
#[verifier::opaque]
pub open spec fn spec_parse_array_flags(s: Seq<u8>, pos: int, end: int, le: bool) -> Result<
    (ArrayFlags, int),
    ParseError,
> {
    if pos + 16 > end {
        Err(ParseError { kind: ErrorKind::Incomplete, pos: pos as usize })
    } else {
        let t = word32(s, pos, le);
        let l = word32(s, pos + 4, le);
        if !(t == 6 && l == 8) {
            Err(ParseError { kind: ErrorKind::SanityCheckFailed, pos: pos as usize })
        } else {
            let w = word32(s, pos + 8, le);
            let nz = word32(s, pos + 12, le);
            match spec_array_type_from((w % 0x100) as u8) {
                None => Err(ParseError { kind: ErrorKind::UnknownTypeCode, pos: pos as usize }),
                Some(c) => Ok(
                    (
                        ArrayFlags {
                            complex: (w / 0x800) % 2 == 1,
                            global: (w / 0x400) % 2 == 1,
                            logical: (w / 0x200) % 2 == 1,
                            class: c,
                            nzmax: nz as usize,
                        },
                        pos + 16,
                    ),
                ),
            }
        }
    }
}

/// Whether an executable flags-parse outcome is the one the specification
/// names.
pub open spec fn flags_result_matches(
    r: Result<(ArrayFlags, usize), ParseError>,
    g: Result<(ArrayFlags, int), ParseError>,
) -> bool {
    match (r, g) {
        (Ok((f, p)), Ok((gf, gp))) => f == gf && p as int == gp,
        (Err(e), Err(f)) => e == f,
        _ => false,
    }
}

/// Parses the array-flags subelement at `pos` within `[pos, end)`.
pub fn parse_array_flags_subelement(data: &[u8], pos: usize, end: usize, le: bool) -> (r: Result<
    (ArrayFlags, usize),
    ParseError,
>)
    requires
        pos <= end,
        end <= data@.len(),
    ensures
        flags_result_matches(r, spec_parse_array_flags(data@, pos as int, end as int, le)),
        r matches Ok(v) ==> pos < v.1 <= end,
{
    proof {
        reveal(spec_parse_array_flags);
    }
    if end - pos < 16 {
        return Err(ParseError { kind: ErrorKind::Incomplete, pos });
    }
    let t = crate::bytes::read_u32(data, pos, le);
    let l = crate::bytes::read_u32(data, pos + 4, le);
    if !(t == 6 && l == 8) {
        return Err(ParseError { kind: ErrorKind::SanityCheckFailed, pos });
    }
    let w = crate::bytes::read_u32(data, pos + 8, le);
    let nz = crate::bytes::read_u32(data, pos + 12, le);
    match crate::types::ArrayType::from_u8((w % 0x100) as u8) {
        None => Err(ParseError { kind: ErrorKind::UnknownTypeCode, pos }),
        Some(c) => Ok(
            (
                ArrayFlags {
                    complex: (w / 0x800) % 2 == 1,
                    global: (w / 0x400) % 2 == 1,
                    logical: (w / 0x200) % 2 == 1,
                    class: c,
                    nzmax: nz as usize,
                },
                pos + 16,
            ),
        ),
    }
}

/// What parsing the dimensions subelement at `pos` yields: an `Int32` tag
/// whose length is at least 8 and a multiple of 4, then one signed extent per
/// 4-byte word, then padding.
#[verifier::opaque]
pub open spec fn spec_parse_dimensions(s: Seq<u8>, pos: int, end: int, le: bool) -> Result<
    (Seq<i32>, int),
    ParseError,
> {
    match spec_parse_tag(s, pos, end, le) {
        Err(e) => Err(e),
        Ok((tag, p)) => {
            let size = tag.data_byte_size as int;
            let pad = tag.padding_byte_size as int;
            if !(tag.data_type == DataType::Int32 && size >= 8 && size % 4 == 0) {
                Err(ParseError { kind: ErrorKind::SanityCheckFailed, pos: pos as usize })
            } else if p + size + pad > end {
                Err(ParseError { kind: ErrorKind::Incomplete, pos: pos as usize })
            } else {
                Ok(
                    (
                        Seq::new((size / 4) as nat, |k: int| as_signed32(word32(s, p + 4 * k, le))),
                        p + size + pad,
                    ),
                )
            }
        },
    }
}

/// Whether an executable dimensions-parse outcome is the one the
/// specification names.
pub open spec fn dims_result_matches(
    r: Result<(Vec<i32>, usize), ParseError>,
    g: Result<(Seq<i32>, int), ParseError>,
) -> bool {
    match (r, g) {
        (Ok((d, p)), Ok((gd, gp))) => d@ == gd && p as int == gp,
        (Err(e), Err(f)) => e == f,
        _ => false,
    }
}

/// Parses the dimensions subelement at `pos` within `[pos, end)`.
pub fn parse_dimensions_array_subelement(data: &[u8], pos: usize, end: usize, le: bool) -> (r:
    Result<(Vec<i32>, usize), ParseError>)
    requires
        pos <= end,
        end <= data@.len(),
    ensures
        dims_result_matches(r, spec_parse_dimensions(data@, pos as int, end as int, le)),
        r matches Ok(v) ==> pos < v.1 <= end,
{
    proof {
        reveal(spec_parse_dimensions);
    }
    let (tag, p) = match crate::tag::parse_data_element_tag(data, pos, end, le) {
        Ok(v) => v,
        Err(e) => {
            return Err(e);
        },
    };
    let size = tag.data_byte_size;
    let pad = tag.padding_byte_size;
    if !(matches!(tag.data_type, DataType::Int32) && size >= 8 && size % 4 == 0) {
        return Err(ParseError { kind: ErrorKind::SanityCheckFailed, pos });
    }
    let rem = end - p;
    if rem < size as usize || rem - (size as usize) < (pad as usize) {
        return Err(ParseError { kind: ErrorKind::Incomplete, pos });
    }
    let count = (size / 4) as usize;
    let mut dims: Vec<i32> = Vec::new();
    let mut j: usize = 0;
    while j < count
        invariant
            j <= count,
            count == tag.data_byte_size as int / 4,
            p + 4 * count <= end <= data@.len(),
            dims@.len() == j,
            forall|k: int|
                0 <= k < j ==> dims@[k] == as_signed32(word32(data@, p + 4 * k, le)),
        decreases count - j,
    {
        let w = crate::bytes::read_u32(data, p + 4 * j, le);
        dims.push(crate::bytes::to_i32(w));
        j += 1;
    }
    proof {
        assert(dims@ =~= Seq::new(
            (size as int / 4) as nat,
            |k: int| as_signed32(word32(data@, p + 4 * k, le)),
        ));
    }
    Ok((dims, p + size as usize + pad as usize))
}

/// What parsing the array-name subelement at `pos` yields: an `Int8` tag of
/// positive length, then that many bytes of UTF-8 text, then padding.
#[verifier::opaque]
pub open spec fn spec_parse_name(s: Seq<u8>, pos: int, end: int, le: bool) -> Result<
    (Seq<char>, int),
    ParseError,
> {
    match spec_parse_tag(s, pos, end, le) {
        Err(e) => Err(e),
        Ok((tag, p)) => {
            let size = tag.data_byte_size as int;
            let pad = tag.padding_byte_size as int;
            if !(tag.data_type == DataType::Int8 && size > 0) {
                Err(ParseError { kind: ErrorKind::SanityCheckFailed, pos: pos as usize })
            } else if p + size + pad > end {
                Err(ParseError { kind: ErrorKind::Incomplete, pos: pos as usize })
            } else {
                match utf8_of(s.subrange(p, p + size)) {
                    None => Err(ParseError { kind: ErrorKind::Utf8DecodeFailure, pos: pos as usize }),
                    Some(t) => Ok((t, p + size + pad)),
                }
            }
        },
    }
}

/// Whether an executable name-parse outcome is the one the specification
/// names.
pub open spec fn name_result_matches(
    r: Result<(String, usize), ParseError>,
    g: Result<(Seq<char>, int), ParseError>,
) -> bool {
    match (r, g) {
        (Ok((n, p)), Ok((gn, gp))) => n@ == gn && p as int == gp,
        (Err(e), Err(f)) => e == f,
        _ => false,
    }
}

/// Parses the array-name subelement at `pos` within `[pos, end)`.
pub fn parse_array_name_subelement(data: &[u8], pos: usize, end: usize, le: bool) -> (r: Result<
    (String, usize),
    ParseError,
>)
    requires
        pos <= end,
        end <= data@.len(),
    ensures
        name_result_matches(r, spec_parse_name(data@, pos as int, end as int, le)),
        r matches Ok(v) ==> pos < v.1 <= end,
{
    proof {
        reveal(spec_parse_name);
    }
    let (tag, p) = match crate::tag::parse_data_element_tag(data, pos, end, le) {
        Ok(v) => v,
        Err(e) => {
            return Err(e);
        },
    };
    let size = tag.data_byte_size;
    let pad = tag.padding_byte_size;
    if !(matches!(tag.data_type, DataType::Int8) && size > 0) {
        return Err(ParseError { kind: ErrorKind::SanityCheckFailed, pos });
    }
    let rem = end - p;
    if rem < size as usize || rem - (size as usize) < (pad as usize) {
        return Err(ParseError { kind: ErrorKind::Incomplete, pos });
    }
    match crate::text::utf8_to_string(data, p, p + size as usize) {
        None => Err(ParseError { kind: ErrorKind::Utf8DecodeFailure, pos }),
        Some(name) => Ok((name, p + size as usize + pad as usize)),
    }
}

/// What parsing a sparse index subelement at `pos` yields: an `Int32` tag of
/// positive length, then one index per whole 4-byte word, each sign-extended
/// into a machine word, then padding.
#[verifier::opaque]
pub open spec fn spec_parse_index_array(s: Seq<u8>, pos: int, end: int, le: bool) -> Result<
    (Seq<usize>, int),
    ParseError,
> {
    match spec_parse_tag(s, pos, end, le) {
        Err(e) => Err(e),
        Ok((tag, p)) => {
            let size = tag.data_byte_size as int;
            let pad = tag.padding_byte_size as int;
            let count = size / 4;
            if !(tag.data_type == DataType::Int32 && size > 0) {
                Err(ParseError { kind: ErrorKind::SanityCheckFailed, pos: pos as usize })
            } else if p + 4 * count + pad > end {
                Err(ParseError { kind: ErrorKind::Incomplete, pos: pos as usize })
            } else {
                Ok(
                    (
                        Seq::new(
                            count as nat,
                            |k: int| i32_as_usize(as_signed32(word32(s, p + 4 * k, le))) as usize,
                        ),
                        p + 4 * count + pad,
                    ),
                )
            }
        },
    }
}

/// Whether an executable index-parse outcome is the one the specification
/// names.
pub open spec fn idx_result_matches(
    r: Result<(Vec<usize>, usize), ParseError>,
    g: Result<(Seq<usize>, int), ParseError>,
) -> bool {
    match (r, g) {
        (Ok((v, p)), Ok((gv, gp))) => v@ == gv && p as int == gp,
        (Err(e), Err(f)) => e == f,
        _ => false,
    }
}

/// Parses a sparse index subelement at `pos` within `[pos, end)`: the shared
/// shape of the row-index and column-shift readers.
fn parse_index_array(data: &[u8], pos: usize, end: usize, le: bool) -> (r: Result<
    (Vec<usize>, usize),
    ParseError,
>)
    requires
        pos <= end,
        end <= data@.len(),
    ensures
        idx_result_matches(r, spec_parse_index_array(data@, pos as int, end as int, le)),
        r matches Ok(v) ==> pos < v.1 <= end,
{
    proof {
        reveal(spec_parse_index_array);
    }
    let (tag, p) = match crate::tag::parse_data_element_tag(data, pos, end, le) {
        Ok(v) => v,
        Err(e) => {
            return Err(e);
        },
    };
    let size = tag.data_byte_size;
    let pad = tag.padding_byte_size;
    if !(matches!(tag.data_type, DataType::Int32) && size > 0) {
        return Err(ParseError { kind: ErrorKind::SanityCheckFailed, pos });
    }
    let count = (size / 4) as usize;
    let c4 = count * 4;
    let rem = end - p;
    if rem < c4 || rem - c4 < (pad as usize) {
        return Err(ParseError { kind: ErrorKind::Incomplete, pos });
    }
    let mut v: Vec<usize> = Vec::new();
    let mut j: usize = 0;
    while j < count
        invariant
            j <= count,
            count == tag.data_byte_size as int / 4,
            p + 4 * count <= end <= data@.len(),
            v@.len() == j,
            forall|k: int|
                0 <= k < j ==> v@[k] == i32_as_usize(
                    as_signed32(word32(data@, p + 4 * k, le)),
                ) as usize,
        decreases count - j,
    {
        let w = crate::bytes::read_u32(data, p + 4 * j, le);
        v.push(crate::bytes::i32_to_usize(crate::bytes::to_i32(w)));
        j += 1;
    }
    proof {
        assert(v@ =~= Seq::new(
            (tag.data_byte_size as int / 4) as nat,
            |k: int| i32_as_usize(as_signed32(word32(data@, p + 4 * k, le))) as usize,
        ));
    }
    Ok((v, p + c4 + pad as usize))
}

/// Parses the CSC row-index subelement of a sparse matrix.
pub fn parse_row_index_array_subelement(data: &[u8], pos: usize, end: usize, le: bool) -> (r:
    Result<(Vec<usize>, usize), ParseError>)
    requires
        pos <= end,
        end <= data@.len(),
    ensures
        idx_result_matches(r, spec_parse_index_array(data@, pos as int, end as int, le)),
        r matches Ok(v) ==> pos < v.1 <= end,
{
    parse_index_array(data, pos, end, le)
}

/// Parses the CSC column-shift subelement of a sparse matrix.
pub fn parse_column_index_array_subelement(data: &[u8], pos: usize, end: usize, le: bool) -> (r:
    Result<(Vec<usize>, usize), ParseError>)
    requires
        pos <= end,
        end <= data@.len(),
    ensures
        idx_result_matches(r, spec_parse_index_array(data@, pos as int, end as int, le)),
        r matches Ok(v) ==> pos < v.1 <= end,
{
    parse_index_array(data, pos, end, le)
}

/// What parsing the field-name-length subelement at `pos` yields: a tag
/// followed by one plain signed 32-bit word, with no validation and no
/// padding consumption of its own.
#[verifier::opaque]
pub open spec fn spec_parse_field_name_length(s: Seq<u8>, pos: int, end: int, le: bool) -> Result<
    (i32, int),
    ParseError,
> {
    match spec_parse_tag(s, pos, end, le) {
        Err(e) => Err(e),
        Ok((tag, p)) => if p + 4 > end {
            Err(ParseError { kind: ErrorKind::Incomplete, pos: pos as usize })
        } else {
            Ok((as_signed32(word32(s, p, le)), p + 4))
        },
    }
}

/// Whether an executable field-name-length outcome is the one the
/// specification names.
pub open spec fn fnl_result_matches(
    r: Result<(i32, usize), ParseError>,
    g: Result<(i32, int), ParseError>,
) -> bool {
    match (r, g) {
        (Ok((v, p)), Ok((gv, gp))) => v == gv && p as int == gp,
        (Err(e), Err(f)) => e == f,
        _ => false,
    }
}

/// Parses the field-name-length subelement at `pos` within `[pos, end)`.
pub fn parse_field_name_length_subelement(data: &[u8], pos: usize, end: usize, le: bool) -> (r:
    Result<(i32, usize), ParseError>)
    requires
        pos <= end,
        end <= data@.len(),
    ensures
        fnl_result_matches(r, spec_parse_field_name_length(data@, pos as int, end as int, le)),
        r matches Ok(v) ==> pos < v.1 <= end,
{
    proof {
        reveal(spec_parse_field_name_length);
    }
    let (_tag, p) = match crate::tag::parse_data_element_tag(data, pos, end, le) {
        Ok(v) => v,
        Err(e) => {
            return Err(e);
        },
    };
    if end - p < 4 {
        return Err(ParseError { kind: ErrorKind::Incomplete, pos });
    }
    let w = crate::bytes::read_u32(data, p, le);
    Ok((crate::bytes::to_i32(w), p + 4))
}

/// The position of the first null byte in `[pos, end)` of `s`, or `end` when
/// there is none.
pub open spec fn first_zero(s: Seq<u8>, pos: int, end: int) -> int
    decreases end - pos,
{
    if pos >= end {
        end
    } else if s[pos] == 0 {
        pos
    } else {
        first_zero(s, pos + 1, end)
    }
}

/// Finds the first null byte in `[pos, end)`.
fn find_first_zero(data: &[u8], pos: usize, end: usize) -> (r: usize)
    requires
        pos <= end,
        end <= data@.len(),
    ensures
        r == first_zero(data@, pos as int, end as int),
        pos <= r <= end,
{
    let mut j: usize = pos;
    while j < end
        invariant
            pos <= j <= end <= data@.len(),
            first_zero(data@, pos as int, end as int) == first_zero(data@, j as int, end as int),
            forall|k: int| pos <= k < j ==> data@[k] != 0,
        decreases end - j,
    {
        if data[j] == 0 {
            return j;
        }
        j += 1;
    }
    end
}

/// What parsing one fixed-stride field name at `pos` yields: the text runs to
/// the first null byte, the remainder of the stride is discarded; a name
/// longer than its stride is rejected.
#[verifier::opaque]
pub open spec fn spec_parse_field_name(s: Seq<u8>, pos: int, end: int, stride: int) -> Result<
    (Seq<char>, int),
    ParseError,
> {
    let fz = first_zero(s, pos, end);
    if fz - pos > stride {
        Err(ParseError { kind: ErrorKind::SanityCheckFailed, pos: pos as usize })
    } else if pos + stride > end {
        Err(ParseError { kind: ErrorKind::Incomplete, pos: pos as usize })
    } else {
        match utf8_of(s.subrange(pos, fz)) {
            None => Err(ParseError { kind: ErrorKind::Utf8DecodeFailure, pos: pos as usize }),
            Some(t) => Ok((t, pos + stride)),
        }
    }
}

/// Parses one field name of `stride` bytes at `pos` within `[pos, end)`.
pub fn parse_field_name(data: &[u8], pos: usize, end: usize, stride: usize) -> (r: Result<
    (String, usize),
    ParseError,
>)
    requires
        pos <= end,
        end <= data@.len(),
    ensures
        name_result_matches(r, spec_parse_field_name(data@, pos as int, end as int, stride as int)),
        r matches Ok(v) ==> pos <= v.1 <= end,
{
    proof {
        reveal(spec_parse_field_name);
    }
    let fz = find_first_zero(data, pos, end);
    if fz - pos > stride {
        return Err(ParseError { kind: ErrorKind::SanityCheckFailed, pos });
    }
    if end - pos < stride {
        return Err(ParseError { kind: ErrorKind::Incomplete, pos });
    }
    match crate::text::utf8_to_string(data, pos, fz) {
        None => Err(ParseError { kind: ErrorKind::Utf8DecodeFailure, pos }),
        Some(name) => Ok((name, pos + stride)),
    }
}

} // verus!

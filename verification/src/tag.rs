//! The tag reader: every element and subelement is preceded by a type+length
//! tag in one of two encodings, told apart by the upper 16 bits of the first
//! 32-bit word — zero means the 8-byte long form, anything else the 4-byte
//! compact form, whose length then sits in those upper bits.

use vstd::prelude::*;
use crate::bytes::word32;
use crate::types::{DataElementTag, DataType, ErrorKind, ParseError, spec_data_type_from};

verus! {

/// Padding that brings a `size`-byte run, preceded by a long-form tag, to an
/// 8-byte boundary.
pub open spec fn pad_to_8(size: u32) -> u32 {
    (((8 - size % 8) % 8) as u32)
}

/// What parsing a tag at `pos` in the region `[pos, end)` of `s` yields:
/// the decoded tag and the position just past it, or the positioned error.
#[verifier::opaque]
pub open spec fn spec_parse_tag(s: Seq<u8>, pos: int, end: int, le: bool) -> Result<
    (DataElementTag, int),
    ParseError,
> {
    if pos + 4 > end {
        Err(ParseError { kind: ErrorKind::Incomplete, pos: pos as usize })
    } else {
        let w = word32(s, pos, le);
        if w / 0x1_0000 == 0 {
            if pos + 8 > end {
                Err(ParseError { kind: ErrorKind::Incomplete, pos: (pos + 4) as usize })
            } else {
                let size = word32(s, pos + 4, le);
                match spec_data_type_from(w) {
                    None => Err(ParseError { kind: ErrorKind::UnknownTypeCode, pos: pos as usize }),
                    Some(t) => Ok(
                        (
                            DataElementTag {
                                data_type: t,
                                data_byte_size: size,
                                padding_byte_size: pad_to_8(size),
                            },
                            pos + 8,
                        ),
                    ),
                }
            }
        } else {
            let code = w % 0x1_0000;
            let size = w / 0x1_0000;
            match spec_data_type_from(code) {
                None => Err(ParseError { kind: ErrorKind::UnknownTypeCode, pos: pos as usize }),
                Some(t) => if size > 4 {
                    Err(ParseError { kind: ErrorKind::SanityCheckFailed, pos: pos as usize })
                } else {
                    Ok(
                        (
                            DataElementTag {
                                data_type: t,
                                data_byte_size: size,
                                padding_byte_size: (4 - size) as u32,
                            },
                            pos + 4,
                        ),
                    )
                },
            }
        }
    }
}

/// Whether an executable tag-parse outcome is the one the specification names.
pub open spec fn tag_result_matches(
    r: Result<(DataElementTag, usize), ParseError>,
    g: Result<(DataElementTag, int), ParseError>,
) -> bool {
    match (r, g) {
        (Ok((t, p)), Ok((gt, gp))) => t == gt && p as int == gp,
        (Err(e), Err(f)) => e == f,
        _ => false,
    }
}

/// Decodes the tag at `pos` within the region `[pos, end)`.
///
/// The discriminating first word is only peeked: on any failure, including an
/// unknown type code, no position is advanced past the offending tag.
pub fn parse_data_element_tag(data: &[u8], pos: usize, end: usize, le: bool) -> (r: Result<
    (DataElementTag, usize),
    ParseError,
>)
    requires
        pos <= end,
        end <= data@.len(),
    ensures
        tag_result_matches(r, spec_parse_tag(data@, pos as int, end as int, le)),
        r matches Ok(v) ==> pos + 4 <= v.1 <= end,
{
    proof {
        reveal(spec_parse_tag);
    }
    if end - pos < 4 {
        return Err(ParseError { kind: ErrorKind::Incomplete, pos });
    }
    let w = crate::bytes::read_u32(data, pos, le);
    if w / 0x1_0000 == 0 {
        if end - pos < 8 {
            return Err(ParseError { kind: ErrorKind::Incomplete, pos: pos + 4 });
        }
        let size = crate::bytes::read_u32(data, pos + 4, le);
        match DataType::from_u32(w) {
            None => Err(ParseError { kind: ErrorKind::UnknownTypeCode, pos }),
            Some(t) => Ok(
                (
                    DataElementTag {
                        data_type: t,
                        data_byte_size: size,
                        padding_byte_size: (8 - size % 8) % 8,
                    },
                    pos + 8,
                ),
            ),
        }
    } else {
        let code = w % 0x1_0000;
        let size = w / 0x1_0000;
        match DataType::from_u32(code) {
            None => Err(ParseError { kind: ErrorKind::UnknownTypeCode, pos }),
            Some(t) => {
                if size > 4 {
                    Err(ParseError { kind: ErrorKind::SanityCheckFailed, pos })
                } else {
                    Ok(
                        (
                            DataElementTag {
                                data_type: t,
                                data_byte_size: size,
                                padding_byte_size: 4 - size,
                            },
                            pos + 4,
                        ),
                    )
                }
            },
        }
    }
}

/// Rounds `x` up to the next multiple of `multiple`; the padding after a
/// long-form tag's data run is what this adds to the declared length.
pub fn ceil_to_multiple(x: u32, multiple: u32) -> (r: u32)
    requires
        multiple > 0,
        x == 0 || ((x - 1) / (multiple as int) + 1) * multiple <= u32::MAX,
    ensures
        r % multiple == 0,
        x <= r < x + multiple,
{
    if x > 0 {
        let q = (x - 1) / multiple;
        proof {
            let xi = x as int;
            let mi = multiple as int;
            let qi = q as int;
            assert(qi == (xi - 1) / mi);
            assert(xi - 1 == qi * mi + ((xi - 1) % mi) && 0 <= (xi - 1) % mi < mi) by (
            nonlinear_arith)
                requires
                    mi > 0,
                    qi == (xi - 1) / mi,
                    xi >= 1,
            ;
            assert(((qi + 1) * mi) % mi == 0) by (nonlinear_arith)
                requires
                    mi > 0,
            ;
            assert((qi + 1) * mi == qi * mi + mi) by (nonlinear_arith);
        }
        (q + 1) * multiple
    } else {
        0
    }
}

/// The four bytes that hold `x` in the given byte order.
pub open spec fn u32_bytes(x: u32, le: bool) -> Seq<u8> {
    if le {
        seq![
            (x % 0x100) as u8,
            ((x / 0x100) % 0x100) as u8,
            ((x / 0x1_0000) % 0x100) as u8,
            (x / 0x100_0000) as u8,
        ]
    } else {
        seq![
            (x / 0x100_0000) as u8,
            ((x / 0x1_0000) % 0x100) as u8,
            ((x / 0x100) % 0x100) as u8,
            (x % 0x100) as u8,
        ]
    }
}

/// Reading back the four bytes that hold `x` yields `x`, in either byte order.
pub proof fn lemma_u32_bytes_round_trip(s: Seq<u8>, i: int, x: u32, le: bool)
    requires
        0 <= i,
        i + 4 <= s.len(),
        s.subrange(i, i + 4) == u32_bytes(x, le),
    ensures
        word32(s, i, le) == x,
{
    assert(s[i] == u32_bytes(x, le)[0]);
    assert(s[i + 1] == u32_bytes(x, le)[1]);
    assert(s[i + 2] == u32_bytes(x, le)[2]);
    assert(s[i + 3] == u32_bytes(x, le)[3]);
    assert(x == x % 0x100 + ((x / 0x100) % 0x100) * 0x100 + ((x / 0x1_0000) % 0x100) * 0x1_0000 + (
    x / 0x100_0000) * 0x100_0000) by {
        assert(x / 0x100 == (x / 0x100) % 0x100 + ((x / 0x1_0000) % 0x100) * 0x100 + (x
            / 0x100_0000) * 0x1_0000) by {
            assert(x / 0x1_0000 == (x / 0x1_0000) % 0x100 + (x / 0x100_0000) * 0x100);
        }
    }
}

/// The long-form encoding of a tag: a 4-byte type code, then a 4-byte length.
pub open spec fn long_tag_bytes(code: u32, size: u32, le: bool) -> Seq<u8> {
    u32_bytes(code, le) + u32_bytes(size, le)
}

/// The compact-form encoding of a tag: one word, type code in the low 16 bits
/// and length in the high 16 bits.
pub open spec fn compact_tag_bytes(code: u32, size: u32, le: bool) -> Seq<u8> {
    u32_bytes((code + size * 0x1_0000) as u32, le)
}

/// Every known type code is below `0x1_0000`, so a long-form first word is
/// always told apart from a compact one by its zero upper half.
pub proof fn lemma_known_codes_small(code: u32)
    requires
        spec_data_type_from(code) is Some,
    ensures
        code < 0x1_0000,
{
}

/// Tag round trip, long form: a byte run `{tag}{data}{padding}` built from a
/// known type code and any declared length parses back to exactly that type
/// and length, with the parse resuming at the data bytes and a padding length
/// in `[0, 7]`.
pub proof fn lemma_long_tag_round_trip(s: Seq<u8>, pos: int, end: int, code: u32, size: u32, le: bool)
    requires
        0 <= pos,
        pos + 8 <= end <= s.len(),
        s.subrange(pos, pos + 8) == long_tag_bytes(code, size, le),
        spec_data_type_from(code) is Some,
    ensures
        spec_parse_tag(s, pos, end, le) == Ok::<_, ParseError>(
            (
                DataElementTag {
                    data_type: spec_data_type_from(code).unwrap(),
                    data_byte_size: size,
                    padding_byte_size: pad_to_8(size),
                },
                pos + 8,
            ),
        ),
        0 <= pad_to_8(size) <= 7,
        (size + pad_to_8(size)) % 8 == 0,
{
    reveal(spec_parse_tag);
    lemma_known_codes_small(code);
    assert(s.subrange(pos, pos + 4) == u32_bytes(code, le)) by {
        assert(s.subrange(pos, pos + 4) =~= long_tag_bytes(code, size, le).subrange(0, 4));
        assert(long_tag_bytes(code, size, le).subrange(0, 4) =~= u32_bytes(code, le));
    }
    assert(s.subrange(pos + 4, pos + 8) == u32_bytes(size, le)) by {
        assert(s.subrange(pos + 4, pos + 8) =~= long_tag_bytes(code, size, le).subrange(4, 8));
        assert(long_tag_bytes(code, size, le).subrange(4, 8) =~= u32_bytes(size, le));
    }
    lemma_u32_bytes_round_trip(s, pos, code, le);
    lemma_u32_bytes_round_trip(s, pos + 4, size, le);
}

/// Tag round trip, compact form: a byte run built from a known type code and
/// a length in `[1, 4]` parses back to exactly that type and length, with the
/// parse resuming after the single tag word and a padding length in `[0, 3]`.
pub proof fn lemma_compact_tag_round_trip(s: Seq<u8>, pos: int, end: int, code: u32, size: u32, le: bool)
    requires
        0 <= pos,
        pos + 4 <= end <= s.len(),
        s.subrange(pos, pos + 4) == compact_tag_bytes(code, size, le),
        spec_data_type_from(code) is Some,
        1 <= size <= 4,
    ensures
        spec_parse_tag(s, pos, end, le) == Ok::<_, ParseError>(
            (
                DataElementTag {
                    data_type: spec_data_type_from(code).unwrap(),
                    data_byte_size: size,
                    padding_byte_size: (4 - size) as u32,
                },
                pos + 4,
            ),
        ),
        0 <= (4 - size) as u32 <= 3,
{
    reveal(spec_parse_tag);
    lemma_known_codes_small(code);
    let w = (code + size * 0x1_0000) as u32;
    lemma_u32_bytes_round_trip(s, pos, w, le);
    assert(w / 0x1_0000 == size);
    assert(w % 0x1_0000 == code);
}

/// Endianness symmetry at the tag level: the little-endian encoding of a long
/// tag parsed little-endian and the big-endian encoding parsed big-endian
/// yield the same tag.
pub proof fn lemma_long_tag_endianness_symmetry(
    a: Seq<u8>,
    b: Seq<u8>,
    pos_a: int,
    pos_b: int,
    code: u32,
    size: u32,
)
    requires
        0 <= pos_a,
        pos_a + 8 <= a.len(),
        a.subrange(pos_a, pos_a + 8) == long_tag_bytes(code, size, true),
        0 <= pos_b,
        pos_b + 8 <= b.len(),
        b.subrange(pos_b, pos_b + 8) == long_tag_bytes(code, size, false),
        spec_data_type_from(code) is Some,
    ensures
        spec_parse_tag(a, pos_a, a.len() as int, true)->Ok_0.0 == spec_parse_tag(
            b,
            pos_b,
            b.len() as int,
            false,
        )->Ok_0.0,
{
    lemma_long_tag_round_trip(a, pos_a, a.len() as int, code, size, true);
    lemma_long_tag_round_trip(b, pos_b, b.len() as int, code, size, false);
}

} // verus!

//! The top-level driver: after the 128-byte preamble, the file is a sequence
//! of elements, each a matrix, a compressed wrapper around one element, or an
//! unrecognized-but-skippable run. Uncompressed elements are padded to 8-byte
//! boundaries; compressed ones carry no padding.

use vstd::prelude::*;
use crate::header::{parse_header, spec_parse_header};
use crate::inflate::{inflate_zlib, inflated};
use crate::matrix::{
    elem_result_matches, elements_view, parse_matrix_data_element, spec_parse_matrix,
};
use crate::tag::spec_parse_tag;
use crate::types::{
    DataElement, DataType, ElementV, ErrorKind, ParseError, ParseResult, ParseResultV,
};

verus! {

/// The ceiling on nested parsing: structure fields and compressed wrappers
/// each descend one level. Corrupted or adversarial files claiming deeper
/// nesting are rejected rather than recursed into without bound.
pub const MAX_NESTING_DEPTH: u32 = 64;

/// Repositions an error at `new_pos`.
///
/// A failure inside a freshly decompressed buffer is positioned relative to
/// that transient buffer, which has no offset relationship to the original
/// compressed bytes; the driver repositions it at the compressed element it
/// came from.
pub fn replace_err_slice(err: ParseError, new_pos: usize) -> (r: ParseError)
    ensures
        r.kind == err.kind,
        r.pos == new_pos,
{
    ParseError { kind: err.kind, pos: new_pos }
}

/// What parsing one top-level element at `pos` yields: a tag, whose declared
/// length must fit in the region; a matrix body, an inflated-and-reparsed
/// compressed body, or an `Unsupported` placeholder for any other type code,
/// which still consumes the declared length. Padding after an uncompressed
/// element is consumed as far as the region reaches; a compressed element
/// carries none. A compressed run that does not inflate fails with
/// `DecompressionFailure` at the run's start; a failure inside a decompressed
/// buffer is repositioned there too.
pub open spec fn spec_parse_next_element(
    s: Seq<u8>,
    pos: int,
    end: int,
    le: bool,
    depth: nat,
) -> Result<(ElementV, int), ParseError>
    decreases depth, 4int, 0int,
{
    match spec_parse_tag(s, pos, end, le) {
        Err(e) => Err(e),
        Ok((tag, p)) => {
            let size = tag.data_byte_size as int;
            if p + size > end {
                Err(ParseError { kind: ErrorKind::Incomplete, pos: pos as usize })
            } else {
                let region_end = p + size;
                let inner: Result<ElementV, ParseError> = match tag.data_type {
                    DataType::Matrix => match spec_parse_matrix(s, p, region_end, le, depth) {
                        Err(e) => Err(e),
                        Ok((el, _)) => Ok(el),
                    },
                    DataType::Compressed => if depth == 0 {
                        Err(ParseError { kind: ErrorKind::SanityCheckFailed, pos: p as usize })
                    } else {
                        match inflated(s.subrange(p, region_end)) {
                            None => Err(
                                ParseError {
                                    kind: ErrorKind::DecompressionFailure,
                                    pos: p as usize,
                                },
                            ),
                            Some(buf) => match spec_parse_next_element(
                                buf,
                                0,
                                buf.len() as int,
                                le,
                                (depth - 1) as nat,
                            ) {
                                Err(e) => Err(ParseError { kind: e.kind, pos: p as usize }),
                                Ok((el, _)) => Ok(el),
                            },
                        }
                    },
                    _ => Ok(ElementV::Unsupported),
                };
                match inner {
                    Err(e) => Err(e),
                    Ok(el) => {
                        let pad: int = if tag.data_type == DataType::Compressed {
                            0
                        } else {
                            tag.padding_byte_size as int
                        };
                        let newpos: int = if region_end + pad <= end {
                            region_end + pad
                        } else {
                            end
                        };
                        Ok((el, newpos))
                    },
                }
            }
        },
    }
}

/// Reads one top-level element at `pos` within `[pos, end)`.
pub fn parse_next_data_element(data: &[u8], pos: usize, end: usize, le: bool, depth: u32) -> (r:
    Result<(DataElement, usize), ParseError>)
    requires
        pos <= end,
        end <= data@.len(),
    ensures
        elem_result_matches(
            r,
            spec_parse_next_element(data@, pos as int, end as int, le, depth as nat),
        ),
        r matches Ok(v) ==> pos < v.1 <= end,
    decreases depth, 4int,
{
    let (tag, p) = match crate::tag::parse_data_element_tag(data, pos, end, le) {
        Ok(v) => v,
        Err(e) => {
            return Err(e);
        },
    };
    let size = tag.data_byte_size as usize;
    if end - p < size {
        return Err(ParseError { kind: ErrorKind::Incomplete, pos });
    }
    let region_end = p + size;
    let inner: Result<DataElement, ParseError> = match tag.data_type {
        DataType::Matrix => match parse_matrix_data_element(data, p, region_end, le, depth) {
            Ok((el, _)) => Ok(el),
            Err(e) => Err(e),
        },
        DataType::Compressed => {
            if depth == 0 {
                Err(ParseError { kind: ErrorKind::SanityCheckFailed, pos: p })
            } else {
                match inflate_zlib(data, p, region_end) {
                    None => {
                        return Err(
                            ParseError { kind: ErrorKind::DecompressionFailure, pos: p },
                        );
                    },
                    Some(buf) => {
                        let blen = buf.len();
                        match parse_next_data_element(&buf, 0, blen, le, depth - 1) {
                            Ok((el, _)) => Ok(el),
                            Err(e) => Err(replace_err_slice(e, p)),
                        }
                    },
                }
            }
        },
        _ => Ok(DataElement::Unsupported),
    };
    match inner {
        Err(e) => Err(e),
        Ok(el) => {
            let pad: usize = if matches!(tag.data_type, DataType::Compressed) {
                0
            } else {
                tag.padding_byte_size as usize
            };
            let newpos: usize = if end - region_end >= pad {
                region_end + pad
            } else {
                end
            };
            Ok((el, newpos))
        },
    }
}

/// What parsing the element sequence from `pos` to the end of the region
/// yields: elements in file order until the input is exhausted, which is
/// never an error by itself.
#[verifier::opaque]
pub open spec fn spec_parse_elements(
    s: Seq<u8>,
    pos: int,
    end: int,
    le: bool,
    depth: nat,
) -> Result<(Seq<ElementV>, int), ParseError>
    decreases end - pos,
{
    if pos >= end {
        Ok((Seq::empty(), pos))
    } else {
        match spec_parse_next_element(s, pos, end, le, depth) {
            Err(e) => Err(e),
            Ok((el, p)) => if !(pos < p <= end) {
                Err(ParseError { kind: ErrorKind::SanityCheckFailed, pos: pos as usize })
            } else {
                match spec_parse_elements(s, p, end, le, depth) {
                    Err(e) => Err(e),
                    Ok((rest, q)) => Ok((seq![el] + rest, q)),
                }
            },
        }
    }
}

/// The invariant of the driver loop: parsing the remaining region from `cur`
/// and appending to the `prefix` already parsed agrees with `full`, the parse
/// of the whole region at once.
pub open spec fn elements_loop_inv(
    s: Seq<u8>,
    end: int,
    le: bool,
    depth: nat,
    prefix: Seq<ElementV>,
    cur: int,
    full: Result<(Seq<ElementV>, int), ParseError>,
) -> bool {
    match spec_parse_elements(s, cur, end, le, depth) {
        Ok((rest, q)) => full matches Ok(f) && f.0 == prefix + rest && f.1 == q,
        Err(e) => full == Err::<(Seq<ElementV>, int), ParseError>(e),
    }
}

proof fn lemma_elements_inv_init(s: Seq<u8>, end: int, le: bool, depth: nat, cur: int)
    ensures
        elements_loop_inv(
            s,
            end,
            le,
            depth,
            Seq::empty(),
            cur,
            spec_parse_elements(s, cur, end, le, depth),
        ),
{
    match spec_parse_elements(s, cur, end, le, depth) {
        Ok((rest, q)) => {
            assert(Seq::<ElementV>::empty() + rest =~= rest);
        },
        Err(_) => {},
    }
}

proof fn lemma_elements_inv_step(
    s: Seq<u8>,
    end: int,
    le: bool,
    depth: nat,
    prefix: Seq<ElementV>,
    one: ElementV,
    cur: int,
    c2: int,
    full: Result<(Seq<ElementV>, int), ParseError>,
)
    requires
        cur < end,
        spec_parse_next_element(s, cur, end, le, depth) == Ok::<(ElementV, int), ParseError>(
            (one, c2),
        ),
        cur < c2 <= end,
        elements_loop_inv(s, end, le, depth, prefix, cur, full),
    ensures
        elements_loop_inv(s, end, le, depth, prefix + seq![one], c2, full),
{
    reveal_with_fuel(spec_parse_elements, 2);
    match spec_parse_elements(s, c2, end, le, depth) {
        Ok((rest, q)) => {
            assert(prefix + (seq![one] + rest) =~= (prefix + seq![one]) + rest);
        },
        Err(_) => {},
    }
}

proof fn lemma_elements_inv_err(
    s: Seq<u8>,
    end: int,
    le: bool,
    depth: nat,
    prefix: Seq<ElementV>,
    cur: int,
    full: Result<(Seq<ElementV>, int), ParseError>,
    e: ParseError,
)
    requires
        cur < end,
        spec_parse_next_element(s, cur, end, le, depth) == Err::<(ElementV, int), ParseError>(e),
        elements_loop_inv(s, end, le, depth, prefix, cur, full),
    ensures
        full == Err::<(Seq<ElementV>, int), ParseError>(e),
{
    reveal_with_fuel(spec_parse_elements, 1);
}

proof fn lemma_elements_inv_done(
    s: Seq<u8>,
    end: int,
    le: bool,
    depth: nat,
    prefix: Seq<ElementV>,
    cur: int,
    full: Result<(Seq<ElementV>, int), ParseError>,
)
    requires
        cur >= end,
        elements_loop_inv(s, end, le, depth, prefix, cur, full),
    ensures
        full == Ok::<(Seq<ElementV>, int), ParseError>((prefix, cur)),
{
    reveal_with_fuel(spec_parse_elements, 1);
    assert(prefix + Seq::<ElementV>::empty() =~= prefix);
}

/// What parsing a whole buffer yields: the 128-byte preamble, then every
/// top-level element to the end of the input.
pub open spec fn spec_parse_all(s: Seq<u8>) -> Result<ParseResultV, ParseError> {
    match spec_parse_header(s) {
        Err(e) => Err(e),
        Ok((h, p)) => match spec_parse_elements(
            s,
            p,
            s.len() as int,
            h.is_little_endian,
            MAX_NESTING_DEPTH as nat,
        ) {
            Err(e) => Err(e),
            Ok((els, _)) => Ok(ParseResultV { header: h, data_elements: els }),
        },
    }
}

/// Whether an executable whole-file outcome is the one the specification
/// names.
pub open spec fn all_result_matches(
    r: Result<ParseResult, ParseError>,
    g: Result<ParseResultV, ParseError>,
) -> bool {
    match (r, g) {
        (Ok(pr), Ok(gr)) => pr@ == gr,
        (Err(e), Err(f)) => e == f,
        _ => false,
    }
}

/// Parses a complete in-memory MAT5 buffer: the header, then the ordered
/// top-level elements, with nothing left unread on success. A header whose
/// first four bytes are all null is rejected before any further byte is
/// looked at.
pub fn parse_all(data: &[u8]) -> (r: Result<ParseResult, ParseError>)
    ensures
        all_result_matches(r, spec_parse_all(data@)),
        (data@.len() >= 4 && data@[0] == 0 && data@[1] == 0 && data@[2] == 0 && data@[3] == 0)
            ==> r == Err::<ParseResult, ParseError>(
            ParseError { kind: ErrorKind::MalformedHeader, pos: 0 },
        ),
{
    let (header, start) = match parse_header(data) {
        Ok(v) => v,
        Err(e) => {
            return Err(e);
        },
    };
    let le = header.is_little_endian;
    let end = data.len();
    let ghost gfull = spec_parse_elements(
        data@,
        start as int,
        end as int,
        le,
        MAX_NESTING_DEPTH as nat,
    );
    let mut elems: Vec<DataElement> = Vec::new();
    let mut cur: usize = start;
    proof {
        lemma_elements_inv_init(data@, end as int, le, MAX_NESTING_DEPTH as nat, start as int);
        assert(elements_view(elems@) =~= Seq::<ElementV>::empty());
    }
    while cur < end
        invariant
            cur <= end,
            end == data@.len(),
            spec_parse_header(data@) == Ok::<(crate::types::HeaderV, int), ParseError>(
                (header@, start as int),
            ),
            le == header@.is_little_endian,
            start <= end,
            gfull == spec_parse_elements(
                data@,
                start as int,
                end as int,
                le,
                MAX_NESTING_DEPTH as nat,
            ),
            elements_loop_inv(
                data@,
                end as int,
                le,
                MAX_NESTING_DEPTH as nat,
                elements_view(elems@),
                cur as int,
                gfull,
            ),
        decreases end - cur,
    {
        let (el, c2) = match parse_next_data_element(data, cur, end, le, MAX_NESTING_DEPTH) {
            Ok(v) => v,
            Err(e) => {
                proof {
                    lemma_elements_inv_err(
                        data@,
                        end as int,
                        le,
                        MAX_NESTING_DEPTH as nat,
                        elements_view(elems@),
                        cur as int,
                        gfull,
                        e,
                    );
                }
                return Err(e);
            },
        };
        proof {
            lemma_elements_inv_step(
                data@,
                end as int,
                le,
                MAX_NESTING_DEPTH as nat,
                elements_view(elems@),
                el@,
                cur as int,
                c2 as int,
                gfull,
            );
            assert(elements_view(elems@.push(el)) =~= elements_view(elems@) + seq![el@]);
        }
        elems.push(el);
        cur = c2;
    }
    proof {
        lemma_elements_inv_done(
            data@,
            end as int,
            le,
            MAX_NESTING_DEPTH as nat,
            elements_view(elems@),
            cur as int,
            gfull,
        );
    }
    let result = ParseResult { header, data_elements: elems };
    proof {
        assert(result@.data_elements =~= elements_view(elems@));
    }
    Ok(result)
}

} // verus!

//! Laws of the decoder: cardinality guarantees of each successfully
//! assembled matrix kind, and the decompression boundary.

use vstd::prelude::*;
use crate::inflate::inflated;
use crate::matrix::{
    spec_parse_field_names, spec_parse_fields, spec_parse_numeric_matrix, spec_parse_sparse_matrix,
    spec_parse_structure_matrix,
};
use crate::parse::spec_parse_next_element;
use crate::bytes::{as_signed32, word32, word64};
use crate::product::seq_product;
use crate::tag::{long_tag_bytes, pad_to_8, spec_parse_tag, u32_bytes};
use crate::types::{ArrayFlags, DataType, ElementV, ErrorKind, NumericDataV, ParseError, spec_array_type_from, spec_numeric_data_type};

verus! {

/// The cardinality laws of one decoded element, holding recursively of every
/// nested structure field: a numeric matrix carries `product(dimensions)`
/// real values and an imaginary part of the same count exactly when its
/// complex flag is set; a sparse matrix carries `nzmax` values per part, with
/// an imaginary part exactly when its complex flag is set; a structure
/// carries `product(dimensions)` field names and as many field values.
pub open spec fn element_wf(e: ElementV) -> bool
    decreases e,
{
    match e {
        ElementV::NumericMatrix(f, d, nm, re, im) => re.len() as int == seq_product(d) && (im
            is Some <==> f.complex) && (im matches Some(i) ==> i.len() == re.len()),
        ElementV::SparseMatrix(f, d, nm, ri, cs, re, im) => re.len() == f.nzmax && (im is Some
            <==> f.complex) && (im matches Some(i) ==> i.len() == f.nzmax),
        ElementV::StructureMatrix(f, d, nm, fnl, names, fields) => names.len() == fields.len()
            && names.len() as int == seq_product(d) && (forall|i: int|
            0 <= i < fields.len() ==> element_wf(#[trigger] fields[i])),
        ElementV::Unsupported => true,
    }
}

/// Round-trip-independent validity: any successfully assembled numeric matrix
/// carries exactly `product(dimensions)` real values, and an imaginary part
/// exactly when the complex flag is set, with the same count.
pub proof fn lemma_numeric_matrix_valid(s: Seq<u8>, pos: int, end: int, le: bool, flags: ArrayFlags)
    requires
        spec_parse_numeric_matrix(s, pos, end, le, flags) matches Ok(v),
    ensures
        spec_parse_numeric_matrix(s, pos, end, le, flags) matches Ok(v) && (v.0 matches
            ElementV::NumericMatrix(f, d, nm, re, im) && f == flags && re.len() as int
            == seq_product(d) && (im is Some <==> flags.complex) && (im matches Some(i) ==> i.len()
            == re.len())),
{
}

/// Sparse cardinality: any successfully assembled sparse matrix carries
/// exactly `nzmax` real values, and an imaginary part exactly when the
/// complex flag is set, with the same count.
pub proof fn lemma_sparse_matrix_cardinality(
    s: Seq<u8>,
    pos: int,
    end: int,
    le: bool,
    flags: ArrayFlags,
)
    requires
        spec_parse_sparse_matrix(s, pos, end, le, flags) matches Ok(v),
    ensures
        spec_parse_sparse_matrix(s, pos, end, le, flags) matches Ok(v) && (v.0 matches
            ElementV::SparseMatrix(f, d, nm, ri, cs, re, im) && f == flags && re.len()
            == flags.nzmax && (im is Some <==> flags.complex) && (im matches Some(i) ==> i.len()
            == flags.nzmax)),
{
}

/// A successful field-name parse yields exactly the requested count.
proof fn lemma_field_names_count(s: Seq<u8>, pos: int, end: int, stride: int, n: nat)
    ensures
        spec_parse_field_names(s, pos, end, stride, n) matches Ok(v) ==> v.0.len() == n,
    decreases n,
{
    reveal_with_fuel(spec_parse_field_names, 2);
    if n > 0 {
        match crate::subelements::spec_parse_field_name(s, pos, end, stride) {
            Ok((nm, p)) => {
                lemma_field_names_count(s, p, end, stride, (n - 1) as nat);
            },
            Err(_) => {},
        }
    }
}

/// A successful field-value parse yields exactly the requested count.
proof fn lemma_fields_count(s: Seq<u8>, pos: int, end: int, le: bool, n: nat, depth: nat)
    ensures
        spec_parse_fields(s, pos, end, le, n, depth) matches Ok(v) ==> v.0.len() == n,
    decreases n,
{
    reveal_with_fuel(spec_parse_fields, 2);
    if n > 0 && depth > 0 {
        match crate::matrix::spec_parse_matrix(s, pos, end, le, (depth - 1) as nat) {
            Ok((el, p)) => {
                lemma_fields_count(s, p, end, le, (n - 1) as nat, depth);
            },
            Err(_) => {},
        }
    }
}

/// Structure cardinality: any successfully assembled structure matrix carries
/// exactly `product(dimensions)` field names and as many field values.
pub proof fn lemma_structure_matrix_cardinality(
    s: Seq<u8>,
    pos: int,
    end: int,
    le: bool,
    flags: ArrayFlags,
    depth: nat,
)
    requires
        spec_parse_structure_matrix(s, pos, end, le, flags, depth) matches Ok(v),
    ensures
        spec_parse_structure_matrix(s, pos, end, le, flags, depth) matches Ok(v) && (v.0 matches
            ElementV::StructureMatrix(f, d, nm, fnl, names, fields) && f == flags && names.len()
            == fields.len() && names.len() as int == seq_product(d)),
{
    reveal_with_fuel(spec_parse_field_names, 1);
    reveal_with_fuel(spec_parse_fields, 1);
    match crate::subelements::spec_parse_dimensions(s, pos, end, le) {
        Ok((d, p1)) => {
            match crate::subelements::spec_parse_name(s, p1, end, le) {
                Ok((nm, p2)) => {
                    match crate::subelements::spec_parse_field_name_length(s, p2, end, le) {
                        Ok((fnl, p3)) => {
                            let n = seq_product(d);
                            if 0 <= n <= usize::MAX {
                                lemma_field_names_count(
                                    s,
                                    p3,
                                    end,
                                    crate::bytes::i32_as_usize(fnl),
                                    n as nat,
                                );
                                match spec_parse_field_names(
                                    s,
                                    p3,
                                    end,
                                    crate::bytes::i32_as_usize(fnl),
                                    n as nat,
                                ) {
                                    Ok((names, p4)) => {
                                        lemma_fields_count(s, p4, end, le, n as nat, depth);
                                    },
                                    Err(_) => {},
                                }
                            }
                        },
                        Err(_) => {},
                    }
                },
                Err(_) => {},
            }
        },
        Err(_) => {},
    }
}

/// Every field value of a successful field-value parse satisfies the
/// cardinality laws, recursively.
proof fn lemma_fields_wf(s: Seq<u8>, pos: int, end: int, le: bool, n: nat, depth: nat)
    ensures
        spec_parse_fields(s, pos, end, le, n, depth) matches Ok(v) ==> forall|i: int|
            0 <= i < v.0.len() ==> element_wf(#[trigger] v.0[i]),
    decreases depth, 1int, n,
{
    reveal_with_fuel(spec_parse_fields, 2);
    if n > 0 && depth > 0 {
        match crate::matrix::spec_parse_matrix(s, pos, end, le, (depth - 1) as nat) {
            Ok((el, p)) => {
                lemma_matrix_wf(s, pos, end, le, (depth - 1) as nat);
                lemma_fields_wf(s, p, end, le, (n - 1) as nat, depth);
                match spec_parse_fields(s, p, end, le, (n - 1) as nat, depth) {
                    Ok((rest, q)) => {
                        assert forall|i: int| 0 <= i < (seq![el] + rest).len() implies element_wf(
                            #[trigger] (seq![el] + rest)[i],
                        ) by {
                            if i > 0 {
                                assert((seq![el] + rest)[i] == rest[i - 1]);
                            }
                        }
                    },
                    Err(_) => {},
                }
            },
            Err(_) => {},
        }
    }
}

/// A successfully assembled structure matrix satisfies the cardinality laws,
/// recursively through its field values.
proof fn lemma_structure_wf(s: Seq<u8>, pos: int, end: int, le: bool, flags: ArrayFlags, depth: nat)
    ensures
        spec_parse_structure_matrix(s, pos, end, le, flags, depth) matches Ok(v) ==> element_wf(
            v.0,
        ),
    decreases depth, 2int, 0int,
{
    reveal_with_fuel(spec_parse_field_names, 1);
    reveal_with_fuel(spec_parse_fields, 1);
    match crate::subelements::spec_parse_dimensions(s, pos, end, le) {
        Ok((d, p1)) => match crate::subelements::spec_parse_name(s, p1, end, le) {
            Ok((nm, p2)) => match crate::subelements::spec_parse_field_name_length(s, p2, end, le) {
                Ok((fnl, p3)) => {
                    let n = seq_product(d);
                    if 0 <= n <= usize::MAX {
                        let stride = crate::bytes::i32_as_usize(fnl);
                        lemma_field_names_count(s, p3, end, stride, n as nat);
                        match spec_parse_field_names(s, p3, end, stride, n as nat) {
                            Ok((names, p4)) => {
                                lemma_fields_count(s, p4, end, le, n as nat, depth);
                                lemma_fields_wf(s, p4, end, le, n as nat, depth);
                            },
                            Err(_) => {},
                        }
                    }
                },
                Err(_) => {},
            },
            Err(_) => {},
        },
        Err(_) => {},
    }
}

/// A successfully dispatched matrix element satisfies the cardinality laws,
/// recursively through any nested structure fields.
pub proof fn lemma_matrix_wf(s: Seq<u8>, pos: int, end: int, le: bool, depth: nat)
    ensures
        crate::matrix::spec_parse_matrix(s, pos, end, le, depth) matches Ok(v) ==> element_wf(v.0),
    decreases depth, 3int, 0int,
{
    match crate::subelements::spec_parse_array_flags(s, pos, end, le) {
        Ok((flags, p)) => {
            match flags.class {
                crate::types::ArrayType::Cell => {},
                crate::types::ArrayType::Object => {},
                crate::types::ArrayType::Char => {},
                crate::types::ArrayType::Struct => {
                    lemma_structure_wf(s, p, end, le, flags, depth);
                },
                crate::types::ArrayType::Sparse => {
                    match spec_parse_sparse_matrix(s, p, end, le, flags) {
                        Ok(_) => {
                            lemma_sparse_matrix_cardinality(s, p, end, le, flags);
                        },
                        Err(_) => {},
                    }
                },
                _ => {
                    match spec_parse_numeric_matrix(s, p, end, le, flags) {
                        Ok(_) => {
                            lemma_numeric_matrix_valid(s, p, end, le, flags);
                        },
                        Err(_) => {},
                    }
                },
            }
        },
        Err(_) => {},
    }
}

/// A successfully parsed top-level element satisfies the cardinality laws,
/// through compressed wrappers too.
pub proof fn lemma_next_element_wf(s: Seq<u8>, pos: int, end: int, le: bool, depth: nat)
    ensures
        spec_parse_next_element(s, pos, end, le, depth) matches Ok(v) ==> element_wf(v.0),
    decreases depth, 4int, 0int,
{
    match spec_parse_tag(s, pos, end, le) {
        Ok((tag, p)) => {
            let size = tag.data_byte_size as int;
            if p + size <= end {
                match tag.data_type {
                    DataType::Matrix => {
                        lemma_matrix_wf(s, p, p + size, le, depth);
                    },
                    DataType::Compressed => {
                        if depth > 0 {
                            match inflated(s.subrange(p, p + size)) {
                                Some(buf) => {
                                    lemma_next_element_wf(
                                        buf,
                                        0,
                                        buf.len() as int,
                                        le,
                                        (depth - 1) as nat,
                                    );
                                },
                                None => {},
                            }
                        }
                    },
                    _ => {},
                }
            }
        },
        Err(_) => {},
    }
}

/// Every element of a successful element-sequence parse satisfies the
/// cardinality laws.
proof fn lemma_elements_wf(s: Seq<u8>, pos: int, end: int, le: bool, depth: nat)
    ensures
        crate::parse::spec_parse_elements(s, pos, end, le, depth) matches Ok(v) ==> forall|i: int|
            0 <= i < v.0.len() ==> element_wf(#[trigger] v.0[i]),
    decreases end - pos,
{
    reveal_with_fuel(crate::parse::spec_parse_elements, 2);
    if pos < end {
        match spec_parse_next_element(s, pos, end, le, depth) {
            Ok((el, p)) => {
                if pos < p <= end {
                    lemma_next_element_wf(s, pos, end, le, depth);
                    lemma_elements_wf(s, p, end, le, depth);
                    match crate::parse::spec_parse_elements(s, p, end, le, depth) {
                        Ok((rest, q)) => {
                            assert forall|i: int|
                                0 <= i < (seq![el] + rest).len() implies element_wf(
                                #[trigger] (seq![el] + rest)[i],
                            ) by {
                                if i > 0 {
                                    assert((seq![el] + rest)[i] == rest[i - 1]);
                                }
                            }
                        },
                        Err(_) => {},
                    }
                }
            },
            Err(_) => {},
        }
    }
}

/// The laws of a whole decode: every element of a successfully parsed buffer,
/// nested structure fields included, satisfies the cardinality laws.
pub proof fn lemma_parse_all_wf(s: Seq<u8>)
    ensures
        crate::parse::spec_parse_all(s) matches Ok(r) ==> forall|i: int|
            0 <= i < r.data_elements.len() ==> element_wf(#[trigger] r.data_elements[i]),
{
    match crate::header::spec_parse_header(s) {
        Ok((h, p)) => {
            lemma_elements_wf(
                s,
                p,
                s.len() as int,
                h.is_little_endian,
                crate::parse::MAX_NESTING_DEPTH as nat,
            );
        },
        Err(_) => {},
    }
}

/// Idempotent decompression boundary: a compressed element whose byte run
/// inflates to the buffer `u` decodes to exactly the element that parsing `u`
/// directly as an uncompressed region yields, and fails with the same kind of
/// error whenever that parse fails.
pub proof fn lemma_compressed_boundary(
    s: Seq<u8>,
    pos: int,
    end: int,
    le: bool,
    depth: nat,
    u: Seq<u8>,
)
    requires
        depth > 0,
        spec_parse_tag(s, pos, end, le) matches Ok(tp) && (tp.0.data_type == DataType::Compressed
            && tp.1 + tp.0.data_byte_size <= end && inflated(
            s.subrange(tp.1, tp.1 + tp.0.data_byte_size),
        ) == Some(u)),
    ensures
        match (
            spec_parse_next_element(s, pos, end, le, depth),
            spec_parse_next_element(u, 0, u.len() as int, le, (depth - 1) as nat),
        ) {
            (Ok(v), Ok(w)) => v.0 == w.0,
            (Err(e), Err(f)) => e.kind == f.kind,
            _ => false,
        },
{
}

/// The eight bytes that hold `x` in the given byte order.
pub open spec fn u64_bytes(x: u64, le: bool) -> Seq<u8> {
    if le {
        u32_bytes((x % 0x1_0000_0000) as u32, true) + u32_bytes((x / 0x1_0000_0000) as u32, true)
    } else {
        u32_bytes((x / 0x1_0000_0000) as u32, false) + u32_bytes((x % 0x1_0000_0000) as u32, false)
    }
}

/// Reading back the eight bytes that hold `x` yields `x`, in either byte
/// order.
pub proof fn lemma_u64_bytes_round_trip(s: Seq<u8>, i: int, x: u64, le: bool)
    requires
        0 <= i,
        i + 8 <= s.len(),
        s.subrange(i, i + 8) == u64_bytes(x, le),
    ensures
        word64(s, i, le) == x,
{
    let lo = (x % 0x1_0000_0000) as u32;
    let hi = (x / 0x1_0000_0000) as u32;
    if le {
        assert(s.subrange(i, i + 4) == u32_bytes(lo, true)) by {
            assert(s.subrange(i, i + 4) =~= u64_bytes(x, true).subrange(0, 4));
            assert(u64_bytes(x, true).subrange(0, 4) =~= u32_bytes(lo, true));
        }
        assert(s.subrange(i + 4, i + 8) == u32_bytes(hi, true)) by {
            assert(s.subrange(i + 4, i + 8) =~= u64_bytes(x, true).subrange(4, 8));
            assert(u64_bytes(x, true).subrange(4, 8) =~= u32_bytes(hi, true));
        }
        crate::tag::lemma_u32_bytes_round_trip(s, i, lo, true);
        crate::tag::lemma_u32_bytes_round_trip(s, i + 4, hi, true);
    } else {
        assert(s.subrange(i, i + 4) == u32_bytes(hi, false)) by {
            assert(s.subrange(i, i + 4) =~= u64_bytes(x, false).subrange(0, 4));
            assert(u64_bytes(x, false).subrange(0, 4) =~= u32_bytes(hi, false));
        }
        assert(s.subrange(i + 4, i + 8) == u32_bytes(lo, false)) by {
            assert(s.subrange(i + 4, i + 8) =~= u64_bytes(x, false).subrange(4, 8));
            assert(u64_bytes(x, false).subrange(4, 8) =~= u32_bytes(lo, false));
        }
        crate::tag::lemma_u32_bytes_round_trip(s, i, hi, false);
        crate::tag::lemma_u32_bytes_round_trip(s, i + 4, lo, false);
    }
}

/// The byte run holding a sequence of 32-bit words in the given byte order.
pub open spec fn words32_bytes(v: Seq<u32>, le: bool) -> Seq<u8>
    decreases v.len(),
{
    if v.len() == 0 {
        Seq::empty()
    } else {
        u32_bytes(v[0], le) + words32_bytes(v.drop_first(), le)
    }
}

proof fn lemma_words32_bytes_len(v: Seq<u32>, le: bool)
    ensures
        words32_bytes(v, le).len() == 4 * v.len() as int,
    decreases v.len(),
{
    if v.len() > 0 {
        lemma_words32_bytes_len(v.drop_first(), le);
    }
}

/// Reading back the byte run holding a word sequence yields each word.
proof fn lemma_words32_round_trip(s: Seq<u8>, p: int, v: Seq<u32>, le: bool)
    requires
        0 <= p,
        p + 4 * v.len() as int <= s.len(),
        s.subrange(p, p + 4 * v.len() as int) == words32_bytes(v, le),
    ensures
        forall|k: int| 0 <= k < v.len() ==> word32(s, p + 4 * k, le) == v[k],
    decreases v.len(),
{
    lemma_words32_bytes_len(v, le);
    if v.len() > 0 {
        lemma_words32_bytes_len(v.drop_first(), le);
        assert(s.subrange(p, p + 4) == u32_bytes(v[0], le)) by {
            assert(s.subrange(p, p + 4) =~= words32_bytes(v, le).subrange(0, 4));
            assert(words32_bytes(v, le).subrange(0, 4) =~= u32_bytes(v[0], le));
        }
        crate::tag::lemma_u32_bytes_round_trip(s, p, v[0], le);
        assert(s.subrange(p + 4, p + 4 * v.len() as int) == words32_bytes(v.drop_first(), le)) by {
            assert(s.subrange(p + 4, p + 4 * v.len() as int) =~= words32_bytes(v, le).subrange(
                4,
                4 * v.len() as int,
            ));
            assert(words32_bytes(v, le).subrange(4, 4 * v.len() as int) =~= words32_bytes(
                v.drop_first(),
                le,
            ));
        }
        lemma_words32_round_trip(s, p + 4, v.drop_first(), le);
        assert forall|k: int| 0 <= k < v.len() implies word32(s, p + 4 * k, le) == v[k] by {
            if k > 0 {
                assert(word32(s, p + 4 + 4 * (k - 1), le) == v.drop_first()[k - 1]);
                assert(p + 4 + 4 * (k - 1) == p + 4 * k);
            }
        }
    }
}

/// The byte run holding a sequence of 64-bit words in the given byte order.
pub open spec fn words64_bytes(v: Seq<u64>, le: bool) -> Seq<u8>
    decreases v.len(),
{
    if v.len() == 0 {
        Seq::empty()
    } else {
        u64_bytes(v[0], le) + words64_bytes(v.drop_first(), le)
    }
}

proof fn lemma_words64_bytes_len(v: Seq<u64>, le: bool)
    ensures
        words64_bytes(v, le).len() == 8 * v.len() as int,
    decreases v.len(),
{
    if v.len() > 0 {
        lemma_words64_bytes_len(v.drop_first(), le);
    }
}

/// Reading back the byte run holding a word sequence yields each word.
proof fn lemma_words64_round_trip(s: Seq<u8>, p: int, v: Seq<u64>, le: bool)
    requires
        0 <= p,
        p + 8 * v.len() as int <= s.len(),
        s.subrange(p, p + 8 * v.len() as int) == words64_bytes(v, le),
    ensures
        forall|k: int| 0 <= k < v.len() ==> word64(s, p + 8 * k, le) == v[k],
    decreases v.len(),
{
    lemma_words64_bytes_len(v, le);
    if v.len() > 0 {
        lemma_words64_bytes_len(v.drop_first(), le);
        assert(s.subrange(p, p + 8) == u64_bytes(v[0], le)) by {
            assert(s.subrange(p, p + 8) =~= words64_bytes(v, le).subrange(0, 8));
            assert(words64_bytes(v, le).subrange(0, 8) =~= u64_bytes(v[0], le));
        }
        lemma_u64_bytes_round_trip(s, p, v[0], le);
        assert(s.subrange(p + 8, p + 8 * v.len() as int) == words64_bytes(v.drop_first(), le)) by {
            assert(s.subrange(p + 8, p + 8 * v.len() as int) =~= words64_bytes(v, le).subrange(
                8,
                8 * v.len() as int,
            ));
            assert(words64_bytes(v, le).subrange(8, 8 * v.len() as int) =~= words64_bytes(
                v.drop_first(),
                le,
            ));
        }
        lemma_words64_round_trip(s, p + 8, v.drop_first(), le);
        assert forall|k: int| 0 <= k < v.len() implies word64(s, p + 8 * k, le) == v[k] by {
            if k > 0 {
                assert(word64(s, p + 8 + 8 * (k - 1), le) == v.drop_first()[k - 1]);
                assert(p + 8 + 8 * (k - 1) == p + 8 * k);
            }
        }
    }
}

/// A run of zero padding bytes.
pub open spec fn zero_bytes(n: int) -> Seq<u8> {
    Seq::new(n as nat, |i: int| 0u8)
}

/// The flags decoded from a flags word and an `nzmax` word.
pub open spec fn flags_of(w: u32, nz: u32) -> ArrayFlags {
    ArrayFlags {
        complex: (w / 0x800) % 2 == 1,
        global: (w / 0x400) % 2 == 1,
        logical: (w / 0x200) % 2 == 1,
        class: spec_array_type_from((w % 0x100) as u8).unwrap(),
        nzmax: nz as usize,
    }
}

/// The encoding of an array-flags subelement in the given byte order.
pub open spec fn flags_sub_bytes(w: u32, nz: u32, le: bool) -> Seq<u8> {
    u32_bytes(6, le) + u32_bytes(8, le) + u32_bytes(w, le) + u32_bytes(nz, le)
}

/// Parsing back an encoded flags subelement yields its flags, in either byte
/// order.
proof fn lemma_flags_sub_round_trip(s: Seq<u8>, pos: int, end: int, w: u32, nz: u32, le: bool)
    requires
        0 <= pos,
        pos + 16 <= end <= s.len(),
        s.subrange(pos, pos + 16) == flags_sub_bytes(w, nz, le),
        spec_array_type_from((w % 0x100) as u8) is Some,
    ensures
        crate::subelements::spec_parse_array_flags(s, pos, end, le) == Ok::<
            (ArrayFlags, int),
            ParseError,
        >((flags_of(w, nz), pos + 16)),
{
    reveal(crate::subelements::spec_parse_array_flags);
    let enc = flags_sub_bytes(w, nz, le);
    assert(s.subrange(pos, pos + 4) == u32_bytes(6, le)) by {
        assert(s.subrange(pos, pos + 4) =~= enc.subrange(0, 4));
        assert(enc.subrange(0, 4) =~= u32_bytes(6, le));
    }
    assert(s.subrange(pos + 4, pos + 8) == u32_bytes(8, le)) by {
        assert(s.subrange(pos + 4, pos + 8) =~= enc.subrange(4, 8));
        assert(enc.subrange(4, 8) =~= u32_bytes(8, le));
    }
    assert(s.subrange(pos + 8, pos + 12) == u32_bytes(w, le)) by {
        assert(s.subrange(pos + 8, pos + 12) =~= enc.subrange(8, 12));
        assert(enc.subrange(8, 12) =~= u32_bytes(w, le));
    }
    assert(s.subrange(pos + 12, pos + 16) == u32_bytes(nz, le)) by {
        assert(s.subrange(pos + 12, pos + 16) =~= enc.subrange(12, 16));
        assert(enc.subrange(12, 16) =~= u32_bytes(nz, le));
    }
    crate::tag::lemma_u32_bytes_round_trip(s, pos, 6, le);
    crate::tag::lemma_u32_bytes_round_trip(s, pos + 4, 8, le);
    crate::tag::lemma_u32_bytes_round_trip(s, pos + 8, w, le);
    crate::tag::lemma_u32_bytes_round_trip(s, pos + 12, nz, le);
}

/// The encoding of a dimensions subelement, one 32-bit word per extent,
/// padded to an 8-byte boundary.
pub open spec fn dims_sub_bytes(ws: Seq<u32>, le: bool) -> Seq<u8> {
    long_tag_bytes(5, (4 * ws.len()) as u32, le) + words32_bytes(ws, le) + zero_bytes(
        pad_to_8((4 * ws.len()) as u32) as int,
    )
}

/// Parsing back an encoded dimensions subelement yields its extents, in
/// either byte order.
proof fn lemma_dims_sub_round_trip(s: Seq<u8>, pos: int, end: int, ws: Seq<u32>, le: bool)
    requires
        0 <= pos,
        ws.len() >= 2,
        4 * ws.len() as int <= u32::MAX,
        pos + dims_sub_bytes(ws, le).len() <= end <= s.len(),
        s.subrange(pos, pos + dims_sub_bytes(ws, le).len() as int) == dims_sub_bytes(ws, le),
    ensures
        crate::subelements::spec_parse_dimensions(s, pos, end, le) == Ok::<
            (Seq<i32>, int),
            ParseError,
        >(
            (
                Seq::new(ws.len(), |k: int| as_signed32(ws[k])),
                pos + 8 + 4 * ws.len() + pad_to_8((4 * ws.len()) as u32),
            ),
        ),
{
    reveal(crate::subelements::spec_parse_dimensions);
    lemma_words32_bytes_len(ws, le);
    let n = ws.len() as int;
    let size: u32 = (4 * ws.len()) as u32;
    let pad = pad_to_8(size) as int;
    let enc = dims_sub_bytes(ws, le);
    assert(enc.len() == 8 + 4 * n + pad);
    assert(s.subrange(pos, pos + 8) == long_tag_bytes(5, size, le)) by {
        assert(s.subrange(pos, pos + 8) =~= enc.subrange(0, 8));
        assert(enc.subrange(0, 8) =~= long_tag_bytes(5, size, le));
    }
    crate::tag::lemma_long_tag_round_trip(s, pos, end, 5, size, le);
    assert(s.subrange(pos + 8, pos + 8 + 4 * n) == words32_bytes(ws, le)) by {
        assert(s.subrange(pos + 8, pos + 8 + 4 * n) =~= enc.subrange(8, 8 + 4 * n));
        assert(enc.subrange(8, 8 + 4 * n) =~= words32_bytes(ws, le));
    }
    lemma_words32_round_trip(s, pos + 8, ws, le);
    assert(size as int == 4 * n);
    assert(size % 4 == 0) by (nonlinear_arith)
        requires
            size as int == 4 * n,
    ;
    assert(Seq::new((size as int / 4) as nat, |k: int| as_signed32(word32(s, pos + 8 + 4 * k, le)))
        =~= Seq::new(ws.len(), |k: int| as_signed32(ws[k])));
}

/// The encoding of an array-name subelement from its raw text bytes, padded
/// to an 8-byte boundary.
pub open spec fn name_sub_bytes(nb: Seq<u8>, le: bool) -> Seq<u8> {
    long_tag_bytes(1, nb.len() as u32, le) + nb + zero_bytes(pad_to_8(nb.len() as u32) as int)
}

/// Parsing back an encoded name subelement decodes exactly its text bytes, in
/// either byte order.
proof fn lemma_name_sub_round_trip(s: Seq<u8>, pos: int, end: int, nb: Seq<u8>, le: bool)
    requires
        0 <= pos,
        1 <= nb.len() <= u32::MAX,
        pos + name_sub_bytes(nb, le).len() <= end <= s.len(),
        s.subrange(pos, pos + name_sub_bytes(nb, le).len() as int) == name_sub_bytes(nb, le),
    ensures
        crate::subelements::spec_parse_name(s, pos, end, le) == (match crate::text::utf8_of(nb) {
            None => Err::<(Seq<char>, int), ParseError>(
                ParseError { kind: ErrorKind::Utf8DecodeFailure, pos: pos as usize },
            ),
            Some(t) => Ok::<(Seq<char>, int), ParseError>(
                (t, pos + 8 + nb.len() + pad_to_8(nb.len() as u32)),
            ),
        }),
{
    reveal(crate::subelements::spec_parse_name);
    let l = nb.len() as int;
    let size: u32 = nb.len() as u32;
    let pad = pad_to_8(size) as int;
    let enc = name_sub_bytes(nb, le);
    assert(enc.len() == 8 + l + pad);
    assert(s.subrange(pos, pos + 8) == long_tag_bytes(1, size, le)) by {
        assert(s.subrange(pos, pos + 8) =~= enc.subrange(0, 8));
        assert(enc.subrange(0, 8) =~= long_tag_bytes(1, size, le));
    }
    crate::tag::lemma_long_tag_round_trip(s, pos, end, 1, size, le);
    assert(s.subrange(pos + 8, pos + 8 + l) == nb) by {
        assert(s.subrange(pos + 8, pos + 8 + l) =~= enc.subrange(8, 8 + l));
        assert(enc.subrange(8, 8 + l) =~= nb);
    }
}

/// The encoding of a double-precision numeric subelement, one 64-bit word per
/// value; its length is already a multiple of 8, so it carries no padding.
pub open spec fn f64_sub_bytes(vals: Seq<u64>, le: bool) -> Seq<u8> {
    long_tag_bytes(9, (8 * vals.len()) as u32, le) + words64_bytes(vals, le)
}

/// Parsing back an encoded double-precision subelement yields its word
/// values, in either byte order.
proof fn lemma_f64_sub_round_trip(s: Seq<u8>, pos: int, end: int, vals: Seq<u64>, le: bool)
    requires
        0 <= pos,
        8 * vals.len() as int <= u32::MAX,
        pos + 8 + 8 * vals.len() <= end <= s.len(),
        s.subrange(pos, pos + 8 + 8 * vals.len()) == f64_sub_bytes(vals, le),
    ensures
        crate::numeric::spec_parse_numeric(s, pos, end, le) == Ok::<
            (NumericDataV, int),
            ParseError,
        >((NumericDataV::Double(vals), pos + 8 + 8 * vals.len())),
{
    reveal(crate::numeric::spec_parse_numeric);
    lemma_words64_bytes_len(vals, le);
    let n = vals.len() as int;
    let size: u32 = (8 * vals.len()) as u32;
    let enc = f64_sub_bytes(vals, le);
    assert(enc.len() == 8 + 8 * n);
    assert(s.subrange(pos, pos + 8) == long_tag_bytes(9, size, le)) by {
        assert(s.subrange(pos, pos + 8) =~= enc.subrange(0, 8));
        assert(enc.subrange(0, 8) =~= long_tag_bytes(9, size, le));
    }
    crate::tag::lemma_long_tag_round_trip(s, pos, end, 9, size, le);
    assert(s.subrange(pos + 8, pos + 8 + 8 * n) == words64_bytes(vals, le)) by {
        assert(s.subrange(pos + 8, pos + 8 + 8 * n) =~= enc.subrange(8, 8 + 8 * n));
        assert(enc.subrange(8, 8 + 8 * n) =~= words64_bytes(vals, le));
    }
    lemma_words64_round_trip(s, pos + 8, vals, le);
    assert(size as int == 8 * n);
    assert(size % 8 == 0) by (nonlinear_arith)
        requires
            size as int == 8 * n,
    ;
    assert(crate::tag::pad_to_8(size) == 0);
    assert(Seq::new((size as int / 8) as nat, |k: int| word64(s, pos + 8 + 8 * k, le)) =~= vals);
}

/// The encoding of a whole numeric matrix body (the region a Matrix tag
/// declares): flags, dimensions, name and double-precision values.
pub open spec fn numeric_matrix_bytes(
    w: u32,
    nz: u32,
    ws: Seq<u32>,
    nb: Seq<u8>,
    vals: Seq<u64>,
    le: bool,
) -> Seq<u8> {
    flags_sub_bytes(w, nz, le) + dims_sub_bytes(ws, le) + name_sub_bytes(nb, le) + f64_sub_bytes(
        vals,
        le,
    )
}

/// What decoding an encoded numeric matrix body starting at `pos` yields,
/// independent of the byte order it was encoded in: `pos` only shifts the
/// positions, never the decoded element or the branch taken.
pub open spec fn decoded_numeric_matrix(
    w: u32,
    nz: u32,
    ws: Seq<u32>,
    nb: Seq<u8>,
    vals: Seq<u64>,
    pos: int,
) -> Result<(ElementV, int), ParseError> {
    let flags = flags_of(w, nz);
    let d = Seq::new(ws.len(), |k: int| as_signed32(ws[k]));
    let p1 = pos + 16;
    let p2 = p1 + 8 + 4 * ws.len() + pad_to_8((4 * ws.len()) as u32);
    let p3 = p2 + 8 + nb.len() + pad_to_8(nb.len() as u32);
    let p4 = p3 + 8 + 8 * vals.len();
    match crate::text::utf8_of(nb) {
        None => Err(ParseError { kind: ErrorKind::Utf8DecodeFailure, pos: p2 as usize }),
        Some(nm) => {
            let adt = spec_numeric_data_type(flags.class).unwrap();
            if !(vals.len() as int == seq_product(d) && crate::types::spec_types_compatible(
                adt,
                DataType::Double,
            )) {
                Err(ParseError { kind: ErrorKind::SanityCheckFailed, pos: p3 as usize })
            } else if flags.complex {
                Err(ParseError { kind: ErrorKind::Incomplete, pos: p4 as usize })
            } else {
                Ok((ElementV::NumericMatrix(flags, d, nm, NumericDataV::Double(vals), None), p4))
            }
        },
    }
}

/// Decoding an encoded numeric matrix body, in either byte order, yields the
/// position-shifted closed form above.
#[verifier::rlimit(100)]
proof fn lemma_numeric_matrix_decode(
    s: Seq<u8>,
    pos: int,
    w: u32,
    nz: u32,
    ws: Seq<u32>,
    nb: Seq<u8>,
    vals: Seq<u64>,
    le: bool,
    depth: nat,
)
    requires
        0 <= pos,
        ws.len() >= 2,
        1 <= nb.len() <= u32::MAX,
        4 * ws.len() as int <= u32::MAX,
        8 * vals.len() as int <= u32::MAX,
        spec_array_type_from((w % 0x100) as u8) matches Some(c) && spec_numeric_data_type(c)
            is Some,
        pos + numeric_matrix_bytes(w, nz, ws, nb, vals, le).len() <= s.len(),
        s.subrange(pos, pos + numeric_matrix_bytes(w, nz, ws, nb, vals, le).len() as int)
            == numeric_matrix_bytes(w, nz, ws, nb, vals, le),
    ensures
        crate::matrix::spec_parse_matrix(
            s,
            pos,
            pos + numeric_matrix_bytes(w, nz, ws, nb, vals, le).len() as int,
            le,
            depth,
        ) == decoded_numeric_matrix(w, nz, ws, nb, vals, pos),
{
    lemma_words32_bytes_len(ws, le);
    lemma_words64_bytes_len(vals, le);
    let enc = numeric_matrix_bytes(w, nz, ws, nb, vals, le);
    let e1 = flags_sub_bytes(w, nz, le);
    let e2 = dims_sub_bytes(ws, le);
    let e3 = name_sub_bytes(nb, le);
    let e4 = f64_sub_bytes(vals, le);
    let p1 = pos + 16;
    let p2 = p1 + 8 + 4 * ws.len() + pad_to_8((4 * ws.len()) as u32);
    let p3 = p2 + 8 + nb.len() + pad_to_8(nb.len() as u32);
    let p4 = p3 + 8 + 8 * vals.len();
    let end = pos + enc.len() as int;
    assert(e1.len() == 16);
    assert(e2.len() == 8 + 4 * ws.len() + pad_to_8((4 * ws.len()) as u32));
    assert(e3.len() == 8 + nb.len() + pad_to_8(nb.len() as u32));
    assert(e4.len() == 8 + 8 * vals.len());
    assert(end == p4);
    assert(s.subrange(pos, p1) == e1) by {
        assert(s.subrange(pos, p1) =~= enc.subrange(0, 16));
        assert(enc.subrange(0, 16) =~= e1);
    }
    assert(s.subrange(p1, p2) == e2) by {
        assert(s.subrange(p1, p2) =~= enc.subrange(16, 16 + e2.len() as int));
        assert(enc.subrange(16, 16 + e2.len() as int) =~= e2);
    }
    assert(s.subrange(p2, p3) == e3) by {
        assert(s.subrange(p2, p3) =~= enc.subrange(
            16 + e2.len() as int,
            16 + e2.len() as int + e3.len() as int,
        ));
        assert(enc.subrange(16 + e2.len() as int, 16 + e2.len() as int + e3.len() as int) =~= e3);
    }
    assert(s.subrange(p3, p4) == e4) by {
        assert(s.subrange(p3, p4) =~= enc.subrange(16 + e2.len() as int + e3.len() as int,
            enc.len() as int,
        ));
        assert(enc.subrange(16 + e2.len() as int + e3.len() as int, enc.len() as int) =~= e4);
    }
    lemma_flags_sub_round_trip(s, pos, end, w, nz, le);
    lemma_dims_sub_round_trip(s, p1, end, ws, le);
    lemma_name_sub_round_trip(s, p2, end, nb, le);
    lemma_f64_sub_round_trip(s, p3, end, vals, le);
    let flags = flags_of(w, nz);
    assert(spec_numeric_data_type(flags.class) is Some);
    if flags.complex && crate::text::utf8_of(nb) is Some && vals.len() as int == seq_product(
        Seq::new(ws.len(), |k: int| as_signed32(ws[k])),
    ) && crate::types::spec_types_compatible(
        spec_numeric_data_type(flags.class).unwrap(),
        DataType::Double,
    ) {
        reveal(crate::numeric::spec_parse_numeric);
        reveal(crate::tag::spec_parse_tag);
        assert(crate::numeric::spec_parse_numeric(s, p4, end, le) == Err::<
            (NumericDataV, int),
            ParseError,
        >(ParseError { kind: ErrorKind::Incomplete, pos: p4 as usize }));
    }
}

/// Endianness symmetry of a numeric matrix: the same logical content — flags
/// and `nzmax` words, dimension extents, name bytes and double-precision
/// values — encoded little-endian and decoded little-endian, and encoded
/// big-endian and decoded big-endian, yields the identical element, or fails
/// with the identical kind of error; only positions shift with the start
/// offsets.
pub proof fn lemma_numeric_matrix_endianness_symmetry(
    a: Seq<u8>,
    b: Seq<u8>,
    pos_a: int,
    pos_b: int,
    w: u32,
    nz: u32,
    ws: Seq<u32>,
    nb: Seq<u8>,
    vals: Seq<u64>,
    depth: nat,
)
    requires
        0 <= pos_a,
        0 <= pos_b,
        ws.len() >= 2,
        1 <= nb.len() <= u32::MAX,
        4 * ws.len() as int <= u32::MAX,
        8 * vals.len() as int <= u32::MAX,
        spec_array_type_from((w % 0x100) as u8) matches Some(c) && spec_numeric_data_type(c)
            is Some,
        pos_a + numeric_matrix_bytes(w, nz, ws, nb, vals, true).len() <= a.len(),
        a.subrange(pos_a, pos_a + numeric_matrix_bytes(w, nz, ws, nb, vals, true).len() as int)
            == numeric_matrix_bytes(w, nz, ws, nb, vals, true),
        pos_b + numeric_matrix_bytes(w, nz, ws, nb, vals, false).len() <= b.len(),
        b.subrange(pos_b, pos_b + numeric_matrix_bytes(w, nz, ws, nb, vals, false).len() as int)
            == numeric_matrix_bytes(w, nz, ws, nb, vals, false),
    ensures
        match (
            crate::matrix::spec_parse_matrix(
                a,
                pos_a,
                pos_a + numeric_matrix_bytes(w, nz, ws, nb, vals, true).len() as int,
                true,
                depth,
            ),
            crate::matrix::spec_parse_matrix(
                b,
                pos_b,
                pos_b + numeric_matrix_bytes(w, nz, ws, nb, vals, false).len() as int,
                false,
                depth,
            ),
        ) {
            (Ok(va), Ok(vb)) => va.0 == vb.0 && va.1 - pos_a == vb.1 - pos_b,
            (Err(ea), Err(eb)) => ea.kind == eb.kind,
            _ => false,
        },
{
    lemma_numeric_matrix_decode(a, pos_a, w, nz, ws, nb, vals, true, depth);
    lemma_numeric_matrix_decode(b, pos_b, w, nz, ws, nb, vals, false, depth);
}

/// The byte length of an encoded numeric matrix body, the same in either
/// byte order.
pub open spec fn numeric_matrix_len(ws: Seq<u32>, nb: Seq<u8>, vals: Seq<u64>) -> int {
    16 + 8 + 4 * ws.len() + pad_to_8((4 * ws.len()) as u32) + 8 + nb.len() + pad_to_8(
        nb.len() as u32,
    ) + 8 + 8 * vals.len()
}

proof fn lemma_numeric_matrix_bytes_len(
    w: u32,
    nz: u32,
    ws: Seq<u32>,
    nb: Seq<u8>,
    vals: Seq<u64>,
    le: bool,
)
    ensures
        numeric_matrix_bytes(w, nz, ws, nb, vals, le).len() == numeric_matrix_len(ws, nb, vals),
{
    lemma_words32_bytes_len(ws, le);
    lemma_words64_bytes_len(vals, le);
}

/// One stored numeric matrix, described by its logical content: the flags and
/// `nzmax` words, the dimension extents as raw words, the name bytes, and the
/// double-precision values as raw words.
pub ghost struct NumDesc {
    pub w: u32,
    pub nz: u32,
    pub ws: Seq<u32>,
    pub nb: Seq<u8>,
    pub vals: Seq<u64>,
}

/// A description a MAT5 writer could store: at least two extents, a nonempty
/// name, sizes within the 32-bit tag ranges, and a numeric class.
pub open spec fn desc_valid(d: NumDesc) -> bool {
    &&& d.ws.len() >= 2
    &&& 1 <= d.nb.len() <= u32::MAX
    &&& 4 * d.ws.len() as int <= u32::MAX
    &&& 8 * d.vals.len() as int <= u32::MAX
    &&& numeric_matrix_len(d.ws, d.nb, d.vals) + 8 <= u32::MAX
    &&& (spec_array_type_from((d.w % 0x100) as u8) matches Some(c) && spec_numeric_data_type(c)
        is Some)
}

/// The encoding of one top-level element holding a numeric matrix: a Matrix
/// tag, then the matrix body; the body is already 8-byte aligned, so the
/// element carries no padding.
pub open spec fn element_bytes(d: NumDesc, le: bool) -> Seq<u8> {
    long_tag_bytes(14, numeric_matrix_len(d.ws, d.nb, d.vals) as u32, le) + numeric_matrix_bytes(
        d.w,
        d.nz,
        d.ws,
        d.nb,
        d.vals,
        le,
    )
}

/// The byte length of one encoded element.
pub open spec fn element_len(d: NumDesc) -> int {
    8 + numeric_matrix_len(d.ws, d.nb, d.vals)
}

/// The body of an encoded element is a whole number of 8-byte units.
proof fn lemma_numeric_matrix_len_aligned(ws: Seq<u32>, nb: Seq<u8>, vals: Seq<u64>)
    requires
        4 * ws.len() as int <= u32::MAX,
        nb.len() <= u32::MAX,
    ensures
        numeric_matrix_len(ws, nb, vals) % 8 == 0,
{
    let l1: u32 = (4 * ws.len()) as u32;
    let l2: u32 = nb.len() as u32;
    assert((l1 + pad_to_8(l1)) % 8 == 0) by (nonlinear_arith);
    assert((l2 + pad_to_8(l2)) % 8 == 0) by (nonlinear_arith);
    let c1 = l1 + pad_to_8(l1);
    let c2 = l2 + pad_to_8(l2);
    assert(numeric_matrix_len(ws, nb, vals) == 40 + c1 + c2 + 8 * vals.len());
    assert((40 + c1 + c2 + 8 * vals.len() as int) % 8 == 0) by (nonlinear_arith)
        requires
            c1 % 8 == 0,
            c2 % 8 == 0,
    ;
}

/// Decoding one encoded element at `pos`, in either byte order, yields the
/// position-shifted closed form of its matrix body.
#[verifier::rlimit(100)]
proof fn lemma_element_decode(s: Seq<u8>, pos: int, end: int, d: NumDesc, le: bool, depth: nat)
    requires
        0 <= pos,
        desc_valid(d),
        pos + element_len(d) <= end <= s.len(),
        s.subrange(pos, pos + element_len(d)) == element_bytes(d, le),
    ensures
        crate::parse::spec_parse_next_element(s, pos, end, le, depth) == decoded_numeric_matrix(
            d.w,
            d.nz,
            d.ws,
            d.nb,
            d.vals,
            pos + 8,
        ),
{
    lemma_numeric_matrix_bytes_len(d.w, d.nz, d.ws, d.nb, d.vals, le);
    lemma_numeric_matrix_len_aligned(d.ws, d.nb, d.vals);
    let body = numeric_matrix_bytes(d.w, d.nz, d.ws, d.nb, d.vals, le);
    let bl = numeric_matrix_len(d.ws, d.nb, d.vals);
    let enc = element_bytes(d, le);
    let size: u32 = bl as u32;
    assert(s.subrange(pos, pos + 8) == long_tag_bytes(14, size, le)) by {
        assert(s.subrange(pos, pos + 8) =~= enc.subrange(0, 8));
        assert(enc.subrange(0, 8) =~= long_tag_bytes(14, size, le));
    }
    crate::tag::lemma_long_tag_round_trip(s, pos, end, 14, size, le);
    assert(s.subrange(pos + 8, pos + 8 + bl) == body) by {
        assert(s.subrange(pos + 8, pos + 8 + bl) =~= enc.subrange(8, 8 + bl));
        assert(enc.subrange(8, 8 + bl) =~= body);
    }
    lemma_numeric_matrix_decode(s, pos + 8, d.w, d.nz, d.ws, d.nb, d.vals, le, depth);
    assert(crate::tag::pad_to_8(size) == 0);
}

/// The encoding of a sequence of elements, in file order.
pub open spec fn elements_bytes(descs: Seq<NumDesc>, le: bool) -> Seq<u8>
    decreases descs.len(),
{
    if descs.len() == 0 {
        Seq::empty()
    } else {
        element_bytes(descs[0], le) + elements_bytes(descs.drop_first(), le)
    }
}

/// The total byte length of a sequence of encoded elements.
pub open spec fn elements_len(descs: Seq<NumDesc>) -> int
    decreases descs.len(),
{
    if descs.len() == 0 {
        0
    } else {
        element_len(descs[0]) + elements_len(descs.drop_first())
    }
}

proof fn lemma_elements_bytes_len(descs: Seq<NumDesc>, le: bool)
    requires
        forall|i: int| 0 <= i < descs.len() ==> desc_valid(#[trigger] descs[i]),
    ensures
        elements_bytes(descs, le).len() == elements_len(descs),
        elements_len(descs) >= 0,
    decreases descs.len(),
{
    if descs.len() > 0 {
        lemma_numeric_matrix_bytes_len(
            descs[0].w,
            descs[0].nz,
            descs[0].ws,
            descs[0].nb,
            descs[0].vals,
            le,
        );
        assert(desc_valid(descs[0]));
        assert(forall|i: int|
            0 <= i < descs.drop_first().len() ==> desc_valid(#[trigger] descs.drop_first()[i]));
        lemma_elements_bytes_len(descs.drop_first(), le);
    }
}

/// What decoding a sequence of encoded elements from `pos` yields, element by
/// element, independent of the byte order: `pos` only shifts positions.
pub open spec fn decoded_elements(descs: Seq<NumDesc>, pos: int) -> Result<
    (Seq<ElementV>, int),
    ParseError,
>
    decreases descs.len(),
{
    if descs.len() == 0 {
        Ok((Seq::empty(), pos))
    } else {
        match decoded_numeric_matrix(
            descs[0].w,
            descs[0].nz,
            descs[0].ws,
            descs[0].nb,
            descs[0].vals,
            pos + 8,
        ) {
            Err(e) => Err(e),
            Ok((el, p)) => match decoded_elements(descs.drop_first(), p) {
                Err(e) => Err(e),
                Ok((rest, q)) => Ok((seq![el] + rest, q)),
            },
        }
    }
}

/// Decoding an encoded element sequence that fills the region exactly, in
/// either byte order, yields the position-shifted closed form.
#[verifier::rlimit(100)]
proof fn lemma_elements_decode(
    s: Seq<u8>,
    pos: int,
    end: int,
    descs: Seq<NumDesc>,
    le: bool,
    depth: nat,
)
    requires
        0 <= pos,
        forall|i: int| 0 <= i < descs.len() ==> desc_valid(#[trigger] descs[i]),
        end == pos + elements_len(descs),
        end <= s.len(),
        s.subrange(pos, end) == elements_bytes(descs, le),
    ensures
        crate::parse::spec_parse_elements(s, pos, end, le, depth) == decoded_elements(descs, pos),
    decreases descs.len(),
{
    reveal_with_fuel(crate::parse::spec_parse_elements, 2);
    lemma_elements_bytes_len(descs, le);
    if descs.len() == 0 {
    } else {
        let d0 = descs[0];
        let el0 = element_len(d0);
        assert(desc_valid(d0));
        lemma_numeric_matrix_bytes_len(d0.w, d0.nz, d0.ws, d0.nb, d0.vals, le);
        assert(forall|i: int|
            0 <= i < descs.drop_first().len() ==> desc_valid(#[trigger] descs.drop_first()[i]));
        lemma_elements_bytes_len(descs.drop_first(), le);
        assert(s.subrange(pos, pos + el0) == element_bytes(d0, le)) by {
            assert(s.subrange(pos, pos + el0) =~= elements_bytes(descs, le).subrange(0, el0));
            assert(elements_bytes(descs, le).subrange(0, el0) =~= element_bytes(d0, le));
        }
        lemma_element_decode(s, pos, end, d0, le, depth);
        match decoded_numeric_matrix(d0.w, d0.nz, d0.ws, d0.nb, d0.vals, pos + 8) {
            Err(_) => {},
            Ok((el, p)) => {
                assert(p == pos + el0);
                assert(s.subrange(p, end) == elements_bytes(descs.drop_first(), le)) by {
                    assert(s.subrange(p, end) =~= elements_bytes(descs, le).subrange(
                        el0,
                        elements_len(descs),
                    ));
                    assert(elements_bytes(descs, le).subrange(el0, elements_len(descs))
                        =~= elements_bytes(descs.drop_first(), le));
                }
                lemma_elements_decode(s, p, end, descs.drop_first(), le, depth);
            },
        }
    }
}

/// The encoding of the 128-byte preamble: 116 text bytes, the unused 8-byte
/// run, the version word and the order marker, in the given byte order.
pub open spec fn header_bytes_of(tb: Seq<u8>, le: bool) -> Seq<u8> {
    if le {
        tb + zero_bytes(8) + seq![0u8, 1u8, 73u8, 77u8]
    } else {
        tb + zero_bytes(8) + seq![1u8, 0u8, 77u8, 73u8]
    }
}

/// Parsing back an encoded preamble detects the encoded byte order and
/// decodes the text bytes, in either byte order.
proof fn lemma_header_round_trip(s: Seq<u8>, tb: Seq<u8>, le: bool)
    requires
        tb.len() == 116,
        !(tb[0] == 0 && tb[1] == 0 && tb[2] == 0 && tb[3] == 0),
        s.len() >= 128,
        s.subrange(0, 128) == header_bytes_of(tb, le),
    ensures
        crate::header::spec_parse_header(s) == Ok::<
            (crate::types::HeaderV, int),
            ParseError,
        >(
            (
                crate::types::HeaderV {
                    text: match crate::text::utf8_of(tb) {
                        Some(t) => t,
                        None => Seq::empty(),
                    },
                    is_little_endian: le,
                },
                128,
            ),
        ),
{
    let enc = header_bytes_of(tb, le);
    assert(s[0] == enc[0] && s[1] == enc[1] && s[2] == enc[2] && s[3] == enc[3]);
    assert(s[124] == enc[124] && s[125] == enc[125] && s[126] == enc[126] && s[127] == enc[127]);
    assert(s.subrange(0, 116) == tb) by {
        assert(s.subrange(0, 116) =~= enc.subrange(0, 116));
        assert(enc.subrange(0, 116) =~= tb);
    }
    if le {
        assert(crate::bytes::word16(s, 124, true) == 0x0100);
    } else {
        assert(crate::bytes::word16(s, 124, false) == 0x0100);
    }
}

/// The encoding of a whole file: the preamble, then the elements.
pub open spec fn mat_file_bytes(tb: Seq<u8>, descs: Seq<NumDesc>, le: bool) -> Seq<u8> {
    header_bytes_of(tb, le) + elements_bytes(descs, le)
}

/// Whole-file endianness symmetry for files of numeric matrices stored
/// uncompressed: the same logical file — text bytes and, per element, flags
/// and `nzmax` words, extents, name bytes and double-precision values —
/// encoded little-endian with marker `IM` and big-endian with marker `MI`
/// decodes to identical element trees and identical header text, or fails
/// with the identical error; only the detected byte order differs.
pub proof fn lemma_file_endianness_symmetry(tb: Seq<u8>, descs: Seq<NumDesc>)
    requires
        tb.len() == 116,
        !(tb[0] == 0 && tb[1] == 0 && tb[2] == 0 && tb[3] == 0),
        forall|i: int| 0 <= i < descs.len() ==> desc_valid(#[trigger] descs[i]),
    ensures
        ({
            let ra = crate::parse::spec_parse_all(mat_file_bytes(tb, descs, true));
            let rb = crate::parse::spec_parse_all(mat_file_bytes(tb, descs, false));
            match (ra, rb) {
                (Ok(xa), Ok(xb)) => xa.data_elements == xb.data_elements && xa.header.text
                    == xb.header.text && xa.header.is_little_endian && !xb.header.is_little_endian,
                (Err(ea), Err(eb)) => ea == eb,
                _ => false,
            }
        }),
{
    lemma_elements_bytes_len(descs, true);
    lemma_elements_bytes_len(descs, false);
    let a = mat_file_bytes(tb, descs, true);
    let b = mat_file_bytes(tb, descs, false);
    assert(a.subrange(0, 128) == header_bytes_of(tb, true)) by {
        assert(a.subrange(0, 128) =~= header_bytes_of(tb, true).subrange(0, 128));
        assert(header_bytes_of(tb, true).subrange(0, 128) =~= header_bytes_of(tb, true));
    }
    assert(b.subrange(0, 128) == header_bytes_of(tb, false)) by {
        assert(b.subrange(0, 128) =~= header_bytes_of(tb, false).subrange(0, 128));
        assert(header_bytes_of(tb, false).subrange(0, 128) =~= header_bytes_of(tb, false));
    }
    lemma_header_round_trip(a, tb, true);
    lemma_header_round_trip(b, tb, false);
    assert(a.subrange(128, a.len() as int) == elements_bytes(descs, true)) by {
        assert(a.subrange(128, a.len() as int) =~= elements_bytes(descs, true));
    }
    assert(b.subrange(128, b.len() as int) == elements_bytes(descs, false)) by {
        assert(b.subrange(128, b.len() as int) =~= elements_bytes(descs, false));
    }
    lemma_elements_decode(
        a,
        128,
        a.len() as int,
        descs,
        true,
        crate::parse::MAX_NESTING_DEPTH as nat,
    );
    lemma_elements_decode(
        b,
        128,
        b.len() as int,
        descs,
        false,
        crate::parse::MAX_NESTING_DEPTH as nat,
    );
}

} // verus!

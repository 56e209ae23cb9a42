//! Matrix assembly: given freshly parsed array flags, routes on the declared
//! class to numeric, sparse or structure assembly, or to an `Unsupported`
//! placeholder for the recognized-but-undecoded classes (cell, object,
//! character). Structure assembly recurses back into the dispatcher for each
//! field, under an explicit nesting budget.

use vstd::prelude::*;
use crate::bytes::i32_as_usize;
use crate::numeric::{parse_numeric_subelement, spec_parse_numeric};
use crate::product::{dims_product, seq_product};
use crate::subelements::{
    parse_array_flags_subelement, parse_array_name_subelement, parse_column_index_array_subelement,
    parse_dimensions_array_subelement, parse_field_name, parse_field_name_length_subelement,
    parse_row_index_array_subelement, spec_parse_array_flags, spec_parse_dimensions,
    spec_parse_field_name, spec_parse_field_name_length, spec_parse_index_array, spec_parse_name,
};
use crate::types::{
    ArrayFlags, ArrayType, DataElement, ElementV, ErrorKind, ParseError, spec_numeric_data_type,
    spec_types_compatible,
};

verus! {

/// The texts of a vector of names.
pub open spec fn names_view(v: Seq<String>) -> Seq<Seq<char>> {
    Seq::new(v.len(), |i: int| v[i]@)
}

/// The views of a vector of elements.
pub open spec fn elements_view(v: Seq<DataElement>) -> Seq<ElementV> {
    Seq::new(v.len(), |i: int| if 0 <= i < v.len() { v[i]@ } else { ElementV::Unsupported })
}

/// Whether an executable element-parse outcome is the one the specification
/// names.
pub open spec fn elem_result_matches(
    r: Result<(DataElement, usize), ParseError>,
    g: Result<(ElementV, int), ParseError>,
) -> bool {
    match (r, g) {
        (Ok((el, p)), Ok((gel, gp))) => el@ == gel && p as int == gp,
        (Err(e), Err(f)) => e == f,
        _ => false,
    }
}

/// What numeric matrix assembly yields, the flags being parsed already:
/// dimensions, name and real part, whose element count must equal the
/// product of the extents and whose stored type must be compatible with the
/// declared class; then, exactly when the complex flag is set, an imaginary
/// part under the same two checks.
pub open spec fn spec_parse_numeric_matrix(
    s: Seq<u8>,
    pos: int,
    end: int,
    le: bool,
    flags: ArrayFlags,
) -> Result<(ElementV, int), ParseError> {
    match spec_parse_dimensions(s, pos, end, le) {
        Err(e) => Err(e),
        Ok((d, p1)) => match spec_parse_name(s, p1, end, le) {
            Err(e) => Err(e),
            Ok((nm, p2)) => match spec_parse_numeric(s, p2, end, le) {
                Err(e) => Err(e),
                Ok((re, p3)) => {
                    let n_req = seq_product(d);
                    let adt = spec_numeric_data_type(flags.class).unwrap();
                    if !(re.len() as int == n_req && spec_types_compatible(adt, re.data_type())) {
                        Err(ParseError { kind: ErrorKind::SanityCheckFailed, pos: p2 as usize })
                    } else if flags.complex {
                        match spec_parse_numeric(s, p3, end, le) {
                            Err(e) => Err(e),
                            Ok((im, p4)) => if !(im.len() as int == n_req && spec_types_compatible(
                                adt,
                                im.data_type(),
                            )) {
                                Err(
                                    ParseError {
                                        kind: ErrorKind::SanityCheckFailed,
                                        pos: p3 as usize,
                                    },
                                )
                            } else {
                                Ok(
                                    (
                                        ElementV::NumericMatrix(flags, d, nm, re, Some(im)),
                                        p4,
                                    ),
                                )
                            },
                        }
                    } else {
                        Ok((ElementV::NumericMatrix(flags, d, nm, re, None), p3))
                    }
                },
            },
        },
    }
}

/// What sparse matrix assembly yields: dimensions, name, row indices, column
/// shifts, then real (and, exactly when the complex flag is set, imaginary)
/// values whose count must equal `nzmax`; no type-compatibility check is
/// applied to sparse payloads.
pub open spec fn spec_parse_sparse_matrix(
    s: Seq<u8>,
    pos: int,
    end: int,
    le: bool,
    flags: ArrayFlags,
) -> Result<(ElementV, int), ParseError> {
    match spec_parse_dimensions(s, pos, end, le) {
        Err(e) => Err(e),
        Ok((d, p1)) => match spec_parse_name(s, p1, end, le) {
            Err(e) => Err(e),
            Ok((nm, p2)) => match spec_parse_index_array(s, p2, end, le) {
                Err(e) => Err(e),
                Ok((ri, p3)) => match spec_parse_index_array(s, p3, end, le) {
                    Err(e) => Err(e),
                    Ok((cs, p4)) => match spec_parse_numeric(s, p4, end, le) {
                        Err(e) => Err(e),
                        Ok((re, p5)) => if re.len() != flags.nzmax {
                            Err(ParseError { kind: ErrorKind::SanityCheckFailed, pos: p4 as usize })
                        } else if flags.complex {
                            match spec_parse_numeric(s, p5, end, le) {
                                Err(e) => Err(e),
                                Ok((im, p6)) => if im.len() != flags.nzmax {
                                    Err(
                                        ParseError {
                                            kind: ErrorKind::SanityCheckFailed,
                                            pos: p5 as usize,
                                        },
                                    )
                                } else {
                                    Ok(
                                        (
                                            ElementV::SparseMatrix(
                                                flags,
                                                d,
                                                nm,
                                                ri,
                                                cs,
                                                re,
                                                Some(im),
                                            ),
                                            p6,
                                        ),
                                    )
                                },
                            }
                        } else {
                            Ok((ElementV::SparseMatrix(flags, d, nm, ri, cs, re, None), p5))
                        },
                    },
                },
            },
        },
    }
}

/// What parsing `n` consecutive fixed-stride field names yields.
#[verifier::opaque]
pub open spec fn spec_parse_field_names(
    s: Seq<u8>,
    pos: int,
    end: int,
    stride: int,
    n: nat,
) -> Result<(Seq<Seq<char>>, int), ParseError>
    decreases n,
{
    if n == 0 {
        Ok((Seq::empty(), pos))
    } else {
        match spec_parse_field_name(s, pos, end, stride) {
            Err(e) => Err(e),
            Ok((nm, p)) => match spec_parse_field_names(s, p, end, stride, (n - 1) as nat) {
                Err(e) => Err(e),
                Ok((rest, q)) => Ok((seq![nm] + rest, q)),
            },
        }
    }
}

/// What parsing `n` consecutive field values yields: each is a complete
/// matrix element of any class, parsed one nesting level deeper. A zero
/// budget rejects the parse instead of recursing without bound.
#[verifier::opaque]
pub open spec fn spec_parse_fields(
    s: Seq<u8>,
    pos: int,
    end: int,
    le: bool,
    n: nat,
    depth: nat,
) -> Result<(Seq<ElementV>, int), ParseError>
    decreases depth, 1int, n,
{
    if n == 0 {
        Ok((Seq::empty(), pos))
    } else if depth == 0 {
        Err(ParseError { kind: ErrorKind::SanityCheckFailed, pos: pos as usize })
    } else {
        match spec_parse_matrix(s, pos, end, le, (depth - 1) as nat) {
            Err(e) => Err(e),
            Ok((el, p)) => match spec_parse_fields(s, p, end, le, (n - 1) as nat, depth) {
                Err(e) => Err(e),
                Ok((rest, q)) => Ok((seq![el] + rest, q)),
            },
        }
    }
}

/// The invariant of the field-name collection loop: parsing the remaining
/// `rem` names from `cur` and appending them to the `prefix` already
/// collected agrees with `full`, the parse of all the names at once.
pub open spec fn names_loop_inv(
    s: Seq<u8>,
    end: int,
    stride: int,
    prefix: Seq<Seq<char>>,
    cur: int,
    rem: nat,
    full: Result<(Seq<Seq<char>>, int), ParseError>,
) -> bool {
    match spec_parse_field_names(s, cur, end, stride, rem) {
        Ok((rest, q)) => full matches Ok(f) && f.0 == prefix + rest && f.1 == q,
        Err(e) => full == Err::<(Seq<Seq<char>>, int), ParseError>(e),
    }
}

proof fn lemma_names_inv_init(s: Seq<u8>, end: int, stride: int, cur: int, n: nat)
    ensures
        names_loop_inv(s, end, stride, Seq::empty(), cur, n, spec_parse_field_names(s, cur, end, stride, n)),
{
    match spec_parse_field_names(s, cur, end, stride, n) {
        Ok((rest, q)) => {
            assert(Seq::<Seq<char>>::empty() + rest =~= rest);
        },
        Err(_) => {},
    }
}

proof fn lemma_names_inv_step(
    s: Seq<u8>,
    end: int,
    stride: int,
    prefix: Seq<Seq<char>>,
    one: Seq<char>,
    cur: int,
    c2: int,
    rem: nat,
    full: Result<(Seq<Seq<char>>, int), ParseError>,
)
    requires
        rem > 0,
        spec_parse_field_name(s, cur, end, stride) == Ok::<(Seq<char>, int), ParseError>((one, c2)),
        names_loop_inv(s, end, stride, prefix, cur, rem, full),
    ensures
        names_loop_inv(s, end, stride, prefix + seq![one], c2, (rem - 1) as nat, full),
{
    reveal_with_fuel(spec_parse_field_names, 2);
    match spec_parse_field_names(s, c2, end, stride, (rem - 1) as nat) {
        Ok((rest, q)) => {
            assert(prefix + (seq![one] + rest) =~= (prefix + seq![one]) + rest);
        },
        Err(_) => {},
    }
}

proof fn lemma_names_inv_err(
    s: Seq<u8>,
    end: int,
    stride: int,
    prefix: Seq<Seq<char>>,
    cur: int,
    rem: nat,
    full: Result<(Seq<Seq<char>>, int), ParseError>,
    e: ParseError,
)
    requires
        rem > 0,
        spec_parse_field_name(s, cur, end, stride) == Err::<(Seq<char>, int), ParseError>(e),
        names_loop_inv(s, end, stride, prefix, cur, rem, full),
    ensures
        full == Err::<(Seq<Seq<char>>, int), ParseError>(e),
{
    reveal_with_fuel(spec_parse_field_names, 1);
}

proof fn lemma_names_inv_done(
    s: Seq<u8>,
    end: int,
    stride: int,
    prefix: Seq<Seq<char>>,
    cur: int,
    full: Result<(Seq<Seq<char>>, int), ParseError>,
)
    requires
        names_loop_inv(s, end, stride, prefix, cur, 0, full),
    ensures
        full == Ok::<(Seq<Seq<char>>, int), ParseError>((prefix, cur)),
{
    reveal_with_fuel(spec_parse_field_names, 1);
    assert(prefix + Seq::<Seq<char>>::empty() =~= prefix);
}

/// The invariant of the field-value collection loop: parsing the remaining
/// `rem` fields from `cur` and appending them to the `prefix` already
/// collected agrees with `full`, the parse of all the fields at once.
pub open spec fn fields_loop_inv(
    s: Seq<u8>,
    end: int,
    le: bool,
    prefix: Seq<ElementV>,
    cur: int,
    rem: nat,
    depth: nat,
    full: Result<(Seq<ElementV>, int), ParseError>,
) -> bool {
    match spec_parse_fields(s, cur, end, le, rem, depth) {
        Ok((rest, q)) => full matches Ok(f) && f.0 == prefix + rest && f.1 == q,
        Err(e) => full == Err::<(Seq<ElementV>, int), ParseError>(e),
    }
}

proof fn lemma_fields_inv_init(s: Seq<u8>, end: int, le: bool, cur: int, n: nat, depth: nat)
    ensures
        fields_loop_inv(
            s,
            end,
            le,
            Seq::empty(),
            cur,
            n,
            depth,
            spec_parse_fields(s, cur, end, le, n, depth),
        ),
{
    match spec_parse_fields(s, cur, end, le, n, depth) {
        Ok((rest, q)) => {
            assert(Seq::<ElementV>::empty() + rest =~= rest);
        },
        Err(_) => {},
    }
}

proof fn lemma_fields_inv_step(
    s: Seq<u8>,
    end: int,
    le: bool,
    prefix: Seq<ElementV>,
    one: ElementV,
    cur: int,
    c2: int,
    rem: nat,
    depth: nat,
    full: Result<(Seq<ElementV>, int), ParseError>,
)
    requires
        rem > 0,
        depth > 0,
        spec_parse_matrix(s, cur, end, le, (depth - 1) as nat) == Ok::<(ElementV, int), ParseError>(
            (one, c2),
        ),
        fields_loop_inv(s, end, le, prefix, cur, rem, depth, full),
    ensures
        fields_loop_inv(s, end, le, prefix + seq![one], c2, (rem - 1) as nat, depth, full),
{
    reveal_with_fuel(spec_parse_fields, 2);
    match spec_parse_fields(s, c2, end, le, (rem - 1) as nat, depth) {
        Ok((rest, q)) => {
            assert(prefix + (seq![one] + rest) =~= (prefix + seq![one]) + rest);
        },
        Err(_) => {},
    }
}

proof fn lemma_fields_inv_err(
    s: Seq<u8>,
    end: int,
    le: bool,
    prefix: Seq<ElementV>,
    cur: int,
    rem: nat,
    depth: nat,
    full: Result<(Seq<ElementV>, int), ParseError>,
    e: ParseError,
)
    requires
        rem > 0,
        depth > 0,
        spec_parse_matrix(s, cur, end, le, (depth - 1) as nat) == Err::<(ElementV, int), ParseError>(
            e,
        ),
        fields_loop_inv(s, end, le, prefix, cur, rem, depth, full),
    ensures
        full == Err::<(Seq<ElementV>, int), ParseError>(e),
{
    reveal_with_fuel(spec_parse_fields, 1);
}

proof fn lemma_fields_inv_depth0(
    s: Seq<u8>,
    end: int,
    le: bool,
    prefix: Seq<ElementV>,
    cur: int,
    rem: nat,
    full: Result<(Seq<ElementV>, int), ParseError>,
)
    requires
        rem > 0,
        fields_loop_inv(s, end, le, prefix, cur, rem, 0, full),
    ensures
        full == Err::<(Seq<ElementV>, int), ParseError>(
            ParseError { kind: ErrorKind::SanityCheckFailed, pos: cur as usize },
        ),
{
    reveal_with_fuel(spec_parse_fields, 1);
}

proof fn lemma_fields_inv_done(
    s: Seq<u8>,
    end: int,
    le: bool,
    prefix: Seq<ElementV>,
    cur: int,
    depth: nat,
    full: Result<(Seq<ElementV>, int), ParseError>,
)
    requires
        fields_loop_inv(s, end, le, prefix, cur, 0, depth, full),
    ensures
        full == Ok::<(Seq<ElementV>, int), ParseError>((prefix, cur)),
{
    reveal_with_fuel(spec_parse_fields, 1);
    assert(prefix + Seq::<ElementV>::empty() =~= prefix);
}

/// What structure matrix assembly yields: dimensions, name, the field-name
/// length, then `product(dimensions)` fixed-stride field names followed by as
/// many recursively parsed field values.
pub open spec fn spec_parse_structure_matrix(
    s: Seq<u8>,
    pos: int,
    end: int,
    le: bool,
    flags: ArrayFlags,
    depth: nat,
) -> Result<(ElementV, int), ParseError>
    decreases depth, 2int, 0int,
{
    match spec_parse_dimensions(s, pos, end, le) {
        Err(e) => Err(e),
        Ok((d, p1)) => match spec_parse_name(s, p1, end, le) {
            Err(e) => Err(e),
            Ok((nm, p2)) => match spec_parse_field_name_length(s, p2, end, le) {
                Err(e) => Err(e),
                Ok((fnl, p3)) => {
                    let n = seq_product(d);
                    if n < 0 || n > usize::MAX {
                        Err(ParseError { kind: ErrorKind::SanityCheckFailed, pos: pos as usize })
                    } else {
                        match spec_parse_field_names(s, p3, end, i32_as_usize(fnl), n as nat) {
                            Err(e) => Err(e),
                            Ok((names, p4)) => match spec_parse_fields(
                                s,
                                p4,
                                end,
                                le,
                                n as nat,
                                depth,
                            ) {
                                Err(e) => Err(e),
                                Ok((fields, p5)) => Ok(
                                    (
                                        ElementV::StructureMatrix(flags, d, nm, fnl, names, fields),
                                        p5,
                                    ),
                                ),
                            },
                        }
                    }
                },
            },
        },
    }
}

/// What the matrix dispatcher yields: flags first, then one route per
/// declared class. Cell, object and character arrays produce the
/// `Unsupported` placeholder, which stands for the whole remaining region.
pub open spec fn spec_parse_matrix(s: Seq<u8>, pos: int, end: int, le: bool, depth: nat) -> Result<
    (ElementV, int),
    ParseError,
>
    decreases depth, 3int, 0int,
{
    match spec_parse_array_flags(s, pos, end, le) {
        Err(e) => Err(e),
        Ok((flags, p)) => match flags.class {
            ArrayType::Cell => Ok((ElementV::Unsupported, end)),
            ArrayType::Object => Ok((ElementV::Unsupported, end)),
            ArrayType::Char => Ok((ElementV::Unsupported, end)),
            ArrayType::Struct => spec_parse_structure_matrix(s, p, end, le, flags, depth),
            ArrayType::Sparse => spec_parse_sparse_matrix(s, p, end, le, flags),
            _ => spec_parse_numeric_matrix(s, p, end, le, flags),
        },
    }
}

/// Assembles a numeric matrix, the flags being parsed already.
#[verifier::rlimit(100)]
pub fn parse_numeric_matrix_subelements(
    data: &[u8],
    pos: usize,
    end: usize,
    le: bool,
    flags: ArrayFlags,
) -> (r: Result<(DataElement, usize), ParseError>)
    requires
        pos <= end,
        end <= data@.len(),
        spec_numeric_data_type(flags.class) is Some,
    ensures
        elem_result_matches(r, spec_parse_numeric_matrix(data@, pos as int, end as int, le, flags)),
        r matches Ok(v) ==> pos < v.1 <= end,
{
    let (d, p1) = match parse_dimensions_array_subelement(data, pos, end, le) {
        Ok(v) => v,
        Err(e) => {
            return Err(e);
        },
    };
    let (nm, p2) = match parse_array_name_subelement(data, p1, end, le) {
        Ok(v) => v,
        Err(e) => {
            return Err(e);
        },
    };
    let (re, p3) = match parse_numeric_subelement(data, p2, end, le) {
        Ok(v) => v,
        Err(e) => {
            return Err(e);
        },
    };
    let n_req = dims_product(&d);
    let adt = match flags.class.numeric_data_type() {
        Some(t) => t,
        None => {
            return Err(ParseError { kind: ErrorKind::SanityCheckFailed, pos });
        },
    };
    let relen = re.len();
    let len_ok = match n_req {
        Some(v) => relen == v,
        None => false,
    };
    if !(len_ok && crate::types::numeric_data_types_are_compatible(adt, re.data_type())) {
        return Err(ParseError { kind: ErrorKind::SanityCheckFailed, pos: p2 });
    }
    if flags.complex {
        let (im, p4) = match parse_numeric_subelement(data, p3, end, le) {
            Ok(v) => v,
            Err(e) => {
                return Err(e);
            },
        };
        let imlen = im.len();
        let len_ok2 = match n_req {
            Some(v) => imlen == v,
            None => false,
        };
        if !(len_ok2 && crate::types::numeric_data_types_are_compatible(adt, im.data_type())) {
            return Err(ParseError { kind: ErrorKind::SanityCheckFailed, pos: p3 });
        }
        Ok((DataElement::NumericMatrix(flags, d, nm, re, Some(im)), p4))
    } else {
        Ok((DataElement::NumericMatrix(flags, d, nm, re, None), p3))
    }
}

/// Assembles a sparse matrix, the flags being parsed already.
pub fn parse_sparse_matrix_subelements(
    data: &[u8],
    pos: usize,
    end: usize,
    le: bool,
    flags: ArrayFlags,
) -> (r: Result<(DataElement, usize), ParseError>)
    requires
        pos <= end,
        end <= data@.len(),
    ensures
        elem_result_matches(r, spec_parse_sparse_matrix(data@, pos as int, end as int, le, flags)),
        r matches Ok(v) ==> pos < v.1 <= end,
{
    let (d, p1) = match parse_dimensions_array_subelement(data, pos, end, le) {
        Ok(v) => v,
        Err(e) => {
            return Err(e);
        },
    };
    let (nm, p2) = match parse_array_name_subelement(data, p1, end, le) {
        Ok(v) => v,
        Err(e) => {
            return Err(e);
        },
    };
    let (ri, p3) = match parse_row_index_array_subelement(data, p2, end, le) {
        Ok(v) => v,
        Err(e) => {
            return Err(e);
        },
    };
    let (cs, p4) = match parse_column_index_array_subelement(data, p3, end, le) {
        Ok(v) => v,
        Err(e) => {
            return Err(e);
        },
    };
    let (re, p5) = match parse_numeric_subelement(data, p4, end, le) {
        Ok(v) => v,
        Err(e) => {
            return Err(e);
        },
    };
    if re.len() != flags.nzmax {
        return Err(ParseError { kind: ErrorKind::SanityCheckFailed, pos: p4 });
    }
    if flags.complex {
        let (im, p6) = match parse_numeric_subelement(data, p5, end, le) {
            Ok(v) => v,
            Err(e) => {
                return Err(e);
            },
        };
        if im.len() != flags.nzmax {
            return Err(ParseError { kind: ErrorKind::SanityCheckFailed, pos: p5 });
        }
        Ok((DataElement::SparseMatrix(flags, d, nm, ri, cs, re, Some(im)), p6))
    } else {
        Ok((DataElement::SparseMatrix(flags, d, nm, ri, cs, re, None), p5))
    }
}

/// Whether an executable field-name collection outcome is the one the
/// specification names.
pub open spec fn names_list_result_matches(
    r: Result<(Vec<String>, usize), ParseError>,
    g: Result<(Seq<Seq<char>>, int), ParseError>,
) -> bool {
    match (r, g) {
        (Ok((v, p)), Ok((gv, gp))) => names_view(v@) == gv && p as int == gp,
        (Err(e), Err(f)) => e == f,
        _ => false,
    }
}

/// Whether an executable field-value collection outcome is the one the
/// specification names.
pub open spec fn elements_list_result_matches(
    r: Result<(Vec<DataElement>, usize), ParseError>,
    g: Result<(Seq<ElementV>, int), ParseError>,
) -> bool {
    match (r, g) {
        (Ok((v, p)), Ok((gv, gp))) => elements_view(v@) == gv && p as int == gp,
        (Err(e), Err(f)) => e == f,
        _ => false,
    }
}

/// Collects `n` consecutive fixed-stride field names.
fn collect_field_names(data: &[u8], pos: usize, end: usize, stride: usize, n: usize) -> (r: Result<
    (Vec<String>, usize),
    ParseError,
>)
    requires
        pos <= end,
        end <= data@.len(),
    ensures
        names_list_result_matches(
            r,
            spec_parse_field_names(data@, pos as int, end as int, stride as int, n as nat),
        ),
        r matches Ok(v) ==> pos <= v.1 <= end,
{
    let ghost gfull = spec_parse_field_names(data@, pos as int, end as int, stride as int, n as nat);
    let mut names: Vec<String> = Vec::new();
    let mut cur: usize = pos;
    let mut i: usize = 0;
    proof {
        lemma_names_inv_init(data@, end as int, stride as int, pos as int, n as nat);
        assert(names_view(names@) =~= Seq::<Seq<char>>::empty());
    }
    while i < n
        invariant
            i <= n,
            pos <= cur <= end <= data@.len(),
            names@.len() == i,
            gfull == spec_parse_field_names(
                data@,
                pos as int,
                end as int,
                stride as int,
                n as nat,
            ),
            names_loop_inv(
                data@,
                end as int,
                stride as int,
                names_view(names@),
                cur as int,
                (n - i) as nat,
                gfull,
            ),
        decreases n - i,
    {
        let (one, c2) = match parse_field_name(data, cur, end, stride) {
            Ok(v) => v,
            Err(e) => {
                proof {
                    lemma_names_inv_err(
                        data@,
                        end as int,
                        stride as int,
                        names_view(names@),
                        cur as int,
                        (n - i) as nat,
                        gfull,
                        e,
                    );
                }
                return Err(e);
            },
        };
        proof {
            lemma_names_inv_step(
                data@,
                end as int,
                stride as int,
                names_view(names@),
                one@,
                cur as int,
                c2 as int,
                (n - i) as nat,
                gfull,
            );
            assert(names_view(names@.push(one)) =~= names_view(names@) + seq![one@]);
        }
        names.push(one);
        cur = c2;
        i += 1;
    }
    proof {
        lemma_names_inv_done(
            data@,
            end as int,
            stride as int,
            names_view(names@),
            cur as int,
            gfull,
        );
    }
    Ok((names, cur))
}

/// Collects `n` consecutive field values, each a complete matrix element
/// parsed one nesting level deeper than `depth` allows.
fn collect_fields(data: &[u8], pos: usize, end: usize, le: bool, n: usize, depth: u32) -> (r:
    Result<(Vec<DataElement>, usize), ParseError>)
    requires
        pos <= end,
        end <= data@.len(),
    ensures
        elements_list_result_matches(
            r,
            spec_parse_fields(data@, pos as int, end as int, le, n as nat, depth as nat),
        ),
        r matches Ok(v) ==> pos <= v.1 <= end,
    decreases depth, 1int,
{
    let ghost gfull = spec_parse_fields(data@, pos as int, end as int, le, n as nat, depth as nat);
    let mut fields: Vec<DataElement> = Vec::new();
    let mut cur: usize = pos;
    let mut j: usize = 0;
    proof {
        lemma_fields_inv_init(data@, end as int, le, pos as int, n as nat, depth as nat);
        assert(elements_view(fields@) =~= Seq::<ElementV>::empty());
    }
    while j < n
        invariant
            j <= n,
            pos <= cur <= end <= data@.len(),
            fields@.len() == j,
            gfull == spec_parse_fields(
                data@,
                pos as int,
                end as int,
                le,
                n as nat,
                depth as nat,
            ),
            fields_loop_inv(
                data@,
                end as int,
                le,
                elements_view(fields@),
                cur as int,
                (n - j) as nat,
                depth as nat,
                gfull,
            ),
        decreases n - j,
    {
        if depth == 0 {
            proof {
                lemma_fields_inv_depth0(
                    data@,
                    end as int,
                    le,
                    elements_view(fields@),
                    cur as int,
                    (n - j) as nat,
                    gfull,
                );
            }
            return Err(ParseError { kind: ErrorKind::SanityCheckFailed, pos: cur });
        }
        let (el, c2) = match parse_matrix_data_element(data, cur, end, le, depth - 1) {
            Ok(v) => v,
            Err(e) => {
                proof {
                    lemma_fields_inv_err(
                        data@,
                        end as int,
                        le,
                        elements_view(fields@),
                        cur as int,
                        (n - j) as nat,
                        depth as nat,
                        gfull,
                        e,
                    );
                }
                return Err(e);
            },
        };
        proof {
            lemma_fields_inv_step(
                data@,
                end as int,
                le,
                elements_view(fields@),
                el@,
                cur as int,
                c2 as int,
                (n - j) as nat,
                depth as nat,
                gfull,
            );
            assert(elements_view(fields@.push(el)) =~= elements_view(fields@) + seq![el@]);
        }
        fields.push(el);
        cur = c2;
        j += 1;
    }
    proof {
        lemma_fields_inv_done(
            data@,
            end as int,
            le,
            elements_view(fields@),
            cur as int,
            depth as nat,
            gfull,
        );
    }
    Ok((fields, cur))
}

/// Assembles a structure matrix, the flags being parsed already; each field
/// value is parsed one nesting level deeper than `depth` allows.
#[verifier::rlimit(100)]
pub fn parse_structure_matrix_subelements(
    data: &[u8],
    pos: usize,
    end: usize,
    le: bool,
    flags: ArrayFlags,
    depth: u32,
) -> (r: Result<(DataElement, usize), ParseError>)
    requires
        pos <= end,
        end <= data@.len(),
    ensures
        elem_result_matches(
            r,
            spec_parse_structure_matrix(data@, pos as int, end as int, le, flags, depth as nat),
        ),
        r matches Ok(v) ==> pos < v.1 <= end,
    decreases depth, 2int,
{
    proof {
        reveal_with_fuel(spec_parse_field_names, 1);
        reveal_with_fuel(spec_parse_fields, 1);
    }
    let (d, p1) = match parse_dimensions_array_subelement(data, pos, end, le) {
        Ok(v) => v,
        Err(e) => {
            return Err(e);
        },
    };
    let (nm, p2) = match parse_array_name_subelement(data, p1, end, le) {
        Ok(v) => v,
        Err(e) => {
            return Err(e);
        },
    };
    let (fnl, p3) = match parse_field_name_length_subelement(data, p2, end, le) {
        Ok(v) => v,
        Err(e) => {
            return Err(e);
        },
    };
    let n_req = match dims_product(&d) {
        Some(v) => v,
        None => {
            return Err(ParseError { kind: ErrorKind::SanityCheckFailed, pos });
        },
    };
    let stride = crate::bytes::i32_to_usize(fnl);
    let (names, p4) = match collect_field_names(data, p3, end, stride, n_req) {
        Ok(v) => v,
        Err(e) => {
            proof {
                assert(spec_parse_field_names(
                    data@,
                    p3 as int,
                    end as int,
                    i32_as_usize(fnl),
                    (seq_product(d@) as nat),
                ) == Err::<(Seq<Seq<char>>, int), ParseError>(e));
            }
            return Err(e);
        },
    };
    let (fields, p5) = match collect_fields(data, p4, end, le, n_req, depth) {
        Ok(v) => v,
        Err(e) => {
            proof {
                assert(spec_parse_fields(
                    data@,
                    p4 as int,
                    end as int,
                    le,
                    (seq_product(d@) as nat),
                    depth as nat,
                ) == Err::<(Seq<ElementV>, int), ParseError>(e));
            }
            return Err(e);
        },
    };
    proof {
        assert(spec_parse_fields(
            data@,
            p4 as int,
            end as int,
            le,
            (seq_product(d@) as nat),
            depth as nat,
        ) == Ok::<(Seq<ElementV>, int), ParseError>((elements_view(fields@), p5 as int)));
    }
    let result = DataElement::StructureMatrix(flags, d, nm, fnl, names, fields);
    proof {
        assert(result@ matches ElementV::StructureMatrix(_, _, _, _, ns, fs) && ns
            =~= names_view(names@) && fs =~= elements_view(fields@));
        assert(spec_parse_structure_matrix(data@, pos as int, end as int, le, flags, depth as nat)
            == Ok::<(ElementV, int), ParseError>(
            (
                ElementV::StructureMatrix(
                    flags,
                    d@,
                    nm@,
                    fnl,
                    names_view(names@),
                    elements_view(fields@),
                ),
                p5 as int,
            ),
        ));
    }
    Ok((result, p5))
}

/// The matrix dispatcher: parses the array flags and routes on the declared
/// class; cell, object and character arrays stand as `Unsupported` for the
/// whole remaining region.
pub fn parse_matrix_data_element(data: &[u8], pos: usize, end: usize, le: bool, depth: u32) -> (r:
    Result<(DataElement, usize), ParseError>)
    requires
        pos <= end,
        end <= data@.len(),
    ensures
        elem_result_matches(r, spec_parse_matrix(data@, pos as int, end as int, le, depth as nat)),
        r matches Ok(v) ==> pos < v.1 <= end,
    decreases depth, 3int,
{
    let (flags, p) = match parse_array_flags_subelement(data, pos, end, le) {
        Ok(v) => v,
        Err(e) => {
            return Err(e);
        },
    };
    match flags.class {
        ArrayType::Cell => Ok((DataElement::Unsupported, end)),
        ArrayType::Object => Ok((DataElement::Unsupported, end)),
        ArrayType::Char => Ok((DataElement::Unsupported, end)),
        ArrayType::Struct => parse_structure_matrix_subelements(data, p, end, le, flags, depth),
        ArrayType::Sparse => parse_sparse_matrix_subelements(data, p, end, le, flags),
        _ => parse_numeric_matrix_subelements(data, p, end, le, flags),
    }
}

} // verus!

use std::io::Write;

use mat5::parse::{parse_all, MAX_NESTING_DEPTH};
use mat5::types::{ArrayType, DataElement, ErrorKind, NumericData};

const LE: bool = true;
const BE: bool = false;

fn push_u16(v: &mut Vec<u8>, x: u16, le: bool) {
    if le {
        v.extend_from_slice(&x.to_le_bytes());
    } else {
        v.extend_from_slice(&x.to_be_bytes());
    }
}

fn push_u32(v: &mut Vec<u8>, x: u32, le: bool) {
    if le {
        v.extend_from_slice(&x.to_le_bytes());
    } else {
        v.extend_from_slice(&x.to_be_bytes());
    }
}

fn push_i32(v: &mut Vec<u8>, x: i32, le: bool) {
    push_u32(v, x as u32, le);
}

fn push_f64(v: &mut Vec<u8>, x: f64, le: bool) {
    if le {
        v.extend_from_slice(&x.to_bits().to_le_bytes());
    } else {
        v.extend_from_slice(&x.to_bits().to_be_bytes());
    }
}

/// A valid 128-byte preamble with the given byte order.
fn header_bytes(le: bool) -> Vec<u8> {
    let mut v = Vec::new();
    let text = b"MATLAB 5.0 MAT-file, hand-built test fixture";
    v.extend_from_slice(text);
    while v.len() < 116 {
        v.push(b' ');
    }
    v.extend_from_slice(&[0u8; 8]); // subsystem data offset
    push_u16(&mut v, 0x0100, le); // version
    if le {
        v.extend_from_slice(b"IM");
    } else {
        v.extend_from_slice(b"MI");
    }
    v
}

/// A long-form tag followed by `data`, padded to an 8-byte boundary.
fn subelement(type_code: u32, data: &[u8], le: bool) -> Vec<u8> {
    let mut v = Vec::new();
    push_u32(&mut v, type_code, le);
    push_u32(&mut v, data.len() as u32, le);
    v.extend_from_slice(data);
    while v.len() % 8 != 0 {
        v.push(0);
    }
    v
}

fn flags_subelement(class: u8, complex: bool, nzmax: u32, le: bool) -> Vec<u8> {
    let mut word: u32 = class as u32;
    if complex {
        word |= 0x0800;
    }
    let mut data = Vec::new();
    push_u32(&mut data, word, le);
    push_u32(&mut data, nzmax, le);
    subelement(6, &data, le) // UInt32 tag, length 8
}

fn dims_subelement(dims: &[i32], le: bool) -> Vec<u8> {
    let mut data = Vec::new();
    for &d in dims {
        push_i32(&mut data, d, le);
    }
    subelement(5, &data, le) // Int32 tag
}

fn name_subelement(name: &str, le: bool) -> Vec<u8> {
    subelement(1, name.as_bytes(), le) // Int8 tag
}

fn index_subelement(idx: &[i32], le: bool) -> Vec<u8> {
    let mut data = Vec::new();
    for &i in idx {
        push_i32(&mut data, i, le);
    }
    subelement(5, &data, le) // Int32 tag
}

fn f64_subelement(vals: &[f64], le: bool) -> Vec<u8> {
    let mut data = Vec::new();
    for &x in vals {
        push_f64(&mut data, x, le);
    }
    subelement(9, &data, le) // Double tag
}

/// Wraps assembled subelements in a top-level Matrix tag.
fn matrix_element(content: &[u8], le: bool) -> Vec<u8> {
    let mut v = Vec::new();
    push_u32(&mut v, 14, le); // Matrix
    push_u32(&mut v, content.len() as u32, le);
    v.extend_from_slice(content);
    v
}

fn sparse1_file(le: bool) -> Vec<u8> {
    let mut content = Vec::new();
    content.extend_from_slice(&flags_subelement(5, false, 7, le));
    content.extend_from_slice(&dims_subelement(&[8, 8], le));
    content.extend_from_slice(&name_subelement("a", le));
    content.extend_from_slice(&index_subelement(&[5, 7, 2, 0, 1, 3, 6], le));
    content.extend_from_slice(&index_subelement(&[0, 1, 2, 2, 3, 4, 5, 6, 7], le));
    content.extend_from_slice(&f64_subelement(&[2.0, 7.0, 4.0, 9.0, 5.0, 8.0, 6.0], le));
    let mut file = header_bytes(le);
    file.extend_from_slice(&matrix_element(&content, le));
    file
}

fn bits(vals: &[f64]) -> Vec<u64> {
    vals.iter().map(|x| x.to_bits()).collect()
}

#[test]
fn sparse1() {
    let data = sparse1_file(LE);
    let parsed_data = parse_all(&data).unwrap();
    let parsed_matrix_data = &parsed_data.data_elements[0];
    if let DataElement::SparseMatrix(_flags, dim, _name, irows, icols, real_vals, imag_vals) =
        parsed_matrix_data
    {
        assert_eq!(*dim, vec![8, 8]);
        assert_eq!(*irows, vec![5, 7, 2, 0, 1, 3, 6]);
        assert_eq!(*icols, vec![0, 1, 2, 2, 3, 4, 5, 6, 7]);
        assert_eq!(
            *real_vals,
            NumericData::Double(bits(&[2.0, 7.0, 4.0, 9.0, 5.0, 8.0, 6.0]))
        );
        assert_eq!(*imag_vals, None);
    } else {
        panic!("Error extracting DataElement::SparseMatrix");
    }
}

#[test]
fn sparse2() {
    let mut content = Vec::new();
    content.extend_from_slice(&flags_subelement(5, true, 8, LE));
    content.extend_from_slice(&dims_subelement(&[8, 8], LE));
    content.extend_from_slice(&name_subelement("b", LE));
    content.extend_from_slice(&index_subelement(&[5, 7, 2, 0, 1, 5, 3, 6], LE));
    content.extend_from_slice(&index_subelement(&[0, 1, 2, 2, 3, 4, 6, 7, 8], LE));
    content.extend_from_slice(&f64_subelement(&[2.0, 7.0, 4.0, 9.0, 5.0, 6.0, 8.0, 6.0], LE));
    content.extend_from_slice(&f64_subelement(&[4.0, 0.0, 3.0, 7.0, 0.0, 1.0, 0.0, 0.0], LE));
    let mut data = header_bytes(LE);
    data.extend_from_slice(&matrix_element(&content, LE));

    let parsed_data = parse_all(&data).unwrap();
    let parsed_matrix_data = &parsed_data.data_elements[0];
    if let DataElement::SparseMatrix(_flags, dim, _name, irows, icols, real_vals, imag_vals) =
        parsed_matrix_data
    {
        assert_eq!(*dim, vec![8, 8]);
        assert_eq!(*irows, vec![5, 7, 2, 0, 1, 5, 3, 6]);
        assert_eq!(*icols, vec![0, 1, 2, 2, 3, 4, 6, 7, 8]);
        assert_eq!(
            *real_vals,
            NumericData::Double(bits(&[2.0, 7.0, 4.0, 9.0, 5.0, 6.0, 8.0, 6.0]))
        );
        assert_eq!(
            *imag_vals,
            Some(NumericData::Double(bits(&[
                4.0, 0.0, 3.0, 7.0, 0.0, 1.0, 0.0, 0.0
            ])))
        );
    } else {
        panic!("Error extracting DataElement::SparseMatrix");
    }
}

/// The field values of a structure, each a complete matrix body without its
/// own outer Matrix tag.
fn structure_content(le: bool) -> Vec<u8> {
    let mut field = Vec::new();
    field.extend_from_slice(&flags_subelement(6, false, 0, le)); // Double class
    field.extend_from_slice(&dims_subelement(&[1, 1], le));
    field.extend_from_slice(&name_subelement("f", le));
    field.extend_from_slice(&f64_subelement(&[3.0], le));

    let mut content = Vec::new();
    content.extend_from_slice(&flags_subelement(2, false, 0, le)); // Struct class
    content.extend_from_slice(&dims_subelement(&[1, 1], le));
    content.extend_from_slice(&name_subelement("s", le));
    // field-name-length subelement: compact tag, Int32, 4 bytes
    let word: u32 = 5 | (4 << 16);
    push_u32(&mut content, word, le);
    push_i32(&mut content, 32, le);
    // one field name in a 32-byte slot
    let mut slot = [0u8; 32];
    slot[0] = b'x';
    content.extend_from_slice(&slot);
    content.extend_from_slice(&field);
    content
}

#[test]
fn structure1() {
    let content = structure_content(LE);
    let mut data = header_bytes(LE);
    data.extend_from_slice(&matrix_element(&content, LE));

    let parsed_data = parse_all(&data).unwrap();
    assert_eq!(parsed_data.data_elements.len(), 1);
    if let DataElement::StructureMatrix(flags, dim, name, fnl, field_names, fields) =
        &parsed_data.data_elements[0]
    {
        assert_eq!(flags.class, ArrayType::Struct);
        assert_eq!(*dim, vec![1, 1]);
        assert_eq!(name, "s");
        assert_eq!(*fnl, 32);
        assert_eq!(*field_names, vec!["x".to_string()]);
        assert_eq!(fields.len(), 1);
        if let DataElement::NumericMatrix(ff, fdim, fname, freal, fimag) = &fields[0] {
            assert_eq!(ff.class, ArrayType::Double);
            assert_eq!(*fdim, vec![1, 1]);
            assert_eq!(fname, "f");
            assert_eq!(*freal, NumericData::Double(bits(&[3.0])));
            assert_eq!(*fimag, None);
        } else {
            panic!("field is not a numeric matrix");
        }
    } else {
        panic!("Error extracting DataElement::StructureMatrix");
    }
}

#[test]
fn numeric_complex_roundtrip() {
    let mut content = Vec::new();
    content.extend_from_slice(&flags_subelement(6, true, 0, LE));
    content.extend_from_slice(&dims_subelement(&[2, 3], LE));
    content.extend_from_slice(&name_subelement("c", LE));
    content.extend_from_slice(&f64_subelement(&[1.0, 2.0, 3.0, 4.0, 5.0, 6.0], LE));
    content.extend_from_slice(&f64_subelement(&[6.0, 5.0, 4.0, 3.0, 2.0, 1.0], LE));
    let mut data = header_bytes(LE);
    data.extend_from_slice(&matrix_element(&content, LE));

    let parsed = parse_all(&data).unwrap();
    assert!(parsed.header.is_little_endian);
    assert!(parsed.header.text.starts_with("MATLAB 5.0 MAT-file"));
    if let DataElement::NumericMatrix(flags, dim, name, real, imag) = &parsed.data_elements[0] {
        assert!(flags.complex);
        assert_eq!(flags.class, ArrayType::Double);
        assert_eq!(*dim, vec![2, 3]);
        assert_eq!(name, "c");
        assert_eq!(*real, NumericData::Double(bits(&[1.0, 2.0, 3.0, 4.0, 5.0, 6.0])));
        assert_eq!(*imag, Some(NumericData::Double(bits(&[6.0, 5.0, 4.0, 3.0, 2.0, 1.0]))));
    } else {
        panic!("Error extracting DataElement::NumericMatrix");
    }
}

/// The same logical file in little- and big-endian bytes decodes to the same
/// tree.
#[test]
fn endianness_symmetry() {
    let data_le = sparse1_file(LE);
    let data_be = sparse1_file(BE);
    let tree_le = parse_all(&data_le).unwrap();
    let tree_be = parse_all(&data_be).unwrap();
    assert!(tree_le.header.is_little_endian);
    assert!(!tree_be.header.is_little_endian);
    assert_eq!(tree_le.header.text, tree_be.header.text);
    assert_eq!(tree_le.data_elements.len(), tree_be.data_elements.len());
    match (&tree_le.data_elements[0], &tree_be.data_elements[0]) {
        (
            DataElement::SparseMatrix(f1, d1, n1, r1, c1, re1, im1),
            DataElement::SparseMatrix(f2, d2, n2, r2, c2, re2, im2),
        ) => {
            assert_eq!(f1, f2);
            assert_eq!(d1, d2);
            assert_eq!(n1, n2);
            assert_eq!(r1, r2);
            assert_eq!(c1, c2);
            assert_eq!(re1, re2);
            assert_eq!(im1, im2);
        }
        _ => panic!("expected two sparse matrices"),
    }
}

fn compress(bytes: &[u8]) -> Vec<u8> {
    let mut enc = libflate::zlib::Encoder::new(Vec::new()).unwrap();
    enc.write_all(bytes).unwrap();
    enc.finish().into_result().unwrap()
}

/// A compressed element decodes to exactly what the same bytes decode to
/// when stored uncompressed.
#[test]
fn decompression_boundary() {
    let element = matrix_element(&structure_content(LE), LE);

    let mut plain_file = header_bytes(LE);
    plain_file.extend_from_slice(&element);
    let plain_tree = parse_all(&plain_file).unwrap();

    let compressed_body = compress(&element);
    let mut compressed_file = header_bytes(LE);
    push_u32(&mut compressed_file, 15, LE); // Compressed
    push_u32(&mut compressed_file, compressed_body.len() as u32, LE);
    compressed_file.extend_from_slice(&compressed_body);
    let compressed_tree = parse_all(&compressed_file).unwrap();

    assert_eq!(plain_tree.data_elements.len(), 1);
    assert_eq!(compressed_tree.data_elements.len(), 1);
    match (&plain_tree.data_elements[0], &compressed_tree.data_elements[0]) {
        (
            DataElement::StructureMatrix(f1, d1, n1, l1, fns1, flds1),
            DataElement::StructureMatrix(f2, d2, n2, l2, fns2, flds2),
        ) => {
            assert_eq!(f1, f2);
            assert_eq!(d1, d2);
            assert_eq!(n1, n2);
            assert_eq!(l1, l2);
            assert_eq!(fns1, fns2);
            assert_eq!(flds1.len(), flds2.len());
        }
        _ => panic!("expected two structure matrices"),
    }
}

#[test]
fn corrupt_compressed_stream_fails() {
    let mut file = header_bytes(LE);
    push_u32(&mut file, 15, LE);
    push_u32(&mut file, 8, LE);
    file.extend_from_slice(&[0xAA; 8]); // not a zlib stream
    let err = parse_all(&file).unwrap_err();
    assert_eq!(err.kind, ErrorKind::DecompressionFailure);
    assert_eq!(err.pos, 136);
}

#[test]
fn all_zero_header_is_malformed() {
    let data = [0u8; 128];
    let err = parse_all(&data).unwrap_err();
    assert_eq!(err.kind, ErrorKind::MalformedHeader);
    assert_eq!(err.pos, 0);
}

#[test]
fn bad_endian_marker_is_malformed() {
    let mut data = header_bytes(LE);
    data[126] = b'X';
    let err = parse_all(&data).unwrap_err();
    assert_eq!(err.kind, ErrorKind::MalformedHeader);
    assert_eq!(err.pos, 126);
}

#[test]
fn bad_version_is_malformed() {
    let mut data = header_bytes(LE);
    data[124] = 0x42;
    data[125] = 0x42;
    let err = parse_all(&data).unwrap_err();
    assert_eq!(err.kind, ErrorKind::MalformedHeader);
    assert_eq!(err.pos, 128);
}

#[test]
fn unknown_type_code_does_not_advance() {
    let mut data = header_bytes(LE);
    push_u32(&mut data, 99, LE); // no such type code
    push_u32(&mut data, 0, LE);
    let err = parse_all(&data).unwrap_err();
    assert_eq!(err.kind, ErrorKind::UnknownTypeCode);
    assert_eq!(err.pos, 128);
}

#[test]
fn header_only_file_has_no_elements() {
    let data = header_bytes(LE);
    let parsed = parse_all(&data).unwrap();
    assert_eq!(parsed.data_elements.len(), 0);
}

#[test]
fn unsupported_element_is_skipped() {
    let mut data = header_bytes(LE);
    // a top-level Int8 run: not Matrix, not Compressed
    data.extend_from_slice(&subelement(1, &[7u8; 8], LE));
    data.extend_from_slice(&matrix_element(&structure_content(LE), LE));
    let parsed = parse_all(&data).unwrap();
    assert_eq!(parsed.data_elements.len(), 2);
    assert!(matches!(parsed.data_elements[0], DataElement::Unsupported));
    assert!(matches!(
        parsed.data_elements[1],
        DataElement::StructureMatrix(..)
    ));
}

#[test]
fn cell_class_is_unsupported_placeholder() {
    let mut content = Vec::new();
    content.extend_from_slice(&flags_subelement(1, false, 0, LE)); // Cell class
    content.extend_from_slice(&dims_subelement(&[1, 1], LE));
    let mut data = header_bytes(LE);
    data.extend_from_slice(&matrix_element(&content, LE));
    let parsed = parse_all(&data).unwrap();
    assert_eq!(parsed.data_elements.len(), 1);
    assert!(matches!(parsed.data_elements[0], DataElement::Unsupported));
}

#[test]
fn numeric_length_mismatch_fails() {
    let mut content = Vec::new();
    content.extend_from_slice(&flags_subelement(6, false, 0, LE));
    content.extend_from_slice(&dims_subelement(&[2, 3], LE));
    content.extend_from_slice(&name_subelement("m", LE));
    content.extend_from_slice(&f64_subelement(&[1.0, 2.0, 3.0], LE)); // 3 != 6
    let mut data = header_bytes(LE);
    data.extend_from_slice(&matrix_element(&content, LE));
    let err = parse_all(&data).unwrap_err();
    assert_eq!(err.kind, ErrorKind::SanityCheckFailed);
}

#[test]
fn packed_storage_narrower_source_is_accepted() {
    // a declared Double matrix physically stored as unsigned bytes
    let mut content = Vec::new();
    content.extend_from_slice(&flags_subelement(6, false, 0, LE));
    content.extend_from_slice(&dims_subelement(&[1, 4], LE));
    content.extend_from_slice(&name_subelement("p", LE));
    content.extend_from_slice(&subelement(2, &[10, 20, 30, 40], LE)); // UInt8 run
    let mut data = header_bytes(LE);
    data.extend_from_slice(&matrix_element(&content, LE));
    let parsed = parse_all(&data).unwrap();
    if let DataElement::NumericMatrix(_, _, _, real, _) = &parsed.data_elements[0] {
        assert_eq!(*real, NumericData::UInt8(vec![10, 20, 30, 40]));
    } else {
        panic!("expected a numeric matrix");
    }
}

#[test]
fn declared_int32_class_accepts_unsigned_32_bit_storage() {
    // the compatibility table maps the Int32 class to the unsigned 32-bit
    // storage type: a signed 32-bit run is rejected, an unsigned one accepted
    let mut stored_signed = Vec::new();
    stored_signed.extend_from_slice(&flags_subelement(12, false, 0, LE)); // Int32 class
    stored_signed.extend_from_slice(&dims_subelement(&[1, 2], LE));
    stored_signed.extend_from_slice(&name_subelement("i", LE));
    let mut payload = Vec::new();
    push_i32(&mut payload, 1, LE);
    push_i32(&mut payload, 2, LE);
    stored_signed.extend_from_slice(&subelement(5, &payload, LE)); // Int32 run
    let mut data = header_bytes(LE);
    data.extend_from_slice(&matrix_element(&stored_signed, LE));
    let err = parse_all(&data).unwrap_err();
    assert_eq!(err.kind, ErrorKind::SanityCheckFailed);

    let mut stored_unsigned = Vec::new();
    stored_unsigned.extend_from_slice(&flags_subelement(12, false, 0, LE));
    stored_unsigned.extend_from_slice(&dims_subelement(&[1, 2], LE));
    stored_unsigned.extend_from_slice(&name_subelement("i", LE));
    stored_unsigned.extend_from_slice(&subelement(6, &payload, LE)); // UInt32 run
    let mut data2 = header_bytes(LE);
    data2.extend_from_slice(&matrix_element(&stored_unsigned, LE));
    let parsed = parse_all(&data2).unwrap();
    if let DataElement::NumericMatrix(_, _, _, real, _) = &parsed.data_elements[0] {
        assert_eq!(*real, NumericData::UInt32(vec![1, 2]));
    } else {
        panic!("expected a numeric matrix");
    }
}

#[test]
fn invalid_name_text_fails() {
    let mut content = Vec::new();
    content.extend_from_slice(&flags_subelement(6, false, 0, LE));
    content.extend_from_slice(&dims_subelement(&[1, 1], LE));
    content.extend_from_slice(&subelement(1, &[0xFF, 0xFE], LE)); // not UTF-8
    content.extend_from_slice(&f64_subelement(&[1.0], LE));
    let mut data = header_bytes(LE);
    data.extend_from_slice(&matrix_element(&content, LE));
    let err = parse_all(&data).unwrap_err();
    assert_eq!(err.kind, ErrorKind::Utf8DecodeFailure);
}

#[test]
fn truncated_element_is_incomplete() {
    let mut data = header_bytes(LE);
    push_u32(&mut data, 14, LE);
    push_u32(&mut data, 64, LE); // declares 64 bytes, none follow
    let err = parse_all(&data).unwrap_err();
    assert_eq!(err.kind, ErrorKind::Incomplete);
    assert_eq!(err.pos, 128);
}

#[test]
fn invalid_header_text_degrades_to_empty() {
    let mut data = sparse1_file(LE);
    data[10] = 0xFF; // corrupt the descriptive text only
    let parsed = parse_all(&data).unwrap();
    assert_eq!(parsed.header.text, "");
    assert_eq!(parsed.data_elements.len(), 1);
}

#[test]
fn nesting_deeper_than_the_budget_is_rejected() {
    // a compressed element wrapped in itself often enough to cross the ceiling
    let mut element = matrix_element(&structure_content(LE), LE);
    for _ in 0..(MAX_NESTING_DEPTH + 1) {
        let body = compress(&element);
        let mut wrapped = Vec::new();
        push_u32(&mut wrapped, 15, LE);
        push_u32(&mut wrapped, body.len() as u32, LE);
        wrapped.extend_from_slice(&body);
        element = wrapped;
    }
    let mut file = header_bytes(LE);
    file.extend_from_slice(&element);
    let err = parse_all(&file).unwrap_err();
    assert_eq!(err.kind, ErrorKind::SanityCheckFailed);
}

#[test]
fn sparse_cardinality_mismatch_fails() {
    // nzmax declares 6 nonzeros but 7 values follow
    let mut content = Vec::new();
    content.extend_from_slice(&flags_subelement(5, false, 6, LE));
    content.extend_from_slice(&dims_subelement(&[8, 8], LE));
    content.extend_from_slice(&name_subelement("a", LE));
    content.extend_from_slice(&index_subelement(&[5, 7, 2, 0, 1, 3, 6], LE));
    content.extend_from_slice(&index_subelement(&[0, 1, 2, 2, 3, 4, 5, 6, 7], LE));
    content.extend_from_slice(&f64_subelement(&[2.0, 7.0, 4.0, 9.0, 5.0, 8.0, 6.0], LE));
    let mut data = header_bytes(LE);
    data.extend_from_slice(&matrix_element(&content, LE));
    let err = parse_all(&data).unwrap_err();
    assert_eq!(err.kind, ErrorKind::SanityCheckFailed);
}

#[test]
fn dimensions_with_wrong_tag_type_fail() {
    let mut content = Vec::new();
    content.extend_from_slice(&flags_subelement(6, false, 0, LE));
    content.extend_from_slice(&subelement(9, &[0u8; 8], LE)); // Double where Int32 is owed
    let mut data = header_bytes(LE);
    data.extend_from_slice(&matrix_element(&content, LE));
    let err = parse_all(&data).unwrap_err();
    assert_eq!(err.kind, ErrorKind::SanityCheckFailed);
}

#[test]
fn numeric_run_not_divisible_by_width_fails() {
    let mut content = Vec::new();
    content.extend_from_slice(&flags_subelement(6, false, 0, LE));
    content.extend_from_slice(&dims_subelement(&[1, 1], LE));
    content.extend_from_slice(&name_subelement("q", LE));
    content.extend_from_slice(&subelement(9, &[0u8; 6], LE)); // 6 bytes of Double
    let mut data = header_bytes(LE);
    data.extend_from_slice(&matrix_element(&content, LE));
    let err = parse_all(&data).unwrap_err();
    assert_eq!(err.kind, ErrorKind::SanityCheckFailed);
}

#[test]
fn field_name_longer_than_stride_fails() {
    let mut content = Vec::new();
    content.extend_from_slice(&flags_subelement(2, false, 0, LE));
    content.extend_from_slice(&dims_subelement(&[1, 1], LE));
    content.extend_from_slice(&name_subelement("s", LE));
    let word: u32 = 5 | (4 << 16);
    push_u32(&mut content, word, LE);
    push_i32(&mut content, 2, LE); // stride 2
    content.extend_from_slice(b"toolong\0"); // name runs past its slot
    let mut data = header_bytes(LE);
    data.extend_from_slice(&matrix_element(&content, LE));
    let err = parse_all(&data).unwrap_err();
    assert_eq!(err.kind, ErrorKind::SanityCheckFailed);
}

#[test]
fn every_primitive_kind_decodes() {
    // one 1x2 matrix per primitive kind, packed-storage rules respected
    let cases: Vec<(u8, u32, Vec<u8>, NumericData)> = vec![
        (8, 1, vec![0xFF, 0x80], NumericData::Int8(vec![-1, -128])),
        (9, 2, vec![7, 200], NumericData::UInt8(vec![7, 200])),
        (10, 3, 0x0102i16.to_le_bytes().iter().chain((-2i16).to_le_bytes().iter()).copied().collect(),
            NumericData::Int16(vec![0x0102, -2])),
        (11, 4, 0xFFFEu16.to_le_bytes().iter().chain(3u16.to_le_bytes().iter()).copied().collect(),
            NumericData::UInt16(vec![0xFFFE, 3])),
        (13, 6, 0xDEAD_BEEFu32.to_le_bytes().iter().chain(1u32.to_le_bytes().iter()).copied().collect(),
            NumericData::UInt32(vec![0xDEAD_BEEF, 1])),
        (7, 7, 1.5f32.to_bits().to_le_bytes().iter().chain((-0.5f32).to_bits().to_le_bytes().iter()).copied().collect(),
            NumericData::Single(vec![1.5f32.to_bits(), (-0.5f32).to_bits()])),
        (14, 12, (-9i64).to_le_bytes().iter().chain(9i64.to_le_bytes().iter()).copied().collect(),
            NumericData::Int64(vec![-9, 9])),
        (15, 13, u64::MAX.to_le_bytes().iter().chain(0u64.to_le_bytes().iter()).copied().collect(),
            NumericData::UInt64(vec![u64::MAX, 0])),
        (6, 9, 2.5f64.to_bits().to_le_bytes().iter().chain(0.0f64.to_bits().to_le_bytes().iter()).copied().collect(),
            NumericData::Double(vec![2.5f64.to_bits(), 0.0f64.to_bits()])),
    ];
    for (class, type_code, payload, expected) in cases {
        let mut content = Vec::new();
        content.extend_from_slice(&flags_subelement(class, false, 0, LE));
        content.extend_from_slice(&dims_subelement(&[1, 2], LE));
        content.extend_from_slice(&name_subelement("k", LE));
        content.extend_from_slice(&subelement(type_code, &payload, LE));
        let mut data = header_bytes(LE);
        data.extend_from_slice(&matrix_element(&content, LE));
        let parsed = parse_all(&data).unwrap();
        if let DataElement::NumericMatrix(_, _, _, real, _) = &parsed.data_elements[0] {
            assert_eq!(*real, expected);
        } else {
            panic!("expected a numeric matrix");
        }
    }
    // a declared Int32 matrix, stored per the table as signed 16-bit words
    let payload: Vec<u8> = (-5i16).to_le_bytes().iter().chain(5i16.to_le_bytes().iter()).copied().collect();
    let mut content = Vec::new();
    content.extend_from_slice(&flags_subelement(12, false, 0, LE));
    content.extend_from_slice(&dims_subelement(&[1, 2], LE));
    content.extend_from_slice(&name_subelement("k", LE));
    content.extend_from_slice(&subelement(3, &payload, LE));
    let mut data = header_bytes(LE);
    data.extend_from_slice(&matrix_element(&content, LE));
    let parsed = parse_all(&data).unwrap();
    if let DataElement::NumericMatrix(_, _, _, real, _) = &parsed.data_elements[0] {
        assert_eq!(*real, NumericData::Int16(vec![-5, 5]));
    } else {
        panic!("expected a numeric matrix");
    }
}

/// The same logical numeric matrix in little- and big-endian bytes decodes to
/// the same element.
#[test]
fn numeric_endianness_symmetry() {
    let mut trees = Vec::new();
    for le in [LE, BE] {
        let mut content = Vec::new();
        content.extend_from_slice(&flags_subelement(6, false, 0, le));
        content.extend_from_slice(&dims_subelement(&[2, 2], le));
        content.extend_from_slice(&name_subelement("m", le));
        content.extend_from_slice(&f64_subelement(&[1.0, -2.5, 3.25, 0.0], le));
        let mut data = header_bytes(le);
        data.extend_from_slice(&matrix_element(&content, le));
        trees.push(parse_all(&data).unwrap());
    }
    match (&trees[0].data_elements[0], &trees[1].data_elements[0]) {
        (
            DataElement::NumericMatrix(f1, d1, n1, re1, im1),
            DataElement::NumericMatrix(f2, d2, n2, re2, im2),
        ) => {
            assert_eq!(f1, f2);
            assert_eq!(d1, d2);
            assert_eq!(n1, n2);
            assert_eq!(re1, re2);
            assert_eq!(im1, im2);
        }
        _ => panic!("expected two numeric matrices"),
    }
}

use mat5::header::parse_header;
use mat5::parse::replace_err_slice;
use mat5::tag::{ceil_to_multiple, parse_data_element_tag};
use mat5::types::{
    numeric_data_types_are_compatible, ArrayType, DataType, ErrorKind, NumericData, ParseError,
};

fn le_word(x: u32) -> [u8; 4] {
    x.to_le_bytes()
}

#[test]
fn long_tag_round_trip() {
    // {tag-bytes}{data-bytes}{padding-bytes} built by hand: Double, 12 bytes
    let mut v = Vec::new();
    v.extend_from_slice(&le_word(9));
    v.extend_from_slice(&le_word(12));
    v.extend_from_slice(&[0u8; 12]); // data
    v.extend_from_slice(&[0u8; 4]); // padding to a multiple of 8
    let (tag, p) = parse_data_element_tag(&v, 0, v.len(), true).unwrap();
    assert_eq!(tag.data_type, DataType::Double);
    assert_eq!(tag.data_byte_size, 12);
    assert_eq!(tag.padding_byte_size, 4);
    assert!(tag.padding_byte_size <= 7);
    assert_eq!((tag.data_byte_size + tag.padding_byte_size) % 8, 0);
    assert_eq!(p, 8);
}

#[test]
fn long_tag_big_endian_matches_little_endian() {
    let mut le = Vec::new();
    le.extend_from_slice(&9u32.to_le_bytes());
    le.extend_from_slice(&16u32.to_le_bytes());
    let mut be = Vec::new();
    be.extend_from_slice(&9u32.to_be_bytes());
    be.extend_from_slice(&16u32.to_be_bytes());
    let (tag_le, _) = parse_data_element_tag(&le, 0, 8, true).unwrap();
    let (tag_be, _) = parse_data_element_tag(&be, 0, 8, false).unwrap();
    assert_eq!(tag_le, tag_be);
}

#[test]
fn compact_tag_round_trip() {
    // one word: type UInt16 (4) in the low half, length 2 in the high half
    let word: u32 = 4 | (2 << 16);
    let mut v = Vec::new();
    v.extend_from_slice(&le_word(word));
    v.extend_from_slice(&[1, 0, 0, 0]); // 2 data bytes + 2 padding
    let (tag, p) = parse_data_element_tag(&v, 0, v.len(), true).unwrap();
    assert_eq!(tag.data_type, DataType::UInt16);
    assert_eq!(tag.data_byte_size, 2);
    assert_eq!(tag.padding_byte_size, 2);
    assert!(tag.padding_byte_size <= 3);
    assert_eq!(p, 4);
}

#[test]
fn compact_tag_oversized_length_is_rejected() {
    let word: u32 = 4 | (5 << 16); // compact length 5 cannot fit in one word
    let v = le_word(word);
    let err = parse_data_element_tag(&v, 0, 4, true).unwrap_err();
    assert_eq!(err.kind, ErrorKind::SanityCheckFailed);
    assert_eq!(err.pos, 0);
}

#[test]
fn unknown_tag_code_keeps_position() {
    let mut v = Vec::new();
    v.extend_from_slice(&le_word(99));
    v.extend_from_slice(&le_word(0));
    let err = parse_data_element_tag(&v, 0, 8, true).unwrap_err();
    assert_eq!(err.kind, ErrorKind::UnknownTypeCode);
    assert_eq!(err.pos, 0);
}

#[test]
fn short_tag_is_incomplete() {
    let v = [0u8; 2];
    let err = parse_data_element_tag(&v, 0, 2, true).unwrap_err();
    assert_eq!(err.kind, ErrorKind::Incomplete);
}

#[test]
fn padding_rounds_to_multiples() {
    assert_eq!(ceil_to_multiple(0, 8), 0);
    assert_eq!(ceil_to_multiple(1, 8), 8);
    assert_eq!(ceil_to_multiple(8, 8), 8);
    assert_eq!(ceil_to_multiple(9, 8), 16);
    assert_eq!(ceil_to_multiple(12, 8), 16);
    assert_eq!(ceil_to_multiple(5, 4), 8);
    assert_eq!(ceil_to_multiple(4294967294, 3), 4294967295);
}

#[test]
fn compatibility_table_exact_pairs() {
    // identical widths
    assert!(numeric_data_types_are_compatible(DataType::Int8, DataType::Int8));
    assert!(numeric_data_types_are_compatible(DataType::UInt8, DataType::UInt8));
    assert!(numeric_data_types_are_compatible(DataType::Double, DataType::Double));
    // a narrower source is allowed where the table lists it
    assert!(numeric_data_types_are_compatible(DataType::Int16, DataType::UInt8));
    assert!(numeric_data_types_are_compatible(DataType::Int32, DataType::UInt16));
    assert!(numeric_data_types_are_compatible(DataType::Double, DataType::Int32));
    assert!(numeric_data_types_are_compatible(DataType::Single, DataType::Int32));
    assert!(numeric_data_types_are_compatible(DataType::Int64, DataType::Int32));
    // never a wider source
    assert!(!numeric_data_types_are_compatible(DataType::Int8, DataType::Int16));
    assert!(!numeric_data_types_are_compatible(DataType::Int16, DataType::Int32));
    assert!(!numeric_data_types_are_compatible(DataType::Single, DataType::Double));
    // pairs the table deliberately leaves out
    assert!(!numeric_data_types_are_compatible(DataType::Int16, DataType::Int8));
    assert!(!numeric_data_types_are_compatible(DataType::UInt32, DataType::Int32));
    assert!(!numeric_data_types_are_compatible(DataType::Int64, DataType::UInt32));
    assert!(!numeric_data_types_are_compatible(DataType::Double, DataType::Single));
    // non-numeric targets are never compatible
    assert!(!numeric_data_types_are_compatible(DataType::Matrix, DataType::Int8));
    assert!(!numeric_data_types_are_compatible(DataType::Compressed, DataType::UInt8));
}

#[test]
fn array_class_storage_types() {
    assert_eq!(ArrayType::Double.numeric_data_type(), Some(DataType::Double));
    assert_eq!(ArrayType::Single.numeric_data_type(), Some(DataType::Single));
    assert_eq!(ArrayType::Int8.numeric_data_type(), Some(DataType::Int8));
    assert_eq!(ArrayType::UInt8.numeric_data_type(), Some(DataType::UInt8));
    assert_eq!(ArrayType::Int16.numeric_data_type(), Some(DataType::Int16));
    assert_eq!(ArrayType::UInt16.numeric_data_type(), Some(DataType::UInt16));
    // the deliberate anomaly: the signed 32-bit class maps to unsigned storage
    assert_eq!(ArrayType::Int32.numeric_data_type(), Some(DataType::UInt32));
    assert_eq!(ArrayType::UInt32.numeric_data_type(), Some(DataType::UInt32));
    assert_eq!(ArrayType::Int64.numeric_data_type(), Some(DataType::Int64));
    assert_eq!(ArrayType::UInt64.numeric_data_type(), Some(DataType::UInt64));
    assert_eq!(ArrayType::Cell.numeric_data_type(), None);
    assert_eq!(ArrayType::Struct.numeric_data_type(), None);
    assert_eq!(ArrayType::Sparse.numeric_data_type(), None);
}

#[test]
fn type_codes_map_to_known_sets() {
    assert_eq!(DataType::from_u32(1), Some(DataType::Int8));
    assert_eq!(DataType::from_u32(9), Some(DataType::Double));
    assert_eq!(DataType::from_u32(14), Some(DataType::Matrix));
    assert_eq!(DataType::from_u32(15), Some(DataType::Compressed));
    assert_eq!(DataType::from_u32(18), Some(DataType::Utf32));
    assert_eq!(DataType::from_u32(8), None);
    assert_eq!(DataType::from_u32(0), None);
    assert_eq!(DataType::from_u32(19), None);
    assert_eq!(ArrayType::from_u8(1), Some(ArrayType::Cell));
    assert_eq!(ArrayType::from_u8(5), Some(ArrayType::Sparse));
    assert_eq!(ArrayType::from_u8(15), Some(ArrayType::UInt64));
    assert_eq!(ArrayType::from_u8(0), None);
    assert_eq!(ArrayType::from_u8(16), None);
}

#[test]
fn numeric_data_reports_length_and_type() {
    let n = NumericData::Int16(vec![1, -2, 3]);
    assert_eq!(n.len(), 3);
    assert_eq!(n.data_type(), DataType::Int16);
    let d = NumericData::Double(vec![1.5f64.to_bits()]);
    assert_eq!(d.len(), 1);
    assert_eq!(d.data_type(), DataType::Double);
}

#[test]
fn header_detects_byte_order() {
    let mut v = vec![b'T'; 116];
    v.extend_from_slice(&[0u8; 8]);
    v.extend_from_slice(&[0x01, 0x00]); // 0x0100 big-endian
    v.extend_from_slice(b"MI");
    let (h, p) = parse_header(&v).unwrap();
    assert!(!h.is_little_endian);
    assert_eq!(p, 128);
}

#[test]
fn header_shorter_than_preamble_is_incomplete() {
    let v = vec![b'T'; 100];
    let err = parse_header(&v).unwrap_err();
    assert_eq!(err.kind, ErrorKind::Incomplete);
}

#[test]
fn replace_err_slice_keeps_kind() {
    let e = ParseError { kind: ErrorKind::Utf8DecodeFailure, pos: 77 };
    let r = replace_err_slice(e, 5);
    assert_eq!(r.kind, ErrorKind::Utf8DecodeFailure);
    assert_eq!(r.pos, 5);
}

#[test]
fn dimensions_subelement_reads_extents() {
    let mut v = Vec::new();
    v.extend_from_slice(&le_word(5)); // Int32
    v.extend_from_slice(&le_word(8));
    v.extend_from_slice(&le_word(3));
    v.extend_from_slice(&(-4i32).to_le_bytes());
    let (dims, p) =
        mat5::subelements::parse_dimensions_array_subelement(&v, 0, v.len(), true).unwrap();
    assert_eq!(dims, vec![3, -4]);
    assert_eq!(p, 16);
}

#[test]
fn field_name_stops_at_null_and_skips_stride() {
    let v = b"ab\0\0\0\0\0\0xy";
    let (name, p) = mat5::subelements::parse_field_name(v, 0, v.len(), 8).unwrap();
    assert_eq!(name, "ab");
    assert_eq!(p, 8);
}

#[test]
fn array_flags_subelement_decodes_bits() {
    let mut v = Vec::new();
    v.extend_from_slice(&le_word(6)); // UInt32
    v.extend_from_slice(&le_word(8));
    v.extend_from_slice(&le_word(0x0800 | 0x0400 | 0x0200 | 5)); // all flags, Sparse
    v.extend_from_slice(&le_word(42));
    let (flags, p) =
        mat5::subelements::parse_array_flags_subelement(&v, 0, v.len(), true).unwrap();
    assert!(flags.complex);
    assert!(flags.global);
    assert!(flags.logical);
    assert_eq!(flags.class, ArrayType::Sparse);
    assert_eq!(flags.nzmax, 42);
    assert_eq!(p, 16);
}

//! The data model: file header, tags, array flags, numeric payloads and the
//! decoded element tree, together with their mathematical views and the
//! positioned error type.
//!
//! Floating-point payloads (the `Single` and `Double` kinds) are held as raw
//! IEEE-754 bit patterns (`u32` / `u64`); consumers reinterpret the bits.

use vstd::prelude::*;

verus! {

/// The file preamble: descriptive text and the detected byte order.
#[derive(Clone, Debug)]
pub struct Header {
    pub text: String,
    pub is_little_endian: bool,
}

/// Mathematical view of a `Header`.
pub ghost struct HeaderV {
    pub text: Seq<char>,
    pub is_little_endian: bool,
}

impl Header {
    /// The view of this header.
    pub open spec fn view(&self) -> HeaderV {
        HeaderV { text: self.text@, is_little_endian: self.is_little_endian }
    }
}

/// The on-disk primitive type of a tagged data run.
#[derive(Debug, PartialEq, Eq, Structural, Clone, Copy)]
pub enum DataType {
    Int8,
    UInt8,
    Int16,
    UInt16,
    Int32,
    UInt32,
    Single,
    Double,
    Int64,
    UInt64,
    Matrix,
    Compressed,
    Utf8,
    Utf16,
    Utf32,
}

/// The numeric code each `DataType` carries in a tag.
pub open spec fn data_type_code(t: DataType) -> u32 {
    match t {
        DataType::Int8 => 1,
        DataType::UInt8 => 2,
        DataType::Int16 => 3,
        DataType::UInt16 => 4,
        DataType::Int32 => 5,
        DataType::UInt32 => 6,
        DataType::Single => 7,
        DataType::Double => 9,
        DataType::Int64 => 12,
        DataType::UInt64 => 13,
        DataType::Matrix => 14,
        DataType::Compressed => 15,
        DataType::Utf8 => 16,
        DataType::Utf16 => 17,
        DataType::Utf32 => 18,
    }
}

/// The `DataType` a numeric code stands for, if any.
pub open spec fn spec_data_type_from(x: u32) -> Option<DataType> {
    if x == 1 { Some(DataType::Int8) }
    else if x == 2 { Some(DataType::UInt8) }
    else if x == 3 { Some(DataType::Int16) }
    else if x == 4 { Some(DataType::UInt16) }
    else if x == 5 { Some(DataType::Int32) }
    else if x == 6 { Some(DataType::UInt32) }
    else if x == 7 { Some(DataType::Single) }
    else if x == 9 { Some(DataType::Double) }
    else if x == 12 { Some(DataType::Int64) }
    else if x == 13 { Some(DataType::UInt64) }
    else if x == 14 { Some(DataType::Matrix) }
    else if x == 15 { Some(DataType::Compressed) }
    else if x == 16 { Some(DataType::Utf8) }
    else if x == 17 { Some(DataType::Utf16) }
    else if x == 18 { Some(DataType::Utf32) }
    else { None }
}

impl DataType {
    /// Maps a tag's numeric code to its `DataType`.
    pub fn from_u32(x: u32) -> (r: Option<DataType>)
        ensures
            r == spec_data_type_from(x),
    {
        match x {
            1 => Some(DataType::Int8),
            2 => Some(DataType::UInt8),
            3 => Some(DataType::Int16),
            4 => Some(DataType::UInt16),
            5 => Some(DataType::Int32),
            6 => Some(DataType::UInt32),
            7 => Some(DataType::Single),
            9 => Some(DataType::Double),
            12 => Some(DataType::Int64),
            13 => Some(DataType::UInt64),
            14 => Some(DataType::Matrix),
            15 => Some(DataType::Compressed),
            16 => Some(DataType::Utf8),
            17 => Some(DataType::Utf16),
            18 => Some(DataType::Utf32),
            _ => None,
        }
    }
}

/// The declared logical class of a matrix element.
#[derive(Debug, PartialEq, Eq, Structural, Clone, Copy)]
pub enum ArrayType {
    Cell,
    Struct,
    Object,
    Char,
    Sparse,
    Double,
    Single,
    Int8,
    UInt8,
    Int16,
    UInt16,
    Int32,
    UInt32,
    Int64,
    UInt64,
}

/// The `ArrayType` a class code stands for, if any.
pub open spec fn spec_array_type_from(x: u8) -> Option<ArrayType> {
    if x == 1 { Some(ArrayType::Cell) }
    else if x == 2 { Some(ArrayType::Struct) }
    else if x == 3 { Some(ArrayType::Object) }
    else if x == 4 { Some(ArrayType::Char) }
    else if x == 5 { Some(ArrayType::Sparse) }
    else if x == 6 { Some(ArrayType::Double) }
    else if x == 7 { Some(ArrayType::Single) }
    else if x == 8 { Some(ArrayType::Int8) }
    else if x == 9 { Some(ArrayType::UInt8) }
    else if x == 10 { Some(ArrayType::Int16) }
    else if x == 11 { Some(ArrayType::UInt16) }
    else if x == 12 { Some(ArrayType::Int32) }
    else if x == 13 { Some(ArrayType::UInt32) }
    else if x == 14 { Some(ArrayType::Int64) }
    else if x == 15 { Some(ArrayType::UInt64) }
    else { None }
}

/// The numeric storage type a declared numeric class is checked against.
///
/// `Int32` deliberately maps to the unsigned 32-bit storage type: the
/// compatibility table reproduces this anomaly on purpose; confirm against an
/// authoritative MAT5 reference before ever changing it.
pub open spec fn spec_numeric_data_type(t: ArrayType) -> Option<DataType> {
    match t {
        ArrayType::Double => Some(DataType::Double),
        ArrayType::Single => Some(DataType::Single),
        ArrayType::Int8 => Some(DataType::Int8),
        ArrayType::UInt8 => Some(DataType::UInt8),
        ArrayType::Int16 => Some(DataType::Int16),
        ArrayType::UInt16 => Some(DataType::UInt16),
        ArrayType::Int32 => Some(DataType::UInt32),
        ArrayType::UInt32 => Some(DataType::UInt32),
        ArrayType::Int64 => Some(DataType::Int64),
        ArrayType::UInt64 => Some(DataType::UInt64),
        _ => None,
    }
}

impl ArrayType {
    /// Maps an array-flags class code to its `ArrayType`.
    pub fn from_u8(x: u8) -> (r: Option<ArrayType>)
        ensures
            r == spec_array_type_from(x),
    {
        match x {
            1 => Some(ArrayType::Cell),
            2 => Some(ArrayType::Struct),
            3 => Some(ArrayType::Object),
            4 => Some(ArrayType::Char),
            5 => Some(ArrayType::Sparse),
            6 => Some(ArrayType::Double),
            7 => Some(ArrayType::Single),
            8 => Some(ArrayType::Int8),
            9 => Some(ArrayType::UInt8),
            10 => Some(ArrayType::Int16),
            11 => Some(ArrayType::UInt16),
            12 => Some(ArrayType::Int32),
            13 => Some(ArrayType::UInt32),
            14 => Some(ArrayType::Int64),
            15 => Some(ArrayType::UInt64),
            _ => None,
        }
    }

    /// The storage type this class is held against by the compatibility check.
    pub fn numeric_data_type(&self) -> (r: Option<DataType>)
        ensures
            r == spec_numeric_data_type(*self),
    {
        match self {
            ArrayType::Double => Some(DataType::Double),
            ArrayType::Single => Some(DataType::Single),
            ArrayType::Int8 => Some(DataType::Int8),
            ArrayType::UInt8 => Some(DataType::UInt8),
            ArrayType::Int16 => Some(DataType::Int16),
            ArrayType::UInt16 => Some(DataType::UInt16),
            ArrayType::Int32 => Some(DataType::UInt32),
            ArrayType::UInt32 => Some(DataType::UInt32),
            ArrayType::Int64 => Some(DataType::Int64),
            ArrayType::UInt64 => Some(DataType::UInt64),
            _ => None,
        }
    }
}

/// Whether a declared numeric storage type may legally be backed on disk by
/// `stored`: the packed-storage relation, a fixed table of permitted pairs.
pub open spec fn spec_types_compatible(declared: DataType, stored: DataType) -> bool {
    match declared {
        DataType::Int8 => stored == DataType::Int8,
        DataType::UInt8 => stored == DataType::UInt8,
        DataType::Int16 => stored == DataType::UInt8 || stored == DataType::Int16,
        DataType::UInt16 => stored == DataType::UInt8 || stored == DataType::UInt16,
        DataType::Int32 => stored == DataType::UInt8 || stored == DataType::Int16
            || stored == DataType::UInt16 || stored == DataType::Int32,
        DataType::UInt32 => stored == DataType::UInt8 || stored == DataType::Int16
            || stored == DataType::UInt16 || stored == DataType::UInt32,
        DataType::Int64 => stored == DataType::UInt8 || stored == DataType::Int16
            || stored == DataType::UInt16 || stored == DataType::Int32
            || stored == DataType::Int64,
        DataType::UInt64 => stored == DataType::UInt8 || stored == DataType::Int16
            || stored == DataType::UInt16 || stored == DataType::Int32
            || stored == DataType::UInt64,
        DataType::Single => stored == DataType::UInt8 || stored == DataType::Int16
            || stored == DataType::UInt16 || stored == DataType::Int32
            || stored == DataType::Single,
        DataType::Double => stored == DataType::UInt8 || stored == DataType::Int16
            || stored == DataType::UInt16 || stored == DataType::Int32
            || stored == DataType::Double,
        _ => false,
    }
}

/// Whether a declared array class's storage type may be backed by `subelement_type`
/// on disk: the packed-storage compatibility table.
pub fn numeric_data_types_are_compatible(array_type: DataType, subelement_type: DataType) -> (r: bool)
    ensures
        r == spec_types_compatible(array_type, subelement_type),
{
    match array_type {
        DataType::Int8 => matches!(subelement_type, DataType::Int8),
        DataType::UInt8 => matches!(subelement_type, DataType::UInt8),
        DataType::Int16 => matches!(subelement_type, DataType::UInt8 | DataType::Int16),
        DataType::UInt16 => matches!(subelement_type, DataType::UInt8 | DataType::UInt16),
        DataType::Int32 => matches!(
            subelement_type,
            DataType::UInt8 | DataType::Int16 | DataType::UInt16 | DataType::Int32
        ),
        DataType::UInt32 => matches!(
            subelement_type,
            DataType::UInt8 | DataType::Int16 | DataType::UInt16 | DataType::UInt32
        ),
        DataType::Int64 => matches!(
            subelement_type,
            DataType::UInt8 | DataType::Int16 | DataType::UInt16 | DataType::Int32
                | DataType::Int64
        ),
        DataType::UInt64 => matches!(
            subelement_type,
            DataType::UInt8 | DataType::Int16 | DataType::UInt16 | DataType::Int32
                | DataType::UInt64
        ),
        DataType::Single => matches!(
            subelement_type,
            DataType::UInt8 | DataType::Int16 | DataType::UInt16 | DataType::Int32
                | DataType::Single
        ),
        DataType::Double => matches!(
            subelement_type,
            DataType::UInt8 | DataType::Int16 | DataType::UInt16 | DataType::Int32
                | DataType::Double
        ),
        _ => false,
    }
}

/// The flags subelement of a matrix: class, boolean flags and `nzmax`.
#[derive(Clone, Copy, Debug, PartialEq, Eq, Structural)]
pub struct ArrayFlags {
    pub complex: bool,
    pub global: bool,
    pub logical: bool,
    pub class: ArrayType,
    pub nzmax: usize,
}

/// A decoded tag: stored type, declared byte length, and the padding that
/// follows the data run.
#[derive(Clone, Copy, Debug, PartialEq, Eq, Structural)]
pub struct DataElementTag {
    pub data_type: DataType,
    pub data_byte_size: u32,
    pub padding_byte_size: u32,
}

/// A homogeneous numeric payload: one of the ten primitive kinds.
///
/// `Single` and `Double` carry IEEE-754 bit patterns.
#[derive(Clone, Debug, PartialEq)]
pub enum NumericData {
    Int8(Vec<i8>),
    UInt8(Vec<u8>),
    Int16(Vec<i16>),
    UInt16(Vec<u16>),
    Int32(Vec<i32>),
    UInt32(Vec<u32>),
    Int64(Vec<i64>),
    UInt64(Vec<u64>),
    Single(Vec<u32>),
    Double(Vec<u64>),
}

/// Mathematical view of a `NumericData` payload.
pub ghost enum NumericDataV {
    Int8(Seq<i8>),
    UInt8(Seq<u8>),
    Int16(Seq<i16>),
    UInt16(Seq<u16>),
    Int32(Seq<i32>),
    UInt32(Seq<u32>),
    Int64(Seq<i64>),
    UInt64(Seq<u64>),
    Single(Seq<u32>),
    Double(Seq<u64>),
}

impl NumericDataV {
    /// The number of primitives this payload holds.
    pub open spec fn len(self) -> nat {
        match self {
            NumericDataV::Int8(s) => s.len(),
            NumericDataV::UInt8(s) => s.len(),
            NumericDataV::Int16(s) => s.len(),
            NumericDataV::UInt16(s) => s.len(),
            NumericDataV::Int32(s) => s.len(),
            NumericDataV::UInt32(s) => s.len(),
            NumericDataV::Int64(s) => s.len(),
            NumericDataV::UInt64(s) => s.len(),
            NumericDataV::Single(s) => s.len(),
            NumericDataV::Double(s) => s.len(),
        }
    }

    /// The stored primitive type of this payload.
    pub open spec fn data_type(self) -> DataType {
        match self {
            NumericDataV::Int8(_) => DataType::Int8,
            NumericDataV::UInt8(_) => DataType::UInt8,
            NumericDataV::Int16(_) => DataType::Int16,
            NumericDataV::UInt16(_) => DataType::UInt16,
            NumericDataV::Int32(_) => DataType::Int32,
            NumericDataV::UInt32(_) => DataType::UInt32,
            NumericDataV::Int64(_) => DataType::Int64,
            NumericDataV::UInt64(_) => DataType::UInt64,
            NumericDataV::Single(_) => DataType::Single,
            NumericDataV::Double(_) => DataType::Double,
        }
    }
}

impl NumericData {
    /// The view of this payload.
    pub open spec fn view(&self) -> NumericDataV {
        match self {
            NumericData::Int8(v) => NumericDataV::Int8(v@),
            NumericData::UInt8(v) => NumericDataV::UInt8(v@),
            NumericData::Int16(v) => NumericDataV::Int16(v@),
            NumericData::UInt16(v) => NumericDataV::UInt16(v@),
            NumericData::Int32(v) => NumericDataV::Int32(v@),
            NumericData::UInt32(v) => NumericDataV::UInt32(v@),
            NumericData::Int64(v) => NumericDataV::Int64(v@),
            NumericData::UInt64(v) => NumericDataV::UInt64(v@),
            NumericData::Single(v) => NumericDataV::Single(v@),
            NumericData::Double(v) => NumericDataV::Double(v@),
        }
    }

    /// The number of primitives this payload holds.
    pub fn len(&self) -> (r: usize)
        ensures
            r == self@.len(),
    {
        match self {
            NumericData::Int8(v) => v.len(),
            NumericData::UInt8(v) => v.len(),
            NumericData::Int16(v) => v.len(),
            NumericData::UInt16(v) => v.len(),
            NumericData::Int32(v) => v.len(),
            NumericData::UInt32(v) => v.len(),
            NumericData::Int64(v) => v.len(),
            NumericData::UInt64(v) => v.len(),
            NumericData::Single(v) => v.len(),
            NumericData::Double(v) => v.len(),
        }
    }

    /// The stored primitive type of this payload.
    pub fn data_type(&self) -> (r: DataType)
        ensures
            r == self@.data_type(),
    {
        match self {
            NumericData::Int8(_) => DataType::Int8,
            NumericData::UInt8(_) => DataType::UInt8,
            NumericData::Int16(_) => DataType::Int16,
            NumericData::UInt16(_) => DataType::UInt16,
            NumericData::Int32(_) => DataType::Int32,
            NumericData::UInt32(_) => DataType::UInt32,
            NumericData::Int64(_) => DataType::Int64,
            NumericData::UInt64(_) => DataType::UInt64,
            NumericData::Single(_) => DataType::Single,
            NumericData::Double(_) => DataType::Double,
        }
    }
}

/// The declared extents of a matrix, in order.
pub type Dimensions = Vec<i32>;

/// CSC row indices of a sparse matrix.
pub type RowIndex = Vec<usize>;

/// CSC column pointers of a sparse matrix.
pub type ColumnShift = Vec<usize>;

/// The declared per-entry stride of a structure's field names.
pub type FieldNameLength = i32;

/// One field name of a structure matrix.
pub type FieldName = String;

/// The recursively parsed field values of a structure matrix.
pub type Fields = Vec<DataElement>;

/// A decoded top-level or nested element.
#[derive(Debug)]
pub enum DataElement {
    StructureMatrix(
        ArrayFlags,
        Dimensions,
        String,
        FieldNameLength,
        Vec<FieldName>,
        Fields,
    ),
    SparseMatrix(
        ArrayFlags,
        Dimensions,
        String,
        RowIndex,
        ColumnShift,
        NumericData,
        Option<NumericData>,
    ),
    NumericMatrix(
        ArrayFlags,
        Dimensions,
        String,
        NumericData,
        Option<NumericData>,
    ),
    Unsupported,
}

/// Mathematical view of a `DataElement`.
pub ghost enum ElementV {
    StructureMatrix(ArrayFlags, Seq<i32>, Seq<char>, i32, Seq<Seq<char>>, Seq<ElementV>),
    SparseMatrix(ArrayFlags, Seq<i32>, Seq<char>, Seq<usize>, Seq<usize>, NumericDataV, Option<NumericDataV>),
    NumericMatrix(ArrayFlags, Seq<i32>, Seq<char>, NumericDataV, Option<NumericDataV>),
    Unsupported,
}

/// The view of an optional numeric payload.
pub open spec fn opt_numeric_view(o: Option<NumericData>) -> Option<NumericDataV> {
    match o {
        Some(n) => Some(n@),
        None => None,
    }
}

impl DataElement {
    /// The view of this element; field values of a structure are viewed
    /// recursively.
    pub open spec fn view(&self) -> ElementV
        decreases self,
    {
        match self {
            DataElement::StructureMatrix(f, d, n, l, ns, fs) => ElementV::StructureMatrix(
                *f,
                d@,
                n@,
                *l,
                Seq::new(ns@.len(), |i: int| ns@[i]@),
                Seq::new(fs@.len(), |i: int| if 0 <= i < fs@.len() { fs@[i]@ } else { ElementV::Unsupported }),
            ),
            DataElement::SparseMatrix(f, d, n, ri, cs, re, im) => ElementV::SparseMatrix(
                *f, d@, n@, ri@, cs@, re@, opt_numeric_view(*im),
            ),
            DataElement::NumericMatrix(f, d, n, re, im) => ElementV::NumericMatrix(
                *f, d@, n@, re@, opt_numeric_view(*im),
            ),
            DataElement::Unsupported => ElementV::Unsupported,
        }
    }
}

/// The outcome of a whole-file parse: header plus top-level elements in file
/// order.
#[derive(Debug)]
pub struct ParseResult {
    pub header: Header,
    pub data_elements: Vec<DataElement>,
}

/// Mathematical view of a `ParseResult`.
pub ghost struct ParseResultV {
    pub header: HeaderV,
    pub data_elements: Seq<ElementV>,
}

impl ParseResult {
    /// The view of this parse result.
    pub open spec fn view(&self) -> ParseResultV {
        ParseResultV {
            header: self.header@,
            data_elements: Seq::new(
                self.data_elements@.len(),
                |i: int| if 0 <= i < self.data_elements@.len() { self.data_elements@[i]@ } else { ElementV::Unsupported },
            ),
        }
    }
}

/// What went wrong during a parse.
#[derive(Clone, Copy, Debug, PartialEq, Eq, Structural)]
pub enum ErrorKind {
    /// Bad magic, version or endianness marker in the 128-byte preamble.
    MalformedHeader,
    /// A tag's type code is outside the known set.
    UnknownTypeCode,
    /// A declared-versus-actual length or type mismatch at a subelement boundary.
    SanityCheckFailed,
    /// A name or field name is not decodable text.
    Utf8DecodeFailure,
    /// A compressed element's byte run could not be inflated.
    DecompressionFailure,
    /// Fewer bytes were available than declared.
    Incomplete,
}

/// A positioned decode error.
///
/// `pos` is an offset into the buffer being parsed when the failure was
/// detected. A failure inside a freshly inflated buffer is reported at the
/// position of the compressed element in the outer buffer; offsets inside the
/// transient decompressed buffer have no relation to the original bytes.
#[derive(Clone, Copy, Debug, PartialEq, Eq, Structural)]
pub struct ParseError {
    pub kind: ErrorKind,
    pub pos: usize,
}

} // verus!

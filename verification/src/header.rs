//! The header reader: the fixed 128-byte file preamble, which also settles
//! the byte order for the rest of the file.

use vstd::prelude::*;
use crate::bytes::word16;
use crate::text::utf8_of;
use crate::types::{ErrorKind, Header, HeaderV, ParseError};

verus! {

/// The descriptive text of the preamble: a best-effort decode of the first
/// 116 bytes, degrading to the empty text when they are not valid UTF-8.
pub open spec fn spec_header_text(s: Seq<u8>) -> Seq<char> {
    match utf8_of(s.subrange(0, 116)) {
        Some(t) => t,
        None => Seq::empty(),
    }
}

/// What parsing the 128-byte preamble of `s` yields.
///
/// The guard on the first four bytes comes first: a buffer starting with four
/// null bytes is rejected before anything further is read. The two-byte
/// order marker must be exactly `IM` (little-endian) or `MI` (big-endian),
/// and the version word, read in the detected byte order, must be `0x0100`.
pub open spec fn spec_parse_header(s: Seq<u8>) -> Result<(HeaderV, int), ParseError> {
    if s.len() < 4 {
        Err(ParseError { kind: ErrorKind::Incomplete, pos: 0 })
    } else if s[0] == 0 && s[1] == 0 && s[2] == 0 && s[3] == 0 {
        Err(ParseError { kind: ErrorKind::MalformedHeader, pos: 0 })
    } else if s.len() < 128 {
        Err(ParseError { kind: ErrorKind::Incomplete, pos: 0 })
    } else if s[126] == 73 && s[127] == 77 {
        spec_header_tail(s, true)
    } else if s[126] == 77 && s[127] == 73 {
        spec_header_tail(s, false)
    } else {
        Err(ParseError { kind: ErrorKind::MalformedHeader, pos: 126 })
    }
}

/// The version check and the assembled header, once the byte order is known.
pub open spec fn spec_header_tail(s: Seq<u8>, le: bool) -> Result<(HeaderV, int), ParseError> {
    if word16(s, 124, le) != 0x0100 {
        Err(ParseError { kind: ErrorKind::MalformedHeader, pos: 128 })
    } else {
        Ok((HeaderV { text: spec_header_text(s), is_little_endian: le }, 128))
    }
}

/// Whether an executable header-parse outcome is the one the specification
/// names.
pub open spec fn header_result_matches(
    r: Result<(Header, usize), ParseError>,
    g: Result<(HeaderV, int), ParseError>,
) -> bool {
    match (r, g) {
        (Ok((h, p)), Ok((gh, gp))) => h@ == gh && p as int == gp,
        (Err(e), Err(f)) => e == f,
        _ => false,
    }
}

/// Parses the 128-byte file preamble: descriptive text, version check and
/// byte-order detection.
pub fn parse_header(data: &[u8]) -> (r: Result<(Header, usize), ParseError>)
    ensures
        header_result_matches(r, spec_parse_header(data@)),
{
    let n = data.len();
    if n < 4 {
        return Err(ParseError { kind: ErrorKind::Incomplete, pos: 0 });
    }
    if data[0] == 0 && data[1] == 0 && data[2] == 0 && data[3] == 0 {
        return Err(ParseError { kind: ErrorKind::MalformedHeader, pos: 0 });
    }
    if n < 128 {
        return Err(ParseError { kind: ErrorKind::Incomplete, pos: 0 });
    }
    let m0 = data[126];
    let m1 = data[127];
    let le: bool;
    if m0 == 73 && m1 == 77 {
        le = true;
    } else if m0 == 77 && m1 == 73 {
        le = false;
    } else {
        return Err(ParseError { kind: ErrorKind::MalformedHeader, pos: 126 });
    }
    let version = crate::bytes::read_u16(data, 124, le);
    if version != 0x0100 {
        return Err(ParseError { kind: ErrorKind::MalformedHeader, pos: 128 });
    }
    let text: String = match crate::text::utf8_to_string(data, 0, 116) {
        Some(s) => s,
        None => String::new(),
    };
    Ok((Header { text, is_little_endian: le }, 128))
}

} // verus!

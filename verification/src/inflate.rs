//! The decompression adapter: a compressed element's byte run is a
//! zlib-wrapped DEFLATE stream, inflated fully into a fresh owned buffer.

use vstd::prelude::*;
use std::io::Read;

verus! {

/// The bytes a zlib-wrapped DEFLATE run inflates to, when it is well-formed:
/// whether inflation succeeds, and what it yields, are both functions of the
/// compressed bytes alone.
pub uninterp spec fn inflated(s: Seq<u8>) -> Option<Seq<u8>>;

/// Relies on libflate::zlib::Decoder: it inflates the zlib stream held in
/// `data[start..end]` fully into a fresh buffer, succeeding or failing
/// deterministically in those bytes alone, and fails exactly on a malformed
/// stream.
#[verifier::external_body]
pub fn inflate_zlib(data: &[u8], start: usize, end: usize) -> (r: Option<Vec<u8>>)
    requires
        start <= end,
        end <= data@.len(),
    ensures
        (r is Some) == (inflated(data@.subrange(start as int, end as int)) is Some),
        r matches Some(v) ==> v@ == inflated(data@.subrange(start as int, end as int)).unwrap(),
{
    let mut buf = Vec::new();
    match libflate::zlib::Decoder::new(&data[start..end]) {
        Ok(mut dec) => match dec.read_to_end(&mut buf) {
            Ok(_) => Some(buf),
            Err(_) => None,
        },
        Err(_) => None,
    }
}

} // verus!

//! Text decoding for names and the header's descriptive field.

use vstd::prelude::*;

verus! {

/// The text a byte run decodes to, when it is valid UTF-8.
pub uninterp spec fn utf8_of(b: Seq<u8>) -> Option<Seq<char>>;

/// Relies on std::str::from_utf8: it succeeds exactly on valid UTF-8, the
/// decoded text is a function of the bytes alone, and ASCII bytes decode to
/// the same characters, one each.
#[verifier::external_body]
pub fn utf8_to_string(data: &[u8], start: usize, end: usize) -> (r: Option<String>)
    requires
        start <= end,
        end <= data@.len(),
    ensures
        (r is Some) == (utf8_of(data@.subrange(start as int, end as int)) is Some),
        r is Some ==> r.unwrap()@ == utf8_of(data@.subrange(start as int, end as int)).unwrap(),
        (forall|i: int| start <= i < end ==> data@[i] < 128) ==> (r is Some && r.unwrap()@
            == data@.subrange(start as int, end as int).map_values(|x: u8| x as char)),
{
    match std::str::from_utf8(&data[start..end]) {
        Ok(s) => Some(s.to_owned()),
        Err(_) => None,
    }
}

} // verus!

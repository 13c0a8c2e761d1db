use vstd::prelude::*;

use crate::model::{char_count, matching_indices};

verus! {

/// Relies on `memchr::Memchr`: the iterator yields the indices of the needle
/// byte within the haystack in increasing order, one for each occurrence.
#[verifier::external_body]
pub(crate) fn newline_positions(hay: &[u8]) -> (r: Vec<usize>)
    ensures
        r@.len() == matching_indices(hay@, 0x0A).len(),
        forall|i: int| 0 <= i < r@.len() ==> r@[i] as int == matching_indices(hay@, 0x0A)[i],
{
    memchr::Memchr::new(b'\n', hay).collect()
}

/// Relies on `bytecount::num_chars`: it counts the bytes of the slice that
/// are not UTF-8 continuation bytes, i.e. the code points that start in it.
#[verifier::external_body]
pub(crate) fn num_utf8_chars(s: &[u8]) -> (r: usize)
    ensures
        r as int == char_count(s@),
{
    bytecount::num_chars(s)
}

} // verus!

//! Text fields: NUL-terminated and NUL-padded byte strings.

use vstd::prelude::*;
use vstd::slice::slice_subrange;
use vstd::utf8::{decode_utf8, valid_utf8};

verus! {

/// Relies on `String::from_utf8`: it fails exactly on bytes that are not
/// UTF-8, and otherwise holds the characters they encode.
#[verifier::external_body]
pub(crate) fn text_from_utf8(bytes: Vec<u8>) -> (r: Option<String>)
    ensures
        r is Some <==> valid_utf8(bytes@),
        r matches Some(s) ==> s@ == decode_utf8(bytes@),
{
    String::from_utf8(bytes).ok()
}

/// The index of the first NUL byte in `b[from..end]`, if there is one.
pub open spec fn nul_index(b: Seq<u8>, from: int, end: int) -> Option<int>
    decreases end - from,
{
    if from >= end {
        None
    } else if b[from] == 0 {
        Some(from)
    } else {
        nul_index(b, from + 1, end)
    }
}

pub proof fn lemma_nul_index_bounds(b: Seq<u8>, from: int, end: int)
    ensures
        nul_index(b, from, end) matches Some(i) ==> from <= i < end && b[i] == 0,
    decreases end - from,
{
    if from < end && b[from] != 0 {
        lemma_nul_index_bounds(b, from + 1, end);
    }
}

/// Finds the first NUL byte of `data[from..end]`.
pub fn find_nul(data: &[u8], from: usize, end: usize) -> (r: Option<usize>)
    requires
        from <= end <= data@.len(),
    ensures
        match nul_index(data@, from as int, end as int) {
            None => r is None,
            Some(i) => r == Some(i as usize),
        },
{
    let mut i = from;
    while i < end
        invariant
            from <= i <= end <= data@.len(),
            nul_index(data@, from as int, end as int) == nul_index(data@, i as int, end as int),
        decreases end - i,
    {
        if data[i] == 0 {
            return Some(i);
        }
        i = i + 1;
    }
    None
}

/// The part of a NUL-padded buffer before its first NUL byte.
pub fn trim_nul(buf: &[u8]) -> (r: &[u8])
    ensures
        r@ == match nul_index(buf@, 0, buf@.len() as int) {
            None => buf@,
            Some(i) => buf@.subrange(0, i),
        },
{
    proof {
        lemma_nul_index_bounds(buf@, 0, buf@.len() as int);
    }
    match find_nul(buf, 0, buf.len()) {
        None => {
            assert(buf@.subrange(0, buf@.len() as int) =~= buf@);
            slice_subrange(buf, 0, buf.len())
        },
        Some(i) => slice_subrange(buf, 0, i),
    }
}

} // verus!

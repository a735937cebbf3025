//! Splitting a raw response into header block and body.

use vstd::prelude::*;
use crate::scan::{
    is_first_occurrence, lemma_split_first_joined, occurs, occurs_at, split_first, split_once,
};

verus! {

/// The blank line that ends the header block.
pub const HEADER_END: &'static str = "\r\n\r\n";

/// The line end that a header block must not end in, if the blank line
/// behind it is to be found where it was put.
pub const LINE_END: &'static str = "\r\n";

/// A response that holds no blank line: its headers never end.
#[derive(Debug, Clone, Copy, PartialEq, Eq)]
pub struct MalformedResponse;

/// Header block and body of a raw response: what stands before and after
/// the first blank line. `None` for a response without one.
pub open spec fn split_response(raw: Seq<char>) -> Option<(Seq<char>, Seq<char>)> {
    split_first(raw, HEADER_END@)
}

/// Splits a raw response at its first blank line into the header block before
/// it and the body after it. Both are slices of `response`. A response without
/// a blank line is malformed.
pub fn parse_response<'a>(response: &'a str) -> (r: Result<
    (&'a str, &'a str),
    MalformedResponse,
>)
    ensures
        r is Ok <==> occurs(response@, HEADER_END@),
        r matches Ok(parts) ==> split_response(response@) == Some((parts.0@, parts.1@)),
        r matches Ok(parts) ==> response@ == parts.0@ + HEADER_END@ + parts.1@
            && is_first_occurrence(response@, HEADER_END@, parts.0@.len() as int),
{
    match split_once(response, HEADER_END) {
        Some(parts) => Ok(parts),
        None => Err(MalformedResponse),
    }
}

/// A header block, a blank line and a body, put together and split again,
/// give back the header block and the body, whenever the header block holds
/// no blank line and does not end in a line end. The body may hold anything.
pub proof fn lemma_split_joined(header_block: Seq<char>, body: Seq<char>)
    requires
        !occurs(header_block, HEADER_END@),
        !LINE_END@.is_suffix_of(header_block),
    ensures
        split_response(header_block + HEADER_END@ + body) == Some((header_block, body)),
{
    reveal_strlit("\r\n\r\n");
    reveal_strlit("\r\n");
    let pat = HEADER_END@;
    let n = header_block.len() as int;
    assert forall|j: int| 0 <= j < n implies !occurs_at(header_block + pat, pat, j) by {
        if occurs_at(header_block + pat, pat, j) {
            let w = (header_block + pat).subrange(j, j + 4);
            if j + 4 <= n {
                assert(header_block.subrange(j, j + 4) =~= w);
                assert(occurs_at(header_block, pat, j));
            } else if j + 3 == n {
                assert(w[3] == pat[0]);
            } else if j + 2 == n {
                assert(w[0] == header_block[n - 2]);
                assert(w[1] == header_block[n - 1]);
                assert(header_block.subrange(n - 2, n) =~= LINE_END@);
            } else {
                assert(w[1] == pat[0]);
            }
        }
    }
    lemma_split_first_joined(header_block, pat, body);
}

/// A response without a blank line has no split.
pub proof fn lemma_split_without_blank_line(raw: Seq<char>)
    requires
        !occurs(raw, HEADER_END@),
    ensures
        split_response(raw) is None,
{
}

} // verus!

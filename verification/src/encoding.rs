//! Facts about the UTF-8 encoding of a string that the search on bytes needs.

use vstd::prelude::*;
use vstd::utf8::*;

verus! {

/// The encoding of a concatenation is the concatenation of the encodings.
pub proof fn lemma_encode_concat(a: Seq<char>, b: Seq<char>)
    ensures
        encode_utf8(a + b) == encode_utf8(a) + encode_utf8(b),
    decreases a.len(),
{
    if a.len() == 0 {
        assert(a + b =~= b);
        assert(encode_utf8(a) + encode_utf8(b) =~= encode_utf8(b));
    } else {
        lemma_encode_concat(a.drop_first(), b);
        assert((a + b).drop_first() =~= a.drop_first() + b);
        assert((a + b)[0] == a[0]);
        assert(encode_utf8(a + b) =~= encode_utf8(a) + encode_utf8(b));
    }
}

/// Two strings with the same encoding are the same string.
pub proof fn lemma_encode_injective(a: Seq<char>, b: Seq<char>)
    requires
        encode_utf8(a) == encode_utf8(b),
    ensures
        a == b,
{
    encode_utf8_decode_utf8(a);
    encode_utf8_decode_utf8(b);
}

/// Every character takes at least one byte.
pub proof fn lemma_encode_len(a: Seq<char>)
    ensures
        a.len() <= encode_utf8(a).len(),
    decreases a.len(),
{
    if a.len() > 0 {
        lemma_encode_len(a.drop_first());
    }
}

/// Where well-formed bytes begin with a well-formed prefix, a character ends
/// where the prefix ends.
pub proof fn lemma_boundary_after_prefix(r: Seq<u8>, p: Seq<u8>)
    requires
        valid_utf8(r),
        valid_utf8(p),
        p.len() <= r.len(),
        r.subrange(0, p.len() as int) == p,
    ensures
        is_char_boundary(r, p.len() as int),
    decreases p.len(),
{
    if p.len() > 0 {
        let l = length_of_first_scalar(p);
        assert(forall|k: int| 0 <= k < p.len() ==> r[k] == r.subrange(0, p.len() as int)[k]);
        assert(length_of_first_scalar(r) == l);
        assert(l <= p.len());
        let r1 = pop_first_scalar(r);
        let p1 = pop_first_scalar(p);
        assert(r1.subrange(0, p1.len() as int) =~= p1);
        lemma_boundary_after_prefix(r1, p1);
    }
}

/// A well-formed byte string does not begin in the middle of a character.
pub proof fn lemma_first_byte_leads(p: Seq<u8>)
    requires
        valid_utf8(p),
        p.len() > 0,
    ensures
        !is_continuation_byte(p[0]),
{
}

} // verus!

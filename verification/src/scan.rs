//! Searching a string for a delimiter and cutting it there.
//!
//! The contracts speak of strings as sequences of characters. The code works
//! on the UTF-8 bytes, so this module also relates the two.

use vstd::prelude::*;
use vstd::string::*;
use vstd::utf8::*;
use crate::encoding::{
    lemma_boundary_after_prefix, lemma_encode_concat, lemma_encode_injective, lemma_encode_len,
    lemma_first_byte_leads,
};

verus! {

/// `pat` stands in `s` at index `i`.
pub open spec fn occurs_at<T>(s: Seq<T>, pat: Seq<T>, i: int) -> bool {
    0 <= i && i + pat.len() <= s.len() && s.subrange(i, i + pat.len()) == pat
}

/// `pat` stands somewhere in `s`.
pub open spec fn occurs<T>(s: Seq<T>, pat: Seq<T>) -> bool {
    exists|i: int| occurs_at(s, pat, i)
}

/// `pat` stands in `s` at index `i` and at no smaller index.
pub open spec fn is_first_occurrence<T>(s: Seq<T>, pat: Seq<T>, i: int) -> bool {
    occurs_at(s, pat, i) && forall|j: int| 0 <= j < i ==> !occurs_at(s, pat, j)
}

/// The smallest index at which `pat` stands in `s`, where it stands in `s` at all.
pub open spec fn first_occurrence<T>(s: Seq<T>, pat: Seq<T>) -> int {
    choose|i: int| is_first_occurrence(s, pat, i)
}

/// What stands before and after the first occurrence of `pat` in `s`;
/// `None` where `pat` does not occur.
pub open spec fn split_first(s: Seq<char>, pat: Seq<char>) -> Option<(Seq<char>, Seq<char>)> {
    if occurs(s, pat) {
        let i = first_occurrence(s, pat);
        Some((s.subrange(0, i), s.subrange(i + pat.len(), s.len() as int)))
    } else {
        None
    }
}

/// An index that is a first occurrence is the first occurrence.
pub proof fn lemma_first_occurrence_is<T>(s: Seq<T>, pat: Seq<T>, i: int)
    requires
        is_first_occurrence(s, pat, i),
    ensures
        occurs(s, pat),
        first_occurrence(s, pat) == i,
{
    let k = first_occurrence(s, pat);
    assert(is_first_occurrence(s, pat, k));
    if k < i {
        assert(!occurs_at(s, pat, k));
    } else if i < k {
        assert(!occurs_at(s, pat, i));
    }
}

proof fn lemma_least_occurrence<T>(s: Seq<T>, pat: Seq<T>, k: int)
    requires
        occurs_at(s, pat, k),
    ensures
        exists|i: int| is_first_occurrence(s, pat, i),
    decreases k,
{
    if exists|j: int| 0 <= j < k && occurs_at(s, pat, j) {
        let j = choose|j: int| 0 <= j < k && occurs_at(s, pat, j);
        lemma_least_occurrence(s, pat, j);
    } else {
        assert(is_first_occurrence(s, pat, k));
    }
}

/// Where `pat` occurs in `s`, `first_occurrence` is an occurrence with none before it.
pub proof fn lemma_first_occurrence_exists<T>(s: Seq<T>, pat: Seq<T>)
    requires
        occurs(s, pat),
    ensures
        is_first_occurrence(s, pat, first_occurrence(s, pat)),
{
    let k = choose|k: int| occurs_at(s, pat, k);
    lemma_least_occurrence(s, pat, k);
}

/// A first occurrence at `i` cuts `s` into what stands before `i` and what
/// stands after the occurrence.
pub proof fn lemma_split_first_at(s: Seq<char>, pat: Seq<char>, i: int)
    requires
        is_first_occurrence(s, pat, i),
    ensures
        split_first(s, pat) == Some(
            (s.subrange(0, i), s.subrange(i + pat.len(), s.len() as int)),
        ),
{
    lemma_first_occurrence_is(s, pat, i);
}

/// Where `before` ends in no beginning of `pat` that `pat` could complete, and
/// holds no `pat` itself, `before + pat + after` is cut into `before` and `after`.
pub proof fn lemma_split_first_joined(before: Seq<char>, pat: Seq<char>, after: Seq<char>)
    requires
        forall|j: int| 0 <= j < before.len() ==> !occurs_at(before + pat, pat, j),
    ensures
        split_first(before + pat + after, pat) == Some((before, after)),
{
    let s = before + pat + after;
    let n = before.len() as int;
    assert(s.subrange(n, n + pat.len()) =~= pat);
    assert forall|j: int| 0 <= j < n implies !occurs_at(s, pat, j) by {
        if occurs_at(s, pat, j) {
            assert((before + pat).subrange(j, j + pat.len()) =~= s.subrange(j, j + pat.len()));
            assert(occurs_at(before + pat, pat, j));
        }
    }
    lemma_split_first_at(s, pat, n);
    assert(s.subrange(0, n) =~= before);
    assert(s.subrange(n + pat.len(), s.len() as int) =~= after);
}

/// What `split_first` cuts off: the two sides put `s` together again around
/// `pat`, and `pat` stands nowhere in `s` before the end of the first side.
pub proof fn lemma_split_first_parts(s: Seq<char>, pat: Seq<char>)
    requires
        occurs(s, pat),
    ensures
        split_first(s, pat) matches Some(parts) && s == parts.0 + pat + parts.1
            && is_first_occurrence(s, pat, parts.0.len() as int),
{
    lemma_first_occurrence_exists(s, pat);
    let i = first_occurrence(s, pat);
    let before = s.subrange(0, i);
    let after = s.subrange(i + pat.len(), s.len() as int);
    assert(s =~= before + s.subrange(i, i + pat.len()) + after);
}

/// Whether `pat` stands in `s` at index `i`.
fn matches_at(s: &[u8], pat: &[u8], i: usize) -> (r: bool)
    requires
        i + pat@.len() <= s@.len(),
    ensures
        r == occurs_at(s@, pat@, i as int),
{
    let n: usize = s.len();
    let m: usize = pat.len();
    let mut k: usize = 0;
    while k < m
        invariant
            n == s@.len(),
            m == pat@.len(),
            i + m <= n,
            k <= m,
            forall|x: int| 0 <= x < k ==> s@[i + x] == pat@[x],
        decreases m - k,
    {
        if s[i + k] != pat[k] {
            proof {
                let w = s@.subrange(i as int, i + m);
                assert(w[k as int] == s@[i + k]);
            }
            return false;
        }
        k += 1;
    }
    assert(s@.subrange(i as int, i + m) =~= pat@);
    true
}

/// The first index at which `pat` stands in `s`.
pub fn find_bytes(s: &[u8], pat: &[u8]) -> (r: Option<usize>)
    ensures
        r is Some <==> occurs(s@, pat@),
        r matches Some(i) ==> is_first_occurrence(s@, pat@, i as int),
{
    let n: usize = s.len();
    let m: usize = pat.len();
    if m > n {
        return None;
    }
    let last: usize = n - m;
    let mut i: usize = 0;
    loop
        invariant
            n == s@.len(),
            m == pat@.len(),
            last == n - m,
            i <= last,
            forall|j: int| 0 <= j < i ==> !occurs_at(s@, pat@, j),
        decreases last - i,
    {
        if matches_at(s, pat, i) {
            return Some(i);
        }
        if i == last {
            return None;
        }
        i += 1;
    }
}

/// An occurrence among the characters is an occurrence among the bytes,
/// at the length of what is encoded before it.
pub proof fn lemma_occurrence_encodes(s: Seq<char>, pat: Seq<char>, j: int)
    requires
        occurs_at(s, pat, j),
    ensures
        occurs_at(encode_utf8(s), encode_utf8(pat), encode_utf8(s.subrange(0, j)).len() as int),
{
    let a = s.subrange(0, j);
    let c = s.subrange(j + pat.len(), s.len() as int);
    assert(s =~= (a + pat) + c);
    lemma_encode_concat(a + pat, c);
    lemma_encode_concat(a, pat);
    let ea = encode_utf8(a);
    let ep = encode_utf8(pat);
    assert(encode_utf8(s).subrange(ea.len() as int, (ea.len() + ep.len()) as int) =~= ep);
}

/// A first occurrence among the bytes, cut out on character boundaries, is
/// the first occurrence among the characters.
pub proof fn lemma_split_encoded(
    s: Seq<char>,
    pat: Seq<char>,
    i: int,
    head: Seq<char>,
    tail: Seq<char>,
)
    requires
        is_first_occurrence(encode_utf8(s), encode_utf8(pat), i),
        encode_utf8(head) == encode_utf8(s).subrange(0, i),
        encode_utf8(tail) == encode_utf8(s).subrange(
            i + encode_utf8(pat).len(),
            encode_utf8(s).len() as int,
        ),
    ensures
        s == head + pat + tail,
        is_first_occurrence(s, pat, head.len() as int),
{
    let es = encode_utf8(s);
    let ep = encode_utf8(pat);
    lemma_encode_concat(head + pat, tail);
    lemma_encode_concat(head, pat);
    assert(es =~= (encode_utf8(head) + ep) + encode_utf8(tail));
    lemma_encode_injective(s, head + pat + tail);
    let h = head.len() as int;
    assert(s.subrange(h, h + pat.len()) =~= pat);
    assert forall|j: int| 0 <= j < h implies !occurs_at(s, pat, j) by {
        if occurs_at(s, pat, j) {
            lemma_occurrence_encodes(s, pat, j);
            let a = s.subrange(0, j);
            let b = head.subrange(j, h);
            assert(head =~= a + b);
            lemma_encode_concat(a, b);
            lemma_encode_len(b);
            assert(encode_utf8(a).len() < i);
        }
    }
}

/// Cuts `s` at the first occurrence of `pat`: what stands before it and what
/// stands after it, or `None` where `pat` does not occur in `s`.
pub fn split_once<'a>(s: &'a str, pat: &str) -> (r: Option<(&'a str, &'a str)>)
    ensures
        r is Some <==> occurs(s@, pat@),
        r matches Some(parts) ==> split_first(s@, pat@) == Some((parts.0@, parts.1@)),
        r matches Some(parts) ==> s@ == parts.0@ + pat@ + parts.1@ && is_first_occurrence(
            s@,
            pat@,
            parts.0@.len() as int,
        ),
{
    let pb = pat.as_bytes();
    let found = find_bytes(s.as_bytes(), pb);
    proof {
        encode_utf8_valid_utf8(s@);
        encode_utf8_valid_utf8(pat@);
    }
    match found {
        None => {
            proof {
                if occurs(s@, pat@) {
                    let j = choose|j: int| occurs_at(s@, pat@, j);
                    lemma_occurrence_encodes(s@, pat@, j);
                }
            }
            None
        },
        Some(i) => {
            let ghost es = encode_utf8(s@);
            let ghost ep = encode_utf8(pat@);
            proof {
                if i < es.len() {
                    if ep.len() > 0 {
                        lemma_first_byte_leads(ep);
                        assert(es.subrange(i as int, i + ep.len())[0] == es[i as int]);
                        is_char_boundary_iff_not_is_continuation_byte(es, i as int);
                    } else {
                        assert(occurs_at(es, ep, 0)) by {
                            assert(es.subrange(0, 0) =~= ep);
                        }
                    }
                } else {
                    is_char_boundary_start_end_of_seq(es);
                }
            }
            let (head, rest) = s.split_at(i);
            proof {
                encode_utf8_valid_utf8(rest@);
                let er = encode_utf8(rest@);
                assert(er.subrange(0, ep.len() as int) =~= ep);
                lemma_boundary_after_prefix(er, ep);
            }
            let (_, tail) = rest.split_at(pb.len());
            proof {
                assert(encode_utf8(tail@) =~= es.subrange(i + ep.len(), es.len() as int));
                lemma_split_encoded(s@, pat@, i as int, head@, tail@);
                lemma_first_occurrence_is(s@, pat@, head@.len() as int);
                assert(s@.subrange(0, head@.len() as int) =~= head@);
                assert(s@.subrange((head@.len() + pat@.len()) as int, s@.len() as int) =~= tail@);
            }
            Some((head, tail))
        },
    }
}

/// Whether two strings hold the same characters.
pub fn str_eq(a: &str, b: &str) -> (r: bool)
    ensures
        r == (a@ == b@),
{
    let x = a.as_bytes();
    let y = b.as_bytes();
    if x.len() != y.len() {
        return false;
    }
    let r = matches_at(x, y, 0);
    proof {
        assert(x@.subrange(0, x@.len() as int) =~= x@);
        if r {
            lemma_encode_injective(a@, b@);
        }
    }
    r
}

} // verus!

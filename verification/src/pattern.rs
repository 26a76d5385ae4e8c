//! Literal substring matching.

use vstd::prelude::*;
use vstd::utf8::*;
use vstd::string::StringSliceAdditionalSpecFns;
use crate::encoding::{lemma_encode_concat, lemma_valid_prefix_is_boundary};

verus! {

/// `needle` sits in `hay` at offset `at`.
pub open spec fn occurs_at<T>(needle: Seq<T>, hay: Seq<T>, at: int) -> bool {
    &&& 0 <= at
    &&& at + needle.len() <= hay.len()
    &&& hay.subrange(at, at + needle.len()) == needle
}

/// `needle` sits somewhere in `hay` as one contiguous run.
pub open spec fn occurs_in<T>(needle: Seq<T>, hay: Seq<T>) -> bool {
    exists|at: int| occurs_at(needle, hay, at)
}

/// A run of characters occurs in a text exactly when its bytes occur in the
/// bytes of the text.
pub proof fn lemma_occurs_in_bytes(needle: Seq<char>, hay: Seq<char>)
    ensures
        occurs_in(encode_utf8(needle), encode_utf8(hay)) <==> occurs_in(needle, hay),
{
    let nb = encode_utf8(needle);
    let hb = encode_utf8(hay);
    encode_utf8_valid_utf8(needle);
    encode_utf8_valid_utf8(hay);
    encode_utf8_decode_utf8(needle);
    encode_utf8_decode_utf8(hay);
    if occurs_in(needle, hay) {
        let at = choose|at: int| occurs_at(needle, hay, at);
        let front = hay.take(at);
        let back = hay.skip(at + needle.len());
        assert(hay =~= front + needle + back);
        lemma_encode_concat(front, needle);
        lemma_encode_concat(front + needle, back);
        let p = encode_utf8(front).len() as int;
        assert(hb.subrange(p, p + nb.len()) =~= nb);
        assert(occurs_at(nb, hb, p));
    }
    if occurs_in(nb, hb) {
        if needle.len() == 0 {
            assert(hay.subrange(0, 0) =~= needle);
            assert(occurs_at(needle, hay, 0));
        } else {
            let p = choose|p: int| occurs_at(nb, hb, p);
            assert(nb.len() > 0) by {
                assert(needle =~= decode_utf8(nb));
            }
            assert(hb[p] == hb.subrange(p, p + nb.len())[0]);
            assert(!is_continuation_byte(nb[0]));
            is_char_boundary_iff_not_is_continuation_byte(hb, p);
            valid_utf8_split(hb, p);
            decode_utf8_split(hb, p);
            let front = hb.subrange(0, p);
            let rest = hb.subrange(p, hb.len() as int);
            assert(rest.subrange(0, nb.len() as int) =~= nb);
            lemma_valid_prefix_is_boundary(rest, nb.len() as int);
            valid_utf8_split(rest, nb.len() as int);
            decode_utf8_split(rest, nb.len() as int);
            let back = rest.subrange(nb.len() as int, rest.len() as int);
            let at = decode_utf8(front).len() as int;
            assert(hay =~= decode_utf8(front) + (needle + decode_utf8(back)));
            assert(hay.subrange(at, at + needle.len()) =~= needle);
            assert(occurs_at(needle, hay, at));
        }
    }
}

/// Whether `needle` sits in `hay` at offset `at`.
pub fn occurs_at_offset(needle: &[u8], hay: &[u8], at: usize) -> (found: bool)
    ensures
        found == occurs_at(needle@, hay@, at as int),
{
    let n = needle.len();
    if n > hay.len() || at > hay.len() - n {
        return false;
    }
    let ghost window = hay@.subrange(at as int, at + n);
    let mut k: usize = 0;
    while k < n
        invariant
            n == needle@.len(),
            k <= n,
            at + n <= hay@.len() <= usize::MAX,
            window == hay@.subrange(at as int, at + n),
            forall|j: int| 0 <= j < k ==> hay@[at + j] == needle@[j],
        decreases n - k,
    {
        if hay[at + k] != needle[k] {
            assert(window[k as int] == hay@[at + k]);
            return false;
        }
        k += 1;
    }
    assert(window =~= needle@);
    true
}

/// Whether `needle` sits anywhere in `hay`.
pub fn occurs(needle: &[u8], hay: &[u8]) -> (found: bool)
    ensures
        found == occurs_in(needle@, hay@),
{
    let n = needle.len();
    let h = hay.len();
    if n > h {
        return false;
    }
    let last = h - n;
    let mut at: usize = 0;
    loop
        invariant
            n == needle@.len(),
            h == hay@.len(),
            n <= h,
            last == h - n,
            at <= last,
            forall|j: int| 0 <= j < at ==> !occurs_at(needle@, hay@, j),
        decreases last - at,
    {
        if occurs_at_offset(needle, hay, at) {
            return true;
        }
        if at == last {
            return false;
        }
        at += 1;
    }
}

/// Whether `hay` holds `needle` as a literal substring. The comparison is
/// exact: characters match only themselves. An empty `needle` is held by
/// every text.
pub fn contains(hay: &str, needle: &str) -> (found: bool)
    ensures
        found == occurs_in(needle@, hay@),
{
    proof {
        lemma_occurs_in_bytes(needle@, hay@);
    }
    occurs(needle.as_bytes(), hay.as_bytes())
}

} // verus!

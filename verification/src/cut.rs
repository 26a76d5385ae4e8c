//! Cutting a string at the first occurrence of a delimiter.

use vstd::prelude::*;
use vstd::utf8::*;
use vstd::string::StringSliceAdditionalSpecFns;
use crate::encoding::{
    lemma_byte_offset_increases, lemma_bytes_around, lemma_encode_single_byte, lemma_same_bytes,
    lemma_single_byte_is_char, lemma_valid_prefix_is_boundary, single_byte,
};

verus! {

/// Length of the longest prefix of `text` in which `stop` does not occur.
pub open spec fn run_len(text: Seq<char>, stop: char) -> nat
    decreases text.len(),
{
    if text.len() == 0 || text[0] == stop {
        0
    } else {
        1 + run_len(text.drop_first(), stop)
    }
}

/// What stands in `text` in front of its first `stop`: all of it where `stop`
/// does not occur.
pub open spec fn before_first(text: Seq<char>, stop: char) -> Seq<char> {
    text.take(run_len(text, stop) as int)
}

/// What follows the first `stop` in a `text` that holds one.
pub open spec fn after_first(text: Seq<char>, stop: char) -> Seq<char>
    recommends
        text.contains(stop),
{
    text.skip(run_len(text, stop) as int + 1)
}

/// `run_len` is the position of the first `stop`, or the length of the text
/// where there is none.
pub proof fn lemma_run_len(text: Seq<char>, stop: char)
    ensures
        run_len(text, stop) <= text.len(),
        forall|j: int| 0 <= j < run_len(text, stop) ==> text[j] != stop,
        run_len(text, stop) < text.len() ==> text[run_len(text, stop) as int] == stop,
        run_len(text, stop) < text.len() <==> text.contains(stop),
    decreases text.len(),
{
    if !(text.len() == 0 || text[0] == stop) {
        let rest = text.drop_first();
        lemma_run_len(rest, stop);
        assert forall|j: int| 0 <= j < run_len(text, stop) implies text[j] != stop by {
            if j > 0 {
                assert(text[j] == rest[j - 1]);
            }
        }
    }
}

/// The only position that no `stop` precedes and that holds a `stop`, or ends
/// the text, is `run_len`.
pub proof fn lemma_run_len_is(text: Seq<char>, stop: char, k: int)
    requires
        0 <= k <= text.len(),
        forall|j: int| 0 <= j < k ==> text[j] != stop,
        k < text.len() ==> text[k] == stop,
    ensures
        run_len(text, stop) == k,
{
    lemma_run_len(text, stop);
}

/// Position of the first `target` among `bytes`.
pub fn first_index_of(bytes: &[u8], target: u8) -> (at: Option<usize>)
    ensures
        match at {
            Some(i) => i < bytes@.len() && bytes@[i as int] == target && forall|j: int|
                0 <= j < i ==> bytes@[j] != target,
            None => forall|j: int| 0 <= j < bytes@.len() ==> bytes@[j] != target,
        },
{
    let n = bytes.len();
    let mut i: usize = 0;
    while i < n
        invariant
            n == bytes@.len(),
            i <= n,
            forall|j: int| 0 <= j < i ==> bytes@[j] != target,
        decreases n - i,
    {
        if bytes[i] == target {
            return Some(i);
        }
        i += 1;
    }
    None
}

/// Cuts `text` around the first occurrence of the single-byte character
/// `stop`: what stands in front of it, and what follows it. `None` where
/// `stop` does not occur.
pub(crate) fn cut_at_first<'a>(text: &'a str, stop: u8) -> (parts: Option<(&'a str, &'a str)>)
    requires
        stop < 0x80,
    ensures
        match parts {
            Some((head, tail)) => {
                &&& text@.contains(stop as char)
                &&& head@ == before_first(text@, stop as char)
                &&& tail@ == after_first(text@, stop as char)
            },
            None => !text@.contains(stop as char),
        },
{
    let bytes = text.as_bytes();
    let ghost chars = text@;
    let ghost c = stop as char;
    proof {
        encode_utf8_valid_utf8(chars);
        assert(single_byte(c) && c as u8 == stop);
    }
    match first_index_of(bytes, stop) {
        None => {
            proof {
                assert forall|j: int| 0 <= j < chars.len() implies chars[j] != c by {
                    lemma_bytes_around(chars, j);
                }
                lemma_run_len_is(chars, c, chars.len() as int);
                lemma_run_len(chars, c);
            }
            None
        },
        Some(i) => {
            let ghost k = lemma_single_byte_is_char(chars, i as int);
            proof {
                assert(chars[k] == c);
                assert forall|j: int| 0 <= j < k implies chars[j] != c by {
                    lemma_bytes_around(chars, j);
                    lemma_byte_offset_increases(chars, j, k);
                }
                lemma_run_len_is(chars, c, k);
                lemma_run_len(chars, c);
                lemma_bytes_around(chars, k);
                encode_utf8_valid_utf8(chars.take(k));
                lemma_valid_prefix_is_boundary(bytes@, i as int);
            }
            let (head, rest) = text.split_at(i);
            proof {
                let rb = rest.spec_bytes();
                encode_utf8_valid_utf8(rest@);
                encode_utf8_valid_utf8(seq![c]);
                lemma_encode_single_byte(c);
                assert(rb.subrange(0, 1) =~= seq![stop]);
                lemma_valid_prefix_is_boundary(rb, 1);
            }
            let (_, tail) = rest.split_at(1);
            proof {
                assert(tail.spec_bytes() =~= bytes@.subrange(i + 1, bytes@.len() as int));
                lemma_same_bytes(head@, chars.take(k));
                lemma_same_bytes(tail@, chars.skip(k + 1));
            }
            Some((head, tail))
        },
    }
}

} // verus!

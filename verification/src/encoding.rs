//! Facts that tie the characters of a string to the bytes that store it.
//!
//! Strings are viewed as sequences of characters, but they are scanned and
//! cut byte by byte. The lemmas here carry a position found among the bytes
//! over to the characters, and back.

use vstd::prelude::*;
use vstd::utf8::*;

verus! {

/// A character stored in a single byte.
pub open spec fn single_byte(c: char) -> bool {
    (c as u32) < 0x80
}

/// Number of bytes that store the first `k` characters of `chars`.
pub open spec fn byte_offset(chars: Seq<char>, k: int) -> int {
    encode_utf8(chars.take(k)).len() as int
}

/// The bytes of a concatenation are the bytes of its parts, one after the other.
pub proof fn lemma_encode_concat(a: Seq<char>, b: Seq<char>)
    ensures
        encode_utf8(a + b) == encode_utf8(a) + encode_utf8(b),
    decreases a.len(),
{
    if a.len() == 0 {
        assert(a + b =~= b);
        assert(encode_utf8(a) + encode_utf8(b) =~= encode_utf8(b));
    } else {
        lemma_encode_concat(a.drop_first(), b);
        assert((a + b).drop_first() =~= a.drop_first() + b);
        assert(encode_utf8(a + b) =~= encode_utf8(a) + encode_utf8(b));
    }
}

/// A single-byte character is stored as the byte of the same value.
pub proof fn lemma_encode_single_byte(c: char)
    requires
        single_byte(c),
    ensures
        encode_utf8(seq![c]) == seq![c as u8],
{
    let v = c as u32;
    assert((v & 0x7F) as u8 == v as u8) by (bit_vector)
        requires
            v < 0x80,
    ;
    assert(seq![c].drop_first() =~= Seq::<char>::empty());
    reveal_with_fuel(encode_utf8, 2);
    assert(encode_utf8(seq![c]) =~= seq![c as u8]);
}

/// Cutting `chars` in front of its `k`-th character cuts its bytes at
/// `byte_offset(chars, k)`; where that character is a single byte, it is the
/// byte found there.
pub proof fn lemma_bytes_around(chars: Seq<char>, k: int)
    requires
        0 <= k < chars.len(),
    ensures
        0 <= byte_offset(chars, k) < byte_offset(chars, k + 1) <= encode_utf8(chars).len(),
        encode_utf8(chars).subrange(0, byte_offset(chars, k)) == encode_utf8(chars.take(k)),
        encode_utf8(chars).subrange(byte_offset(chars, k + 1), encode_utf8(chars).len() as int)
            == encode_utf8(chars.skip(k + 1)),
        single_byte(chars[k]) ==> {
            &&& byte_offset(chars, k + 1) == byte_offset(chars, k) + 1
            &&& encode_utf8(chars)[byte_offset(chars, k)] == chars[k] as u8
        },
{
    let head = chars.take(k);
    let mid = seq![chars[k]];
    let tail = chars.skip(k + 1);
    assert(chars =~= head + mid + tail);
    assert(chars.take(k + 1) =~= head + mid);
    lemma_encode_concat(head, mid);
    lemma_encode_concat(head + mid, tail);
    assert(mid.drop_first() =~= Seq::<char>::empty());
    reveal_with_fuel(encode_utf8, 2);
    assert(encode_utf8(mid) =~= encode_scalar(chars[k] as u32));
    assert(encode_utf8(mid).len() >= 1);
    let bytes = encode_utf8(chars);
    assert(bytes.subrange(0, byte_offset(chars, k)) =~= encode_utf8(head));
    assert(bytes.subrange(byte_offset(chars, k + 1), bytes.len() as int) =~= encode_utf8(tail));
    if single_byte(chars[k]) {
        lemma_encode_single_byte(chars[k]);
    }
}

/// Byte offsets grow with character positions.
pub proof fn lemma_byte_offset_increases(chars: Seq<char>, j: int, k: int)
    requires
        0 <= j < k <= chars.len(),
    ensures
        byte_offset(chars, j) < byte_offset(chars, k),
    decreases k - j,
{
    lemma_bytes_around(chars, k - 1);
    if j < k - 1 {
        lemma_byte_offset_increases(chars, j, k - 1);
    }
}

/// Texts stored as the same bytes are the same text.
pub proof fn lemma_same_bytes(a: Seq<char>, b: Seq<char>)
    requires
        encode_utf8(a) == encode_utf8(b),
    ensures
        a == b,
{
    encode_utf8_decode_utf8(a);
    encode_utf8_decode_utf8(b);
}

/// Where a valid byte string starts with another valid byte string, the
/// shorter one ends on a character boundary of the longer one.
pub proof fn lemma_valid_prefix_is_boundary(bytes: Seq<u8>, k: int)
    requires
        0 <= k <= bytes.len(),
        valid_utf8(bytes),
        valid_utf8(bytes.subrange(0, k)),
    ensures
        is_char_boundary(bytes, k),
    decreases bytes.len(),
{
    if k != 0 {
        let prefix = bytes.subrange(0, k);
        let width = length_of_first_scalar(bytes);
        assert(prefix[0] == bytes[0]);
        assert(length_of_first_scalar(prefix) == width);
        assert(pop_first_scalar(prefix) =~= pop_first_scalar(bytes).subrange(0, k - width));
        lemma_valid_prefix_is_boundary(pop_first_scalar(bytes), k - width);
    }
}

/// A byte below 0x80 inside the bytes of `chars` is one whole character:
/// the bytes in front of it store the characters in front of that character.
pub proof fn lemma_single_byte_is_char(chars: Seq<char>, at: int) -> (k: int)
    requires
        0 <= at < encode_utf8(chars).len(),
        encode_utf8(chars)[at] < 0x80,
    ensures
        0 <= k < chars.len(),
        byte_offset(chars, k) == at,
        single_byte(chars[k]),
        chars[k] == encode_utf8(chars)[at] as char,
{
    let bytes = encode_utf8(chars);
    let front = bytes.subrange(0, at);
    let back = bytes.subrange(at, bytes.len() as int);
    encode_utf8_valid_utf8(chars);
    encode_utf8_decode_utf8(chars);
    is_char_boundary_iff_not_is_continuation_byte(bytes, at);
    valid_utf8_split(bytes, at);
    decode_utf8_split(bytes, at);
    decode_utf8_encode_utf8(front);
    let k = decode_utf8(front).len() as int;
    let b = back[0];
    assert(b == bytes[at]);
    assert((b & 0x7F) as u32 == b as u32) by (bit_vector)
        requires
            b < 0x80,
    ;
    assert(decode_utf8(back)[0] == decode_first_scalar(back) as char);
    assert(chars[k] == decode_utf8(back)[0]);
    assert(chars.take(k) =~= decode_utf8(front));
    k
}

} // verus!

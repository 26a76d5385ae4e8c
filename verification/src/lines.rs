//! Splitting a text into its lines.
//!
//! A line ends at a line feed, or at the end of the text. The line feed is
//! not part of the line, and neither is a carriage return that stands
//! directly in front of it. A text that ends in a line feed has no empty line
//! after it, and the empty text has no line at all.

use vstd::prelude::*;
use vstd::utf8::*;
use crate::cut::{after_first, before_first, cut_at_first, lemma_run_len};
use crate::encoding::{
    lemma_byte_offset_increases, lemma_bytes_around, lemma_same_bytes, lemma_single_byte_is_char,
    lemma_valid_prefix_is_boundary,
};

verus! {

/// The texts of a sequence of string slices.
pub open spec fn texts(slices: Seq<&str>) -> Seq<Seq<char>> {
    slices.map_values(|s: &str| s@)
}

/// `line` without the carriage return at its end, if it has one there.
pub open spec fn without_trailing_cr(line: Seq<char>) -> Seq<char> {
    if line.len() > 0 && line.last() == '\r' {
        line.drop_last()
    } else {
        line
    }
}

/// The lines of `text`, first to last.
pub open spec fn split_lines(text: Seq<char>) -> Seq<Seq<char>>
    decreases text.len(),
    via split_lines_shrinks
{
    if text.len() == 0 {
        Seq::empty()
    } else if text.contains('\n') {
        seq![without_trailing_cr(before_first(text, '\n'))] + split_lines(after_first(text, '\n'))
    } else {
        seq![text]
    }
}

#[via_fn]
proof fn split_lines_shrinks(text: Seq<char>) {
    lemma_run_len(text, '\n');
}

/// No line holds a line feed.
pub proof fn lemma_lines_hold_no_line_feed(text: Seq<char>, i: int)
    requires
        0 <= i < split_lines(text).len(),
    ensures
        !split_lines(text)[i].contains('\n'),
    decreases text.len(),
{
    lemma_run_len(text, '\n');
    if text.contains('\n') {
        let first = before_first(text, '\n');
        if i == 0 {
            let line = without_trailing_cr(first);
            if line.contains('\n') {
                let at = choose|at: int| 0 <= at < line.len() && line[at] == '\n';
                assert(first[at] == '\n');
                assert(text[at] == '\n');
            }
        } else {
            lemma_lines_hold_no_line_feed(after_first(text, '\n'), i - 1);
        }
    }
}

/// `line` without the carriage return at its end, if it has one there.
pub fn trim_trailing_cr<'a>(line: &'a str) -> (trimmed: &'a str)
    ensures
        trimmed@ == without_trailing_cr(line@),
{
    let bytes = line.as_bytes();
    let n = bytes.len();
    let ghost chars = line@;
    proof {
        encode_utf8_valid_utf8(chars);
        assert(chars.take(chars.len() as int) =~= chars);
    }
    if n > 0 && bytes[n - 1] == 0x0D {
        let ghost k = lemma_single_byte_is_char(chars, n - 1);
        proof {
            lemma_bytes_around(chars, k);
            if k + 1 < chars.len() {
                lemma_byte_offset_increases(chars, k + 1, chars.len() as int);
            }
            assert(chars.take(k) =~= chars.drop_last());
            encode_utf8_valid_utf8(chars.take(k));
            lemma_valid_prefix_is_boundary(bytes@, n - 1);
        }
        let (trimmed, _) = line.split_at(n - 1);
        proof {
            lemma_same_bytes(trimmed@, chars.drop_last());
        }
        trimmed
    } else {
        proof {
            if chars.len() > 0 && chars.last() == '\r' {
                lemma_bytes_around(chars, chars.len() - 1);
            }
        }
        line
    }
}

/// The lines of `text`, first to last, each a slice of `text`.
pub fn lines<'a>(text: &'a str) -> (out: Vec<&'a str>)
    ensures
        texts(out@) == split_lines(text@),
{
    let mut out: Vec<&'a str> = Vec::new();
    let mut rest: &'a str = text;
    assert(texts(out@) + split_lines(rest@) =~= split_lines(text@));
    loop
        invariant_except_break
            texts(out@) + split_lines(rest@) == split_lines(text@),
        ensures
            texts(out@) == split_lines(text@),
        decreases rest@.len(),
    {
        if rest.is_empty() {
            assert(texts(out@) + split_lines(rest@) =~= texts(out@));
            break;
        }
        let ghost before = out@;
        match cut_at_first(rest, 0x0A) {
            None => {
                out.push(rest);
                assert(texts(out@) =~= texts(before) + split_lines(rest@));
                break;
            },
            Some((head, tail)) => {
                proof {
                    lemma_run_len(rest@, '\n');
                }
                let line = trim_trailing_cr(head);
                out.push(line);
                assert(texts(out@) + split_lines(tail@) =~= texts(before) + split_lines(rest@));
                rest = tail;
            },
        }
    }
    out
}

} // verus!

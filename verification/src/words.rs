//! Picking pieces out of a text: its first word, the last character of its
//! first line, the longer of two texts.

use vstd::prelude::*;
use vstd::string::{StrSliceExecFns, StringSliceAdditionalSpecFns};
use crate::cut::{before_first, cut_at_first, lemma_run_len};
use crate::lines::{split_lines, trim_trailing_cr};

verus! {

/// The first word of `s`: what stands in front of its first space, all of
/// `s` where it holds no space.
pub fn first_word(s: &str) -> (word: &str)
    ensures
        word@ == before_first(s@, ' '),
{
    match cut_at_first(s, 0x20) {
        Some((head, _)) => head,
        None => {
            proof {
                lemma_run_len(s@, ' ');
                assert(s@.take(s@.len() as int) =~= s@);
            }
            s
        },
    }
}

/// The longer of `x` and `y`, measured in bytes; `x` where both are of the
/// same length.
pub fn longest<'a>(x: &'a str, y: &'a str) -> (longer: &'a str)
    ensures
        longer == if x.spec_bytes().len() >= y.spec_bytes().len() {
            x
        } else {
            y
        },
{
    if x.as_bytes().len() >= y.as_bytes().len() {
        x
    } else {
        y
    }
}

/// The last character of the first line of `text`, if there is one.
pub open spec fn last_of_first_line(text: Seq<char>) -> Option<char> {
    let all = split_lines(text);
    if all.len() == 0 || all[0].len() == 0 {
        None
    } else {
        Some(all[0].last())
    }
}

/// The last character of the first line of `text`. `None` where `text` is
/// empty, and where its first line is.
pub fn last_char_of_first_line(text: &str) -> (last: Option<char>)
    ensures
        last == last_of_first_line(text@),
{
    if text.is_empty() {
        return None;
    }
    let line = match cut_at_first(text, 0x0A) {
        Some((head, _)) => trim_trailing_cr(head),
        None => text,
    };
    assert(line@ == split_lines(text@)[0]);
    let n = line.unicode_len();
    if n == 0 {
        None
    } else {
        Some(line.get_char(n - 1))
    }
}

} // verus!

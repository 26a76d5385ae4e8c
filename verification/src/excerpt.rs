//! A passage held by reference, and text that lives as long as the program.

use vstd::prelude::*;

verus! {

/// A passage of a longer text.
#[derive(Debug)]
pub struct ImportantExcerpt<'a> {
    pub part: &'a str,
}

impl<'a> ImportantExcerpt<'a> {
    /// The level of importance, which is 3 for every excerpt.
    pub fn level(&self) -> (level: i32)
        ensures
            level == 3,
    {
        3
    }
}

/// A text that is part of the program itself.
pub fn get_static_str() -> (text: &'static str)
    ensures
        text@ == "私は 'static ライフタイムを持つ文字列リテラルです"@,
{
    "私は 'static ライフタイムを持つ文字列リテラルです"
}

} // verus!

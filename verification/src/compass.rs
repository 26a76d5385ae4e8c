//! The four points of the compass.

use vstd::prelude::*;

verus! {

/// The name of the point of the compass that `c` stands for.
pub open spec fn direction_name(c: char) -> Seq<char> {
    if c == 'N' {
        "北"@
    } else if c == 'S' {
        "南"@
    } else if c == 'E' {
        "東"@
    } else {
        "西"@
    }
}

/// The name of the point of the compass that `c` stands for, where `c` is one
/// of `N`, `S`, `E` and `W`.
pub fn direction_from_char(c: char) -> (name: &'static str)
    requires
        c == 'N' || c == 'S' || c == 'E' || c == 'W',
    ensures
        name@ == direction_name(c),
{
    if c == 'N' {
        "北"
    } else if c == 'S' {
        "南"
    } else if c == 'E' {
        "東"
    } else {
        "西"
    }
}

} // verus!

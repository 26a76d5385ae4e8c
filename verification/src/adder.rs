//! Small arithmetic and geometry helpers.

use vstd::prelude::*;
use vstd::string::StringExecFns;

verus! {

/// An axis-aligned rectangle.
#[derive(Debug)]
pub struct Rectangle {
    pub width: u32,
    pub height: u32,
}

impl Rectangle {
    /// Whether `other` fits inside `self` with room to spare on both axes.
    pub fn can_hold(&self, other: &Rectangle) -> (holds: bool)
        ensures
            holds == (self.width > other.width && self.height > other.height),
    {
        self.width > other.width && self.height > other.height
    }
}

/// The sum of `left` and `right`.
pub fn add(left: u64, right: u64) -> (sum: u64)
    requires
        left + right <= u64::MAX,
    ensures
        sum == left + right,
{
    left + right
}

/// `a` plus two.
pub fn add_two(a: i32) -> (sum: i32)
    requires
        a + 2 <= i32::MAX,
    ensures
        sum == a + 2,
{
    a + 2
}

/// The sum of `a` and `b`.
pub fn internal_adder(a: i32, b: i32) -> (sum: i32)
    requires
        i32::MIN <= a + b <= i32::MAX,
    ensures
        sum == a + b,
{
    a + b
}

/// Adds `amount` to every number of `numbers`.
pub fn add_to_each(numbers: &mut Vec<i32>, amount: i32)
    requires
        forall|i: int|
            0 <= i < old(numbers)@.len() ==> i32::MIN <= #[trigger] old(numbers)@[i] + amount
                <= i32::MAX,
    ensures
        final(numbers)@.len() == old(numbers)@.len(),
        forall|i: int|
            0 <= i < old(numbers)@.len() ==> #[trigger] final(numbers)@[i] == old(numbers)@[i]
                + amount,
{
    let n = numbers.len();
    let mut k: usize = 0;
    while k < n
        invariant
            n == old(numbers)@.len(),
            numbers@.len() == n,
            k <= n,
            forall|i: int| 0 <= i < k ==> #[trigger] numbers@[i] == old(numbers)@[i] + amount,
            forall|i: int| k <= i < n ==> #[trigger] numbers@[i] == old(numbers)@[i],
            forall|i: int|
                0 <= i < n ==> i32::MIN <= #[trigger] old(numbers)@[i] + amount <= i32::MAX,
        decreases n - k,
    {
        let raised = numbers[k] + amount;
        numbers.set(k, raised);
        k += 1;
    }
}

/// The text of the greeting for `name`.
pub open spec fn greeting_text(name: Seq<char>) -> Seq<char> {
    "Hello "@ + name + "!"@
}

/// A greeting that addresses `name`.
pub fn greeting(name: &str) -> (text: String)
    ensures
        text@ == greeting_text(name@),
{
    let mut text = String::from_str("Hello ");
    text.append(name);
    text.append("!");
    text
}

} // verus!

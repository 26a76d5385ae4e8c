//! Handing out shirts from a stock of two colors.

use vstd::prelude::*;

verus! {

/// The color of a shirt.
#[derive(Debug, PartialEq, Copy, Clone)]
pub enum ShirtColor {
    Red,
    Blue,
}

/// The shirts in stock.
pub struct Inventory {
    pub shirts: Vec<ShirtColor>,
}

/// Number of red shirts among `shirts`.
pub open spec fn red_count(shirts: Seq<ShirtColor>) -> nat {
    shirts.filter(|c: ShirtColor| c is Red).len()
}

/// Number of blue shirts among `shirts`.
pub open spec fn blue_count(shirts: Seq<ShirtColor>) -> nat {
    shirts.filter(|c: ShirtColor| c is Blue).len()
}

/// The color of which `shirts` holds most: blue unless there are more red
/// shirts than blue ones.
pub open spec fn most_stocked_of(shirts: Seq<ShirtColor>) -> ShirtColor {
    if red_count(shirts) > blue_count(shirts) {
        ShirtColor::Red
    } else {
        ShirtColor::Blue
    }
}

impl Inventory {
    /// The shirt to give away: the color the user prefers where they name
    /// one, the color most in stock where they do not.
    pub fn giveaway(&self, user_preference: Option<ShirtColor>) -> (given: ShirtColor)
        ensures
            given == match user_preference {
                Some(color) => color,
                None => most_stocked_of(self.shirts@),
            },
    {
        match user_preference {
            Some(color) => color,
            None => self.most_stocked(),
        }
    }

    /// The color most in stock; blue on a tie, and where the stock is empty.
    pub fn most_stocked(&self) -> (color: ShirtColor)
        ensures
            color == most_stocked_of(self.shirts@),
    {
        let ghost is_red = |c: ShirtColor| c is Red;
        let ghost is_blue = |c: ShirtColor| c is Blue;
        let n = self.shirts.len();
        let mut num_red: usize = 0;
        let mut num_blue: usize = 0;
        let mut i: usize = 0;
        proof {
            reveal(Seq::filter);
            assert(self.shirts@.take(0) =~= Seq::<ShirtColor>::empty());
        }
        while i < n
            invariant
                n == self.shirts@.len(),
                i <= n,
                is_red == |c: ShirtColor| c is Red,
                is_blue == |c: ShirtColor| c is Blue,
                num_red == self.shirts@.take(i as int).filter(is_red).len(),
                num_blue == self.shirts@.take(i as int).filter(is_blue).len(),
                num_red + num_blue == i,
            decreases n - i,
        {
            proof {
                self.shirts@.lemma_take_succ_push(i as int);
                self.shirts@.take(i as int).lemma_filter_push(self.shirts@[i as int], is_red);
                self.shirts@.take(i as int).lemma_filter_push(self.shirts@[i as int], is_blue);
            }
            match self.shirts[i] {
                ShirtColor::Red => num_red += 1,
                ShirtColor::Blue => num_blue += 1,
            }
            i += 1;
        }
        assert(self.shirts@.take(n as int) =~= self.shirts@);
        if num_red > num_blue {
            ShirtColor::Red
        } else {
            ShirtColor::Blue
        }
    }
}

} // verus!

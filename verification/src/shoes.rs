//! Picking shoes by size.

use vstd::prelude::*;

verus! {

/// A shoe of some size and style.
#[derive(Debug, PartialEq)]
pub struct Shoe {
    pub size: u32,
    pub style: String,
}

/// The shoes of `shoes` that have size `shoe_size`, in their order.
pub fn shoes_in_size(shoes: Vec<Shoe>, shoe_size: u32) -> (fitting: Vec<Shoe>)
    ensures
        fitting@ == shoes@.filter(|s: Shoe| s.size == shoe_size),
{
    let ghost fits = |s: Shoe| s.size == shoe_size;
    let ghost all = shoes@;
    let mut fitting: Vec<Shoe> = Vec::new();
    proof {
        reveal(Seq::filter);
        assert(all.take(0) =~= Seq::<Shoe>::empty());
    }
    for shoe in it: shoes
        invariant
            it.seq() == all,
            fits == |s: Shoe| s.size == shoe_size,
            fitting@ == all.take(it.index() as int).filter(fits),
    {
        proof {
            all.lemma_take_succ_push(it.index() as int);
            all.take(it.index() as int).lemma_filter_push(shoe, fits);
        }
        if shoe.size == shoe_size {
            fitting.push(shoe);
        }
    }
    assert(all.take(all.len() as int) =~= all);
    fitting
}

} // verus!

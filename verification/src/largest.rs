//! The largest element of a list.

use vstd::prelude::*;
use vstd::std_specs::cmp::PartialOrdSpec;
use core::cmp::Ordering;

verus! {

/// The largest number of `list`, which has to hold at least one.
pub fn largest_i32(list: &[i32]) -> (largest: &i32)
    requires
        list@.len() > 0,
    ensures
        list@.contains(*largest),
        forall|i: int| 0 <= i < list@.len() ==> list@[i] <= *largest,
{
    let mut largest = &list[0];
    let mut i: usize = 1;
    while i < list.len()
        invariant
            1 <= i <= list@.len(),
            list@.contains(*largest),
            forall|j: int| 0 <= j < i ==> list@[j] <= *largest,
        decreases list@.len() - i,
    {
        let item = &list[i];
        if *item > *largest {
            largest = item;
        }
        i += 1;
    }
    largest
}

/// The largest character of `list`, which has to hold at least one.
/// Characters are ordered by their code points.
pub fn largest_char(list: &[char]) -> (largest: &char)
    requires
        list@.len() > 0,
    ensures
        list@.contains(*largest),
        forall|i: int| 0 <= i < list@.len() ==> list@[i] <= *largest,
{
    let mut largest = &list[0];
    let mut i: usize = 1;
    while i < list.len()
        invariant
            1 <= i <= list@.len(),
            list@.contains(*largest),
            forall|j: int| 0 <= j < i ==> list@[j] <= *largest,
        decreases list@.len() - i,
    {
        let item = &list[i];
        if *item > *largest {
            largest = item;
        }
        i += 1;
    }
    largest
}

/// Whether `a` compares greater than `b` under the order of `T`.
pub open spec fn greater<T: PartialOrd>(a: T, b: T) -> bool {
    a.partial_cmp_spec(&b) == Some(Ordering::Greater)
}

/// Whether the comparison operators of `T` are known to follow its order.
pub open spec fn order_is_known<T: PartialOrd>() -> bool {
    T::obeys_partial_cmp_spec()
}

/// The running maximum of `list`: its first element, replaced in turn by
/// each later element that compares greater than the maximum so far.
pub open spec fn running_max<T: PartialOrd>(list: Seq<T>) -> T
    recommends
        list.len() > 0,
    decreases list.len(),
{
    if list.len() <= 1 {
        list[0]
    } else if greater(list.last(), running_max(list.drop_last())) {
        list.last()
    } else {
        running_max(list.drop_last())
    }
}

/// The first `n` elements of `list`.
pub open spec fn first_n<T>(list: Seq<T>, n: usize) -> Seq<T> {
    list.take(n as int)
}

/// The largest element of `list`, which has to hold at least one: the
/// running maximum under the order of `T`. Where two elements cannot be
/// compared, or compare equal, the earlier one stays.
pub fn largest<T: PartialOrd>(list: &[T]) -> (largest: &T)
    requires
        list@.len() > 0,
    ensures
        list@.contains(*largest),
        order_is_known::<T>() ==> *largest == running_max(list@),
{
    let mut largest = &list[0];
    let mut i: usize = 1;
    assert(first_n(list@, 1).drop_last() =~= Seq::<T>::empty());
    while i < list.len()
        invariant
            1 <= i <= list@.len(),
            list@.contains(*largest),
            order_is_known::<T>() ==> *largest == running_max(first_n(list@, i)),
        decreases list@.len() - i,
    {
        let item = &list[i];
        assert(first_n(list@, (i + 1) as usize).drop_last() =~= first_n(list@, i));
        if *item > *largest {
            largest = item;
        }
        i += 1;
    }
    assert(first_n(list@, i) =~= list@);
    largest
}

/// Where "greater" is the strict part of a total preorder, no element of a
/// list is greater than its running maximum.
pub proof fn lemma_running_max_is_greatest<T: PartialOrd>(list: Seq<T>, i: int)
    requires
        0 <= i < list.len(),
        forall|x: T, y: T| #[trigger] greater(x, y) ==> !greater(y, x),
        forall|x: T, y: T, z: T|
            !#[trigger] greater(x, y) && !#[trigger] greater(y, z) ==> !greater(x, z),
    ensures
        !greater(list[i], running_max(list)),
    decreases list.len(),
{
    if list.len() > 1 {
        let init = list.drop_last();
        let so_far = running_max(init);
        if i < list.len() - 1 {
            lemma_running_max_is_greatest(init, i);
            assert(init[i] == list[i]);
            if greater(list.last(), so_far) {
                assert(!greater(so_far, list.last()));
                assert(!greater(list[i], so_far));
            }
        }
    }
}

} // verus!

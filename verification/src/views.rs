//! Views of sequences and options of viewed things, and copies of them.

use vstd::prelude::*;

use crate::catalog::Replica;

verus! {

/// The view of each item.
pub open spec fn views<T: View>(items: Seq<T>) -> Seq<T::V> {
    Seq::new(items.len(), |i: int| items[i]@)
}

pub open spec fn opt_view<T: View>(item: Option<T>) -> Option<T::V> {
    match item {
        Some(value) => Some(value@),
        None => None,
    }
}

/// Copies of all the items.
pub fn replicas<T: Replica>(items: &Vec<T>) -> (copies: Vec<T>)
    ensures
        views(copies@) == views(items@),
{
    let mut copies: Vec<T> = Vec::new();
    let mut index: usize = 0;
    while index < items.len()
        invariant
            index <= items@.len(),
            copies@.len() == index,
            forall|i: int| 0 <= i < index ==> (#[trigger] copies@[i])@ == items@[i]@,
        decreases items@.len() - index,
    {
        copies.push(items[index].replica());
        index += 1;
    }
    assert(views(copies@) =~= views(items@));
    copies
}

pub fn opt_replica<T: Replica>(item: &Option<T>) -> (copy: Option<T>)
    ensures
        opt_view(copy) == opt_view(*item),
{
    match item {
        Some(value) => Some(value.replica()),
        None => None,
    }
}

} // verus!

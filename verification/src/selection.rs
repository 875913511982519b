//! Choosing among records, and telling each of them in a line.

use vstd::prelude::*;

use crate::catalog;
use crate::catalog::{Catalog, Key, Replica};
use crate::views;

verus! {

/// The values of a catalog, in the order of their keys.
pub open spec fn values<K: Key, T>(entries: Map<K::V, T>) -> Seq<T> {
    Seq::new(
        catalog::listing::<K>(entries.dom()).len(),
        |i: int| entries[catalog::listing::<K>(entries.dom())[i]],
    )
}

/// Copies of all the values.
pub fn values_of<K: Key, T: Replica>(entries: &Catalog<K, T>) -> (all: Vec<T>)
    ensures
        views::views(all@) == values::<K, T::V>(entries@),
{
    let len = entries.len();
    let mut all: Vec<T> = Vec::new();
    let mut index: usize = 0;
    while index < len
        invariant
            index <= len,
            len == entries.keys().len(),
            all@.len() == index,
            forall|i: int|
                0 <= i < index ==> (#[trigger] all@[i])@ == entries@[entries.keys()[i]],
        decreases len - index,
    {
        all.push(entries.value_at(index).replica());
        index += 1;
    }
    assert(views::views(all@) =~= values::<K, T::V>(entries@));
    all
}

/// A test that items pass or fail.
pub trait Test<T: View> {
    spec fn test(&self) -> spec_fn(T::V) -> bool;

    fn passes(&self, item: &T) -> (passes: bool)
        ensures
            passes == self.test()(item@),
    ;
}

/// Copies of the items that pass the test.
pub fn chosen<T: Replica, C: Test<T>>(items: &Vec<T>, choice: &C) -> (found: Vec<T>)
    ensures
        views::views(found@) == views::views(items@).filter(choice.test()),
{
    let ghost all = views::views(items@);
    let mut found: Vec<T> = Vec::new();
    let mut index: usize = 0;
    proof {
        reveal(Seq::filter);
        assert(all.take(0).filter(choice.test()) =~= Seq::<T::V>::empty());
        assert(views::views(found@) =~= Seq::<T::V>::empty());
    }
    while index < items.len()
        invariant
            index <= items@.len(),
            all == views::views(items@),
            views::views(found@) == all.take(index as int).filter(choice.test()),
        decreases items@.len() - index,
    {
        proof {
            reveal(Seq::filter);
            assert(all.take(index + 1).drop_last() =~= all.take(index as int));
            assert(all.take(index + 1).last() == items@[index as int]@);
        }
        if choice.passes(&items[index]) {
            let ghost before = found@;
            found.push(items[index].replica());
            assert(views::views(found@) =~= views::views(before).push(all[index as int]));
        }
        index += 1;
    }
    assert(all.take(index as int) =~= all);
    found
}

/// A way to tell an item in one line.
pub trait Tell<T: View> {
    spec fn line(&self) -> spec_fn(T::V) -> Seq<char>;

    fn tell(&self, item: &T) -> (line: String)
        ensures
            line@ == self.line()(item@),
    ;
}

/// A line for each item.
pub fn lines_of<T: View, L: Tell<T>>(items: &Vec<T>, teller: &L) -> (lines: Vec<String>)
    ensures
        views::views(lines@) == views::views(items@).map_values(teller.line()),
{
    let mut lines: Vec<String> = Vec::new();
    let mut index: usize = 0;
    while index < items.len()
        invariant
            index <= items@.len(),
            lines@.len() == index,
            forall|i: int|
                0 <= i < index ==> (#[trigger] lines@[i])@ == teller.line()(items@[i]@),
        decreases items@.len() - index,
    {
        lines.push(teller.tell(&items[index]));
        index += 1;
    }
    assert(views::views(lines@) =~= views::views(items@).map_values(teller.line()));
    lines
}

} // verus!

//! Stable sorting.

use vstd::prelude::*;

use crate::text;
use crate::text::{place_text, Place};
use crate::views;
use crate::question::{Question, QuestionView};
use crate::work::{CheckDefinition, CheckDefinitionView, Work, WorkView};

verus! {

/// Items with an order to sort them by.
pub trait Ranked: View {
    /// Whether an item goes in front of another.
    spec fn ahead(a: Self::V, b: Self::V) -> bool;

    fn is_ahead(&self, other: &Self) -> (ahead: bool)
        ensures
            ahead == Self::ahead(self@, other@),
    ;
}

/// `items` with `item` behind the last one that it is not ahead of.
pub open spec fn placed<T: Ranked>(items: Seq<T::V>, item: T::V) -> Seq<T::V>
    decreases items.len(),
{
    if items.len() > 0 && T::ahead(item, items.last()) {
        placed::<T>(items.drop_last(), item).push(items.last())
    } else {
        items.push(item)
    }
}

/// The items in order, equals as they stood.
pub open spec fn sorted<T: Ranked>(items: Seq<T::V>) -> Seq<T::V>
    decreases items.len(),
{
    if items.len() == 0 {
        items
    } else {
        placed::<T>(sorted::<T>(items.drop_last()), items.last())
    }
}

/// No item has one behind it that is ahead of it.
pub open spec fn in_order<T: Ranked>(items: Seq<T::V>) -> bool {
    forall|i: int, j: int| 0 <= i < j < items.len() ==> !#[trigger] T::ahead(items[j], items[i])
}

proof fn placed_shape<T: Ranked>(items: Seq<T::V>, item: T::V, at: int)
    requires
        0 <= at <= items.len(),
        forall|i: int| at <= i < items.len() ==> T::ahead(item, #[trigger] items[i]),
        at > 0 ==> !T::ahead(item, items[at - 1]),
    ensures
        placed::<T>(items, item) == items.insert(at, item),
    decreases items.len(),
{
    if at < items.len() {
        assert(T::ahead(item, items.last()));
        placed_shape::<T>(items.drop_last(), item, at);
        assert(items.drop_last().insert(at, item).push(items.last()) =~= items.insert(at, item));
    } else {
        assert(items.insert(at, item) =~= items.push(item));
    }
}

/// Sorts, leaving equals as they stood.
pub fn sort<T: Ranked>(items: Vec<T>) -> (ordered: Vec<T>)
    ensures
        views::views(ordered@) == sorted::<T>(views::views(items@)),
{
    let ghost all = views::views(items@);
    let mut rest = items;
    let mut ordered: Vec<T> = Vec::new();
    let ghost mut done: int = 0;
    assert(views::views(ordered@) =~= sorted::<T>(all.take(0)));
    assert(all.skip(0) =~= all);
    while rest.len() > 0
        invariant
            0 <= done <= all.len(),
            views::views(rest@) == all.skip(done),
            views::views(ordered@) == sorted::<T>(all.take(done)),
        decreases rest@.len(),
    {
        let ghost rest_view = views::views(rest@);
        assert(rest_view.len() == rest@.len());
        let item = rest.remove(0);
        assert(item@ == rest_view[0]);
        assert(rest_view.len() == all.len() - done);
        assert(item@ == all[done]);
        let ghost before = views::views(ordered@);
        let mut at: usize = ordered.len();
        while at > 0 && item.is_ahead(&ordered[at - 1])
            invariant
                at <= ordered@.len(),
                before == views::views(ordered@),
                forall|i: int| at <= i < before.len() ==> T::ahead(item@, #[trigger] before[i]),
            decreases at,
        {
            assert(before[at - 1] == ordered@[at - 1]@);
            at -= 1;
        }
        proof {
            if at > 0 {
                assert(before[at - 1] == ordered@[at - 1]@);
            }
            placed_shape::<T>(before, item@, at as int);
        }
        let ghost value = item@;
        ordered.insert(at, item);
        proof {
            assert(views::views(ordered@) =~= before.insert(at as int, value));
            assert(all.take(done + 1).drop_last() =~= all.take(done));
            let after = views::views(rest@);
            assert forall|i: int| 0 <= i < after.len() implies after[i] == all.skip(done + 1)[i] by {
                assert(rest_view[i + 1] == all.skip(done)[i + 1]);
            }
            assert(after =~= all.skip(done + 1));
            done = done + 1;
        }
    }
    assert(all.take(done) =~= all);
    ordered
}

impl Ranked for String {
    open spec fn ahead(a: Seq<char>, b: Seq<char>) -> bool {
        text::text_before(a, b)
    }

    fn is_ahead(&self, other: &String) -> (ahead: bool) {
        proof {
            text::text_before_irreflexive(self@);
        }
        match place_text(self.as_str(), other.as_str()) {
            Place::Before => true,
            _ => false,
        }
    }
}

impl Ranked for CheckDefinition {
    open spec fn ahead(a: CheckDefinitionView, b: CheckDefinitionView) -> bool {
        text::text_before(a.key, b.key)
    }

    fn is_ahead(&self, other: &CheckDefinition) -> (ahead: bool) {
        self.key.is_ahead(&other.key)
    }
}

/// Questions go by when they were asked.
impl<'a> Ranked for &'a Question {
    open spec fn ahead(a: QuestionView, b: QuestionView) -> bool {
        a.asked_seq < b.asked_seq
    }

    fn is_ahead(&self, other: &&'a Question) -> (ahead: bool) {
        self.asked_seq < other.asked_seq
    }
}

/// Work items go by priority, the higher first, then by when they were
/// opened, then by ID.
impl<'a> Ranked for &'a Work {
    open spec fn ahead(a: WorkView, b: WorkView) -> bool {
        ||| a.priority > b.priority
        ||| a.priority == b.priority && a.opened_seq < b.opened_seq
        ||| a.priority == b.priority && a.opened_seq == b.opened_seq && text::text_before(
            a.id,
            b.id,
        )
    }

    fn is_ahead(&self, other: &&'a Work) -> (ahead: bool) {
        self.priority > other.priority || (self.priority == other.priority && (self.opened_seq
            < other.opened_seq || (self.opened_seq == other.opened_seq && self.id.is_ahead(
            &other.id,
        ))))
    }
}

/// A strict order: nothing goes ahead of itself, going ahead carries over,
/// and of two items that do not go ahead of each other neither is told from
/// the other by a third.
pub open spec fn weak_order<T: Ranked>() -> bool {
    &&& forall|a: T::V| !#[trigger] T::ahead(a, a)
    &&& forall|a: T::V, b: T::V, c: T::V|
        #[trigger] T::ahead(a, b) && #[trigger] T::ahead(b, c) ==> T::ahead(a, c)
    &&& forall|a: T::V, b: T::V, c: T::V|
        #[trigger] T::ahead(a, c) ==> T::ahead(a, b) || #[trigger] T::ahead(b, c)
}

proof fn placed_in_order<T: Ranked>(items: Seq<T::V>, item: T::V)
    requires
        weak_order::<T>(),
        in_order::<T>(items),
    ensures
        in_order::<T>(placed::<T>(items, item)),
        placed::<T>(items, item).to_multiset() == items.to_multiset().insert(item),
        placed::<T>(items, item).len() == items.len() + 1,
        forall|i: int|
            0 <= i < items.len() + 1 ==> #[trigger] placed::<T>(items, item)[i] == item
                || items.contains(placed::<T>(items, item)[i]),
    decreases items.len(),
{
    broadcast use vstd::seq_lib::group_to_multiset_ensures;

    let result = placed::<T>(items, item);
    if items.len() > 0 && T::ahead(item, items.last()) {
        let front = items.drop_last();
        assert forall|i: int, j: int| 0 <= i < j < front.len() implies !#[trigger] T::ahead(
            front[j],
            front[i],
        ) by {
            assert(!T::ahead(items[j], items[i]));
        }
        placed_in_order::<T>(front, item);
        let inner = placed::<T>(front, item);
        assert forall|i: int| 0 <= i < inner.len() implies !#[trigger] T::ahead(
            items.last(),
            inner[i],
        ) by {
            if inner[i] == item {
                if T::ahead(items.last(), item) {
                    assert(T::ahead(item, item));
                }
            } else {
                let k = choose|k: int| 0 <= k < front.len() && front[k] == inner[i];
                assert(!T::ahead(items[items.len() - 1], items[k]));
            }
        }
        assert forall|i: int, j: int| 0 <= i < j < result.len() implies !#[trigger] T::ahead(
            result[j],
            result[i],
        ) by {
            if j < inner.len() {
                assert(!T::ahead(inner[j], inner[i]));
            } else {
                assert(!T::ahead(items.last(), inner[i]));
            }
        }
        assert forall|i: int| 0 <= i < items.len() + 1 implies #[trigger] result[i] == item
            || items.contains(result[i]) by {
            if i < inner.len() {
                if inner[i] != item {
                    let k = choose|k: int| 0 <= k < front.len() && front[k] == inner[i];
                    assert(items[k] == inner[i]);
                }
            } else {
                assert(items[items.len() - 1] == result[i]);
            }
        }
        assert(items =~= front.push(items.last()));
        assert(result.to_multiset() =~= items.to_multiset().insert(item));
    } else {
        assert forall|i: int, j: int| 0 <= i < j < result.len() implies !#[trigger] T::ahead(
            result[j],
            result[i],
        ) by {
            if j < items.len() {
                assert(!T::ahead(items[j], items[i]));
            } else if i < items.len() - 1 {
                assert(!T::ahead(items[items.len() - 1], items[i]));
            }
        }
        assert forall|i: int| 0 <= i < items.len() + 1 implies #[trigger] result[i] == item
            || items.contains(result[i]) by {
            if i < items.len() {
                assert(items[i] == result[i]);
            }
        }
    }
}

/// Sorting keeps exactly the items there are and puts them in order.
pub proof fn sorted_is_ordered_permutation<T: Ranked>(items: Seq<T::V>)
    requires
        weak_order::<T>(),
    ensures
        in_order::<T>(sorted::<T>(items)),
        sorted::<T>(items).to_multiset() == items.to_multiset(),
    decreases items.len(),
{
    broadcast use vstd::seq_lib::group_to_multiset_ensures;

    if items.len() > 0 {
        sorted_is_ordered_permutation::<T>(items.drop_last());
        placed_in_order::<T>(sorted::<T>(items.drop_last()), items.last());
        assert(items =~= items.drop_last().push(items.last()));
    }
}

} // verus!

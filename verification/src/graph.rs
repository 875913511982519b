//! The work graph: what requires what, and that nothing waits for itself.

use vstd::prelude::*;

use crate::catalog;
use crate::catalog::Catalog;
use crate::error;
use crate::error::{AlderError, ErrorView, Result};
use crate::json;
use crate::json::{Json, JsonView};
use crate::text::{joined3, joined5, same_text};
use crate::views;
use crate::work::{Work, WorkView};

verus! {

/// The work items by ID.
pub type Graph = Map<Seq<char>, WorkView>;

pub open spec fn missing_dependency(id: Seq<char>, required: Seq<char>) -> ErrorView {
    error::context_error(
        "missing_dependency"@,
        "work `"@ + id + "` requires missing work `"@ + required + "`"@,
        json::empty_object().with("required_id"@, JsonView::Text(required)).with(
            "work_id"@,
            JsonView::Text(id),
        ),
    )
}

pub open spec fn self_dependency(id: Seq<char>) -> ErrorView {
    error::context_error(
        "dependency_cycle"@,
        "work `"@ + id + "` cannot depend on itself"@,
        json::empty_object().with("cycle"@, json::text_list(seq![id, id])),
    )
}

pub open spec fn cycle_error(cycle: Seq<Seq<char>>) -> ErrorView {
    error::context_error(
        "dependency_cycle"@,
        "the work graph contains a dependency cycle"@,
        json::empty_object().with("cycle"@, json::text_list(cycle)),
    )
}

/// The first of `needs` that is not there or is the item itself.
pub open spec fn bad_requirement(
    work: Graph,
    id: Seq<char>,
    needs: Seq<Seq<char>>,
) -> Option<ErrorView>
    decreases needs.len(),
{
    if needs.len() == 0 {
        None
    } else {
        match bad_requirement(work, id, needs.drop_last()) {
            Some(error) => Some(error),
            None => if !work.contains_key(needs.last()) {
                Some(missing_dependency(id, needs.last()))
            } else if needs.last() == id {
                Some(self_dependency(id))
            } else {
                None
            },
        }
    }
}

/// The first bad requirement of the items under `keys`.
pub open spec fn bad_item(work: Graph, keys: Seq<Seq<char>>) -> Option<ErrorView>
    decreases keys.len(),
{
    if keys.len() == 0 {
        None
    } else {
        match bad_item(work, keys.drop_last()) {
            Some(error) => Some(error),
            None => bad_requirement(work, work[keys.last()].id, work[keys.last()].requires),
        }
    }
}

/// What a search below some items came to: the items it is through with, or
/// the cycle it ran into.
#[verifier::ext_equal]
pub enum Search {
    Through(Set<Seq<char>>),
    Cycle(Seq<Seq<char>>),
}

/// Searches below `id`, which was reached along `stack`. No path of distinct
/// items is longer than `fuel` allows.
pub open spec fn visited(
    work: Graph,
    id: Seq<char>,
    stack: Seq<Seq<char>>,
    through: Set<Seq<char>>,
    fuel: nat,
) -> Search
    decreases fuel, 0nat,
{
    if fuel == 0 {
        Search::Through(through)
    } else {
        match scanned(
            work,
            work[id].requires,
            stack.push(id),
            through,
            (fuel - 1) as nat,
        ) {
            Search::Through(found) => Search::Through(found.insert(id)),
            cycle => cycle,
        }
    }
}

/// Searches below `needs` in turn.
pub open spec fn scanned(
    work: Graph,
    needs: Seq<Seq<char>>,
    stack: Seq<Seq<char>>,
    through: Set<Seq<char>>,
    fuel: nat,
) -> Search
    decreases fuel, needs.len(),
{
    if needs.len() == 0 {
        Search::Through(through)
    } else {
        match scanned(work, needs.drop_last(), stack, through, fuel) {
            Search::Through(found) => if stack.contains(needs.last()) {
                Search::Cycle(
                    stack.skip(stack.index_of(needs.last())).push(needs.last()),
                )
            } else if found.contains(needs.last()) {
                Search::Through(found)
            } else {
                visited(work, needs.last(), stack, found, fuel)
            },
            cycle => cycle,
        }
    }
}

/// Searches below all the items under `keys` in turn.
pub open spec fn searched(work: Graph, keys: Seq<Seq<char>>) -> Search
    decreases keys.len(),
{
    if keys.len() == 0 {
        Search::Through(Set::empty())
    } else {
        match searched(work, keys.drop_last()) {
            Search::Through(found) => if found.contains(keys.last()) {
                Search::Through(found)
            } else {
                visited(work, keys.last(), Seq::empty(), found, work.dom().len())
            },
            cycle => cycle,
        }
    }
}

/// What is wrong with the graph: the first requirement that is not there or is
/// the item's own, else the first cycle.
pub open spec fn graph_error(work: Graph) -> Option<ErrorView> {
    let keys = catalog::listing::<String>(work.dom());
    match bad_item(work, keys) {
        Some(error) => Some(error),
        None => match searched(work, keys) {
            Search::Through(_) => None,
            Search::Cycle(cycle) => Some(cycle_error(cycle)),
        },
    }
}

/// Every requirement is there.
pub open spec fn complete(work: Graph) -> bool {
    forall|k: Seq<char>, i: int|
        work.contains_key(k) && 0 <= i < work[k].requires.len() ==> work.contains_key(
            #[trigger] work[k].requires[i],
        )
}

fn check_requirements(work: &Catalog<String, Work>, item: &Work) -> (outcome: Result<()>)
    ensures
        outcome matches Err(e) ==> bad_requirement(work@, item@.id, item@.requires) == Some(e@),
        outcome is Ok ==> bad_requirement(work@, item@.id, item@.requires) is None,
{
    let ghost needs = item@.requires;
    let mut index: usize = 0;
    assert(needs.take(0) =~= Seq::<Seq<char>>::empty());
    while index < item.requires.len()
        invariant
            index <= item.requires@.len(),
            needs == views::views(item.requires@),
            bad_requirement(work@, item@.id, needs.take(index as int)) is None,
        decreases item.requires@.len() - index,
    {
        let required = item.requires[index].as_str();
        assert(needs.take(index + 1).drop_last() =~= needs.take(index as int));
        assert(needs.take(index + 1).last() == required@);
        if !work.contains_key(required) {
            let error = AlderError::with_context(
                "missing_dependency",
                joined5(
                    "work `",
                    item.id.as_str(),
                    "` requires missing work `",
                    required,
                    "`",
                ),
                Json::object().with("required_id", Json::text(required)).with(
                    "work_id",
                    Json::text(item.id.as_str()),
                ),
            );
            proof {
                bad_requirement_extends(work@, item@.id, needs, index + 1);
            }
            return Err(error);
        }
        if same_text(required, item.id.as_str()) {
            let mut cycle: Vec<String> = Vec::new();
            cycle.push(item.id.clone());
            cycle.push(item.id.clone());
            assert(views::views(cycle@) =~= seq![item@.id, item@.id]);
            let error = AlderError::with_context(
                "dependency_cycle",
                joined3("work `", item.id.as_str(), "` cannot depend on itself"),
                Json::object().with("cycle", Json::texts(&cycle)),
            );
            proof {
                bad_requirement_extends(work@, item@.id, needs, index + 1);
            }
            return Err(error);
        }
        index += 1;
    }
    assert(needs.take(index as int) =~= needs);
    Ok(())
}

/// What is wrong with some of the requirements is wrong with all of them.
proof fn bad_requirement_extends(work: Graph, id: Seq<char>, needs: Seq<Seq<char>>, n: int)
    requires
        0 <= n <= needs.len(),
        bad_requirement(work, id, needs.take(n)) is Some,
    ensures
        bad_requirement(work, id, needs) == bad_requirement(work, id, needs.take(n)),
    decreases needs.len() - n,
{
    if n < needs.len() {
        assert(needs.take(n + 1).drop_last() =~= needs.take(n));
        bad_requirement_extends(work, id, needs, n + 1);
    } else {
        assert(needs.take(n) =~= needs);
    }
}

proof fn bad_item_extends(work: Graph, keys: Seq<Seq<char>>, n: int)
    requires
        0 <= n <= keys.len(),
        bad_item(work, keys.take(n)) is Some,
    ensures
        bad_item(work, keys) == bad_item(work, keys.take(n)),
    decreases keys.len() - n,
{
    if n < keys.len() {
        assert(keys.take(n + 1).drop_last() =~= keys.take(n));
        bad_item_extends(work, keys, n + 1);
    } else {
        assert(keys.take(n) =~= keys);
    }
}

proof fn searched_extends(work: Graph, keys: Seq<Seq<char>>, n: int)
    requires
        0 <= n <= keys.len(),
        searched(work, keys.take(n)) is Cycle,
    ensures
        searched(work, keys) == searched(work, keys.take(n)),
    decreases keys.len() - n,
{
    if n < keys.len() {
        assert(keys.take(n + 1).drop_last() =~= keys.take(n));
        searched_extends(work, keys, n + 1);
    } else {
        assert(keys.take(n) =~= keys);
    }
}

proof fn scanned_extends(
    work: Graph,
    needs: Seq<Seq<char>>,
    stack: Seq<Seq<char>>,
    through: Set<Seq<char>>,
    fuel: nat,
    n: int,
)
    requires
        0 <= n <= needs.len(),
        scanned(work, needs.take(n), stack, through, fuel) is Cycle,
    ensures
        scanned(work, needs, stack, through, fuel) == scanned(
            work,
            needs.take(n),
            stack,
            through,
            fuel,
        ),
    decreases needs.len() - n,
{
    if n < needs.len() {
        assert(needs.take(n + 1).drop_last() =~= needs.take(n));
        scanned_extends(work, needs, stack, through, fuel, n + 1);
    } else {
        assert(needs.take(n) =~= needs);
    }
}

/// An item without a bad requirement has all its requirements there, and none
/// is the item itself.
proof fn good_requirements(work: Graph, id: Seq<char>, needs: Seq<Seq<char>>)
    ensures
        bad_requirement(work, id, needs) is None <==> forall|i: int|
            0 <= i < needs.len() ==> work.contains_key(#[trigger] needs[i]) && needs[i] != id,
    decreases needs.len(),
{
    if needs.len() > 0 {
        let front = needs.drop_last();
        good_requirements(work, id, front);
        if bad_requirement(work, id, needs) is None {
            assert forall|i: int| 0 <= i < needs.len() implies work.contains_key(
                #[trigger] needs[i],
            ) && needs[i] != id by {
                if i < front.len() {
                    assert(front[i] == needs[i]);
                }
            }
        }
        if forall|i: int|
            0 <= i < needs.len() ==> work.contains_key(#[trigger] needs[i]) && needs[i] != id {
            assert forall|i: int| 0 <= i < front.len() implies work.contains_key(
                #[trigger] front[i],
            ) && front[i] != id by {
                assert(front[i] == needs[i]);
            }
            assert(needs[needs.len() - 1] == needs.last());
        }
    }
}

/// Whether every requirement of the item under `key` is there and is another item.
pub open spec fn sound_item(work: Graph, key: Seq<char>) -> bool {
    forall|i: int|
        0 <= i < work[key].requires.len() ==> work.contains_key(#[trigger] work[key].requires[i])
            && work[key].requires[i] != work[key].id
}

proof fn good_items(work: Graph, keys: Seq<Seq<char>>)
    ensures
        bad_item(work, keys) is None <==> forall|i: int|
            0 <= i < keys.len() ==> sound_item(work, #[trigger] keys[i]),
    decreases keys.len(),
{
    if keys.len() > 0 {
        let front = keys.drop_last();
        good_items(work, front);
        good_requirements(work, work[keys.last()].id, work[keys.last()].requires);
        if bad_item(work, keys) is None {
            assert forall|i: int| 0 <= i < keys.len() implies sound_item(
                work,
                #[trigger] keys[i],
            ) by {
                if i < front.len() {
                    assert(front[i] == keys[i]);
                }
            }
        }
        if forall|i: int| 0 <= i < keys.len() ==> sound_item(work, #[trigger] keys[i]) {
            assert forall|i: int| 0 <= i < front.len() implies sound_item(
                work,
                #[trigger] front[i],
            ) by {
                assert(front[i] == keys[i]);
            }
            assert(keys[keys.len() - 1] == keys.last());
        }
    }
}

/// The path that a search is on: distinct items of the graph.
pub open spec fn on_path(work: Graph, stack: Seq<Seq<char>>) -> bool {
    &&& stack.no_duplicates()
    &&& forall|i: int| 0 <= i < stack.len() ==> work.contains_key(#[trigger] stack[i])
}

proof fn path_fits(work: Graph, stack: Seq<Seq<char>>, id: Seq<char>)
    requires
        work.dom().finite(),
        on_path(work, stack),
        work.contains_key(id),
        !stack.contains(id),
    ensures
        stack.len() < work.dom().len(),
        on_path(work, stack.push(id)),
{
    let longer = stack.push(id);
    assert(longer.no_duplicates()) by {
        assert forall|i: int, j: int|
            0 <= i < longer.len() && 0 <= j < longer.len() && i != j implies longer[i]
            != longer[j] by {
            if i < stack.len() && j < stack.len() {
                assert(stack[i] != stack[j]);
            } else if i < stack.len() {
                assert(stack.contains(stack[i]));
            } else {
                assert(stack.contains(stack[j]));
            }
        }
    }
    longer.unique_seq_to_set();
    assert forall|k: Seq<char>| longer.to_set().contains(k) implies work.dom().contains(k) by {
        let i = choose|i: int| 0 <= i < longer.len() && longer[i] == k;
        if i < stack.len() {
            assert(work.contains_key(stack[i]));
        }
    }
    vstd::set_lib::lemma_len_subset(longer.to_set(), work.dom());
}

/// Searches below `id`, adding what it is through with to `through`.
fn visit(
    work: &Catalog<String, Work>,
    id: &str,
    through: &mut Catalog<String, ()>,
    stack: &mut Vec<String>,
) -> (outcome: Result<()>)
    requires
        work@.dom().finite(),
        complete(work@),
        work@.contains_key(id@),
        on_path(work@, views::views(old(stack)@)),
        !views::views(old(stack)@).contains(id@),
    ensures
        ({
            let fuel = (work@.dom().len() - old(stack)@.len()) as nat;
            match visited(
                work@,
                id@,
                views::views(old(stack)@),
                old(through)@.dom(),
                fuel,
            ) {
                Search::Through(found) => outcome is Ok && final(through)@.dom() == found
                    && views::views(final(stack)@) == views::views(old(stack)@),
                Search::Cycle(cycle) => outcome matches Err(e) && e@ == cycle_error(cycle),
            }
        }),
    decreases work@.dom().len() - old(stack)@.len(),
{
    let ghost path = views::views(stack@);
    let ghost start = through@.dom();
    proof {
        path_fits(work@, path, id@);
    }
    let ghost fuel = (work@.dom().len() - path.len() - 1) as nat;
    stack.push(id.to_owned());
    let ghost below = path.push(id@);
    assert(views::views(stack@) =~= below);
    match work.get(id) {
        None => Ok(()),
        Some(item) => {
            let ghost needs = item@.requires;
            let mut index: usize = 0;
            assert(needs.take(0) =~= Seq::<Seq<char>>::empty());
            while index < item.requires.len()
                invariant
                    index <= item.requires@.len(),
                    needs == views::views(item.requires@),
                    work@.contains_key(id@),
                    needs == work@[id@].requires,
                    work@.dom().finite(),
                    complete(work@),
                    on_path(work@, below),
                    views::views(stack@) == below,
                    below.len() == old(stack)@.len() + 1,
                    fuel == work@.dom().len() - below.len(),
                    scanned(work@, needs.take(index as int), below, start, fuel)
                        == Search::Through(through@.dom()),
                    visited(
                        work@,
                        id@,
                        views::views(old(stack)@),
                        old(through)@.dom(),
                        (work@.dom().len() - old(stack)@.len()) as nat,
                    ) == (match scanned(work@, needs, below, start, fuel) {
                        Search::Through(found) => Search::Through(found.insert(id@)),
                        cycle => cycle,
                    }),
                decreases item.requires@.len() - index,
            {
                let required = item.requires[index].as_str();
                assert(needs.take(index + 1).drop_last() =~= needs.take(index as int));
                assert(needs.take(index + 1).last() == required@);
                assert(needs[index as int] == required@);
                assert(work@.contains_key(required@));
                match position(stack, required) {
                    Some(first) => {
                        let mut cycle = tail(stack, first);
                        cycle.push(required.to_owned());
                        proof {
                            assert(below.contains(below[first as int]));
                            assert(below.index_of(required@) == first);
                            assert(views::views(cycle@) =~= below.skip(first as int).push(
                                required@,
                            ));
                            scanned_extends(work@, needs, below, start, fuel, index + 1);
                        }
                        return Err(
                            AlderError::with_context(
                                "dependency_cycle",
                                "the work graph contains a dependency cycle".to_owned(),
                                Json::object().with("cycle", Json::texts(&cycle)),
                            ),
                        );
                    },
                    None => {
                        if !through.contains_key(required) {
                            if let Err(error) = visit(work, required, through, stack) {
                                proof {
                                    scanned_extends(work@, needs, below, start, fuel, index + 1);
                                }
                                return Err(error);
                            }
                        }
                    },
                }
                index += 1;
            }
            assert(needs.take(index as int) =~= needs);
            let ghost full = stack@;
            let _ = stack.pop();
            assert forall|i: int| 0 <= i < path.len() implies views::views(stack@)[i] == path[i] by {
                assert(views::views(full)[i] == below[i]);
            }
            assert(views::views(full).len() == below.len());
            assert(views::views(stack@) =~= path);
            through.insert(id.to_owned(), ());
            Ok(())
        },
    }
}

/// Checks that the graph has all that its items require, and no cycle.
pub fn validate(work: &Catalog<String, Work>) -> (outcome: Result<()>)
    ensures
        match graph_error(work@) {
            Some(error) => outcome matches Err(e) && e@ == error,
            None => outcome is Ok,
        },
{
    let len = work.len();
    let ghost keys = work.keys();
    let mut index: usize = 0;
    assert(keys.take(0) =~= Seq::<Seq<char>>::empty());
    while index < len
        invariant
            index <= len,
            len == keys.len(),
            keys == work.keys(),
            keys == catalog::listing::<String>(work@.dom()),
            bad_item(work@, keys.take(index as int)) is None,
        decreases len - index,
    {
        assert(keys.take(index + 1).drop_last() =~= keys.take(index as int));
        if let Err(error) = check_requirements(work, work.value_at(index)) {
            proof {
                bad_item_extends(work@, keys, index + 1);
            }
            return Err(error);
        }
        index += 1;
    }
    assert(keys.take(index as int) =~= keys);
    proof {
        good_items(work@, keys);
        assert forall|k: Seq<char>, i: int|
            work@.contains_key(k) && 0 <= i < work@[k].requires.len() implies work@.contains_key(
            #[trigger] work@[k].requires[i],
        ) by {
            assert(keys.to_set().contains(k));
            let j = choose|j: int| 0 <= j < keys.len() && keys[j] == k;
            assert(sound_item(work@, keys[j]));
        }
        assert(complete(work@));
        assert(work@.dom().finite());
    }
    let mut through: Catalog<String, ()> = Catalog::new();
    assert(through@.dom() =~= Set::<Seq<char>>::empty());
    let mut index: usize = 0;
    assert(keys.take(0) =~= Seq::<Seq<char>>::empty());
    while index < len
        invariant
            index <= len,
            len == keys.len(),
            keys == work.keys(),
            keys == catalog::listing::<String>(work@.dom()),
            bad_item(work@, keys) is None,
            complete(work@),
            work@.dom().finite(),
            forall|i: int| 0 <= i < keys.len() ==> work@.contains_key(#[trigger] keys[i]),
            searched(work@, keys.take(index as int)) == Search::Through(through@.dom()),
        decreases len - index,
    {
        assert(keys.take(index + 1).drop_last() =~= keys.take(index as int));
        let id = work.key_at(index);
        if !through.contains_key(id.as_str()) {
            let mut stack: Vec<String> = Vec::new();
            assert(views::views(stack@) =~= Seq::<Seq<char>>::empty());
            if let Err(error) = visit(work, id.as_str(), &mut through, &mut stack) {
                proof {
                    searched_extends(work@, keys, index + 1);
                }
                return Err(error);
            }
        }
        index += 1;
    }
    assert(keys.take(index as int) =~= keys);
    Ok(())
}

/// Where `text` first stands among the items.
fn position(items: &Vec<String>, text: &str) -> (place: Option<usize>)
    ensures
        match place {
            Some(i) => i < items@.len() && views::views(items@)[i as int] == text@ && !views::views(
                items@,
            ).take(i as int).contains(text@),
            None => !views::views(items@).contains(text@),
        },
{
    let ghost all = views::views(items@);
    let mut index: usize = 0;
    while index < items.len()
        invariant
            index <= items@.len(),
            all == views::views(items@),
            forall|i: int| 0 <= i < index ==> #[trigger] all[i] != text@,
        decreases items@.len() - index,
    {
        assert(all[index as int] == items@[index as int]@);
        if same_text(items[index].as_str(), text) {
            return Some(index);
        }
        index += 1;
    }
    None
}

/// Copies of the items from `first` on.
fn tail(items: &Vec<String>, first: usize) -> (rest: Vec<String>)
    requires
        first <= items@.len(),
    ensures
        views::views(rest@) == views::views(items@).skip(first as int),
{
    let mut rest: Vec<String> = Vec::new();
    let mut index: usize = first;
    while index < items.len()
        invariant
            first <= index <= items@.len(),
            rest@.len() == index - first,
            forall|i: int| 0 <= i < rest@.len() ==> (#[trigger] rest@[i])@ == items@[first + i]@,
        decreases items@.len() - index,
    {
        rest.push(items[index].clone());
        index += 1;
    }
    assert(views::views(rest@) =~= views::views(items@).skip(first as int));
    rest
}

/// A way from an item along requirements and back to it.
pub open spec fn closed_path(work: Graph, path: Seq<Seq<char>>) -> bool {
    &&& path.len() >= 2
    &&& path[0] == path.last()
    &&& forall|i: int|
        0 <= i < path.len() - 1 ==> work.contains_key(#[trigger] path[i])
            && work[path[i]].requires.contains(path[i + 1])
}

/// No item waits for itself, however far around.
pub open spec fn acyclic(work: Graph) -> bool {
    forall|path: Seq<Seq<char>>| !closed_path(work, path)
}

/// Every item ranks above what it requires.
spec fn ranking(work: Graph, rank: Map<Seq<char>, nat>) -> bool {
    forall|k: Seq<char>, i: int|
        rank.contains_key(k) && 0 <= i < work[k].requires.len() ==> rank.contains_key(
            #[trigger] work[k].requires[i],
        ) && rank[work[k].requires[i]] < rank[k]
}

/// A rank above those of all the items.
spec fn above(rank: Map<Seq<char>, nat>, items: Seq<Seq<char>>) -> nat
    decreases items.len(),
{
    if items.len() == 0 {
        0
    } else {
        let front = above(rank, items.drop_last());
        if front > rank[items.last()] {
            front
        } else {
            rank[items.last()] + 1
        }
    }
}

proof fn above_all(rank: Map<Seq<char>, nat>, items: Seq<Seq<char>>, i: int)
    requires
        0 <= i < items.len(),
    ensures
        rank[items[i]] < above(rank, items),
    decreases items.len(),
{
    if i < items.len() - 1 {
        above_all(rank, items.drop_last(), i);
    }
}

proof fn visited_ranks(
    work: Graph,
    id: Seq<char>,
    stack: Seq<Seq<char>>,
    rank: Map<Seq<char>, nat>,
    fuel: nat,
) -> (ranked: Map<Seq<char>, nat>)
    requires
        work.dom().finite(),
        complete(work),
        work.contains_key(id),
        on_path(work, stack),
        !stack.contains(id),
        fuel == work.dom().len() - stack.len(),
        ranking(work, rank),
        visited(work, id, stack, rank.dom(), fuel) is Through,
    ensures
        ranking(work, ranked),
        ranked.dom() == visited(work, id, stack, rank.dom(), fuel)->Through_0,
        rank.dom().subset_of(ranked.dom()),
        ranked.contains_key(id),
    decreases fuel, 0nat,
{
    path_fits(work, stack, id);
    let needs = work[id].requires;
    let inner = scanned_ranks(work, needs, stack.push(id), rank, (fuel - 1) as nat);
    if inner.contains_key(id) {
        assert(inner.dom().insert(id) =~= inner.dom());
        inner
    } else {
        let ranked = inner.insert(id, above(inner, needs));
        assert forall|k: Seq<char>, i: int|
            ranked.contains_key(k) && 0 <= i < work[k].requires.len() implies ranked.contains_key(
            #[trigger] work[k].requires[i],
        ) && ranked[work[k].requires[i]] < ranked[k] by {
            if k == id {
                assert(inner.contains_key(needs[i]));
                above_all(inner, needs, i);
            } else {
                assert(inner.contains_key(work[k].requires[i]));
            }
        }
        ranked
    }
}

proof fn scanned_ranks(
    work: Graph,
    needs: Seq<Seq<char>>,
    stack: Seq<Seq<char>>,
    rank: Map<Seq<char>, nat>,
    fuel: nat,
) -> (ranked: Map<Seq<char>, nat>)
    requires
        work.dom().finite(),
        complete(work),
        on_path(work, stack),
        fuel == work.dom().len() - stack.len(),
        forall|i: int| 0 <= i < needs.len() ==> work.contains_key(#[trigger] needs[i]),
        ranking(work, rank),
        scanned(work, needs, stack, rank.dom(), fuel) is Through,
    ensures
        ranking(work, ranked),
        ranked.dom() == scanned(work, needs, stack, rank.dom(), fuel)->Through_0,
        rank.dom().subset_of(ranked.dom()),
        forall|i: int| 0 <= i < needs.len() ==> ranked.contains_key(#[trigger] needs[i]),
    decreases fuel, needs.len(),
{
    if needs.len() == 0 {
        rank
    } else {
        let front = needs.drop_last();
        assert forall|i: int| 0 <= i < front.len() implies work.contains_key(
            #[trigger] front[i],
        ) by {
            assert(front[i] == needs[i]);
        }
        let inner = scanned_ranks(work, front, stack, rank, fuel);
        assert(work.contains_key(needs[needs.len() - 1]));
        let ranked = if inner.contains_key(needs.last()) {
            inner
        } else {
            visited_ranks(work, needs.last(), stack, inner, fuel)
        };
        assert forall|i: int| 0 <= i < needs.len() implies ranked.contains_key(
            #[trigger] needs[i],
        ) by {
            if i < front.len() {
                assert(front[i] == needs[i]);
                assert(inner.contains_key(front[i]));
            }
        }
        ranked
    }
}

proof fn searched_ranks(work: Graph, keys: Seq<Seq<char>>) -> (ranked: Map<Seq<char>, nat>)
    requires
        work.dom().finite(),
        complete(work),
        forall|i: int| 0 <= i < keys.len() ==> work.contains_key(#[trigger] keys[i]),
        searched(work, keys) is Through,
    ensures
        ranking(work, ranked),
        ranked.dom() == searched(work, keys)->Through_0,
        forall|i: int| 0 <= i < keys.len() ==> ranked.contains_key(#[trigger] keys[i]),
    decreases keys.len(),
{
    if keys.len() == 0 {
        let ranked = Map::<Seq<char>, nat>::empty();
        assert(ranked.dom() =~= Set::empty());
        ranked
    } else {
        let front = keys.drop_last();
        assert forall|i: int| 0 <= i < front.len() implies work.contains_key(
            #[trigger] front[i],
        ) by {
            assert(front[i] == keys[i]);
        }
        let inner = searched_ranks(work, front);
        assert(work.contains_key(keys[keys.len() - 1]));
        let ranked = if inner.contains_key(keys.last()) {
            inner
        } else {
            visited_ranks(work, keys.last(), Seq::empty(), inner, work.dom().len())
        };
        assert forall|i: int| 0 <= i < keys.len() implies ranked.contains_key(
            #[trigger] keys[i],
        ) by {
            if i < front.len() {
                assert(front[i] == keys[i]);
                assert(inner.contains_key(front[i]));
            }
        }
        ranked
    }
}

/// The stack is a way along requirements.
spec fn chained(work: Graph, stack: Seq<Seq<char>>) -> bool {
    forall|i: int|
        0 <= i < stack.len() - 1 ==> work.contains_key(#[trigger] stack[i])
            && work[stack[i]].requires.contains(stack[i + 1])
}

proof fn visited_cycle(
    work: Graph,
    id: Seq<char>,
    stack: Seq<Seq<char>>,
    through: Set<Seq<char>>,
    fuel: nat,
)
    requires
        complete(work),
        work.contains_key(id),
        chained(work, stack.push(id)),
        visited(work, id, stack, through, fuel) is Cycle,
    ensures
        closed_path(work, visited(work, id, stack, through, fuel)->Cycle_0),
    decreases fuel, 0nat,
{
    scanned_cycle(work, work[id].requires, stack.push(id), through, (fuel - 1) as nat);
}

proof fn scanned_cycle(
    work: Graph,
    needs: Seq<Seq<char>>,
    stack: Seq<Seq<char>>,
    through: Set<Seq<char>>,
    fuel: nat,
)
    requires
        complete(work),
        stack.len() > 0,
        chained(work, stack),
        work.contains_key(stack.last()),
        forall|i: int|
            0 <= i < needs.len() ==> work[stack.last()].requires.contains(#[trigger] needs[i]),
        scanned(work, needs, stack, through, fuel) is Cycle,
    ensures
        closed_path(work, scanned(work, needs, stack, through, fuel)->Cycle_0),
    decreases fuel, needs.len(),
{
    let front = needs.drop_last();
    let last = needs.last();
    assert forall|i: int| 0 <= i < front.len() implies work[stack.last()].requires.contains(
        #[trigger] front[i],
    ) by {
        assert(front[i] == needs[i]);
    }
    assert(needs[needs.len() - 1] == last);
    if scanned(work, front, stack, through, fuel) is Cycle {
        scanned_cycle(work, front, stack, through, fuel);
    } else if stack.contains(last) {
        let at = stack.index_of(last);
        let cycle = stack.skip(at).push(last);
        assert(stack[at] == last);
        assert forall|i: int| 0 <= i < cycle.len() - 1 implies work.contains_key(
            #[trigger] cycle[i],
        ) && work[cycle[i]].requires.contains(cycle[i + 1]) by {
            assert(cycle[i] == stack[at + i]);
            if at + i < stack.len() - 1 {
                assert(cycle[i + 1] == stack[at + i + 1]);
            } else {
                assert(cycle[i] == stack.last());
            }
        }
    } else {
        let found = scanned(work, front, stack, through, fuel)->Through_0;
        let k = stack.last();
        let j = choose|j: int| 0 <= j < work[k].requires.len() && work[k].requires[j] == last;
        assert(work.contains_key(work[k].requires[j]));
        let longer = stack.push(last);
        assert forall|i: int| 0 <= i < longer.len() - 1 implies work.contains_key(
            #[trigger] longer[i],
        ) && work[longer[i]].requires.contains(longer[i + 1]) by {
            assert(longer[i] == stack[i]);
            if i < stack.len() - 1 {
                assert(longer[i + 1] == stack[i + 1]);
            }
        }
        visited_cycle(work, last, stack, found, fuel);
    }
}

proof fn searched_cycle(work: Graph, keys: Seq<Seq<char>>)
    requires
        complete(work),
        forall|i: int| 0 <= i < keys.len() ==> work.contains_key(#[trigger] keys[i]),
        searched(work, keys) is Cycle,
    ensures
        closed_path(work, searched(work, keys)->Cycle_0),
    decreases keys.len(),
{
    let front = keys.drop_last();
    assert forall|i: int| 0 <= i < front.len() implies work.contains_key(#[trigger] front[i]) by {
        assert(front[i] == keys[i]);
    }
    assert(work.contains_key(keys[keys.len() - 1]));
    if searched(work, front) is Cycle {
        searched_cycle(work, front);
    } else {
        let found = searched(work, front)->Through_0;
        visited_cycle(work, keys.last(), Seq::empty(), found, work.dom().len());
    }
}

proof fn path_descends(work: Graph, rank: Map<Seq<char>, nat>, path: Seq<Seq<char>>, n: int)
    requires
        ranking(work, rank),
        path.len() > 0,
        0 <= n < path.len(),
        rank.contains_key(path[0]),
        forall|i: int|
            0 <= i < path.len() - 1 ==> work.contains_key(#[trigger] path[i])
                && work[path[i]].requires.contains(path[i + 1]),
    ensures
        rank.contains_key(path[n]),
        n > 0 ==> rank[path[n]] < rank[path[0]],
    decreases n,
{
    if n > 0 {
        path_descends(work, rank, path, n - 1);
        let k = path[n - 1];
        assert(work[k].requires.contains(path[n - 1 + 1]));
        let j = choose|j: int| 0 <= j < work[k].requires.len() && work[k].requires[j] == path[n];
        assert(rank.contains_key(work[k].requires[j]));
    }
}

/// A graph passes validation exactly when every requirement is there and is
/// another item, and no item waits for itself, however far around.
pub proof fn valid_graphs_are_the_acyclic_ones(work: Graph)
    requires
        work.dom().finite(),
    ensures
        graph_error(work) is None <==> (forall|k: Seq<char>|
            work.contains_key(k) ==> #[trigger] sound_item(work, k)) && acyclic(work),
{
    let keys = catalog::listing::<String>(work.dom());
    catalog::listing_exists::<String>(work.dom());
    assert(catalog::lists::<String>(keys, work.dom()));
    assert forall|i: int| 0 <= i < keys.len() implies work.contains_key(#[trigger] keys[i]) by {
        assert(keys.to_set().contains(keys[i]));
    }
    good_items(work, keys);
    if bad_item(work, keys) is None {
        assert forall|k: Seq<char>| work.contains_key(k) implies #[trigger] sound_item(work, k) by {
            assert(keys.to_set().contains(k));
            let j = choose|j: int| 0 <= j < keys.len() && keys[j] == k;
            assert(sound_item(work, keys[j]));
        }
        assert(complete(work)) by {
            assert forall|k: Seq<char>, i: int|
                work.contains_key(k) && 0 <= i < work[k].requires.len() implies work.contains_key(
                #[trigger] work[k].requires[i],
            ) by {
                assert(sound_item(work, k));
            }
        }
        if searched(work, keys) is Cycle {
            searched_cycle(work, keys);
        } else {
            let rank = searched_ranks(work, keys);
            assert forall|path: Seq<Seq<char>>| !closed_path(work, path) by {
                if closed_path(work, path) {
                    assert(work.contains_key(path[0]));
                    assert(keys.to_set().contains(path[0]));
                    let j = choose|j: int| 0 <= j < keys.len() && keys[j] == path[0];
                    assert(rank.contains_key(keys[j]));
                    path_descends(work, rank, path, path.len() - 1);
                }
            }
        }
    } else {
        let i = choose|i: int| 0 <= i < keys.len() && !sound_item(work, #[trigger] keys[i]);
        assert(work.contains_key(keys[i]));
    }
}

/// The cycle that a validation reports is one.
pub proof fn reported_cycles_are_cycles(work: Graph)
    requires
        work.dom().finite(),
        bad_item(work, catalog::listing::<String>(work.dom())) is None,
        searched(work, catalog::listing::<String>(work.dom())) is Cycle,
    ensures
        closed_path(work, searched(work, catalog::listing::<String>(work.dom()))->Cycle_0),
{
    let keys = catalog::listing::<String>(work.dom());
    catalog::listing_exists::<String>(work.dom());
    assert(catalog::lists::<String>(keys, work.dom()));
    assert forall|i: int| 0 <= i < keys.len() implies work.contains_key(#[trigger] keys[i]) by {
        assert(keys.to_set().contains(keys[i]));
    }
    good_items(work, keys);
    assert forall|k: Seq<char>, i: int|
        work.contains_key(k) && 0 <= i < work[k].requires.len() implies work.contains_key(
        #[trigger] work[k].requires[i],
    ) by {
        assert(keys.to_set().contains(k));
        let j = choose|j: int| 0 <= j < keys.len() && keys[j] == k;
        assert(sound_item(work, keys[j]));
    }
    searched_cycle(work, keys);
}

} // verus!

//! What holds of every project that a log folds into.

use vstd::prelude::*;

use crate::attempt::{AttemptDefinitionView, AttemptOutcome, AttemptView};
use crate::catalog;
use crate::error::ErrorView;
use crate::event::{EventPayloadView, EventView, WorkEventPayloadView};
use crate::fold;
use crate::graph;
use crate::graph::Graph;
use crate::observation::ObservationKeyView;
use crate::project::StateView;
use crate::question::{Question, QuestionDefinitionView, QuestionView};
use crate::record_laws;
use crate::rules;
use crate::sorting;
use crate::text;
use crate::work::{WorkDefinitionView, WorkOperationView, WorkState, WorkView};

verus! {

/// Everything is kept under its own ID or key, and there is a finite amount of it.
pub open spec fn keyed(s: StateView) -> bool {
    &&& s.work.dom().finite()
    &&& s.attempts.dom().finite()
    &&& s.questions.dom().finite()
    &&& s.observations.dom().finite()
    &&& forall|k: Seq<char>| s.work.contains_key(k) ==> (#[trigger] s.work[k]).id == k
    &&& forall|k: Seq<char>| s.attempts.contains_key(k) ==> (#[trigger] s.attempts[k]).id == k
    &&& forall|k: Seq<char>| s.questions.contains_key(k) ==> (#[trigger] s.questions[k]).id == k
    &&& forall|k: ObservationKeyView|
        s.observations.contains_key(k) ==> (#[trigger] s.observations[k]).key == k
}

/// At most one attempt runs at a work item.
pub open spec fn one_attempt_each(s: StateView) -> bool {
    forall|w: Seq<char>, a: Seq<char>, b: Seq<char>| #[trigger]
        rules::active_key(s, w, a) && #[trigger] rules::active_key(s, w, b) ==> a == b
}

/// A handle belongs to at most one attempt that has not ended.
pub open spec fn handles_exclusive(s: StateView) -> bool {
    forall|a: Seq<char>, b: Seq<char>|
        s.attempts.contains_key(a) && s.attempts.contains_key(b) && !((
        #[trigger] s.attempts[a]).state is Ended) && !((#[trigger] s.attempts[b]).state is Ended)
            && s.attempts[a].handle is Some && s.attempts[a].handle == s.attempts[b].handle ==> a
            == b
}

/// An attempt is at work that there is. While it runs, the work is not closed
/// and all that the work requires is done.
pub open spec fn attempts_founded(s: StateView) -> bool {
    forall|k: Seq<char>|
        s.attempts.contains_key(k) ==> {
            let work_id = (#[trigger] s.attempts[k]).work_id;
            &&& s.work.contains_key(work_id)
            &&& !(s.attempts[k].state is Ended) ==> !s.work[work_id].state.terminal()
                && rules::all_done(s, s.work[work_id].requires)
        }
}

/// A question is about work that there is, and open work waits for no answer.
pub open spec fn questions_founded(s: StateView) -> bool {
    forall|k: Seq<char>|
        s.questions.contains_key(k) ==> {
            let question = #[trigger] s.questions[k];
            &&& s.work.contains_key(question.work_id)
            &&& question.answer is None ==> !(s.work[question.work_id].state is Open)
        }
}

/// Exactly the blocked items have a reason to be blocked, only they have a time
/// to be reviewed at, and exactly the closed items have an outcome.
pub open spec fn states_told(s: StateView) -> bool {
    forall|k: Seq<char>|
        s.work.contains_key(k) ==> {
            let work = #[trigger] s.work[k];
            &&& work.block_reason is Some <==> work.state is Blocked
            &&& work.block_until is Some ==> work.state is Blocked
            &&& work.outcome is Some <==> work.state.terminal()
        }
}

/// All of it but the shape of the graph.
pub open spec fn sound_apart_from_graph(s: StateView) -> bool {
    &&& keyed(s)
    &&& one_attempt_each(s)
    &&& handles_exclusive(s)
    &&& attempts_founded(s)
    &&& questions_founded(s)
    &&& states_told(s)
}

/// All of it but what is recorded of each item and each attempt.
pub open spec fn founded(s: StateView) -> bool {
    &&& sound_apart_from_graph(s)
    &&& graph::graph_error(s.work) is None
}

/// What holds of every project.
pub open spec fn sound(s: StateView) -> bool {
    &&& founded(s)
    &&& record_laws::recorded(s)
}

// ---- sorting and filtering keep what there is ----

pub(crate) proof fn texts_weakly_ordered()
    ensures
        sorting::weak_order::<String>(),
{
    assert forall|a: Seq<char>| !#[trigger] <String as sorting::Ranked>::ahead(a, a) by {
        text::text_before_irreflexive(a);
    }
    assert forall|a: Seq<char>, b: Seq<char>, c: Seq<char>|
        #[trigger] <String as sorting::Ranked>::ahead(a, b)
            && #[trigger] <String as sorting::Ranked>::ahead(b, c) implies <String as sorting::Ranked>::ahead(
        a,
        c,
    ) by {
        text::text_before_transitive(a, b, c);
    }
    assert forall|a: Seq<char>, b: Seq<char>, c: Seq<char>|
        #[trigger] <String as sorting::Ranked>::ahead(a, c) implies <String as sorting::Ranked>::ahead(
        a,
        b,
    ) || #[trigger] <String as sorting::Ranked>::ahead(b, c) by {
        text::text_before_total(a, b);
        if text::text_before(b, a) {
            text::text_before_transitive(b, a, c);
        }
    }
}

pub(crate) proof fn sorted_holds_the_same(items: Seq<Seq<char>>, item: Seq<char>)
    ensures
        sorting::sorted::<String>(items).contains(item) <==> items.contains(item),
{
    broadcast use vstd::seq_lib::group_to_multiset_ensures;

    texts_weakly_ordered();
    sorting::sorted_is_ordered_permutation::<String>(items);
    assert(sorting::sorted::<String>(items).to_multiset().count(item)
        == items.to_multiset().count(item));
}

pub(crate) proof fn nothing_removed(items: Seq<Seq<char>>)
    ensures
        rules::without(items, Seq::empty()) == items,
    decreases items.len(),
{
    if items.len() > 0 {
        nothing_removed(items.drop_last());
        assert(items =~= items.drop_last().push(items.last()));
    }
}

proof fn sorted_all_done(s: StateView, items: Seq<Seq<char>>)
    requires
        rules::all_done(s, items),
    ensures
        rules::all_done(s, sorting::sorted::<String>(items)),
{
    let ordered = sorting::sorted::<String>(items);
    assert forall|i: int| 0 <= i < ordered.len() implies rules::done(s, #[trigger] ordered[i]) by {
        assert(ordered.contains(ordered[i]));
        sorted_holds_the_same(items, ordered[i]);
        let j = choose|j: int| 0 <= j < items.len() && items[j] == ordered[i];
        assert(rules::done(s, items[j]));
    }
}

/// Where attempts are kept under their IDs and at most one runs at an item, the
/// attempt that runs there is told.
pub proof fn active_attempt_is_the_one(s: StateView, work_id: Seq<char>, key: Seq<char>)
    requires
        one_attempt_each(s),
        rules::active_key(s, work_id, key),
    ensures
        rules::active_attempt(s, work_id) == Some(s.attempts[key]),
{
    assert(rules::first_active_key(s, work_id, key));
    let chosen = choose|k: Seq<char>| rules::first_active_key(s, work_id, k);
    assert(rules::first_active_key(s, work_id, chosen));
}

pub(crate) proof fn active_attempt_has_a_key(s: StateView, work_id: Seq<char>) -> (key: Seq<char>)
    requires
        one_attempt_each(s),
        rules::active_attempt(s, work_id) is Some,
    ensures
        rules::active_key(s, work_id, key),
        rules::active_attempt(s, work_id) == Some(s.attempts[key]),
{
    let key = choose|key: Seq<char>| rules::active_key(s, work_id, key);
    active_attempt_is_the_one(s, work_id, key);
    key
}

// ---- waiting questions ----

proof fn waiting_among_finds(s: StateView, work_id: Seq<char>, keys: Seq<Seq<char>>)
    ensures
        rules::waiting_among(s, work_id, keys).len() > 0 <==> exists|i: int|
            0 <= i < keys.len() && rules::waits(#[trigger] s.questions[keys[i]], work_id),
    decreases keys.len(),
{
    if keys.len() > 0 {
        let front = keys.drop_last();
        waiting_among_finds(s, work_id, front);
        if rules::waits(s.questions[keys.last()], work_id) {
            assert(rules::waits(s.questions[keys[keys.len() - 1]], work_id));
        } else if exists|i: int|
            0 <= i < keys.len() && rules::waits(#[trigger] s.questions[keys[i]], work_id) {
            let i = choose|i: int|
                0 <= i < keys.len() && rules::waits(#[trigger] s.questions[keys[i]], work_id);
            assert(rules::waits(s.questions[front[i]], work_id));
        }
        if exists|i: int|
            0 <= i < front.len() && rules::waits(#[trigger] s.questions[front[i]], work_id) {
            let i = choose|i: int|
                0 <= i < front.len() && rules::waits(#[trigger] s.questions[front[i]], work_id);
            assert(rules::waits(s.questions[keys[i]], work_id));
        }
    }
}

proof fn placed_len<T: sorting::Ranked>(items: Seq<T::V>, item: T::V)
    ensures
        sorting::placed::<T>(items, item).len() == items.len() + 1,
    decreases items.len(),
{
    if items.len() > 0 && T::ahead(item, items.last()) {
        placed_len::<T>(items.drop_last(), item);
    }
}

pub proof fn sorted_len<T: sorting::Ranked>(items: Seq<T::V>)
    ensures
        sorting::sorted::<T>(items).len() == items.len(),
    decreases items.len(),
{
    if items.len() > 0 {
        sorted_len::<T>(items.drop_last());
        placed_len::<T>(sorting::sorted::<T>(items.drop_last()), items.last());
    }
}

/// The listing of waiting questions is empty exactly where none waits.
pub proof fn unanswered_lists_the_waiting(s: StateView, work_id: Seq<char>)
    requires
        s.questions.dom().finite(),
    ensures
        rules::unanswered(s, work_id).len() > 0 <==> rules::has_unanswered(s, work_id),
{
    let keys = catalog::listing::<String>(s.questions.dom());
    catalog::listing_exists::<String>(s.questions.dom());
    waiting_among_finds(s, work_id, keys);
    sorted_len::<&Question>(rules::waiting_among(s, work_id, keys));
    if rules::has_unanswered(s, work_id) {
        let k = choose|k: Seq<char>|
            s.questions.contains_key(k) && rules::waits(#[trigger] s.questions[k], work_id);
        assert(keys.to_set().contains(k));
        let i = choose|i: int| 0 <= i < keys.len() && keys[i] == k;
        assert(rules::waits(s.questions[keys[i]], work_id));
    }
    if rules::waiting_among(s, work_id, keys).len() > 0 {
        let i = choose|i: int|
            0 <= i < keys.len() && rules::waits(#[trigger] s.questions[keys[i]], work_id);
        assert(keys.to_set().contains(keys[i]));
        assert(s.questions.contains_key(keys[i]));
    }
}

// ---- what builds on an item ----

proof fn none_active_at(s: StateView, ids: Seq<Seq<char>>, i: int)
    requires
        rules::active_at(s, ids).len() == 0,
        0 <= i < ids.len(),
    ensures
        rules::active_attempt(s, ids[i]) is None,
    decreases ids.len(),
{
    if i < ids.len() - 1 {
        none_active_at(s, ids.drop_last(), i);
    }
}

/// Nothing runs at what directly requires an item that may change.
proof fn nothing_builds_on(s: StateView, work_id: Seq<char>, id: Seq<char>)
    requires
        keyed(s),
        rules::downstream_error(s, work_id) is None,
        s.work.contains_key(id),
        s.work[id].requires.contains(work_id),
    ensures
        rules::active_attempt(s, id) is None,
{
    assert(s.work[id].id == id);
    assert(rules::depends(s, id, work_id));
    let way = seq![work_id, id];
    assert forall|i: int| 0 <= i < way.len() - 1 implies #[trigger] rules::depends(
        s,
        way[i + 1],
        way[i],
    ) by {}
    assert(rules::leads(s, work_id, id, way));
    let set = rules::downstream_set(s, work_id);
    assert(set.contains(id));
    assert forall|x: Seq<char>| set.contains(x) implies s.work.dom().contains(x) by {
        let w = choose|w: Seq<Seq<char>>| rules::leads(s, work_id, x, w);
        assert(rules::depends(s, w[w.len() - 2 + 1], w[w.len() - 2]));
        let key = choose|key: Seq<char>|
            s.work.contains_key(key) && #[trigger] s.work[key].id == x
                && s.work[key].requires.contains(w[w.len() - 2]);
        assert(s.work[key].id == key);
    }
    vstd::set_lib::lemma_set_subset_finite(s.work.dom(), set);
    catalog::listing_exists::<String>(set);
    let ids = rules::downstream(s, work_id);
    assert(ids.to_set().contains(id));
    let i = choose|i: int| 0 <= i < ids.len() && ids[i] == id;
    none_active_at(s, ids, i);
}

// ---- the graph ----

/// Whether a graph holds together rests on IDs and requirements alone.
proof fn graph_rests_on_requirements(a: Graph, b: Graph)
    requires
        a.dom().finite(),
        a.dom() == b.dom(),
        forall|k: Seq<char>|
            a.contains_key(k) ==> (#[trigger] a[k]).id == b[k].id && a[k].requires == b[k].requires,
        graph::graph_error(a) is None,
    ensures
        graph::graph_error(b) is None,
{
    graph::valid_graphs_are_the_acyclic_ones(a);
    graph::valid_graphs_are_the_acyclic_ones(b);
    assert forall|k: Seq<char>| b.contains_key(k) implies #[trigger] graph::sound_item(b, k) by {
        assert(graph::sound_item(a, k));
        assert(a[k].requires == b[k].requires);
        assert forall|i: int| 0 <= i < b[k].requires.len() implies b.contains_key(
            #[trigger] b[k].requires[i],
        ) && b[k].requires[i] != b[k].id by {
            assert(a.contains_key(a[k].requires[i]));
        }
    }
    assert forall|path: Seq<Seq<char>>| !graph::closed_path(b, path) by {
        if graph::closed_path(b, path) {
            assert forall|i: int| 0 <= i < path.len() - 1 implies a.contains_key(
                #[trigger] path[i],
            ) && a[path[i]].requires.contains(path[i + 1]) by {
                assert(b.contains_key(path[i]));
                assert(a[path[i]].requires == b[path[i]].requires);
            }
            assert(graph::closed_path(a, path));
        }
    }
}

// ---- one change at a time ----

/// The item tells its state as it should.
pub open spec fn tells_state(work: WorkView) -> bool {
    &&& work.block_reason is Some <==> work.state is Blocked
    &&& work.block_until is Some ==> work.state is Blocked
    &&& work.outcome is Some <==> work.state.terminal()
}

proof fn setting_work_keeps(s: StateView, id: Seq<char>, work: WorkView)
    requires
        sound_apart_from_graph(s),
        work.id == id,
        tells_state(work),
        // Nothing runs at the item, or the item stays open to it.
        rules::active_attempt(s, id) is Some ==> !work.state.terminal() && rules::all_done(
            s,
            work.requires,
        ),
        // The item does not stop being done under what runs on it.
        rules::done(s, id) && !(work.state is Done) ==> forall|k: Seq<char>|
            s.work.contains_key(k) && (#[trigger] s.work[k]).requires.contains(id)
                ==> rules::active_attempt(s, k) is None,
        work.state is Open ==> !rules::has_unanswered(s, id),
    ensures
        sound_apart_from_graph(rules::set_work(s, id, work)),
{
    let t = rules::set_work(s, id, work);
    assert forall|w: Seq<char>, a: Seq<char>, b: Seq<char>| #[trigger]
        rules::active_key(t, w, a) && #[trigger] rules::active_key(t, w, b) implies a == b by {
        assert(rules::active_key(s, w, a));
        assert(rules::active_key(s, w, b));
    }
    assert(handles_exclusive(t));
    assert forall|k: Seq<char>| t.attempts.contains_key(k) implies {
        let work_id = (#[trigger] t.attempts[k]).work_id;
        &&& t.work.contains_key(work_id)
        &&& !(t.attempts[k].state is Ended) ==> !t.work[work_id].state.terminal()
            && rules::all_done(t, t.work[work_id].requires)
    } by {
        let attempt = s.attempts[k];
        assert(s.work.contains_key(attempt.work_id));
        if !(attempt.state is Ended) {
            assert(rules::active_key(s, attempt.work_id, k));
            active_attempt_is_the_one(s, attempt.work_id, k);
            let needs = t.work[attempt.work_id].requires;
            assert(rules::all_done(s, needs));
            assert forall|i: int| 0 <= i < needs.len() implies rules::done(t, #[trigger] needs[i]) by {
                assert(rules::done(s, needs[i]));
                if needs[i] == id && !(work.state is Done) {
                    if attempt.work_id != id {
                        assert(s.work[attempt.work_id].requires.contains(id));
                        assert(false);
                    } else {
                        assert(!s.work[id].state.terminal());
                    }
                }
            }
        }
    }
    assert forall|k: Seq<char>| t.questions.contains_key(k) implies {
        let question = #[trigger] t.questions[k];
        &&& t.work.contains_key(question.work_id)
        &&& question.answer is None ==> !(t.work[question.work_id].state is Open)
    } by {
        let question = s.questions[k];
        assert(s.work.contains_key(question.work_id));
        if question.answer is None && question.work_id == id {
            assert(rules::waits(s.questions[k], id));
        }
    }
    assert(states_told(t));
}

proof fn setting_attempt_keeps(s: StateView, id: Seq<char>, attempt: AttemptView)
    requires
        sound_apart_from_graph(s),
        attempt.id == id,
        s.work.contains_key(attempt.work_id),
        !(attempt.state is Ended) ==> {
            &&& !s.work[attempt.work_id].state.terminal()
            &&& rules::all_done(s, s.work[attempt.work_id].requires)
            &&& rules::active_attempt(s, attempt.work_id) is Some ==> rules::active_key(
                s,
                attempt.work_id,
                id,
            )
        },
        !(attempt.state is Ended) && attempt.handle is Some ==> forall|k: Seq<char>|
            s.attempts.contains_key(k) && k != id && !((#[trigger] s.attempts[k]).state is Ended)
                ==> s.attempts[k].handle != attempt.handle,
    ensures
        sound_apart_from_graph(rules::set_attempt(s, id, attempt)),
{
    let t = rules::set_attempt(s, id, attempt);
    assert forall|w: Seq<char>, a: Seq<char>, b: Seq<char>| #[trigger]
        rules::active_key(t, w, a) && #[trigger] rules::active_key(t, w, b) implies a == b by {
        if a != id {
            assert(rules::active_key(s, w, a));
            active_attempt_is_the_one(s, w, a);
        }
        if b != id {
            assert(rules::active_key(s, w, b));
            active_attempt_is_the_one(s, w, b);
        }
        if a == id && b != id {
            assert(rules::active_key(s, w, id));
        }
        if b == id && a != id {
            assert(rules::active_key(s, w, id));
        }
    }
    assert(handles_exclusive(t));
    assert forall|k: Seq<char>| t.attempts.contains_key(k) implies {
        let work_id = (#[trigger] t.attempts[k]).work_id;
        &&& t.work.contains_key(work_id)
        &&& !(t.attempts[k].state is Ended) ==> !t.work[work_id].state.terminal()
            && rules::all_done(t, t.work[work_id].requires)
    } by {
        let held = t.attempts[k];
        if k != id {
            assert(s.work.contains_key(s.attempts[k].work_id));
        }
        if !(held.state is Ended) {
            let needs = t.work[held.work_id].requires;
            assert(rules::all_done(s, needs));
            assert forall|i: int| 0 <= i < needs.len() implies rules::done(t, #[trigger] needs[i]) by {
                assert(rules::done(s, needs[i]));
            }
        }
    }
    assert(questions_founded(t));
    assert(states_told(t));
}

// ---- the steps ----

proof fn adding_keeps(s: StateView, seq: u64, work: WorkDefinitionView)
    requires
        sound_apart_from_graph(s),
        rules::add_work(s, seq, work) is Ok,
    ensures
        sound_apart_from_graph(rules::add_work(s, seq, work)->Ok_0),
{
    let id = work.id;
    if rules::active_attempt(s, id) is Some {
        let key = active_attempt_has_a_key(s, id);
        assert(s.work.contains_key(s.attempts[key].work_id));
    }
    if rules::has_unanswered(s, id) {
        let k = choose|k: Seq<char>|
            s.questions.contains_key(k) && rules::waits(#[trigger] s.questions[k], id);
        assert(s.work.contains_key(s.questions[k].work_id));
    }
    setting_work_keeps(s, id, rules::opened(work, seq));
}

proof fn editing_keeps(s: StateView, seq: u64, edit: WorkOperationView)
    requires
        sound_apart_from_graph(s),
        rules::edit_work(s, seq, edit) is Ok,
    ensures
        sound_apart_from_graph(rules::edit_work(s, seq, edit)->Ok_0),
{
    match edit {
        WorkOperationView::Add { work } => {
            adding_keeps(s, seq, work);
        },
        WorkOperationView::Edit { id, add_requires, remove_requires, .. } => {
            let before = s.work[id];
            let after = (rules::edit_work(s, seq, edit)->Ok_0).work[id];
            assert(before.id == id);
            assert(tells_state(before));
            if rules::active_attempt(s, id) is Some {
                let key = active_attempt_has_a_key(s, id);
                assert(s.work.contains_key(s.attempts[key].work_id));
                assert(rules::all_done(s, before.requires));
                assert(remove_requires =~= Seq::empty());
                assert(add_requires =~= Seq::empty());
                nothing_removed(before.requires);
                sorted_all_done(s, before.requires);
                assert(after.requires == sorting::sorted::<String>(before.requires));
            }
            if after.state is Open && rules::has_unanswered(s, id) {
                let k = choose|k: Seq<char>|
                    s.questions.contains_key(k) && rules::waits(#[trigger] s.questions[k], id);
                assert(!(s.work[s.questions[k].work_id].state is Open));
            }
            setting_work_keeps(s, id, after);
        },
    }
}

pub(crate) proof fn operating_keeps(s: StateView, seq: u64, operations: Seq<WorkOperationView>)
    requires
        sound_apart_from_graph(s),
        rules::operated(s, seq, operations) is Ok,
    ensures
        sound_apart_from_graph(rules::operated(s, seq, operations)->Ok_0),
    decreases operations.len(),
{
    if operations.len() > 0 {
        operating_keeps(s, seq, operations.drop_last());
        let middle = rules::operated(s, seq, operations.drop_last())->Ok_0;
        editing_keeps(middle, seq, operations.last());
    }
}

/// Ending an attempt that runs at an item leaves nothing running there.
pub(crate) proof fn ending_frees(
    s: StateView,
    work_id: Seq<char>,
    id: Seq<char>,
    outcome: AttemptOutcome,
    seq: u64,
)
    requires
        sound_apart_from_graph(s),
        rules::active_attempt(s, work_id) is Some,
        rules::active_attempt(s, work_id)->0.id == id,
    ensures
        ({
            let t = rules::set_attempt(s, id, rules::ended(s.attempts[id], outcome, seq));
            &&& s.attempts.contains_key(id)
            &&& sound_apart_from_graph(t)
            &&& rules::active_attempt(t, work_id) is None
        }),
{
    let key = active_attempt_has_a_key(s, work_id);
    assert(s.attempts[key].id == key);
    let t = rules::set_attempt(s, id, rules::ended(s.attempts[id], outcome, seq));
    assert(s.work.contains_key(s.attempts[id].work_id));
    setting_attempt_keeps(s, id, rules::ended(s.attempts[id], outcome, seq));
    if rules::active_attempt(t, work_id) is Some {
        let other = active_attempt_has_a_key(t, work_id);
        assert(rules::active_key(s, work_id, other));
    }
}

proof fn same_requirements(s: StateView, id: Seq<char>, work: WorkView)
    requires
        founded(s),
        s.work.contains_key(id),
        work.id == id,
        work.requires == s.work[id].requires,
    ensures
        graph::graph_error(rules::set_work(s, id, work).work) is None,
{
    let t = rules::set_work(s, id, work);
    assert(t.work.dom() =~= s.work.dom());
    assert(s.work[id].id == id);
    graph_rests_on_requirements(s.work, t.work);
}

proof fn finishing_keeps(
    s: StateView,
    seq: u64,
    work_id: Seq<char>,
    attempt_id: Option<Seq<char>>,
    external: bool,
    evidence: Option<Seq<char>>,
)
    requires
        founded(s),
        rules::finish_work(s, seq, work_id, attempt_id, external, evidence) is Ok,
    ensures
        founded(rules::finish_work(s, seq, work_id, attempt_id, external, evidence)->Ok_0),
{
    let t = rules::finish_work(s, seq, work_id, attempt_id, external, evidence)->Ok_0;
    assert(s.work[work_id].id == work_id);
    assert(tells_state(s.work[work_id]));
    if external {
        setting_work_keeps(s, work_id, t.work[work_id]);
    } else {
        let provided = attempt_id->0;
        ending_frees(s, work_id, provided, AttemptOutcome::Succeeded, seq);
        let middle = rules::set_attempt(
            s,
            provided,
            rules::ended(s.attempts[provided], AttemptOutcome::Succeeded, seq),
        );
        setting_work_keeps(middle, work_id, t.work[work_id]);
    }
    same_requirements(s, work_id, t.work[work_id]);
}

proof fn dropping_keeps(
    s: StateView,
    seq: u64,
    work_id: Seq<char>,
    attempt_id: Option<Seq<char>>,
    outcome: Option<AttemptOutcome>,
    why: Seq<char>,
)
    requires
        founded(s),
        rules::drop_work(s, seq, work_id, attempt_id, outcome, why) is Ok,
    ensures
        founded(rules::drop_work(s, seq, work_id, attempt_id, outcome, why)->Ok_0),
{
    let t = rules::drop_work(s, seq, work_id, attempt_id, outcome, why)->Ok_0;
    assert(s.work[work_id].id == work_id);
    assert(tells_state(s.work[work_id]));
    let middle = rules::release(s, seq, work_id, attempt_id, outcome)->Ok_0;
    if rules::active_attempt(s, work_id) is Some {
        ending_frees(s, work_id, attempt_id->0, outcome->0, seq);
    }
    assert(rules::active_attempt(middle, work_id) is None);
    setting_work_keeps(middle, work_id, t.work[work_id]);
    same_requirements(s, work_id, t.work[work_id]);
}

proof fn reopening_keeps(s: StateView, seq: u64, work_id: Seq<char>, why: Seq<char>)
    requires
        founded(s),
        rules::reopen_work(s, seq, work_id, why) is Ok,
    ensures
        founded(rules::reopen_work(s, seq, work_id, why)->Ok_0),
{
    let t = rules::reopen_work(s, seq, work_id, why)->Ok_0;
    assert(s.work[work_id].id == work_id);
    unanswered_lists_the_waiting(s, work_id);
    if rules::active_attempt(s, work_id) is Some {
        let key = active_attempt_has_a_key(s, work_id);
        assert(!s.work[s.attempts[key].work_id].state.terminal());
    }
    assert forall|k: Seq<char>|
        s.work.contains_key(k) && (#[trigger] s.work[k]).requires.contains(
            work_id,
        ) implies rules::active_attempt(s, k) is None by {
        nothing_builds_on(s, work_id, k);
    }
    setting_work_keeps(s, work_id, t.work[work_id]);
    same_requirements(s, work_id, t.work[work_id]);
}

proof fn starting_keeps(s: StateView, seq: u64, attempt: AttemptDefinitionView)
    requires
        founded(s),
        rules::start_attempt(s, seq, attempt) is Ok,
    ensures
        founded(rules::start_attempt(s, seq, attempt)->Ok_0),
{
    let t = rules::start_attempt(s, seq, attempt)->Ok_0;
    setting_attempt_keeps(s, attempt.id, t.attempts[attempt.id]);
}

/// An attempt that has not ended may go on, with the handle it has or a free one.
proof fn going_on_keeps(s: StateView, id: Seq<char>, attempt: AttemptView)
    requires
        founded(s),
        rules::attempt_error(s, id) is None,
        attempt.id == s.attempts[id].id,
        attempt.work_id == s.attempts[id].work_id,
        attempt.handle == s.attempts[id].handle || (attempt.handle is Some && !rules::attached(
            s,
            attempt.handle->0,
        )),
    ensures
        founded(rules::set_attempt(s, id, attempt)),
{
    assert(s.attempts[id].id == id);
    assert(s.work.contains_key(s.attempts[id].work_id));
    assert(rules::active_key(s, attempt.work_id, id));
    if attempt.handle is Some {
        assert forall|k: Seq<char>|
            s.attempts.contains_key(k) && k != id && !((
            #[trigger] s.attempts[k]).state is Ended) implies s.attempts[k].handle
            != attempt.handle by {
            assert(!(s.attempts[id].state is Ended));
        }
    }
    setting_attempt_keeps(s, id, attempt);
}

proof fn asking_keeps(s: StateView, seq: u64, question: QuestionDefinitionView)
    requires
        founded(s),
        rules::ask(s, seq, question) is Ok,
    ensures
        founded(rules::ask(s, seq, question)->Ok_0),
{
    let t = rules::ask(s, seq, question)->Ok_0;
    let id = question.work_id;
    let held = t.work[id];
    assert(s.work[id].id == id);
    assert(tells_state(s.work[id]));
    if rules::active_attempt(s, id) is Some {
        let key = active_attempt_has_a_key(s, id);
        assert(s.work.contains_key(s.attempts[key].work_id));
    }
    setting_work_keeps(s, id, held);
    same_requirements(s, id, held);
    let middle = rules::set_work(s, id, held);
    assert(t.work == middle.work);
    assert(t.attempts == middle.attempts);
    assert forall|w: Seq<char>, a: Seq<char>, b: Seq<char>| #[trigger]
        rules::active_key(t, w, a) && #[trigger] rules::active_key(t, w, b) implies a == b by {
        assert(rules::active_key(middle, w, a));
        assert(rules::active_key(middle, w, b));
    }
    assert forall|k: Seq<char>| t.attempts.contains_key(k) implies {
        let work_id = (#[trigger] t.attempts[k]).work_id;
        &&& t.work.contains_key(work_id)
        &&& !(t.attempts[k].state is Ended) ==> !t.work[work_id].state.terminal()
            && rules::all_done(t, t.work[work_id].requires)
    } by {
        let attempt = middle.attempts[k];
        if !(attempt.state is Ended) {
            let needs = t.work[attempt.work_id].requires;
            assert(rules::all_done(middle, needs));
            assert forall|i: int| 0 <= i < needs.len() implies rules::done(t, #[trigger] needs[i]) by {
                assert(rules::done(middle, needs[i]));
            }
        }
    }
    assert forall|k: Seq<char>| t.questions.contains_key(k) implies {
        let q = #[trigger] t.questions[k];
        &&& t.work.contains_key(q.work_id)
        &&& q.answer is None ==> !(t.work[q.work_id].state is Open)
    } by {
        if k != question.id {
            assert(middle.work.contains_key(middle.questions[k].work_id));
        }
    }
}

/// A change that leaves work and attempts alone, and leaves no question waiting
/// that did not wait.
proof fn work_untouched_keeps(s: StateView, t: StateView)
    requires
        founded(s),
        t.work == s.work,
        t.attempts == s.attempts,
        t.observations.dom().finite(),
        forall|k: ObservationKeyView|
            t.observations.contains_key(k) ==> (#[trigger] t.observations[k]).key == k,
        t.questions.dom() == s.questions.dom(),
        forall|k: Seq<char>|
            s.questions.contains_key(k) ==> (#[trigger] t.questions[k]).id == s.questions[k].id
                && t.questions[k].work_id == s.questions[k].work_id && (t.questions[k].answer is None
                ==> s.questions[k].answer is None),
    ensures
        founded(t),
{
    assert forall|w: Seq<char>, a: Seq<char>, b: Seq<char>| #[trigger]
        rules::active_key(t, w, a) && #[trigger] rules::active_key(t, w, b) implies a == b by {
        assert(rules::active_key(s, w, a));
        assert(rules::active_key(s, w, b));
    }
    assert forall|k: Seq<char>| t.attempts.contains_key(k) implies {
        let work_id = (#[trigger] t.attempts[k]).work_id;
        &&& t.work.contains_key(work_id)
        &&& !(t.attempts[k].state is Ended) ==> !t.work[work_id].state.terminal()
            && rules::all_done(t, t.work[work_id].requires)
    } by {
        let attempt = s.attempts[k];
        if !(attempt.state is Ended) {
            let needs = t.work[attempt.work_id].requires;
            assert(rules::all_done(s, needs));
            assert forall|i: int| 0 <= i < needs.len() implies rules::done(t, #[trigger] needs[i]) by {
                assert(rules::done(s, needs[i]));
            }
        }
    }
    assert forall|k: Seq<char>| t.questions.contains_key(k) implies {
        let q = #[trigger] t.questions[k];
        &&& t.work.contains_key(q.work_id)
        &&& q.answer is None ==> !(t.work[q.work_id].state is Open)
    } by {
        assert(s.questions.contains_key(k));
        assert(s.work.contains_key(s.questions[k].work_id));
    }
}

proof fn work_steps_keep(s: StateView, seq: u64, actor: Seq<char>, payload: WorkEventPayloadView)
    requires
        founded(s),
        rules::work_step(s, seq, actor, payload) is Ok,
    ensures
        founded(rules::work_step(s, seq, actor, payload)->Ok_0),
{
    let t = rules::work_step(s, seq, actor, payload)->Ok_0;
    match payload {
        WorkEventPayloadView::LegacyHandoffSubmitted { .. } => {},
        WorkEventPayloadView::LegacyHandoffWithdrawn { .. } => {},
        WorkEventPayloadView::LegacyHandoffIntegrated { work, .. } => {
            adding_keeps(s, seq, work);
        },
        WorkEventPayloadView::WorkChanged { operations, .. } => {
            operating_keeps(s, seq, operations);
        },
        WorkEventPayloadView::WorkFinished { work_id, attempt_id, external, evidence } => {
            finishing_keeps(s, seq, work_id, attempt_id, external, evidence);
        },
        WorkEventPayloadView::WorkDropped { work_id, attempt_id, outcome, why } => {
            dropping_keeps(s, seq, work_id, attempt_id, outcome, why);
        },
        WorkEventPayloadView::WorkReopened { work_id, why } => {
            reopening_keeps(s, seq, work_id, why);
        },
        WorkEventPayloadView::AttemptStarted { attempt } => {
            starting_keeps(s, seq, attempt);
        },
        WorkEventPayloadView::AttemptBound { attempt_id, .. } => {
            going_on_keeps(s, attempt_id, t.attempts[attempt_id]);
        },
        WorkEventPayloadView::AttemptUpdated { attempt_id, .. } => {
            going_on_keeps(s, attempt_id, t.attempts[attempt_id]);
        },
        WorkEventPayloadView::AttemptEnded { attempt_id, outcome, .. } => {
            assert(s.attempts[attempt_id].id == attempt_id);
            assert(s.work.contains_key(s.attempts[attempt_id].work_id));
            setting_attempt_keeps(
                s,
                attempt_id,
                rules::ended(s.attempts[attempt_id], outcome, seq),
            );
        },
        WorkEventPayloadView::QuestionAsked { question } => {
            asking_keeps(s, seq, question);
        },
        WorkEventPayloadView::QuestionAnswered { question_id, .. } => {
            assert(s.questions[question_id].id == question_id);
            assert(t.questions.dom() =~= s.questions.dom());
            work_untouched_keeps(s, t);
        },
    }
}

/// Every event that is accepted leaves a sound project sound.
pub proof fn steps_keep_soundness(s: StateView, event: EventView)
    requires
        sound(s),
        rules::step(s, event) is Ok,
    ensures
        sound(rules::step(s, event)->Ok_0),
{
    let t = rules::step(s, event)->Ok_0;
    match event.payload {
        EventPayloadView::Work(payload) => {
            work_steps_keep(s, event.seq, event.actor, payload);
        },
        EventPayloadView::Observation(_) => {
            work_untouched_keeps(s, t);
        },
        EventPayloadView::Loop(_) => {
            work_untouched_keeps(s, t);
        },
    }
    record_laws::steps_keep_records(s, event);
}

/// Every project that a log folds into is sound: nothing waits for itself, at
/// most one attempt runs at an item, a live handle is one attempt's, what runs
/// rests on done work, open work waits for no answer, items are in order, attempts and
/// answers are told, and what runs has exactly the checks of its work.
pub proof fn folded_projects_are_sound(events: Seq<EventView>)
    requires
        rules::folded(events) is Ok,
    ensures
        sound(rules::folded(events)->Ok_0),
    decreases events.len(),
{
    if events.len() == 0 {
        let s = rules::blank_state();
        let none = Map::<Seq<char>, WorkView>::empty();
        graph::valid_graphs_are_the_acyclic_ones(none);
        assert forall|path: Seq<Seq<char>>| !graph::closed_path(none, path) by {
            if graph::closed_path(none, path) {
                assert(none.contains_key(path[0]));
            }
        }
        assert forall|w: Seq<char>, a: Seq<char>, b: Seq<char>| #[trigger]
            rules::active_key(s, w, a) && #[trigger] rules::active_key(s, w, b) implies a == b by {
        }
    } else {
        folded_projects_are_sound(events.drop_last());
        steps_keep_soundness(rules::folded(events.drop_last())->Ok_0, events.last());
    }
}

// ---- questions ----

/// Answering a question changes the question alone: the work stays as it is
/// until somebody unblocks it.
pub proof fn answering_changes_no_work(
    s: StateView,
    seq: u64,
    actor: Seq<char>,
    question_id: Seq<char>,
    answer: Seq<char>,
)
    requires
        rules::answer_question(s, seq, actor, question_id, answer) is Ok,
    ensures
        ({
            let t = rules::answer_question(s, seq, actor, question_id, answer)->Ok_0;
            &&& t.work == s.work
            &&& t.attempts == s.attempts
            &&& t.questions[question_id].answer == Some(answer)
            &&& s.questions[question_id].answers.is_prefix_of(t.questions[question_id].answers)
            &&& t.questions[question_id].answers.len() == s.questions[question_id].answers.len() + 1
            &&& forall|k: Seq<char>|
                k != question_id && s.questions.contains_key(k) ==> #[trigger] t.questions[k]
                    == s.questions[k]
        }),
{
    let t = rules::answer_question(s, seq, actor, question_id, answer)->Ok_0;
    let before = s.questions[question_id].answers;
    assert(before =~= t.questions[question_id].answers.subrange(0, before.len() as int));
}

/// Work is not unblocked while a question about it waits.
pub proof fn waiting_work_stays_blocked(s: StateView, seq: u64, edit: WorkOperationView)
    requires
        sound(s),
        edit is Edit,
        s.work.contains_key(edit.target()),
        rules::has_unanswered(s, edit.target()),
        rules::edit_work(s, seq, edit) is Ok,
    ensures
        (rules::edit_work(s, seq, edit)->Ok_0).work[edit.target()].state is Blocked,
{
    let id = edit.target();
    let k = choose|k: Seq<char>|
        s.questions.contains_key(k) && rules::waits(#[trigger] s.questions[k], id);
    assert(!(s.work[s.questions[k].work_id].state is Open));
}

/// Reopened work is blocked exactly where a question about it still waits, and
/// carries no deadline.
pub proof fn reopened_work_waits_for_surviving_questions(
    s: StateView,
    seq: u64,
    work_id: Seq<char>,
    why: Seq<char>,
)
    requires
        s.questions.dom().finite(),
        rules::reopen_work(s, seq, work_id, why) is Ok,
    ensures
        ({
            let work = (rules::reopen_work(s, seq, work_id, why)->Ok_0).work[work_id];
            &&& work.state is Blocked <==> rules::has_unanswered(s, work_id)
            &&& work.state is Open <==> !rules::has_unanswered(s, work_id)
            &&& work.block_until is None
            &&& work.outcome is None
        }),
{
    unanswered_lists_the_waiting(s, work_id);
}

/// Closing work strands its questions, and reopening it takes them up again.
pub proof fn stranding_follows_the_work(s: StateView, question: QuestionView, event: EventView)
    requires
        rules::step(s, event) is Ok,
    ensures
        ({
            let t = rules::step(s, event)->Ok_0;
            match event.payload {
                EventPayloadView::Work(
                    WorkEventPayloadView::WorkFinished { work_id, .. },
                ) => question.work_id == work_id ==> rules::stranded_by(t, question) == Some(
                    WorkState::Done,
                ),
                EventPayloadView::Work(
                    WorkEventPayloadView::WorkDropped { work_id, .. },
                ) => question.work_id == work_id ==> rules::stranded_by(t, question) == Some(
                    WorkState::Dropped,
                ),
                EventPayloadView::Work(
                    WorkEventPayloadView::WorkReopened { work_id, .. },
                ) => question.work_id == work_id ==> rules::stranded_by(t, question) is None,
                _ => true,
            }
        }),
{
}

// ---- attempts and checks ----

proof fn incomplete_among_finds(
    checks: Map<Seq<char>, crate::attempt::AttemptCheckView>,
    keys: Seq<Seq<char>>,
    i: int,
)
    requires
        rules::incomplete_among(checks, keys).len() == 0,
        0 <= i < keys.len(),
    ensures
        checks[keys[i]].status is Satisfied,
    decreases keys.len(),
{
    if i < keys.len() - 1 {
        incomplete_among_finds(checks, keys.drop_last(), i);
    }
}

/// Work that an attempt finishes has every check of that attempt satisfied.
pub proof fn finished_work_has_all_checks_satisfied(
    s: StateView,
    seq: u64,
    work_id: Seq<char>,
    attempt_id: Option<Seq<char>>,
    evidence: Option<Seq<char>>,
    key: Seq<char>,
)
    requires
        rules::finish_work(s, seq, work_id, attempt_id, false, evidence) is Ok,
        rules::active_attempt(s, work_id)->0.checks.dom().finite(),
        rules::active_attempt(s, work_id)->0.checks.contains_key(key),
    ensures
        rules::active_attempt(s, work_id) is Some,
        rules::active_attempt(s, work_id)->0.checks[key].status is Satisfied,
{
    let checks = rules::active_attempt(s, work_id)->0.checks;
    let keys = catalog::listing::<String>(checks.dom());
    catalog::listing_exists::<String>(checks.dom());
    assert(keys.to_set().contains(key));
    let i = choose|i: int| 0 <= i < keys.len() && keys[i] == key;
    incomplete_among_finds(checks, keys, i);
}

pub(crate) proof fn pending_has_each(checks: Seq<crate::work::CheckDefinitionView>, key: Seq<char>)
    ensures
        rules::pending(checks).contains_key(key) <==> rules::check_keys(checks).contains(key),
        rules::pending(checks).contains_key(key) ==> rules::pending(checks)[key]
            == (crate::attempt::AttemptCheckView {
            key,
            status: crate::attempt::CheckStatus::Pending,
            evidence: None,
            updated_seq: None,
        }),
    decreases checks.len(),
{
    let keys = rules::check_keys(checks);
    if checks.len() > 0 {
        let front = checks.drop_last();
        pending_has_each(front, key);
        let front_keys = rules::check_keys(front);
        if front_keys.contains(key) {
            let i = choose|i: int| 0 <= i < front_keys.len() && front_keys[i] == key;
            assert(keys[i] == key);
        }
        if checks.last().key == key {
            assert(keys[checks.len() - 1] == key);
        }
        if keys.contains(key) && checks.last().key != key {
            let i = choose|i: int| 0 <= i < keys.len() && keys[i] == key;
            assert(front_keys[i] == key);
        }
    }
}

/// Each attempt starts with all the checks of its work, every one pending,
/// whatever earlier attempts came to.
pub proof fn attempts_start_with_every_check_pending(
    s: StateView,
    seq: u64,
    attempt: AttemptDefinitionView,
    key: Seq<char>,
)
    requires
        rules::start_attempt(s, seq, attempt) is Ok,
    ensures
        ({
            let checks = (rules::start_attempt(s, seq, attempt)->Ok_0).attempts[attempt.id].checks;
            &&& checks.contains_key(key) <==> rules::check_keys(
                s.work[attempt.work_id].checks,
            ).contains(key)
            &&& checks.contains_key(key) ==> checks[key].status is Pending
        }),
{
    pending_has_each(s.work[attempt.work_id].checks, key);
}

/// An attempt that has ended takes no further statement.
pub proof fn ended_attempts_stay_as_they_are(
    s: StateView,
    seq: u64,
    actor: Seq<char>,
    payload: WorkEventPayloadView,
    id: Seq<char>,
)
    requires
        sound(s),
        s.attempts.contains_key(id),
        s.attempts[id].state is Ended,
        rules::work_step(s, seq, actor, payload) is Ok,
    ensures
        (rules::work_step(s, seq, actor, payload)->Ok_0).attempts.contains_key(id),
        (rules::work_step(s, seq, actor, payload)->Ok_0).attempts[id] == s.attempts[id],
{
    match payload {
        WorkEventPayloadView::WorkChanged { operations, .. } => {
            operating_leaves_attempts(s, seq, operations);
        },
        _ => {},
    }
}

/// Changes to the plan touch no attempt and no question.
pub(crate) proof fn operating_leaves_attempts(s: StateView, seq: u64, operations: Seq<WorkOperationView>)
    requires
        rules::operated(s, seq, operations) is Ok,
    ensures
        (rules::operated(s, seq, operations)->Ok_0).attempts == s.attempts,
        (rules::operated(s, seq, operations)->Ok_0).questions == s.questions,
    decreases operations.len(),
{
    if operations.len() > 0 {
        operating_leaves_attempts(s, seq, operations.drop_last());
    }
}

// ---- history ----

/// Handoffs that were submitted or withdrawn, and passes that started, are
/// history without effect.
pub proof fn bare_history_is_inert(s: StateView, event: EventView)
    requires
        match event.payload {
            EventPayloadView::Work(payload) => payload is LegacyHandoffSubmitted
                || payload is LegacyHandoffWithdrawn,
            EventPayloadView::Loop(payload) => payload is LegacyPassStarted,
            _ => false,
        },
    ensures
        rules::step(s, event) == Ok::<StateView, ErrorView>(s),
{
}

/// A log that folds has events numbered from one on, with an ID each.
pub proof fn folded_logs_are_numbered(events: Seq<EventView>)
    requires
        rules::folded(events) is Ok,
    ensures
        forall|i: int| 0 <= i < events.len() ==> (#[trigger] events[i]).seq == i + 1,
        forall|i: int, j: int|
            0 <= i < j < events.len() ==> (#[trigger] events[i]).id != (#[trigger] events[j]).id,
    decreases events.len(),
{
    if events.len() > 0 {
        let front = events.drop_last();
        folded_logs_are_numbered(front);
        assert forall|i: int| 0 <= i < events.len() implies (#[trigger] events[i]).seq == i + 1 by {
            if i < front.len() {
                assert(events[i] == front[i]);
            }
        }
        assert forall|i: int, j: int| 0 <= i < j < events.len() implies (#[trigger] events[i]).id
            != (#[trigger] events[j]).id by {
            assert(events[i] == front[i]);
            if j < front.len() {
                assert(events[j] == front[j]);
            }
        }
    }
}

/// Every beginning of a log that folds folds too.
pub proof fn beginnings_of_folding_logs_fold(events: Seq<EventView>, n: int)
    requires
        rules::folded(events) is Ok,
        0 <= n <= events.len(),
    ensures
        rules::folded(events.take(n)) is Ok,
{
    if rules::folded(events.take(n)) is Err {
        fold::folded_extends(events, n);
    }
}

} // verus!

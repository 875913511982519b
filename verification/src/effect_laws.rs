//! What each statement takes, and what it changes: nothing is said here of how.

use vstd::prelude::*;

use crate::attempt::{
    AttemptCheckView, AttemptDefinitionView, AttemptOutcome, AttemptState, AttemptView, CheckStatus,
    CheckUpdateView,
};
use crate::catalog;
use crate::event::{
    EventPayloadView, EventView, LoopControlView, LoopEventPayloadView, WorkEventPayloadView,
};
use crate::json::JsonView;
use crate::laws;
use crate::observation::{
    ObservationDefinitionView, ObservationEventPayloadView, ObservationKeyView, ObservationView,
};
use crate::project::StateView;
use crate::question::{Question, QuestionAnswerView, QuestionDefinitionView, QuestionView};
use crate::rules;
use crate::sorting;
use crate::text;
use crate::work::{WorkState, WorkView};

verus! {

// ---- words ----

/// Whether the attempt under `key` is at the item and has not ended.
pub open spec fn live(s: StateView, work_id: Seq<char>, key: Seq<char>) -> bool {
    s.attempts.contains_key(key) && s.attempts[key].work_id == work_id && !(
    s.attempts[key].state is Ended)
}

/// Whether an attempt at the item has not ended.
pub open spec fn busy(s: StateView, work_id: Seq<char>) -> bool {
    exists|key: Seq<char>| live(s, work_id, key)
}

/// Whether the question under `key` is about the item and has no answer.
pub open spec fn pends(s: StateView, work_id: Seq<char>, key: Seq<char>) -> bool {
    s.questions.contains_key(key) && s.questions[key].work_id == work_id
        && s.questions[key].answer is None
}

/// Whether a question about the item has no answer.
pub open spec fn waited_for(s: StateView, work_id: Seq<char>) -> bool {
    exists|key: Seq<char>| pends(s, work_id, key)
}

/// Whether an item is done or dropped.
pub open spec fn closed(work: WorkView) -> bool {
    work.state is Done || work.state is Dropped
}

/// Whether all that an item requires is there and done.
pub open spec fn met(s: StateView, work: WorkView) -> bool {
    forall|r: Seq<char>| #[trigger]
        work.requires.contains(r) ==> s.work.contains_key(r) && s.work[r].state is Done
}

/// One item requires the other, or requires one that does, however far.
pub open spec fn builds_on(
    s: StateView,
    id: Seq<char>,
    work_id: Seq<char>,
    way: Seq<Seq<char>>,
) -> bool {
    &&& way.len() >= 2
    &&& way[0] == work_id
    &&& way.last() == id
    &&& forall|i: int|
        1 <= i < way.len() ==> s.work.contains_key(#[trigger] way[i])
            && s.work[way[i]].requires.contains(way[i - 1])
}

/// Whether an attempt runs at something that builds on the item.
pub open spec fn built_on_now(s: StateView, work_id: Seq<char>) -> bool {
    exists|id: Seq<char>, way: Seq<Seq<char>>| #[trigger]
        builds_on(s, id, work_id, way) && busy(s, id)
}

/// Whether the two differ in one item at most, which both have.
pub open spec fn one_item_differs(s: StateView, t: StateView, id: Seq<char>) -> bool {
    &&& t == StateView { work: t.work, ..s }
    &&& s.work.contains_key(id)
    &&& t.work == s.work.insert(id, t.work[id])
}

/// Whether the two differ in one attempt at most, which both have.
pub open spec fn one_attempt_differs(s: StateView, t: StateView, id: Seq<char>) -> bool {
    &&& t == StateView { attempts: t.attempts, ..s }
    &&& s.attempts.contains_key(id)
    &&& t.attempts == s.attempts.insert(id, t.attempts[id])
}

/// The attempt as an end leaves it: nothing but the end is new.
pub open spec fn ended_as(attempt: AttemptView, outcome: AttemptOutcome, seq: u64) -> AttemptView {
    AttemptView {
        state: AttemptState::Ended,
        outcome: Some(outcome),
        ended_seq: Some(seq),
        updated_seq: seq,
        ..attempt
    }
}

// ---- what the words come to ----

pub(crate) proof fn busy_is_active(s: StateView, work_id: Seq<char>)
    requires
        laws::one_attempt_each(s),
    ensures
        busy(s, work_id) <==> rules::active_attempt(s, work_id) is Some,
        forall|key: Seq<char>| #[trigger]
            live(s, work_id, key) ==> rules::active_attempt(s, work_id) == Some(s.attempts[key]),
{
    assert forall|key: Seq<char>| #[trigger] live(s, work_id, key) implies rules::active_attempt(
        s,
        work_id,
    ) == Some(s.attempts[key]) by {
        assert(rules::active_key(s, work_id, key));
        laws::active_attempt_is_the_one(s, work_id, key);
    }
    if rules::active_attempt(s, work_id) is Some {
        let key = laws::active_attempt_has_a_key(s, work_id);
        assert(live(s, work_id, key));
    }
}

pub(crate) proof fn waited_for_is_unanswered(s: StateView, work_id: Seq<char>)
    ensures
        waited_for(s, work_id) <==> rules::has_unanswered(s, work_id),
{
    if waited_for(s, work_id) {
        let key = choose|key: Seq<char>| pends(s, work_id, key);
        assert(rules::waits(s.questions[key], work_id));
    }
    if rules::has_unanswered(s, work_id) {
        let key = choose|key: Seq<char>|
            s.questions.contains_key(key) && rules::waits(#[trigger] s.questions[key], work_id);
        assert(pends(s, work_id, key));
    }
}

pub(crate) proof fn met_is_all_done(s: StateView, work: WorkView)
    ensures
        met(s, work) <==> rules::all_done(s, work.requires),
{
    if rules::all_done(s, work.requires) {
        assert forall|r: Seq<char>| #[trigger]
            work.requires.contains(r) implies s.work.contains_key(r) && s.work[r].state is Done by {
            let i = choose|i: int| 0 <= i < work.requires.len() && work.requires[i] == r;
            assert(rules::done(s, work.requires[i]));
        }
    }
    if met(s, work) {
        assert forall|i: int| 0 <= i < work.requires.len() implies rules::done(
            s,
            #[trigger] work.requires[i],
        ) by {
            assert(work.requires.contains(work.requires[i]));
        }
    }
}

proof fn ways_agree(s: StateView, id: Seq<char>, work_id: Seq<char>, way: Seq<Seq<char>>)
    requires
        laws::keyed(s),
    ensures
        builds_on(s, id, work_id, way) <==> rules::leads(s, work_id, id, way),
{
    if builds_on(s, id, work_id, way) {
        assert forall|i: int| 0 <= i < way.len() - 1 implies #[trigger] rules::depends(
            s,
            way[i + 1],
            way[i],
        ) by {
            assert(s.work.contains_key(way[i + 1]));
            assert(s.work[way[i + 1]].id == way[i + 1]);
        }
    }
    if rules::leads(s, work_id, id, way) {
        assert forall|i: int| 1 <= i < way.len() implies s.work.contains_key(#[trigger] way[i])
            && s.work[way[i]].requires.contains(way[i - 1]) by {
            assert(rules::depends(s, way[i - 1 + 1], way[i - 1]));
            let key = choose|key: Seq<char>|
                s.work.contains_key(key) && #[trigger] s.work[key].id == way[i]
                    && s.work[key].requires.contains(way[i - 1]);
            assert(s.work[key].id == key);
        }
    }
}

proof fn some_active_at(s: StateView, ids: Seq<Seq<char>>)
    ensures
        rules::active_at(s, ids).len() > 0 <==> exists|i: int|
            0 <= i < ids.len() && rules::active_attempt(s, #[trigger] ids[i]) is Some,
    decreases ids.len(),
{
    if ids.len() > 0 {
        let front = ids.drop_last();
        some_active_at(s, front);
        if exists|i: int| 0 <= i < front.len() && rules::active_attempt(s, #[trigger] front[i]) is Some {
            let i = choose|i: int|
                0 <= i < front.len() && rules::active_attempt(s, #[trigger] front[i]) is Some;
            assert(rules::active_attempt(s, ids[i]) is Some);
        }
        if exists|i: int| 0 <= i < ids.len() && rules::active_attempt(s, #[trigger] ids[i]) is Some {
            let i = choose|i: int|
                0 <= i < ids.len() && rules::active_attempt(s, #[trigger] ids[i]) is Some;
            if i < front.len() {
                assert(rules::active_attempt(s, front[i]) is Some);
            } else {
                assert(ids.last() == ids[i]);
            }
        }
        if rules::active_attempt(s, ids.last()) is Some {
            assert(rules::active_attempt(s, ids[ids.len() - 1]) is Some);
        }
    }
}

proof fn built_on_is_refused(s: StateView, work_id: Seq<char>)
    requires
        laws::keyed(s),
        laws::one_attempt_each(s),
    ensures
        built_on_now(s, work_id) <==> rules::downstream_error(s, work_id) is Some,
        rules::downstream_error(s, work_id) is Some ==> rules::downstream_error(s, work_id)->0.code
            == "active_downstream"@,
{
    let set = rules::downstream_set(s, work_id);
    assert forall|x: Seq<char>| set.contains(x) implies s.work.dom().contains(x) by {
        let way = choose|way: Seq<Seq<char>>| rules::leads(s, work_id, x, way);
        ways_agree(s, x, work_id, way);
        assert(s.work.contains_key(way[way.len() - 1]));
    }
    vstd::set_lib::lemma_set_subset_finite(s.work.dom(), set);
    let ids = rules::downstream(s, work_id);
    catalog::listing_exists::<String>(set);
    some_active_at(s, ids);
    if built_on_now(s, work_id) {
        let (id, way) = choose|id: Seq<char>, way: Seq<Seq<char>>| #[trigger]
            builds_on(s, id, work_id, way) && busy(s, id);
        ways_agree(s, id, work_id, way);
        busy_is_active(s, id);
        assert(set.contains(id));
        assert(ids.to_set().contains(id));
        let i = choose|i: int| 0 <= i < ids.len() && ids[i] == id;
        assert(rules::active_attempt(s, ids[i]) is Some);
    }
    if rules::active_at(s, ids).len() > 0 {
        let i = choose|i: int|
            0 <= i < ids.len() && rules::active_attempt(s, #[trigger] ids[i]) is Some;
        assert(ids.to_set().contains(ids[i]));
        let way = choose|way: Seq<Seq<char>>| rules::leads(s, work_id, ids[i], way);
        ways_agree(s, ids[i], work_id, way);
        busy_is_active(s, ids[i]);
        assert(builds_on(s, ids[i], work_id, way) && busy(s, ids[i]));
    }
}

proof fn incomplete_means_unsatisfied(
    checks: Map<Seq<char>, AttemptCheckView>,
    keys: Seq<Seq<char>>,
)
    ensures
        rules::incomplete_among(checks, keys).len() == 0 <==> forall|i: int|
            0 <= i < keys.len() ==> checks[#[trigger] keys[i]].status is Satisfied,
    decreases keys.len(),
{
    if keys.len() > 0 {
        let front = keys.drop_last();
        incomplete_means_unsatisfied(checks, front);
        if forall|i: int| 0 <= i < keys.len() ==> checks[#[trigger] keys[i]].status is Satisfied {
            assert forall|i: int| 0 <= i < front.len() implies checks[#[trigger] front[i]].status is Satisfied by {
                assert(checks[keys[i]].status is Satisfied);
            }
            assert(checks[keys[keys.len() - 1]].status is Satisfied);
        }
        if rules::incomplete_among(checks, keys).len() == 0 {
            assert forall|i: int| 0 <= i < keys.len() implies checks[#[trigger] keys[i]].status is Satisfied by {
                if i < front.len() {
                    assert(checks[front[i]].status is Satisfied);
                }
            }
        }
    }
}

/// Whether every check stands at satisfied.
pub open spec fn all_satisfied(checks: Map<Seq<char>, AttemptCheckView>) -> bool {
    forall|key: Seq<char>|
        checks.contains_key(key) ==> (#[trigger] checks[key]).status is Satisfied
}

proof fn complete_is_satisfied(checks: Map<Seq<char>, AttemptCheckView>)
    requires
        checks.dom().finite(),
    ensures
        rules::incomplete(checks).len() == 0 <==> all_satisfied(checks),
{
    let keys = catalog::listing::<String>(checks.dom());
    catalog::listing_exists::<String>(checks.dom());
    incomplete_means_unsatisfied(checks, keys);
    if rules::incomplete(checks).len() == 0 {
        assert forall|key: Seq<char>| checks.contains_key(key) implies (
        #[trigger] checks[key]).status is Satisfied by {
            assert(keys.to_set().contains(key));
            let i = choose|i: int| 0 <= i < keys.len() && keys[i] == key;
            assert(checks[keys[i]].status is Satisfied);
        }
    }
    if all_satisfied(checks) {
        assert forall|i: int| 0 <= i < keys.len() implies checks[#[trigger] keys[i]].status is Satisfied by {
            assert(keys.to_set().contains(keys[i]));
        }
    }
}

// ---- closing ----

/// Work is finished by the attempt that runs at it, if the work is open and every check
/// of the attempt is satisfied, or on evidence from outside, if nothing runs at it. It
/// is done then and has said why; nothing else of it changes, nor of any other item.
/// The attempt has succeeded.
pub proof fn finishing_closes_the_work_alone(
    s: StateView,
    event: EventView,
    work_id: Seq<char>,
    attempt_id: Option<Seq<char>>,
    external: bool,
    evidence: Option<Seq<char>>,
)
    requires
        laws::sound(s),
        event.payload == EventPayloadView::Work(
            WorkEventPayloadView::WorkFinished { work_id, attempt_id, external, evidence },
        ),
    ensures
        rules::step(s, event) is Ok <==> {
            &&& s.work.contains_key(work_id)
            &&& !closed(s.work[work_id])
            &&& if external {
                &&& evidence is Some && !text::blank(evidence->0)
                &&& attempt_id is None
                &&& !busy(s, work_id)
            } else {
                &&& s.work[work_id].state is Open
                &&& attempt_id is Some && live(s, work_id, attempt_id->0)
                &&& all_satisfied(s.attempts[attempt_id->0].checks)
            }
        },
        rules::step(s, event) is Ok ==> {
            let t = rules::step(s, event)->Ok_0;
            &&& t == StateView { work: t.work, attempts: t.attempts, ..s }
            &&& t.work == s.work.insert(
                work_id,
                WorkView {
                    state: WorkState::Done,
                    block_reason: None,
                    block_until: None,
                    outcome: Some(
                        if external {
                            "external: "@ + evidence->0
                        } else {
                            "succeeded"@
                        },
                    ),
                    changed_seq: event.seq,
                    ..s.work[work_id]
                },
            )
            &&& t.attempts == if external {
                s.attempts
            } else {
                s.attempts.insert(
                    attempt_id->0,
                    ended_as(s.attempts[attempt_id->0], AttemptOutcome::Succeeded, event.seq),
                )
            }
        },
        !external && s.work.contains_key(work_id) && s.work[work_id].state is Open
            && attempt_id is Some && live(s, work_id, attempt_id->0) && !all_satisfied(
            s.attempts[attempt_id->0].checks,
        ) ==> rules::step(s, event) is Err && rules::step(s, event)->Err_0.code
            == "incomplete_checks"@,
{
    busy_is_active(s, work_id);
    assert(text::blank(Seq::<char>::empty()));
    if rules::active_attempt(s, work_id) is Some {
        let key = laws::active_attempt_has_a_key(s, work_id);
        assert(live(s, work_id, key));
        assert(s.attempts[key].id == key);
        let checks = s.attempts[key].checks;
        assert(checks.dom() == crate::record_laws::keys_of(s.work[s.attempts[key].work_id]));
        complete_is_satisfied(checks);
    }
    if attempt_id is Some && live(s, work_id, attempt_id->0) {
        assert(s.attempts[attempt_id->0].id == attempt_id->0);
    }
}

/// Work that is not closed may be dropped, with the attempt that runs at it and with the
/// outcome of that attempt, which is no success, and with neither where nothing runs;
/// not as long as an attempt runs at something that builds on it. Nothing else of it
/// changes, nor of any other item.
pub proof fn dropping_closes_the_work_alone(
    s: StateView,
    event: EventView,
    work_id: Seq<char>,
    attempt_id: Option<Seq<char>>,
    outcome: Option<AttemptOutcome>,
    why: Seq<char>,
)
    requires
        laws::sound(s),
        event.payload == EventPayloadView::Work(
            WorkEventPayloadView::WorkDropped { work_id, attempt_id, outcome, why },
        ),
    ensures
        rules::step(s, event) is Ok <==> {
            &&& !text::blank(why)
            &&& s.work.contains_key(work_id)
            &&& !closed(s.work[work_id])
            &&& if busy(s, work_id) {
                &&& attempt_id is Some && live(s, work_id, attempt_id->0)
                &&& outcome is Some && !(outcome->0 is Succeeded)
            } else {
                attempt_id is None && outcome is None
            }
            &&& !built_on_now(s, work_id)
        },
        rules::step(s, event) is Ok ==> {
            let t = rules::step(s, event)->Ok_0;
            &&& t == StateView { work: t.work, attempts: t.attempts, ..s }
            &&& t.work == s.work.insert(
                work_id,
                WorkView {
                    state: WorkState::Dropped,
                    block_reason: None,
                    block_until: None,
                    outcome: Some(why),
                    changed_seq: event.seq,
                    ..s.work[work_id]
                },
            )
            &&& t.attempts == if attempt_id is Some {
                s.attempts.insert(
                    attempt_id->0,
                    ended_as(s.attempts[attempt_id->0], outcome->0, event.seq),
                )
            } else {
                s.attempts
            }
        },
{
    busy_is_active(s, work_id);
    let released = rules::release(s, event.seq, work_id, attempt_id, outcome);
    if rules::active_attempt(s, work_id) is Some {
        let key = laws::active_attempt_has_a_key(s, work_id);
        assert(live(s, work_id, key));
        assert(s.attempts[key].id == key);
    }
    if attempt_id is Some && live(s, work_id, attempt_id->0) {
        assert(s.attempts[attempt_id->0].id == attempt_id->0);
    }
    built_on_is_refused(s, work_id);
    if released is Ok && s.work.contains_key(work_id) {
        let m = released->Ok_0;
        if rules::active_attempt(s, work_id) is Some {
            laws::ending_frees(s, work_id, attempt_id->0, outcome->0, event.seq);
        }
        built_on_is_refused(m, work_id);
        assert(m.work == s.work);
        release_frees_nothing_else(s, m, work_id);
    }
}

/// The end of the attempt at an item changes nothing of what runs at items that build on
/// it: no item builds on itself.
proof fn release_frees_nothing_else(s: StateView, m: StateView, work_id: Seq<char>)
    requires
        laws::sound(s),
        m.work == s.work,
        forall|w: Seq<char>, key: Seq<char>|
            w != work_id ==> (#[trigger] live(m, w, key) <==> live(s, w, key)),
    ensures
        built_on_now(m, work_id) <==> built_on_now(s, work_id),
{
    assert forall|id: Seq<char>, way: Seq<Seq<char>>| #[trigger]
        builds_on(s, id, work_id, way) implies id != work_id by {
        if id == work_id {
            crate::graph::valid_graphs_are_the_acyclic_ones(s.work);
            let round = way.reverse();
            assert forall|i: int| 0 <= i < round.len() - 1 implies s.work.contains_key(
                #[trigger] round[i],
            ) && s.work[round[i]].requires.contains(round[i + 1]) by {
                let j = way.len() - 1 - i;
                assert(way[j] == round[i]);
                assert(way[j - 1] == round[i + 1]);
            }
            assert(crate::graph::closed_path(s.work, round));
        }
    }
    assert forall|id: Seq<char>, way: Seq<Seq<char>>| #[trigger]
        builds_on(s, id, work_id, way) implies builds_on(m, id, work_id, way) && (busy(s, id)
        <==> busy(m, id)) by {
        assert forall|i: int| 1 <= i < way.len() implies m.work.contains_key(#[trigger] way[i])
            && m.work[way[i]].requires.contains(way[i - 1]) by {}
        if busy(s, id) {
            let key = choose|key: Seq<char>| live(s, id, key);
            assert(live(m, id, key));
        }
        if busy(m, id) {
            let key = choose|key: Seq<char>| live(m, id, key);
            assert(live(s, id, key));
        }
    }
    if built_on_now(s, work_id) {
        let (id, way) = choose|id: Seq<char>, way: Seq<Seq<char>>| #[trigger]
            builds_on(s, id, work_id, way) && busy(s, id);
        assert(builds_on(m, id, work_id, way) && busy(m, id));
    }
    if built_on_now(m, work_id) {
        let (id, way) = choose|id: Seq<char>, way: Seq<Seq<char>>| #[trigger]
            builds_on(m, id, work_id, way) && busy(m, id);
        assert forall|i: int| 1 <= i < way.len() implies s.work.contains_key(#[trigger] way[i])
            && s.work[way[i]].requires.contains(way[i - 1]) by {
            assert(m.work.contains_key(way[i]));
        }
        assert(builds_on(s, id, work_id, way));
        assert(busy(s, id));
    }
}

proof fn first_waiting_is_the_first_asked(s: StateView, work_id: Seq<char>)
    requires
        laws::keyed(s),
    ensures
        rules::unanswered(s, work_id).len() > 0 <==> waited_for(s, work_id),
        rules::unanswered(s, work_id).len() > 0 ==> {
            let first = rules::unanswered(s, work_id)[0];
            &&& pends(s, work_id, first.id)
            &&& s.questions[first.id] == first
            &&& forall|key: Seq<char>| #[trigger]
                pends(s, work_id, key) ==> first.asked_seq <= s.questions[key].asked_seq
        },
{
    laws::unanswered_lists_the_waiting(s, work_id);
    waited_for_is_unanswered(s, work_id);
    let keys = catalog::listing::<String>(s.questions.dom());
    catalog::listing_exists::<String>(s.questions.dom());
    let found = rules::waiting_among(s, work_id, keys);
    let ordered = rules::unanswered(s, work_id);
    questions_weakly_ordered();
    sorting::sorted_is_ordered_permutation::<&Question>(found);
    if ordered.len() > 0 {
        let first = ordered[0];
        sorted_holds::<&Question>(found, first);
        assert(ordered.contains(first));
        waiting_among_holds(s, work_id, keys, first);
        let i = choose|i: int|
            0 <= i < keys.len() && s.questions[#[trigger] keys[i]] == first && first.work_id
                == work_id && first.answer is None;
        assert(keys.to_set().contains(keys[i]));
        assert(s.questions[keys[i]].id == keys[i]);
        assert forall|key: Seq<char>| #[trigger] pends(s, work_id, key) implies first.asked_seq
            <= s.questions[key].asked_seq by {
            assert(keys.to_set().contains(key));
            let n = choose|n: int| 0 <= n < keys.len() && keys[n] == key;
            assert(s.questions[keys[n]] == s.questions[key]);
            waiting_among_holds(s, work_id, keys, s.questions[key]);
            sorted_holds::<&Question>(found, s.questions[key]);
            let j = choose|j: int| 0 <= j < ordered.len() && ordered[j] == s.questions[key];
            if j > 0 {
                assert(!<&Question as sorting::Ranked>::ahead(ordered[j], ordered[0]));
            }
        }
    }
}

proof fn questions_weakly_ordered()
    ensures
        sorting::weak_order::<&Question>(),
{
}

proof fn waiting_among_holds(
    s: StateView,
    work_id: Seq<char>,
    keys: Seq<Seq<char>>,
    question: QuestionView,
)
    ensures
        rules::waiting_among(s, work_id, keys).contains(question) <==> exists|i: int|
            0 <= i < keys.len() && s.questions[#[trigger] keys[i]] == question && question.work_id
                == work_id && question.answer is None,
    decreases keys.len(),
{
    let all = rules::waiting_among(s, work_id, keys);
    if keys.len() > 0 {
        let front = keys.drop_last();
        let before = rules::waiting_among(s, work_id, front);
        waiting_among_holds(s, work_id, front, question);
        if before.contains(question) {
            let i = choose|i: int| 0 <= i < before.len() && before[i] == question;
            assert(all[i] == question);
            let j = choose|j: int|
                0 <= j < front.len() && s.questions[#[trigger] front[j]] == question
                    && question.work_id == work_id && question.answer is None;
            assert(s.questions[keys[j]] == question);
        }
        if all.contains(question) && !before.contains(question) {
            let i = choose|i: int| 0 <= i < all.len() && all[i] == question;
            if i < before.len() {
                assert(before[i] == question);
            }
            assert(s.questions[keys[keys.len() - 1]] == question);
        }
        if exists|i: int|
            0 <= i < keys.len() && s.questions[#[trigger] keys[i]] == question && question.work_id
                == work_id && question.answer is None {
            let i = choose|i: int|
                0 <= i < keys.len() && s.questions[#[trigger] keys[i]] == question
                    && question.work_id == work_id && question.answer is None;
            if i < front.len() {
                assert(s.questions[front[i]] == question);
            } else {
                assert(all[all.len() - 1] == question);
            }
        }
    }
}

proof fn placed_holds<T: sorting::Ranked>(items: Seq<T::V>, item: T::V, x: T::V)
    ensures
        sorting::placed::<T>(items, item).contains(x) <==> items.contains(x) || x == item,
    decreases items.len(),
{
    let all = sorting::placed::<T>(items, item);
    if items.len() > 0 && T::ahead(item, items.last()) {
        let front = items.drop_last();
        placed_holds::<T>(front, item, x);
        let before = sorting::placed::<T>(front, item);
        if before.contains(x) {
            let i = choose|i: int| 0 <= i < before.len() && before[i] == x;
            assert(all[i] == x);
        }
        if x == items.last() {
            assert(all[all.len() - 1] == x);
            assert(items[items.len() - 1] == x);
        }
        if front.contains(x) {
            let i = choose|i: int| 0 <= i < front.len() && front[i] == x;
            assert(items[i] == x);
        }
        if items.contains(x) && x != items.last() {
            let i = choose|i: int| 0 <= i < items.len() && items[i] == x;
            assert(front[i] == x);
        }
        if all.contains(x) && x != items.last() {
            let i = choose|i: int| 0 <= i < all.len() && all[i] == x;
            assert(before[i] == x);
        }
    } else {
        if items.contains(x) {
            let i = choose|i: int| 0 <= i < items.len() && items[i] == x;
            assert(all[i] == x);
        }
        if x == item {
            assert(all[all.len() - 1] == x);
        }
        if all.contains(x) && x != item {
            let i = choose|i: int| 0 <= i < all.len() && all[i] == x;
            assert(items[i] == x);
        }
    }
}

/// Sorting neither adds nor drops anything.
pub proof fn sorted_holds<T: sorting::Ranked>(items: Seq<T::V>, x: T::V)
    ensures
        sorting::sorted::<T>(items).contains(x) <==> items.contains(x),
    decreases items.len(),
{
    if items.len() > 0 {
        let front = items.drop_last();
        sorted_holds::<T>(front, x);
        placed_holds::<T>(sorting::sorted::<T>(front), items.last(), x);
        if front.contains(x) {
            let i = choose|i: int| 0 <= i < front.len() && front[i] == x;
            assert(items[i] == x);
        }
        if items.contains(x) && x != items.last() {
            let i = choose|i: int| 0 <= i < items.len() && items[i] == x;
            assert(front[i] == x);
        }
        if x == items.last() {
            assert(items[items.len() - 1] == x);
        }
    }
}

/// Closed work may be reopened, as long as no attempt runs at something that builds on
/// it. It is open again, or blocked on the first question about it that still waits; it
/// has neither outcome nor deadline. Nothing else of it changes: it has its title, its
/// spec, its priority, its requirements and its checks as before. Nor does any other
/// item.
pub proof fn reopening_gives_the_work_back_as_it_was(
    s: StateView,
    event: EventView,
    work_id: Seq<char>,
    why: Seq<char>,
)
    requires
        laws::sound(s),
        event.payload == EventPayloadView::Work(WorkEventPayloadView::WorkReopened { work_id, why }),
    ensures
        rules::step(s, event) is Ok <==> {
            &&& !text::blank(why)
            &&& s.work.contains_key(work_id)
            &&& closed(s.work[work_id])
            &&& !built_on_now(s, work_id)
        },
        rules::step(s, event) is Ok ==> {
            let t = rules::step(s, event)->Ok_0;
            let before = s.work[work_id];
            let after = t.work[work_id];
            &&& one_item_differs(s, t, work_id)
            &&& after == WorkView {
                state: after.state,
                block_reason: after.block_reason,
                block_until: None,
                outcome: None,
                changed_seq: event.seq,
                ..before
            }
            &&& after.state is Open || after.state is Blocked
            &&& after.state is Blocked <==> waited_for(s, work_id)
            &&& after.state is Open ==> after.block_reason is None
            &&& after.state is Blocked ==> exists|key: Seq<char>| {
                &&& #[trigger] pends(s, work_id, key)
                &&& after.block_reason == Some("question "@ + key)
                &&& forall|other: Seq<char>| #[trigger]
                    pends(s, work_id, other) ==> s.questions[key].asked_seq
                        <= s.questions[other].asked_seq
            }
        },
{
    built_on_is_refused(s, work_id);
    first_waiting_is_the_first_asked(s, work_id);
    if rules::step(s, event) is Ok && rules::unanswered(s, work_id).len() > 0 {
        let key = rules::unanswered(s, work_id)[0].id;
        assert(pends(s, work_id, key));
    }
}

// ---- attempts ----

/// An attempt starts at open work at which nothing runs and all of whose requirements
/// are done, under an ID that is new. It has every check of the work, all of them
/// pending; it has no handle, no outcome and no note. Nothing else changes.
pub proof fn starting_adds_one_attempt(
    s: StateView,
    event: EventView,
    attempt: AttemptDefinitionView,
)
    requires
        laws::sound(s),
        event.payload == EventPayloadView::Work(WorkEventPayloadView::AttemptStarted { attempt }),
    ensures
        rules::step(s, event) is Ok <==> {
            &&& attempt.tier is Some ==> !text::blank(attempt.tier->0)
            &&& !s.attempts.contains_key(attempt.id)
            &&& s.work.contains_key(attempt.work_id)
            &&& s.work[attempt.work_id].state is Open
            &&& !busy(s, attempt.work_id)
            &&& met(s, s.work[attempt.work_id])
        },
        rules::step(s, event) is Ok ==> {
            let t = rules::step(s, event)->Ok_0;
            let a = t.attempts[attempt.id];
            &&& t == StateView { attempts: s.attempts.insert(attempt.id, a), ..s }
            &&& a.id == attempt.id
            &&& a.work_id == attempt.work_id
            &&& a.tier == attempt.tier
            &&& a.metadata == attempt.metadata
            &&& a.state is Starting
            &&& a.outcome is None && a.handle is None && a.note is None
            &&& a.bound_seq is None && a.ended_seq is None
            &&& a.started_seq == event.seq && a.updated_seq == event.seq
            &&& forall|key: Seq<char>| #[trigger]
                a.checks.contains_key(key) <==> exists|i: int|
                    0 <= i < s.work[attempt.work_id].checks.len() && (
                    #[trigger] s.work[attempt.work_id].checks[i]).key == key
            &&& forall|key: Seq<char>|
                a.checks.contains_key(key) ==> (#[trigger] a.checks[key]) == (AttemptCheckView {
                    key,
                    status: CheckStatus::Pending,
                    evidence: None,
                    updated_seq: None,
                })
        },
        s.work.contains_key(attempt.work_id) && !s.attempts.contains_key(attempt.id) && (
        attempt.tier is Some ==> !text::blank(attempt.tier->0)) && rules::step(s, event) is Err
            ==> rules::step(s, event)->Err_0.code == "work_not_ready"@,
{
    busy_is_active(s, attempt.work_id);
    met_is_all_done(s, s.work[attempt.work_id]);
    if rules::step(s, event) is Ok {
        let checks = s.work[attempt.work_id].checks;
        let keys = rules::check_keys(checks);
        let t = rules::step(s, event)->Ok_0;
        assert(t.attempts[attempt.id].checks == rules::pending(checks));
        assert forall|key: Seq<char>| #[trigger]
            rules::pending(checks).contains_key(key) <==> exists|i: int|
                0 <= i < checks.len() && (#[trigger] checks[i]).key == key by {
            laws::pending_has_each(checks, key);
            if keys.contains(key) {
                let i = choose|i: int| 0 <= i < keys.len() && keys[i] == key;
                assert(checks[i].key == key);
            }
            if exists|i: int| 0 <= i < checks.len() && (#[trigger] checks[i]).key == key {
                let i = choose|i: int| 0 <= i < checks.len() && (#[trigger] checks[i]).key == key;
                assert(keys[i] == key);
            }
        }
        assert forall|key: Seq<char>| rules::pending(checks).contains_key(key) implies (
        #[trigger] rules::pending(checks)[key]) == (AttemptCheckView {
            key,
            status: CheckStatus::Pending,
            evidence: None,
            updated_seq: None,
        }) by {
            laws::pending_has_each(checks, key);
        }
    }
}

/// What metadata is after more of it is given: what is given, and the rest as it was.
pub open spec fn overlaid(
    before: Map<Seq<char>, JsonView>,
    given: Map<Seq<char>, JsonView>,
    after: Map<Seq<char>, JsonView>,
) -> bool {
    forall|key: Seq<char>| #![trigger after.contains_key(key)]
        {
            &&& after.contains_key(key) <==> before.contains_key(key) || given.contains_key(key)
            &&& given.contains_key(key) ==> after[key] == given[key]
            &&& before.contains_key(key) && !given.contains_key(key) ==> after[key] == before[key]
        }
}

/// An attempt that has not ended and has no handle gets one that no other attempt that
/// has not ended holds. It is active then; nothing else of it changes but that metadata
/// is added, nor does anything else.
pub proof fn binding_gives_a_free_handle(
    s: StateView,
    event: EventView,
    attempt_id: Seq<char>,
    handle: Seq<char>,
    metadata: Map<Seq<char>, JsonView>,
)
    requires
        laws::sound(s),
        event.payload == EventPayloadView::Work(
            WorkEventPayloadView::AttemptBound { attempt_id, handle, metadata },
        ),
    ensures
        rules::step(s, event) is Ok <==> {
            &&& !text::blank(handle)
            &&& forall|key: Seq<char>|
                s.attempts.contains_key(key) && (#[trigger] s.attempts[key]).handle == Some(handle)
                    ==> s.attempts[key].state is Ended
            &&& s.attempts.contains_key(attempt_id)
            &&& !(s.attempts[attempt_id].state is Ended)
            &&& s.attempts[attempt_id].handle is None
        },
        rules::step(s, event) is Ok ==> {
            let t = rules::step(s, event)->Ok_0;
            let before = s.attempts[attempt_id];
            let after = t.attempts[attempt_id];
            &&& one_attempt_differs(s, t, attempt_id)
            &&& after == AttemptView {
                handle: Some(handle),
                state: AttemptState::Active,
                bound_seq: Some(event.seq),
                updated_seq: event.seq,
                metadata: after.metadata,
                ..before
            }
            &&& overlaid(before.metadata, metadata, after.metadata)
        },
{
}

/// Whether the verdict at `i` is the last one for its key.
pub open spec fn last_verdict(updates: Seq<CheckUpdateView>, i: int) -> bool {
    0 <= i < updates.len() && forall|j: int|
        i < j < updates.len() ==> (#[trigger] updates[j]).key != updates[i].key
}

/// Whether a verdict for the key is given.
pub open spec fn judged_now(updates: Seq<CheckUpdateView>, key: Seq<char>) -> bool {
    exists|i: int| 0 <= i < updates.len() && (#[trigger] updates[i]).key == key
}

/// The checks after verdicts: each that is named has the status and the evidence of the
/// last verdict for it, whatever it had before, and each other one is as it was.
pub open spec fn judged_by(
    before: Map<Seq<char>, AttemptCheckView>,
    updates: Seq<CheckUpdateView>,
    seq: u64,
    after: Map<Seq<char>, AttemptCheckView>,
) -> bool {
    &&& after.dom() == before.dom()
    &&& forall|i: int| #[trigger]
        last_verdict(updates, i) ==> after[updates[i].key] == (AttemptCheckView {
            key: before[updates[i].key].key,
            status: updates[i].status,
            evidence: Some(updates[i].evidence),
            updated_seq: Some(seq),
        })
    &&& forall|key: Seq<char>|
        before.contains_key(key) && !judged_now(updates, key) ==> #[trigger] after[key]
            == before[key]
}

proof fn verdicts_are_kept(
    before: Map<Seq<char>, AttemptCheckView>,
    updates: Seq<CheckUpdateView>,
    id: Seq<char>,
    seq: u64,
)
    ensures
        rules::judged(before, updates, id, seq) is Ok <==> forall|i: int|
            0 <= i < updates.len() ==> !text::blank((#[trigger] updates[i]).evidence)
                && before.contains_key(updates[i].key),
        rules::judged(before, updates, id, seq) is Ok ==> judged_by(
            before,
            updates,
            seq,
            rules::judged(before, updates, id, seq)->Ok_0,
        ),
    decreases updates.len(),
{
    if updates.len() > 0 {
        let front = updates.drop_last();
        verdicts_are_kept(before, front, id, seq);
        if forall|i: int|
            0 <= i < updates.len() ==> !text::blank((#[trigger] updates[i]).evidence)
                && before.contains_key(updates[i].key) {
            assert forall|i: int| 0 <= i < front.len() implies !text::blank(
                (#[trigger] front[i]).evidence,
            ) && before.contains_key(front[i].key) by {
                assert(front[i] == updates[i]);
            }
            assert(!text::blank(updates[updates.len() - 1].evidence));
        }
        if rules::judged(before, updates, id, seq) is Ok {
            assert forall|i: int| 0 <= i < updates.len() implies !text::blank(
                (#[trigger] updates[i]).evidence,
            ) && before.contains_key(updates[i].key) by {
                if i < front.len() {
                    assert(front[i] == updates[i]);
                }
            }
            let middle = rules::judged(before, front, id, seq)->Ok_0;
            let after = rules::judged(before, updates, id, seq)->Ok_0;
            assert(after.dom() =~= before.dom());
            let last = updates.last();
            assert(middle[last.key].key == before[last.key].key) by {
                if judged_now(front, last.key) {
                    let n = last_index(front, last.key);
                    assert(last_verdict(front, n));
                }
            }
            assert forall|i: int| #[trigger] last_verdict(updates, i) implies after[updates[i].key]
                == (AttemptCheckView {
                key: before[updates[i].key].key,
                status: updates[i].status,
                evidence: Some(updates[i].evidence),
                updated_seq: Some(seq),
            }) by {
                if i < front.len() {
                    assert(updates[updates.len() - 1].key != updates[i].key);
                    assert(last_verdict(front, i)) by {
                        assert forall|j: int| i < j < front.len() implies (
                        #[trigger] front[j]).key != front[i].key by {
                            assert(updates[j].key != updates[i].key);
                        }
                    }
                }
            }
            assert forall|key: Seq<char>|
                before.contains_key(key) && !judged_now(updates, key) implies #[trigger] after[key]
                == before[key] by {
                assert(updates[updates.len() - 1].key != key);
                if judged_now(front, key) {
                    let i = choose|i: int| 0 <= i < front.len() && (#[trigger] front[i]).key == key;
                    assert(updates[i].key == key);
                }
            }
        }
    } else {
        assert(!judged_now(updates, Seq::empty()));
    }
}

proof fn last_index(updates: Seq<CheckUpdateView>, key: Seq<char>) -> (n: int)
    requires
        judged_now(updates, key),
    ensures
        last_verdict(updates, n),
        updates[n].key == key,
    decreases updates.len(),
{
    if updates.last().key == key {
        updates.len() - 1
    } else {
        let front = updates.drop_last();
        let i = choose|i: int| 0 <= i < updates.len() && (#[trigger] updates[i]).key == key;
        assert(front[i].key == key);
        let n = last_index(front, key);
        assert forall|j: int| n < j < updates.len() implies (#[trigger] updates[j]).key
            != updates[n].key by {
            if j < front.len() {
                assert(front[j].key != front[n].key);
            }
        }
        n
    }
}

/// An update of an attempt that has not ended says something, and says it of checks that
/// the attempt has, with evidence. Every check that it names has the status and the
/// evidence of the last verdict given for it, whatever it had before; every other check
/// is as it was. A tier or a note that is not given stays, metadata is added, and
/// nothing else changes.
pub proof fn updates_judge_the_checks_they_name(
    s: StateView,
    event: EventView,
    attempt_id: Seq<char>,
    tier: Option<Seq<char>>,
    metadata: Map<Seq<char>, JsonView>,
    note: Option<Seq<char>>,
    checks: Seq<CheckUpdateView>,
)
    requires
        laws::sound(s),
        event.payload == EventPayloadView::Work(
            WorkEventPayloadView::AttemptUpdated { attempt_id, tier, metadata, note, checks },
        ),
    ensures
        rules::step(s, event) is Ok <==> {
            &&& s.attempts.contains_key(attempt_id)
            &&& !(s.attempts[attempt_id].state is Ended)
            &&& tier is Some ==> !text::blank(tier->0)
            &&& note is Some ==> !text::blank(note->0)
            &&& tier is Some || note is Some || checks.len() > 0 || exists|key: Seq<char>|
                metadata.contains_key(key)
            &&& forall|i: int|
                0 <= i < checks.len() ==> !text::blank((#[trigger] checks[i]).evidence)
                    && s.attempts[attempt_id].checks.contains_key(checks[i].key)
        },
        rules::step(s, event) is Ok ==> {
            let t = rules::step(s, event)->Ok_0;
            let before = s.attempts[attempt_id];
            let after = t.attempts[attempt_id];
            &&& one_attempt_differs(s, t, attempt_id)
            &&& after == AttemptView {
                checks: after.checks,
                tier: if tier is Some {
                    tier
                } else {
                    before.tier
                },
                note: if note is Some {
                    note
                } else {
                    before.note
                },
                metadata: after.metadata,
                updated_seq: event.seq,
                state: AttemptState::Active,
                ..before
            }
            &&& overlaid(before.metadata, metadata, after.metadata)
            &&& judged_by(before.checks, checks, event.seq, after.checks)
        },
{
    verdicts_are_kept(s.attempts[attempt_id].checks, checks, attempt_id, event.seq);
    let nothing = Map::<Seq<char>, JsonView>::empty();
    if forall|key: Seq<char>| !metadata.contains_key(key) {
        assert(metadata =~= nothing);
    }
}

/// An attempt that has not ended is ended for a reason and with an outcome that is no
/// success; work is finished to succeed. Nothing but the end of this attempt is new.
pub proof fn ending_ends_one_attempt(
    s: StateView,
    event: EventView,
    attempt_id: Seq<char>,
    outcome: AttemptOutcome,
    why: Seq<char>,
)
    requires
        event.payload == EventPayloadView::Work(
            WorkEventPayloadView::AttemptEnded { attempt_id, outcome, why },
        ),
    ensures
        rules::step(s, event) is Ok <==> {
            &&& !text::blank(why)
            &&& !(outcome is Succeeded)
            &&& s.attempts.contains_key(attempt_id)
            &&& !(s.attempts[attempt_id].state is Ended)
        },
        rules::step(s, event) is Ok ==> rules::step(s, event)->Ok_0 == (StateView {
            attempts: s.attempts.insert(
                attempt_id,
                ended_as(s.attempts[attempt_id], outcome, event.seq),
            ),
            ..s
        }),
{
}

// ---- questions ----

/// A question with a text and a new ID is asked about work that is not closed. Open work
/// is blocked on it, work that is blocked stays as it is blocked; nothing else of the
/// work changes, and the question has no answer.
pub proof fn asking_blocks_open_work(
    s: StateView,
    event: EventView,
    question: QuestionDefinitionView,
)
    requires
        event.payload == EventPayloadView::Work(WorkEventPayloadView::QuestionAsked { question }),
    ensures
        rules::step(s, event) is Ok <==> {
            &&& !text::blank(question.text)
            &&& !s.questions.contains_key(question.id)
            &&& s.work.contains_key(question.work_id)
            &&& !closed(s.work[question.work_id])
        },
        rules::step(s, event) is Ok ==> {
            let t = rules::step(s, event)->Ok_0;
            let before = s.work[question.work_id];
            &&& t == StateView { work: t.work, questions: t.questions, ..s }
            &&& t.work == s.work.insert(
                question.work_id,
                WorkView {
                    state: WorkState::Blocked,
                    block_reason: if before.state is Open {
                        Some("question "@ + question.id)
                    } else {
                        before.block_reason
                    },
                    changed_seq: event.seq,
                    ..before
                },
            )
            &&& t.questions == s.questions.insert(
                question.id,
                QuestionView {
                    id: question.id,
                    work_id: question.work_id,
                    text: question.text,
                    answer: None,
                    asked_seq: event.seq,
                    answered_seq: None,
                    answered_by: None,
                    answers: Seq::empty(),
                },
            )
        },
{
}

/// A question that there is can be answered, again and again. The last answer, its place
/// and who gave it are told, the earlier ones are kept, and nothing else changes.
pub proof fn answers_pile_up(
    s: StateView,
    event: EventView,
    question_id: Seq<char>,
    answer: Seq<char>,
)
    requires
        event.payload == EventPayloadView::Work(
            WorkEventPayloadView::QuestionAnswered { question_id, answer },
        ),
    ensures
        rules::step(s, event) is Ok <==> !text::blank(answer) && s.questions.contains_key(
            question_id,
        ),
        rules::step(s, event) is Ok ==> rules::step(s, event)->Ok_0 == (StateView {
            questions: s.questions.insert(
                question_id,
                QuestionView {
                    answer: Some(answer),
                    answered_seq: Some(event.seq),
                    answered_by: Some(event.actor),
                    answers: s.questions[question_id].answers.push(
                        QuestionAnswerView { answer, seq: event.seq, actor: event.actor },
                    ),
                    ..s.questions[question_id]
                },
            ),
            ..s
        }),
{
}

// ---- observations ----

/// Whether a text is of lower-case letters, digits and dashes, with no dash at its ends.
pub open spec fn plain_name(name: Seq<char>) -> bool {
    &&& name.len() > 0
    &&& name[0] != '-' && name.last() != '-'
    &&& forall|i: int|
        0 <= i < name.len() ==> ('a' <= #[trigger] name[i] <= 'z') || ('0' <= name[i] <= '9')
            || name[i] == '-'
}

/// Whether an observation may stand under the key.
pub open spec fn usable_key(key: ObservationKeyView) -> bool {
    &&& plain_name(key.observer)
    &&& plain_name(key.field)
    &&& !text::blank(key.subject)
    &&& !key.subject.contains('\0')
}

pub(crate) proof fn names_agree(name: Seq<char>)
    ensures
        plain_name(name) <==> rules::is_name(name),
{
    if plain_name(name) {
        assert(name[0] == name[0] && name.last() == name[name.len() - 1]);
        assert forall|i: int| 0 <= i < name.len() implies rules::name_end(#[trigger] name[i])
            || name[i] == '-' by {}
    }
    if rules::is_name(name) {
        assert forall|i: int| 0 <= i < name.len() implies ('a' <= #[trigger] name[i] <= 'z') || (
        '0' <= name[i] <= '9') || name[i] == '-' by {
            assert(rules::name_end(name[i]) || name[i] == '-');
        }
    }
}

/// A level that is reported is the one that stands under its key, dated by its event;
/// every other key, and all else, is as it was.
pub proof fn reports_stand_until_the_next(
    s: StateView,
    event: EventView,
    observation: ObservationDefinitionView,
)
    requires
        event.payload == EventPayloadView::Observation(
            ObservationEventPayloadView::ObservationReported { observation },
        ),
    ensures
        rules::step(s, event) is Ok <==> usable_key(observation.key) && !text::blank(
            observation.level,
        ),
        rules::step(s, event) is Ok ==> rules::step(s, event)->Ok_0 == (StateView {
            observations: s.observations.insert(
                observation.key,
                ObservationView {
                    key: observation.key,
                    level: observation.level,
                    reported_seq: event.seq,
                },
            ),
            ..s
        }),
{
    names_agree(observation.key.observer);
    names_agree(observation.key.field);
}

/// Exactly a key that stands can be retired, and nothing stands under it then; every
/// other key, and all else, is as it was.
pub proof fn retiring_takes_one_key_away(s: StateView, event: EventView, key: ObservationKeyView)
    requires
        event.payload == EventPayloadView::Observation(
            ObservationEventPayloadView::ObservationRetired { key },
        ),
    ensures
        rules::step(s, event) is Ok <==> usable_key(key) && s.observations.contains_key(key),
        rules::step(s, event) is Ok ==> rules::step(s, event)->Ok_0 == (StateView {
            observations: s.observations.remove(key),
            ..s
        }),
{
    names_agree(key.observer);
    names_agree(key.field);
}

// ---- the loop ----

/// Instructions to the loop touch nothing but the loop, and of it only what they are
/// about. Only an engine without a name is refused.
pub proof fn instructions_touch_the_loop_alone(
    s: StateView,
    event: EventView,
    payload: LoopEventPayloadView,
)
    requires
        event.payload == EventPayloadView::Loop(payload),
    ensures
        rules::step(s, event) is Ok <==> match payload {
            LoopEventPayloadView::LoopEngineSelected { engine } => !text::blank(engine),
            _ => true,
        },
        rules::step(s, event) is Ok ==> {
            let before = s.loop_control;
            let after = (rules::step(s, event)->Ok_0).loop_control;
            &&& rules::step(s, event)->Ok_0 == (StateView { loop_control: after, ..s })
            &&& match payload {
                LoopEventPayloadView::LoopPaused { why } => after == (LoopControlView {
                    paused: true,
                    pause_reason: after.pause_reason,
                    ..before
                }) && (after.pause_reason is Some <==> why is Some && !text::blank(why->0)) && (
                after.pause_reason is Some ==> after.pause_reason == why),
                LoopEventPayloadView::LoopResumed {} => after == (LoopControlView {
                    paused: false,
                    pause_reason: None,
                    ..before
                }),
                LoopEventPayloadView::LoopEngineSelected { engine } => after == (LoopControlView {
                    engine: Some(engine),
                    ..before
                }),
                LoopEventPayloadView::LoopRotationRequested { .. } => after == (LoopControlView {
                    rotate_requested_seq: Some(event.seq),
                    ..before
                }),
                LoopEventPayloadView::LoopNudgeRequested { .. } => after == (LoopControlView {
                    nudge_requested_seq: Some(event.seq),
                    ..before
                }),
                LoopEventPayloadView::LegacyPassStarted(_) => after == before,
                LoopEventPayloadView::LegacyPassEnded(body) => after == (LoopControlView {
                    rotate_requested_seq: if body.member("rotate"@) == Some(JsonView::Bool(true)) {
                        Some(event.seq)
                    } else {
                        before.rotate_requested_seq
                    },
                    ..before
                }),
            }
        },
{
}

// ---- what builds on an item ----

/// Downstream of an item is what requires it, directly or through others, each once and in
/// ascending order.
pub proof fn downstream_is_what_builds_on(s: StateView, work_id: Seq<char>)
    requires
        laws::keyed(s),
    ensures
        forall|id: Seq<char>| #[trigger]
            rules::downstream(s, work_id).contains(id) <==> exists|way: Seq<Seq<char>>| #[trigger]
                builds_on(s, id, work_id, way),
        forall|i: int, j: int|
            0 <= i < j < rules::downstream(s, work_id).len() ==> text::text_before(
                #[trigger] rules::downstream(s, work_id)[i],
                #[trigger] rules::downstream(s, work_id)[j],
            ),
{
    let set = rules::downstream_set(s, work_id);
    assert forall|x: Seq<char>| set.contains(x) implies s.work.dom().contains(x) by {
        let way = choose|way: Seq<Seq<char>>| rules::leads(s, work_id, x, way);
        ways_agree(s, x, work_id, way);
        assert(s.work.contains_key(way[way.len() - 1]));
    }
    vstd::set_lib::lemma_set_subset_finite(s.work.dom(), set);
    let ids = rules::downstream(s, work_id);
    catalog::listing_exists::<String>(set);
    assert forall|id: Seq<char>| #[trigger] ids.contains(id) <==> exists|way: Seq<Seq<char>>|
        #[trigger] builds_on(s, id, work_id, way) by {
        assert(ids.contains(id) <==> ids.to_set().contains(id));
        if ids.contains(id) {
            assert(set.contains(id));
            let way = choose|way: Seq<Seq<char>>| rules::leads(s, work_id, id, way);
            ways_agree(s, id, work_id, way);
        }
        if exists|way: Seq<Seq<char>>| #[trigger] builds_on(s, id, work_id, way) {
            let way = choose|way: Seq<Seq<char>>| #[trigger] builds_on(s, id, work_id, way);
            ways_agree(s, id, work_id, way);
            assert(set.contains(id));
        }
    }
    assert forall|i: int, j: int| 0 <= i < j < ids.len() implies text::text_before(
        #[trigger] ids[i],
        #[trigger] ids[j],
    ) by {
        assert(<String as catalog::Key>::before(ids[i], ids[j]));
    }
}

// ---- what is not there ----

/// Nothing becomes of work, attempts and questions that are not there: what is said of them
/// is refused as not found.
pub proof fn what_is_not_there_is_not_found(s: StateView, event: EventView)
    requires
        event.payload is Work,
    ensures
        event.payload->Work_0 matches WorkEventPayloadView::WorkFinished { work_id, .. }
            && !s.work.contains_key(work_id) ==> rules::step(s, event) is Err && rules::step(
            s,
            event,
        )->Err_0.code == "not_found"@,
        event.payload->Work_0 matches WorkEventPayloadView::WorkDropped { work_id, why, .. }
            && !s.work.contains_key(work_id) && !text::blank(why) ==> rules::step(
            s,
            event,
        ) is Err && rules::step(s, event)->Err_0.code == "not_found"@,
        event.payload->Work_0 matches WorkEventPayloadView::WorkReopened { work_id, why }
            && !s.work.contains_key(work_id) && !text::blank(why) ==> rules::step(
            s,
            event,
        ) is Err && rules::step(s, event)->Err_0.code == "not_found"@,
        event.payload->Work_0 matches WorkEventPayloadView::AttemptUpdated { attempt_id, .. }
            && !s.attempts.contains_key(attempt_id) ==> rules::step(s, event) is Err,
        event.payload->Work_0 matches WorkEventPayloadView::AttemptEnded { attempt_id, .. }
            && !s.attempts.contains_key(attempt_id) ==> rules::step(s, event) is Err,
        event.payload->Work_0 matches WorkEventPayloadView::QuestionAnswered { question_id, answer }
            && !s.questions.contains_key(question_id) && !text::blank(answer) ==> rules::step(
            s,
            event,
        ) is Err && rules::step(s, event)->Err_0.code == "not_found"@,
{
}

} // verus!

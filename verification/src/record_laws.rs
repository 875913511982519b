//! What holds of every item and every attempt that a project keeps.

use vstd::prelude::*;

use crate::attempt::{
    AttemptCheckView, AttemptDefinitionView, AttemptOutcome, AttemptView, CheckUpdateView,
};
use crate::catalog;
use crate::event::{EventPayloadView, EventView, WorkEventPayloadView};
use crate::json::JsonView;
use crate::laws;
use crate::observation::ObservationKeyView;
use crate::project::StateView;
use crate::question::{QuestionDefinitionView, QuestionView};
use crate::rules;
use crate::sorting;
use crate::text;
use crate::work::{
    CheckDefinition, CheckDefinitionView, WorkDefinitionView, WorkOperationView, WorkView,
};

verus! {

/// The requirements of an item ascend, and so do the keys of its checks: nothing is
/// there twice.
pub open spec fn in_order(work: WorkView) -> bool {
    &&& catalog::ascending::<String>(work.requires)
    &&& catalog::ascending::<String>(rules::check_keys(work.checks))
}

/// An attempt has ended exactly if it has an outcome, and exactly if it is told when;
/// it has a handle exactly if it is told when it got it, and none while it is starting.
pub open spec fn told(attempt: AttemptView) -> bool {
    &&& attempt.state is Ended <==> attempt.outcome is Some
    &&& attempt.state is Ended <==> attempt.ended_seq is Some
    &&& attempt.handle is Some <==> attempt.bound_seq is Some
    &&& attempt.state is Starting ==> attempt.handle is None
    &&& checks_told(attempt.checks)
}

/// A check is kept under its key, and has evidence exactly if it is told when it was
/// judged.
pub open spec fn checks_told(checks: Map<Seq<char>, AttemptCheckView>) -> bool {
    forall|key: Seq<char>|
        checks.contains_key(key) ==> (#[trigger] checks[key]).key == key && (
        checks[key].evidence is Some <==> checks[key].updated_seq is Some)
}

/// The answer to a question is the last of its answers.
pub open spec fn answer_told(question: QuestionView) -> bool {
    if question.answers.len() == 0 {
        &&& question.answer is None
        &&& question.answered_seq is None
        &&& question.answered_by is None
    } else {
        &&& question.answer == Some(question.answers.last().answer)
        &&& question.answered_seq == Some(question.answers.last().seq)
        &&& question.answered_by == Some(question.answers.last().actor)
    }
}

/// Items are in order, attempts and answers are told, an attempt that has not ended has
/// exactly the checks of its work, and only a loop that is paused has a reason to be.
pub open spec fn recorded(s: StateView) -> bool {
    &&& forall|k: Seq<char>| s.work.contains_key(k) ==> in_order(#[trigger] s.work[k])
    &&& forall|k: Seq<char>| s.attempts.contains_key(k) ==> told(#[trigger] s.attempts[k])
    &&& forall|k: Seq<char>|
        s.attempts.contains_key(k) && !((#[trigger] s.attempts[k]).state is Ended)
            ==> s.attempts[k].checks.dom() == keys_of(s.work[s.attempts[k].work_id])
    &&& forall|k: Seq<char>| s.questions.contains_key(k) ==> answer_told(#[trigger] s.questions[k])
    &&& s.loop_control.pause_reason is Some ==> s.loop_control.paused
}

/// The keys of an item's checks.
pub open spec fn keys_of(work: WorkView) -> Set<Seq<char>> {
    rules::check_keys(work.checks).to_set()
}

// ---- sorting ----

/// What occurs once occurs once when sorted, in ascending order.
proof fn sorted_texts_ascend(items: Seq<Seq<char>>)
    requires
        items.no_duplicates(),
    ensures
        catalog::ascending::<String>(sorting::sorted::<String>(items)),
        sorting::sorted::<String>(items).to_set() == items.to_set(),
{
    broadcast use vstd::seq_lib::group_to_multiset_ensures;

    let ordered = sorting::sorted::<String>(items);
    laws::texts_weakly_ordered();
    sorting::sorted_is_ordered_permutation::<String>(items);
    items.lemma_multiset_has_no_duplicates();
    assert forall|x: Seq<char>|
        ordered.to_multiset().contains(x) implies ordered.to_multiset().count(x) == 1 by {
        assert(items.to_multiset().contains(x));
    }
    ordered.lemma_multiset_has_no_duplicates_conv();
    assert forall|i: int, j: int|
        0 <= i < j < ordered.len() implies #[trigger] <String as catalog::Key>::before(
        ordered[i],
        ordered[j],
    ) by {
        assert(!<String as sorting::Ranked>::ahead(ordered[j], ordered[i]));
        text::text_before_total(ordered[i], ordered[j]);
    }
    assert forall|x: Seq<char>| ordered.to_set().contains(x) <==> items.to_set().contains(x) by {
        laws::sorted_holds_the_same(items, x);
    }
    assert(ordered.to_set() =~= items.to_set());
}

proof fn keys_of_placed(items: Seq<CheckDefinitionView>, item: CheckDefinitionView)
    ensures
        rules::check_keys(sorting::placed::<CheckDefinition>(items, item))
            == sorting::placed::<String>(rules::check_keys(items), item.key),
    decreases items.len(),
{
    let keys = rules::check_keys(items);
    let all = sorting::placed::<CheckDefinition>(items, item);
    if items.len() > 0 && <CheckDefinition as sorting::Ranked>::ahead(item, items.last()) {
        let front = items.drop_last();
        keys_of_placed(front, item);
        assert(keys.drop_last() =~= rules::check_keys(front));
        assert(keys.last() == items.last().key);
        assert(rules::check_keys(all) =~= rules::check_keys(
            sorting::placed::<CheckDefinition>(front, item),
        ).push(items.last().key));
    } else {
        if items.len() > 0 {
            assert(keys.last() == items.last().key);
        }
        assert(rules::check_keys(all) =~= keys.push(item.key));
    }
}

/// The keys of sorted checks are the sorted keys.
proof fn keys_of_sorted(checks: Seq<CheckDefinitionView>)
    ensures
        rules::check_keys(sorting::sorted::<CheckDefinition>(checks)) == sorting::sorted::<String>(
            rules::check_keys(checks),
        ),
    decreases checks.len(),
{
    let keys = rules::check_keys(checks);
    if checks.len() > 0 {
        let front = checks.drop_last();
        keys_of_sorted(front);
        keys_of_placed(sorting::sorted::<CheckDefinition>(front), checks.last());
        assert(keys.drop_last() =~= rules::check_keys(front));
        assert(keys.last() == checks.last().key);
    } else {
        assert(rules::check_keys(sorting::sorted::<CheckDefinition>(checks)) =~= keys);
    }
}

pub(crate) proof fn ascending_texts_differ(items: Seq<Seq<char>>)
    requires
        catalog::ascending::<String>(items),
    ensures
        items.no_duplicates(),
{
    assert forall|i: int, j: int|
        0 <= i < items.len() && 0 <= j < items.len() && i != j implies items[i] != items[j] by {
        if i < j {
            assert(<String as catalog::Key>::before(items[i], items[j]));
        } else {
            assert(<String as catalog::Key>::before(items[j], items[i]));
        }
        text::text_before_irreflexive(items[i]);
    }
}

proof fn without_keeps_differing(items: Seq<Seq<char>>, removed: Seq<Seq<char>>)
    requires
        items.no_duplicates(),
    ensures
        rules::without(items, removed).no_duplicates(),
        forall|x: Seq<char>| #[trigger]
            rules::without(items, removed).contains(x) ==> items.contains(x),
    decreases items.len(),
{
    if items.len() > 0 {
        let front = items.drop_last();
        without_keeps_differing(front, removed);
        let rest = rules::without(front, removed);
        let all = rules::without(items, removed);
        assert forall|x: Seq<char>| #[trigger] all.contains(x) implies items.contains(x) by {
            let i = choose|i: int| 0 <= i < all.len() && all[i] == x;
            if i < rest.len() {
                assert(rest.contains(x));
                let j = choose|j: int| 0 <= j < front.len() && front[j] == x;
                assert(items[j] == x);
            } else {
                assert(items[items.len() - 1] == x);
            }
        }
        if rest.contains(items.last()) {
            let j = choose|j: int| 0 <= j < front.len() && front[j] == items.last();
            assert(items[j] == items[items.len() - 1]);
        }
        if !removed.contains(items.last()) {
            pushing_keeps_differing(rest, items.last());
        }
    }
}

proof fn pushing_keeps_differing(items: Seq<Seq<char>>, item: Seq<char>)
    requires
        items.no_duplicates(),
        !items.contains(item),
    ensures
        items.push(item).no_duplicates(),
{
    let all = items.push(item);
    assert forall|i: int, j: int|
        0 <= i < all.len() && 0 <= j < all.len() && i != j implies all[i] != all[j] by {
        if i < items.len() {
            assert(items.contains(items[i]));
        }
        if j < items.len() {
            assert(items.contains(items[j]));
        }
    }
}

proof fn with_added_keeps_differing(items: Seq<Seq<char>>, added: Seq<Seq<char>>)
    requires
        items.no_duplicates(),
    ensures
        rules::with_added(items, added).no_duplicates(),
    decreases added.len(),
{
    if added.len() > 0 {
        let front = rules::with_added(items, added.drop_last());
        with_added_keeps_differing(items, added.drop_last());
        if !front.contains(added.last()) {
            pushing_keeps_differing(front, added.last());
        }
    }
}

proof fn checks_without_keeps_differing(
    checks: Seq<CheckDefinitionView>,
    removed: Seq<Seq<char>>,
)
    ensures
        rules::check_keys(rules::checks_without(checks, removed)) == rules::without(
            rules::check_keys(checks),
            removed,
        ),
    decreases checks.len(),
{
    let keys = rules::check_keys(checks);
    if checks.len() > 0 {
        let front = checks.drop_last();
        checks_without_keeps_differing(front, removed);
        assert(keys.drop_last() =~= rules::check_keys(front));
        assert(keys.last() == checks.last().key);
        let rest = rules::checks_without(front, removed);
        assert(rules::check_keys(rest.push(checks.last())) =~= rules::check_keys(rest).push(
            checks.last().key,
        ));
    } else {
        assert(rules::check_keys(rules::checks_without(checks, removed)) =~= keys);
    }
}

proof fn checks_added_keeps_differing(
    checks: Seq<CheckDefinitionView>,
    added: Seq<CheckDefinitionView>,
    id: Seq<char>,
)
    requires
        rules::check_keys(checks).no_duplicates(),
        rules::checks_added(checks, added, id) is Ok,
    ensures
        rules::check_keys(rules::checks_added(checks, added, id)->Ok_0).no_duplicates(),
    decreases added.len(),
{
    if added.len() > 0 {
        checks_added_keeps_differing(checks, added.drop_last(), id);
        let front = rules::checks_added(checks, added.drop_last(), id)->Ok_0;
        pushing_keeps_differing(rules::check_keys(front), added.last().key);
        assert(rules::check_keys(front.push(added.last())) =~= rules::check_keys(front).push(
            added.last().key,
        ));
    }
}

// ---- one item or one attempt ----

proof fn setting_work_keeps_records(s: StateView, id: Seq<char>, work: WorkView)
    requires
        laws::one_attempt_each(s),
        recorded(s),
        in_order(work),
        rules::active_attempt(s, id) is Some ==> keys_of(work) == keys_of(s.work[id]),
    ensures
        recorded(rules::set_work(s, id, work)),
{
    let t = rules::set_work(s, id, work);
    assert forall|k: Seq<char>|
        t.attempts.contains_key(k) && !((
        #[trigger] t.attempts[k]).state is Ended) implies t.attempts[k].checks.dom() == keys_of(
        t.work[t.attempts[k].work_id],
    ) by {
        let attempt = s.attempts[k];
        assert(rules::active_key(s, attempt.work_id, k));
        laws::active_attempt_is_the_one(s, attempt.work_id, k);
    }
}

proof fn setting_attempt_keeps_records(s: StateView, id: Seq<char>, attempt: AttemptView)
    requires
        recorded(s),
        told(attempt),
        !(attempt.state is Ended) ==> attempt.checks.dom() == keys_of(s.work[attempt.work_id]),
    ensures
        recorded(rules::set_attempt(s, id, attempt)),
{
    let t = rules::set_attempt(s, id, attempt);
    assert forall|k: Seq<char>|
        t.attempts.contains_key(k) && !((
        #[trigger] t.attempts[k]).state is Ended) implies t.attempts[k].checks.dom() == keys_of(
        t.work[t.attempts[k].work_id],
    ) by {
        if k != id {
            assert(s.attempts.contains_key(k));
        }
    }
}

proof fn adding_keeps_records(s: StateView, seq: u64, work: WorkDefinitionView)
    requires
        laws::sound_apart_from_graph(s),
        recorded(s),
        rules::add_work(s, seq, work) is Ok,
    ensures
        recorded(rules::add_work(s, seq, work)->Ok_0),
{
    sorted_texts_ascend(work.requires);
    keys_of_sorted(work.checks);
    sorted_texts_ascend(rules::check_keys(work.checks));
    if rules::active_attempt(s, work.id) is Some {
        let key = laws::active_attempt_has_a_key(s, work.id);
        assert(s.work.contains_key(s.attempts[key].work_id));
    }
    setting_work_keeps_records(s, work.id, rules::opened(work, seq));
}

proof fn editing_keeps_records(s: StateView, seq: u64, edit: WorkOperationView)
    requires
        laws::sound_apart_from_graph(s),
        recorded(s),
        rules::edit_work(s, seq, edit) is Ok,
    ensures
        recorded(rules::edit_work(s, seq, edit)->Ok_0),
{
    match edit {
        WorkOperationView::Add { work } => {
            adding_keeps_records(s, seq, work);
        },
        WorkOperationView::Edit {
            id,
            add_requires,
            remove_requires,
            add_checks,
            remove_checks,
            ..
        } => {
            let before = s.work[id];
            let after = (rules::edit_work(s, seq, edit)->Ok_0).work[id];
            assert(in_order(before));
            ascending_texts_differ(before.requires);
            without_keeps_differing(before.requires, remove_requires);
            let kept = rules::without(before.requires, remove_requires);
            with_added_keeps_differing(kept, add_requires);
            sorted_texts_ascend(rules::with_added(kept, add_requires));
            ascending_texts_differ(rules::check_keys(before.checks));
            checks_without_keeps_differing(before.checks, remove_checks);
            without_keeps_differing(rules::check_keys(before.checks), remove_checks);
            let left = rules::checks_without(before.checks, remove_checks);
            checks_added_keeps_differing(left, add_checks, id);
            let checks = rules::checks_added(left, add_checks, id)->Ok_0;
            keys_of_sorted(checks);
            sorted_texts_ascend(rules::check_keys(checks));
            if rules::active_attempt(s, id) is Some {
                assert(remove_checks =~= Seq::empty());
                assert(add_checks =~= Seq::empty());
                laws::nothing_removed(rules::check_keys(before.checks));
            }
            setting_work_keeps_records(s, id, after);
        },
    }
}

proof fn operating_keeps_records(s: StateView, seq: u64, operations: Seq<WorkOperationView>)
    requires
        laws::sound_apart_from_graph(s),
        recorded(s),
        rules::operated(s, seq, operations) is Ok,
    ensures
        recorded(rules::operated(s, seq, operations)->Ok_0),
    decreases operations.len(),
{
    if operations.len() > 0 {
        let front = operations.drop_last();
        operating_keeps_records(s, seq, front);
        laws::operating_keeps(s, seq, front);
        editing_keeps_records(rules::operated(s, seq, front)->Ok_0, seq, operations.last());
    }
}

proof fn judging_keeps_keys(
    checks: Map<Seq<char>, AttemptCheckView>,
    updates: Seq<CheckUpdateView>,
    attempt_id: Seq<char>,
    seq: u64,
)
    requires
        rules::judged(checks, updates, attempt_id, seq) is Ok,
    ensures
        (rules::judged(checks, updates, attempt_id, seq)->Ok_0).dom() == checks.dom(),
        checks_told(checks) ==> checks_told(
            rules::judged(checks, updates, attempt_id, seq)->Ok_0,
        ),
    decreases updates.len(),
{
    if updates.len() > 0 {
        judging_keeps_keys(checks, updates.drop_last(), attempt_id, seq);
        assert((rules::judged(checks, updates, attempt_id, seq)->Ok_0).dom() =~= checks.dom());
    }
}

proof fn ending_keeps_records(s: StateView, id: Seq<char>, outcome: AttemptOutcome, seq: u64)
    requires
        recorded(s),
        s.attempts.contains_key(id),
    ensures
        recorded(rules::set_attempt(s, id, rules::ended(s.attempts[id], outcome, seq))),
{
    assert(told(s.attempts[id]));
    setting_attempt_keeps_records(s, id, rules::ended(s.attempts[id], outcome, seq));
}

proof fn finishing_keeps_records(
    s: StateView,
    seq: u64,
    work_id: Seq<char>,
    attempt_id: Option<Seq<char>>,
    external: bool,
    evidence: Option<Seq<char>>,
)
    requires
        laws::founded(s),
        recorded(s),
        rules::finish_work(s, seq, work_id, attempt_id, external, evidence) is Ok,
    ensures
        recorded(rules::finish_work(s, seq, work_id, attempt_id, external, evidence)->Ok_0),
{
    let t = rules::finish_work(s, seq, work_id, attempt_id, external, evidence)->Ok_0;
    assert(in_order(s.work[work_id]));
    if external {
        setting_work_keeps_records(s, work_id, t.work[work_id]);
    } else {
        let id = attempt_id->0;
        laws::ending_frees(s, work_id, id, AttemptOutcome::Succeeded, seq);
        ending_keeps_records(s, id, AttemptOutcome::Succeeded, seq);
        let middle = rules::set_attempt(
            s,
            id,
            rules::ended(s.attempts[id], AttemptOutcome::Succeeded, seq),
        );
        setting_work_keeps_records(middle, work_id, t.work[work_id]);
    }
}

proof fn dropping_keeps_records(
    s: StateView,
    seq: u64,
    work_id: Seq<char>,
    attempt_id: Option<Seq<char>>,
    outcome: Option<AttemptOutcome>,
    why: Seq<char>,
)
    requires
        laws::founded(s),
        recorded(s),
        rules::drop_work(s, seq, work_id, attempt_id, outcome, why) is Ok,
    ensures
        recorded(rules::drop_work(s, seq, work_id, attempt_id, outcome, why)->Ok_0),
{
    let t = rules::drop_work(s, seq, work_id, attempt_id, outcome, why)->Ok_0;
    assert(in_order(s.work[work_id]));
    let middle = rules::release(s, seq, work_id, attempt_id, outcome)->Ok_0;
    if rules::active_attempt(s, work_id) is Some {
        laws::ending_frees(s, work_id, attempt_id->0, outcome->0, seq);
        ending_keeps_records(s, attempt_id->0, outcome->0, seq);
    }
    setting_work_keeps_records(middle, work_id, t.work[work_id]);
}

proof fn reopening_keeps_records(s: StateView, seq: u64, work_id: Seq<char>, why: Seq<char>)
    requires
        laws::founded(s),
        recorded(s),
        rules::reopen_work(s, seq, work_id, why) is Ok,
    ensures
        recorded(rules::reopen_work(s, seq, work_id, why)->Ok_0),
{
    let t = rules::reopen_work(s, seq, work_id, why)->Ok_0;
    assert(in_order(s.work[work_id]));
    setting_work_keeps_records(s, work_id, t.work[work_id]);
}

proof fn starting_keeps_records(s: StateView, seq: u64, attempt: AttemptDefinitionView)
    requires
        recorded(s),
        rules::start_attempt(s, seq, attempt) is Ok,
    ensures
        recorded(rules::start_attempt(s, seq, attempt)->Ok_0),
{
    let t = rules::start_attempt(s, seq, attempt)->Ok_0;
    let checks = s.work[attempt.work_id].checks;
    assert forall|key: Seq<char>|
        rules::pending(checks).dom().contains(key) <==> rules::check_keys(
            checks,
        ).to_set().contains(key) by {
        laws::pending_has_each(checks, key);
    }
    assert(rules::pending(checks).dom() =~= rules::check_keys(checks).to_set());
    assert(checks_told(rules::pending(checks))) by {
        assert forall|key: Seq<char>| rules::pending(checks).contains_key(key) implies (
        #[trigger] rules::pending(checks)[key]).key == key && (rules::pending(
            checks,
        )[key].evidence is Some <==> rules::pending(checks)[key].updated_seq is Some) by {
            laws::pending_has_each(checks, key);
        }
    }
    setting_attempt_keeps_records(s, attempt.id, t.attempts[attempt.id]);
}

proof fn asking_keeps_records(s: StateView, seq: u64, question: QuestionDefinitionView)
    requires
        laws::one_attempt_each(s),
        recorded(s),
        rules::ask(s, seq, question) is Ok,
    ensures
        recorded(rules::ask(s, seq, question)->Ok_0),
{
    let t = rules::ask(s, seq, question)->Ok_0;
    let id = question.work_id;
    assert(in_order(s.work[id]));
    setting_work_keeps_records(s, id, t.work[id]);
    same_records(rules::set_work(s, id, t.work[id]), t);
}

proof fn binding_keeps_records(
    s: StateView,
    seq: u64,
    attempt_id: Seq<char>,
    handle: Seq<char>,
    metadata: Map<Seq<char>, JsonView>,
)
    requires
        recorded(s),
        rules::bind_attempt(s, seq, attempt_id, handle, metadata) is Ok,
    ensures
        recorded(rules::bind_attempt(s, seq, attempt_id, handle, metadata)->Ok_0),
{
    let t = rules::bind_attempt(s, seq, attempt_id, handle, metadata)->Ok_0;
    assert(told(s.attempts[attempt_id]));
    setting_attempt_keeps_records(s, attempt_id, t.attempts[attempt_id]);
}

proof fn updating_keeps_records(
    s: StateView,
    seq: u64,
    attempt_id: Seq<char>,
    tier: Option<Seq<char>>,
    metadata: Map<Seq<char>, JsonView>,
    note: Option<Seq<char>>,
    checks: Seq<CheckUpdateView>,
)
    requires
        recorded(s),
        rules::update_attempt(s, seq, attempt_id, tier, metadata, note, checks) is Ok,
    ensures
        recorded(
            rules::update_attempt(s, seq, attempt_id, tier, metadata, note, checks)->Ok_0,
        ),
{
    let t = rules::update_attempt(s, seq, attempt_id, tier, metadata, note, checks)->Ok_0;
    assert(told(s.attempts[attempt_id]));
    judging_keeps_keys(s.attempts[attempt_id].checks, checks, attempt_id, seq);
    setting_attempt_keeps_records(s, attempt_id, t.attempts[attempt_id]);
}

proof fn work_steps_keep_records(
    s: StateView,
    seq: u64,
    actor: Seq<char>,
    payload: WorkEventPayloadView,
)
    requires
        laws::founded(s),
        recorded(s),
        rules::work_step(s, seq, actor, payload) is Ok,
    ensures
        recorded(rules::work_step(s, seq, actor, payload)->Ok_0),
{
    match payload {
        WorkEventPayloadView::LegacyHandoffSubmitted { .. } => {},
        WorkEventPayloadView::LegacyHandoffWithdrawn { .. } => {},
        WorkEventPayloadView::LegacyHandoffIntegrated { work, .. } => {
            adding_keeps_records(s, seq, work);
        },
        WorkEventPayloadView::WorkChanged { operations, .. } => {
            operating_keeps_records(s, seq, operations);
        },
        WorkEventPayloadView::WorkFinished { work_id, attempt_id, external, evidence } => {
            finishing_keeps_records(s, seq, work_id, attempt_id, external, evidence);
        },
        WorkEventPayloadView::WorkDropped { work_id, attempt_id, outcome, why } => {
            dropping_keeps_records(s, seq, work_id, attempt_id, outcome, why);
        },
        WorkEventPayloadView::WorkReopened { work_id, why } => {
            reopening_keeps_records(s, seq, work_id, why);
        },
        WorkEventPayloadView::AttemptStarted { attempt } => {
            starting_keeps_records(s, seq, attempt);
        },
        WorkEventPayloadView::AttemptBound { attempt_id, handle, metadata } => {
            binding_keeps_records(s, seq, attempt_id, handle, metadata);
        },
        WorkEventPayloadView::AttemptUpdated { attempt_id, tier, metadata, note, checks } => {
            updating_keeps_records(s, seq, attempt_id, tier, metadata, note, checks);
        },
        WorkEventPayloadView::AttemptEnded { attempt_id, outcome, .. } => {
            ending_keeps_records(s, attempt_id, outcome, seq);
        },
        WorkEventPayloadView::QuestionAsked { question } => {
            asking_keeps_records(s, seq, question);
        },
        WorkEventPayloadView::QuestionAnswered { question_id, .. } => {
            assert(answer_told(s.questions[question_id]));
            same_records(s, rules::work_step(s, seq, actor, payload)->Ok_0);
        },
    }
}

proof fn same_records(s: StateView, t: StateView)
    requires
        recorded(s),
        t.work == s.work,
        t.attempts == s.attempts,
        forall|k: Seq<char>|
            t.questions.contains_key(k) ==> answer_told(#[trigger] t.questions[k]),
        t.loop_control.pause_reason is Some ==> t.loop_control.paused,
    ensures
        recorded(t),
{
    assert forall|k: Seq<char>|
        t.attempts.contains_key(k) && !((
        #[trigger] t.attempts[k]).state is Ended) implies t.attempts[k].checks.dom() == keys_of(
        t.work[t.attempts[k].work_id],
    ) by {
        assert(s.attempts.contains_key(k) && !(s.attempts[k].state is Ended));
    }
}

pub(crate) proof fn steps_keep_records(s: StateView, event: EventView)
    requires
        laws::founded(s),
        recorded(s),
        rules::step(s, event) is Ok,
    ensures
        recorded(rules::step(s, event)->Ok_0),
{
    match event.payload {
        EventPayloadView::Work(payload) => {
            work_steps_keep_records(s, event.seq, event.actor, payload);
        },
        _ => {
            same_records(s, rules::step(s, event)->Ok_0);
        },
    }
}

// ---- sequence numbers ----

/// An item was opened before it was last changed, and neither behind `last`.
pub open spec fn dated_work(work: WorkView, last: u64) -> bool {
    1 <= work.opened_seq <= work.changed_seq <= last
}

/// An attempt was started before anything else was said of it, got its handle and
/// ended after that, and nothing is said of it behind its end.
pub open spec fn dated_attempt(attempt: AttemptView, last: u64) -> bool {
    &&& 1 <= attempt.started_seq <= attempt.updated_seq <= last
    &&& attempt.bound_seq matches Some(at) ==> attempt.started_seq <= at <= attempt.updated_seq
    &&& attempt.ended_seq matches Some(at) ==> at == attempt.updated_seq
}

/// A question was asked before it was answered.
pub open spec fn dated_question(question: QuestionView, last: u64) -> bool {
    &&& 1 <= question.asked_seq <= last
    &&& question.answered_seq matches Some(at) ==> question.asked_seq <= at <= last
}

/// All that a project keeps is dated, up to the sequence number `last`.
pub open spec fn dated(s: StateView, last: u64) -> bool {
    &&& forall|k: Seq<char>| s.work.contains_key(k) ==> dated_work(#[trigger] s.work[k], last)
    &&& forall|k: Seq<char>|
        s.attempts.contains_key(k) ==> dated_attempt(#[trigger] s.attempts[k], last)
    &&& forall|k: Seq<char>|
        s.questions.contains_key(k) ==> dated_question(#[trigger] s.questions[k], last)
    &&& forall|k: ObservationKeyView|
        s.observations.contains_key(k) ==> 1 <= (#[trigger] s.observations[k]).reported_seq <= last
}

proof fn operating_keeps_dates(
    s: StateView,
    last: u64,
    seq: u64,
    operations: Seq<WorkOperationView>,
)
    requires
        dated(s, last),
        last <= seq,
        1 <= seq,
        rules::operated(s, seq, operations) is Ok,
    ensures
        dated(rules::operated(s, seq, operations)->Ok_0, seq),
    decreases operations.len(),
{
    if operations.len() > 0 {
        operating_keeps_dates(s, last, seq, operations.drop_last());
        let middle = rules::operated(s, seq, operations.drop_last())->Ok_0;
        let id = operations.last().target();
        if middle.work.contains_key(id) {
            assert(dated_work(middle.work[id], seq));
        }
    }
}

/// An event behind all that a project is dated by leaves it dated by that event.
pub proof fn steps_keep_dates(s: StateView, last: u64, event: EventView)
    requires
        laws::sound(s),
        dated(s, last),
        last < event.seq,
        rules::step(s, event) is Ok,
    ensures
        dated(rules::step(s, event)->Ok_0, event.seq),
{
    match event.payload {
        EventPayloadView::Work(payload) => match payload {
            WorkEventPayloadView::WorkChanged { operations, .. } => {
                operating_keeps_dates(s, last, event.seq, operations);
            },
            WorkEventPayloadView::WorkFinished { work_id, .. } => {
                assert(dated_work(s.work[work_id], last));
            },
            WorkEventPayloadView::WorkDropped { work_id, .. } => {
                assert(dated_work(s.work[work_id], last));
            },
            WorkEventPayloadView::WorkReopened { work_id, .. } => {
                assert(dated_work(s.work[work_id], last));
            },
            WorkEventPayloadView::QuestionAsked { question } => {
                assert(dated_work(s.work[question.work_id], last));
            },
            WorkEventPayloadView::QuestionAnswered { question_id, .. } => {
                assert(dated_question(s.questions[question_id], last));
            },
            WorkEventPayloadView::AttemptBound { attempt_id, .. } => {
                assert(dated_attempt(s.attempts[attempt_id], last));
                assert(told(s.attempts[attempt_id]));
            },
            WorkEventPayloadView::AttemptUpdated { attempt_id, .. } => {
                assert(dated_attempt(s.attempts[attempt_id], last));
                assert(told(s.attempts[attempt_id]));
            },
            WorkEventPayloadView::AttemptEnded { attempt_id, .. } => {
                assert(dated_attempt(s.attempts[attempt_id], last));
            },
            _ => {},
        },
        _ => {},
    }
}

/// What a log folds into is dated by the log: nothing is opened, started, bound,
/// ended, asked or answered before it could be, nor behind the last event.
pub proof fn folded_projects_are_dated(events: Seq<EventView>)
    requires
        events.len() <= u64::MAX,
        rules::folded(events) is Ok,
    ensures
        dated(rules::folded(events)->Ok_0, events.len() as u64),
    decreases events.len(),
{
    if events.len() > 0 {
        let front = events.drop_last();
        folded_projects_are_dated(front);
        laws::folded_logs_are_numbered(events);
        laws::folded_projects_are_sound(front);
        steps_keep_dates(rules::folded(front)->Ok_0, front.len() as u64, events.last());
    }
}

} // verus!

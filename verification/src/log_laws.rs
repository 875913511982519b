//! What holds of a log and of the statements that are made in it.

use vstd::prelude::*;

use crate::catalog;
use crate::error::ErrorView;
use crate::event::{
    EventDraftView, EventPayloadView, EventView, LoopEventPayloadView, WorkEventPayloadView,
};
use crate::ids;
use crate::instant::Instant;
use crate::laws;
use crate::log;
use crate::log::{AppendHook, ProjectLog, SnapshotView};
use crate::observation::{ObservationDefinitionView, ObservationKeyView};
use crate::project::StateView;
use crate::record_laws;
use crate::rules;
use crate::sorting;
use crate::store;
use crate::store::{AppendResultView, HeadView, MemoryStore, Store};
use crate::text;
use crate::work::{Work, WorkView};

verus! {

// ---- the store ----

/// Of two drafts that expect the same head, only one is appended: the log has
/// moved on under the other, which is refused and leaves it as it is.
pub proof fn one_writer_wins(
    events: Seq<EventView>,
    expected: HeadView,
    first: EventDraftView,
    second: EventDraftView,
)
    requires
        events.len() < u64::MAX,
        store::memory_after(events, expected, first) != events,
        store::event_with_id(events, second.id) is None,
        first.id != second.id,
    ensures
        ({
            let moved = store::memory_after(events, expected, first);
            &&& store::memory_append(moved, expected, second) == Err::<AppendResultView, ErrorView>(
                store::conflict_error(
                    expected,
                    store::memory_head_at((events.len() + 1) as u64),
                ),
            )
            &&& store::memory_after(moved, expected, second) == moved
        }),
{
    let moved = store::memory_after(events, expected, first);
    assert(moved == events.push(first.at_seq(store::next_seq(events.len()))));
    assert(moved.drop_last() =~= events);
}

/// A draft that is in the log is not appended again, whatever head it expects,
/// and its event is told again.
pub proof fn appending_twice_is_appending_once(
    events: Seq<EventView>,
    expected: HeadView,
    other: HeadView,
    draft: EventDraftView,
)
    requires
        events.len() < u64::MAX,
        store::memory_append(events, expected, draft) is Ok,
    ensures
        ({
            let moved = store::memory_after(events, expected, draft);
            &&& store::memory_after(moved, other, draft) == moved
            &&& store::memory_append(moved, other, draft) is Ok
            &&& (store::memory_append(moved, other, draft)->Ok_0).event == (store::memory_append(
                events,
                expected,
                draft,
            )->Ok_0).event
        }),
{
    let moved = store::memory_after(events, expected, draft);
    if store::event_with_id(events, draft.id) is None {
        assert(moved.drop_last() =~= events);
    }
}

/// What was appended is read back under the head that the append told, behind
/// all that was there before.
pub proof fn reads_give_back_what_appends_wrote(
    events: Seq<EventView>,
    expected: HeadView,
    draft: EventDraftView,
)
    requires
        events.len() < u64::MAX,
        store::event_with_id(events, draft.id) is None,
        store::memory_append(events, expected, draft) is Ok,
    ensures
        ({
            let told = store::memory_append(events, expected, draft)->Ok_0;
            let moved = store::memory_after(events, expected, draft);
            store::memory_read(moved, told.head) == Ok::<Seq<EventView>, ErrorView>(
                events.push(told.event),
            )
        }),
{
    let moved = store::memory_after(events, expected, draft);
    assert(moved.take(moved.len() as int) =~= moved);
}

/// Reading at an earlier head gives what was there then, however the log grew.
pub proof fn earlier_heads_stay_readable(
    events: Seq<EventView>,
    head: HeadView,
    expected: HeadView,
    draft: EventDraftView,
)
    requires
        head.seq <= events.len(),
    ensures
        store::memory_read(store::memory_after(events, expected, draft), head)
            == store::memory_read(events, head),
{
    let moved = store::memory_after(events, expected, draft);
    assert(moved.take(head.seq as int) =~= events.take(head.seq as int));
}

// ---- statements ----

/// History is never made again: no statement of a legacy kind reaches the store.
pub proof fn legacy_statements_are_refused<S: Store, H: AppendHook>(
    before: ProjectLog<S, H>,
    after: ProjectLog<S, H>,
    snapshot: SnapshotView,
    payload: EventPayloadView,
    outcome: core::result::Result<AppendResultView, ErrorView>,
)
    requires
        payload.legacy(),
        before.states(after, snapshot, payload, outcome),
    ensures
        after == before,
        outcome == Err::<AppendResultView, ErrorView>(log::legacy_error(payload.event_type())),
{
}

/// A statement that the project refuses reaches nobody.
pub proof fn refused_statements_change_nothing<S: Store, H: AppendHook>(
    before: ProjectLog<S, H>,
    after: ProjectLog<S, H>,
    snapshot: SnapshotView,
    draft: EventDraftView,
    outcome: core::result::Result<AppendResultView, ErrorView>,
)
    requires
        log::refusal(before.prefix@, snapshot, draft) is Some,
        before.appends(after, snapshot, draft, outcome),
    ensures
        after == before,
        outcome == Err::<AppendResultView, ErrorView>(
            log::refusal(before.prefix@, snapshot, draft)->0,
        ),
{
}

/// A writer that loses the race to another is told that nothing was appended,
/// and of which event; the log in memory stands as the other left it.
pub proof fn losers_are_told_that_nothing_was_appended<H: AppendHook>(
    before: ProjectLog<MemoryStore, H>,
    after: ProjectLog<MemoryStore, H>,
    snapshot: SnapshotView,
    draft: EventDraftView,
    outcome: core::result::Result<AppendResultView, ErrorView>,
)
    requires
        log::refusal(before.prefix@, snapshot, draft) is None,
        store::event_with_id(before.store@, draft.id) is None,
        store::memory_head_at(before.store@.len() as u64) != snapshot.head,
        before.appends(after, snapshot, draft, outcome),
    ensures
        after.store@ == before.store@,
        after.on_append == before.on_append,
        outcome == Err::<AppendResultView, ErrorView>(
            log::lost_error(
                draft.payload.event_type(),
                snapshot.head.seq,
                before.store@.len() as u64,
            ),
        ),
{
    let answer = choose|answer: core::result::Result<AppendResultView, ErrorView>| #[trigger]
        before.answers(after, snapshot.head, draft, answer, outcome);
    let expected = snapshot.head;
    let current = store::memory_head_at(before.store@.len() as u64);
    assert(answer == Err::<AppendResultView, ErrorView>(
        store::conflict_error(expected, current),
    ));
    conflicts_give_their_heads(expected, current);
}

proof fn conflicts_give_their_heads(expected: HeadView, current: HeadView)
    ensures
        log::conflict_heads(store::conflict_error(expected, current)) == Some(
            (expected.seq, current.seq),
        ),
{
    let context = store::conflict_error(expected, current).context;
    crate::json::member_of_extended(
        crate::json::empty_object(),
        "current_head"@,
        store::head_json(current),
        "expected_head"@,
    );
    crate::json::member_of_extended(
        crate::json::empty_object(),
        "current_head"@,
        store::head_json(current),
        "current_head"@,
    );
    let first = crate::json::empty_object().with("current_head"@, store::head_json(current));
    crate::json::member_of_extended(
        first,
        "expected_head"@,
        store::head_json(expected),
        "expected_head"@,
    );
    crate::json::member_of_extended(
        first,
        "expected_head"@,
        store::head_json(expected),
        "current_head"@,
    );
    reveal_strlit("current_head");
    reveal_strlit("expected_head");
    assert("current_head"@ != "expected_head"@) by {
        assert("current_head"@.len() != "expected_head"@.len());
    }
    head_tells_seq(expected);
    head_tells_seq(current);
}

proof fn head_tells_seq(head: HeadView)
    ensures
        store::head_json(head).member("seq"@) == Some(
            crate::json::JsonView::Int(head.seq as int),
        ),
{
    let revision = crate::json::text_or_null(head.revision);
    crate::json::member_of_extended(
        crate::json::empty_object(),
        "revision"@,
        revision,
        "seq"@,
    );
    let first = crate::json::empty_object().with("revision"@, revision);
    crate::json::member_of_extended(
        first,
        "seq"@,
        crate::json::JsonView::Int(head.seq as int),
        "seq"@,
    );
    reveal_strlit("revision");
    reveal_strlit("seq");
    assert("revision"@.len() != "seq"@.len());
}

/// What is appended keeps the log readable: behind a snapshot of the log in
/// memory, an accepted draft with a new ID leaves a log that folds, into the
/// project that the draft was tried on.
pub proof fn accepted_appends_keep_the_log_readable(
    events: Seq<EventView>,
    prefix: Seq<char>,
    snapshot: SnapshotView,
    draft: EventDraftView,
)
    requires
        events.len() < u64::MAX,
        log::snapshot_of(
            prefix,
            store::memory_head_at(events.len() as u64),
            events,
        ) == Ok::<SnapshotView, ErrorView>(snapshot),
        log::refusal(prefix, snapshot, draft) is None,
        draft.schema == "alder.event.v0"@,
        store::event_with_id(events, draft.id) is None,
    ensures
        ({
            let moved = store::memory_after(events, snapshot.head, draft);
            &&& moved == events.push(draft.at_seq((events.len() + 1) as u64))
            &&& rules::folded(moved) == rules::step(
                snapshot.state,
                draft.at_seq((events.len() + 1) as u64),
            )
            &&& rules::folded(moved) is Ok
        }),
{
    let event = draft.at_seq((events.len() + 1) as u64);
    let moved = store::memory_after(events, snapshot.head, draft);
    assert(moved == events.push(event));
    assert(moved.drop_last() =~= events);
    store::event_with_id_finds(events, draft.id);
}

/// Whether a statement was appended behind the snapshot of a log in memory, as the
/// event that it is told as, and the log folds with it.
pub open spec fn appended_behind<H: AppendHook>(
    before: ProjectLog<MemoryStore, H>,
    after: ProjectLog<MemoryStore, H>,
    snapshot: SnapshotView,
    payload: EventPayloadView,
    result: AppendResultView,
) -> bool {
    &&& result.event.payload == payload
    &&& result.event.actor == before.actor@
    &&& result.event.seq == before.store@.len() + 1
    &&& result.head == store::memory_head_at((before.store@.len() + 1) as u64)
    &&& after.store@ == before.store@.push(result.event)
    &&& rules::folded(after.store@) == rules::step(snapshot.state, result.event)
    &&& rules::folded(after.store@) is Ok
    &&& before.on_append.heard(after.on_append)
}

/// With no other writer, a statement that the project takes is appended, told as the
/// event that it became, and heard of; unless chance has given it the ID of an event
/// that is in the log already.
pub proof fn a_writer_alone_is_never_refused<H: AppendHook>(
    before: ProjectLog<MemoryStore, H>,
    after: ProjectLog<MemoryStore, H>,
    snapshot: SnapshotView,
    payload: EventPayloadView,
    outcome: core::result::Result<AppendResultView, ErrorView>,
)
    requires
        before.store@.len() < u64::MAX,
        log::snapshot_of(
            before.prefix@,
            store::memory_head_at(before.store@.len() as u64),
            before.store@,
        ) == Ok::<SnapshotView, ErrorView>(snapshot),
        forall|id: Seq<char>, at: Instant|
            log::refusal(
                before.prefix@,
                snapshot,
                #[trigger] log::draft_of(id, at, before.actor@, payload),
            ) is None,
        before.states(after, snapshot, payload, outcome),
    ensures
        outcome is Ok,
        appended_behind(before, after, snapshot, payload, outcome->Ok_0) || after.store@
            == before.store@ && before.store@.contains(outcome->Ok_0.event),
{
    let (id, at) = choose|id: Seq<char>, at: Instant|
        ids::ulid_shaped(id) && #[trigger] before.appends(
            after,
            snapshot,
            log::draft_of(id, at, before.actor@, payload),
            outcome,
        );
    let draft = log::draft_of(id, at, before.actor@, payload);
    let events = before.store@;
    let answer = choose|answer: core::result::Result<AppendResultView, ErrorView>| #[trigger]
        before.answers(after, snapshot.head, draft, answer, outcome);
    if store::event_with_id(events, draft.id) is None {
        accepted_appends_keep_the_log_readable(events, before.prefix@, snapshot, draft);
    } else {
        store::event_with_id_finds(events, draft.id);
    }
}

// ---- observations ----

/// A level that has been reported is no news: reporting it again appends nothing.
pub proof fn repeated_reports_are_no_news(
    s: StateView,
    seq: u64,
    observation: ObservationDefinitionView,
)
    requires
        rules::report(s, seq, observation) is Ok,
    ensures
        log::newness(
            rules::report(s, seq, observation)->Ok_0,
            observation.key,
            Some(observation.level),
        ) is None,
{
}

/// A key that has been retired is gone: retiring it again appends nothing.
pub proof fn repeated_retirements_are_no_news(s: StateView, key: ObservationKeyView)
    requires
        rules::retire(s, key) is Ok,
    ensures
        log::newness(rules::retire(s, key)->Ok_0, key, None) is None,
{
}

/// What is news is accepted: a valid level that differs from the current one, or
/// the retirement of a current key, is a statement that the project takes.
pub proof fn news_is_accepted(
    s: StateView,
    event: EventView,
    key: ObservationKeyView,
    level: Option<Seq<char>>,
)
    requires
        log::observation_error(key, level) is None,
        log::newness(s, key, level) is Some,
        event.payload == EventPayloadView::Observation(log::newness(s, key, level)->0),
    ensures
        rules::step(s, event) is Ok,
{
}

// ---- the loop ----

/// Whether the statement asks for a rotation.
pub open spec fn asks_for_rotation(payload: EventPayloadView) -> bool {
    match payload {
        EventPayloadView::Loop(LoopEventPayloadView::LoopRotationRequested { .. }) => true,
        EventPayloadView::Loop(LoopEventPayloadView::LegacyPassEnded(body)) => {
            rules::asked_to_rotate(body)
        },
        _ => false,
    }
}

/// The sequence of the last request for a rotation, read straight off the log.
pub open spec fn latest_rotation(events: Seq<EventView>) -> Option<u64>
    decreases events.len(),
{
    if events.len() == 0 {
        None
    } else if asks_for_rotation(events.last().payload) {
        Some(events.last().seq)
    } else {
        latest_rotation(events.drop_last())
    }
}

proof fn operating_leaves_control(
    s: StateView,
    seq: u64,
    operations: Seq<crate::work::WorkOperationView>,
)
    requires
        rules::operated(s, seq, operations) is Ok,
    ensures
        (rules::operated(s, seq, operations)->Ok_0).loop_control == s.loop_control,
    decreases operations.len(),
{
    if operations.len() > 0 {
        operating_leaves_control(s, seq, operations.drop_last());
    }
}

/// The fold remembers exactly the last request for a rotation.
pub proof fn folded_rotation_mirrors_the_log(events: Seq<EventView>)
    requires
        rules::folded(events) is Ok,
    ensures
        (rules::folded(events)->Ok_0).loop_control.rotate_requested_seq == latest_rotation(events),
    decreases events.len(),
{
    if events.len() > 0 {
        let front = events.drop_last();
        folded_rotation_mirrors_the_log(front);
        let s = rules::folded(front)->Ok_0;
        match events.last().payload {
            EventPayloadView::Work(payload) => {
                if let crate::event::WorkEventPayloadView::WorkChanged {
                    operations,
                    ..
                } = payload {
                    operating_leaves_control(s, events.last().seq, operations);
                }
            },
            _ => {},
        }
    }
}

// ---- ready work ----

proof fn work_weakly_ordered()
    ensures
        sorting::weak_order::<&Work>(),
{
    assert forall|a: WorkView| !#[trigger] <&Work as sorting::Ranked>::ahead(a, a) by {
        text::text_before_irreflexive(a.id);
    }
    assert forall|a: WorkView, b: WorkView, c: WorkView|
        #[trigger] <&Work as sorting::Ranked>::ahead(a, b)
            && #[trigger] <&Work as sorting::Ranked>::ahead(b, c) implies <&Work as sorting::Ranked>::ahead(
        a,
        c,
    ) by {
        if text::text_before(a.id, b.id) && text::text_before(b.id, c.id) {
            text::text_before_transitive(a.id, b.id, c.id);
        }
    }
    assert forall|a: WorkView, b: WorkView, c: WorkView|
        #[trigger] <&Work as sorting::Ranked>::ahead(a, c) implies <&Work as sorting::Ranked>::ahead(
        a,
        b,
    ) || #[trigger] <&Work as sorting::Ranked>::ahead(b, c) by {
        text::text_before_total(a.id, b.id);
        if text::text_before(b.id, a.id) && text::text_before(a.id, c.id) {
            text::text_before_transitive(b.id, a.id, c.id);
        }
    }
}

proof fn ready_among_finds(s: StateView, keys: Seq<Seq<char>>, work: WorkView)
    ensures
        rules::ready_among(s, keys).contains(work) <==> exists|i: int|
            0 <= i < keys.len() && #[trigger] s.work[keys[i]] == work && rules::ready(s, work.id),
    decreases keys.len(),
{
    if keys.len() > 0 {
        let front = keys.drop_last();
        ready_among_finds(s, front, work);
        let found = rules::ready_among(s, keys);
        let before = rules::ready_among(s, front);
        if before.contains(work) {
            let i = choose|i: int| 0 <= i < before.len() && before[i] == work;
            assert(found[i] == work);
            let j = choose|j: int|
                0 <= j < front.len() && #[trigger] s.work[front[j]] == work && rules::ready(
                    s,
                    work.id,
                );
            assert(s.work[keys[j]] == work);
        }
        if s.work[keys.last()] == work && rules::ready(s, work.id) {
            assert(found[found.len() - 1] == work);
            assert(s.work[keys[keys.len() - 1]] == work);
        }
        if found.contains(work) && !before.contains(work) {
            let i = choose|i: int| 0 <= i < found.len() && found[i] == work;
            if i < before.len() {
                assert(before[i] == work);
            }
        }
        if exists|i: int|
            0 <= i < keys.len() && #[trigger] s.work[keys[i]] == work && rules::ready(s, work.id) {
            let i = choose|i: int|
                0 <= i < keys.len() && #[trigger] s.work[keys[i]] == work && rules::ready(
                    s,
                    work.id,
                );
            if i < front.len() {
                assert(s.work[front[i]] == work);
            }
        }
    }
}

/// What is listed as ready is exactly the work that an attempt may start at, the
/// higher priority first, and of one priority the longer open.
pub proof fn ready_work_is_listed_best_first(s: StateView, id: Seq<char>)
    requires
        laws::keyed(s),
        s.work.contains_key(id),
    ensures
        rules::ready_work(s).contains(s.work[id]) <==> rules::ready(s, id),
        sorting::in_order::<&Work>(rules::ready_work(s)),
{
    broadcast use vstd::seq_lib::group_to_multiset_ensures;

    let keys = catalog::listing::<String>(s.work.dom());
    catalog::listing_exists::<String>(s.work.dom());
    let found = rules::ready_among(s, keys);
    work_weakly_ordered();
    sorting::sorted_is_ordered_permutation::<&Work>(found);
    ready_among_finds(s, keys, s.work[id]);
    assert(s.work[id].id == id);
    assert(keys.to_set().contains(id));
    let i = choose|i: int| 0 <= i < keys.len() && keys[i] == id;
    assert(s.work[keys[i]] == s.work[id]);
    assert(rules::ready_work(s).to_multiset().count(s.work[id]) == found.to_multiset().count(
        s.work[id],
    ));
}

/// What is listed as ready is work of the project, in order.
pub(crate) proof fn ready_work_is_known(s: StateView)
    requires
        laws::keyed(s),
    ensures
        sorting::in_order::<&Work>(rules::ready_work(s)),
        forall|work: WorkView| #[trigger]
            rules::ready_work(s).contains(work) ==> exists|k: Seq<char>| #[trigger]
                s.work.contains_key(k) && s.work[k] == work,
{
    broadcast use vstd::seq_lib::group_to_multiset_ensures;

    let keys = catalog::listing::<String>(s.work.dom());
    catalog::listing_exists::<String>(s.work.dom());
    let found = rules::ready_among(s, keys);
    work_weakly_ordered();
    sorting::sorted_is_ordered_permutation::<&Work>(found);
    assert forall|work: WorkView| #[trigger] rules::ready_work(s).contains(work) implies exists|
        k: Seq<char>,
    | #[trigger]
        s.work.contains_key(k) && s.work[k] == work by {
        assert(rules::ready_work(s).to_multiset().count(work) == found.to_multiset().count(work));
        assert(found.contains(work));
        ready_among_finds(s, keys, work);
        let i = choose|i: int|
            0 <= i < keys.len() && #[trigger] s.work[keys[i]] == work && rules::ready(s, work.id);
        assert(keys.to_set().contains(keys[i]));
        assert(s.work.contains_key(keys[i]));
    }
}

// ---- numbers ----

/// How many attempts at a work item a project holds.
pub open spec fn attempts_at(s: StateView, work_id: Seq<char>) -> nat {
    log::attempts_among(s, work_id, catalog::listing::<String>(s.attempts.dom()))
}

/// How many questions about a work item a project holds.
pub open spec fn questions_about(s: StateView, work_id: Seq<char>) -> nat {
    log::questions_among(s, work_id, catalog::listing::<String>(s.questions.dom()))
}

/// Whether the event starts an attempt at the work item.
pub open spec fn starts_at(event: EventView, work_id: Seq<char>) -> bool {
    match event.payload {
        EventPayloadView::Work(WorkEventPayloadView::AttemptStarted { attempt }) => attempt.work_id
            == work_id,
        _ => false,
    }
}

/// Whether the event asks a question about the work item.
pub open spec fn asks_about(event: EventView, work_id: Seq<char>) -> bool {
    match event.payload {
        EventPayloadView::Work(WorkEventPayloadView::QuestionAsked { question }) => question.work_id
            == work_id,
        _ => false,
    }
}

proof fn attempts_among_counts(s: StateView, work_id: Seq<char>, keys: Seq<Seq<char>>)
    requires
        keys.no_duplicates(),
    ensures
        keys.to_set().filter(|k: Seq<char>| s.attempts[k].work_id == work_id).finite(),
        keys.to_set().filter(|k: Seq<char>| s.attempts[k].work_id == work_id).len()
            == log::attempts_among(s, work_id, keys),
    decreases keys.len(),
{
    let at = |k: Seq<char>| s.attempts[k].work_id == work_id;
    if keys.len() == 0 {
        assert(keys.to_set().filter(at) =~= Set::empty());
    } else {
        let front = keys.drop_last();
        attempts_among_counts(s, work_id, front);
        last_joins(keys, at);
    }
}

proof fn questions_among_counts(s: StateView, work_id: Seq<char>, keys: Seq<Seq<char>>)
    requires
        keys.no_duplicates(),
    ensures
        keys.to_set().filter(|k: Seq<char>| s.questions[k].work_id == work_id).finite(),
        keys.to_set().filter(|k: Seq<char>| s.questions[k].work_id == work_id).len()
            == log::questions_among(s, work_id, keys),
    decreases keys.len(),
{
    let about = |k: Seq<char>| s.questions[k].work_id == work_id;
    if keys.len() == 0 {
        assert(keys.to_set().filter(about) =~= Set::empty());
    } else {
        let front = keys.drop_last();
        questions_among_counts(s, work_id, front);
        last_joins(keys, about);
    }
}

/// The keys that pass a test are those before the last one that do, and the last
/// one where it does, which is not among them.
proof fn last_joins(keys: Seq<Seq<char>>, test: spec_fn(Seq<char>) -> bool)
    requires
        keys.len() > 0,
        keys.no_duplicates(),
    ensures
        !keys.drop_last().to_set().contains(keys.last()),
        keys.to_set().filter(test) == if test(keys.last()) {
            keys.drop_last().to_set().filter(test).insert(keys.last())
        } else {
            keys.drop_last().to_set().filter(test)
        },
{
    let front = keys.drop_last();
    let last = keys.last();
    assert forall|k: Seq<char>| keys.to_set().contains(k) <==> front.to_set().contains(k) || k
        == last by {
        if front.to_set().contains(k) {
            let i = choose|i: int| 0 <= i < front.len() && front[i] == k;
            assert(keys[i] == k);
        }
        if keys.to_set().contains(k) && k != last {
            let i = choose|i: int| 0 <= i < keys.len() && keys[i] == k;
            assert(front[i] == k);
        }
        if k == last {
            assert(keys[keys.len() - 1] == k);
        }
    }
    assert(keys.to_set().filter(test) =~= if test(last) {
        front.to_set().filter(test).insert(last)
    } else {
        front.to_set().filter(test)
    });
}

proof fn numbers_are_sizes(s: StateView, work_id: Seq<char>)
    requires
        s.attempts.dom().finite(),
        s.questions.dom().finite(),
    ensures
        s.attempts.dom().filter(|k: Seq<char>| s.attempts[k].work_id == work_id).finite(),
        s.attempts.dom().filter(|k: Seq<char>| s.attempts[k].work_id == work_id).len()
            == attempts_at(s, work_id),
        s.questions.dom().filter(|k: Seq<char>| s.questions[k].work_id == work_id).finite(),
        s.questions.dom().filter(|k: Seq<char>| s.questions[k].work_id == work_id).len()
            == questions_about(s, work_id),
{
    let attempts = catalog::listing::<String>(s.attempts.dom());
    let questions = catalog::listing::<String>(s.questions.dom());
    catalog::listing_exists::<String>(s.attempts.dom());
    catalog::listing_exists::<String>(s.questions.dom());
    record_laws::ascending_texts_differ(attempts);
    record_laws::ascending_texts_differ(questions);
    attempts_among_counts(s, work_id, attempts);
    questions_among_counts(s, work_id, questions);
}

/// Attempts and questions take their numbers for good: the count that the next
/// ID is made of grows by one with each attempt that starts at the item, or each
/// question that is asked about it, and no statement makes it smaller.
pub proof fn numbers_are_taken_for_good(s: StateView, event: EventView, work_id: Seq<char>)
    requires
        laws::sound(s),
        rules::step(s, event) is Ok,
    ensures
        attempts_at(rules::step(s, event)->Ok_0, work_id) == attempts_at(s, work_id) + if starts_at(
            event,
            work_id,
        ) {
            1nat
        } else {
            0nat
        },
        questions_about(rules::step(s, event)->Ok_0, work_id) == questions_about(s, work_id)
            + if asks_about(event, work_id) {
            1nat
        } else {
            0nat
        },
{
    let t = rules::step(s, event)->Ok_0;
    let tried = s.attempts.dom().filter(|k: Seq<char>| s.attempts[k].work_id == work_id);
    let tried_now = t.attempts.dom().filter(|k: Seq<char>| t.attempts[k].work_id == work_id);
    let asked = s.questions.dom().filter(|k: Seq<char>| s.questions[k].work_id == work_id);
    let asked_now = t.questions.dom().filter(|k: Seq<char>| t.questions[k].work_id == work_id);
    laws::steps_keep_soundness(s, event);
    numbers_are_sizes(s, work_id);
    numbers_are_sizes(t, work_id);
    if let EventPayloadView::Work(WorkEventPayloadView::WorkChanged { operations, .. }) =
        event.payload {
        laws::operating_leaves_attempts(s, event.seq, operations);
    }
    match event.payload {
        EventPayloadView::Work(WorkEventPayloadView::AttemptStarted { attempt }) => {
            if attempt.work_id == work_id {
                assert(tried_now =~= tried.insert(attempt.id));
            } else {
                assert(tried_now =~= tried);
            }
            assert(asked_now =~= asked);
        },
        EventPayloadView::Work(WorkEventPayloadView::QuestionAsked { question }) => {
            if question.work_id == work_id {
                assert(asked_now =~= asked.insert(question.id));
            } else {
                assert(asked_now =~= asked);
            }
            assert(tried_now =~= tried);
        },
        _ => {
            assert(tried_now =~= tried);
            assert(asked_now =~= asked);
        },
    }
}

// ---- folding ----

/// A log is folded event by event, from a project of nothing. It folds as long as each
/// event has the number of its place, the schema of events, an ID of its own, and
/// is accepted where it stands.
pub proof fn logs_fold_event_by_event(events: Seq<EventView>, event: EventView)
    ensures
        rules::folded(Seq::empty()) is Ok,
        ({
            let none = rules::folded(Seq::empty())->Ok_0;
            &&& none.work.is_empty() && none.attempts.is_empty() && none.questions.is_empty()
            &&& none.observations.is_empty()
            &&& !none.loop_control.paused && none.loop_control.pause_reason is None
            &&& none.loop_control.engine is None
            &&& none.loop_control.rotate_requested_seq is None
            &&& none.loop_control.nudge_requested_seq is None
        }),
        rules::folded(events.push(event)) is Ok <==> {
            &&& rules::folded(events) is Ok
            &&& event.seq == events.len() + 1
            &&& event.schema == "alder.event.v0"@
            &&& forall|i: int| 0 <= i < events.len() ==> (#[trigger] events[i]).id != event.id
            &&& rules::step(rules::folded(events)->Ok_0, event) is Ok
        },
        rules::folded(events.push(event)) is Ok ==> rules::folded(events.push(event))
            == rules::step(rules::folded(events)->Ok_0, event),
        rules::folded(events) is Err ==> rules::folded(events.push(event)) == rules::folded(events),
{
    assert(events.push(event).drop_last() =~= events);
    assert(events.push(event).last() == event);
}

} // verus!
